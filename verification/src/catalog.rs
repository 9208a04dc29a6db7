//! The catalog: which snapshots exist, and which stores are attached.

use vstd::prelude::*;
use vstd::slice::slice_to_vec;
use vstd::string::StringExecFns;
use vstd::utf8::{decode_utf8, valid_utf8};
use crate::error::{Capacity, Error, StorageFault};
use crate::fill::{all_found, fails_first_at, first_fault, rows_filled, rows_from, stamp, stamped};
use crate::ident::{generate_id, packed_id, ROW_LIMIT, SNAPSHOT_LIMIT};
use crate::image::{
    has_store, image_is_sound, image_sound, lemma_store_by_name, lemma_store_pushed,
    lemma_store_replaced, names_distinct, store_index, stores_by_name, table_sound,
};
use crate::name::SqlName;
use crate::snapshot::{
    walk_view, Exclusive, HandleView, Shared, Snapshot, WalkFault, WalkItem, WalkItemView,
};
use crate::path::{EncodedPath, Local};
use crate::classify::{classify, diff_of};
use crate::store::{
    catalog_view, diff_rows_view, CatalogRow, CatalogRowView, DiffRow, DiffRowView, SnapTable,
    SnapTableView, Store, StoreView,
};
use crate::clock::utc_timestamp;
use crate::text::text_from_utf8;

verus! {

/// What a catalog holds: the shared table and the auxiliary stores, by name.
pub struct DatabaseView {
    /// The token that tells this catalog instance from every other.
    pub token: u64,
    /// The directory that holds the catalog's files.
    pub root: Seq<u8>,
    /// The ordinal that the next new snapshot gets.
    pub snapshot_count: nat,
    /// The shared table, in storage order.
    pub catalog: Seq<CatalogRowView>,
    /// The auxiliary stores, by the stem of their file.
    pub stores: Map<Seq<char>, StoreView>,
    /// The aliases that a live handle holds attached.
    pub attached: Set<Seq<char>>,
}

/// Whether the paths of the stores under `root` can be written as text: a
/// name is text by its grammar, so the root decides.
pub open spec fn root_is_text(root: Seq<u8>) -> bool {
    valid_utf8(root)
}

/// The path of the store named `name` under a root that is text: the root, a
/// `/`, the name, and `.db`.
pub open spec fn store_path_text(root: Seq<u8>, name: Seq<char>) -> Seq<char> {
    decode_utf8(root) + seq!['/'] + name + seq!['.', 'd', 'b']
}

/// What holds of every catalog: the counter agrees with the shared table, what
/// is attached exists and has a path, and the snapshots' ranges of identifiers
/// are sound and disjoint.
pub open spec fn consistent(v: DatabaseView) -> bool {
    &&& v.snapshot_count == v.catalog.len()
    &&& v.attached.subset_of(v.stores.dom())
    &&& forall|n: Seq<char>| #[trigger] v.attached.contains(n) ==> root_is_text(v.root)
    &&& forall|n: Seq<char>|
        v.stores.dom().contains(n) && (#[trigger] v.stores[n]).snap is Some ==> table_sound(
            v.stores[n].snap->0,
            v.snapshot_count,
        )
    &&& forall|n: Seq<char>, m: Seq<char>|
        n != m && v.stores.dom().contains(n) && v.stores.dom().contains(m) && (
        #[trigger] v.stores[n]).snap is Some && (#[trigger] v.stores[m]).snap is Some
            ==> v.stores[n].snap->0.ordinal != v.stores[m].snap->0.ordinal
}

/// The index of all snapshots taken, with the stores that back them.
pub struct Database {
    token: u64,
    root: EncodedPath<Local>,
    snapshot_count: usize,
    catalog: Vec<CatalogRow>,
    stores: Vec<Store>,
    attached: Vec<bool>,
}

impl View for Database {
    type V = DatabaseView;

    closed spec fn view(&self) -> DatabaseView {
        DatabaseView {
            token: self.token,
            root: self.root@,
            snapshot_count: self.snapshot_count as nat,
            catalog: catalog_view(self.catalog@),
            stores: stores_by_name(self.stores@),
            attached: Set::new(
                |n: Seq<char>|
                    has_store(self.stores@, n) && self.attached@[store_index(self.stores@, n)],
            ),
        }
    }
}

/// The view after `name` has been attached: its store is there, empty if it
/// was not there before, and its alias is held.
pub open spec fn with_attached(v: DatabaseView, name: Seq<char>) -> DatabaseView {
    DatabaseView {
        stores: if v.stores.dom().contains(name) {
            v.stores
        } else {
            v.stores.insert(name, StoreView { snap: None, diff: None })
        },
        attached: v.attached.insert(name),
        ..v
    }
}

/// Whether `name` can be attached: the root is text, and no live
/// handle holds the alias.
pub open spec fn can_attach(v: DatabaseView, name: Seq<char>) -> bool {
    root_is_text(v.root) && !v.attached.contains(name)
}

/// Why `name` cannot be attached, where it cannot.
pub open spec fn attach_error(v: DatabaseView, name: Seq<char>) -> Error {
    if !root_is_text(v.root) {
        Error::PathEncodingFailure
    } else {
        Error::StorageEngineFailure(StorageFault::AliasInUse)
    }
}

/// The table of a snapshot that has just been made under `ordinal`: no rows,
/// and row ordinal zero spent, so that the first row gets the one after it.
pub open spec fn new_table(ordinal: u64) -> SnapTableView {
    SnapTableView { ordinal, last_row: 0, rows: Seq::empty() }
}

/// Whether the store named `name` still lacks its snapshot table.
pub open spec fn lacks_table(v: DatabaseView, name: Seq<char>) -> bool {
    !v.stores.dom().contains(name) || v.stores[name].snap is None
}

/// The view after the snapshot `name` has been opened at `created_at`: the
/// store is attached; where it lacked its table, the table is made under the
/// next ordinal, a row of the shared table registers the snapshot as not yet
/// filled, and the counter moves on.
pub open spec fn with_snapshot(v: DatabaseView, name: Seq<char>, created_at: Seq<char>)
    -> DatabaseView {
    let a = with_attached(v, name);
    if lacks_table(v, name) {
        DatabaseView {
            stores: a.stores.insert(
                name,
                StoreView { snap: Some(new_table(v.snapshot_count as u64)), diff: a.stores[name].diff },
            ),
            catalog: v.catalog.push(
                CatalogRowView { name, created_at, filled_at: None, uploaded: false },
            ),
            snapshot_count: v.snapshot_count + 1,
            ..a
        }
    } else {
        a
    }
}

/// Whether the snapshot `name` can be opened for filling: it can be attached,
/// and an ordinal is left for it where it needs one.
pub open spec fn can_open(v: DatabaseView, name: Seq<char>) -> bool {
    can_attach(v, name) && (lacks_table(v, name) ==> v.snapshot_count < SNAPSHOT_LIMIT)
}

/// Why the snapshot `name` cannot be opened for filling, where it cannot.
pub open spec fn open_error(v: DatabaseView, name: Seq<char>) -> Error {
    if !can_attach(v, name) {
        attach_error(v, name)
    } else {
        Error::CapacityExceeded(Capacity::TooManySnapshots)
    }
}

/// The error that a fault of the walk is reported as.
pub open spec fn fault_error(fault: WalkFault) -> Error {
    match fault {
        WalkFault::Traversal => Error::TraversalFailure,
        WalkFault::Serialization => Error::SerializationFailure,
    }
}

/// Why a handle cannot be used on the snapshot table of its store, where it
/// cannot: another catalog issued it, its alias is not held, or the store
/// lacks the table.
pub open spec fn table_error(v: DatabaseView, handle: HandleView) -> Option<Error> {
    if handle.catalog != v.token {
        Some(
            Error::IdentityMismatch {
                this: v.token,
                before: handle.catalog,
                after: handle.catalog,
            },
        )
    } else if !v.attached.contains(handle.name) {
        Some(Error::StorageEngineFailure(StorageFault::NotAttached))
    } else if v.stores[handle.name].snap is None {
        Some(Error::StorageEngineFailure(StorageFault::NoSuchTable))
    } else {
        None
    }
}

/// Why a fill fails, where it does: the handle cannot be used; or a step of
/// the walk failed, the first of them deciding; or the snapshot has not enough
/// row ordinals left.
pub open spec fn fill_error(v: DatabaseView, handle: HandleView, items: Seq<WalkItemView>)
    -> Option<Error> {
    if table_error(v, handle) is Some {
        table_error(v, handle)
    } else if !all_found(items) {
        Some(fault_error(items[choose|k: int| fails_first_at(items, k)]->Failed_0))
    } else if v.stores[handle.name].snap->0.last_row + items.len() >= ROW_LIMIT {
        Some(Error::CapacityExceeded(Capacity::TooManyRows))
    } else {
        None
    }
}

/// The view after the snapshot `name` has been filled from `items` at
/// `filled_at`: the new rows follow those that were there, the row ordinals
/// move on by their number, and the shared table is stamped.
pub open spec fn with_filled(
    v: DatabaseView,
    name: Seq<char>,
    items: Seq<WalkItemView>,
    filled_at: Seq<char>,
) -> DatabaseView {
    let store = v.stores[name];
    let table = store.snap->0;
    DatabaseView {
        stores: v.stores.insert(
            name,
            StoreView {
                snap: Some(
                    SnapTableView {
                        ordinal: table.ordinal,
                        last_row: (table.last_row + items.len()) as u64,
                        rows: table.rows + rows_filled(table.ordinal, table.last_row, items),
                    },
                ),
                diff: store.diff,
            },
        ),
        catalog: stamped(v.catalog, name, filled_at),
        ..v
    }
}

/// Why a handle cannot be used on the diff table of its store, where it
/// cannot: another catalog issued it, its alias is not held, or the store
/// lacks the table.
pub open spec fn diff_table_error(v: DatabaseView, handle: HandleView) -> Option<Error> {
    if handle.catalog != v.token {
        Some(
            Error::IdentityMismatch {
                this: v.token,
                before: handle.catalog,
                after: handle.catalog,
            },
        )
    } else if !v.attached.contains(handle.name) {
        Some(Error::StorageEngineFailure(StorageFault::NotAttached))
    } else if v.stores[handle.name].diff is None {
        Some(Error::StorageEngineFailure(StorageFault::NoSuchTable))
    } else {
        None
    }
}

/// The view after the store `name` has been given a diff table, empty, where
/// it had none.
pub open spec fn with_diff_table(v: DatabaseView, name: Seq<char>) -> DatabaseView {
    if v.stores[name].diff is Some {
        v
    } else {
        DatabaseView {
            stores: v.stores.insert(
                name,
                StoreView { snap: v.stores[name].snap, diff: Some(Seq::empty()) },
            ),
            ..v
        }
    }
}

/// The view after the diff table of the store `name` has been replaced by `rows`.
pub open spec fn with_diff(v: DatabaseView, name: Seq<char>, rows: Seq<DiffRowView>)
    -> DatabaseView {
    DatabaseView {
        stores: v.stores.insert(name, StoreView { snap: v.stores[name].snap, diff: Some(rows) }),
        ..v
    }
}

/// Why two snapshots cannot be compared into the diff of `diff`, where they
/// cannot: a handle is of another catalog, or one of the three tables cannot
/// be used.
pub open spec fn diff_error(
    v: DatabaseView,
    diff: HandleView,
    before: HandleView,
    after: HandleView,
) -> Option<Error> {
    if diff_table_error(v, diff) is Some {
        diff_table_error(v, diff)
    } else if before.catalog != v.token || after.catalog != v.token {
        Some(
            Error::IdentityMismatch { this: v.token, before: before.catalog, after: after.catalog },
        )
    } else if table_error(v, before) is Some {
        table_error(v, before)
    } else {
        table_error(v, after)
    }
}

/// The view after the diff of `diff` has been filled with what differs
/// between the snapshots `before` and `after`.
pub open spec fn with_diff_filled(
    v: DatabaseView,
    diff: Seq<char>,
    before: Seq<char>,
    after: Seq<char>,
) -> DatabaseView {
    with_diff(
        v,
        diff,
        diff_of(v.stores[before].snap->0.rows, v.stores[after].snap->0.rows),
    )
}

/// The view after the alias `name` has been let go.
pub open spec fn with_detached(v: DatabaseView, name: Seq<char>) -> DatabaseView {
    DatabaseView { attached: v.attached.remove(name), ..v }
}

impl Database {
    /// The invariant of the representation, which implies `consistent`.
    pub closed spec fn wf(&self) -> bool {
        &&& self.attached@.len() == self.stores@.len()
        &&& self.snapshot_count == self.catalog@.len()
        &&& image_sound(self.snapshot_count as nat, self.stores@)
        &&& forall|i: int|
            0 <= i < self.stores@.len() && #[trigger] self.attached@[i] ==> root_is_text(self.root@)
    }

    /// A well-formed catalog is consistent.
    pub proof fn lemma_wf_is_consistent(&self)
        requires
            self.wf(),
        ensures
            consistent(self@),
    {
        let v = self@;
        let stores = self.stores@;
        assert(names_distinct(stores));
        assert forall|n: Seq<char>| #[trigger] v.attached.contains(n) implies root_is_text(v.root) && v.stores.dom().contains(n) by {
            let i = store_index(stores, n);
            assert(self.attached@[i]);
        }
        assert forall|n: Seq<char>|
            v.stores.dom().contains(n) && (#[trigger] v.stores[n]).snap is Some implies table_sound(
            v.stores[n].snap->0,
            v.snapshot_count,
        ) by {
            let i = store_index(stores, n);
            assert(stores[i].snap is Some);
        }
        assert forall|n: Seq<char>, m: Seq<char>|
            n != m && v.stores.dom().contains(n) && v.stores.dom().contains(m) && (
            #[trigger] v.stores[n]).snap is Some && (
            #[trigger] v.stores[m]).snap is Some implies v.stores[n].snap->0.ordinal
            != v.stores[m].snap->0.ordinal by {
            let i = store_index(stores, n);
            let j = store_index(stores, m);
            assert(stores[i].snap is Some && stores[j].snap is Some);
            if i < j {
                assert(stores[i]@.snap->0.ordinal != stores[j]@.snap->0.ordinal);
            } else {
                assert(stores[j]@.snap->0.ordinal != stores[i]@.snap->0.ordinal);
            }
        }
    }

    /// Opens a catalog over what its files hold: the rows of the shared table
    /// and the auxiliary stores.
    ///
    /// The counter of snapshots is the number of rows of the shared table, and
    /// nothing is attached. Fails if and only if the stores do not form a sound
    /// image: two of them share a name or a snapshot ordinal, or a snapshot
    /// table holds an identifier outside its range or out of order.
    pub fn open(
        root: EncodedPath<Local>,
        token: u64,
        catalog: Vec<CatalogRow>,
        stores: Vec<Store>,
    ) -> (r: Result<Database, Error>)
        ensures
            r is Ok <==> image_sound(catalog@.len(), stores@),
            r matches Ok(db) ==> db.wf() && db@ == (DatabaseView {
                token,
                root: root@,
                snapshot_count: catalog@.len(),
                catalog: catalog_view(catalog@),
                stores: stores_by_name(stores@),
                attached: Set::empty(),
            }),
            r matches Err(e) ==> e == Error::StorageEngineFailure(StorageFault::Corrupt),
    {
        let count = catalog.len();
        if !image_is_sound(&stores, count) {
            return Err(Error::StorageEngineFailure(StorageFault::Corrupt));
        }
        let mut attached: Vec<bool> = Vec::new();
        let mut i: usize = 0;
        while i < stores.len()
            invariant
                i <= stores.len(),
                attached@.len() == i,
                forall|a: int| 0 <= a < i ==> !(#[trigger] attached@[a]),
            decreases stores.len() - i,
        {
            attached.push(false);
            i += 1;
        }
        let db = Database { token, root, snapshot_count: count, catalog, stores, attached };
        assert(db@.attached =~= Set::empty());
        Ok(db)
    }

    /// The token that tells this catalog instance from every other.
    pub fn token(&self) -> (r: u64)
        ensures
            r == self@.token,
    {
        self.token
    }

    /// The directory that holds the catalog's files.
    pub fn root(&self) -> (r: &EncodedPath<Local>)
        ensures
            r@ == self@.root,
    {
        &self.root
    }

    /// The ordinal that the next new snapshot gets.
    pub fn snapshot_count(&self) -> (r: usize)
        ensures
            r == self@.snapshot_count,
    {
        self.snapshot_count
    }

    /// The rows of the shared table, in storage order.
    pub fn catalog(&self) -> (r: &Vec<CatalogRow>)
        ensures
            catalog_view(r@) == self@.catalog,
    {
        &self.catalog
    }

    /// The auxiliary stores, as `open` takes them.
    pub fn stores(&self) -> (r: &Vec<Store>)
        ensures
            stores_by_name(r@) == self@.stores,
    {
        &self.stores
    }

    /// The store named `name`, if there is one.
    pub fn store(&self, name: &SqlName) -> (r: Option<&Store>)
        requires
            self.wf(),
        ensures
            r is Some <==> self@.stores.dom().contains(name@),
            r matches Some(store) ==> store.name@ == name@ && store@ == self@.stores[name@],
    {
        match self.find(name) {
            Some(i) => Some(&self.stores[i]),
            None => None,
        }
    }

    /// Whether a live handle holds the alias `name`.
    pub fn is_attached(&self, name: &SqlName) -> (r: bool)
        requires
            self.wf(),
        ensures
            r == self@.attached.contains(name@),
    {
        match self.find(name) {
            Some(i) => self.attached[i],
            None => false,
        }
    }

    /// The path of the file that backs the store named `name`: the root, a `/`,
    /// the name, and `.db`. Fails if and only if the root is no text.
    pub fn store_path(&self, name: &SqlName) -> (r: Result<String, Error>)
        ensures
            r is Ok <==> root_is_text(self@.root),
            r matches Ok(path) ==> path@ == store_path_text(self@.root, name@),
            r matches Err(e) ==> e is PathEncodingFailure,
    {
        match text_from_utf8(slice_to_vec(self.root.as_bytes())) {
            Some(root) => {
                let mut path = root;
                path.append("/");
                path.append(name.as_str());
                path.append(".db");
                proof {
                    reveal_strlit("/");
                    reveal_strlit(".db");
                    assert("/"@ =~= seq!['/']);
                    assert(".db"@ =~= seq!['.', 'd', 'b']);
                }
                Ok(path)
            },
            None => Err(Error::PathEncodingFailure),
        }
    }

    /// Opens a snapshot for reading only: attaches its store under `name`.
    ///
    /// Whether the snapshot was ever made is not looked at: a store that was
    /// not there is made, empty. Fails, and changes nothing, if the
    /// root is no text or a live handle holds the alias.
    pub fn readonly_snapshot(&mut self, name: SqlName) -> (r: Result<Snapshot<Shared>, Error>)
        requires
            old(self).wf(),
        ensures
            final(self).wf(),
            r is Ok <==> can_attach(old(self)@, name@),
            r matches Ok(handle) ==> final(self)@ == with_attached(old(self)@, name@) && handle@
                == (HandleView { name: name@, catalog: old(self)@.token }),
            r matches Err(e) ==> final(self)@ == old(self)@ && e == attach_error(
                old(self)@,
                name@,
            ),
    {
        match self.attach(&name) {
            Ok(_) => Ok(Snapshot::issue(name, self.token)),
            Err(e) => Err(e),
        }
    }

    /// Opens a snapshot for filling, as `open_snapshot_at` does, with the
    /// current time in UTC as the time of its making.
    pub fn open_snapshot(&mut self, name: SqlName) -> (r: Result<Snapshot<Exclusive>, Error>)
        requires
            old(self).wf(),
        ensures
            final(self).wf(),
            r is Ok <==> can_open(old(self)@, name@),
            r matches Ok(handle) ==> handle@ == (HandleView {
                name: name@,
                catalog: old(self)@.token,
            }) && exists|created_at: Seq<char>|
                final(self)@ == with_snapshot(old(self)@, name@, created_at),
            r matches Err(e) ==> final(self)@ == old(self)@ && e == open_error(old(self)@, name@),
    {
        let created_at = utc_timestamp();
        self.open_snapshot_at(name, created_at)
    }

    /// Opens a snapshot for filling, taking `created_at` as the current time.
    ///
    /// Attaches the store, making it if it is not there. Where the store lacks
    /// its snapshot table, the snapshot is made: it gets the next ordinal, an
    /// empty table and a row of the shared table, and the counter moves on.
    /// Opening a snapshot that was made before only attaches it. Fails, and
    /// changes nothing, if the store cannot be attached or no ordinal is left.
    pub fn open_snapshot_at(&mut self, name: SqlName, created_at: String) -> (r: Result<
        Snapshot<Exclusive>,
        Error,
    >)
        requires
            old(self).wf(),
        ensures
            final(self).wf(),
            r is Ok <==> can_open(old(self)@, name@),
            r matches Ok(handle) ==> final(self)@ == with_snapshot(
                old(self)@,
                name@,
                created_at@,
            ) && handle@ == (HandleView { name: name@, catalog: old(self)@.token }),
            r matches Err(e) ==> final(self)@ == old(self)@ && e == open_error(old(self)@, name@),
    {
        match self.check_attach(&name) {
            Ok(_) => {},
            Err(e) => {
                return Err(e);
            },
        }
        let lacks = match self.find(&name) {
            Some(i) => self.stores[i].snap.is_none(),
            None => true,
        };
        if lacks {
            match generate_id(self.snapshot_count as u64, 0) {
                Ok(_) => {},
                Err(e) => {
                    return Err(e);
                },
            }
        }
        let attached = self.attach(&name);
        assert(attached is Ok);
        if lacks {
            let ghost mid = *self;
            let at = self.find(&name);
            assert(at is Some);
            let i = at.unwrap();
            let ordinal = self.snapshot_count as u64;
            self.stores[i].snap = Some(SnapTable { ordinal, last_row: 0, rows: Vec::new() });
            self.catalog.push(
                CatalogRow { name: name.as_str().to_owned(), created_at, filled_at: None, uploaded: false },
            );
            self.snapshot_count = self.snapshot_count + 1;
            proof {
                assert(self.stores@[i as int]@.snap->0.rows =~= Seq::empty());
                self.lemma_store_changed(mid, i as int);
                assert(catalog_view(self.catalog@) =~= catalog_view(mid.catalog@).push(
                    CatalogRowView {
                        name: name@,
                        created_at: created_at@,
                        filled_at: None,
                        uploaded: false,
                    },
                ));
            }
        }
        Ok(Snapshot::issue(name, self.token))
    }

    /// The index of the store named `name`, if there is one.
    fn find(&self, name: &SqlName) -> (r: Option<usize>)
        requires
            self.wf(),
        ensures
            r matches Some(i) ==> i < self.stores@.len() && self.stores@[i as int].name@ == name@
                && store_index(self.stores@, name@) == i,
            r is Some <==> has_store(self.stores@, name@),
            r is Some <==> self@.stores.dom().contains(name@),
            r matches Some(i) ==> self@.stores[name@] == self.stores@[i as int]@,
            r matches Some(i) ==> (self@.attached.contains(name@) <==> self.attached@[i as int]),
            r is None ==> !self@.attached.contains(name@),
    {
        let mut i: usize = 0;
        while i < self.stores.len()
            invariant
                self.wf(),
                i <= self.stores@.len(),
                forall|k: int| 0 <= k < i ==> (#[trigger] self.stores@[k]).name@ != name@,
            decreases self.stores.len() - i,
        {
            if self.stores[i].name == *name {
                proof {
                    lemma_store_by_name(self.stores@, i as int);
                }
                return Some(i);
            }
            i += 1;
        }
        None
    }

    /// Whether `name` can be attached, and why not where it cannot.
    pub(crate) fn check_attach(&self, name: &SqlName) -> (r: Result<(), Error>)
        requires
            self.wf(),
        ensures
            r is Ok <==> can_attach(self@, name@),
            r matches Err(e) ==> e == attach_error(self@, name@),
    {
        match self.store_path(name) {
            Ok(_) => {},
            Err(e) => {
                return Err(e);
            },
        }
        match self.find(name) {
            Some(i) => {
                if self.attached[i] {
                    return Err(Error::StorageEngineFailure(StorageFault::AliasInUse));
                }
            },
            None => {},
        }
        Ok(())
    }

    /// Attaches the store named `name`, making an empty one if there is none.
    pub(crate) fn attach(&mut self, name: &SqlName) -> (r: Result<(), Error>)
        requires
            old(self).wf(),
        ensures
            final(self).wf(),
            r is Ok <==> can_attach(old(self)@, name@),
            r is Ok ==> final(self)@ == with_attached(old(self)@, name@),
            r is Err ==> final(self)@ == old(self)@,
            r matches Err(e) ==> e == attach_error(old(self)@, name@),
    {
        match self.store_path(name) {
            Ok(_) => {},
            Err(e) => {
                return Err(e);
            },
        }
        let ghost before = self.stores@;
        let ghost held = self.attached@;
        match self.find(name) {
            Some(i) => {
                if self.attached[i] {
                    return Err(Error::StorageEngineFailure(StorageFault::AliasInUse));
                }
                self.attached[i] = true;
                proof {
                    assert forall|n: Seq<char>|
                        self@.attached.contains(n) <==> old(self)@.attached.insert(
                            name@,
                        ).contains(n) by {
                        if has_store(before, n) {
                            let k = store_index(before, n);
                            if k == i {
                            } else {
                                assert(self.attached@[k] == held[k]);
                            }
                        }
                    }
                    assert(self@.attached =~= old(self)@.attached.insert(name@));
                }
            },
            None => {
                let store = Store { name: name.clone(), snap: None, diff: None };
                proof {
                    lemma_store_pushed(before, store);
                }
                self.stores.push(store);
                self.attached.push(true);
                proof {
                    assert forall|n: Seq<char>|
                        self@.attached.contains(n) <==> old(self)@.attached.insert(
                            name@,
                        ).contains(n) by {
                        if has_store(before, n) {
                            let k = store_index(before, n);
                            assert(self.attached@[k] == held[k]);
                        }
                    }
                    assert(self@.attached =~= old(self)@.attached.insert(name@));
                    assert(image_sound(self.snapshot_count as nat, self.stores@)) by {
                        assert forall|a: int|
                            0 <= a < self.stores@.len() && (
                            #[trigger] self.stores@[a]).snap is Some implies table_sound(
                            self.stores@[a]@.snap->0,
                            self.snapshot_count as nat,
                        ) by {
                            assert(self.stores@[a] == before[a]);
                        }
                        assert forall|a: int, b: int|
                            0 <= a < b < self.stores@.len() && (
                            #[trigger] self.stores@[a]).snap is Some && (
                            #[trigger] self.stores@[b]).snap is Some implies self.stores@[a]@.snap->0.ordinal
                            != self.stores@[b]@.snap->0.ordinal by {
                            assert(self.stores@[a] == before[a]);
                            assert(self.stores@[b] == before[b]);
                        }
                    }
                    assert forall|a: int|
                        0 <= a < self.stores@.len() && #[trigger] self.attached@[a] implies root_is_text(self.root@) by {
                        if a < before.len() {
                            assert(held[a]);
                            assert(self.stores@[a] == before[a]);
                        }
                    }
                }
            },
        }
        Ok(())
    }

    /// Lets go of the alias `name`; nothing happens where it is not held.
    pub(crate) fn detach(&mut self, name: &SqlName)
        requires
            old(self).wf(),
        ensures
            final(self).wf(),
            final(self)@ == with_detached(old(self)@, name@),
    {
        let ghost before = self.stores@;
        let ghost held = self.attached@;
        match self.find(name) {
            Some(i) => {
                self.attached[i] = false;
                proof {
                    assert forall|n: Seq<char>|
                        self@.attached.contains(n) <==> old(self)@.attached.remove(
                            name@,
                        ).contains(n) by {
                        if has_store(before, n) {
                            let k = store_index(before, n);
                            if k != i {
                                assert(self.attached@[k] == held[k]);
                            }
                        }
                    }
                    assert(self@.attached =~= old(self)@.attached.remove(name@));
                }
            },
            None => {
                assert(self@.attached =~= old(self)@.attached.remove(name@));
            },
        }
    }

    /// Attaches the store `name` and gives it a diff table where it has none.
    pub(crate) fn attach_diff(&mut self, name: &SqlName) -> (r: Result<(), Error>)
        requires
            old(self).wf(),
        ensures
            final(self).wf(),
            r is Ok <==> can_attach(old(self)@, name@),
            r is Ok ==> final(self)@ == with_diff_table(with_attached(old(self)@, name@), name@),
            r matches Err(e) ==> final(self)@ == old(self)@ && e == attach_error(
                old(self)@,
                name@,
            ),
    {
        match self.attach(name) {
            Ok(_) => {},
            Err(e) => {
                return Err(e);
            },
        }
        let ghost mid = *self;
        let at = self.find(name);
        assert(at is Some);
        let i = at.unwrap();
        if self.stores[i].diff.is_none() {
            self.stores[i].diff = Some(Vec::new());
            proof {
                assert(self.stores@[i as int]@.diff->0 =~= Seq::empty());
                self.lemma_store_changed(mid, i as int);
            }
        }
        Ok(())
    }

    /// The index of the store that `name` is attached under, with a snapshot
    /// table, for a handle that the catalog with the token `token` issued.
    fn find_table(&self, name: &SqlName, token: u64) -> (r: Result<usize, Error>)
        requires
            self.wf(),
        ensures
            r is Ok <==> table_error(self@, HandleView { name: name@, catalog: token }) is None,
            r matches Err(e) ==> Some(e) == table_error(
                self@,
                HandleView { name: name@, catalog: token },
            ),
            r matches Ok(i) ==> i < self.stores@.len() && self.stores@[i as int].name@ == name@
                && self.stores@[i as int].snap is Some && self@.stores[name@]
                == self.stores@[i as int]@ && self.attached@[i as int],
    {
        if token != self.token {
            return Err(Error::IdentityMismatch { this: self.token, before: token, after: token });
        }
        match self.find(name) {
            Some(i) => {
                if !self.attached[i] {
                    return Err(Error::StorageEngineFailure(StorageFault::NotAttached));
                }
                if self.stores[i].snap.is_none() {
                    return Err(Error::StorageEngineFailure(StorageFault::NoSuchTable));
                }
                Ok(i)
            },
            None => Err(Error::StorageEngineFailure(StorageFault::NotAttached)),
        }
    }

    /// Whether a handle can be used on the snapshot table of its store, and why
    /// not where it cannot.
    pub(crate) fn check_table(&self, name: &SqlName, token: u64) -> (r: Result<(), Error>)
        requires
            self.wf(),
        ensures
            r is Ok <==> table_error(self@, HandleView { name: name@, catalog: token }) is None,
            r matches Err(e) ==> Some(e) == table_error(
                self@,
                HandleView { name: name@, catalog: token },
            ),
    {
        match self.find_table(name, token) {
            Ok(_) => Ok(()),
            Err(e) => Err(e),
        }
    }

    /// Fills the snapshot table of the store `name` from the steps of a walk.
    pub(crate) fn fill_store(
        &mut self,
        name: &SqlName,
        token: u64,
        items: Vec<WalkItem>,
        filled_at: String,
    ) -> (r: Result<(), Error>)
        requires
            old(self).wf(),
        ensures
            final(self).wf(),
            r is Ok <==> fill_error(
                old(self)@,
                HandleView { name: name@, catalog: token },
                walk_view(items@),
            ) is None,
            r is Ok ==> final(self)@ == with_filled(
                old(self)@,
                name@,
                walk_view(items@),
                filled_at@,
            ),
            r matches Err(e) ==> final(self)@ == old(self)@ && Some(e) == fill_error(
                old(self)@,
                HandleView { name: name@, catalog: token },
                walk_view(items@),
            ),
    {
        let ghost given = walk_view(items@);
        let i = match self.find_table(name, token) {
            Ok(i) => i,
            Err(e) => {
                return Err(e);
            },
        };
        match first_fault(&items) {
            Some(fault) => {
                proof {
                    let k = choose|k: int| fails_first_at(given, k);
                    let w = choose|w: int|
                        fails_first_at(given, w) && given[w] == WalkItemView::Failed(fault);
                    assert(given[w] is Failed);
                    if k < w {
                        assert(given[k] is Found);
                    } else if w < k {
                        assert(given[w] is Found);
                    }
                }
                return Err(
                    match fault {
                        WalkFault::Traversal => Error::TraversalFailure,
                        WalkFault::Serialization => Error::SerializationFailure,
                    },
                );
            },
            None => {},
        }
        let table = self.stores[i].snap.as_ref().unwrap();
        let ordinal = table.ordinal;
        let last_row = table.last_row;
        assert(table_sound(self.stores@[i as int]@.snap->0, self.snapshot_count as nat));
        if items.len() as u64 >= ROW_LIMIT - last_row {
            return Err(Error::CapacityExceeded(Capacity::TooManyRows));
        }
        let count = items.len() as u64;
        let mut fresh = rows_from(items, ordinal, last_row);
        let ghost mid = *self;
        let ghost added = rows_filled(ordinal, last_row, given);
        match &mut self.stores[i].snap {
            Some(table) => {
                table.rows.append(&mut fresh);
                table.last_row = last_row + count;
            },
            None => {},
        }
        stamp(&mut self.catalog, name, &filled_at);
        proof {
            let before = mid.stores@[i as int]@.snap->0;
            let after = self.stores@[i as int]@.snap->0;
            assert(after.rows =~= before.rows + added);
            assert forall|k: int| 0 <= k < after.rows.len() implies packed_id(after.ordinal, 0) < (
            #[trigger] after.rows[k]).id <= packed_id(after.ordinal, after.last_row) by {
                if k < before.rows.len() {
                    assert(after.rows[k] == before.rows[k]);
                } else {
                    assert(after.rows[k] == added[k - before.rows.len()]);
                }
            }
            assert forall|a: int, b: int| 0 <= a < b < after.rows.len() implies (
            #[trigger] after.rows[a]).id < (#[trigger] after.rows[b]).id by {
                if a < before.rows.len() {
                    assert(after.rows[a] == before.rows[a]);
                } else {
                    assert(after.rows[a] == added[a - before.rows.len()]);
                }
                if b < before.rows.len() {
                    assert(after.rows[b] == before.rows[b]);
                } else {
                    assert(after.rows[b] == added[b - before.rows.len()]);
                }
            }
            self.lemma_store_changed(mid, i as int);
        }
        Ok(())
    }

    /// The index of the store that `name` is attached under, with a diff table,
    /// for a handle that the catalog with the token `token` issued.
    fn find_diff(&self, name: &SqlName, token: u64) -> (r: Result<usize, Error>)
        requires
            self.wf(),
        ensures
            r is Ok <==> diff_table_error(self@, HandleView { name: name@, catalog: token })
                is None,
            r matches Err(e) ==> Some(e) == diff_table_error(
                self@,
                HandleView { name: name@, catalog: token },
            ),
            r matches Ok(i) ==> i < self.stores@.len() && self.stores@[i as int].name@ == name@
                && self.stores@[i as int].diff is Some && self@.stores[name@]
                == self.stores@[i as int]@ && self.attached@[i as int],
    {
        if token != self.token {
            return Err(Error::IdentityMismatch { this: self.token, before: token, after: token });
        }
        match self.find(name) {
            Some(i) => {
                if !self.attached[i] {
                    return Err(Error::StorageEngineFailure(StorageFault::NotAttached));
                }
                if self.stores[i].diff.is_none() {
                    return Err(Error::StorageEngineFailure(StorageFault::NoSuchTable));
                }
                Ok(i)
            },
            None => Err(Error::StorageEngineFailure(StorageFault::NotAttached)),
        }
    }

    /// The rows of the diff table that `name` is attached under, for a handle
    /// that the catalog with the token `token` issued.
    pub(crate) fn diff_table(&self, name: &SqlName, token: u64) -> (r: Result<
        &Vec<DiffRow>,
        Error,
    >)
        requires
            self.wf(),
        ensures
            r is Ok <==> diff_table_error(self@, HandleView { name: name@, catalog: token })
                is None,
            r matches Err(e) ==> Some(e) == diff_table_error(
                self@,
                HandleView { name: name@, catalog: token },
            ),
            r matches Ok(rows) ==> diff_rows_view(rows@) == self@.stores[name@].diff->0,
    {
        match self.find_diff(name, token) {
            Ok(i) => Ok(self.stores[i].diff.as_ref().unwrap()),
            Err(e) => Err(e),
        }
    }

    /// Replaces the rows of the diff `name` by what differs between the
    /// snapshots `before` and `after`.
    pub(crate) fn fill_diff(
        &mut self,
        name: &SqlName,
        token: u64,
        before: &SqlName,
        before_token: u64,
        after: &SqlName,
        after_token: u64,
    ) -> (r: Result<(), Error>)
        requires
            old(self).wf(),
        ensures
            final(self).wf(),
            r is Ok <==> diff_error(
                old(self)@,
                HandleView { name: name@, catalog: token },
                HandleView { name: before@, catalog: before_token },
                HandleView { name: after@, catalog: after_token },
            ) is None,
            r is Ok ==> final(self)@ == with_diff_filled(old(self)@, name@, before@, after@),
            r matches Err(e) ==> final(self)@ == old(self)@ && Some(e) == diff_error(
                old(self)@,
                HandleView { name: name@, catalog: token },
                HandleView { name: before@, catalog: before_token },
                HandleView { name: after@, catalog: after_token },
            ),
    {
        let d = match self.find_diff(name, token) {
            Ok(i) => i,
            Err(e) => {
                return Err(e);
            },
        };
        if before_token != self.token || after_token != self.token {
            return Err(
                Error::IdentityMismatch {
                    this: self.token,
                    before: before_token,
                    after: after_token,
                },
            );
        }
        let b = match self.find_table(before, before_token) {
            Ok(i) => i,
            Err(e) => {
                return Err(e);
            },
        };
        let a = match self.find_table(after, after_token) {
            Ok(i) => i,
            Err(e) => {
                return Err(e);
            },
        };
        let rows = classify(
            &self.stores[b].snap.as_ref().unwrap().rows,
            &self.stores[a].snap.as_ref().unwrap().rows,
        );
        let ghost mid = *self;
        self.stores[d].diff = Some(rows);
        proof {
            self.lemma_store_changed(mid, d as int);
        }
        Ok(())
    }

    /// Changing what one store holds keeps the catalog well-formed, provided
    /// that its snapshot table, if it has one, is sound and either keeps its
    /// ordinal or takes one that was never handed out.
    proof fn lemma_store_changed(&self, mid: Database, i: int)
        requires
            mid.wf(),
            0 <= i < mid.stores@.len(),
            self.stores@.len() == mid.stores@.len(),
            self.stores@[i].name@ == mid.stores@[i].name@,
            forall|j: int| 0 <= j < mid.stores@.len() && j != i ==> self.stores@[j] == mid.stores@[j],
            self.attached == mid.attached,
            self.root == mid.root,
            self.token == mid.token,
            self.snapshot_count == self.catalog@.len(),
            mid.snapshot_count <= self.snapshot_count,
            self.stores@[i].snap is Some ==> {
                let table = self.stores@[i]@.snap->0;
                &&& table_sound(table, self.snapshot_count as nat)
                &&& mid.stores@[i].snap is Some ==> table.ordinal == mid.stores@[i]@.snap->0.ordinal
                &&& mid.stores@[i].snap is None ==> table.ordinal >= mid.snapshot_count
            },
        ensures
            self.wf(),
            self@ == (DatabaseView {
                stores: mid@.stores.insert(mid.stores@[i].name@, self.stores@[i]@),
                catalog: catalog_view(self.catalog@),
                snapshot_count: self.snapshot_count as nat,
                ..mid@
            }),
    {
        lemma_store_replaced(mid.stores@, self.stores@, i);
        assert forall|a: int|
            0 <= a < self.stores@.len() && (
            #[trigger] self.stores@[a]).snap is Some implies table_sound(
            self.stores@[a]@.snap->0,
            self.snapshot_count as nat,
        ) by {
            if a != i {
                assert(self.stores@[a] == mid.stores@[a]);
                assert(table_sound(mid.stores@[a]@.snap->0, mid.snapshot_count as nat));
            }
        }
        assert forall|a: int, b: int|
            0 <= a < b < self.stores@.len() && (#[trigger] self.stores@[a]).snap is Some && (
            #[trigger] self.stores@[b]).snap is Some implies self.stores@[a]@.snap->0.ordinal
            != self.stores@[b]@.snap->0.ordinal by {
            if a != i {
                assert(self.stores@[a] == mid.stores@[a]);
                assert(table_sound(mid.stores@[a]@.snap->0, mid.snapshot_count as nat));
            }
            if b != i {
                assert(self.stores@[b] == mid.stores@[b]);
                assert(table_sound(mid.stores@[b]@.snap->0, mid.snapshot_count as nat));
            }
        }
        assert forall|a: int|
            0 <= a < self.stores@.len() && #[trigger] self.attached@[a] implies root_is_text(self.root@) by {
            assert(mid.attached@[a]);
            if a != i {
                assert(self.stores@[a] == mid.stores@[a]);
            }
        }
        assert(self@.attached =~= mid@.attached);
    }
}

} // verus!
