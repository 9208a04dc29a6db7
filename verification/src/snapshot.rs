//! Handles over attached snapshots, and what a walk over a tree hands in.

use vstd::prelude::*;
use std::marker::PhantomData;
use crate::catalog::{fill_error, with_detached, with_filled, Database};
use crate::clock::utc_timestamp;
use crate::error::Error;
use crate::name::SqlName;
use crate::path::{EncodedPath, Local};

verus! {

/// Marks a snapshot that is open for reading only.
#[derive(Debug)]
pub struct Shared;

/// Marks a snapshot that is open for filling.
#[derive(Debug)]
pub struct Exclusive;

/// A handle over one attached snapshot. It holds the alias of the snapshot's
/// store until it is closed.
#[derive(Debug)]
pub struct Snapshot<D> {
    name: SqlName,
    catalog: u64,
    access: PhantomData<D>,
}

/// What a handle stands for.
pub struct HandleView {
    /// The name of the store, and the alias it is attached under.
    pub name: Seq<char>,
    /// The token of the catalog that issued the handle.
    pub catalog: u64,
}

impl<D> View for Snapshot<D> {
    type V = HandleView;

    closed spec fn view(&self) -> HandleView {
        HandleView { name: self.name@, catalog: self.catalog }
    }
}

impl<D> Snapshot<D> {
    /// A handle over the snapshot `name` of the catalog with the token `catalog`.
    pub(crate) fn issue(name: SqlName, catalog: u64) -> (r: Self)
        ensures
            r@ == (HandleView { name: name@, catalog }),
    {
        Snapshot { name, catalog, access: PhantomData }
    }

    /// The name of the snapshot.
    pub fn name(&self) -> (r: &SqlName)
        ensures
            r@ == self@.name,
    {
        &self.name
    }

    /// The token of the catalog that issued the handle.
    pub fn catalog(&self) -> (r: u64)
        ensures
            r == self@.catalog,
    {
        self.catalog
    }
}

impl<D> Snapshot<D> {
    /// Ends the handle: lets go of the alias, so that the name can be attached
    /// again. The store and its rows stay. A handle of another catalog changes
    /// nothing.
    pub fn close(self, db: &mut Database)
        requires
            old(db).wf(),
        ensures
            final(db).wf(),
            final(db)@ == if self@.catalog == old(db)@.token {
                with_detached(old(db)@, self@.name)
            } else {
                old(db)@
            },
    {
        if self.catalog == db.token() {
            db.detach(&self.name);
        }
    }
}

impl Snapshot<Exclusive> {
    /// Fills the snapshot from the steps of a walk, taking `filled_at` as the
    /// current time.
    ///
    /// Every entry becomes one row, in the order of the walk, under the row
    /// ordinals that follow those handed out before; then the rows of the
    /// shared table that register the snapshot are stamped with `filled_at`.
    /// All of it happens or none: on the first failed step, or where the row
    /// ordinals do not suffice, the catalog stays as it was.
    pub fn fill_at(&mut self, db: &mut Database, items: Vec<WalkItem>, filled_at: String) -> (r:
        Result<(), Error>)
        requires
            old(db).wf(),
        ensures
            final(db).wf(),
            final(self)@ == old(self)@,
            r is Ok <==> fill_error(old(db)@, old(self)@, walk_view(items@)) is None,
            r is Ok ==> final(db)@ == with_filled(
                old(db)@,
                old(self)@.name,
                walk_view(items@),
                filled_at@,
            ),
            r matches Err(e) ==> final(db)@ == old(db)@ && Some(e) == fill_error(
                old(db)@,
                old(self)@,
                walk_view(items@),
            ),
    {
        db.fill_store(&self.name, self.catalog, items, filled_at)
    }

    /// Fills the snapshot as `fill_at` does, stamping it with the current time
    /// in UTC.
    pub fn fill(&mut self, db: &mut Database, items: Vec<WalkItem>) -> (r: Result<(), Error>)
        requires
            old(db).wf(),
        ensures
            final(db).wf(),
            final(self)@ == old(self)@,
            r is Ok <==> fill_error(old(db)@, old(self)@, walk_view(items@)) is None,
            r is Ok ==> exists|filled_at: Seq<char>|
                final(db)@ == with_filled(old(db)@, old(self)@.name, walk_view(items@), filled_at),
            r matches Err(e) ==> final(db)@ == old(db)@ && Some(e) == fill_error(
                old(db)@,
                old(self)@,
                walk_view(items@),
            ),
    {
        let filled_at = utc_timestamp();
        self.fill_at(db, items, filled_at)
    }
}

/// One entry of a tree, as the walk and the metadata producer describe it.
#[derive(Debug)]
pub struct Entry {
    /// The normalized path of the entry.
    pub path: EncodedPath<Local>,
    /// The content identifier of the entry, if it has one.
    pub identifier: Option<Vec<u8>>,
    /// The serialized metadata of the entry.
    pub info: String,
}

/// What an `Entry` holds.
pub struct EntryView {
    pub path: Seq<u8>,
    pub identifier: Option<Seq<u8>>,
    pub info: Seq<char>,
}

impl View for Entry {
    type V = EntryView;

    open spec fn view(&self) -> EntryView {
        EntryView {
            path: self.path@,
            identifier: match self.identifier {
                Some(bytes) => Some(bytes@),
                None => None,
            },
            info: self.info@,
        }
    }
}

/// Why the walk has no entry to hand in.
#[derive(Debug, Clone, Copy, PartialEq, Eq, Structural)]
pub enum WalkFault {
    /// The tree could not be traversed.
    Traversal,
    /// The metadata of an entry could not be serialized.
    Serialization,
}

/// One step of a walk: an entry, or the failure to get one.
#[derive(Debug)]
pub enum WalkItem {
    Found(Entry),
    Failed(WalkFault),
}

/// What a `WalkItem` holds.
pub enum WalkItemView {
    Found(EntryView),
    Failed(WalkFault),
}

impl View for WalkItem {
    type V = WalkItemView;

    open spec fn view(&self) -> WalkItemView {
        match self {
            WalkItem::Found(entry) => WalkItemView::Found(entry@),
            WalkItem::Failed(fault) => WalkItemView::Failed(*fault),
        }
    }
}

/// The views of the steps of a walk, in the order of the walk.
pub open spec fn walk_view(items: Seq<WalkItem>) -> Seq<WalkItemView> {
    items.map_values(|i: WalkItem| i@)
}

} // verus!
