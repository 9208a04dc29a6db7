//! Handles over diffs: making, filling and reading them.

use vstd::prelude::*;
use vstd::string::StringExecFns;
use crate::catalog::{
    attach_error, can_attach, diff_error, diff_table_error, table_error, with_attached,
    with_detached, with_diff_filled, with_diff_table, Database, DatabaseView,
};
use crate::classify::{kind_of, DiffType};
use crate::error::Error;
use crate::name::{is_letter, is_name_char, is_sql_name, SqlName};
use crate::snapshot::{HandleView, Snapshot};
use crate::store::{DiffRow, DiffRowView};
use crate::text::{is_json, json_parses};

verus! {

/// A handle over one attached diff. It holds the alias of the diff's store
/// until it is closed.
#[derive(Debug)]
pub struct Diff {
    name: SqlName,
    catalog: u64,
}

impl View for Diff {
    type V = HandleView;

    closed spec fn view(&self) -> HandleView {
        HandleView { name: self.name@, catalog: self.catalog }
    }
}

/// The name of the diff between the snapshots `before` and `after`.
pub open spec fn diff_name(before: Seq<char>, after: Seq<char>) -> Seq<char> {
    "diff_"@ + before + "_vs_"@ + after
}

/// The name of a diff between two snapshots matches the name grammar.
pub proof fn lemma_diff_name_is_name(before: Seq<char>, after: Seq<char>)
    requires
        is_sql_name(before),
        is_sql_name(after),
    ensures
        is_sql_name(diff_name(before, after)),
{
    reveal_strlit("diff_");
    reveal_strlit("_vs_");
    let text = diff_name(before, after);
    assert(text[0] == 'd');
    assert forall|i: int| 1 <= i < text.len() implies is_name_char(#[trigger] text[i]) by {
        if i < 5 {
            assert(text[i] == "diff_"@[i]);
        } else if i < 5 + before.len() {
            assert(text[i] == before[i - 5]);
            assert(is_letter(before[0]));
        } else if i < 9 + before.len() {
            assert(text[i] == "_vs_"@[i - 5 - before.len()]);
        } else {
            assert(text[i] == after[i - 9 - before.len()]);
            assert(is_letter(after[0]));
        }
    }
}

/// The name of a diff is longer than the names of its snapshots by nine
/// characters, so it is the name of neither.
pub proof fn lemma_diff_name_is_new(before: Seq<char>, after: Seq<char>)
    ensures
        diff_name(before, after).len() == before.len() + after.len() + 9,
        diff_name(before, after) != before,
        diff_name(before, after) != after,
{
    reveal_strlit("diff_");
    reveal_strlit("_vs_");
}

/// Builds the name of the diff between two snapshots.
fn make_diff_name(before: &SqlName, after: &SqlName) -> (r: Result<SqlName, Error>)
    ensures
        r matches Ok(name) && name@ == diff_name(before@, after@),
{
    let mut text = String::from_str("diff_");
    text.append(before.as_str());
    text.append("_vs_");
    text.append(after.as_str());
    proof {
        lemma_diff_name_is_name(before@, after@);
    }
    match SqlName::new(text) {
        Ok(name) => Ok(name),
        Err(e) => Err(Error::from(e)),
    }
}

/// Why two snapshots cannot be compared, where they cannot: a handle is of
/// another catalog; or the diff's store cannot be attached; or a snapshot's
/// table cannot be used.
pub open spec fn compare_error(v: DatabaseView, before: HandleView, after: HandleView) -> Option<
    Error,
> {
    let name = diff_name(before.name, after.name);
    if before.catalog != v.token || after.catalog != v.token {
        Some(
            Error::IdentityMismatch { this: v.token, before: before.catalog, after: after.catalog },
        )
    } else if !can_attach(v, name) {
        Some(attach_error(v, name))
    } else if table_error(v, before) is Some {
        table_error(v, before)
    } else {
        table_error(v, after)
    }
}

/// The view after the snapshots `before` and `after` have been compared: the
/// store of their diff is attached, and its table holds what differs.
pub open spec fn with_compared(v: DatabaseView, before: Seq<char>, after: Seq<char>)
    -> DatabaseView {
    let name = diff_name(before, after);
    with_diff_filled(with_diff_table(with_attached(v, name), name), name, before, after)
}

/// Whether a stored row can be handed out: its tag is that of a known
/// classification, and its metadata is a document.
pub open spec fn deliverable(row: DiffRowView) -> bool {
    kind_of(row.kind) is Some && is_json(row.info)
}

/// Why a stored row cannot be handed out, where it cannot. The tag is looked
/// at before the metadata.
pub open spec fn row_error(row: DiffRowView) -> Error {
    if kind_of(row.kind) is None {
        Error::SchemaMismatch { found: row.kind }
    } else {
        Error::SerializationFailure
    }
}

/// Whether `func`, called on the classification and the metadata of `row`, can
/// return `out`.
pub open spec fn answers<E, F: Fn(DiffType, &str) -> Result<(), E>>(
    func: F,
    row: DiffRowView,
    out: Result<(), E>,
) -> bool {
    exists|text: &str| text@ == row.info && call_ensures(func, (kind_of(row.kind)->0, text), out)
}

/// Whether `func` may be called on the classification and the metadata of `row`.
pub open spec fn takes<E, F: Fn(DiffType, &str) -> Result<(), E>>(func: F, row: DiffRowView)
    -> bool {
    forall|text: &str| text@ == row.info ==> call_requires(func, (kind_of(row.kind)->0, text))
}

/// Whether `func`, called on the classification and the metadata of `row`, can
/// return without an error.
pub open spec fn accepts<E, F: Fn(DiffType, &str) -> Result<(), E>>(func: F, row: DiffRowView)
    -> bool {
    exists|out: Result<(), E>| out is Ok && answers(func, row, out)
}

/// Whether the first `k` rows were handed to `func`, one after the other, and
/// it took each of them without an error.
pub open spec fn delivered<E, F: Fn(DiffType, &str) -> Result<(), E>>(
    func: F,
    rows: Seq<DiffRowView>,
    k: int,
) -> bool {
    &&& 0 <= k <= rows.len()
    &&& forall|j: int|
        0 <= j < k ==> deliverable(#[trigger] rows[j]) && accepts(func, rows[j])
}

/// Whether `func`, called on the metadata of `row`, can return `out`.
pub open spec fn answers_info<E, F: Fn(&str) -> Result<(), E>>(
    func: F,
    row: DiffRowView,
    out: Result<(), E>,
) -> bool {
    exists|text: &str| text@ == row.info && call_ensures(func, (text,), out)
}

/// Whether `func`, called on the metadata of `row`, can return without an error.
pub open spec fn accepts_info<E, F: Fn(&str) -> Result<(), E>>(func: F, row: DiffRowView) -> bool {
    exists|out: Result<(), E>| out is Ok && answers_info(func, row, out)
}

/// Whether the first `k` rows were gone through, one after the other, and
/// `func` took each of those of the classification `kind` without an error.
pub open spec fn delivered_of_kind<E, F: Fn(&str) -> Result<(), E>>(
    func: F,
    kind: DiffType,
    rows: Seq<DiffRowView>,
    k: int,
) -> bool {
    &&& 0 <= k <= rows.len()
    &&& forall|j: int|
        0 <= j < k ==> deliverable(#[trigger] rows[j]) && (kind_of(rows[j].kind) == Some(kind)
            ==> accepts_info(func, rows[j]))
}

impl DiffRow {
    /// Reads a stored row for handing out: its classification, and its
    /// metadata. Fails on a tag outside the known set, and then on metadata
    /// that is no document.
    pub fn decode(&self) -> (r: Result<(DiffType, &str), Error>)
        ensures
            r is Ok <==> deliverable(self@),
            r matches Ok((kind, text)) ==> Some(kind) == kind_of(self@.kind) && text@
                == self@.info,
            r matches Err(e) ==> e == row_error(self@),
    {
        let kind = match DiffType::parse(self.kind) {
            Some(kind) => kind,
            None => {
                return Err(Error::SchemaMismatch { found: self.kind });
            },
        };
        let text = self.info.as_str();
        if !json_parses(text) {
            return Err(Error::SerializationFailure);
        }
        Ok((kind, text))
    }
}

impl Database {
    /// Computes what differs between two snapshots, into a diff named after both.
    ///
    /// Both handles must have been issued by this catalog instance. Fails, and
    /// changes nothing, where `compare_error` says so.
    pub fn compare_snapshots<D1, D2>(
        &mut self,
        before: &Snapshot<D1>,
        after: &Snapshot<D2>,
    ) -> (r: Result<Diff, Error>)
        requires
            old(self).wf(),
        ensures
            final(self).wf(),
            r is Ok <==> compare_error(old(self)@, before@, after@) is None,
            r matches Ok(diff) ==> final(self)@ == with_compared(
                old(self)@,
                before@.name,
                after@.name,
            ) && diff@ == (HandleView {
                name: diff_name(before@.name, after@.name),
                catalog: old(self)@.token,
            }),
            r matches Err(e) ==> final(self)@ == old(self)@ && Some(e) == compare_error(
                old(self)@,
                before@,
                after@,
            ),
    {
        let this = self.token();
        if before.catalog() != this || after.catalog() != this {
            return Err(
                Error::IdentityMismatch {
                    this,
                    before: before.catalog(),
                    after: after.catalog(),
                },
            );
        }
        let name = match make_diff_name(before.name(), after.name()) {
            Ok(name) => name,
            Err(e) => {
                return Err(e);
            },
        };
        match self.check_attach(&name) {
            Ok(_) => {},
            Err(e) => {
                return Err(e);
            },
        }
        match self.check_table(before.name(), before.catalog()) {
            Ok(_) => {},
            Err(e) => {
                return Err(e);
            },
        }
        match self.check_table(after.name(), after.catalog()) {
            Ok(_) => {},
            Err(e) => {
                return Err(e);
            },
        }
        let diff = match Diff::new(self, name) {
            Ok(diff) => diff,
            Err(e) => {
                return Err(e);
            },
        };
        match diff.fill(self, before, after) {
            Ok(_) => Ok(diff),
            Err(e) => Err(e),
        }
    }
}

impl Diff {
    /// Makes a handle over the diff `name`: attaches its store, and gives it a
    /// diff table where it has none. Fails, and changes nothing, if the store
    /// cannot be attached.
    pub fn new(db: &mut Database, name: SqlName) -> (r: Result<Diff, Error>)
        requires
            old(db).wf(),
        ensures
            final(db).wf(),
            r is Ok <==> can_attach(old(db)@, name@),
            r matches Ok(diff) ==> final(db)@ == with_diff_table(
                with_attached(old(db)@, name@),
                name@,
            ) && diff@ == (HandleView { name: name@, catalog: old(db)@.token }),
            r matches Err(e) ==> final(db)@ == old(db)@ && e == attach_error(old(db)@, name@),
    {
        match db.attach_diff(&name) {
            Ok(_) => Ok(Diff { name, catalog: db.token() }),
            Err(e) => Err(e),
        }
    }

    /// The name of the diff.
    pub fn name(&self) -> (r: &SqlName)
        ensures
            r@ == self@.name,
    {
        &self.name
    }

    /// Replaces the rows of the diff by what differs between two snapshots:
    /// the deleted rows, then the created ones, then the changed ones. Filling
    /// again computes the same anew. Fails, and changes nothing, where
    /// `diff_error` says so.
    pub fn fill<D1, D2>(&self, db: &mut Database, before: &Snapshot<D1>, after: &Snapshot<D2>) -> (r:
        Result<(), Error>)
        requires
            old(db).wf(),
        ensures
            final(db).wf(),
            r is Ok <==> diff_error(old(db)@, self@, before@, after@) is None,
            r is Ok ==> final(db)@ == with_diff_filled(
                old(db)@,
                self@.name,
                before@.name,
                after@.name,
            ),
            r matches Err(e) ==> final(db)@ == old(db)@ && Some(e) == diff_error(
                old(db)@,
                self@,
                before@,
                after@,
            ),
    {
        db.fill_diff(
            &self.name,
            self.catalog,
            before.name(),
            before.catalog(),
            after.name(),
            after.catalog(),
        )
    }

    /// Hands every row of the diff to `func`, in storage order: its
    /// classification and its serialized metadata.
    ///
    /// Stops at the first row whose tag is unknown or whose metadata is no
    /// document, with the error of that row; and at the first row on which
    /// `func` returns an error, with that error inside `Ok`. The rows before it
    /// have been handed over by then, each once.
    pub fn for_each<E, F: Fn(DiffType, &str) -> Result<(), E>>(&self, db: &Database, func: F) -> (r:
        Result<Result<(), E>, Error>)
        requires
            db.wf(),
            diff_table_error(db@, self@) is None ==> forall|k: int|
                0 <= k < db@.stores[self@.name].diff->0.len() && deliverable(
                    #[trigger] db@.stores[self@.name].diff->0[k],
                ) ==> takes(func, db@.stores[self@.name].diff->0[k]),
        ensures
            diff_table_error(db@, self@) matches Some(e) ==> r == Err::<Result<(), E>, Error>(e),
            diff_table_error(db@, self@) is None ==> ({
                let rows = db@.stores[self@.name].diff->0;
                match r {
                    Ok(Ok(_)) => delivered(func, rows, rows.len() as int),
                    Ok(Err(e)) => exists|k: int|
                        delivered(func, rows, k) && k < rows.len() && deliverable(rows[k])
                            && answers(func, rows[k], Err(e)),
                    Err(e) => exists|k: int|
                        delivered(func, rows, k) && k < rows.len() && !deliverable(rows[k]) && e
                            == row_error(rows[k]),
                }
            }),
    {
        let rows = match db.diff_table(&self.name, self.catalog) {
            Ok(rows) => rows,
            Err(e) => {
                return Err(e);
            },
        };
        let ghost view = db@.stores[self@.name].diff->0;
        let mut k: usize = 0;
        while k < rows.len()
            invariant
                k <= rows.len(),
                diff_table_error(db@, self@) is None,
                view == db@.stores[self@.name].diff->0,
                view == crate::store::diff_rows_view(rows@),
                delivered(func, view, k as int),
                forall|j: int|
                    0 <= j < view.len() && deliverable(#[trigger] view[j]) ==> takes(
                        func,
                        view[j],
                    ),
            decreases rows.len() - k,
        {
            let row = &rows[k];
            assert(row@ == view[k as int]);
            let (kind, text) = match row.decode() {
                Ok(read) => read,
                Err(e) => {
                    return Err(e);
                },
            };
            assert(takes(func, view[k as int]));
            let out = func(kind, text);
            assert(answers(func, view[k as int], out));
            match out {
                Ok(_) => {},
                Err(e) => {
                    assert(out == Err::<(), E>(e));
                    assert(deliverable(view[k as int]));
                    return Ok(Err(e));
                },
            }
            k += 1;
        }
        Ok(Ok(()))
    }

    /// Hands the rows of the classification `kind` to `func`, in storage
    /// order: their serialized metadata.
    ///
    /// The rows are gone through as `for_each` goes through them, and stop it
    /// where they stop `for_each`; `func` sees those of `kind` and no others.
    pub fn of_kind<E, F: Fn(&str) -> Result<(), E>>(
        &self,
        db: &Database,
        kind: DiffType,
        func: F,
    ) -> (r: Result<Result<(), E>, Error>)
        requires
            db.wf(),
            diff_table_error(db@, self@) is None ==> forall|k: int, text: &str|
                0 <= k < db@.stores[self@.name].diff->0.len() && deliverable(
                    #[trigger] db@.stores[self@.name].diff->0[k],
                ) && kind_of(db@.stores[self@.name].diff->0[k].kind) == Some(kind) && text@
                    == db@.stores[self@.name].diff->0[k].info ==> #[trigger] call_requires(
                    func,
                    (text,),
                ),
        ensures
            diff_table_error(db@, self@) matches Some(e) ==> r == Err::<Result<(), E>, Error>(e),
            diff_table_error(db@, self@) is None ==> ({
                let rows = db@.stores[self@.name].diff->0;
                match r {
                    Ok(Ok(_)) => delivered_of_kind(func, kind, rows, rows.len() as int),
                    Ok(Err(e)) => exists|k: int|
                        delivered_of_kind(func, kind, rows, k) && k < rows.len() && deliverable(
                            rows[k],
                        ) && kind_of(rows[k].kind) == Some(kind) && answers_info(
                            func,
                            rows[k],
                            Err(e),
                        ),
                    Err(e) => exists|k: int|
                        delivered_of_kind(func, kind, rows, k) && k < rows.len() && !deliverable(
                            rows[k],
                        ) && e == row_error(rows[k]),
                }
            }),
    {
        let inner = &func;
        let each = |found: DiffType, text: &str| -> (out: Result<(), E>)
            requires
                found == kind ==> call_requires(inner, (text,)),
            ensures
                found == kind ==> call_ensures(inner, (text,), out),
                found != kind ==> out is Ok,
            {
                if found == kind {
                    inner(text)
                } else {
                    Ok(())
                }
            };
        proof {
            if diff_table_error(db@, self@) is None {
                let rows = db@.stores[self@.name].diff->0;
                assert forall|k: int|
                    0 <= k < rows.len() && deliverable(#[trigger] rows[k]) implies takes(
                    each,
                    rows[k],
                ) by {
                    assert forall|text: &str| text@ == rows[k].info implies call_requires(
                        each,
                        (kind_of(rows[k].kind)->0, text),
                    ) by {
                        if kind_of(rows[k].kind) == Some(kind) {
                            assert(call_requires(func, (text,)));
                        }
                    }
                }
            }
        }
        let r = self.for_each(db, each);
        proof {
            if diff_table_error(db@, self@) is None {
                let rows = db@.stores[self@.name].diff->0;
                assert forall|row: DiffRowView, out: Result<(), E>|
                    kind_of(row.kind) == Some(kind) && #[trigger] answers(
                        each,
                        row,
                        out,
                    ) implies answers_info(func, row, out) by {
                    let text = choose|text: &str|
                        text@ == row.info && call_ensures(each, (kind_of(row.kind)->0, text), out);
                    assert(call_ensures(func, (text,), out));
                }
                assert forall|k: int| delivered(each, rows, k) implies delivered_of_kind(
                    func,
                    kind,
                    rows,
                    k,
                ) by {
                    assert forall|j: int| 0 <= j < k implies deliverable(#[trigger] rows[j]) && (
                    kind_of(rows[j].kind) == Some(kind) ==> accepts_info(func, rows[j])) by {
                        if kind_of(rows[j].kind) == Some(kind) {
                            let out = choose|out: Result<(), E>|
                                out is Ok && answers(each, rows[j], out);
                            assert(answers_info(func, rows[j], out));
                        }
                    }
                }
                if r is Ok {
                    if r->Ok_0 is Err {
                        let e = r->Ok_0->Err_0;
                        let k = choose|k: int|
                            delivered(each, rows, k) && k < rows.len() && deliverable(rows[k])
                                && answers(each, rows[k], Err::<(), E>(e));
                        if kind_of(rows[k].kind) != Some(kind) {
                            let text = choose|text: &str|
                                text@ == rows[k].info && call_ensures(
                                    each,
                                    (kind_of(rows[k].kind)->0, text),
                                    Err::<(), E>(e),
                                );
                            assert(false);
                        }
                        assert(delivered_of_kind(func, kind, rows, k));
                    }
                } else {
                    let e = r->Err_0;
                    let k = choose|k: int|
                        delivered(each, rows, k) && k < rows.len() && !deliverable(rows[k]) && e
                            == row_error(rows[k]);
                    assert(delivered_of_kind(func, kind, rows, k));
                }
            }
        }
        r
    }

    /// Ends the handle: lets go of the alias, so that the name can be attached
    /// again. The store and its rows stay. A handle of another catalog changes
    /// nothing.
    pub fn close(self, db: &mut Database)
        requires
            old(db).wf(),
        ensures
            final(db).wf(),
            final(db)@ == if self@.catalog == old(db)@.token {
                with_detached(old(db)@, self@.name)
            } else {
                old(db)@
            },
    {
        if self.catalog == db.token() {
            db.detach(&self.name);
        }
    }
}

} // verus!
