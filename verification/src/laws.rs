//! What holds of the catalog across its operations.

use vstd::prelude::*;
use crate::catalog::{
    can_attach, consistent, root_is_text, with_attached, with_detached, with_diff_table,
    with_filled, DatabaseView,
};
use crate::image::table_sound;
use crate::classify::{identifier_fixes_info, kind_of, lemma_self_diff_is_empty, DiffType};
use crate::diff::{
    accepts_info, compare_error, deliverable, delivered_of_kind, diff_name, with_compared,
};
use crate::error::Error;
use crate::fill::{all_found, stored_identifier};
use crate::ident::packed_id;
use crate::snapshot::{HandleView, WalkItemView};
use crate::store::DiffRowView;

verus! {

/// Once a handle has been closed, its name can be attached again under the
/// same catalog, and closing keeps the catalog consistent.
pub proof fn lemma_closed_name_attaches_again(v: DatabaseView, name: Seq<char>)
    requires
        consistent(v),
        v.attached.contains(name),
    ensures
        can_attach(with_detached(v, name), name),
        consistent(with_detached(v, name)),
        with_attached(with_detached(v, name), name) == v,
{
    assert(root_is_text(v.root));
    let d = with_detached(v, name);
    assert(d.attached.subset_of(d.stores.dom()));
    assert(v.stores.dom().contains(name));
    assert(d.attached.insert(name) =~= v.attached);
}

/// A handle that one catalog instance issued cannot be compared under another:
/// the tokens differ, whatever the two catalogs hold.
pub proof fn lemma_handles_do_not_cross(
    issuer: DatabaseView,
    other: DatabaseView,
    before: HandleView,
    after: HandleView,
)
    requires
        issuer.token != other.token,
        before.catalog == issuer.token || after.catalog == issuer.token,
    ensures
        compare_error(other, before, after) == Some(
            Error::IdentityMismatch {
                this: other.token,
                before: before.catalog,
                after: after.catalog,
            },
        ),
{
}

/// Comparing a snapshot with itself leaves its diff without a row, provided
/// that the rows of the snapshot that carry one identifier carry one metadata
/// record.
pub proof fn lemma_compared_with_itself(v: DatabaseView, name: Seq<char>)
    requires
        v.stores.dom().contains(name),
        v.stores[name].snap is Some,
        identifier_fixes_info(v.stores[name].snap->0.rows),
    ensures
        with_compared(v, name, name).stores[diff_name(name, name)].diff == Some(
            Seq::<DiffRowView>::empty(),
        ),
{
    let diff = diff_name(name, name);
    let mid = with_diff_table(with_attached(v, diff), diff);
    assert(mid.stores[name].snap == v.stores[name].snap);
    lemma_self_diff_is_empty(v.stores[name].snap->0.rows);
}

/// A fill adds one row for each entry of the walk, after the rows that were
/// there: the row carries the entry's path and metadata as they were handed
/// in, and an identifier of the snapshot's own range.
pub proof fn lemma_fill_adds_a_row_per_entry(
    v: DatabaseView,
    name: Seq<char>,
    items: Seq<WalkItemView>,
    filled_at: Seq<char>,
    k: int,
)
    requires
        v.stores.dom().contains(name),
        v.stores[name].snap is Some,
        all_found(items),
        0 <= k < items.len(),
    ensures
        ({
            let before = v.stores[name].snap->0;
            let after = with_filled(v, name, items, filled_at).stores[name].snap->0;
            let row = after.rows[before.rows.len() + k];
            let entry = items[k]->Found_0;
            &&& after.rows.len() == before.rows.len() + items.len()
            &&& after.rows.subrange(0, before.rows.len() as int) == before.rows
            &&& row.path == entry.path
            &&& row.info == entry.info
            &&& row.identifier == stored_identifier(entry.identifier)
            &&& row.id == packed_id(before.ordinal, (before.last_row + 1 + k) as u64) as u64
        }),
{
    let before = v.stores[name].snap->0;
    let after = with_filled(v, name, items, filled_at).stores[name].snap->0;
    assert(after.rows.subrange(0, before.rows.len() as int) =~= before.rows);
}

/// In a consistent catalog no two rows of snapshots share an identifier,
/// whether they stand in one snapshot or in two.
pub proof fn lemma_row_ids_are_unique(
    v: DatabaseView,
    n: Seq<char>,
    i: int,
    m: Seq<char>,
    j: int,
)
    requires
        consistent(v),
        v.stores.dom().contains(n),
        v.stores.dom().contains(m),
        v.stores[n].snap is Some,
        v.stores[m].snap is Some,
        0 <= i < v.stores[n].snap->0.rows.len(),
        0 <= j < v.stores[m].snap->0.rows.len(),
        n != m || i != j,
    ensures
        v.stores[n].snap->0.rows[i].id != v.stores[m].snap->0.rows[j].id,
{
    let a = v.stores[n].snap->0;
    let b = v.stores[m].snap->0;
    assert(table_sound(a, v.snapshot_count));
    assert(table_sound(b, v.snapshot_count));
    if n == m {
        if i < j {
            assert(a.rows[i].id < a.rows[j].id);
        } else {
            assert(a.rows[j].id < a.rows[i].id);
        }
    } else {
        assert(a.ordinal != b.ordinal);
        assert(packed_id(a.ordinal, 0) < a.rows[i].id <= packed_id(a.ordinal, a.last_row));
        assert(packed_id(b.ordinal, 0) < b.rows[j].id <= packed_id(b.ordinal, b.last_row));
    }
}

/// Picks the rows of the classification `kind`.
pub open spec fn rows_of_kind(kind: DiffType) -> spec_fn(DiffRowView) -> bool {
    |row: DiffRowView| kind_of(row.kind) == Some(kind)
}

/// Whether every row can be handed out, and `func` takes each row of the
/// classification `kind`, where those are taken in storage order.
pub open spec fn filtered_taken<E, F: Fn(&str) -> Result<(), E>>(
    func: F,
    kind: DiffType,
    rows: Seq<DiffRowView>,
) -> bool {
    &&& forall|j: int| 0 <= j < rows.len() ==> deliverable(#[trigger] rows[j])
    &&& forall|i: int|
        0 <= i < rows.filter(rows_of_kind(kind)).len() ==> accepts_info(
            func,
            #[trigger] rows.filter(rows_of_kind(kind))[i],
        )
}

/// Going through a diff for one classification hands over the rows that
/// going through all of it hands over, filtered to that classification and
/// in the same order.
pub proof fn lemma_of_kind_is_filtered<E, F: Fn(&str) -> Result<(), E>>(
    func: F,
    kind: DiffType,
    rows: Seq<DiffRowView>,
)
    ensures
        delivered_of_kind(func, kind, rows, rows.len() as int) <==> filtered_taken(
            func,
            kind,
            rows,
        ),
{
    let of_kind = rows_of_kind(kind);
    let chosen = rows.filter(of_kind);
    if delivered_of_kind(func, kind, rows, rows.len() as int) {
        assert forall|i: int|
            0 <= i < rows.filter(rows_of_kind(kind)).len() implies accepts_info(
            func,
            #[trigger] rows.filter(rows_of_kind(kind))[i],
        ) by {
            rows.lemma_filter_pred(of_kind, i);
            assert(chosen.contains(chosen[i]));
            rows.lemma_filter_contains_rev(of_kind, chosen[i]);
            let j = choose|j: int| 0 <= j < rows.len() && rows[j] == chosen[i];
            assert(deliverable(rows[j]));
            assert(kind_of(rows[j].kind) == Some(kind));
        }
        assert(filtered_taken(func, kind, rows));
    }
    if filtered_taken(func, kind, rows) {
        assert forall|j: int| 0 <= j < rows.len() implies deliverable(#[trigger] rows[j]) && (
        kind_of(rows[j].kind) == Some(kind) ==> accepts_info(func, rows[j])) by {
            if kind_of(rows[j].kind) == Some(kind) {
                assert(of_kind(rows[j]));
                rows.lemma_filter_contains(of_kind, j);
                assert(chosen.contains(rows[j]));
                let i = choose|i: int| 0 <= i < chosen.len() && chosen[i] == rows[j];
                assert(accepts_info(func, chosen[i]));
            }
        }
        assert(delivered_of_kind(func, kind, rows, rows.len() as int));
    }
}

} // verus!
