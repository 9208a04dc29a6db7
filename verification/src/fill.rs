//! Turning the steps of a walk into the rows of a snapshot.

use vstd::prelude::*;
use vstd::slice::slice_to_vec;
use crate::ident::{pack, packed_id, ROW_LIMIT, SNAPSHOT_LIMIT};
use crate::name::SqlName;
use crate::snapshot::{walk_view, EntryView, WalkFault, WalkItem, WalkItemView};
use crate::store::{
    catalog_view, rows_view, CatalogRow, CatalogRowView, RowView, SnapshotRow,
};

verus! {

/// The content identifier as a row stores it: empty where the entry has none.
pub open spec fn stored_identifier(identifier: Option<Seq<u8>>) -> Seq<u8> {
    match identifier {
        Some(bytes) => bytes,
        None => Seq::empty(),
    }
}

/// The row that stores `entry` under `id`.
pub open spec fn row_of(entry: EntryView, id: u64) -> RowView {
    RowView {
        id,
        path: entry.path,
        identifier: stored_identifier(entry.identifier),
        info: entry.info,
    }
}

/// Whether every step of the walk handed in an entry.
pub open spec fn all_found(items: Seq<WalkItemView>) -> bool {
    forall|k: int| 0 <= k < items.len() ==> #[trigger] items[k] is Found
}

/// Whether step `k` is the first of the walk that failed.
pub open spec fn fails_first_at(items: Seq<WalkItemView>, k: int) -> bool {
    &&& 0 <= k < items.len()
    &&& items[k] is Failed
    &&& forall|j: int| 0 <= j < k ==> #[trigger] items[j] is Found
}

/// The rows that a walk without failure adds to a snapshot whose last row
/// ordinal is `last_row`: one for each entry, in the order of the walk, under
/// the row ordinals that follow `last_row`.
pub open spec fn rows_filled(ordinal: u64, last_row: u64, items: Seq<WalkItemView>) -> Seq<
    RowView,
> {
    Seq::new(
        items.len(),
        |k: int| row_of(items[k]->Found_0, packed_id(ordinal, (last_row + 1 + k) as u64) as u64),
    )
}

/// The shared table after every row of the snapshot `name` has been stamped
/// as filled at `filled_at`.
pub open spec fn stamped(catalog: Seq<CatalogRowView>, name: Seq<char>, filled_at: Seq<char>)
    -> Seq<CatalogRowView> {
    catalog.map_values(
        |r: CatalogRowView|
            if r.name == name {
                CatalogRowView { filled_at: Some(filled_at), ..r }
            } else {
                r
            },
    )
}

/// The fault of the first step that failed, if one did.
pub(crate) fn first_fault(items: &Vec<WalkItem>) -> (r: Option<WalkFault>)
    ensures
        r is None <==> all_found(walk_view(items@)),
        r matches Some(fault) ==> exists|k: int|
            fails_first_at(walk_view(items@), k) && walk_view(items@)[k] == WalkItemView::Failed(
                fault,
            ),
{
    let mut k: usize = 0;
    while k < items.len()
        invariant
            k <= items.len(),
            forall|j: int| 0 <= j < k ==> #[trigger] walk_view(items@)[j] is Found,
        decreases items.len() - k,
    {
        match &items[k] {
            WalkItem::Failed(fault) => {
                assert(fails_first_at(walk_view(items@), k as int));
                return Some(*fault);
            },
            WalkItem::Found(_) => {},
        }
        k += 1;
    }
    None
}

/// The rows for the entries of a walk without failure.
pub(crate) fn rows_from(items: Vec<WalkItem>, ordinal: u64, last_row: u64) -> (rows: Vec<
    SnapshotRow,
>)
    requires
        all_found(walk_view(items@)),
        ordinal < SNAPSHOT_LIMIT,
        last_row + items@.len() < ROW_LIMIT,
    ensures
        rows_view(rows@) == rows_filled(ordinal, last_row, walk_view(items@)),
{
    let ghost given = walk_view(items@);
    let ghost want = rows_filled(ordinal, last_row, given);
    let mut rows: Vec<SnapshotRow> = Vec::new();
    let mut next: u64 = last_row;
    for item in it: items
        invariant
            given == walk_view(it.seq()),
            all_found(given),
            want == rows_filled(ordinal, last_row, given),
            ordinal < SNAPSHOT_LIMIT,
            last_row + given.len() < ROW_LIMIT,
            next == last_row + it.index(),
            rows@.len() == it.index(),
            forall|k: int| 0 <= k < it.index() ==> (#[trigger] rows@[k])@ == want[k],
    {
        let ghost k = rows@.len() as int;
        assert(given[k] is Found);
        match item {
            WalkItem::Found(entry) => {
                next = next + 1;
                let id = pack(ordinal, next);
                let identifier = match entry.identifier {
                    Some(bytes) => bytes,
                    None => Vec::new(),
                };
                let row = SnapshotRow {
                    id,
                    path: slice_to_vec(entry.path.as_bytes()),
                    identifier,
                    info: entry.info,
                };
                assert(row@.identifier =~= stored_identifier(entry@.identifier));
                assert(row@ == want[k]);
                rows.push(row);
            },
            WalkItem::Failed(_) => {},
        }
    }
    assert(rows_view(rows@) =~= want);
    rows
}

/// Stamps every row of the snapshot `name` as filled at `filled_at`.
pub(crate) fn stamp(catalog: &mut Vec<CatalogRow>, name: &SqlName, filled_at: &String)
    ensures
        final(catalog)@.len() == old(catalog)@.len(),
        catalog_view(final(catalog)@) == stamped(catalog_view(old(catalog)@), name@, filled_at@),
{
    let text = name.as_str().to_owned();
    let ghost want = stamped(catalog_view(old(catalog)@), name@, filled_at@);
    let mut k: usize = 0;
    while k < catalog.len()
        invariant
            k <= catalog.len(),
            catalog@.len() == old(catalog)@.len(),
            text@ == name@,
            want == stamped(catalog_view(old(catalog)@), name@, filled_at@),
            forall|j: int| 0 <= j < k ==> (#[trigger] catalog@[j])@ == want[j],
            forall|j: int| k <= j < catalog@.len() ==> #[trigger] catalog@[j] == old(catalog)@[j],
        decreases catalog.len() - k,
    {
        if catalog[k].name == text {
            catalog[k].filled_at = Some(filled_at.clone());
        }
        k += 1;
    }
    assert(catalog_view(catalog@) =~= want);
}

} // verus!
