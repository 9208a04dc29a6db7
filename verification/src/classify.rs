//! The three-way classification of what differs between two inventories.
//!
//! Rows are matched by their content identifier, never by their path: an entry
//! that moved but kept its identifier and its metadata does not show up.

use vstd::prelude::*;
use crate::store::{diff_rows_view, rows_view, DiffRow, DiffRowView, RowView, SnapshotRow};

verus! {

/// How an entry differs between two snapshots.
#[derive(Debug, Clone, Copy, PartialEq, Eq, Structural)]
pub enum DiffType {
    /// The earlier snapshot has the entry, the later one lacks it.
    Deleted,
    /// The later snapshot has the entry, the earlier one lacks it.
    Created,
    /// Both snapshots have the entry, with different metadata.
    Changed,
}

/// The tag that a classification is stored under.
pub open spec fn tag_of(kind: DiffType) -> u8 {
    match kind {
        DiffType::Deleted => 0,
        DiffType::Created => 1,
        DiffType::Changed => 2,
    }
}

/// The classification that a stored tag stands for, if it stands for one.
pub open spec fn kind_of(tag: u8) -> Option<DiffType> {
    if tag == 0 {
        Some(DiffType::Deleted)
    } else if tag == 1 {
        Some(DiffType::Created)
    } else if tag == 2 {
        Some(DiffType::Changed)
    } else {
        None
    }
}

impl DiffType {
    /// Decodes a stored tag; `None` for a tag outside the known set.
    pub fn parse(num: u8) -> (r: Option<DiffType>)
        ensures
            r == kind_of(num),
    {
        if num == 0 {
            Some(DiffType::Deleted)
        } else if num == 1 {
            Some(DiffType::Created)
        } else if num == 2 {
            Some(DiffType::Changed)
        } else {
            None
        }
    }

    /// The tag that this classification is stored under.
    pub fn tag(&self) -> (r: u8)
        ensures
            r == tag_of(*self),
            kind_of(r) == Some(*self),
    {
        match self {
            DiffType::Deleted => 0,
            DiffType::Created => 1,
            DiffType::Changed => 2,
        }
    }
}

/// Whether some row of `rows` carries `identifier`.
pub open spec fn has_identifier(rows: Seq<RowView>, identifier: Seq<u8>) -> bool {
    exists|j: int| 0 <= j < rows.len() && (#[trigger] rows[j]).identifier == identifier
}

/// The diff row for an entry that only the earlier snapshot has.
pub open spec fn deleted_row(b: RowView) -> DiffRowView {
    DiffRowView { before: Some(b.id), after: None, kind: tag_of(DiffType::Deleted), info: b.info }
}

/// The diff row for an entry that only the later snapshot has.
pub open spec fn created_row(a: RowView) -> DiffRowView {
    DiffRowView { before: None, after: Some(a.id), kind: tag_of(DiffType::Created), info: a.info }
}

/// The diff row for an entry that both snapshots have, as `b` and as `a`.
pub open spec fn changed_row(b: RowView, a: RowView) -> DiffRowView {
    DiffRowView {
        before: Some(b.id),
        after: Some(a.id),
        kind: tag_of(DiffType::Changed),
        info: a.info,
    }
}

/// How a row that has no match becomes a diff row of kind `kind`.
pub open spec fn unmatched_row(kind: DiffType) -> spec_fn(RowView) -> DiffRowView {
    |r: RowView|
        if kind == DiffType::Deleted {
            deleted_row(r)
        } else {
            created_row(r)
        }
}

/// Maps a row to its diff row if no row of `others` carries its identifier.
pub open spec fn unmatched_in(others: Seq<RowView>, make: spec_fn(RowView) -> DiffRowView)
    -> spec_fn(RowView) -> Option<DiffRowView> {
    |r: RowView|
        if has_identifier(others, r.identifier) {
            None
        } else {
            Some(make(r))
        }
}

/// Maps an earlier row to its diff row against `a` if the two carry one
/// identifier and their metadata differ.
pub open spec fn changed_against(a: RowView) -> spec_fn(RowView) -> Option<DiffRowView> {
    |b: RowView|
        if b.identifier == a.identifier && b.info != a.info {
            Some(changed_row(b, a))
        } else {
            None
        }
}

/// The rows of `before` whose identifier no row of `after` carries, in the order of `before`.
pub open spec fn deleted_rows(before: Seq<RowView>, after: Seq<RowView>) -> Seq<DiffRowView> {
    before.filter_map(unmatched_in(after, unmatched_row(DiffType::Deleted)))
}

/// The rows of `after` whose identifier no row of `before` carries, in the order of `after`.
pub open spec fn created_rows(before: Seq<RowView>, after: Seq<RowView>) -> Seq<DiffRowView> {
    after.filter_map(unmatched_in(before, unmatched_row(DiffType::Created)))
}

/// The rows of `before` that changed into `a`, in the order of `before`.
pub open spec fn changed_into(before: Seq<RowView>, a: RowView) -> Seq<DiffRowView> {
    before.filter_map(changed_against(a))
}

/// The pairs of rows that carry one identifier and differ in their metadata,
/// ordered by the later row and then by the earlier one.
pub open spec fn changed_rows(before: Seq<RowView>, after: Seq<RowView>) -> Seq<DiffRowView> {
    after.map_values(|a: RowView| changed_into(before, a)).flatten()
}

/// The whole difference: the deleted rows, then the created ones, then the changed ones.
pub open spec fn diff_of(before: Seq<RowView>, after: Seq<RowView>) -> Seq<DiffRowView> {
    deleted_rows(before, after) + created_rows(before, after) + changed_rows(before, after)
}

/// Whether some row of `rows` carries `identifier`.
fn carries(rows: &Vec<SnapshotRow>, identifier: &Vec<u8>) -> (r: bool)
    ensures
        r == has_identifier(rows_view(rows@), identifier@),
{
    let mut j: usize = 0;
    while j < rows.len()
        invariant
            j <= rows.len(),
            forall|k: int| 0 <= k < j ==> (#[trigger] rows_view(rows@)[k]).identifier != identifier@,
        decreases rows.len() - j,
    {
        if rows[j].identifier == *identifier {
            assert(rows[j as int].identifier@ =~= identifier@);
            assert(rows_view(rows@)[j as int].identifier == identifier@);
            return true;
        }
        assert(rows_view(rows@)[j as int].identifier != identifier@);
        j += 1;
    }
    false
}

/// Appends to `out` the rows of `subject` that `others` has no match for.
fn push_unmatched(
    out: &mut Vec<DiffRow>,
    subject: &Vec<SnapshotRow>,
    others: &Vec<SnapshotRow>,
    kind: DiffType,
)
    requires
        kind != DiffType::Changed,
    ensures
        diff_rows_view(final(out)@) == diff_rows_view(old(out)@) + rows_view(subject@).filter_map(
            unmatched_in(rows_view(others@), unmatched_row(kind)),
        ),
{
    let ghost make = unmatched_row(kind);
    let ghost pick = unmatched_in(rows_view(others@), make);
    let ghost rows = rows_view(subject@);
    let mut i: usize = 0;
    assert(rows.take(0).filter_map(pick) =~= Seq::<DiffRowView>::empty());
    while i < subject.len()
        invariant
            i <= subject.len(),
            kind != DiffType::Changed,
            rows == rows_view(subject@),
            pick == unmatched_in(rows_view(others@), make),
            make == unmatched_row(kind),
            diff_rows_view(out@) == diff_rows_view(old(out)@) + rows.take(i as int).filter_map(pick),
        decreases subject.len() - i,
    {
        let row = &subject[i];
        proof {
            rows.lemma_filter_map_take_succ(pick, i as int);
        }
        if !carries(others, &row.identifier) {
            let ghost prev = out@;
            let made = match kind {
                DiffType::Deleted => DiffRow {
                    before: Some(row.id),
                    after: None,
                    kind: kind.tag(),
                    info: row.info.clone(),
                },
                _ => DiffRow {
                    before: None,
                    after: Some(row.id),
                    kind: kind.tag(),
                    info: row.info.clone(),
                },
            };
            assert(made@ == make(rows[i as int]));
            out.push(made);
            assert(diff_rows_view(out@) =~= diff_rows_view(prev).push(made@));
        }
        i += 1;
    }
    assert(rows.take(subject.len() as int) =~= rows);
}

/// Appends to `out` the rows of `before` that changed into `a`.
fn push_changed_into(out: &mut Vec<DiffRow>, before: &Vec<SnapshotRow>, a: &SnapshotRow)
    ensures
        diff_rows_view(final(out)@) == diff_rows_view(old(out)@) + changed_into(
            rows_view(before@),
            a@,
        ),
{
    let ghost pick = changed_against(a@);
    let ghost rows = rows_view(before@);
    let mut i: usize = 0;
    assert(rows.take(0).filter_map(pick) =~= Seq::<DiffRowView>::empty());
    while i < before.len()
        invariant
            i <= before.len(),
            rows == rows_view(before@),
            pick == changed_against(a@),
            diff_rows_view(out@) == diff_rows_view(old(out)@) + rows.take(i as int).filter_map(pick),
        decreases before.len() - i,
    {
        let b = &before[i];
        proof {
            rows.lemma_filter_map_take_succ(pick, i as int);
        }
        let same = b.identifier == a.identifier;
        assert(same == (b.identifier@ =~= a.identifier@));
        if same && b.info != a.info {
            let ghost prev = out@;
            let made = DiffRow {
                before: Some(b.id),
                after: Some(a.id),
                kind: DiffType::Changed.tag(),
                info: a.info.clone(),
            };
            assert(made@ == changed_row(rows[i as int], a@));
            out.push(made);
            assert(diff_rows_view(out@) =~= diff_rows_view(prev).push(made@));
        }
        i += 1;
    }
    assert(rows.take(before.len() as int) =~= rows);
}

/// Classifies what differs between the rows of two snapshots.
///
/// The result holds, in this order: a `Deleted` row for every row of `before`
/// whose identifier `after` lacks; a `Created` row for every row of `after`
/// whose identifier `before` lacks; a `Changed` row for every pair of rows
/// that carry one identifier and differ in their metadata.
pub fn classify(before: &Vec<SnapshotRow>, after: &Vec<SnapshotRow>) -> (out: Vec<DiffRow>)
    ensures
        diff_rows_view(out@) == diff_of(rows_view(before@), rows_view(after@)),
{
    let mut out: Vec<DiffRow> = Vec::new();
    assert(diff_rows_view(out@) =~= Seq::<DiffRowView>::empty());
    push_unmatched(&mut out, before, after, DiffType::Deleted);
    push_unmatched(&mut out, after, before, DiffType::Created);
    let ghost head = diff_rows_view(out@);
    let ghost b = rows_view(before@);
    let ghost a = rows_view(after@);
    let ghost each = |r: RowView| changed_into(b, r);
    assert(head =~= deleted_rows(b, a) + created_rows(b, a));
    let mut i: usize = 0;
    assert(a.take(0).map_values(each) =~= Seq::<Seq<DiffRowView>>::empty());
    while i < after.len()
        invariant
            i <= after.len(),
            b == rows_view(before@),
            a == rows_view(after@),
            each == |r: RowView| changed_into(b, r),
            diff_rows_view(out@) == head + a.take(i as int).map_values(each).flatten(),
        decreases after.len() - i,
    {
        push_changed_into(&mut out, before, &after[i]);
        proof {
            let done = a.take(i as int).map_values(each);
            assert(a.take(i + 1).map_values(each) =~= done.push(each(a[i as int])));
            done.lemma_flatten_push(each(a[i as int]));
        }
        i += 1;
    }
    assert(a.take(after.len() as int) =~= a);
    out
}

/// A sequence none of whose items is picked maps to nothing.
proof fn lemma_nothing_picked<A, B>(s: Seq<A>, f: spec_fn(A) -> Option<B>)
    requires
        forall|i: int| 0 <= i < s.len() ==> f(#[trigger] s[i]) is None,
    ensures
        s.filter_map(f) == Seq::<B>::empty(),
    decreases s.len(),
{
    if s.len() > 0 {
        lemma_nothing_picked(s.drop_last(), f);
    }
}

/// A sequence one of whose items is picked maps to something.
proof fn lemma_something_picked<A, B>(s: Seq<A>, f: spec_fn(A) -> Option<B>, i: int)
    requires
        0 <= i < s.len(),
        f(s[i]) is Some,
    ensures
        s.filter_map(f).len() > 0,
    decreases s.len(),
{
    if i < s.len() - 1 {
        lemma_something_picked(s.drop_last(), f, i);
    }
}

/// Empty pieces join to nothing.
proof fn lemma_flatten_empties<A>(s: Seq<Seq<A>>)
    requires
        forall|i: int| 0 <= i < s.len() ==> (#[trigger] s[i]).len() == 0,
    ensures
        s.flatten() == Seq::<A>::empty(),
    decreases s.len(),
{
    if s.len() > 0 {
        lemma_flatten_empties(s.drop_first());
        assert(s.first() =~= Seq::<A>::empty());
    }
}

/// A piece that holds something makes the join hold something.
proof fn lemma_flatten_nonempty<A>(s: Seq<Seq<A>>, i: int)
    requires
        0 <= i < s.len(),
        s[i].len() > 0,
    ensures
        s.flatten().len() > 0,
    decreases s.len(),
{
    if i > 0 {
        lemma_flatten_nonempty(s.drop_first(), i - 1);
    }
}

/// Whether rows that carry one identifier carry one metadata record.
pub open spec fn identifier_fixes_info(rows: Seq<RowView>) -> bool {
    forall|i: int, j: int|
        0 <= i < rows.len() && 0 <= j < rows.len() && (#[trigger] rows[i]).identifier == (
        #[trigger] rows[j]).identifier ==> rows[i].info == rows[j].info
}

/// A snapshot differs from itself in nothing, provided that its rows with
/// one identifier agree in their metadata; and only then.
pub proof fn lemma_self_diff_is_empty(rows: Seq<RowView>)
    ensures
        identifier_fixes_info(rows) <==> diff_of(rows, rows) == Seq::<DiffRowView>::empty(),
        deleted_rows(rows, rows) == Seq::<DiffRowView>::empty(),
        created_rows(rows, rows) == Seq::<DiffRowView>::empty(),
{
    lemma_nothing_picked(rows, unmatched_in(rows, unmatched_row(DiffType::Deleted)));
    lemma_nothing_picked(rows, unmatched_in(rows, unmatched_row(DiffType::Created)));
    let pieces = rows.map_values(|a: RowView| changed_into(rows, a));
    if identifier_fixes_info(rows) {
        assert forall|k: int| 0 <= k < pieces.len() implies (#[trigger] pieces[k]).len() == 0 by {
            lemma_nothing_picked(rows, changed_against(rows[k]));
        }
        lemma_flatten_empties(pieces);
    } else {
        let (i, j) = choose|i: int, j: int|
            0 <= i < rows.len() && 0 <= j < rows.len() && (#[trigger] rows[i]).identifier == (
            #[trigger] rows[j]).identifier && rows[i].info != rows[j].info;
        lemma_something_picked(rows, changed_against(rows[j]), i);
        lemma_flatten_nonempty(pieces, j);
    }
}

/// Every row of a difference carries the tag of a known classification.
pub proof fn lemma_diff_tags_are_known(before: Seq<RowView>, after: Seq<RowView>, k: int)
    requires
        0 <= k < diff_of(before, after).len(),
    ensures
        kind_of(diff_of(before, after)[k].kind) is Some,
{
    let d = deleted_rows(before, after);
    let c = created_rows(before, after);
    let m = changed_rows(before, after);
    if k < d.len() {
        lemma_picked_comes_from(before, unmatched_in(after, unmatched_row(DiffType::Deleted)), k);
    } else if k < d.len() + c.len() {
        lemma_picked_comes_from(
            after,
            unmatched_in(before, unmatched_row(DiffType::Created)),
            k - d.len(),
        );
    } else {
        let pieces = after.map_values(|a: RowView| changed_into(before, a));
        let (p, q) = lemma_flatten_comes_from(pieces, k - d.len() - c.len());
        lemma_picked_comes_from(before, changed_against(after[p]), q);
    }
}

/// Each item of a filtered map is what some item of the source was mapped to.
proof fn lemma_picked_comes_from<A, B>(s: Seq<A>, f: spec_fn(A) -> Option<B>, k: int) -> (i: int)
    requires
        0 <= k < s.filter_map(f).len(),
    ensures
        0 <= i < s.len(),
        f(s[i]) == Some(s.filter_map(f)[k]),
    decreases s.len(),
{
    let rest = s.drop_last();
    if k < rest.filter_map(f).len() {
        lemma_picked_comes_from(rest, f, k)
    } else {
        s.len() - 1
    }
}

/// Each item of a join is an item of one of its pieces.
proof fn lemma_flatten_comes_from<A>(s: Seq<Seq<A>>, k: int) -> (at: (int, int))
    requires
        0 <= k < s.flatten().len(),
    ensures
        0 <= at.0 < s.len(),
        0 <= at.1 < s[at.0].len(),
        s[at.0][at.1] == s.flatten()[k],
    decreases s.len(),
{
    if k < s.first().len() {
        (0, k)
    } else {
        let (p, q) = lemma_flatten_comes_from(s.drop_first(), k - s.first().len());
        (p + 1, q)
    }
}

} // verus!
