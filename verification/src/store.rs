//! The rows and tables that the catalog keeps, and their mathematical views.

use vstd::prelude::*;
use crate::name::SqlName;

verus! {

/// One entry of an inventory, as a snapshot's table holds it.
#[derive(Debug)]
pub struct SnapshotRow {
    /// The identifier of the row, unique over all snapshots of a catalog.
    pub id: u64,
    /// The normalized path of the entry.
    pub path: Vec<u8>,
    /// The content identifier of the entry; empty where it has none.
    pub identifier: Vec<u8>,
    /// The serialized metadata of the entry.
    pub info: String,
}

/// What a `SnapshotRow` holds.
pub struct RowView {
    pub id: u64,
    pub path: Seq<u8>,
    pub identifier: Seq<u8>,
    pub info: Seq<char>,
}

impl View for SnapshotRow {
    type V = RowView;

    open spec fn view(&self) -> RowView {
        RowView { id: self.id, path: self.path@, identifier: self.identifier@, info: self.info@ }
    }
}

/// One classified difference, as a diff's table holds it.
#[derive(Debug)]
pub struct DiffRow {
    /// The identifier of the row in the earlier snapshot, if it has one there.
    pub before: Option<u64>,
    /// The identifier of the row in the later snapshot, if it has one there.
    pub after: Option<u64>,
    /// The stored classification tag.
    pub kind: u8,
    /// The serialized metadata: of the later state, or of the earlier one for a deletion.
    pub info: String,
}

/// What a `DiffRow` holds.
pub struct DiffRowView {
    pub before: Option<u64>,
    pub after: Option<u64>,
    pub kind: u8,
    pub info: Seq<char>,
}

impl View for DiffRow {
    type V = DiffRowView;

    open spec fn view(&self) -> DiffRowView {
        DiffRowView { before: self.before, after: self.after, kind: self.kind, info: self.info@ }
    }
}

/// The views of the rows of a snapshot's table, in storage order.
pub open spec fn rows_view(rows: Seq<SnapshotRow>) -> Seq<RowView> {
    rows.map_values(|r: SnapshotRow| r@)
}

/// The views of the rows of a diff's table, in storage order.
pub open spec fn diff_rows_view(rows: Seq<DiffRow>) -> Seq<DiffRowView> {
    rows.map_values(|r: DiffRow| r@)
}

/// The table of one snapshot.
#[derive(Debug)]
pub struct SnapTable {
    /// The ordinal of the snapshot, which fixes the range of its row identifiers.
    pub ordinal: u64,
    /// The row ordinal handed out last; zero is spent when the table is made.
    pub last_row: u64,
    /// The rows, in the order of their insertion.
    pub rows: Vec<SnapshotRow>,
}

/// What a `SnapTable` holds.
pub struct SnapTableView {
    pub ordinal: u64,
    pub last_row: u64,
    pub rows: Seq<RowView>,
}

impl View for SnapTable {
    type V = SnapTableView;

    open spec fn view(&self) -> SnapTableView {
        SnapTableView {
            ordinal: self.ordinal,
            last_row: self.last_row,
            rows: rows_view(self.rows@),
        }
    }
}

/// One auxiliary store: the file that backs a snapshot or a diff.
#[derive(Debug)]
pub struct Store {
    /// The stem of the store's file, and the alias it is attached under.
    pub name: SqlName,
    /// The snapshot table, once the store has been set up as a snapshot.
    pub snap: Option<SnapTable>,
    /// The diff table, once the store has been set up as a diff.
    pub diff: Option<Vec<DiffRow>>,
}

/// What a `Store` holds besides its name.
pub struct StoreView {
    pub snap: Option<SnapTableView>,
    pub diff: Option<Seq<DiffRowView>>,
}

impl View for Store {
    type V = StoreView;

    open spec fn view(&self) -> StoreView {
        StoreView {
            snap: match self.snap {
                Some(t) => Some(t@),
                None => None,
            },
            diff: match self.diff {
                Some(rows) => Some(diff_rows_view(rows@)),
                None => None,
            },
        }
    }
}

/// One row of the shared table that lists the snapshots.
#[derive(Debug)]
pub struct CatalogRow {
    /// The name of the snapshot.
    pub name: String,
    /// When the snapshot was made.
    pub created_at: String,
    /// When the snapshot was filled; `None` until a fill has completed.
    pub filled_at: Option<String>,
    /// Whether the snapshot has been uploaded.
    pub uploaded: bool,
}

/// What a `CatalogRow` holds.
pub struct CatalogRowView {
    pub name: Seq<char>,
    pub created_at: Seq<char>,
    pub filled_at: Option<Seq<char>>,
    pub uploaded: bool,
}

impl View for CatalogRow {
    type V = CatalogRowView;

    open spec fn view(&self) -> CatalogRowView {
        CatalogRowView {
            name: self.name@,
            created_at: self.created_at@,
            filled_at: match self.filled_at {
                Some(t) => Some(t@),
                None => None,
            },
            uploaded: self.uploaded,
        }
    }
}

/// The views of the rows of the shared table, in storage order.
pub open spec fn catalog_view(rows: Seq<CatalogRow>) -> Seq<CatalogRowView> {
    rows.map_values(|r: CatalogRow| r@)
}

} // verus!
