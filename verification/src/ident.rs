//! Row identifiers that never collide across snapshots.
//!
//! An identifier packs the ordinal of a snapshot into its high bits and the
//! ordinal of a row within that snapshot into its low bits, so that every
//! snapshot numbers its rows inside a range of its own.

use vstd::prelude::*;
use crate::error::{Capacity, Error};

verus! {

/// The number of snapshots that the identifier space has room for: 2^23.
pub const SNAPSHOT_LIMIT: u64 = 0x80_0000;

/// The number of rows that one snapshot has room for: 2^40.
pub const ROW_LIMIT: u64 = 0x100_0000_0000;

/// The identifier of row `row_id` of snapshot `table_id`.
pub open spec fn packed_id(table_id: u64, row_id: u64) -> int {
    table_id * ROW_LIMIT + row_id
}

/// The ordinal of the snapshot whose range holds `id`.
pub open spec fn partition_of(id: u64) -> u64 {
    id >> 40
}

/// The identifier of row `row_id` of snapshot `table_id`, both within their ranges.
pub(crate) fn pack(table_id: u64, row_id: u64) -> (id: u64)
    requires
        table_id < SNAPSHOT_LIMIT,
        row_id < ROW_LIMIT,
    ensures
        id == packed_id(table_id, row_id),
        id == (table_id << 40) | row_id,
{
    assert((table_id << 40) | row_id == table_id * 0x100_0000_0000 + row_id) by (bit_vector)
        requires
            table_id < 0x80_0000,
            row_id < 0x100_0000_0000,
    ;
    (table_id << 40) | row_id
}

/// Packs a snapshot ordinal and a row ordinal into one identifier.
///
/// Fails when either ordinal lies outside its range; the snapshot ordinal is
/// looked at first.
pub fn generate_id(table_id: u64, row_id: u64) -> (r: Result<u64, Error>)
    ensures
        table_id >= SNAPSHOT_LIMIT ==> r matches Err(
            Error::CapacityExceeded(Capacity::TooManySnapshots),
        ),
        table_id < SNAPSHOT_LIMIT && row_id >= ROW_LIMIT ==> r matches Err(
            Error::CapacityExceeded(Capacity::TooManyRows),
        ),
        table_id < SNAPSHOT_LIMIT && row_id < ROW_LIMIT ==> (r matches Ok(id) && id == packed_id(
            table_id,
            row_id,
        ) && id == (table_id << 40) | row_id),
{
    if table_id >= SNAPSHOT_LIMIT {
        return Err(Error::CapacityExceeded(Capacity::TooManySnapshots));
    }
    if row_id >= ROW_LIMIT {
        return Err(Error::CapacityExceeded(Capacity::TooManyRows));
    }
    Ok(pack(table_id, row_id))
}

/// The ordinal of the snapshot whose range holds `id`.
pub fn snapshot_ordinal(id: u64) -> (r: u64)
    ensures
        r == partition_of(id),
{
    id >> 40
}

/// The ordinal of the row within its snapshot that `id` stands for.
pub open spec fn row_part_of(id: u64) -> u64 {
    id & 0xff_ffff_ffff
}

/// The ordinal of the row within its snapshot that `id` stands for.
pub fn row_ordinal(id: u64) -> (r: u64)
    ensures
        r == row_part_of(id),
        r < ROW_LIMIT,
{
    assert(id & 0xff_ffff_ffff < 0x100_0000_0000) by (bit_vector);
    id & 0xff_ffff_ffff
}

/// An identifier decodes back to the ordinals it was packed from: the high
/// bits give the snapshot, the low forty bits give the row.
pub proof fn lemma_id_decodes(table_id: u64, row_id: u64)
    requires
        table_id < SNAPSHOT_LIMIT,
        row_id < ROW_LIMIT,
    ensures
        packed_id(table_id, row_id) <= u64::MAX,
        partition_of(packed_id(table_id, row_id) as u64) == table_id,
        row_part_of(packed_id(table_id, row_id) as u64) == row_id,
{
    let id: u64 = (table_id * 0x100_0000_0000 + row_id) as u64;
    assert(table_id * 0x100_0000_0000 + row_id <= 0xffff_ffff_ffff_ffff) by (nonlinear_arith)
        requires
            table_id < 0x80_0000,
            row_id < 0x100_0000_0000,
    ;
    assert(id >> 40 == table_id && id & 0xff_ffff_ffff == row_id) by (bit_vector)
        requires
            table_id < 0x80_0000,
            row_id < 0x100_0000_0000,
            id == table_id * 0x100_0000_0000 + row_id,
    ;
}

/// Identifiers of different snapshots differ, and so do identifiers of
/// different rows of one snapshot.
pub proof fn lemma_ids_are_disjoint(table_a: u64, row_a: u64, table_b: u64, row_b: u64)
    requires
        table_a < SNAPSHOT_LIMIT,
        table_b < SNAPSHOT_LIMIT,
        row_a < ROW_LIMIT,
        row_b < ROW_LIMIT,
        table_a != table_b || row_a != row_b,
    ensures
        packed_id(table_a, row_a) != packed_id(table_b, row_b),
{
    lemma_id_decodes(table_a, row_a);
    lemma_id_decodes(table_b, row_b);
}

} // verus!
