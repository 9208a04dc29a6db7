//! The stores of a catalog as its files hold them, and when they fit together.

use vstd::prelude::*;
use crate::ident::{pack, packed_id, ROW_LIMIT, SNAPSHOT_LIMIT};
use crate::store::{SnapTable, SnapTableView, Store, StoreView};

verus! {

/// Whether a snapshot table keeps to the range of identifiers that its ordinal
/// owns, in a catalog that has handed out `count` ordinals.
pub open spec fn table_sound(table: SnapTableView, count: nat) -> bool {
    &&& table.ordinal < count
    &&& table.ordinal < SNAPSHOT_LIMIT
    &&& table.last_row < ROW_LIMIT
    &&& forall|k: int|
        0 <= k < table.rows.len() ==> packed_id(table.ordinal, 0) < (#[trigger] table.rows[k]).id
            <= packed_id(table.ordinal, table.last_row)
    &&& forall|i: int, j: int|
        0 <= i < j < table.rows.len() ==> (#[trigger] table.rows[i]).id < (
        #[trigger] table.rows[j]).id
}

/// Whether the stores of an image have names of their own, and their snapshot
/// tables are sound and have ordinals of their own.
pub open spec fn image_sound(count: nat, stores: Seq<Store>) -> bool {
    &&& names_distinct(stores)
    &&& forall|i: int|
        0 <= i < stores.len() && (#[trigger] stores[i]).snap is Some ==> table_sound(
            stores[i]@.snap->0,
            count,
        )
    &&& forall|i: int, j: int|
        0 <= i < j < stores.len() && (#[trigger] stores[i]).snap is Some && (
        #[trigger] stores[j]).snap is Some ==> stores[i]@.snap->0.ordinal
            != stores[j]@.snap->0.ordinal
}

/// Whether some store of `stores` is named `name`.
pub open spec fn has_store(stores: Seq<Store>, name: Seq<char>) -> bool {
    exists|i: int| 0 <= i < stores.len() && (#[trigger] stores[i]).name@ == name
}

/// The index of a store of `stores` that is named `name`.
pub open spec fn store_index(stores: Seq<Store>, name: Seq<char>) -> int {
    choose|i: int| 0 <= i < stores.len() && (#[trigger] stores[i]).name@ == name
}

/// The stores of an image, by name.
pub open spec fn stores_by_name(stores: Seq<Store>) -> Map<Seq<char>, StoreView> {
    Map::new(|n: Seq<char>| has_store(stores, n), |n: Seq<char>| stores[store_index(stores, n)]@)
}

/// Whether the stores of `stores` have names of their own.
pub open spec fn names_distinct(stores: Seq<Store>) -> bool {
    forall|i: int, j: int|
        0 <= i < j < stores.len() ==> (#[trigger] stores[i]).name@ != (#[trigger] stores[j]).name@
}

/// Among stores with names of their own, a name leads to the one store that has it.
pub proof fn lemma_store_by_name(stores: Seq<Store>, i: int)
    requires
        names_distinct(stores),
        0 <= i < stores.len(),
    ensures
        has_store(stores, stores[i].name@),
        store_index(stores, stores[i].name@) == i,
        stores_by_name(stores).dom().contains(stores[i].name@),
        stores_by_name(stores)[stores[i].name@] == stores[i]@,
{
    let n = stores[i].name@;
    let j = store_index(stores, n);
    assert(0 <= j < stores.len() && stores[j].name@ == n);
    if j < i {
        assert(stores[j].name@ != stores[i].name@);
    } else if i < j {
        assert(stores[i].name@ != stores[j].name@);
    }
}

/// Replacing one store by a store of the same name changes the entry of that
/// name and no other, and moves no store.
pub proof fn lemma_store_replaced(before: Seq<Store>, after: Seq<Store>, i: int)
    requires
        names_distinct(before),
        0 <= i < before.len(),
        after.len() == before.len(),
        after[i].name@ == before[i].name@,
        forall|j: int| 0 <= j < before.len() && j != i ==> after[j] == before[j],
    ensures
        names_distinct(after),
        stores_by_name(after) == stores_by_name(before).insert(before[i].name@, after[i]@),
        forall|n: Seq<char>| has_store(after, n) <==> has_store(before, n),
        forall|n: Seq<char>|
            has_store(before, n) ==> store_index(after, n) == store_index(before, n),
{
    assert forall|a: int, b: int| 0 <= a < b < after.len() implies (#[trigger] after[a]).name@ != (
    #[trigger] after[b]).name@ by {
        assert(before[a].name@ != before[b].name@);
    }
    assert forall|n: Seq<char>| has_store(after, n) <==> has_store(before, n) by {
        if has_store(after, n) {
            let k = store_index(after, n);
            assert(before[k].name@ == n);
        }
        if has_store(before, n) {
            let k = store_index(before, n);
            assert(after[k].name@ == n);
        }
    }
    assert forall|n: Seq<char>| has_store(before, n) implies store_index(after, n) == store_index(
        before,
        n,
    ) by {
        let k = store_index(before, n);
        assert(after[k].name@ == n);
        lemma_store_by_name(after, k);
    }
    assert forall|n: Seq<char>| has_store(before, n) implies #[trigger] stores_by_name(after)[n]
        == stores_by_name(before).insert(before[i].name@, after[i]@)[n] by {
        let k = store_index(before, n);
        lemma_store_by_name(before, k);
        if k == i {
        } else {
            assert(before[k].name@ != before[i].name@) by {
                if k < i {
                    assert(before[k].name@ != before[i].name@);
                } else {
                    assert(before[i].name@ != before[k].name@);
                }
            }
        }
    }
    lemma_store_by_name(before, i);
    assert(stores_by_name(after) =~= stores_by_name(before).insert(before[i].name@, after[i]@));
}

/// Adding a store under a name that no store has adds the entry of that name
/// and moves no store.
pub proof fn lemma_store_pushed(before: Seq<Store>, store: Store)
    requires
        names_distinct(before),
        !has_store(before, store.name@),
    ensures
        names_distinct(before.push(store)),
        stores_by_name(before.push(store)) == stores_by_name(before).insert(store.name@, store@),
        forall|n: Seq<char>|
            has_store(before.push(store), n) <==> has_store(before, n) || n == store.name@,
        forall|n: Seq<char>|
            has_store(before, n) ==> store_index(before.push(store), n) == store_index(before, n),
        store_index(before.push(store), store.name@) == before.len(),
{
    let after = before.push(store);
    let last = before.len() as int;
    assert forall|a: int, b: int| 0 <= a < b < after.len() implies (#[trigger] after[a]).name@ != (
    #[trigger] after[b]).name@ by {
        if b < last {
            assert(before[a].name@ != before[b].name@);
        } else {
            assert(before[a].name@ == after[a].name@);
        }
    }
    assert forall|n: Seq<char>| has_store(after, n) <==> has_store(before, n) || n
        == store.name@ by {
        if has_store(after, n) {
            let k = store_index(after, n);
            if k < last {
                assert(before[k].name@ == n);
            }
        }
        if has_store(before, n) {
            let k = store_index(before, n);
            assert(after[k].name@ == n);
        }
        if n == store.name@ {
            assert(after[last].name@ == n);
        }
    }
    assert forall|n: Seq<char>| has_store(before, n) implies store_index(after, n) == store_index(
        before,
        n,
    ) by {
        let k = store_index(before, n);
        assert(after[k].name@ == n);
        lemma_store_by_name(after, k);
    }
    lemma_store_by_name(after, last);
    assert forall|n: Seq<char>| has_store(before, n) implies #[trigger] stores_by_name(after)[n]
        == stores_by_name(before)[n] by {
        let k = store_index(before, n);
        assert(after[k] == before[k]);
    }
    assert(stores_by_name(after) =~= stores_by_name(before).insert(store.name@, store@));
}

/// Whether the stores of `stores` have names of their own.
fn names_are_distinct(stores: &Vec<Store>) -> (r: bool)
    ensures
        r == names_distinct(stores@),
{
    let mut j: usize = 0;
    while j < stores.len()
        invariant
            j <= stores.len(),
            forall|a: int, b: int|
                0 <= a < b < j ==> (#[trigger] stores@[a]).name@ != (#[trigger] stores@[b]).name@,
        decreases stores.len() - j,
    {
        let mut i: usize = 0;
        while i < j
            invariant
                i <= j < stores.len(),
                forall|a: int| 0 <= a < i ==> (#[trigger] stores@[a]).name@ != stores@[j as int].name@,
            decreases j - i,
        {
            if stores[i].name == stores[j].name {
                return false;
            }
            i += 1;
        }
        j += 1;
    }
    true
}

/// Whether `table` keeps to the range of identifiers that its ordinal owns.
fn table_is_sound(table: &SnapTable, count: usize) -> (r: bool)
    ensures
        r == table_sound(table@, count as nat),
{
    if table.ordinal >= count as u64 || table.ordinal >= SNAPSHOT_LIMIT || table.last_row
        >= ROW_LIMIT {
        return false;
    }
    let base = pack(table.ordinal, 0);
    let top = pack(table.ordinal, table.last_row);
    let mut floor = base;
    let mut k: usize = 0;
    while k < table.rows.len()
        invariant
            k <= table.rows.len(),
            base == packed_id(table.ordinal, 0),
            top == packed_id(table.ordinal, table.last_row),
            k == 0 ==> floor == base,
            k > 0 ==> floor == table@.rows[k - 1].id,
            forall|a: int| 0 <= a < k ==> base < (#[trigger] table@.rows[a]).id <= top,
            forall|a: int, b: int|
                0 <= a < b < k ==> (#[trigger] table@.rows[a]).id < (#[trigger] table@.rows[b]).id,
        decreases table.rows.len() - k,
    {
        let id = table.rows[k].id;
        assert(table@.rows[k as int].id == id);
        if id <= floor || id > top {
            proof {
                if id <= floor && k > 0 {
                    assert(!(table@.rows[k - 1].id < table@.rows[k as int].id));
                }
            }
            return false;
        }
        floor = id;
        k += 1;
    }
    true
}

/// Whether every snapshot table of `stores` is sound.
fn tables_are_sound(stores: &Vec<Store>, count: usize) -> (r: bool)
    ensures
        r == (forall|i: int|
            0 <= i < stores@.len() && (#[trigger] stores@[i]).snap is Some ==> table_sound(
                stores@[i]@.snap->0,
                count as nat,
            )),
{
    let mut i: usize = 0;
    while i < stores.len()
        invariant
            i <= stores.len(),
            forall|a: int|
                0 <= a < i && (#[trigger] stores@[a]).snap is Some ==> table_sound(
                    stores@[a]@.snap->0,
                    count as nat,
                ),
        decreases stores.len() - i,
    {
        match &stores[i].snap {
            Some(table) => {
                if !table_is_sound(table, count) {
                    return false;
                }
            },
            None => {},
        }
        i += 1;
    }
    true
}

/// Whether the snapshot tables of `stores` have ordinals of their own.
fn ordinals_are_distinct(stores: &Vec<Store>) -> (r: bool)
    ensures
        r == (forall|i: int, j: int|
            0 <= i < j < stores@.len() && (#[trigger] stores@[i]).snap is Some && (
            #[trigger] stores@[j]).snap is Some ==> stores@[i]@.snap->0.ordinal
                != stores@[j]@.snap->0.ordinal),
{
    let mut j: usize = 0;
    while j < stores.len()
        invariant
            j <= stores.len(),
            forall|a: int, b: int|
                0 <= a < b < j && (#[trigger] stores@[a]).snap is Some && (
                #[trigger] stores@[b]).snap is Some ==> stores@[a]@.snap->0.ordinal
                    != stores@[b]@.snap->0.ordinal,
        decreases stores.len() - j,
    {
        match &stores[j].snap {
            Some(later) => {
                let mut i: usize = 0;
                while i < j
                    invariant
                        i <= j < stores.len(),
                        stores@[j as int].snap == Some(*later),
                        forall|a: int|
                            0 <= a < i && (#[trigger] stores@[a]).snap is Some
                                ==> stores@[a]@.snap->0.ordinal != later.ordinal,
                    decreases j - i,
                {
                    match &stores[i].snap {
                        Some(earlier) => {
                            if earlier.ordinal == later.ordinal {
                                return false;
                            }
                        },
                        None => {},
                    }
                    i += 1;
                }
            },
            None => {},
        }
        j += 1;
    }
    true
}

/// Whether the stores form a sound image for a catalog that has handed out
/// `count` ordinals.
pub(crate) fn image_is_sound(stores: &Vec<Store>, count: usize) -> (r: bool)
    ensures
        r == image_sound(count as nat, stores@),
{
    names_are_distinct(stores) && tables_are_sound(stores, count) && ordinals_are_distinct(stores)
}

} // verus!
