//! The insertion-ordered map that holds the connection table, seen as the
//! sequence of its key-value pairs in their order.

use crate::connection_entry::ConnectionEntry;
use indexmap::IndexMap;
use std::hash::RandomState;
use vstd::prelude::*;

verus! {

/// `indexmap::IndexMap`: a hash map that keeps its pairs in an order, each at
/// an index.
#[verifier::external_type_specification]
#[verifier::external_body]
#[verifier::reject_recursive_types(K)]
#[verifier::reject_recursive_types(V)]
#[verifier::reject_recursive_types(S)]
pub struct ExIndexMap<K, V, S>(IndexMap<K, V, S>);

/// The pairs that the map holds, in the order of their indices.
pub uninterp spec fn table_groups(
    table: IndexMap<(u8, u128, u128), Vec<ConnectionEntry>, RandomState>,
) -> Seq<((u8, u128, u128), Seq<ConnectionEntry>)>;

/// A sequence after the removal of the item at `i`, whose place the last
/// item has taken.
pub open spec fn swap_removed<T>(s: Seq<T>, i: int) -> Seq<T> {
    s.update(i, s.last()).drop_last()
}

/// `IndexMap::new`: a map without pairs.
#[verifier::external_body]
pub(crate) fn table_new() -> (table: IndexMap<(u8, u128, u128), Vec<ConnectionEntry>, RandomState>)
    ensures
        table_groups(table).len() == 0,
{
    IndexMap::new()
}

/// `IndexMap::len`: the number of pairs.
#[verifier::external_body]
pub(crate) fn table_len(
    table: &IndexMap<(u8, u128, u128), Vec<ConnectionEntry>, RandomState>,
) -> (len: usize)
    ensures
        len == table_groups(*table).len(),
{
    table.len()
}

/// `IndexMap::get_index_of`: the index of the pair with the given key, or
/// `None` where no pair has it.
#[verifier::external_body]
pub(crate) fn table_index_of(
    table: &IndexMap<(u8, u128, u128), Vec<ConnectionEntry>, RandomState>,
    key: &(u8, u128, u128),
) -> (index: Option<usize>)
    ensures
        match index {
            Some(i) => i < table_groups(*table).len() && table_groups(*table)[i as int].0 == *key,
            None => forall|j: int|
                0 <= j < table_groups(*table).len() ==> (#[trigger] table_groups(*table)[j]).0
                    != *key,
        },
{
    table.get_index_of(key)
}

/// Indexing the map by position: the value of the pair at `index`.
#[verifier::external_body]
pub(crate) fn table_group(
    table: &IndexMap<(u8, u128, u128), Vec<ConnectionEntry>, RandomState>,
    index: usize,
) -> (group: &Vec<ConnectionEntry>)
    requires
        index < table_groups(*table).len(),
    ensures
        group@ == table_groups(*table)[index as int].1,
{
    &table[index]
}

/// Mutable indexing of the map by position: the value of the pair at
/// `index`, to be changed in place. Key and position stay, and so do the
/// other pairs.
#[verifier::external_body]
pub(crate) fn table_group_mut(
    table: &mut IndexMap<(u8, u128, u128), Vec<ConnectionEntry>, RandomState>,
    index: usize,
) -> (group: &mut Vec<ConnectionEntry>)
    requires
        index < table_groups(*old(table)).len(),
    ensures
        group@ == table_groups(*old(table))[index as int].1,
        table_groups(*final(table)) == table_groups(*old(table)).update(
            index as int,
            (table_groups(*old(table))[index as int].0, final(group)@),
        ),
{
    &mut table[index]
}

/// `IndexMap::insert`: where a pair has the key, its value is replaced in
/// its place and the old value returned; where none has it, the new pair
/// comes last and `None` is returned.
#[verifier::external_body]
pub(crate) fn table_insert(
    table: &mut IndexMap<(u8, u128, u128), Vec<ConnectionEntry>, RandomState>,
    key: (u8, u128, u128),
    group: Vec<ConnectionEntry>,
) -> (replaced: Option<Vec<ConnectionEntry>>)
    ensures
        (forall|j: int|
            0 <= j < table_groups(*old(table)).len() ==> (#[trigger] table_groups(
                *old(table),
            )[j]).0 != key) ==> replaced is None && table_groups(*final(table)) == table_groups(
            *old(table),
        ).push((key, group@)),
        forall|i: int|
            0 <= i < table_groups(*old(table)).len() && (#[trigger] table_groups(
                *old(table),
            )[i]).0 == key ==> replaced is Some && replaced->Some_0@ == table_groups(
                *old(table),
            )[i].1 && table_groups(*final(table)) == table_groups(*old(table)).update(
                i,
                (key, group@),
            ),
{
    table.insert(key, group)
}

/// `IndexMap::swap_remove_index`: the pair at `index` leaves the map and is
/// returned, and the last pair takes its place; `None`, and no change, where
/// `index` is out of bounds.
#[verifier::external_body]
pub(crate) fn table_swap_remove_index(
    table: &mut IndexMap<(u8, u128, u128), Vec<ConnectionEntry>, RandomState>,
    index: usize,
) -> (removed: Option<((u8, u128, u128), Vec<ConnectionEntry>)>)
    ensures
        index < table_groups(*old(table)).len() ==> removed is Some && removed->Some_0.0
            == table_groups(*old(table))[index as int].0 && removed->Some_0.1@ == table_groups(
            *old(table),
        )[index as int].1 && table_groups(*final(table)) == swap_removed(
            table_groups(*old(table)),
            index as int,
        ),
        index >= table_groups(*old(table)).len() ==> removed is None && table_groups(
            *final(table),
        ) == table_groups(*old(table)),
{
    table.swap_remove_index(index)
}

} // verus!
