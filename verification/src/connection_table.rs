//! The connection table: the live connections, grouped by peer, with the
//! evictions that keep it within its ceiling.

use crate::connection_entry::close_with_code;
use crate::connection_entry::ClientConnectionTracker;
use crate::connection_entry::ConnectionEntry;
use crate::connection_entry::ConnectionStreamCounter;
use crate::connection_entry::CONNECTION_CLOSE_CODE_TOO_MANY;
use crate::index_table::swap_removed;
use crate::index_table::table_group;
use crate::index_table::table_group_mut;
use crate::index_table::table_groups;
use crate::index_table::table_index_of;
use crate::index_table::table_insert;
use crate::index_table::table_len;
use crate::index_table::table_new;
use crate::index_table::table_swap_remove_index;
use crate::peer::ConnectionPeerType;
use crate::peer::ConnectionTableKey;
use crate::peer::KeyCode;
use crate::sampling::random_index;
use crate::transport::clone_cancellation_token;
use crate::transport::new_cancellation_token;
use indexmap::IndexMap;
use quinn::Connection;
use std::hash::RandomState;
use std::sync::atomic::AtomicU64;
use std::sync::Arc;
use tokio_util::sync::CancellationToken;
use vstd::prelude::*;

verus! {

/// The table as contracts see it: the peers in the order of their indices,
/// each with its connections in the order in which they were admitted.
pub type Groups = Seq<(KeyCode, Seq<ConnectionEntry>)>;

/// The number of connections in all groups together.
pub open spec fn count_entries(groups: Groups) -> nat
    decreases groups.len(),
{
    if groups.len() == 0 {
        0
    } else {
        count_entries(groups.drop_last()) + groups.last().1.len()
    }
}

/// No two groups have the same key.
pub open spec fn keys_unique(groups: Groups) -> bool {
    forall|i: int, j: int|
        0 <= i < j < groups.len() ==> (#[trigger] groups[i]).0 != (#[trigger] groups[j]).0
}

/// Every group holds a connection.
pub open spec fn groups_nonempty(groups: Groups) -> bool {
    forall|i: int| 0 <= i < groups.len() ==> (#[trigger] groups[i]).1.len() > 0
}

/// Whether a group has the key.
pub open spec fn has_key(groups: Groups, key: KeyCode) -> bool {
    exists|i: int| 0 <= i < groups.len() && (#[trigger] groups[i]).0 == key
}

/// The index of the group with the key, where there is one.
pub open spec fn key_index(groups: Groups, key: KeyCode) -> int {
    choose|i: int| 0 <= i < groups.len() && (#[trigger] groups[i]).0 == key
}

/// The connections under the key: none where no group has it.
pub open spec fn connections_of(groups: Groups, key: KeyCode) -> Seq<ConnectionEntry> {
    if has_key(groups, key) {
        groups[key_index(groups, key)].1
    } else {
        Seq::empty()
    }
}

/// Whether an entry is the one that `remove_connection` is to remove: it has
/// the port, and its connection is the given one or it holds none.
pub open spec fn connection_matches(entry: ConnectionEntry, port: u16, stable_id: usize) -> bool {
    entry.port == port && (entry.stable_id is None || entry.stable_id == Some(stable_id))
}

/// The entries that stay when those of the given connection are removed, in
/// their order.
pub open spec fn retained(entries: Seq<ConnectionEntry>, port: u16, stable_id: usize) -> Seq<
    ConnectionEntry,
>
    decreases entries.len(),
{
    if entries.len() == 0 {
        entries
    } else if connection_matches(entries.last(), port, stable_id) {
        retained(entries.drop_last(), port, stable_id)
    } else {
        retained(entries.drop_last(), port, stable_id).push(entries.last())
    }
}

/// The groups after a connection was added under `key`: at the end of the
/// group that has the key, or as a new last group.
pub open spec fn groups_with(groups: Groups, key: KeyCode, entry: ConnectionEntry) -> Groups {
    if has_key(groups, key) {
        let i = key_index(groups, key);
        groups.update(i, (key, groups[i].1.push(entry)))
    } else {
        groups.push((key, seq![entry]))
    }
}

/// The groups after the entries of a connection were removed from the group
/// of `key`; a group left empty goes, and the last group takes its place.
pub open spec fn groups_without(groups: Groups, key: KeyCode, port: u16, stable_id: usize)
    -> Groups {
    if has_key(groups, key) {
        let i = key_index(groups, key);
        let kept = retained(groups[i].1, port, stable_id);
        if kept.len() == 0 {
            swap_removed(groups, i)
        } else {
            groups.update(i, (key, kept))
        }
    } else {
        groups
    }
}

/// The first index that holds the least of the values.
pub open spec fn oldest_index(activity: Seq<u64>) -> int
    decreases activity.len(),
{
    if activity.len() <= 1 {
        0
    } else {
        let rest = oldest_index(activity.drop_last());
        if activity.last() < activity[rest] {
            activity.len() - 1
        } else {
            rest
        }
    }
}

/// Whether `prune_oldest` has to evict: the table is over `max_size`.
pub open spec fn over_size(groups: Groups, activity: Seq<u64>, max_size: nat) -> bool {
    groups.len() > 0 && activity.len() == groups.len() && count_entries(groups) > max_size
}

/// The groups that `prune_oldest` leaves, each with its activity, where
/// `activity` holds for each group the time of the last activity on any of
/// its connections. While the table is over `max_size`, the group with the
/// least activity goes, the first of them among equals, and the last group
/// takes its place.
pub open spec fn pruned_to(groups: Groups, activity: Seq<u64>, max_size: nat) -> (Groups, Seq<u64>)
    decreases groups.len(),
    via pruned_to_decreases
{
    if over_size(groups, activity, max_size) {
        let i = oldest_index(activity);
        pruned_to(swap_removed(groups, i), swap_removed(activity, i), max_size)
    } else {
        (groups, activity)
    }
}

#[via_fn]
proof fn pruned_to_decreases(groups: Groups, activity: Seq<u64>, max_size: nat) {
    if over_size(groups, activity, max_size) {
        lemma_oldest_index(activity);
    }
}

/// The activity of the groups that `prune_oldest` evicts, in the order in
/// which they go.
pub open spec fn evicted_activity(groups: Groups, activity: Seq<u64>, max_size: nat) -> Seq<u64>
    decreases groups.len(),
    via evicted_activity_decreases
{
    if over_size(groups, activity, max_size) {
        let i = oldest_index(activity);
        seq![activity[i]] + evicted_activity(
            swap_removed(groups, i),
            swap_removed(activity, i),
            max_size,
        )
    } else {
        Seq::empty()
    }
}

#[via_fn]
proof fn evicted_activity_decreases(groups: Groups, activity: Seq<u64>, max_size: nat) {
    if over_size(groups, activity, max_size) {
        lemma_oldest_index(activity);
    }
}

/// The greatest stake that any of the connections carries; zero for none.
pub open spec fn greatest_stake(entries: Seq<ConnectionEntry>) -> u64
    decreases entries.len(),
{
    if entries.len() == 0 {
        0
    } else {
        let rest = greatest_stake(entries.drop_last());
        if entries.last().peer_type.stake_of() > rest {
            entries.last().peer_type.stake_of()
        } else {
            rest
        }
    }
}

/// The stake of the group at `i`: the greatest stake that any of its
/// connections carries. A group is below a threshold exactly when each of
/// its connections is.
pub open spec fn group_stake(groups: Groups, i: int) -> u64 {
    greatest_stake(groups[i].1)
}

/// Among the sampled groups, the one of least stake; among equals, the one
/// sampled first.
pub open spec fn lowest_sampled(groups: Groups, samples: Seq<usize>) -> int
    decreases samples.len(),
{
    if samples.len() <= 1 {
        samples[0] as int
    } else {
        let rest = lowest_sampled(groups, samples.drop_last());
        if group_stake(groups, samples.last() as int) < group_stake(groups, rest) {
            samples.last() as int
        } else {
            rest
        }
    }
}

/// The group that `prune_random` evicts for the given sample: the sampled
/// group of least stake, if that stake is below the threshold, so that no
/// connection with a stake at or over the threshold leaves.
pub open spec fn sampled_victim(groups: Groups, samples: Seq<usize>, threshold_stake: u64)
    -> Option<int> {
    if samples.len() == 0 {
        None
    } else {
        let i = lowest_sampled(groups, samples);
        if group_stake(groups, i) < threshold_stake {
            Some(i)
        } else {
            None
        }
    }
}

/// The groups that `prune_random` leaves for the given sample.
pub open spec fn pruned_sample(groups: Groups, samples: Seq<usize>, threshold_stake: u64)
    -> Groups {
    match sampled_victim(groups, samples, threshold_stake) {
        Some(i) => swap_removed(groups, i),
        None => groups,
    }
}

/// The number of connections that `prune_random` evicts for the given
/// sample.
pub open spec fn pruned_sample_count(groups: Groups, samples: Seq<usize>, threshold_stake: u64)
    -> nat {
    match sampled_victim(groups, samples, threshold_stake) {
        Some(i) => groups[i].1.len(),
        None => 0,
    }
}

/// Whether every sampled index is the index of a group.
pub open spec fn samples_in_range(groups: Groups, samples: Seq<usize>) -> bool {
    forall|k: int| 0 <= k < samples.len() ==> (#[trigger] samples[k]) < groups.len()
}

/// No connection carries more than the greatest stake, and where there is a
/// connection, one carries it.
pub proof fn lemma_greatest_stake(entries: Seq<ConnectionEntry>)
    ensures
        forall|k: int|
            0 <= k < entries.len() ==> (#[trigger] entries[k]).peer_type.stake_of()
                <= greatest_stake(entries),
        entries.len() > 0 ==> exists|k: int|
            0 <= k < entries.len() && (#[trigger] entries[k]).peer_type.stake_of()
                == greatest_stake(entries),
    decreases entries.len(),
{
    if entries.len() > 0 {
        let front = entries.drop_last();
        lemma_greatest_stake(front);
        assert forall|k: int| 0 <= k < entries.len() implies (
        #[trigger] entries[k]).peer_type.stake_of() <= greatest_stake(entries) by {
            if k < front.len() {
                assert(front[k] == entries[k]);
            }
        }
        if entries.last().peer_type.stake_of() > greatest_stake(front) || front.len() == 0 {
            assert(entries[entries.len() - 1].peer_type.stake_of() == greatest_stake(entries));
        } else {
            let k = choose|k: int|
                0 <= k < front.len() && (#[trigger] front[k]).peer_type.stake_of()
                    == greatest_stake(front);
            assert(entries[k] == front[k]);
        }
    }
}

/// `oldest_index` is the index of a least value, and no value before it is
/// as small.
pub proof fn lemma_oldest_index(activity: Seq<u64>)
    requires
        activity.len() > 0,
    ensures
        0 <= oldest_index(activity) < activity.len(),
        forall|j: int|
            0 <= j < activity.len() ==> activity[oldest_index(activity)] <= #[trigger] activity[j],
        forall|j: int|
            0 <= j < oldest_index(activity) ==> activity[oldest_index(activity)]
                < #[trigger] activity[j],
    decreases activity.len(),
{
    if activity.len() > 1 {
        lemma_oldest_index(activity.drop_last());
        let rest = oldest_index(activity.drop_last());
        assert(activity.drop_last()[rest] == activity[rest]);
        assert forall|j: int| 0 <= j < activity.len() implies activity[oldest_index(activity)]
            <= #[trigger] activity[j] by {
            if j < activity.len() - 1 {
                assert(activity.drop_last()[j] == activity[j]);
            }
        }
        assert forall|j: int| 0 <= j < oldest_index(activity) implies activity[oldest_index(
            activity,
        )] < #[trigger] activity[j] by {
            assert(activity.drop_last()[j] == activity[j]);
        }
    }
}

/// `lowest_sampled` is one of the sampled indices, and none of the sampled
/// groups has less stake than the group at it.
pub proof fn lemma_lowest_sampled(groups: Groups, samples: Seq<usize>)
    requires
        samples.len() > 0,
        samples_in_range(groups, samples),
    ensures
        0 <= lowest_sampled(groups, samples) < groups.len(),
        exists|k: int|
            0 <= k < samples.len() && #[trigger] samples[k] == lowest_sampled(groups, samples),
        forall|k: int|
            0 <= k < samples.len() ==> group_stake(groups, lowest_sampled(groups, samples))
                <= group_stake(groups, #[trigger] samples[k] as int),
    decreases samples.len(),
{
    if samples.len() > 1 {
        let front = samples.drop_last();
        assert(samples_in_range(groups, front)) by {
            assert forall|k: int| 0 <= k < front.len() implies (#[trigger] front[k])
                < groups.len() by {
                assert(front[k] == samples[k]);
            }
        }
        lemma_lowest_sampled(groups, front);
        let rest = lowest_sampled(groups, front);
        let k0 = choose|k: int| 0 <= k < front.len() && #[trigger] front[k] == rest;
        assert(samples[k0] == rest);
        assert(samples[samples.len() - 1] == samples.last());
        assert forall|k: int| 0 <= k < samples.len() implies group_stake(
            groups,
            lowest_sampled(groups, samples),
        ) <= group_stake(groups, #[trigger] samples[k] as int) by {
            if k < samples.len() - 1 {
                assert(front[k] == samples[k]);
            }
        }
    } else {
        assert(samples[0] < groups.len());
    }
}

/// A new last group adds its connections to the count.
pub proof fn lemma_count_push(groups: Groups, group: (KeyCode, Seq<ConnectionEntry>))
    ensures
        count_entries(groups.push(group)) == count_entries(groups) + group.1.len(),
{
    assert(groups.push(group).drop_last() == groups);
}

/// A group that changes changes the count by as much as it grows or
/// shrinks.
pub proof fn lemma_count_update(groups: Groups, i: int, group: (KeyCode, Seq<ConnectionEntry>))
    requires
        0 <= i < groups.len(),
    ensures
        count_entries(groups.update(i, group)) + groups[i].1.len() == count_entries(groups)
            + group.1.len(),
    decreases groups.len(),
{
    let updated = groups.update(i, group);
    if i == groups.len() - 1 {
        assert(updated.drop_last() == groups.drop_last());
    } else {
        lemma_count_update(groups.drop_last(), i, group);
        assert(updated.drop_last() == groups.drop_last().update(i, group));
    }
}

/// A group that leaves takes its connections off the count.
pub proof fn lemma_count_swap_removed(groups: Groups, i: int)
    requires
        0 <= i < groups.len(),
    ensures
        count_entries(swap_removed(groups, i)) + groups[i].1.len() == count_entries(groups),
{
    lemma_count_update(groups, i, groups.last());
}

/// The group at an index weighs no more than the whole table.
pub proof fn lemma_count_bounds_group(groups: Groups, i: int)
    requires
        0 <= i < groups.len(),
    ensures
        groups[i].1.len() <= count_entries(groups),
    decreases groups.len(),
{
    if i < groups.len() - 1 {
        lemma_count_bounds_group(groups.drop_last(), i);
    }
}

/// The removal of a group leaves the keys unique and the groups non-empty.
pub proof fn lemma_swap_removed_wf(groups: Groups, i: int)
    requires
        0 <= i < groups.len(),
        keys_unique(groups),
        groups_nonempty(groups),
    ensures
        keys_unique(swap_removed(groups, i)),
        groups_nonempty(swap_removed(groups, i)),
{
    let after = swap_removed(groups, i);
    assert forall|a: int, b: int| 0 <= a < b < after.len() implies (#[trigger] after[a]).0 != (
    #[trigger] after[b]).0 by {
        let a0 = if a == i {
            groups.len() - 1
        } else {
            a
        };
        let b0 = if b == i {
            groups.len() - 1
        } else {
            b
        };
        assert(after[a] == groups[a0]);
        assert(after[b] == groups[b0]);
        if a0 < b0 {
            assert(groups[a0].0 != groups[b0].0);
        } else {
            assert(groups[b0].0 != groups[a0].0);
        }
    }
    assert forall|a: int| 0 <= a < after.len() implies (#[trigger] after[a]).1.len() > 0 by {
        let a0 = if a == i {
            groups.len() - 1
        } else {
            a
        };
        assert(after[a] == groups[a0]);
    }
}

/// A group that changes under its key, and still holds a connection, leaves
/// the keys unique and the groups non-empty.
pub proof fn lemma_update_wf(groups: Groups, i: int, group: (KeyCode, Seq<ConnectionEntry>))
    requires
        0 <= i < groups.len(),
        keys_unique(groups),
        groups_nonempty(groups),
        group.0 == groups[i].0,
        group.1.len() > 0,
    ensures
        keys_unique(groups.update(i, group)),
        groups_nonempty(groups.update(i, group)),
{
    let after = groups.update(i, group);
    assert forall|a: int, b: int| 0 <= a < b < after.len() implies (#[trigger] after[a]).0 != (
    #[trigger] after[b]).0 by {
        assert(after[a].0 == groups[a].0);
        assert(after[b].0 == groups[b].0);
    }
    assert forall|a: int| 0 <= a < after.len() implies (#[trigger] after[a]).1.len() > 0 by {
        if a != i {
            assert(after[a] == groups[a]);
        }
    }
}

/// A new last group that holds a connection, under a key that no group has,
/// leaves the keys unique and the groups non-empty.
pub proof fn lemma_push_wf(groups: Groups, group: (KeyCode, Seq<ConnectionEntry>))
    requires
        keys_unique(groups),
        groups_nonempty(groups),
        !has_key(groups, group.0),
        group.1.len() > 0,
    ensures
        keys_unique(groups.push(group)),
        groups_nonempty(groups.push(group)),
{
    let after = groups.push(group);
    assert forall|a: int, b: int| 0 <= a < b < after.len() implies (#[trigger] after[a]).0 != (
    #[trigger] after[b]).0 by {
        assert(after[a] == groups[a]);
        if b < groups.len() {
            assert(after[b] == groups[b]);
        }
    }
    assert forall|a: int| 0 <= a < after.len() implies (#[trigger] after[a]).1.len() > 0 by {
        if a < groups.len() {
            assert(after[a] == groups[a]);
        }
    }
}

/// With unique keys, the index of a key is the one index that holds it.
pub proof fn lemma_key_index(groups: Groups, key: KeyCode, i: int)
    requires
        keys_unique(groups),
        0 <= i < groups.len(),
        groups[i].0 == key,
    ensures
        has_key(groups, key),
        key_index(groups, key) == i,
{
    let j = key_index(groups, key);
    if j < i {
        assert(groups[j].0 != groups[i].0);
    } else if i < j {
        assert(groups[i].0 != groups[j].0);
    }
}

/// Whether an entry is that of a connection admitted with the given class
/// and port.
pub open spec fn is_entry_of(
    entry: ConnectionEntry,
    peer_type: ConnectionPeerType,
    port: u16,
    has_connection: bool,
) -> bool {
    &&& entry.peer_type == peer_type
    &&& entry.port == port
    &&& (entry.stable_id is Some <==> has_connection)
}

fn entry_matches(entry: &ConnectionEntry, port: u16, stable_id: usize) -> (matches: bool)
    ensures
        matches == connection_matches(*entry, port, stable_id),
{
    entry.port == port && match entry.stable_id {
        None => true,
        Some(id) => id == stable_id,
    }
}

/// Removes from a group the entries of the given connection, closes them,
/// and returns their number. The others keep their order.
fn remove_matching(group: &mut Vec<ConnectionEntry>, port: u16, stable_id: usize) -> (removed:
    usize)
    ensures
        final(group)@ == retained(old(group)@, port, stable_id),
        removed + final(group)@.len() == old(group)@.len(),
{
    let ghost entries = group@;
    let len: usize = group.len();
    let mut i: usize = 0;
    let mut removed: usize = 0;
    while i < group.len()
        invariant
            i <= group.len(),
            removed + group.len() == entries.len(),
            entries.len() == len,
            group@.take(i as int) == retained(entries.take(i + removed), port, stable_id),
            group@.skip(i as int) == entries.skip(i + removed),
        decreases group.len() - i,
    {
        let ghost n = i + removed;
        let ghost before = group@;
        proof {
            assert(before.skip(i as int)[0] == entries.skip(n)[0]);
            assert(entries.take(n + 1).drop_last() == entries.take(n));
            assert(entries.take(n + 1).last() == entries[n]);
        }
        if entry_matches(&group[i], port, stable_id) {
            let entry: ConnectionEntry = group.remove(i);
            entry.close();
            removed = removed + 1;
            proof {
                assert(group@.take(i as int) == before.take(i as int));
                assert(group@.skip(i as int) == before.skip(i as int).skip(1));
                assert(entries.skip(n).skip(1) == entries.skip(n + 1));
            }
        } else {
            i = i + 1;
            proof {
                assert(group@.take(i as int) == before.take(i - 1).push(before[i - 1]));
                assert(group@.skip(i as int) == before.skip(i - 1).skip(1));
                assert(entries.skip(n).skip(1) == entries.skip(n + 1));
            }
        }
    }
    proof {
        assert(group@.take(i as int) == group@);
        assert(entries.take(i + removed) == entries);
    }
    removed
}

/// Closes the connections of a group that has left the table.
fn close_entries(group: Vec<ConnectionEntry>) {
    let mut group = group;
    while group.len() > 0
        decreases group.len(),
    {
        match group.pop() {
            Some(entry) => {
                entry.close();
            },
            None => {},
        }
    }
}

/// The greatest stake that any of the connections carries; zero for none.
pub fn greatest_stake_of(entries: &Vec<ConnectionEntry>) -> (stake: u64)
    ensures
        stake == greatest_stake(entries@),
{
    let mut stake: u64 = 0;
    let mut k: usize = 0;
    while k < entries.len()
        invariant
            k <= entries.len(),
            stake == greatest_stake(entries@.take(k as int)),
        decreases entries.len() - k,
    {
        proof {
            assert(entries@.take(k + 1).drop_last() == entries@.take(k as int));
            assert(entries@.take(k + 1).last() == entries@[k as int]);
        }
        let next: u64 = entries[k].stake();
        if next > stake {
            stake = next;
        }
        k = k + 1;
    }
    proof {
        assert(entries@.take(k as int) == entries@);
    }
    stake
}

/// The times of the last activity on the connections of a group, as the
/// shared stamps stand now, in the order of the connections.
fn read_stamps(group: &Vec<ConnectionEntry>) -> (stamps: Vec<u64>)
    ensures
        stamps@.len() == group@.len(),
{
    let mut stamps: Vec<u64> = Vec::new();
    let mut k: usize = 0;
    while k < group.len()
        invariant
            k <= group.len(),
            stamps@.len() == k,
        decreases group.len() - k,
    {
        stamps.push(group[k].last_update());
        k = k + 1;
    }
    stamps
}

/// The oldest of the stamps: the least of them.
pub fn oldest_stamp(stamps: &Vec<u64>) -> (oldest: u64)
    requires
        stamps.len() > 0,
    ensures
        forall|j: int| 0 <= j < stamps.len() ==> oldest <= stamps@[j],
        exists|j: int| 0 <= j < stamps.len() && stamps@[j] == oldest,
        oldest == stamps@[oldest_index(stamps@)],
{
    proof {
        lemma_oldest_index(stamps@);
    }
    stamps[find_oldest(stamps)]
}

/// The first index that holds the least of the values.
pub fn find_oldest(activity: &Vec<u64>) -> (index: usize)
    requires
        activity.len() > 0,
    ensures
        index == oldest_index(activity@),
        index < activity.len(),
{
    let mut best: usize = 0;
    let mut k: usize = 1;
    proof {
        assert(activity@.take(1).len() == 1);
    }
    while k < activity.len()
        invariant
            1 <= k <= activity.len(),
            best < k,
            best == oldest_index(activity@.take(k as int)),
        decreases activity.len() - k,
    {
        proof {
            assert(activity@.take(k + 1).drop_last() == activity@.take(k as int));
            assert(activity@.take(k + 1).last() == activity@[k as int]);
            assert(activity@.take(k + 1)[best as int] == activity@[best as int]);
        }
        if activity[k] < activity[best] {
            best = k;
        }
        k = k + 1;
    }
    proof {
        assert(activity@.take(k as int) == activity@);
    }
    best
}

pub struct ConnectionTable {
    table: IndexMap<(u8, u128, u128), Vec<ConnectionEntry>, RandomState>,
    total_size: usize,
}

impl View for ConnectionTable {
    type V = Groups;

    closed spec fn view(&self) -> Groups {
        table_groups(self.table)
    }
}

impl ConnectionTable {
    /// The running count of connections that the table keeps.
    pub closed spec fn total(&self) -> nat {
        self.total_size as nat
    }

    /// The invariant of the table: the running count is the number of
    /// connections in all groups, a key occurs once, and no group is empty.
    pub open spec fn wf(&self) -> bool {
        &&& keys_unique(self@)
        &&& groups_nonempty(self@)
        &&& self.total() == count_entries(self@)
    }

    /// An empty table.
    pub fn new() -> (table: Self)
        ensures
            table.wf(),
            table@.len() == 0,
            table.total() == 0,
    {
        ConnectionTable { table: table_new(), total_size: 0 }
    }

    /// The number of connections in the table.
    pub fn total_size(&self) -> (total: usize)
        ensures
            total == self.total(),
    {
        self.total_size
    }

    /// The number of peers that have a connection in the table.
    pub fn len(&self) -> (len: usize)
        ensures
            len == self@.len(),
    {
        table_len(&self.table)
    }

    /// The number of connections under a key.
    pub fn connections(&self, key: ConnectionTableKey) -> (count: usize)
        requires
            self.wf(),
        ensures
            count == connections_of(self@, key.code_spec()).len(),
    {
        let code: KeyCode = key.code();
        match table_index_of(&self.table, &code) {
            Some(index) => {
                proof {
                    lemma_key_index(self@, code, index as int);
                }
                table_group(&self.table, index).len()
            },
            None => 0,
        }
    }
    /// Admits a connection under `key`, unless the key holds
    /// `max_connections_per_peer` connections already: then the table is
    /// left as it is, and the connection is closed with the code for too
    /// many connections.
    ///
    /// Returns the handles that the task of the connection works with: the
    /// shared time of its last activity, its cancellation token, and the
    /// stream counter that it shares with the other connections of its key.
    /// Time and counter are those of the new entry, and the counter is that
    /// of the first connection of the key, where the key had one.
    pub fn try_add_connection(
        &mut self,
        key: ConnectionTableKey,
        port: u16,
        client_connection_tracker: ClientConnectionTracker,
        connection: Option<Connection>,
        peer_type: ConnectionPeerType,
        last_update: u64,
        max_connections_per_peer: usize,
    ) -> (added: Option<(Arc<AtomicU64>, CancellationToken, Arc<ConnectionStreamCounter>)>)
        requires
            old(self).wf(),
            old(self).total() < usize::MAX,
        ensures
            final(self).wf(),
            added is Some <==> connections_of(old(self)@, key.code_spec()).len()
                < max_connections_per_peer,
            added is Some ==> final(self).total() == old(self).total() + 1 && exists|
                entry: ConnectionEntry,
            |
                is_entry_of(entry, peer_type, port, connection is Some) && final(self)@
                    == #[trigger] groups_with(old(self)@, key.code_spec(), entry),
            added is None ==> final(self)@ == old(self)@ && final(self).total() == old(
                self,
            ).total(),
            added is Some ==> connections_of(final(self)@, key.code_spec()).len()
                == connections_of(old(self)@, key.code_spec()).len() + 1 && connections_of(
                final(self)@,
                key.code_spec(),
            ).last().handles.activity() == added->Some_0.0 && connections_of(
                final(self)@,
                key.code_spec(),
            ).last().handles.stream_counter() == added->Some_0.2,
            added is Some && has_key(old(self)@, key.code_spec()) ==> added->Some_0.2
                == connections_of(old(self)@, key.code_spec())[0].handles.stream_counter(),
    {
        let code: KeyCode = key.code();
        let ghost groups = self@;
        let found: Option<usize> = table_index_of(&self.table, &code);
        let (has_capacity, shared_counter): (bool, Option<Arc<ConnectionStreamCounter>>) =
            match found {
            Some(index) => {
                proof {
                    lemma_key_index(groups, code, index as int);
                }
                let group: &Vec<ConnectionEntry> = table_group(&self.table, index);
                (group.len() < max_connections_per_peer, Some(group[0].stream_counter().clone()))
            },
            None => (0 < max_connections_per_peer, None),
        };
        if !has_capacity {
            match &connection {
                Some(connection) => {
                    close_with_code(connection, CONNECTION_CLOSE_CODE_TOO_MANY);
                },
                None => {},
            }
            return None;
        }
        let cancel: CancellationToken = new_cancellation_token();
        let activity: Arc<AtomicU64> = Arc::new(AtomicU64::new(last_update));
        let stream_counter: Arc<ConnectionStreamCounter> = match shared_counter {
            Some(counter) => counter,
            None => Arc::new(ConnectionStreamCounter::new(last_update)),
        };
        let entry: ConnectionEntry = ConnectionEntry::new(
            clone_cancellation_token(&cancel),
            peer_type,
            activity.clone(),
            port,
            client_connection_tracker,
            connection,
            stream_counter.clone(),
        );
        let ghost added_entry = entry;
        match found {
            Some(index) => {
                let group: &mut Vec<ConnectionEntry> = table_group_mut(&mut self.table, index);
                group.push(entry);
                proof {
                    let i = index as int;
                    let grown = (code, groups[i].1.push(added_entry));
                    assert(self@ == groups.update(i, grown));
                    lemma_count_update(groups, i, grown);
                    lemma_update_wf(groups, i, grown);
                    lemma_key_index(self@, code, i);
                }
            },
            None => {
                let mut group: Vec<ConnectionEntry> = Vec::new();
                group.push(entry);
                proof {
                    assert(group@ == seq![added_entry]);
                    assert(!has_key(groups, code));
                }
                let _ = table_insert(&mut self.table, code, group);
                proof {
                    let fresh = (code, seq![added_entry]);
                    assert(self@ == groups.push(fresh));
                    lemma_count_push(groups, fresh);
                    lemma_push_wf(groups, fresh);
                    lemma_key_index(self@, code, groups.len() as int);
                }
            },
        }
        self.total_size = self.total_size + 1;
        proof {
            assert(self@ == groups_with(groups, code, added_entry));
        }
        Some((activity, cancel, stream_counter))
    }

    /// Removes the entries of one connection from the group of `key`: those
    /// with the given port whose connection has the given identifier, or
    /// which hold no connection. Returns their number.
    pub fn remove_connection(&mut self, key: ConnectionTableKey, port: u16, stable_id: usize) -> (
        removed: usize)
        requires
            old(self).wf(),
        ensures
            final(self).wf(),
            final(self)@ == groups_without(old(self)@, key.code_spec(), port, stable_id),
            removed + retained(connections_of(old(self)@, key.code_spec()), port, stable_id).len()
                == connections_of(old(self)@, key.code_spec()).len(),
            final(self).total() + removed == old(self).total(),
    {
        let code: KeyCode = key.code();
        let ghost groups = self@;
        match table_index_of(&self.table, &code) {
            Some(index) => {
                let ghost i = index as int;
                let ghost kept = retained(groups[i].1, port, stable_id);
                proof {
                    lemma_key_index(groups, code, i);
                    lemma_count_bounds_group(groups, i);
                }
                let group: &mut Vec<ConnectionEntry> = table_group_mut(&mut self.table, index);
                let removed: usize = remove_matching(group, port, stable_id);
                let emptied: bool = group.len() == 0;
                proof {
                    assert(self@ == groups.update(i, (code, kept)));
                }
                if emptied {
                    let gone = table_swap_remove_index(&mut self.table, index);
                    proof {
                        assert(self@ == swap_removed(groups, i));
                        lemma_swap_removed_wf(groups, i);
                        lemma_count_swap_removed(groups, i);
                    }
                } else {
                    proof {
                        lemma_count_update(groups, i, (code, kept));
                        lemma_update_wf(groups, i, (code, kept));
                    }
                }
                self.total_size = self.total_size - removed;
                removed
            },
            None => {
                proof {
                    assert(!has_key(groups, code));
                    assert(retained(Seq::<ConnectionEntry>::empty(), port, stable_id).len() == 0);
                }
                0
            },
        }
    }
    /// The time of the last activity on each connection, as the shared
    /// stamps stand now: group after group, and within a group in the order
    /// of admission.
    pub fn last_updates(&self) -> (stamps: Vec<u64>)
        requires
            self.wf(),
        ensures
            stamps@.len() == self.total(),
    {
        let mut stamps: Vec<u64> = Vec::new();
        let groups: usize = table_len(&self.table);
        let mut i: usize = 0;
        while i < groups
            invariant
                groups == self@.len(),
                i <= groups,
                stamps@.len() == count_entries(self@.take(i as int)),
            decreases groups - i,
        {
            let group: &Vec<ConnectionEntry> = table_group(&self.table, i);
            let ghost before = stamps@.len();
            let mut k: usize = 0;
            while k < group.len()
                invariant
                    k <= group.len(),
                    stamps@.len() == before + k,
                decreases group.len() - k,
            {
                stamps.push(group[k].last_update());
                k = k + 1;
            }
            proof {
                assert(self@.take(i + 1).drop_last() == self@.take(i as int));
                assert(self@.take(i + 1).last() == self@[i as int]);
            }
            i = i + 1;
        }
        proof {
            assert(self@.take(groups as int) == self@);
        }
        stamps
    }

    /// For each group, the oldest of the times of the last activity on its
    /// connections, as the shared stamps stand now: `oldest_stamp` of the
    /// stamps read.
    pub fn activity(&self) -> (activity: Vec<u64>)
        requires
            self.wf(),
        ensures
            activity@.len() == self@.len(),
    {
        let mut activity: Vec<u64> = Vec::new();
        let groups: usize = table_len(&self.table);
        let mut i: usize = 0;
        while i < groups
            invariant
                self.wf(),
                groups == self@.len(),
                i <= groups,
                activity@.len() == i,
            decreases groups - i,
        {
            let group: &Vec<ConnectionEntry> = table_group(&self.table, i);
            assert(self@[i as int].1.len() > 0);
            let stamps: Vec<u64> = read_stamps(group);
            activity.push(oldest_stamp(&stamps));
            i = i + 1;
        }
        activity
    }

    /// Takes the group at `index` out of the table, closes its connections
    /// and returns their number.
    fn evict_group(&mut self, index: usize) -> (evicted: usize)
        requires
            old(self).wf(),
            index < old(self)@.len(),
        ensures
            final(self).wf(),
            final(self)@ == swap_removed(old(self)@, index as int),
            evicted == old(self)@[index as int].1.len(),
            final(self).total() + evicted == old(self).total(),
    {
        let ghost groups = self@;
        proof {
            lemma_swap_removed_wf(groups, index as int);
            lemma_count_swap_removed(groups, index as int);
            lemma_count_bounds_group(groups, index as int);
        }
        match table_swap_remove_index(&mut self.table, index) {
            Some((_, group)) => {
                let evicted: usize = group.len();
                self.total_size = self.total_size - evicted;
                close_entries(group);
                evicted
            },
            None => 0,
        }
    }

    /// Closes every connection of the table, with the code for a dropped
    /// entry, and leaves the table empty: for the time when the server shuts
    /// down. Returns the number of connections closed.
    pub fn close_all(&mut self) -> (closed: usize)
        requires
            old(self).wf(),
        ensures
            final(self).wf(),
            final(self)@.len() == 0,
            final(self).total() == 0,
            closed == old(self).total(),
    {
        let mut closed: usize = 0;
        while table_len(&self.table) > 0
            invariant
                self.wf(),
                self.total() + closed == old(self).total(),
            decreases self@.len(),
        {
            let evicted: usize = self.evict_group(0);
            closed = closed + evicted;
        }
        closed
    }

    /// Evicts the least active groups until the table holds at most
    /// `max_size` connections, where `activity` gives the time of the last
    /// activity of each group. Returns the number of connections evicted.
    pub fn prune_oldest_by(&mut self, activity: Vec<u64>, max_size: usize) -> (num_pruned: usize)
        requires
            old(self).wf(),
            activity@.len() == old(self)@.len(),
        ensures
            final(self).wf(),
            final(self)@ == pruned_to(old(self)@, activity@, max_size as nat).0,
            final(self).total() + num_pruned == old(self).total(),
            final(self).total() <= max_size,
    {
        let ghost groups = self@;
        let ghost stamps = activity@;
        let mut activity = activity;
        let mut num_pruned: usize = 0;
        while self.total_size > max_size
            invariant
                self.wf(),
                activity@.len() == self@.len(),
                pruned_to(self@, activity@, max_size as nat) == pruned_to(
                    groups,
                    stamps,
                    max_size as nat,
                ),
                self.total() + num_pruned == count_entries(groups),
                count_entries(groups) <= usize::MAX,
            decreases self@.len(),
        {
            assert(self@.len() > 0);
            let index: usize = find_oldest(&activity);
            let evicted: usize = self.evict_group(index);
            let _ = activity.swap_remove(index);
            num_pruned = num_pruned + evicted;
        }
        num_pruned
    }

    /// Evicts the least active groups until the table holds at most
    /// `max_size` connections. Returns the number of connections evicted.
    ///
    /// The activity of each group is read once, when the call begins.
    pub fn prune_oldest(&mut self, max_size: usize) -> (num_pruned: usize)
        requires
            old(self).wf(),
        ensures
            final(self).wf(),
            final(self).total() <= max_size,
            final(self).total() + num_pruned == old(self).total(),
            exists|activity: Seq<u64>|
                activity.len() == old(self)@.len() && final(self)@ == (#[trigger] pruned_to(
                    old(self)@,
                    activity,
                    max_size as nat,
                )).0,
    {
        let activity: Vec<u64> = self.activity();
        let ghost stamps = activity@;
        let num_pruned: usize = self.prune_oldest_by(activity, max_size);
        proof {
            assert(self@ == pruned_to(old(self)@, stamps, max_size as nat).0);
        }
        num_pruned
    }

    /// The sampled group of the lower stake: `best` unless the stake of
    /// `candidate` is strictly lower.
    fn lower_stake(&self, best: usize, candidate: usize) -> (lower: usize)
        requires
            self.wf(),
            best < self@.len(),
            candidate < self@.len(),
        ensures
            lower == if group_stake(self@, candidate as int) < group_stake(self@, best as int) {
                candidate
            } else {
                best
            },
    {
        let best_stake: u64 = greatest_stake_of(table_group(&self.table, best));
        let candidate_stake: u64 = greatest_stake_of(table_group(&self.table, candidate));
        if candidate_stake < best_stake {
            candidate
        } else {
            best
        }
    }

    /// Evicts the group at `index` if its stake is below the threshold: if
    /// each of its connections carries less.
    fn evict_below(&mut self, index: usize, threshold_stake: u64) -> (evicted: usize)
        requires
            old(self).wf(),
            index < old(self)@.len(),
        ensures
            final(self).wf(),
            final(self).total() + evicted == old(self).total(),
            group_stake(old(self)@, index as int) < threshold_stake ==> final(self)@
                == swap_removed(old(self)@, index as int) && evicted == old(
                self,
            )@[index as int].1.len(),
            group_stake(old(self)@, index as int) >= threshold_stake ==> final(self)@ == old(
                self,
            )@ && evicted == 0,
    {
        let stake: u64 = greatest_stake_of(table_group(&self.table, index));
        if stake < threshold_stake {
            self.evict_group(index)
        } else {
            0
        }
    }

    /// What `prune_random` does once the sample is drawn: of the groups at
    /// the sampled indices, the one of least stake is evicted, if each of
    /// its connections has less stake than `threshold_stake`. Returns the
    /// number of connections evicted.
    pub fn prune_sampled(&mut self, samples: &Vec<usize>, threshold_stake: u64) -> (num_pruned:
        usize)
        requires
            old(self).wf(),
            samples_in_range(old(self)@, samples@),
        ensures
            final(self).wf(),
            final(self)@ == pruned_sample(old(self)@, samples@, threshold_stake),
            num_pruned == pruned_sample_count(old(self)@, samples@, threshold_stake),
            final(self).total() + num_pruned == old(self).total(),
    {
        if samples.len() == 0 {
            return 0;
        }
        let mut best: usize = samples[0];
        let mut k: usize = 1;
        proof {
            assert(samples@.take(1).len() == 1);
            assert(samples@.take(1)[0] == samples@[0]);
        }
        while k < samples.len()
            invariant
                self.wf(),
                self@ == old(self)@,
                self.total() == old(self).total(),
                samples_in_range(self@, samples@),
                1 <= k <= samples.len(),
                best < self@.len(),
                best == lowest_sampled(self@, samples@.take(k as int)),
            decreases samples.len() - k,
        {
            proof {
                assert(samples@.take(k + 1).drop_last() == samples@.take(k as int));
                assert(samples@.take(k + 1).last() == samples@[k as int]);
            }
            best = self.lower_stake(best, samples[k]);
            k = k + 1;
        }
        proof {
            assert(samples@.take(k as int) == samples@);
        }
        self.evict_below(best, threshold_stake)
    }

    /// Draws `sample_size` groups at random and evicts the one of least
    /// stake, if each of its connections has less stake than
    /// `threshold_stake`; otherwise nothing is evicted. A connection with a
    /// stake at or over the threshold is never evicted. Returns the number
    /// of connections evicted.
    pub fn prune_random(&mut self, sample_size: usize, threshold_stake: u64) -> (num_pruned: usize)
        requires
            old(self).wf(),
        ensures
            final(self).wf(),
            final(self).total() + num_pruned == old(self).total(),
            exists|samples: Seq<usize>|
                samples_in_range(old(self)@, samples) && samples.len() == (if old(self)@.len()
                    > 0 {
                    sample_size as nat
                } else {
                    0
                }) && final(self)@ == #[trigger] pruned_sample(
                    old(self)@,
                    samples,
                    threshold_stake,
                ) && num_pruned == pruned_sample_count(old(self)@, samples, threshold_stake),
    {
        let size: usize = table_len(&self.table);
        if size == 0 || sample_size == 0 {
            proof {
                let none = Seq::<usize>::empty();
                assert(samples_in_range(self@, none));
                assert(self@ == pruned_sample(self@, none, threshold_stake));
            }
            return 0;
        }
        let mut best: usize = random_index(size);
        let ghost mut samples: Seq<usize> = seq![best];
        let mut k: usize = 1;
        while k < sample_size
            invariant
                self.wf(),
                self@ == old(self)@,
                self.total() == old(self).total(),
                size == self@.len(),
                samples_in_range(self@, samples),
                1 <= k <= sample_size,
                samples.len() == k,
                best < self@.len(),
                best == lowest_sampled(self@, samples),
            decreases sample_size - k,
        {
            let candidate: usize = random_index(size);
            proof {
                assert(samples.push(candidate).drop_last() == samples);
                assert(samples.push(candidate).last() == candidate);
            }
            best = self.lower_stake(best, candidate);
            proof {
                samples = samples.push(candidate);
            }
            k = k + 1;
        }
        let num_pruned: usize = self.evict_below(best, threshold_stake);
        proof {
            assert(self@ == pruned_sample(old(self)@, samples, threshold_stake));
        }
        num_pruned
    }
}

} // verus!
