//! What the connection table guarantees through all that is done to it.

use crate::connection_entry::ConnectionEntry;
use crate::connection_table::connections_of;
use crate::connection_table::count_entries;
use crate::connection_table::evicted_activity;
use crate::connection_table::groups_with;
use crate::connection_table::groups_without;
use crate::connection_table::lemma_count_push;
use crate::connection_table::lemma_count_update;
use crate::connection_table::lemma_key_index;
use crate::connection_table::lemma_push_wf;
use crate::connection_table::lemma_update_wf;
use crate::connection_table::lemma_swap_removed_wf;
use crate::connection_table::retained;
use crate::connection_table::group_stake;
use crate::connection_table::lemma_greatest_stake;
use crate::connection_table::groups_nonempty;
use crate::connection_table::has_key;
use crate::connection_table::key_index;
use crate::connection_table::keys_unique;
use crate::connection_table::lemma_count_swap_removed;
use crate::connection_table::lemma_lowest_sampled;
use crate::connection_table::lemma_oldest_index;
use crate::connection_table::lowest_sampled;
use crate::connection_table::oldest_index;
use crate::connection_table::over_size;
use crate::connection_table::pruned_sample;
use crate::connection_table::pruned_sample_count;
use crate::connection_table::pruned_to;
use crate::connection_table::sampled_victim;
use crate::connection_table::samples_in_range;
use crate::connection_table::Groups;
use crate::index_table::swap_removed;
use crate::peer::KeyCode;
use vstd::prelude::*;

verus! {

/// In a table that keeps its invariant, a key is present exactly when it
/// holds a connection.
pub proof fn lemma_key_present_iff_connected(groups: Groups, key: KeyCode)
    requires
        keys_unique(groups),
        groups_nonempty(groups),
    ensures
        has_key(groups, key) <==> connections_of(groups, key).len() > 0,
{
    if has_key(groups, key) {
        let i = key_index(groups, key);
        assert(groups[i].1.len() > 0);
    }
}

/// Whether every value is at least `low`.
pub open spec fn all_at_least(values: Seq<u64>, low: u64) -> bool {
    forall|j: int| 0 <= j < values.len() ==> low <= #[trigger] values[j]
}

proof fn lemma_swap_removed_nonempty(groups: Groups, i: int)
    requires
        0 <= i < groups.len(),
        groups_nonempty(groups),
    ensures
        groups_nonempty(swap_removed(groups, i)),
{
    let after = swap_removed(groups, i);
    assert forall|a: int| 0 <= a < after.len() implies (#[trigger] after[a]).1.len() > 0 by {
        let a0 = if a == i {
            groups.len() - 1
        } else {
            a
        };
        assert(after[a] == groups[a0]);
    }
}

proof fn lemma_swap_removed_at_least(values: Seq<u64>, i: int, low: u64)
    requires
        0 <= i < values.len(),
        all_at_least(values, low),
    ensures
        all_at_least(swap_removed(values, i), low),
{
    let after = swap_removed(values, i);
    assert forall|a: int| 0 <= a < after.len() implies low <= #[trigger] after[a] by {
        let a0 = if a == i {
            values.len() - 1
        } else {
            a
        };
        assert(after[a] == values[a0]);
    }
}

/// No eviction brings in a time that was not there: what bounds the
/// activity of all groups from below bounds that of the evicted and of the
/// surviving groups.
proof fn lemma_prune_oldest_at_least(groups: Groups, activity: Seq<u64>, max_size: nat, low: u64)
    requires
        activity.len() == groups.len(),
        all_at_least(activity, low),
    ensures
        all_at_least(evicted_activity(groups, activity, max_size), low),
        all_at_least(pruned_to(groups, activity, max_size).1, low),
    decreases groups.len(),
{
    if over_size(groups, activity, max_size) {
        lemma_oldest_index(activity);
        let i = oldest_index(activity);
        let rest = evicted_activity(swap_removed(groups, i), swap_removed(activity, i), max_size);
        lemma_swap_removed_at_least(activity, i, low);
        lemma_prune_oldest_at_least(
            swap_removed(groups, i),
            swap_removed(activity, i),
            max_size,
            low,
        );
        let evicted = evicted_activity(groups, activity, max_size);
        assert forall|j: int| 0 <= j < evicted.len() implies low <= #[trigger] evicted[j] by {
            if j > 0 {
                assert(evicted[j] == rest[j - 1]);
            }
        }
    }
}

/// `prune_oldest` leaves at most `max_size` connections, and it evicts the
/// least active groups first: the groups leave in the order of their
/// activity, and none that leaves was active later than one that stays.
pub proof fn lemma_prune_oldest_evicts_least_active(
    groups: Groups,
    activity: Seq<u64>,
    max_size: nat,
)
    requires
        groups_nonempty(groups),
        activity.len() == groups.len(),
    ensures
        count_entries(pruned_to(groups, activity, max_size).0) <= max_size,
        pruned_to(groups, activity, max_size).1.len() == pruned_to(
            groups,
            activity,
            max_size,
        ).0.len(),
        forall|a: int, b: int|
            0 <= a <= b < evicted_activity(groups, activity, max_size).len()
                ==> evicted_activity(groups, activity, max_size)[a] <= evicted_activity(
                groups,
                activity,
                max_size,
            )[b],
        forall|e: int, k: int|
            0 <= e < evicted_activity(groups, activity, max_size).len() && 0 <= k < pruned_to(
                groups,
                activity,
                max_size,
            ).1.len() ==> evicted_activity(groups, activity, max_size)[e] <= pruned_to(
                groups,
                activity,
                max_size,
            ).1[k],
    decreases groups.len(),
{
    if over_size(groups, activity, max_size) {
        lemma_oldest_index(activity);
        let i = oldest_index(activity);
        let low = activity[i];
        let groups1 = swap_removed(groups, i);
        let activity1 = swap_removed(activity, i);
        lemma_swap_removed_nonempty(groups, i);
        lemma_prune_oldest_evicts_least_active(groups1, activity1, max_size);
        assert(all_at_least(activity, low));
        lemma_swap_removed_at_least(activity, i, low);
        lemma_prune_oldest_at_least(groups1, activity1, max_size, low);
        let rest = evicted_activity(groups1, activity1, max_size);
        let evicted = evicted_activity(groups, activity, max_size);
        let kept = pruned_to(groups, activity, max_size).1;
        assert(evicted == seq![low] + rest);
        assert forall|a: int, b: int| 0 <= a <= b < evicted.len() implies evicted[a]
            <= evicted[b] by {
            if a == 0 {
                if b > 0 {
                    assert(evicted[b] == rest[b - 1]);
                }
            } else {
                assert(evicted[a] == rest[a - 1]);
                assert(evicted[b] == rest[b - 1]);
            }
        }
        assert forall|e: int, k: int| 0 <= e < evicted.len() && 0 <= k < kept.len() implies
            evicted[e] <= kept[k] by {
            if e > 0 {
                assert(evicted[e] == rest[e - 1]);
            }
        }
    } else {
        if groups.len() == 0 {
            assert(count_entries(groups) == 0);
        }
    }
}

/// Every group that `prune_oldest` leaves was in the table before, with the
/// connections it had.
pub proof fn lemma_prune_oldest_keeps_groups(
    groups: Groups,
    activity: Seq<u64>,
    max_size: nat,
    k: int,
)
    requires
        activity.len() == groups.len(),
        0 <= k < pruned_to(groups, activity, max_size).0.len(),
    ensures
        exists|j: int|
            0 <= j < groups.len() && #[trigger] groups[j] == pruned_to(
                groups,
                activity,
                max_size,
            ).0[k],
    decreases groups.len(),
{
    let kept = pruned_to(groups, activity, max_size).0;
    if over_size(groups, activity, max_size) {
        lemma_oldest_index(activity);
        let i = oldest_index(activity);
        let groups1 = swap_removed(groups, i);
        lemma_prune_oldest_keeps_groups(groups1, swap_removed(activity, i), max_size, k);
        let j1 = choose|j: int| 0 <= j < groups1.len() && #[trigger] groups1[j] == kept[k];
        let j0 = if j1 == i {
            groups.len() - 1
        } else {
            j1
        };
        assert(groups[j0] == kept[k]);
    } else {
        assert(groups[k] == kept[k]);
    }
}

/// `prune_random` evicts one group or nothing, and never a connection whose
/// stake is at or over the threshold: each connection of the group that
/// goes carries less. The group that goes is one of those sampled, and none
/// of the sampled groups has less stake. Where nothing goes, each of the
/// sampled groups holds a connection with a stake at or over the threshold,
/// or nothing was sampled. A threshold of zero evicts nothing.
pub proof fn lemma_prune_random_spares_threshold(
    groups: Groups,
    samples: Seq<usize>,
    threshold_stake: u64,
)
    requires
        samples_in_range(groups, samples),
    ensures
        match sampled_victim(groups, samples, threshold_stake) {
            Some(i) => {
                &&& 0 <= i < groups.len()
                &&& exists|k: int| 0 <= k < samples.len() && #[trigger] samples[k] == i
                &&& forall|k: int|
                    0 <= k < samples.len() ==> group_stake(groups, i) <= group_stake(
                        groups,
                        #[trigger] samples[k] as int,
                    )
                &&& pruned_sample(groups, samples, threshold_stake) == swap_removed(groups, i)
                &&& pruned_sample_count(groups, samples, threshold_stake) == groups[i].1.len()
                &&& forall|k: int|
                    0 <= k < groups[i].1.len() ==> (#[trigger] groups[i].1[k]).peer_type.stake_of()
                        < threshold_stake
            },
            None => {
                &&& pruned_sample(groups, samples, threshold_stake) == groups
                &&& pruned_sample_count(groups, samples, threshold_stake) == 0
                &&& forall|k: int|
                    0 <= k < samples.len() ==> group_stake(groups, #[trigger] samples[k] as int)
                        >= threshold_stake
            },
        },
        threshold_stake == 0 || samples.len() == 0 ==> sampled_victim(
            groups,
            samples,
            threshold_stake,
        ) is None,
{
    if samples.len() > 0 {
        lemma_lowest_sampled(groups, samples);
        lemma_greatest_stake(groups[lowest_sampled(groups, samples)].1);
    }
}

/// An eviction by `prune_random` takes exactly one group out of the table.
pub proof fn lemma_prune_random_count(groups: Groups, samples: Seq<usize>, threshold_stake: u64)
    requires
        samples_in_range(groups, samples),
    ensures
        count_entries(pruned_sample(groups, samples, threshold_stake)) + pruned_sample_count(
            groups,
            samples,
            threshold_stake,
        ) == count_entries(groups),
        pruned_sample(groups, samples, threshold_stake).len() + (if sampled_victim(
            groups,
            samples,
            threshold_stake,
        ) is Some {
            1nat
        } else {
            0nat
        }) == groups.len(),
{
    if samples.len() > 0 {
        lemma_lowest_sampled(groups, samples);
        let i = lowest_sampled(groups, samples);
        lemma_count_swap_removed(groups, i);
    }
}

/// One thing that is done to the table.
pub enum TableStep {
    /// A connection is admitted under a key.
    Admit(KeyCode, ConnectionEntry),
    /// The entries of a connection leave the group of a key: those with the
    /// port and the identifier given.
    Remove(KeyCode, u16, usize),
    /// The least active groups are evicted down to a size, by the activity
    /// given for each group.
    PruneOldest(Seq<u64>, nat),
    /// The sampled group of least stake is evicted if its stake is below a
    /// threshold.
    PruneRandom(Seq<usize>, u64),
}

/// The table after one step. A pruning whose activity or sample does not
/// fit the table leaves it as it is.
pub open spec fn after_step(groups: Groups, step: TableStep) -> Groups {
    match step {
        TableStep::Admit(key, entry) => groups_with(groups, key, entry),
        TableStep::Remove(key, port, stable_id) => groups_without(groups, key, port, stable_id),
        TableStep::PruneOldest(activity, max_size) => if activity.len() == groups.len() {
            pruned_to(groups, activity, max_size).0
        } else {
            groups
        },
        TableStep::PruneRandom(samples, threshold_stake) => if samples_in_range(groups, samples) {
            pruned_sample(groups, samples, threshold_stake)
        } else {
            groups
        },
    }
}

/// The table after a sequence of steps.
pub open spec fn after_steps(groups: Groups, steps: Seq<TableStep>) -> Groups
    decreases steps.len(),
{
    if steps.len() == 0 {
        groups
    } else {
        after_step(after_steps(groups, steps.drop_last()), steps.last())
    }
}

/// What holds of the groups of a table at all times: a key occurs once, and
/// no group is empty.
pub open spec fn groups_wf(groups: Groups) -> bool {
    keys_unique(groups) && groups_nonempty(groups)
}

/// `prune_oldest` leaves the keys unique and the groups non-empty, and adds
/// no connection.
pub proof fn lemma_prune_oldest_keeps_wf(groups: Groups, activity: Seq<u64>, max_size: nat)
    requires
        groups_wf(groups),
    ensures
        groups_wf(pruned_to(groups, activity, max_size).0),
        count_entries(pruned_to(groups, activity, max_size).0) <= count_entries(groups),
    decreases groups.len(),
{
    if over_size(groups, activity, max_size) {
        lemma_oldest_index(activity);
        let i = oldest_index(activity);
        lemma_swap_removed_wf(groups, i);
        lemma_count_swap_removed(groups, i);
        lemma_prune_oldest_keeps_wf(swap_removed(groups, i), swap_removed(activity, i), max_size);
    }
}

/// The entries that stay of a group are no more than the group had.
proof fn lemma_retained_len(entries: Seq<ConnectionEntry>, port: u16, stable_id: usize)
    ensures
        retained(entries, port, stable_id).len() <= entries.len(),
    decreases entries.len(),
{
    if entries.len() > 0 {
        lemma_retained_len(entries.drop_last(), port, stable_id);
    }
}

/// Each step leaves a table in which a key occurs once and no group is
/// empty, and changes the number of connections by what it admits or takes
/// out: an admission adds one, and nothing else adds any.
pub proof fn lemma_step_keeps_invariant(groups: Groups, step: TableStep)
    requires
        groups_wf(groups),
    ensures
        groups_wf(after_step(groups, step)),
        step is Admit ==> count_entries(after_step(groups, step)) == count_entries(groups) + 1,
        !(step is Admit) ==> count_entries(after_step(groups, step)) <= count_entries(groups),
        step is PruneOldest && step->PruneOldest_0.len() == groups.len() ==> count_entries(
            after_step(groups, step),
        ) <= step->PruneOldest_1,
{
    match step {
        TableStep::Admit(key, entry) => {
            if has_key(groups, key) {
                let i = key_index(groups, key);
                lemma_count_update(groups, i, (key, groups[i].1.push(entry)));
                lemma_update_wf(groups, i, (key, groups[i].1.push(entry)));
            } else {
                lemma_count_push(groups, (key, seq![entry]));
                lemma_push_wf(groups, (key, seq![entry]));
            }
        },
        TableStep::Remove(key, port, stable_id) => {
            if has_key(groups, key) {
                let i = key_index(groups, key);
                let kept = retained(groups[i].1, port, stable_id);
                lemma_retained_len(groups[i].1, port, stable_id);
                if kept.len() == 0 {
                    lemma_swap_removed_wf(groups, i);
                    lemma_count_swap_removed(groups, i);
                } else {
                    lemma_count_update(groups, i, (key, kept));
                    lemma_update_wf(groups, i, (key, kept));
                }
            }
        },
        TableStep::PruneOldest(activity, max_size) => {
            if activity.len() == groups.len() {
                lemma_prune_oldest_keeps_wf(groups, activity, max_size);
                lemma_prune_oldest_evicts_least_active(groups, activity, max_size);
            }
        },
        TableStep::PruneRandom(samples, threshold_stake) => {
            if samples_in_range(groups, samples) && samples.len() > 0 {
                lemma_lowest_sampled(groups, samples);
                let i = lowest_sampled(groups, samples);
                lemma_swap_removed_wf(groups, i);
                lemma_count_swap_removed(groups, i);
            }
        },
    }
}

/// An admission adds one connection to the table and to its key, at the end
/// of the key's connections, and leaves a table in which a key occurs once
/// and no group is empty. This holds of a table of any size.
pub proof fn lemma_admission_adds_one(groups: Groups, key: KeyCode, entry: ConnectionEntry)
    requires
        groups_wf(groups),
    ensures
        groups_wf(groups_with(groups, key, entry)),
        count_entries(groups_with(groups, key, entry)) == count_entries(groups) + 1,
        has_key(groups_with(groups, key, entry), key),
        connections_of(groups_with(groups, key, entry), key) == connections_of(groups, key).push(
            entry,
        ),
        groups_with(groups, key, entry).len() == groups.len() + (if has_key(groups, key) {
            0int
        } else {
            1int
        }),
{
    lemma_step_keeps_invariant(groups, TableStep::Admit(key, entry));
    let after = groups_with(groups, key, entry);
    if has_key(groups, key) {
        let i = key_index(groups, key);
        assert(after[i].0 == key);
        lemma_key_index(after, key, i);
    } else {
        assert(after[groups.len() as int].0 == key);
        lemma_key_index(after, key, groups.len() as int);
        assert(connections_of(groups, key).push(entry) == seq![entry]);
    }
}

/// Through every sequence of admissions, removals and evictions that begins
/// at an empty table, a key occurs once and no group is empty: a key is in
/// the table exactly while it holds a connection. The number of connections
/// is never more than the number of admissions.
pub proof fn lemma_steps_keep_invariant(steps: Seq<TableStep>)
    ensures
        groups_wf(after_steps(Seq::empty(), steps)),
        count_entries(after_steps(Seq::empty(), steps)) <= steps.len(),
        forall|key: KeyCode|
            has_key(after_steps(Seq::empty(), steps), key) <==> connections_of(
                after_steps(Seq::empty(), steps),
                key,
            ).len() > 0,
    decreases steps.len(),
{
    let start: Groups = Seq::empty();
    if steps.len() > 0 {
        lemma_steps_keep_invariant(steps.drop_last());
        lemma_step_keeps_invariant(after_steps(start, steps.drop_last()), steps.last());
    }
    let groups = after_steps(start, steps);
    assert forall|key: KeyCode| has_key(groups, key) <==> connections_of(groups, key).len()
        > 0 by {
        lemma_key_present_iff_connected(groups, key);
    }
}

} // verus!
