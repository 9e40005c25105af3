//! What holds of every backwash coordinator.

use crate::backwash_coordinator::{
    filter_ports, filter_roles, first_above, joined, joined_by, lemma_first_above,
    lemma_head_leaves, lemma_joined, lemma_length, lemma_reordered, lemma_standing, queue_names,
    restored_queue, spec_from_parameters, standing, with_queue, CoordinatorReadings,
    CoordinatorView, FilterIo, QueuePolicy, QueuedState,
};
use crate::describe::{
    agree_on, describes_parameter, Direction, ParameterRange, ParameterView, PortRole,
    RequirementView,
};
use crate::params::{
    spec_required_u64, spec_tune_u64, spec_unknown_parameter, CommandErrorView, ParameterErrorView,
};
use crate::table::{field, int_field, known_fields, known_names_pass, StateErrorView, Table};
use crate::text::{digit_value, numbered_name_parts, numbered_names_differ, spec_numbered};
use crate::value::{PointId, Quality, Tick, Value, ValueKind, Write};
use vstd::prelude::*;

verus! {

/// Every code names the variant it was taken from, and no other code names
/// one.
pub proof fn coordinator_codes_read_back(policy: QueuePolicy, state: QueuedState, code: i64)
    ensures
        QueuePolicy::spec_decode(policy.spec_code() as int) == Some(policy),
        QueuePolicy::spec_decode(code as int) matches Some(named) ==> named.spec_code() == code,
        QueuedState::spec_decode(state.spec_code() as int) == Some(state),
        QueuedState::spec_decode(code as int) matches Some(named) ==> named.spec_code() == code,
{
}

proof fn lemma_lined_up(coordinator: CoordinatorView, scan: CoordinatorReadings)
    requires
        coordinator.wf(),
    ensures
        ({
            let queue = coordinator.lined_up(scan);
            &&& queue.no_duplicates()
            &&& queue.len() <= coordinator.count()
            &&& forall|k: int| 0 <= k < queue.len() ==> (#[trigger] queue[k]) < coordinator.count()
            &&& forall|m: usize| #[trigger]
                queue.contains(m) <==> m < coordinator.count() && scan.requesting(m as int)
                    && coordinator.holder(scan) != Some(m)
        }),
{
    let count = coordinator.count();
    let kept = standing(coordinator.queue, scan);
    let holder = coordinator.holder(scan);
    let policy = coordinator.config.queue_policy;
    lemma_standing(coordinator.queue, scan, count);
    lemma_joined(kept, scan, holder, policy, coordinator.filters.len(), count);
    let before = joined(kept, scan, holder, policy, coordinator.filters.len());
    lemma_reordered(before, scan.instruction(count), count);
    let queue = coordinator.lined_up(scan);
    lemma_length(queue, count);
    assert forall|m: usize| #[trigger] queue.contains(m) <==> m < count && scan.requesting(m as int)
        && holder != Some(m) by {
        if kept.contains(m) {
            assert(coordinator.queue.contains(m));
            let k = coordinator.queue.index_of(m);
            assert(coordinator.queue[k] < count);
        }
    }
}

/// A scan keeps the invariant: no filter is queued twice, and the holder of
/// the grant is not queued.
pub proof fn scans_keep_the_invariant(coordinator: CoordinatorView, scan: CoordinatorReadings)
    requires
        coordinator.wf(),
    ensures
        coordinator.after(scan).wf(),
{
    lemma_lined_up(coordinator, scan);
    let queue = coordinator.lined_up(scan);
    if coordinator.serves(scan) {
        lemma_head_leaves(queue);
    }
}

/// After a scan the queue holds exactly the filters that request and do not
/// hold the grant.
pub proof fn queue_holds_the_waiting(
    coordinator: CoordinatorView,
    scan: CoordinatorReadings,
    filter: usize,
)
    requires
        coordinator.wf(),
        filter < coordinator.count(),
    ensures
        coordinator.after(scan).queue.contains(filter) <==> scan.requesting(filter as int)
            && coordinator.after(scan).granted != Some(filter),
{
    lemma_lined_up(coordinator, scan);
    if coordinator.serves(scan) {
        lemma_head_leaves(coordinator.lined_up(scan));
    }
}

/// What a scan drives for filter `i`.
proof fn lemma_filter_writes(coordinator: CoordinatorView, permitted: bool, tick: Tick, done: nat)
    ensures
        ({
            let writes = coordinator.filter_writes(permitted, tick, done);
            &&& writes.len() == 2 * done
            &&& forall|i: int|
                0 <= i < done ==> writes[2 * i] == Write::of(
                    (#[trigger] coordinator.filters[i]).grant,
                    Value::Bool(coordinator.granted == Some(i as usize) && permitted),
                    Quality::Good,
                    tick,
                ) && writes[2 * i + 1] == Write::of(
                    coordinator.filters[i].position,
                    Value::Int(coordinator.place(i) as i64),
                    Quality::Good,
                    tick,
                )
        }),
    decreases done,
{
    if done > 0 {
        lemma_filter_writes(coordinator, permitted, tick, (done - 1) as nat);
    }
}

/// At most one `grant_i` is driven in a scan, only while every condition
/// holds, and only to a filter that requests.
pub proof fn grants_are_exclusive(
    coordinator: CoordinatorView,
    scan: CoordinatorReadings,
    tick: Tick,
    i: int,
    j: int,
)
    requires
        coordinator.wf(),
        0 <= i < coordinator.count(),
        0 <= j < coordinator.count(),
        coordinator.writes(scan, tick)[2 * i].sample.value == Value::Bool(true),
    ensures
        scan.permitted(),
        scan.requesting(i),
        coordinator.writes(scan, tick)[2 * j].sample.value == Value::Bool(true) ==> i == j,
{
    let after = coordinator.after(scan);
    let permitted = scan.permitted();
    lemma_filter_writes(after, permitted, tick, after.filters.len());
    assert(after.filters[i] == coordinator.filters[i]);
    assert(after.filters[j] == coordinator.filters[j]);
    lemma_lined_up(coordinator, scan);
    let queue = coordinator.lined_up(scan);
    if coordinator.serves(scan) {
        assert(queue.contains(queue[0]));
    }
}

/// What a scan reports of filter `i`: the grant under the conditions, and
/// its place in the queue, which is zero for the holder.
pub proof fn filters_are_reported(
    coordinator: CoordinatorView,
    scan: CoordinatorReadings,
    tick: Tick,
    i: int,
)
    requires
        coordinator.wf(),
        0 <= i < coordinator.count(),
    ensures
        ({
            let after = coordinator.after(scan);
            let writes = coordinator.writes(scan, tick);
            &&& writes[2 * i] == Write::of(
                coordinator.filters[i].grant,
                Value::Bool(after.granted == Some(i as usize) && scan.permitted()),
                Quality::Good,
                tick,
            )
            &&& writes[2 * i + 1] == Write::of(
                coordinator.filters[i].position,
                Value::Int(after.place(i) as i64),
                Quality::Good,
                tick,
            )
            &&& after.granted == Some(i as usize) ==> after.place(i) == 0
            &&& after.place(i) > 0 ==> after.queue[after.place(i) - 1] == i
        }),
{
    let after = coordinator.after(scan);
    lemma_filter_writes(after, scan.permitted(), tick, after.filters.len());
    assert(after.filters[i] == coordinator.filters[i]);
    scans_keep_the_invariant(coordinator, scan);
    if after.queue.contains(i as usize) {
        let k = after.queue.index_of(i as usize);
        assert(after.queue[k] == i as usize);
    }
}

/// What a scan reports of the bank, after its filters: the holder's number,
/// how many wait, and whether the resource blocks them. Every output is
/// `Good`.
pub proof fn bank_is_reported(coordinator: CoordinatorView, scan: CoordinatorReadings, tick: Tick)
    requires
        coordinator.wf(),
    ensures
        ({
            let after = coordinator.after(scan);
            let writes = coordinator.writes(scan, tick);
            let at = 2 * coordinator.count();
            &&& writes.len() == at + 3
            &&& writes[at].sample.value == Value::Int(
                match after.granted {
                    Some(holder) => (holder + 1) as i64,
                    None => 0,
                },
            )
            &&& writes[at + 1].sample.value == Value::Int(after.queue.len() as i64)
            &&& writes[at + 2].sample.value == Value::Bool(
                after.queue.len() > 0 && !scan.permitted(),
            )
            &&& forall|k: int|
                0 <= k < writes.len() ==> (#[trigger] writes[k]).sample.quality == Quality::Good
        }),
{
    let after = coordinator.after(scan);
    lemma_filter_writes(after, scan.permitted(), tick, after.filters.len());
    let writes = coordinator.writes(scan, tick);
    assert forall|k: int| 0 <= k < writes.len() implies (#[trigger] writes[k]).sample.quality
        == Quality::Good by {
        if k < 2 * coordinator.count() {
            let i = k / 2;
            assert(k == 2 * i || k == 2 * i + 1);
            assert(after.filters[i] == coordinator.filters[i]);
        }
    }
}

/// The grant stands while its holder's request does, through an outage of
/// the conditions too, and is released in the scan that drops it.
pub proof fn grant_follows_the_request(
    coordinator: CoordinatorView,
    scan: CoordinatorReadings,
    holder: usize,
)
    requires
        coordinator.wf(),
        coordinator.granted == Some(holder),
    ensures
        coordinator.after(scan).granted == Some(holder) <==> scan.requesting(holder as int),
{
    lemma_lined_up(coordinator, scan);
    let queue = coordinator.lined_up(scan);
    if coordinator.serves(scan) {
        assert(queue.contains(queue[0]));
    }
}

/// A grant is issued only under the conditions, only to the head of the
/// queue, and under operator management only to the filter that the
/// instruction names.
pub proof fn grants_are_issued_by_rule(
    coordinator: CoordinatorView,
    scan: CoordinatorReadings,
    filter: usize,
)
    requires
        coordinator.wf(),
        coordinator.granted != Some(filter),
        coordinator.after(scan).granted == Some(filter),
    ensures
        scan.permitted(),
        scan.requesting(filter as int),
        coordinator.lined_up(scan)[0] == filter,
        coordinator.config.queue_policy == QueuePolicy::OperatorManaged ==> scan.instruction(
            coordinator.count(),
        ) == Some(filter),
{
    lemma_lined_up(coordinator, scan);
    let queue = coordinator.lined_up(scan);
    assert(queue.contains(queue[0]));
}

/// While a filter waits, the conditions hold and no operator has to choose,
/// somebody holds the grant after the scan.
pub proof fn waiting_filters_are_served(
    coordinator: CoordinatorView,
    scan: CoordinatorReadings,
    filter: usize,
)
    requires
        coordinator.wf(),
        filter < coordinator.count(),
        scan.requesting(filter as int),
        scan.permitted(),
        coordinator.config.queue_policy != QueuePolicy::OperatorManaged,
    ensures
        coordinator.after(scan).granted is Some,
{
    lemma_lined_up(coordinator, scan);
    assert(coordinator.holder(scan) is None ==> coordinator.lined_up(scan).contains(filter));
}

/// `resource_blocked` is driven exactly while a filter waits and a condition
/// fails.
pub proof fn blocked_while_a_condition_fails(
    coordinator: CoordinatorView,
    scan: CoordinatorReadings,
    tick: Tick,
)
    requires
        coordinator.wf(),
    ensures
        ({
            let after = coordinator.after(scan);
            let writes = coordinator.writes(scan, tick);
            let at = 2 * coordinator.count();
            &&& writes.len() == at + 3
            &&& writes[at].sample.value == Value::Int(after.active() as i64)
            &&& writes[at + 1].sample.value == Value::Int(after.queue.len() as i64)
            &&& writes[at + 2].sample.value == Value::Bool(
                after.queue.len() > 0 && !scan.permitted(),
            )
        }),
{
    let after = coordinator.after(scan);
    lemma_filter_writes(after, scan.permitted(), tick, after.filters.len());
}

/// An untrusted request neither queues nor holds the grant.
pub proof fn untrusted_requests_do_not_count(
    coordinator: CoordinatorView,
    scan: CoordinatorReadings,
    filter: usize,
)
    requires
        coordinator.wf(),
        filter < coordinator.count(),
        scan.requests@[filter as int].quality != Quality::Good,
    ensures
        !coordinator.after(scan).queue.contains(filter),
        coordinator.after(scan).granted != Some(filter),
{
    queue_holds_the_waiting(coordinator, scan, filter);
    lemma_lined_up(coordinator, scan);
    let queue = coordinator.lined_up(scan);
    if coordinator.serves(scan) {
        assert(queue.contains(queue[0]));
    }
}

/// Arrivals queue behind everybody who waited, in the order of their
/// numbers, unless the policy orders by number. So without an instruction
/// the queue is served in the order of arrival.
pub proof fn arrivals_queue_last(coordinator: CoordinatorView, scan: CoordinatorReadings)
    requires
        coordinator.wf(),
        coordinator.config.queue_policy != QueuePolicy::PriorityByTrigger,
        scan.instruction(coordinator.count()) is None,
    ensures
        ({
            let kept = standing(coordinator.queue, scan);
            let queue = coordinator.lined_up(scan);
            &&& kept.len() <= queue.len()
            &&& queue.take(kept.len() as int) == kept
            &&& forall|p: int, q: int|
                kept.len() <= p < q < queue.len() ==> #[trigger] queue[p] < #[trigger] queue[q]
        }),
{
    lemma_arrivals(
        standing(coordinator.queue, scan),
        scan,
        coordinator.holder(scan),
        coordinator.config.queue_policy,
        coordinator.filters.len(),
    );
}

proof fn lemma_arrivals(
    kept: Seq<usize>,
    scan: CoordinatorReadings,
    holder: Option<usize>,
    policy: QueuePolicy,
    done: nat,
)
    requires
        policy != QueuePolicy::PriorityByTrigger,
        done <= usize::MAX,
    ensures
        ({
            let queue = joined(kept, scan, holder, policy, done);
            &&& kept.len() <= queue.len()
            &&& queue.take(kept.len() as int) == kept
            &&& forall|p: int|
                kept.len() <= p < queue.len() ==> #[trigger] queue[p] < done
            &&& forall|p: int, q: int|
                kept.len() <= p < q < queue.len() ==> #[trigger] queue[p] < #[trigger] queue[q]
        }),
    decreases done,
{
    if done > 0 {
        lemma_arrivals(kept, scan, holder, policy, (done - 1) as nat);
        let earlier = joined(kept, scan, holder, policy, (done - 1) as nat);
        let queue = joined(kept, scan, holder, policy, done);
        assert(queue.take(kept.len() as int) == earlier.take(kept.len() as int));
    }
}

/// Whoever waits on keeps their order towards each other.
pub proof fn drop_outs_keep_the_order(
    coordinator: CoordinatorView,
    scan: CoordinatorReadings,
    p: int,
    q: int,
)
    requires
        0 <= p < q < coordinator.queue.len(),
        scan.requesting(coordinator.queue[p] as int),
        scan.requesting(coordinator.queue[q] as int),
    ensures
        exists|a: int, b: int|
            0 <= a < b < standing(coordinator.queue, scan).len() && #[trigger] standing(
                coordinator.queue,
                scan,
            )[a] == coordinator.queue[p] && #[trigger] standing(coordinator.queue, scan)[b]
                == coordinator.queue[q],
{
    lemma_order_kept(coordinator.queue, scan, p, q);
}

proof fn lemma_order_kept(queue: Seq<usize>, scan: CoordinatorReadings, p: int, q: int)
    requires
        0 <= p < q < queue.len(),
        scan.requesting(queue[p] as int),
        scan.requesting(queue[q] as int),
    ensures
        exists|a: int, b: int|
            0 <= a < b < standing(queue, scan).len() && #[trigger] standing(queue, scan)[a]
                == queue[p] && #[trigger] standing(queue, scan)[b] == queue[q],
    decreases queue.len(),
{
    let earlier = queue.drop_last();
    let kept = standing(earlier, scan);
    let all = standing(queue, scan);
    if q == queue.len() - 1 {
        lemma_member_kept(earlier, scan, p);
        let a = choose|a: int| 0 <= a < kept.len() && #[trigger] kept[a] == earlier[p];
        assert(all[a] == queue[p]);
        assert(all[all.len() - 1] == queue[q]);
    } else {
        lemma_order_kept(earlier, scan, p, q);
        let (a, b) = choose|a: int, b: int|
            0 <= a < b < kept.len() && #[trigger] kept[a] == earlier[p] && #[trigger] kept[b]
                == earlier[q];
        assert(all[a] == queue[p]);
        assert(all[b] == queue[q]);
    }
}

proof fn lemma_member_kept(queue: Seq<usize>, scan: CoordinatorReadings, p: int)
    requires
        0 <= p < queue.len(),
        scan.requesting(queue[p] as int),
    ensures
        exists|a: int|
            0 <= a < standing(queue, scan).len() && #[trigger] standing(queue, scan)[a] == queue[p],
    decreases queue.len(),
{
    let earlier = queue.drop_last();
    let kept = standing(earlier, scan);
    let all = standing(queue, scan);
    if p == queue.len() - 1 {
        assert(all[all.len() - 1] == queue[p]);
    } else {
        lemma_member_kept(earlier, scan, p);
        let a = choose|a: int| 0 <= a < kept.len() && #[trigger] kept[a] == earlier[p];
        assert(all[a] == queue[p]);
    }
}

/// Whether a queue stands in the order of the filters' numbers.
pub open spec fn in_number_order(queue: Seq<usize>) -> bool {
    forall|p: int, q: int| 0 <= p < q < queue.len() ==> #[trigger] queue[p] < #[trigger] queue[q]
}

/// Under the priority policy a queue in number order stays in it, as long as
/// no instruction moves a member to the head.
pub proof fn priority_keeps_number_order(coordinator: CoordinatorView, scan: CoordinatorReadings)
    requires
        coordinator.wf(),
        coordinator.config.queue_policy == QueuePolicy::PriorityByTrigger,
        in_number_order(coordinator.queue),
        scan.instruction(coordinator.count()) is None,
    ensures
        in_number_order(coordinator.after(scan).queue),
{
    lemma_standing_order(coordinator.queue, scan);
    lemma_standing(coordinator.queue, scan, coordinator.count());
    lemma_priority_order(
        standing(coordinator.queue, scan),
        scan,
        coordinator.holder(scan),
        coordinator.filters.len(),
        coordinator.count(),
    );
}

proof fn lemma_standing_order(queue: Seq<usize>, scan: CoordinatorReadings)
    requires
        in_number_order(queue),
    ensures
        in_number_order(standing(queue, scan)),
        standing(queue, scan).len() > 0 ==> queue.len() > 0 && standing(queue, scan).last()
            <= queue.last(),
    decreases queue.len(),
{
    if queue.len() > 0 {
        let earlier = queue.drop_last();
        assert(in_number_order(earlier));
        lemma_standing_order(earlier, scan);
        if earlier.len() > 0 {
            assert(queue[earlier.len() - 1] < queue[queue.len() - 1]);
        }
        let kept = standing(earlier, scan);
        assert forall|p: int| 0 <= p < kept.len() implies #[trigger] kept[p] < queue.last() by {
            if p < kept.len() - 1 {
                assert(kept[p] < kept[kept.len() - 1]);
            }
        }
    }
}

proof fn lemma_priority_order(
    kept: Seq<usize>,
    scan: CoordinatorReadings,
    holder: Option<usize>,
    done: nat,
    count: int,
)
    requires
        done <= count <= usize::MAX,
        kept.no_duplicates(),
        forall|k: int| 0 <= k < kept.len() ==> (#[trigger] kept[k]) < count,
        holder matches Some(h) ==> !kept.contains(h),
        in_number_order(kept),
    ensures
        in_number_order(joined(kept, scan, holder, QueuePolicy::PriorityByTrigger, done)),
    decreases done,
{
    if done > 0 {
        let policy = QueuePolicy::PriorityByTrigger;
        lemma_priority_order(kept, scan, holder, (done - 1) as nat, count);
        let earlier = joined(kept, scan, holder, policy, (done - 1) as nat);
        let filter = (done - 1) as usize;
        if scan.requesting(done - 1) && holder != Some(filter) && !earlier.contains(filter) {
            lemma_first_above(earlier, filter, 0);
            let at = first_above(earlier, filter, 0);
            let queue = earlier.insert(at, filter);
            assert forall|p: int, q: int| 0 <= p < q < queue.len() implies #[trigger] queue[p]
                < #[trigger] queue[q] by {
                if p < at {
                    assert(queue[p] == earlier[p]);
                    assert(earlier.contains(earlier[p]));
                } else if p > at {
                    assert(queue[p] == earlier[p - 1]);
                }
                if q < at {
                    assert(queue[q] == earlier[q]);
                } else if q > at {
                    assert(queue[q] == earlier[q - 1]);
                    if q - 1 > at {
                        assert(earlier[at] < earlier[q - 1]);
                    }
                }
            }
        }
    }
}

/// Under the priority policy an arrival goes ahead of every higher-numbered
/// member, in whatever order the queue stands.
pub proof fn arrivals_pass_higher_numbers(queue: Seq<usize>, filter: usize, k: int)
    requires
        0 <= k < queue.len(),
        queue[k] > filter,
    ensures
        ({
            let at = first_above(queue, filter, 0);
            let after = joined_by(queue, filter, QueuePolicy::PriorityByTrigger);
            &&& 0 <= at <= k
            &&& after[at] == filter
            &&& after[k + 1] == queue[k]
        }),
{
    lemma_first_above(queue, filter, 0);
}

/// The instruction moves a waiting filter to the head: after the scan it is
/// first in the queue, or holds the grant.
pub proof fn instruction_moves_to_the_head(
    coordinator: CoordinatorView,
    scan: CoordinatorReadings,
    target: usize,
)
    requires
        coordinator.wf(),
        scan.instruction(coordinator.count()) == Some(target),
        scan.requesting(target as int),
        target < coordinator.count(),
    ensures
        ({
            let after = coordinator.after(scan);
            after.granted == Some(target) || (after.queue.len() > 0 && after.queue[0] == target)
        }),
{
    let count = coordinator.count();
    let kept = standing(coordinator.queue, scan);
    let holder = coordinator.holder(scan);
    let policy = coordinator.config.queue_policy;
    lemma_standing(coordinator.queue, scan, count);
    lemma_joined(kept, scan, holder, policy, coordinator.filters.len(), count);
}

/// A retune leaves the standing queue and the grant alone.
pub proof fn retunes_keep_the_queue(
    coordinator: CoordinatorView,
    parameter: Seq<char>,
    value: Value,
)
    ensures
        coordinator.tuned(parameter, value) matches Ok::<CoordinatorView, CommandErrorView>(tuned)
            ==> tuned.queue == coordinator.queue && tuned.granted == coordinator.granted,
{
}

/// A coordinator of as many filters that takes over a checkpoint stands
/// where the captured one stood: same tuning, same queue order, same grant.
pub proof fn checkpoint_round_trip(
    coordinator: CoordinatorView,
    standby: CoordinatorView,
    checkpoint: Table,
)
    requires
        coordinator.wf(),
        standby.wf(),
        standby.count() == coordinator.count(),
        coordinator.count() <= i64::MAX,
        checkpoint@ == coordinator.captured(),
    ensures
        standby.restored(checkpoint.keys(), checkpoint@) == Ok::<CoordinatorView, StateErrorView>(
            CoordinatorView {
                config: coordinator.config,
                queue: coordinator.queue,
                granted: coordinator.granted,
                ..standby
            },
        ),
{
    let n = coordinator.queue.len();
    lemma_own_fields(coordinator);
    assert forall|key: Seq<char>| #[trigger] checkpoint@.dom().contains(key) implies queue_names(
        n,
    ).contains(key) by {
        lemma_queue_dom(coordinator, n, n, key);
    }
    known_names_pass(checkpoint, standby.name, queue_names(n));
    lemma_queue_restored(coordinator, standby.name, n);
    assert(coordinator.queue.take(n as int) == coordinator.queue);
}

/// No name of the coordinator's own is the name of a queue member.
proof fn lemma_own_names(n: nat)
    ensures
        spec_numbered("queue_"@, n) != "queue_policy"@,
        spec_numbered("queue_"@, n) != "queued_state"@,
        spec_numbered("queue_"@, n) != "granted"@,
        spec_numbered("queue_"@, n) != "queued_count"@,
{
    reveal_strlit("queue_");
    reveal_strlit("queue_policy");
    reveal_strlit("queued_state");
    reveal_strlit("granted");
    reveal_strlit("queued_count");
    numbered_name_parts("queue_"@, n);
    assert(digit_value("queue_policy"@.last()) is None);
    assert(digit_value("queued_state"@.last()) is None);
    assert(digit_value("granted"@.last()) is None);
    assert(digit_value("queued_count"@.last()) is None);
}

proof fn lemma_own_fields(coordinator: CoordinatorView)
    ensures
        ({
            let fields = coordinator.captured();
            let config = coordinator.config;
            &&& field(fields, "queue_policy"@) == Some(Value::Int(config.queue_policy.spec_code()))
            &&& field(fields, "queued_state"@) == Some(Value::Int(config.queued_state.spec_code()))
            &&& field(fields, "granted"@) == Some(Value::Int(coordinator.active() as i64))
            &&& field(fields, "queued_count"@) == Some(Value::Int(coordinator.queue.len() as i64))
        }),
{
    reveal_strlit("queue_policy");
    reveal_strlit("queued_state");
    reveal_strlit("granted");
    reveal_strlit("queued_count");
    assert("queue_policy"@[5] != "queued_state"@[5]);
    assert("queue_policy"@[5] != "queued_count"@[5]);
    assert("queued_state"@[7] != "queued_count"@[7]);
    let leading = coordinator.leading_fields();
    let n = coordinator.queue.len();
    lemma_with_queue_other(leading, coordinator.queue, n, "queue_policy"@);
    lemma_with_queue_other(leading, coordinator.queue, n, "queued_state"@);
    lemma_with_queue_other(leading, coordinator.queue, n, "granted"@);
    lemma_with_queue_other(leading, coordinator.queue, n, "queued_count"@);
}

proof fn lemma_with_queue_other(
    fields: Map<Seq<char>, Value>,
    queue: Seq<usize>,
    done: nat,
    key: Seq<char>,
)
    requires
        key == "queue_policy"@ || key == "queued_state"@ || key == "granted"@ || key
            == "queued_count"@,
    ensures
        field(with_queue(fields, queue, done), key) == field(fields, key),
    decreases done,
{
    if done > 0 {
        lemma_with_queue_other(fields, queue, (done - 1) as nat, key);
        lemma_own_names(done);
    }
}

proof fn lemma_with_queue_at(
    fields: Map<Seq<char>, Value>,
    queue: Seq<usize>,
    done: nat,
    n: nat,
)
    requires
        1 <= n <= done,
    ensures
        field(with_queue(fields, queue, done), spec_numbered("queue_"@, n)) == Some(
            Value::Int((queue[n - 1] + 1) as i64),
        ),
    decreases done,
{
    if n < done {
        lemma_with_queue_at(fields, queue, (done - 1) as nat, n);
        if spec_numbered("queue_"@, n) == spec_numbered("queue_"@, done) {
            numbered_names_differ("queue_"@, n, done);
        }
    }
}

proof fn lemma_queue_restored(coordinator: CoordinatorView, name: Seq<char>, done: nat)
    requires
        coordinator.wf(),
        coordinator.count() <= i64::MAX,
        done <= coordinator.queue.len(),
    ensures
        restored_queue(coordinator.captured(), name, coordinator.count(), done) == Ok::<
            Seq<usize>,
            StateErrorView,
        >(coordinator.queue.take(done as int)),
    decreases done,
{
    if done == 0 {
        assert(coordinator.queue.take(0) == Seq::<usize>::empty());
    } else {
        lemma_queue_restored(coordinator, name, (done - 1) as nat);
        lemma_with_queue_at(
            coordinator.leading_fields(),
            coordinator.queue,
            coordinator.queue.len(),
            done,
        );
        let earlier = coordinator.queue.take(done - 1);
        let member = coordinator.queue[done - 1];
        assert(!earlier.contains(member)) by {
            if earlier.contains(member) {
                let k = earlier.index_of(member);
                assert(coordinator.queue[k] == member);
            }
        }
        assert(coordinator.queue.take(done as int) == earlier.push(member));
    }
}

proof fn lemma_names_hold(n: nat, done: nat)
    requires
        n <= done,
    ensures
        n > 0 ==> queue_names(done).contains(spec_numbered("queue_"@, n)),
        queue_names(done).len() == done + 4,
        queue_names(done)[0] == "queue_policy"@,
        queue_names(done)[1] == "queued_state"@,
        queue_names(done)[2] == "granted"@,
        queue_names(done)[3] == "queued_count"@,
    decreases done,
{
    let known = queue_names(done);
    if done > 0 {
        let earlier = queue_names((done - 1) as nat);
        if n == done {
            lemma_names_hold(0, (done - 1) as nat);
            assert(known[done as int + 3] == spec_numbered("queue_"@, n));
        } else {
            lemma_names_hold(n, (done - 1) as nat);
            if n > 0 {
                let i = earlier.index_of(spec_numbered("queue_"@, n));
                assert(known[i] == earlier[i]);
            }
        }
    }
}

proof fn lemma_queue_dom(coordinator: CoordinatorView, done: nat, all: nat, key: Seq<char>)
    requires
        done <= all,
    ensures
        with_queue(coordinator.leading_fields(), coordinator.queue, done).dom().contains(key)
            ==> queue_names(all).contains(key),
    decreases done,
{
    lemma_names_hold(done, all);
    if done > 0 {
        lemma_queue_dom(coordinator, (done - 1) as nat, all, key);
    }
}

/// Building reads exactly the described parameters: whatever else is
/// declared makes no difference, and without one of them nothing is built.
pub proof fn building_reads_the_described(
    coordinator: CoordinatorView,
    a: Map<Seq<char>, Value>,
    b: Map<Seq<char>, Value>,
    i: int,
)
    ensures
        ({
            let described = coordinator.description().parameters;
            let from_a = spec_from_parameters(
                coordinator.name,
                coordinator.permissives,
                coordinator.reorder,
                coordinator.filters,
                coordinator.outputs,
                a,
            );
            let from_b = spec_from_parameters(
                coordinator.name,
                coordinator.permissives,
                coordinator.reorder,
                coordinator.filters,
                coordinator.outputs,
                b,
            );
            &&& agree_on(described, a, b) ==> from_a == from_b
            &&& 0 <= i < described.len() && field(a, described[i].name) is None ==> from_a is Err
        }),
{
    let described = coordinator.description().parameters;
    assert(described[0].name == "queue_policy"@);
    assert(described[1].name == "queued_state"@);
}

/// Exactly the described parameters can be retuned: any other name is
/// refused as unknown.
pub proof fn tuning_takes_the_described(
    coordinator: CoordinatorView,
    parameter: Seq<char>,
    value: Value,
)
    ensures
        ({
            let unknown = spec_unknown_parameter(coordinator.name, parameter);
            let refused = Err::<CoordinatorView, CommandErrorView>(unknown);
            let described = coordinator.description().parameters;
            describes_parameter(described, parameter) <==> coordinator.tuned(parameter, value)
                != refused
        }),
{
    let described = coordinator.description().parameters;
    assert(described[0].name == "queue_policy"@);
    assert(described[1].name == "queued_state"@);
}

/// Where a condition is not trusted or does not hold, whichever one, nothing is
/// granted: no `grant_i` is driven, nobody comes to hold the grant, and
/// `resource_blocked` is driven exactly while a filter waits.
pub proof fn failed_conditions_withhold_the_grant(
    coordinator: CoordinatorView,
    scan: CoordinatorReadings,
    tick: Tick,
    i: int,
)
    requires
        coordinator.wf(),
        0 <= i < coordinator.count(),
        ({
            ||| scan.supply_ok.quality != Quality::Good || !scan.supply_ok.value
            ||| scan.waste_ok.quality != Quality::Good || !scan.waste_ok.value
            ||| scan.flow_ok.quality != Quality::Good || !scan.flow_ok.value
        }),
    ensures
        ({
            let after = coordinator.after(scan);
            let writes = coordinator.writes(scan, tick);
            let at = 2 * coordinator.count();
            &&& writes[2 * i].sample.value == Value::Bool(false)
            &&& after.granted is Some ==> after.granted == coordinator.granted
            &&& writes[at + 2].sample.value == Value::Bool(after.queue.len() > 0)
        }),
{
    let after = coordinator.after(scan);
    lemma_filter_writes(after, scan.permitted(), tick, after.filters.len());
    assert(after.filters[i] == coordinator.filters[i]);
}

/// While every condition holds and is trusted, the holder's `grant_i` is driven
/// and no other, and `resource_blocked` is not.
pub proof fn holding_conditions_drive_the_grant(
    coordinator: CoordinatorView,
    scan: CoordinatorReadings,
    tick: Tick,
    i: int,
)
    requires
        coordinator.wf(),
        0 <= i < coordinator.count(),
        scan.supply_ok.quality == Quality::Good && scan.supply_ok.value,
        scan.waste_ok.quality == Quality::Good && scan.waste_ok.value,
        scan.flow_ok.quality == Quality::Good && scan.flow_ok.value,
    ensures
        ({
            let after = coordinator.after(scan);
            let writes = coordinator.writes(scan, tick);
            let at = 2 * coordinator.count();
            &&& writes[2 * i].sample.value == Value::Bool(after.granted == Some(i as usize))
            &&& writes[at + 2].sample.value == Value::Bool(false)
        }),
{
    let after = coordinator.after(scan);
    lemma_filter_writes(after, scan.permitted(), tick, after.filters.len());
    assert(after.filters[i] == coordinator.filters[i]);
}

/// Every scan drives, for each filter in turn, its grant and its place in the
/// queue, and then the holder's number, the length of the queue and whether it
/// is blocked, each on its own point, as of this scan and `Good`. A place
/// counts from one, and a filter that does not wait has place zero.
pub proof fn scans_drive_every_output(
    coordinator: CoordinatorView,
    scan: CoordinatorReadings,
    tick: Tick,
    i: int,
    k: int,
)
    requires
        coordinator.wf(),
        0 <= i < coordinator.count(),
    ensures
        ({
            let after = coordinator.after(scan);
            let writes = coordinator.writes(scan, tick);
            let at = 2 * coordinator.count();
            &&& writes.len() == at + 3
            &&& writes[2 * i].point == coordinator.filters[i].grant
            &&& writes[2 * i + 1].point == coordinator.filters[i].position
            &&& 0 <= k < after.queue.len() && after.queue[k] == i ==> writes[2 * i
                + 1].sample.value == Value::Int((k + 1) as i64)
            &&& !after.queue.contains(i as usize) ==> writes[2 * i + 1].sample.value == Value::Int(
                0,
            )
            &&& writes[at].point == coordinator.outputs.active
            &&& after.granted is None ==> writes[at].sample.value == Value::Int(0)
            &&& after.granted is Some ==> writes[at].sample.value == Value::Int(
                (after.granted->0 + 1) as i64,
            )
            &&& writes[at + 1].point == coordinator.outputs.queued
            &&& writes[at + 1].sample.value == Value::Int(after.queue.len() as i64)
            &&& writes[at + 2].point == coordinator.outputs.resource_blocked
            &&& 0 <= k < writes.len() ==> writes[k].sample.quality == Quality::Good
                && writes[k].sample.tick == tick
        }),
{
    let after = coordinator.after(scan);
    let permitted = scan.permitted();
    lemma_filter_writes(after, permitted, tick, after.filters.len());
    scans_keep_the_invariant(coordinator, scan);
    assert(after.filters[i] == coordinator.filters[i]);
    if 0 <= k < after.queue.len() && after.queue[k] == i {
        assert(after.queue.contains(i as usize));
        let found = after.queue.index_of(i as usize);
        assert(after.queue[found] == after.queue[k]);
    }
    if 0 <= k < 2 * coordinator.count() {
        let filter = k / 2;
        assert(after.filters[filter] == coordinator.filters[filter]);
        assert(k == 2 * filter || k == 2 * filter + 1);
    }
}

/// After a scan exactly the filters wait whose request reads `true` and trusted
/// and that do not hold the grant, and only such a filter holds it.
pub proof fn trusted_requests_wait_or_hold(
    coordinator: CoordinatorView,
    scan: CoordinatorReadings,
    filter: usize,
)
    requires
        coordinator.wf(),
        filter < coordinator.count(),
    ensures
        ({
            let after = coordinator.after(scan);
            let request = scan.requests@[filter as int];
            &&& after.queue.contains(filter) <==> request.value && request.quality == Quality::Good
                && after.granted != Some(filter)
            &&& after.granted == Some(filter) ==> request.value && request.quality == Quality::Good
            &&& coordinator.granted == Some(filter) ==> (after.granted == Some(filter)
                <==> request.value && request.quality == Quality::Good)
        }),
{
    queue_holds_the_waiting(coordinator, scan, filter);
    lemma_lined_up(coordinator, scan);
    if coordinator.serves(scan) {
        let queue = coordinator.lined_up(scan);
        assert(queue.contains(queue[0]));
    }
    if coordinator.granted == Some(filter) {
        grant_follows_the_request(coordinator, scan, filter);
    }
}

/// Whether `first` waits ahead of `second`.
pub open spec fn ahead(queue: Seq<usize>, first: usize, second: usize) -> bool {
    exists|a: int, b: int|
        0 <= a < b < queue.len() && #[trigger] queue[a] == first && #[trigger] queue[b] == second
}

proof fn lemma_ahead_inserted(queue: Seq<usize>, at: int, filter: usize, x: usize, y: usize)
    requires
        0 <= at <= queue.len(),
        ahead(queue, x, y),
    ensures
        ahead(queue.insert(at, filter), x, y),
        ahead(queue.push(filter), x, y),
{
    let (a, b) = choose|a: int, b: int|
        0 <= a < b < queue.len() && #[trigger] queue[a] == x && #[trigger] queue[b] == y;
    let after = queue.insert(at, filter);
    let to = if a < at {
        a
    } else {
        a + 1
    };
    let next = if b < at {
        b
    } else {
        b + 1
    };
    assert(after[to] == x && after[next] == y);
    let pushed = queue.push(filter);
    assert(pushed[a] == x && pushed[b] == y);
}

proof fn lemma_ahead_removed(queue: Seq<usize>, at: int, x: usize, y: usize)
    requires
        0 <= at < queue.len(),
        queue[at] != x,
        queue[at] != y,
        ahead(queue, x, y),
    ensures
        ahead(queue.remove(at), x, y),
{
    let (a, b) = choose|a: int, b: int|
        0 <= a < b < queue.len() && #[trigger] queue[a] == x && #[trigger] queue[b] == y;
    let after = queue.remove(at);
    let to = if a < at {
        a
    } else {
        a - 1
    };
    let next = if b < at {
        b
    } else {
        b - 1
    };
    assert(after[to] == x && after[next] == y);
}

proof fn lemma_ahead_joined(
    kept: Seq<usize>,
    scan: CoordinatorReadings,
    holder: Option<usize>,
    policy: QueuePolicy,
    from: nat,
    done: nat,
    x: usize,
    y: usize,
)
    requires
        from <= done,
        ahead(joined(kept, scan, holder, policy, from), x, y),
    ensures
        ahead(joined(kept, scan, holder, policy, done), x, y),
    decreases done,
{
    if from < done {
        let earlier = joined(kept, scan, holder, policy, (done - 1) as nat);
        let filter = (done - 1) as usize;
        lemma_ahead_joined(kept, scan, holder, policy, from, (done - 1) as nat, x, y);
        lemma_first_above(earlier, filter, 0);
        lemma_ahead_inserted(earlier, first_above(earlier, filter, 0), filter, x, y);
    }
}

/// The order of two filters in the joined queue is their order after the scan,
/// unless an instruction names one of them or the first one takes the grant.
proof fn lemma_ahead_after(
    coordinator: CoordinatorView,
    scan: CoordinatorReadings,
    x: usize,
    y: usize,
)
    requires
        coordinator.wf(),
        x != y,
        scan.instruction(coordinator.count()) != Some(x),
        scan.instruction(coordinator.count()) != Some(y),
        ahead(
            joined(
                standing(coordinator.queue, scan),
                scan,
                coordinator.holder(scan),
                coordinator.config.queue_policy,
                coordinator.filters.len(),
            ),
            x,
            y,
        ),
    ensures
        coordinator.after(scan).granted != Some(y),
        coordinator.after(scan).granted == Some(x) || ahead(coordinator.after(scan).queue, x, y),
{
    lemma_lined_up(coordinator, scan);
    let count = coordinator.count();
    let before = joined(
        standing(coordinator.queue, scan),
        scan,
        coordinator.holder(scan),
        coordinator.config.queue_policy,
        coordinator.filters.len(),
    );
    let queue = coordinator.lined_up(scan);
    if let Some(target) = scan.instruction(count) {
        if before.contains(target) {
            let at = before.index_of(target);
            lemma_ahead_removed(before, at, x, y);
            lemma_ahead_inserted(before.remove(at), 0, target, x, y);
        }
    }
    assert(ahead(queue, x, y));
    let (a, b) = choose|a: int, b: int|
        0 <= a < b < queue.len() && #[trigger] queue[a] == x && #[trigger] queue[b] == y;
    assert(queue[0] != y);
    assert(queue.contains(queue[b]));
    if coordinator.serves(scan) && queue[0] != x {
        lemma_ahead_removed(queue, 0, x, y);
    }
}

/// Whoever waits on keeps their place towards each other, under every policy:
/// of two filters that waited and still request, and that no instruction names,
/// the first one is still ahead after the scan or holds the grant, and the
/// second one does not hold it.
pub proof fn waiting_order_is_kept(
    coordinator: CoordinatorView,
    scan: CoordinatorReadings,
    p: int,
    q: int,
)
    requires
        coordinator.wf(),
        0 <= p < q < coordinator.queue.len(),
        scan.requests@[coordinator.queue[p] as int].value,
        scan.requests@[coordinator.queue[p] as int].quality == Quality::Good,
        scan.requests@[coordinator.queue[q] as int].value,
        scan.requests@[coordinator.queue[q] as int].quality == Quality::Good,
        scan.reorder matches Some(named) ==> named.value != coordinator.queue[p] + 1 && named.value
            != coordinator.queue[q] + 1,
    ensures
        ({
            let after = coordinator.after(scan);
            let first = coordinator.queue[p];
            let second = coordinator.queue[q];
            &&& after.granted != Some(second)
            &&& after.granted == Some(first) || ahead(after.queue, first, second)
        }),
{
    let kept = standing(coordinator.queue, scan);
    let holder = coordinator.holder(scan);
    let policy = coordinator.config.queue_policy;
    let first = coordinator.queue[p];
    let second = coordinator.queue[q];
    lemma_order_kept(coordinator.queue, scan, p, q);
    assert(ahead(kept, first, second));
    lemma_ahead_joined(
        kept,
        scan,
        holder,
        policy,
        0,
        coordinator.filters.len(),
        first,
        second,
    );
    lemma_ahead_after(coordinator, scan, first, second);
}

/// Unless the policy orders by number, a filter that comes to wait does so
/// behind everybody who waited already, and of several that come in one scan the
/// lower-numbered one waits ahead. No instruction stands here.
pub proof fn arrivals_wait_behind_the_waiting(
    coordinator: CoordinatorView,
    scan: CoordinatorReadings,
    waiting: usize,
    arrival: usize,
)
    requires
        coordinator.wf(),
        coordinator.config.queue_policy != QueuePolicy::PriorityByTrigger,
        scan.reorder matches Some(named) ==> named.quality != Quality::Good || named.value < 1
            || named.value > coordinator.count(),
        waiting < coordinator.count() && arrival < coordinator.count(),
        scan.requests@[waiting as int].value,
        scan.requests@[waiting as int].quality == Quality::Good,
        scan.requests@[arrival as int].value,
        scan.requests@[arrival as int].quality == Quality::Good,
        coordinator.granted != Some(arrival) && coordinator.granted != Some(waiting),
        !coordinator.queue.contains(arrival),
        coordinator.queue.contains(waiting) || waiting < arrival,
    ensures
        ({
            let after = coordinator.after(scan);
            &&& after.granted != Some(arrival)
            &&& after.granted == Some(waiting) || ahead(after.queue, waiting, arrival)
        }),
{
    let count = coordinator.count();
    let kept = standing(coordinator.queue, scan);
    let holder = coordinator.holder(scan);
    let policy = coordinator.config.queue_policy;
    let all = coordinator.filters.len();
    lemma_standing(coordinator.queue, scan, count);
    lemma_joined(kept, scan, holder, policy, all, count);
    lemma_arrivals(kept, scan, holder, policy, all);
    let queue = joined(kept, scan, holder, policy, all);
    assert(queue.contains(waiting) && queue.contains(arrival));
    let a = queue.index_of(waiting);
    let b = queue.index_of(arrival);
    assert forall|k: int| 0 <= k < kept.len() implies queue[k] == kept[k] by {
        assert(queue.take(kept.len() as int)[k] == kept[k]);
    }
    if b < kept.len() {
        assert(kept.contains(queue[b]));
    }
    if coordinator.queue.contains(waiting) {
        let k = kept.index_of(waiting);
        assert(kept[k] == queue[a]);
        assert(queue[k] == queue[a]);
    } else if a >= b {
        assert(a != b);
        assert(queue[b] < queue[a]);
    }
    assert(ahead(queue, waiting, arrival));
    lemma_ahead_after(coordinator, scan, waiting, arrival);
}

proof fn lemma_priority_place(
    kept: Seq<usize>,
    scan: CoordinatorReadings,
    holder: Option<usize>,
    arrival: usize,
    done: nat,
    count: int,
) -> (at: int)
    requires
        arrival < done <= count <= usize::MAX,
        kept.no_duplicates(),
        forall|k: int| 0 <= k < kept.len() ==> (#[trigger] kept[k]) < count,
        holder matches Some(h) ==> !kept.contains(h),
        !kept.contains(arrival),
        holder != Some(arrival),
        scan.requesting(arrival as int),
    ensures
        ({
            let queue = joined(kept, scan, holder, QueuePolicy::PriorityByTrigger, done);
            &&& 0 <= at < queue.len() && queue[at] == arrival
            &&& forall|k: int| 0 <= k < at ==> #[trigger] queue[k] <= arrival
        }),
    decreases done,
{
    let policy = QueuePolicy::PriorityByTrigger;
    let earlier = joined(kept, scan, holder, policy, (done - 1) as nat);
    let queue = joined(kept, scan, holder, policy, done);
    let filter = (done - 1) as usize;
    lemma_joined(kept, scan, holder, policy, (done - 1) as nat, count);
    let place = first_above(earlier, filter, 0);
    lemma_first_above(earlier, filter, 0);
    if done - 1 == arrival {
        assert(!earlier.contains(arrival));
        assert(queue == earlier.insert(place, arrival));
        place
    } else {
        let at = lemma_priority_place(kept, scan, holder, arrival, (done - 1) as nat, count);
        if scan.requesting(done - 1) && holder != Some(filter) && !earlier.contains(filter) {
            assert(queue == earlier.insert(place, filter));
            if place <= at {
                assert(earlier[place] <= arrival);
            }
            assert forall|k: int| 0 <= k < at implies #[trigger] queue[k] <= arrival by {
                assert(queue[k] == earlier[k]);
            }
            at
        } else {
            at
        }
    }
}

/// Under the priority policy a filter that comes to wait does so ahead of every
/// higher-numbered one, whichever came first, as long as no instruction moves
/// one of them.
pub proof fn arrivals_wait_ahead_of_higher_numbers(
    coordinator: CoordinatorView,
    scan: CoordinatorReadings,
    arrival: usize,
    higher: usize,
)
    requires
        coordinator.wf(),
        coordinator.config.queue_policy == QueuePolicy::PriorityByTrigger,
        scan.reorder matches Some(named) ==> named.value != arrival + 1 && named.value != higher
            + 1,
        arrival < higher < coordinator.count(),
        scan.requests@[higher as int].value,
        scan.requests@[higher as int].quality == Quality::Good,
        scan.requests@[arrival as int].value,
        scan.requests@[arrival as int].quality == Quality::Good,
        coordinator.granted != Some(arrival) && coordinator.granted != Some(higher),
        !coordinator.queue.contains(arrival),
    ensures
        ({
            let after = coordinator.after(scan);
            &&& after.granted != Some(higher)
            &&& after.granted == Some(arrival) || ahead(after.queue, arrival, higher)
        }),
{
    let count = coordinator.count();
    let kept = standing(coordinator.queue, scan);
    let holder = coordinator.holder(scan);
    let all = coordinator.filters.len();
    lemma_standing(coordinator.queue, scan, count);
    lemma_joined(kept, scan, holder, QueuePolicy::PriorityByTrigger, all, count);
    let queue = joined(kept, scan, holder, QueuePolicy::PriorityByTrigger, all);
    let at = lemma_priority_place(kept, scan, holder, arrival, all, count);
    assert(queue.contains(higher));
    let k = queue.index_of(higher);
    assert(queue[k] > arrival);
    assert(ahead(queue, arrival, higher));
    lemma_ahead_after(coordinator, scan, arrival, higher);
}

/// The conditions hold, nobody who held the grant still requests, and a filter
/// waits: then it, or somebody else who waits, comes to hold the grant in this
/// very scan, unless the policy leaves the choice to the operator.
pub proof fn free_grants_are_taken_at_once(
    coordinator: CoordinatorView,
    scan: CoordinatorReadings,
    filter: usize,
)
    requires
        coordinator.wf(),
        filter < coordinator.count(),
        scan.requests@[filter as int].value,
        scan.requests@[filter as int].quality == Quality::Good,
        scan.supply_ok.quality == Quality::Good && scan.supply_ok.value,
        scan.waste_ok.quality == Quality::Good && scan.waste_ok.value,
        scan.flow_ok.quality == Quality::Good && scan.flow_ok.value,
    ensures
        ({
            let after = coordinator.after(scan);
            &&& coordinator.config.queue_policy != QueuePolicy::OperatorManaged
                ==> after.granted is Some
            &&& coordinator.config.queue_policy == QueuePolicy::OperatorManaged
                && coordinator.granted is None && (scan.reorder is None
                || scan.reorder->0.quality != Quality::Good) ==> after.granted is None
        }),
{
    lemma_lined_up(coordinator, scan);
    assert(coordinator.holder(scan) is None ==> coordinator.lined_up(scan).contains(filter));
}

/// A trusted instruction that names a requesting filter, counted from one, puts
/// it first: under any policy it takes a free grant while the conditions hold,
/// and otherwise it is at the head of the queue, unless it held the grant. No
/// other filter comes to hold it.
pub proof fn instructions_choose_the_next(
    coordinator: CoordinatorView,
    scan: CoordinatorReadings,
    target: usize,
    other: usize,
)
    requires
        coordinator.wf(),
        target < coordinator.count() <= i64::MAX,
        scan.reorder is Some,
        scan.reorder->0.quality == Quality::Good,
        scan.reorder->0.value == target + 1,
        scan.requests@[target as int].value,
        scan.requests@[target as int].quality == Quality::Good,
    ensures
        ({
            let after = coordinator.after(scan);
            let request = scan.requests@[coordinator.granted->0 as int];
            let held = coordinator.granted is Some && request.value && request.quality
                == Quality::Good;
            let conditions = scan.supply_ok.quality == Quality::Good && scan.supply_ok.value
                && scan.waste_ok.quality == Quality::Good && scan.waste_ok.value
                && scan.flow_ok.quality == Quality::Good && scan.flow_ok.value;
            &&& !held && conditions ==> after.granted == Some(target)
            &&& !held && !conditions ==> after.queue.len() > 0 && after.queue[0] == target
            &&& held && coordinator.granted != Some(target) ==> after.queue.len() > 0
                && after.queue[0] == target && after.granted == coordinator.granted
            &&& other != target && coordinator.granted != Some(other) ==> after.granted != Some(
                other,
            )
        }),
{
    let count = coordinator.count();
    let kept = standing(coordinator.queue, scan);
    let holder = coordinator.holder(scan);
    let policy = coordinator.config.queue_policy;
    lemma_standing(coordinator.queue, scan, count);
    lemma_joined(kept, scan, holder, policy, coordinator.filters.len(), count);
    assert(scan.instruction(count) == Some(target));
}

/// An instruction that is not trusted, or that names no filter, is none; where
/// no instruction is given, or it names a filter that does not request, nobody
/// is moved.
pub proof fn void_instructions_move_nobody(
    coordinator: CoordinatorView,
    scan: CoordinatorReadings,
    without: CoordinatorReadings,
)
    requires
        coordinator.wf(),
        without == (CoordinatorReadings { reorder: None, ..scan }),
        coordinator.config.queue_policy != QueuePolicy::OperatorManaged,
        scan.reorder matches Some(named) ==> {
            ||| named.quality != Quality::Good || named.value < 1 || named.value
                > coordinator.count()
            ||| !scan.requests@[named.value - 1].value
            ||| scan.requests@[named.value - 1].quality != Quality::Good
        },
    ensures
        coordinator.after(scan) == coordinator.after(without),
{
    let count = coordinator.count();
    let holder = coordinator.holder(scan);
    let policy = coordinator.config.queue_policy;
    let all = coordinator.filters.len();
    lemma_standing(coordinator.queue, scan, count);
    lemma_same_standing(coordinator.queue, scan, without);
    let kept = standing(coordinator.queue, scan);
    lemma_joined(kept, scan, holder, policy, all, count);
    lemma_same_joined(kept, scan, without, holder, policy, all);
    if let Some(target) = scan.instruction(count) {
        assert(!kept.contains(target));
        assert(!joined(kept, scan, holder, policy, all).contains(target));
    }
}

proof fn lemma_same_standing(
    queue: Seq<usize>,
    scan: CoordinatorReadings,
    other: CoordinatorReadings,
)
    requires
        scan.requests == other.requests,
    ensures
        standing(queue, scan) == standing(queue, other),
    decreases queue.len(),
{
    if queue.len() > 0 {
        lemma_same_standing(queue.drop_last(), scan, other);
    }
}

proof fn lemma_same_joined(
    queue: Seq<usize>,
    scan: CoordinatorReadings,
    other: CoordinatorReadings,
    holder: Option<usize>,
    policy: QueuePolicy,
    done: nat,
)
    requires
        scan.requests == other.requests,
    ensures
        joined(queue, scan, holder, policy, done) == joined(queue, other, holder, policy, done),
    decreases done,
{
    if done > 0 {
        lemma_same_joined(queue, scan, other, holder, policy, (done - 1) as nat);
    }
}

/// No scan changes the wiring or the tuning.
pub proof fn scans_keep_the_wiring(coordinator: CoordinatorView, scan: CoordinatorReadings)
    ensures
        ({
            let after = coordinator.after(scan);
            &&& after.name == coordinator.name && after.filters == coordinator.filters
            &&& after.permissives == coordinator.permissives
            &&& after.reorder == coordinator.reorder && after.outputs == coordinator.outputs
            &&& after.config == coordinator.config
        }),
{
}

/// A coordinator is built exactly where there is a filter, `queue_policy`
/// declares 0, 1 or 2 and `queued_state` declares 0 or 1. It runs under the
/// declared codes, with nobody waiting and nobody holding the grant.
pub proof fn building_takes_the_declared(
    given: CoordinatorView,
    parameters: Map<Seq<char>, Value>,
)
    ensures
        ({
            let name = given.name;
            let built = spec_from_parameters(
                name,
                given.permissives,
                given.reorder,
                given.filters,
                given.outputs,
                parameters,
            );
            let policy = spec_required_u64(name, parameters, "queue_policy"@);
            let state = spec_required_u64(name, parameters, "queued_state"@);
            &&& built is Ok <==> policy is Ok && policy->Ok_0 <= 2 && state is Ok && state->Ok_0
                <= 1 && given.filters.len() > 0
            &&& policy is Err ==> built == Err::<CoordinatorView, ParameterErrorView>(
                policy->Err_0,
            )
            &&& policy is Ok && policy->Ok_0 > 2 ==> {
                &&& built matches Err(ParameterErrorView::Invalid { component, parameter, .. })
                &&& component == name && parameter == "queue_policy"@
            }
            &&& policy is Ok && policy->Ok_0 <= 2 && state is Err ==> built == Err::<
                CoordinatorView,
                ParameterErrorView,
            >(state->Err_0)
            &&& policy is Ok && policy->Ok_0 <= 2 && state is Ok && state->Ok_0 > 1 ==> {
                &&& built matches Err(ParameterErrorView::Invalid { component, parameter, .. })
                &&& component == name && parameter == "queued_state"@
            }
            &&& built is Ok ==> {
                let coordinator = built->Ok_0;
                &&& coordinator.name == name && coordinator.filters == given.filters
                &&& coordinator.permissives == given.permissives
                &&& coordinator.reorder == given.reorder && coordinator.outputs == given.outputs
                &&& coordinator.queue.len() == 0 && coordinator.granted is None
                &&& coordinator.config.queue_policy is Fifo <==> policy->Ok_0 == 0
                &&& coordinator.config.queue_policy is PriorityByTrigger <==> policy->Ok_0 == 1
                &&& coordinator.config.queue_policy is OperatorManaged <==> policy->Ok_0 == 2
                &&& coordinator.config.queued_state is KeepFiltering <==> state->Ok_0 == 0
                &&& coordinator.config.queued_state is OfflineWithStandby <==> state->Ok_0 == 1
            }
        }),
{
}

/// A retune sets the named setting to the given code and nothing else; a number
/// that is no code of it is refused.
pub proof fn retunes_set_the_named_setting(coordinator: CoordinatorView, value: Value)
    ensures
        ({
            let code = spec_tune_u64(coordinator.name, "queue_policy"@, value);
            let tuned = coordinator.tuned("queue_policy"@, value);
            &&& tuned is Ok <==> code is Ok && code->Ok_0 <= 2
            &&& tuned is Ok ==> {
                let config = tuned->Ok_0.config;
                &&& config.queue_policy is Fifo <==> code->Ok_0 == 0
                &&& config.queue_policy is PriorityByTrigger <==> code->Ok_0 == 1
                &&& config.queue_policy is OperatorManaged <==> code->Ok_0 == 2
                &&& config.queued_state == coordinator.config.queued_state
                &&& tuned->Ok_0 == (CoordinatorView { config, ..coordinator })
            }
        }),
        ({
            let code = spec_tune_u64(coordinator.name, "queued_state"@, value);
            let tuned = coordinator.tuned("queued_state"@, value);
            &&& tuned is Ok <==> code is Ok && code->Ok_0 <= 1
            &&& tuned is Ok ==> {
                let config = tuned->Ok_0.config;
                &&& config.queued_state is KeepFiltering <==> code->Ok_0 == 0
                &&& config.queued_state is OfflineWithStandby <==> code->Ok_0 == 1
                &&& config.queue_policy == coordinator.config.queue_policy
                &&& tuned->Ok_0 == (CoordinatorView { config, ..coordinator })
            }
        }),
{
    reveal_strlit("queue_policy");
    reveal_strlit("queued_state");
    assert("queue_policy"@.len() == 12);
    assert("queued_state"@.len() == 12);
    assert("queue_policy"@[5] != "queued_state"@[5]);
}

/// A checkpoint holds the two codes, the holder's number, or zero, how many
/// wait, and under `queue_1` on the numbers of those who wait, in their order;
/// a report holds the two codes alone.
pub proof fn checkpoints_hold_the_queue(coordinator: CoordinatorView, k: int)
    ensures
        ({
            let captured = coordinator.captured();
            let reported = coordinator.reported();
            &&& reported.dom() == set!["queue_policy"@, "queued_state"@]
            &&& captured["queue_policy"@] == reported["queue_policy"@]
            &&& captured["queued_state"@] == reported["queued_state"@]
            &&& reported["queue_policy"@] == Value::Int(
                match coordinator.config.queue_policy {
                    QueuePolicy::Fifo => 0,
                    QueuePolicy::PriorityByTrigger => 1,
                    QueuePolicy::OperatorManaged => 2,
                },
            )
            &&& reported["queued_state"@] == Value::Int(
                match coordinator.config.queued_state {
                    QueuedState::KeepFiltering => 0,
                    QueuedState::OfflineWithStandby => 1,
                },
            )
            &&& coordinator.granted is None ==> captured["granted"@] == Value::Int(0)
            &&& coordinator.granted is Some ==> captured["granted"@] == Value::Int(
                (coordinator.granted->0 + 1) as i64,
            )
            &&& captured["queued_count"@] == Value::Int(coordinator.queue.len() as i64)
            &&& 0 <= k < coordinator.queue.len() ==> captured[spec_numbered(
                "queue_"@,
                (k + 1) as nat,
            )] == Value::Int((coordinator.queue[k] + 1) as i64)
        }),
{
    reveal_strlit("queue_policy");
    reveal_strlit("queued_state");
    reveal_strlit("granted");
    reveal_strlit("queued_count");
    assert("queue_policy"@.len() == 12);
    assert("queued_state"@.len() == 12);
    assert("granted"@.len() == 7);
    assert("queued_count"@.len() == 12);
    assert("queue_policy"@[5] != "queued_state"@[5]);
    assert("queue_policy"@[5] != "queued_count"@[5]);
    assert("queued_state"@[7] != "queued_count"@[7]);
    assert(coordinator.reported().dom() =~= set!["queue_policy"@, "queued_state"@]);
    let all = coordinator.queue.len();
    let fields = coordinator.leading_fields();
    lemma_own_fields(coordinator);
    if 0 <= k < all {
        lemma_with_queue_at(fields, coordinator.queue, all, (k + 1) as nat);
    }
}

proof fn lemma_queue_read(
    fields: Map<Seq<char>, Value>,
    name: Seq<char>,
    count: int,
    queue: Seq<usize>,
)
    requires
        0 <= count <= i64::MAX,
        count <= usize::MAX,
    ensures
        restored_queue(fields, name, count, queue.len()) == Ok::<Seq<usize>, StateErrorView>(queue)
            <==> queue.no_duplicates() && forall|k: int|
            0 <= k < queue.len() ==> (#[trigger] queue[k]) < count && int_field(
                fields,
                name,
                spec_numbered("queue_"@, (k + 1) as nat),
            ) == Ok::<i64, StateErrorView>((queue[k] + 1) as i64),
    decreases queue.len(),
{
    if queue.len() > 0 {
        let earlier = queue.drop_last();
        let last = queue.last();
        let read = restored_queue(fields, name, count, earlier.len());
        lemma_queue_read(fields, name, count, earlier);
        assert(earlier.push(last) == queue);
        if restored_queue(fields, name, count, queue.len()) == Ok::<Seq<usize>, StateErrorView>(
            queue,
        ) {
            assert(read is Ok);
            let before = read->Ok_0;
            assert(before.push(last) == queue) by {
                assert(queue.len() > 0);
                let member = int_field(fields, name, spec_numbered("queue_"@, queue.len()));
                assert(before.push((member->Ok_0 - 1) as usize) == queue);
                assert(before.push((member->Ok_0 - 1) as usize).last() == last);
            }
            assert(before == before.push(last).drop_last());
            assert(before == earlier);
            assert forall|k: int| 0 <= k < queue.len() implies (#[trigger] queue[k]) < count
                && int_field(fields, name, spec_numbered("queue_"@, (k + 1) as nat)) == Ok::<
                i64,
                StateErrorView,
            >((queue[k] + 1) as i64) by {
                if k < earlier.len() {
                    assert(earlier[k] == queue[k]);
                }
            }
            assert forall|a: int, b: int| 0 <= a < queue.len() && 0 <= b < queue.len() && a
                != b implies queue[a] != queue[b] by {
                if a < earlier.len() {
                    assert(earlier[a] == queue[a]);
                    assert(earlier.contains(queue[a]));
                }
                if b < earlier.len() {
                    assert(earlier[b] == queue[b]);
                    assert(earlier.contains(queue[b]));
                }
                if a < earlier.len() && b < earlier.len() {
                    assert(earlier[a] != earlier[b]);
                }
            }
        }
        if queue.no_duplicates() && forall|k: int|
            0 <= k < queue.len() ==> (#[trigger] queue[k]) < count && int_field(
                fields,
                name,
                spec_numbered("queue_"@, (k + 1) as nat),
            ) == Ok::<i64, StateErrorView>((queue[k] + 1) as i64) {
            assert forall|k: int| 0 <= k < earlier.len() implies (#[trigger] earlier[k]) < count
                && int_field(fields, name, spec_numbered("queue_"@, (k + 1) as nat)) == Ok::<
                i64,
                StateErrorView,
            >((earlier[k] + 1) as i64) by {
                assert(earlier[k] == queue[k]);
            }
            assert(earlier.no_duplicates());
            assert(!earlier.contains(last)) by {
                if earlier.contains(last) {
                    let at = earlier.index_of(last);
                    assert(queue[at] == queue[queue.len() - 1]);
                }
            }
            assert(queue[queue.len() - 1] == last);
        }
    } else {
        assert(queue =~= Seq::<usize>::empty());
    }
}

/// A checkpoint is taken over exactly where it describes a standing of this
/// bank: no name beyond the codes, the grant and the queue, codes that select
/// something, filters that there are, none of them twice, and the holder not
/// among those who wait. The coordinator then stands exactly so, under its own
/// name and wiring.
pub proof fn restores_take_what_is_held(
    coordinator: CoordinatorView,
    taken: CoordinatorView,
    keys: Seq<Seq<char>>,
    fields: Map<Seq<char>, Value>,
)
    requires
        coordinator.wf(),
        coordinator.count() <= i64::MAX,
    ensures
        ({
            let name = coordinator.name;
            let count = coordinator.count();
            let policy = int_field(fields, name, "queue_policy"@);
            let state = int_field(fields, name, "queued_state"@);
            let granted = int_field(fields, name, "granted"@);
            let restored = coordinator.restored(keys, fields);
            restored == Ok::<CoordinatorView, StateErrorView>(taken) <==> {
                &&& taken == (CoordinatorView {
                    config: taken.config,
                    queue: taken.queue,
                    granted: taken.granted,
                    ..coordinator
                })
                &&& taken.queue.len() <= count
                &&& int_field(fields, name, "queued_count"@) == Ok::<i64, StateErrorView>(
                    taken.queue.len() as i64,
                )
                &&& known_fields(keys, name, queue_names(taken.queue.len())) is Ok
                &&& policy == Ok::<i64, StateErrorView>(
                    match taken.config.queue_policy {
                        QueuePolicy::Fifo => 0,
                        QueuePolicy::PriorityByTrigger => 1,
                        QueuePolicy::OperatorManaged => 2,
                    },
                )
                &&& state == Ok::<i64, StateErrorView>(
                    match taken.config.queued_state {
                        QueuedState::KeepFiltering => 0,
                        QueuedState::OfflineWithStandby => 1,
                    },
                )
                &&& taken.granted is None ==> granted == Ok::<i64, StateErrorView>(0)
                &&& taken.granted matches Some(holder) ==> holder < count && granted == Ok::<
                    i64,
                    StateErrorView,
                >((holder + 1) as i64) && !taken.queue.contains(holder)
                &&& taken.queue.no_duplicates()
                &&& forall|k: int|
                    0 <= k < taken.queue.len() ==> (#[trigger] taken.queue[k]) < count && int_field(
                        fields,
                        name,
                        spec_numbered("queue_"@, (k + 1) as nat),
                    ) == Ok::<i64, StateErrorView>((taken.queue[k] + 1) as i64)
            }
        }),
{
    let name = coordinator.name;
    let count = coordinator.count();
    lemma_queue_read(fields, name, count, taken.queue);
    let restored = coordinator.restored(keys, fields);
    if restored == Ok::<CoordinatorView, StateErrorView>(taken) {
        let members = int_field(fields, name, "queued_count"@)->Ok_0;
        lemma_read_length(fields, name, count, members as nat);
    }
}

proof fn lemma_read_length(
    fields: Map<Seq<char>, Value>,
    name: Seq<char>,
    count: int,
    done: nat,
)
    ensures
        restored_queue(fields, name, count, done) matches Ok(queue) ==> queue.len() == done,
    decreases done,
{
    if done > 0 {
        lemma_read_length(fields, name, count, (done - 1) as nat);
    }
}

/// A checkpoint of so many waiting filters may hold the four names of the codes,
/// the grant and the count, and `queue_1` to `queue_n`, and no other.
pub proof fn checkpoint_names_are_numbered(members: nat, key: Seq<char>)
    ensures
        queue_names(members).contains(key) <==> {
            ||| key == "queue_policy"@ || key == "queued_state"@
            ||| key == "granted"@ || key == "queued_count"@
            ||| exists|n: nat| 1 <= n <= members && key == #[trigger] spec_numbered("queue_"@, n)
        },
    decreases members,
{
    let names = queue_names(members);
    if members == 0 {
        assert(names[0] == "queue_policy"@ && names[1] == "queued_state"@);
        assert(names[2] == "granted"@ && names[3] == "queued_count"@);
    } else {
        let fewer = (members - 1) as nat;
        let earlier = queue_names(fewer);
        let last = spec_numbered("queue_"@, members);
        checkpoint_names_are_numbered(fewer, key);
        assert(names == earlier.push(last));
        assert(names[earlier.len() as int] == last);
        if earlier.contains(key) {
            let at = earlier.index_of(key);
            assert(names[at] == key);
        }
        if names.contains(key) && key != last {
            let at = names.index_of(key);
            assert(earlier[at] == key);
        }
    }
}

/// What the coordinator is wired by: the conditions, the instruction where it is
/// wired, for each filter in turn its request, its grant and its place, and the
/// status of the bank. The hints follow the ports one by one.
pub proof fn wiring_is_described(coordinator: CoordinatorView, i: int)
    requires
        0 <= i < coordinator.filters.len(),
    ensures
        ({
            let described = coordinator.description();
            let ports = coordinator.requirements();
            let roles = coordinator.roles();
            let lead = if coordinator.reorder is Some {
                4int
            } else {
                3
            };
            let at = lead + 3 * i;
            let end = lead + 3 * coordinator.filters.len();
            let filter = coordinator.filters[i];
            &&& described.name == coordinator.name && described.label == coordinator.name
            &&& described.kind == "backwash-coordinator"@
            &&& described.ports.len() == end + 3 && ports.len() == end + 3 && roles.len() == end + 3
            &&& ports[0] == wired("supply_ok"@, Direction::In, ValueKind::Bool,
                coordinator.permissives.supply_ok)
            &&& ports[1] == wired("waste_ok"@, Direction::In, ValueKind::Bool,
                coordinator.permissives.waste_ok)
            &&& ports[2] == wired("flow_ok"@, Direction::In, ValueKind::Bool,
                coordinator.permissives.flow_ok)
            &&& roles[0] == ("supply_ok"@, PortRole::ProcessValue)
            &&& roles[1] == ("waste_ok"@, PortRole::ProcessValue)
            &&& roles[2] == ("flow_ok"@, PortRole::ProcessValue)
            &&& coordinator.reorder is Some ==> ports[3] == wired("reorder"@, Direction::In,
                ValueKind::Int, coordinator.reorder->0)
                && roles[3] == ("reorder"@, PortRole::Setpoint)
            &&& ports[at] == wired(spec_numbered("request_"@, (i + 1) as nat), Direction::In,
                ValueKind::Bool, filter.request)
            &&& ports[at + 1] == wired(spec_numbered("grant_"@, (i + 1) as nat), Direction::Out,
                ValueKind::Bool, filter.grant)
            &&& ports[at + 2] == wired(spec_numbered("position_"@, (i + 1) as nat), Direction::Out,
                ValueKind::Int, filter.position)
            &&& roles[at] == (ports[at].name, PortRole::ProcessValue)
            &&& roles[at + 1] == (ports[at + 1].name, PortRole::Output)
            &&& roles[at + 2] == (ports[at + 2].name, PortRole::Status)
            &&& ports[end] == wired("active"@, Direction::Out, ValueKind::Int,
                coordinator.outputs.active)
            &&& ports[end + 1] == wired("queued"@, Direction::Out, ValueKind::Int,
                coordinator.outputs.queued)
            &&& ports[end + 2] == wired("resource_blocked"@, Direction::Out, ValueKind::Bool,
                coordinator.outputs.resource_blocked)
            &&& roles[end] == ("active"@, PortRole::Status)
            &&& roles[end + 1] == ("queued"@, PortRole::Status)
            &&& roles[end + 2] == ("resource_blocked"@, PortRole::Status)
            &&& described.parameters.len() == 2
            &&& described.parameters[0] == (ParameterView {
                name: "queue_policy"@,
                kind: ValueKind::Int,
                range: Some(ParameterRange { min: Value::Int(0), max: Value::Int(2) }),
            })
            &&& described.parameters[1] == (ParameterView {
                name: "queued_state"@,
                kind: ValueKind::Int,
                range: Some(ParameterRange { min: Value::Int(0), max: Value::Int(1) }),
            })
        }),
{
    let all = coordinator.filters.len();
    lemma_filter_wiring(
        coordinator.leading_ports(),
        coordinator.leading_roles(),
        coordinator.filters,
        all,
        i,
    );
}

/// A port with the given parts.
pub open spec fn wired(
    name: Seq<char>,
    direction: Direction,
    kind: ValueKind,
    point: PointId,
) -> RequirementView {
    RequirementView { name, direction, kind, point }
}

proof fn lemma_filter_wiring(
    leading: Seq<RequirementView>,
    leading_roles: Seq<(Seq<char>, PortRole)>,
    filters: Seq<FilterIo>,
    done: nat,
    i: int,
)
    requires
        done <= filters.len(),
        leading.len() == leading_roles.len(),
    ensures
        ({
            let ports = filter_ports(leading, filters, done);
            let roles = filter_roles(leading_roles, done);
            let at = leading.len() + 3 * i;
            &&& ports.len() == leading.len() + 3 * done && roles.len() == ports.len()
            &&& forall|k: int| 0 <= k < leading.len() ==> #[trigger] ports[k] == leading[k]
            &&& forall|k: int| 0 <= k < leading.len() ==> #[trigger] roles[k] == leading_roles[k]
            &&& 0 <= i < done ==> {
                &&& ports[at] == wired(spec_numbered("request_"@, (i + 1) as nat), Direction::In,
                    ValueKind::Bool, filters[i].request)
                &&& ports[at + 1] == wired(spec_numbered("grant_"@, (i + 1) as nat), Direction::Out,
                    ValueKind::Bool, filters[i].grant)
                &&& ports[at + 2] == wired(spec_numbered("position_"@, (i + 1) as nat),
                    Direction::Out, ValueKind::Int, filters[i].position)
                &&& roles[at] == (ports[at].name, PortRole::ProcessValue)
                &&& roles[at + 1] == (ports[at + 1].name, PortRole::Output)
                &&& roles[at + 2] == (ports[at + 2].name, PortRole::Status)
            }
        }),
    decreases done,
{
    if done > 0 {
        lemma_filter_wiring(leading, leading_roles, filters, (done - 1) as nat, i);
    }
}

} // verus!
