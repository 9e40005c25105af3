//! Arbitration of one shared backwash supply among many filters: an ordered
//! queue of requests and one exclusive grant.

use crate::describe::{
    self, hints_declared, parameter_views, requirement_views, role_views, spec_component,
    spec_input, spec_int_range, spec_output, spec_parameter, ComponentDescriptor, ComponentView,
    IoRequirement, ParameterDescriptor, ParameterView, PortRole, RequirementView, RoleHint,
};
use crate::params::{
    self, spec_invalid, spec_invalid_parameter, spec_required_u64, spec_tune_u64,
    spec_unknown_parameter, CommandError, CommandErrorView, ParameterError, ParameterErrorView,
    Parameters,
};
use crate::table::{
    self, int_field, known_fields, spec_invalid_value, StateError, StateErrorView, StateMap,
};
use crate::text::{self, decimal, spec_numbered};
use crate::value::{PointId, Quality, Reading, Tick, Value, ValueKind, Write};
use vstd::prelude::*;

verus! {

/// How a [`BackwashCoordinator`] orders queued requests, and its code.
#[derive(Debug, Clone, Copy, PartialEq, Eq, Structural)]
pub enum QueuePolicy {
    /// `0`: in the order in which the requests were first asserted.
    Fifo,
    /// `1`: by filter number, a lower one ahead of a higher one, whichever
    /// came first. A plant numbers its filters in priority order.
    PriorityByTrigger,
    /// `2`: in the order in which they were first asserted, but none is served
    /// until the standing `reorder` instruction names it.
    OperatorManaged,
}

impl QueuePolicy {
    /// The code of the policy.
    pub open spec fn spec_code(self) -> i64 {
        match self {
            QueuePolicy::Fifo => 0,
            QueuePolicy::PriorityByTrigger => 1,
            QueuePolicy::OperatorManaged => 2,
        }
    }

    /// The policy that `code` selects.
    pub open spec fn spec_decode(code: int) -> Option<QueuePolicy> {
        if code == 0 {
            Some(QueuePolicy::Fifo)
        } else if code == 1 {
            Some(QueuePolicy::PriorityByTrigger)
        } else if code == 2 {
            Some(QueuePolicy::OperatorManaged)
        } else {
            None
        }
    }

    /// The code of the policy.
    pub fn code(self) -> (r: i64)
        ensures
            r == self.spec_code(),
    {
        match self {
            QueuePolicy::Fifo => 0,
            QueuePolicy::PriorityByTrigger => 1,
            QueuePolicy::OperatorManaged => 2,
        }
    }

    /// The policy that `code` selects.
    pub fn decode(code: i64) -> (r: Option<QueuePolicy>)
        ensures
            r == QueuePolicy::spec_decode(code as int),
    {
        match code {
            0 => Some(QueuePolicy::Fifo),
            1 => Some(QueuePolicy::PriorityByTrigger),
            2 => Some(QueuePolicy::OperatorManaged),
            _ => None,
        }
    }
}

/// What a queued filter does while it waits, and its code. The effect is made
/// in the plant's wiring; the coordinator carries the choice as declared data.
#[derive(Debug, Clone, Copy, PartialEq, Eq, Structural)]
pub enum QueuedState {
    /// `0`: it keeps filtering until granted.
    KeepFiltering,
    /// `1`: it goes offline, a standby filter covering for it.
    OfflineWithStandby,
}

impl QueuedState {
    /// The code of the state.
    pub open spec fn spec_code(self) -> i64 {
        match self {
            QueuedState::KeepFiltering => 0,
            QueuedState::OfflineWithStandby => 1,
        }
    }

    /// The state that `code` selects.
    pub open spec fn spec_decode(code: int) -> Option<QueuedState> {
        if code == 0 {
            Some(QueuedState::KeepFiltering)
        } else if code == 1 {
            Some(QueuedState::OfflineWithStandby)
        } else {
            None
        }
    }

    /// The code of the state.
    pub fn code(self) -> (r: i64)
        ensures
            r == self.spec_code(),
    {
        match self {
            QueuedState::KeepFiltering => 0,
            QueuedState::OfflineWithStandby => 1,
        }
    }

    /// The state that `code` selects.
    pub fn decode(code: i64) -> (r: Option<QueuedState>)
        ensures
            r == QueuedState::spec_decode(code as int),
    {
        match code {
            0 => Some(QueuedState::KeepFiltering),
            1 => Some(QueuedState::OfflineWithStandby),
            _ => None,
        }
    }
}

/// The points of the conditions under which a grant may be driven. A
/// condition that cannot be trusted does not hold.
#[derive(Debug, Clone, Copy, PartialEq, Eq, Structural)]
pub struct PermissiveInputs {
    /// `supply_ok`: the supply is available.
    pub supply_ok: PointId,
    /// `waste_ok`: the waste path can take the wash.
    pub waste_ok: PointId,
    /// `flow_ok`: the shared flow capacity is available.
    pub flow_ok: PointId,
}

/// One filter's points.
#[derive(Debug, Clone, Copy, PartialEq, Eq, Structural)]
pub struct FilterIo {
    /// `request_i`: the armed request.
    pub request: PointId,
    /// `grant_i`: the exclusive grant.
    pub grant: PointId,
    /// `position_i`: the place in the queue, counted from one, or zero.
    pub position: PointId,
}

/// The points that the bank as a whole is reported on.
#[derive(Debug, Clone, Copy, PartialEq, Eq, Structural)]
pub struct CoordinatorOutputs {
    /// `active`: the number of the filter that holds the grant, or zero.
    pub active: PointId,
    /// `queued`: how many requests wait.
    pub queued: PointId,
    /// `resource_blocked`: a request waits and a condition fails.
    pub resource_blocked: PointId,
}

/// The tuning of a [`BackwashCoordinator`].
#[derive(Debug, Clone, Copy, PartialEq, Eq, Structural)]
pub struct BackwashCoordinatorConfig {
    /// How the queue is ordered.
    pub queue_policy: QueuePolicy,
    /// What a queued filter does while it waits.
    pub queued_state: QueuedState,
}

/// What a [`BackwashCoordinator`] reads in one scan.
#[derive(Debug, Clone, PartialEq, Eq)]
pub struct CoordinatorReadings {
    /// `request_1` to `request_N`.
    pub requests: Vec<Reading<bool>>,
    pub supply_ok: Reading<bool>,
    pub waste_ok: Reading<bool>,
    pub flow_ok: Reading<bool>,
    /// `reorder`, where it is wired.
    pub reorder: Option<Reading<i64>>,
}

impl CoordinatorReadings {
    /// Whether filter `i` requests: an untrusted request does not.
    pub open spec fn requesting(self, i: int) -> bool {
        self.requests@[i].trusted()
    }

    /// Whether every condition holds.
    pub open spec fn permitted(self) -> bool {
        self.supply_ok.trusted() && self.waste_ok.trusted() && self.flow_ok.trusted()
    }

    /// The filter that the reorder instruction names, counted from zero: a
    /// trusted number of one of `count` filters, and nothing else.
    pub open spec fn instruction(self, count: int) -> Option<usize> {
        match self.reorder {
            Some(reading) => if reading.quality == Quality::Good && 1 <= reading.value <= count {
                Some((reading.value - 1) as usize)
            } else {
                None
            },
            None => None,
        }
    }

    /// Whether the readings are those of `count` filters, with or without
    /// the reorder point.
    pub open spec fn fits(self, count: int, reorder: Option<PointId>) -> bool {
        &&& self.requests@.len() == count
        &&& self.reorder is Some <==> reorder is Some
    }
}

/// A coordinator: it hands one exclusive grant to one of `N` filters at a
/// time.
///
/// A filter requests while its `request_i` reads `true` and trusted.
/// Requesting filters without the grant wait in the queue. The head of the
/// queue takes the grant in a scan in which none stands and every condition
/// holds; under [`QueuePolicy::OperatorManaged`] it must also be the filter
/// that the standing instruction names. The grant stands while its holder's
/// request does, and is released in the scan that drops it; the next head
/// can take it in the same scan.
///
/// `grant_i` is driven only while every condition holds. A holder that keeps
/// its request through an outage gets it back without queuing again, and
/// `active` names it all along.
///
/// Where `reorder` is wired, a trusted number of a queued filter moves it to
/// the head, in every scan in which it stands.
///
/// Every output is `Good`: the values are the coordinator's own decisions.
#[derive(Debug)]
pub struct BackwashCoordinator {
    name: String,
    permissives: PermissiveInputs,
    reorder: Option<PointId>,
    filters: Vec<FilterIo>,
    outputs: CoordinatorOutputs,
    config: BackwashCoordinatorConfig,
    queue: Vec<usize>,
    granted: Option<usize>,
}

/// What a [`BackwashCoordinator`] is: its wiring, its tuning, the waiting
/// filters in the order of service, and the holder of the grant. Filters are
/// counted from zero.
#[verifier::ext_equal]
pub struct CoordinatorView {
    pub name: Seq<char>,
    pub permissives: PermissiveInputs,
    pub reorder: Option<PointId>,
    pub filters: Seq<FilterIo>,
    pub outputs: CoordinatorOutputs,
    pub config: BackwashCoordinatorConfig,
    pub queue: Seq<usize>,
    pub granted: Option<usize>,
}

impl View for BackwashCoordinator {
    type V = CoordinatorView;

    closed spec fn view(&self) -> CoordinatorView {
        CoordinatorView {
            name: self.name@,
            permissives: self.permissives,
            reorder: self.reorder,
            filters: self.filters@,
            outputs: self.outputs,
            config: self.config,
            queue: self.queue@,
            granted: self.granted,
        }
    }
}

impl CoordinatorView {
    /// How many filters there are.
    pub open spec fn count(self) -> int {
        self.filters.len() as int
    }

    /// The invariant: the queue holds filters, each at most once, and not
    /// the holder of the grant.
    pub open spec fn wf(self) -> bool {
        &&& 0 < self.count() <= usize::MAX
        &&& self.queue.no_duplicates()
        &&& self.queue.len() <= self.count()
        &&& forall|k: int| 0 <= k < self.queue.len() ==> (#[trigger] self.queue[k]) < self.count()
        &&& self.granted matches Some(holder) ==> holder < self.count() && !self.queue.contains(
            holder,
        )
    }
}

/// The coordinator with the given parts, or why it cannot be built.
pub open spec fn spec_new(
    name: Seq<char>,
    permissives: PermissiveInputs,
    reorder: Option<PointId>,
    filters: Seq<FilterIo>,
    outputs: CoordinatorOutputs,
    config: BackwashCoordinatorConfig,
) -> Result<CoordinatorView, ParameterErrorView> {
    if filters.len() == 0 {
        Err(spec_invalid(name, "filters"@, "must declare at least one filter"@))
    } else {
        Ok(
            CoordinatorView {
                name,
                permissives,
                reorder,
                filters,
                outputs,
                config,
                queue: Seq::empty(),
                granted: None,
            },
        )
    }
}

/// The tuning that the parameters declare.
pub open spec fn read_config(name: Seq<char>, parameters: Map<Seq<char>, Value>) -> Result<
    BackwashCoordinatorConfig,
    ParameterErrorView,
> {
    match spec_required_u64(name, parameters, "queue_policy"@) {
        Err(error) => Err(error),
        Ok(policy) => match QueuePolicy::spec_decode(policy as int) {
            None => Err(
                spec_invalid(
                    name,
                    "queue_policy"@,
                    "expected 0 (FIFO), 1 (priority by trigger), or 2 (operator managed), found "@
                        + decimal(policy as nat),
                ),
            ),
            Some(queue_policy) => match spec_required_u64(name, parameters, "queued_state"@) {
                Err(error) => Err(error),
                Ok(state) => match QueuedState::spec_decode(state as int) {
                    None => Err(
                        spec_invalid(
                            name,
                            "queued_state"@,
                            "expected 0 (keep filtering until granted) or 1 (offline with standby cover), found "@
                                + decimal(state as nat),
                        ),
                    ),
                    Some(queued_state) => Ok(
                        BackwashCoordinatorConfig { queue_policy, queued_state },
                    ),
                },
            },
        },
    }
}

/// The coordinator that the parameters declare.
pub open spec fn spec_from_parameters(
    name: Seq<char>,
    permissives: PermissiveInputs,
    reorder: Option<PointId>,
    filters: Seq<FilterIo>,
    outputs: CoordinatorOutputs,
    parameters: Map<Seq<char>, Value>,
) -> Result<CoordinatorView, ParameterErrorView> {
    match read_config(name, parameters) {
        Err(error) => Err(error),
        Ok(config) => spec_new(name, permissives, reorder, filters, outputs, config),
    }
}

/// The members of the queue whose requests stand, in their order.
pub open spec fn standing(queue: Seq<usize>, scan: CoordinatorReadings) -> Seq<usize>
    decreases queue.len(),
{
    if queue.len() == 0 {
        queue
    } else if scan.requesting(queue.last() as int) {
        standing(queue.drop_last(), scan).push(queue.last())
    } else {
        standing(queue.drop_last(), scan)
    }
}

/// The first place from `from` on that a higher-numbered member holds, or
/// the end of the queue.
pub open spec fn first_above(queue: Seq<usize>, filter: usize, from: int) -> int
    decreases queue.len() - from,
{
    if from >= queue.len() {
        queue.len() as int
    } else if queue[from] > filter {
        from
    } else {
        first_above(queue, filter, from + 1)
    }
}

/// The queue once `filter` has joined it under a policy.
pub open spec fn joined_by(queue: Seq<usize>, filter: usize, policy: QueuePolicy) -> Seq<usize> {
    match policy {
        QueuePolicy::PriorityByTrigger => queue.insert(first_above(queue, filter, 0), filter),
        _ => queue.push(filter),
    }
}

/// The queue once those of the first `done` filters that request, and hold
/// neither the grant nor a place, have joined it.
pub open spec fn joined(
    queue: Seq<usize>,
    scan: CoordinatorReadings,
    holder: Option<usize>,
    policy: QueuePolicy,
    done: nat,
) -> Seq<usize>
    decreases done,
{
    if done == 0 {
        queue
    } else {
        let earlier = joined(queue, scan, holder, policy, (done - 1) as nat);
        let filter = (done - 1) as usize;
        if scan.requesting(done - 1) && holder != Some(filter) && !earlier.contains(filter) {
            joined_by(earlier, filter, policy)
        } else {
            earlier
        }
    }
}

/// The queue with the named member at its head, where it has that member.
pub open spec fn reordered(queue: Seq<usize>, instruction: Option<usize>) -> Seq<usize> {
    match instruction {
        Some(target) => if queue.contains(target) {
            queue.remove(queue.index_of(target)).insert(0, target)
        } else {
            queue
        },
        None => queue,
    }
}

impl CoordinatorView {
    /// Who still holds the grant in a scan.
    pub open spec fn holder(self, scan: CoordinatorReadings) -> Option<usize> {
        match self.granted {
            Some(holder) => if scan.requesting(holder as int) {
                Some(holder)
            } else {
                None
            },
            None => None,
        }
    }

    /// The queue of a scan before a grant is issued: who dropped out is
    /// gone, who came has joined, and the instruction is carried out.
    pub open spec fn lined_up(self, scan: CoordinatorReadings) -> Seq<usize> {
        reordered(
            joined(
                standing(self.queue, scan),
                scan,
                self.holder(scan),
                self.config.queue_policy,
                self.filters.len(),
            ),
            scan.instruction(self.count()),
        )
    }

    /// Whether the head of the queue takes the grant in a scan.
    pub open spec fn serves(self, scan: CoordinatorReadings) -> bool {
        let queue = self.lined_up(scan);
        &&& self.holder(scan) is None
        &&& scan.permitted()
        &&& queue.len() > 0
        &&& self.config.queue_policy == QueuePolicy::OperatorManaged ==> scan.instruction(
            self.count(),
        ) == Some(queue[0])
    }

    /// The coordinator after a scan.
    pub open spec fn after(self, scan: CoordinatorReadings) -> CoordinatorView {
        let queue = self.lined_up(scan);
        if self.serves(scan) {
            CoordinatorView { queue: queue.remove(0), granted: Some(queue[0]), ..self }
        } else {
            CoordinatorView { queue, granted: self.holder(scan), ..self }
        }
    }

    /// The place of filter `i` in the queue, counted from one, or zero.
    pub open spec fn place(self, i: int) -> int {
        if self.queue.contains(i as usize) {
            self.queue.index_of(i as usize) + 1
        } else {
            0
        }
    }

    /// The number of the filter that holds the grant, or zero.
    pub open spec fn active(self) -> int {
        match self.granted {
            Some(holder) => holder + 1,
            None => 0,
        }
    }

    /// What is driven for the first `done` filters.
    pub open spec fn filter_writes(self, permitted: bool, tick: Tick, done: nat) -> Seq<Write>
        decreases done,
    {
        if done == 0 {
            Seq::empty()
        } else {
            let i = done - 1;
            self.filter_writes(permitted, tick, (done - 1) as nat).push(
                Write::of(
                    self.filters[i].grant,
                    Value::Bool(self.granted == Some(i as usize) && permitted),
                    Quality::Good,
                    tick,
                ),
            ).push(
                Write::of(
                    self.filters[i].position,
                    Value::Int(self.place(i) as i64),
                    Quality::Good,
                    tick,
                ),
            )
        }
    }

    /// Everything driven with the scan's outcome in `self`, in order.
    pub open spec fn driven(self, permitted: bool, tick: Tick) -> Seq<Write> {
        self.filter_writes(permitted, tick, self.filters.len()).push(
            Write::of(
                self.outputs.active,
                Value::Int(self.active() as i64),
                Quality::Good,
                tick,
            ),
        ).push(
            Write::of(
                self.outputs.queued,
                Value::Int(self.queue.len() as i64),
                Quality::Good,
                tick,
            ),
        ).push(
            Write::of(
                self.outputs.resource_blocked,
                Value::Bool(self.queue.len() > 0 && !permitted),
                Quality::Good,
                tick,
            ),
        )
    }

    /// Everything driven in a scan, in order.
    pub open spec fn writes(self, scan: CoordinatorReadings, tick: Tick) -> Seq<Write> {
        self.after(scan).driven(scan.permitted(), tick)
    }
}

/// The ports of the first `done` filters, after the ports in `leading`.
pub open spec fn filter_ports(
    leading: Seq<RequirementView>,
    filters: Seq<FilterIo>,
    done: nat,
) -> Seq<RequirementView>
    decreases done,
{
    if done == 0 {
        leading
    } else {
        let filter = filters[done - 1];
        filter_ports(leading, filters, (done - 1) as nat).push(
            spec_input(spec_numbered("request_"@, done), ValueKind::Bool, filter.request),
        ).push(spec_output(spec_numbered("grant_"@, done), ValueKind::Bool, filter.grant)).push(
            spec_output(spec_numbered("position_"@, done), ValueKind::Int, filter.position),
        )
    }
}

/// The roles of the first `done` filters' ports, after those in `leading`.
pub open spec fn filter_roles(leading: Seq<(Seq<char>, PortRole)>, done: nat) -> Seq<
    (Seq<char>, PortRole),
>
    decreases done,
{
    if done == 0 {
        leading
    } else {
        filter_roles(leading, (done - 1) as nat).push(
            (spec_numbered("request_"@, done), PortRole::ProcessValue),
        ).push((spec_numbered("grant_"@, done), PortRole::Output)).push(
            (spec_numbered("position_"@, done), PortRole::Status),
        )
    }
}

/// The declared parameters.
pub open spec fn parameters() -> Seq<ParameterView> {
    seq![
        spec_parameter("queue_policy"@, ValueKind::Int, spec_int_range(0, 2)),
        spec_parameter("queued_state"@, ValueKind::Int, spec_int_range(0, 1)),
    ]
}

/// The first `done` queue members as fields, put into `fields`.
pub open spec fn with_queue(
    fields: Map<Seq<char>, Value>,
    queue: Seq<usize>,
    done: nat,
) -> Map<Seq<char>, Value>
    decreases done,
{
    if done == 0 {
        fields
    } else {
        with_queue(fields, queue, (done - 1) as nat).insert(
            spec_numbered("queue_"@, done),
            Value::Int((queue[done - 1] + 1) as i64),
        )
    }
}

/// The names that a checkpoint with `done` queue members holds.
pub open spec fn queue_names(done: nat) -> Seq<Seq<char>>
    decreases done,
{
    if done == 0 {
        seq!["queue_policy"@, "queued_state"@, "granted"@, "queued_count"@]
    } else {
        queue_names((done - 1) as nat).push(spec_numbered("queue_"@, done))
    }
}

/// An integer field between `min` and `max`.
pub open spec fn ranged_field(
    fields: Map<Seq<char>, Value>,
    name: Seq<char>,
    key: Seq<char>,
    min: int,
    max: int,
) -> Result<i64, StateErrorView> {
    match int_field(fields, name, key) {
        Err(error) => Err(error),
        Ok(value) => if min <= value <= max {
            Ok(value)
        } else {
            Err(spec_invalid_value(name, key, Value::Int(value)))
        },
    }
}

/// The first `done` queue members that a checkpoint carries: filters, each
/// at most once.
pub open spec fn restored_queue(
    fields: Map<Seq<char>, Value>,
    name: Seq<char>,
    count: int,
    done: nat,
) -> Result<Seq<usize>, StateErrorView>
    decreases done,
{
    if done == 0 {
        Ok(Seq::empty())
    } else {
        match restored_queue(fields, name, count, (done - 1) as nat) {
            Err(error) => Err(error),
            Ok(queue) => match ranged_field(
                fields,
                name,
                spec_numbered("queue_"@, done),
                1,
                count,
            ) {
                Err(error) => Err(error),
                Ok(member) => if queue.contains((member - 1) as usize) {
                    Err(
                        spec_invalid_value(
                            name,
                            spec_numbered("queue_"@, done),
                            Value::Int(member),
                        ),
                    )
                } else {
                    Ok(queue.push((member - 1) as usize))
                },
            },
        }
    }
}

/// The tuning that a checkpoint carries.
pub open spec fn restored_config(fields: Map<Seq<char>, Value>, name: Seq<char>) -> Result<
    BackwashCoordinatorConfig,
    StateErrorView,
> {
    match int_field(fields, name, "queue_policy"@) {
        Err(error) => Err(error),
        Ok(policy) => match QueuePolicy::spec_decode(policy as int) {
            None => Err(spec_invalid_value(name, "queue_policy"@, Value::Int(policy))),
            Some(queue_policy) => match int_field(fields, name, "queued_state"@) {
                Err(error) => Err(error),
                Ok(state) => match QueuedState::spec_decode(state as int) {
                    None => Err(spec_invalid_value(name, "queued_state"@, Value::Int(state))),
                    Some(queued_state) => Ok(
                        BackwashCoordinatorConfig { queue_policy, queued_state },
                    ),
                },
            },
        },
    }
}

impl CoordinatorView {
    /// The ports before those of the filters.
    pub open spec fn leading_ports(self) -> Seq<RequirementView> {
        let conditions = seq![
            spec_input("supply_ok"@, ValueKind::Bool, self.permissives.supply_ok),
            spec_input("waste_ok"@, ValueKind::Bool, self.permissives.waste_ok),
            spec_input("flow_ok"@, ValueKind::Bool, self.permissives.flow_ok),
        ];
        match self.reorder {
            Some(reorder) => conditions.push(spec_input("reorder"@, ValueKind::Int, reorder)),
            None => conditions,
        }
    }

    /// The declared ports. `reorder` is one of them only where it is wired.
    pub open spec fn requirements(self) -> Seq<RequirementView> {
        filter_ports(self.leading_ports(), self.filters, self.filters.len()).push(
            spec_output("active"@, ValueKind::Int, self.outputs.active),
        ).push(spec_output("queued"@, ValueKind::Int, self.outputs.queued)).push(
            spec_output("resource_blocked"@, ValueKind::Bool, self.outputs.resource_blocked),
        )
    }

    /// The roles of the ports before those of the filters.
    pub open spec fn leading_roles(self) -> Seq<(Seq<char>, PortRole)> {
        let conditions = seq![
            ("supply_ok"@, PortRole::ProcessValue),
            ("waste_ok"@, PortRole::ProcessValue),
            ("flow_ok"@, PortRole::ProcessValue),
        ];
        if self.reorder is Some {
            conditions.push(("reorder"@, PortRole::Setpoint))
        } else {
            conditions
        }
    }

    /// The roles of the ports.
    pub open spec fn roles(self) -> Seq<(Seq<char>, PortRole)> {
        filter_roles(self.leading_roles(), self.filters.len()).push(
            ("active"@, PortRole::Status),
        ).push(("queued"@, PortRole::Status)).push(("resource_blocked"@, PortRole::Status))
    }

    /// The coordinator's description.
    pub open spec fn description(self) -> ComponentView {
        spec_component(
            self.name,
            BackwashCoordinator::KIND@,
            self.requirements(),
            self.roles(),
            parameters(),
        )
    }

    /// The coordinator after a retune, or its refusal. The standing queue
    /// and grant are left alone.
    pub open spec fn tuned(self, parameter: Seq<char>, value: Value) -> Result<
        CoordinatorView,
        CommandErrorView,
    > {
        let config = self.config;
        if parameter == "queue_policy"@ {
            match spec_tune_u64(self.name, parameter, value) {
                Err(error) => Err(error),
                Ok(code) => match QueuePolicy::spec_decode(code as int) {
                    None => Err(
                        spec_invalid_parameter(
                            self.name,
                            parameter,
                            "expected 0 (FIFO), 1 (priority by trigger), or 2 (operator managed)"@,
                        ),
                    ),
                    Some(queue_policy) => Ok(
                        CoordinatorView {
                            config: BackwashCoordinatorConfig { queue_policy, ..config },
                            ..self
                        },
                    ),
                },
            }
        } else if parameter == "queued_state"@ {
            match spec_tune_u64(self.name, parameter, value) {
                Err(error) => Err(error),
                Ok(code) => match QueuedState::spec_decode(code as int) {
                    None => Err(
                        spec_invalid_parameter(
                            self.name,
                            parameter,
                            "expected 0 (keep filtering until granted) or 1 (offline with standby cover)"@,
                        ),
                    ),
                    Some(queued_state) => Ok(
                        CoordinatorView {
                            config: BackwashCoordinatorConfig { queued_state, ..config },
                            ..self
                        },
                    ),
                },
            }
        } else {
            Err(spec_unknown_parameter(self.name, parameter))
        }
    }

    /// The tuning as fields.
    pub open spec fn reported(self) -> Map<Seq<char>, Value> {
        Map::empty().insert(
            "queue_policy"@,
            Value::Int(self.config.queue_policy.spec_code()),
        ).insert("queued_state"@, Value::Int(self.config.queued_state.spec_code()))
    }

    /// The fields before the queue members.
    pub open spec fn leading_fields(self) -> Map<Seq<char>, Value> {
        self.reported().insert("granted"@, Value::Int(self.active() as i64)).insert(
            "queued_count"@,
            Value::Int(self.queue.len() as i64),
        )
    }

    /// The tuning, the grant and the queue as fields.
    pub open spec fn captured(self) -> Map<Seq<char>, Value> {
        with_queue(self.leading_fields(), self.queue, self.queue.len())
    }

    /// The coordinator with a checkpoint taken over, or the checkpoint's
    /// refusal. The member count comes first: it decides which names belong
    /// to the checkpoint.
    pub open spec fn restored(
        self,
        keys: Seq<Seq<char>>,
        fields: Map<Seq<char>, Value>,
    ) -> Result<CoordinatorView, StateErrorView> {
        let name = self.name;
        match ranged_field(fields, name, "queued_count"@, 0, self.count()) {
            Err(error) => Err(error),
            Ok(members) => match known_fields(keys, name, queue_names(members as nat)) {
                Err(error) => Err(error),
                Ok(_) => match restored_config(fields, name) {
                    Err(error) => Err(error),
                    Ok(config) => match ranged_field(fields, name, "granted"@, 0, self.count()) {
                        Err(error) => Err(error),
                        Ok(granted) => match restored_queue(
                            fields,
                            name,
                            self.count(),
                            members as nat,
                        ) {
                            Err(error) => Err(error),
                            Ok(queue) => if granted > 0 && queue.contains((granted - 1) as usize) {
                                Err(spec_invalid_value(name, "granted"@, Value::Int(granted)))
                            } else {
                                Ok(
                                    CoordinatorView {
                                        config,
                                        queue,
                                        granted: if granted == 0 {
                                            None
                                        } else {
                                            Some((granted - 1) as usize)
                                        },
                                        ..self
                                    },
                                )
                            },
                        },
                    },
                },
            },
        }
    }
}

impl BackwashCoordinator {
    /// The kind a plant model selects this block by.
    pub const KIND: &'static str = "backwash-coordinator";

    /// Builds a coordinator, or tells why it cannot be built. `filters[i]`
    /// is filter `i + 1`; `reorder` is given only where it is wired.
    pub fn new(
        name: &str,
        permissives: PermissiveInputs,
        reorder: Option<PointId>,
        filters: Vec<FilterIo>,
        outputs: CoordinatorOutputs,
        config: BackwashCoordinatorConfig,
    ) -> (r: Result<BackwashCoordinator, ParameterError>)
        ensures
            match r {
                Ok(coordinator) => coordinator@.wf() && spec_new(
                    name@,
                    permissives,
                    reorder,
                    filters@,
                    outputs,
                    config,
                ) == Ok::<CoordinatorView, ParameterErrorView>(coordinator@),
                Err(error) => spec_new(name@, permissives, reorder, filters@, outputs, config)
                    == Err::<CoordinatorView, ParameterErrorView>(error@),
            },
    {
        if filters.len() == 0 {
            return Err(params::invalid(name, "filters", "must declare at least one filter"));
        }
        Ok(
            BackwashCoordinator {
                name: name.to_owned(),
                permissives,
                reorder,
                filters,
                outputs,
                config,
                queue: Vec::new(),
                granted: None,
            },
        )
    }

    /// Builds a coordinator from the parameters of a plant model.
    pub fn from_parameters(
        name: &str,
        permissives: PermissiveInputs,
        reorder: Option<PointId>,
        filters: Vec<FilterIo>,
        outputs: CoordinatorOutputs,
        parameters: &Parameters,
    ) -> (r: Result<BackwashCoordinator, ParameterError>)
        ensures
            match r {
                Ok(coordinator) => coordinator@.wf() && spec_from_parameters(
                    name@,
                    permissives,
                    reorder,
                    filters@,
                    outputs,
                    parameters@,
                ) == Ok::<CoordinatorView, ParameterErrorView>(coordinator@),
                Err(error) => spec_from_parameters(
                    name@,
                    permissives,
                    reorder,
                    filters@,
                    outputs,
                    parameters@,
                ) == Err::<CoordinatorView, ParameterErrorView>(error@),
            },
    {
        let policy: u64 = params::required_u64(name, parameters, "queue_policy")?;
        let queue_policy = match QueuePolicy::decode(params::code_of(policy)) {
            Some(queue_policy) => queue_policy,
            None => {
                return Err(
                    params::invalid(
                        name,
                        "queue_policy",
                        text::numbered(
                            "expected 0 (FIFO), 1 (priority by trigger), or 2 (operator managed), found ",
                            policy,
                        ).as_str(),
                    ),
                );
            },
        };
        let state: u64 = params::required_u64(name, parameters, "queued_state")?;
        let queued_state = match QueuedState::decode(params::code_of(state)) {
            Some(queued_state) => queued_state,
            None => {
                return Err(
                    params::invalid(
                        name,
                        "queued_state",
                        text::numbered(
                            "expected 0 (keep filtering until granted) or 1 (offline with standby cover), found ",
                            state,
                        ).as_str(),
                    ),
                );
            },
        };
        BackwashCoordinator::new(
            name,
            permissives,
            reorder,
            filters,
            outputs,
            BackwashCoordinatorConfig { queue_policy, queued_state },
        )
    }

    /// The coordinator's name.
    pub fn name(&self) -> (r: &str)
        ensures
            r@ == self@.name,
    {
        self.name.as_str()
    }

    /// The tuning.
    pub fn config(&self) -> (r: BackwashCoordinatorConfig)
        ensures
            r == self@.config,
    {
        self.config
    }

    /// The declared ports.
    pub fn io_requirements(&self) -> (r: Vec<IoRequirement>)
        ensures
            requirement_views(r@) == self@.requirements(),
    {
        let mut r: Vec<IoRequirement> = Vec::new();
        r.push(describe::input("supply_ok", ValueKind::Bool, self.permissives.supply_ok));
        r.push(describe::input("waste_ok", ValueKind::Bool, self.permissives.waste_ok));
        r.push(describe::input("flow_ok", ValueKind::Bool, self.permissives.flow_ok));
        if let Some(reorder) = self.reorder {
            r.push(describe::input("reorder", ValueKind::Int, reorder));
        }
        let ghost leading = self@.leading_ports();
        assert(requirement_views(r@) == leading);
        let mut index: usize = 0;
        while index < self.filters.len()
            invariant
                index <= self.filters.len(),
                leading == self@.leading_ports(),
                requirement_views(r@) == filter_ports(leading, self@.filters, index as nat),
            decreases self.filters.len() - index,
        {
            let filter = self.filters[index];
            let n: u64 = index as u64 + 1;
            r.push(
                describe::input(
                    text::numbered("request_", n).as_str(),
                    ValueKind::Bool,
                    filter.request,
                ),
            );
            r.push(
                describe::output(
                    text::numbered("grant_", n).as_str(),
                    ValueKind::Bool,
                    filter.grant,
                ),
            );
            r.push(
                describe::output(
                    text::numbered("position_", n).as_str(),
                    ValueKind::Int,
                    filter.position,
                ),
            );
            index = index + 1;
            assert(requirement_views(r@) == filter_ports(leading, self@.filters, index as nat));
        }
        r.push(describe::output("active", ValueKind::Int, self.outputs.active));
        r.push(describe::output("queued", ValueKind::Int, self.outputs.queued));
        r.push(
            describe::output("resource_blocked", ValueKind::Bool, self.outputs.resource_blocked),
        );
        assert(requirement_views(r@) == self@.requirements());
        r
    }

    fn named_filter(&self, readings: &CoordinatorReadings) -> (r: Option<usize>)
        ensures
            r == readings.instruction(self@.count()),
    {
        match readings.reorder {
            Some(reading) => if reading.quality.is_good() && reading.value >= 1 && reading.value
                as u64 <= self.filters.len() as u64 {
                Some((reading.value - 1) as usize)
            } else {
                None
            },
            None => None,
        }
    }

    /// Takes out the queue members whose requests dropped.
    fn drop_out(&mut self, readings: &CoordinatorReadings)
        requires
            old(self)@.wf(),
            readings.requests@.len() == old(self)@.count(),
        ensures
            final(self)@ == (CoordinatorView {
                queue: standing(old(self)@.queue, *readings),
                ..old(self)@
            }),
    {
        let ghost before = self@;
        let mut queue: Vec<usize> = Vec::new();
        let mut index: usize = 0;
        assert(before.queue.take(0) == Seq::<usize>::empty());
        while index < self.queue.len()
            invariant
                self@ == before,
                before.wf(),
                readings.requests@.len() == before.count(),
                index <= self.queue.len(),
                queue@ == standing(before.queue.take(index as int), *readings),
            decreases self.queue.len() - index,
        {
            let member: usize = self.queue[index];
            assert(before.queue[index as int] < before.count());
            assert(before.queue.take(index + 1).drop_last() == before.queue.take(index as int));
            if readings.requests[member].is_trusted() {
                queue.push(member);
            }
            index = index + 1;
        }
        assert(before.queue.take(index as int) == before.queue);
        self.queue = queue;
    }

    /// Where a member stands in the queue.
    fn find(&self, member: usize) -> (r: Option<usize>)
        requires
            self@.queue.no_duplicates(),
        ensures
            match r {
                Some(at) => self@.queue.contains(member) && at == self@.queue.index_of(member)
                    && at < self@.queue.len() && self@.queue[at as int] == member,
                None => !self@.queue.contains(member),
            },
    {
        let mut at: usize = 0;
        while at < self.queue.len()
            invariant
                at <= self.queue.len(),
                self@.queue.no_duplicates(),
                forall|k: int| 0 <= k < at ==> self@.queue[k] != member,
            decreases self.queue.len() - at,
        {
            if self.queue[at] == member {
                assert(self@.queue[at as int] == member);
                assert(self@.queue.contains(member));
                return Some(at);
            }
            at = at + 1;
        }
        None
    }

    /// Lets a filter join the queue under the policy.
    fn join(&mut self, filter: usize)
        ensures
            final(self)@ == (CoordinatorView {
                queue: joined_by(old(self)@.queue, filter, old(self)@.config.queue_policy),
                ..old(self)@
            }),
    {
        match self.config.queue_policy {
            QueuePolicy::PriorityByTrigger => {
                let ghost before = self@.queue;
                let mut slot: usize = 0;
                while slot < self.queue.len() && self.queue[slot] <= filter
                    invariant
                        slot <= self.queue.len(),
                        before == self.queue@,
                        first_above(before, filter, slot as int) == first_above(before, filter, 0),
                    decreases self.queue.len() - slot,
                {
                    slot = slot + 1;
                }
                self.queue.insert(slot, filter);
            },
            _ => {
                self.queue.push(filter);
            },
        }
    }

    /// Moves the named member to the head of the queue, where it is queued.
    fn promote(&mut self, instruction: Option<usize>)
        requires
            old(self)@.queue.no_duplicates(),
        ensures
            final(self)@ == (CoordinatorView {
                queue: reordered(old(self)@.queue, instruction),
                ..old(self)@
            }),
    {
        if let Some(target) = instruction {
            if let Some(at) = self.find(target) {
                self.queue.remove(at);
                self.queue.insert(0, target);
            }
        }
    }

    /// Runs one scan.
    pub fn step(&mut self, readings: &CoordinatorReadings, tick: Tick) -> (r: Vec<Write>)
        requires
            old(self)@.wf(),
            readings.fits(old(self)@.count(), old(self)@.reorder),
        ensures
            final(self)@ == old(self)@.after(*readings),
            final(self)@.wf(),
            r@ == old(self)@.writes(*readings, tick),
    {
        let ghost before = self@;
        let permitted = readings.supply_ok.is_trusted() && readings.waste_ok.is_trusted()
            && readings.flow_ok.is_trusted();
        if let Some(holder) = self.granted {
            if !readings.requests[holder].is_trusted() {
                self.granted = None;
            }
        }
        let ghost holder = before.holder(*readings);
        let ghost kept = standing(before.queue, *readings);
        let ghost policy = before.config.queue_policy;
        proof {
            lemma_standing(before.queue, *readings, before.count());
        }
        self.drop_out(readings);
        let mut index: usize = 0;
        while index < self.filters.len()
            invariant
                before.wf(),
                readings.fits(before.count(), before.reorder),
                index <= self.filters.len(),
                holder == before.holder(*readings),
                kept == standing(before.queue, *readings),
                policy == before.config.queue_policy,
                kept.no_duplicates(),
                forall|k: int| 0 <= k < kept.len() ==> (#[trigger] kept[k]) < before.count(),
                holder matches Some(h) ==> !kept.contains(h),
                self@ == (CoordinatorView {
                    queue: joined(kept, *readings, holder, policy, index as nat),
                    granted: holder,
                    ..before
                }),
            decreases self.filters.len() - index,
        {
            proof {
                lemma_joined(kept, *readings, holder, policy, index as nat, before.count());
            }
            let waiting = self.find(index).is_some();
            let holding = match self.granted {
                Some(held) => held == index,
                None => false,
            };
            if readings.requests[index].is_trusted() && !holding && !waiting {
                self.join(index);
            }
            index = index + 1;
        }
        proof {
            lemma_joined(kept, *readings, holder, policy, index as nat, before.count());
            lemma_reordered(self@.queue, readings.instruction(before.count()), before.count());
        }
        let instruction = self.named_filter(readings);
        self.promote(instruction);
        assert(self@.queue == before.lined_up(*readings));
        proof {
            lemma_length(self@.queue, before.count());
        }
        if self.granted.is_none() && permitted && self.queue.len() > 0 {
            let head: usize = self.queue[0];
            let selected = match instruction {
                Some(target) => target == head,
                None => false,
            };
            if self.config.queue_policy != QueuePolicy::OperatorManaged || selected {
                self.queue.remove(0);
                self.granted = Some(head);
                proof {
                    let queue = before.lined_up(*readings);
                    lemma_head_leaves(queue);
                }
            }
        }
        assert(self@ == before.after(*readings));
        self.drive(permitted, tick)
    }

    /// Drives the grant, the queue and the status.
    fn drive(&self, permitted: bool, tick: Tick) -> (r: Vec<Write>)
        requires
            self@.wf(),
        ensures
            r@ == self@.driven(permitted, tick),
    {
        let mut r: Vec<Write> = Vec::new();
        let mut index: usize = 0;
        while index < self.filters.len()
            invariant
                self@.wf(),
                index <= self.filters.len(),
                r@ == self@.filter_writes(permitted, tick, index as nat),
            decreases self.filters.len() - index,
        {
            let filter = self.filters[index];
            let holding = match self.granted {
                Some(holder) => holder == index,
                None => false,
            };
            r.push(
                Write::new(filter.grant, Value::Bool(holding && permitted), Quality::Good, tick),
            );
            let place: i64 = match self.find(index) {
                Some(at) => (at + 1) as i64,
                None => 0,
            };
            r.push(Write::new(filter.position, Value::Int(place), Quality::Good, tick));
            index = index + 1;
        }
        r.push(
            Write::new(self.outputs.active, Value::Int(self.holder_number()), Quality::Good, tick),
        );
        r.push(
            Write::new(
                self.outputs.queued,
                Value::Int(self.queue.len() as i64),
                Quality::Good,
                tick,
            ),
        );
        r.push(
            Write::new(
                self.outputs.resource_blocked,
                Value::Bool(self.queue.len() > 0 && !permitted),
                Quality::Good,
                tick,
            ),
        );
        r
    }

    fn holder_number(&self) -> (r: i64)
        requires
            self@.wf(),
        ensures
            r == self@.active() as i64,
    {
        match self.granted {
            Some(holder) => (holder + 1) as i64,
            None => 0,
        }
    }

    /// Describes the coordinator.
    pub fn describe(&self) -> (r: ComponentDescriptor)
        ensures
            r@ == self@.description(),
    {
        let mut roles: Vec<RoleHint> = Vec::new();
        roles.push(describe::hint("supply_ok", PortRole::ProcessValue));
        roles.push(describe::hint("waste_ok", PortRole::ProcessValue));
        roles.push(describe::hint("flow_ok", PortRole::ProcessValue));
        if self.reorder.is_some() {
            roles.push(describe::hint("reorder", PortRole::Setpoint));
        }
        let ghost leading = self@.leading_roles();
        assert(role_views(roles@) == leading);
        let mut index: usize = 0;
        while index < self.filters.len()
            invariant
                index <= self.filters.len(),
                leading == self@.leading_roles(),
                role_views(roles@) == filter_roles(leading, index as nat),
            decreases self.filters.len() - index,
        {
            let n: u64 = index as u64 + 1;
            roles.push(
                describe::hint(text::numbered("request_", n).as_str(), PortRole::ProcessValue),
            );
            roles.push(describe::hint(text::numbered("grant_", n).as_str(), PortRole::Output));
            roles.push(describe::hint(text::numbered("position_", n).as_str(), PortRole::Status));
            index = index + 1;
            assert(role_views(roles@) == filter_roles(leading, index as nat));
        }
        roles.push(describe::hint("active", PortRole::Status));
        roles.push(describe::hint("queued", PortRole::Status));
        roles.push(describe::hint("resource_blocked", PortRole::Status));
        assert(role_views(roles@) == self@.roles());
        let mut list: Vec<ParameterDescriptor> = Vec::new();
        list.push(
            describe::parameter("queue_policy", ValueKind::Int, Some(describe::int_range(0, 2))),
        );
        list.push(
            describe::parameter("queued_state", ValueKind::Int, Some(describe::int_range(0, 1))),
        );
        assert(parameter_views(list@) == parameters());
        proof {
            lemma_roles_follow_ports(self@);
        }
        describe::component(
            self.name.as_str(),
            BackwashCoordinator::KIND,
            &self.io_requirements(),
            &roles,
            list,
        )
    }

    /// Retunes one declared parameter at the scan boundary. The standing
    /// queue and grant are left alone; a refused value changes nothing.
    pub fn apply_parameter(&mut self, parameter: &str, value: Value) -> (r: Result<
        (),
        CommandError,
    >)
        requires
            old(self)@.wf(),
        ensures
            final(self)@.wf(),
            match r {
                Ok(_) => old(self)@.tuned(parameter@, value) == Ok::<
                    CoordinatorView,
                    CommandErrorView,
                >(final(self)@),
                Err(error) => old(self)@.tuned(parameter@, value) == Err::<
                    CoordinatorView,
                    CommandErrorView,
                >(error@) && final(self)@ == old(self)@,
            },
    {
        if text::same(parameter, "queue_policy") {
            let code: u64 = params::tune_u64(self.name.as_str(), parameter, value)?;
            match QueuePolicy::decode(params::code_of(code)) {
                Some(queue_policy) => {
                    self.config.queue_policy = queue_policy;
                    Ok(())
                },
                None => Err(
                    params::invalid_parameter(
                        self.name.as_str(),
                        parameter,
                        "expected 0 (FIFO), 1 (priority by trigger), or 2 (operator managed)",
                    ),
                ),
            }
        } else if text::same(parameter, "queued_state") {
            let code: u64 = params::tune_u64(self.name.as_str(), parameter, value)?;
            match QueuedState::decode(params::code_of(code)) {
                Some(queued_state) => {
                    self.config.queued_state = queued_state;
                    Ok(())
                },
                None => Err(
                    params::invalid_parameter(
                        self.name.as_str(),
                        parameter,
                        "expected 0 (keep filtering until granted) or 1 (offline with standby cover)",
                    ),
                ),
            }
        } else {
            Err(params::unknown_parameter(self.name.as_str(), parameter))
        }
    }

    /// Reports the tuning under the names that a checkpoint uses.
    pub fn report_parameters(&self) -> (r: StateMap)
        ensures
            r@ == self@.reported(),
    {
        let mut r = StateMap::new();
        r.insert("queue_policy", Value::Int(self.config.queue_policy.code()));
        r.insert("queued_state", Value::Int(self.config.queued_state.code()));
        r
    }

    /// Captures the tuning, the grant and the queue in its order.
    pub fn capture_state(&self) -> (r: StateMap)
        requires
            self@.wf(),
        ensures
            r@ == self@.captured(),
    {
        let mut r = self.report_parameters();
        r.insert("granted", Value::Int(self.holder_number()));
        r.insert("queued_count", Value::Int(self.queue.len() as i64));
        let ghost leading = r@;
        let mut index: usize = 0;
        while index < self.queue.len()
            invariant
                self@.wf(),
                index <= self.queue.len(),
                r@ == with_queue(leading, self@.queue, index as nat),
            decreases self.queue.len() - index,
        {
            assert(self@.queue[index as int] < self@.count());
            let key = text::numbered("queue_", index as u64 + 1);
            r.insert(key.as_str(), Value::Int((self.queue[index] + 1) as i64));
            index = index + 1;
        }
        r
    }

    fn ranged(&self, state: &StateMap, key: &str, min: i64) -> (r: Result<i64, StateError>)
        requires
            0 <= min,
        ensures
            table::agrees(r, ranged_field(state@, self@.name, key@, min as int, self@.count())),
            r matches Ok(value) ==> min <= value <= self@.count(),
    {
        let value: i64 = state.require_i64(self.name.as_str(), key)?;
        if value < min || value as u64 > self.filters.len() as u64 {
            return Err(table::invalid_value(self.name.as_str(), key, Value::Int(value)));
        }
        Ok(value)
    }

    fn restore_config(&self, state: &StateMap) -> (r: Result<
        BackwashCoordinatorConfig,
        StateError,
    >)
        ensures
            table::agrees(r, restored_config(state@, self@.name)),
    {
        let name = self.name.as_str();
        let policy: i64 = state.require_i64(name, "queue_policy")?;
        let queue_policy = match QueuePolicy::decode(policy) {
            Some(queue_policy) => queue_policy,
            None => {
                return Err(table::invalid_value(name, "queue_policy", Value::Int(policy)));
            },
        };
        let code: i64 = state.require_i64(name, "queued_state")?;
        match QueuedState::decode(code) {
            Some(queued_state) => Ok(BackwashCoordinatorConfig { queue_policy, queued_state }),
            None => Err(table::invalid_value(name, "queued_state", Value::Int(code))),
        }
    }

    fn restore_queue(&self, state: &StateMap, members: i64) -> (r: Result<Vec<usize>, StateError>)
        requires
            0 <= members <= self@.count(),
        ensures
            match r {
                Ok(queue) => restored_queue(state@, self@.name, self@.count(), members as nat)
                    == Ok::<Seq<usize>, StateErrorView>(queue@) && queue@.no_duplicates()
                    && queue@.len() == members && forall|k: int|
                    0 <= k < queue@.len() ==> (#[trigger] queue@[k]) < self@.count(),
                Err(error) => restored_queue(state@, self@.name, self@.count(), members as nat)
                    == Err::<Seq<usize>, StateErrorView>(error@),
            },
    {
        let mut queue: Vec<usize> = Vec::new();
        while (queue.len() as u64) < members as u64
            invariant
                queue@.len() <= members <= self@.count(),
                restored_queue(state@, self@.name, self@.count(), queue@.len()) == Ok::<
                    Seq<usize>,
                    StateErrorView,
                >(queue@),
                queue@.no_duplicates(),
                forall|k: int|
                    0 <= k < queue@.len() ==> (#[trigger] queue@[k]) < self@.count(),
            decreases members - queue@.len(),
        {
            let key = text::numbered("queue_", queue.len() as u64 + 1);
            let ghost done = queue@.len() + 1;
            proof {
                if restored_queue(state@, self@.name, self@.count(), done) is Err {
                    lemma_first_queue_refusal(
                        state@,
                        self@.name,
                        self@.count(),
                        done,
                        members as nat,
                    );
                }
            }
            let member: i64 = self.ranged(state, key.as_str(), 1)?;
            let filter: usize = (member - 1) as usize;
            if holds(&queue, filter) {
                return Err(
                    table::invalid_value(self.name.as_str(), key.as_str(), Value::Int(member)),
                );
            }
            let ghost before = queue@;
            queue.push(filter);
            assert(before.push(filter).no_duplicates());
        }
        Ok(queue)
    }

    /// Takes over a checkpoint. The whole checkpoint is read before anything
    /// changes, so a refused one leaves the coordinator as it was.
    pub fn restore_state(&mut self, state: &StateMap) -> (r: Result<(), StateError>)
        requires
            old(self)@.wf(),
        ensures
            final(self)@.wf(),
            match r {
                Ok(_) => old(self)@.restored(state.keys(), state@) == Ok::<
                    CoordinatorView,
                    StateErrorView,
                >(final(self)@),
                Err(error) => old(self)@.restored(state.keys(), state@) == Err::<
                    CoordinatorView,
                    StateErrorView,
                >(error@) && final(self)@ == old(self)@,
            },
    {
        let members: i64 = self.ranged(state, "queued_count", 0)?;
        let known = known_names(members);
        state.ensure_known_fields(self.name.as_str(), &known)?;
        let config = self.restore_config(state)?;
        let granted: i64 = self.ranged(state, "granted", 0)?;
        let queue = self.restore_queue(state, members)?;
        if granted > 0 && holds(&queue, (granted - 1) as usize) {
            return Err(table::invalid_value(self.name.as_str(), "granted", Value::Int(granted)));
        }
        self.config = config;
        self.granted = if granted == 0 {
            None
        } else {
            Some((granted - 1) as usize)
        };
        self.queue = queue;
        Ok(())
    }
}

/// Whether a list holds a filter.
fn holds(queue: &Vec<usize>, filter: usize) -> (r: bool)
    ensures
        r == queue@.contains(filter),
{
    let mut at: usize = 0;
    while at < queue.len()
        invariant
            at <= queue.len(),
            forall|k: int| 0 <= k < at ==> queue@[k] != filter,
        decreases queue.len() - at,
    {
        if queue[at] == filter {
            assert(queue@[at as int] == filter);
            return true;
        }
        at = at + 1;
    }
    false
}

/// The names that a checkpoint with so many queue members holds.
fn known_names(members: i64) -> (r: Vec<String>)
    requires
        0 <= members,
    ensures
        text::views(r@) == queue_names(members as nat),
{
    let mut r: Vec<String> = Vec::new();
    r.push("queue_policy".to_owned());
    r.push("queued_state".to_owned());
    r.push("granted".to_owned());
    r.push("queued_count".to_owned());
    assert(text::views(r@) == queue_names(0));
    let mut done: i64 = 0;
    while done < members
        invariant
            0 <= done <= members,
            text::views(r@) == queue_names(done as nat),
        decreases members - done,
    {
        done = done + 1;
        r.push(text::numbered("queue_", done as u64));
        assert(text::views(r@) == queue_names(done as nat));
    }
    r
}

/// A refusal found stays the first one.
proof fn lemma_first_queue_refusal(
    fields: Map<Seq<char>, Value>,
    name: Seq<char>,
    count: int,
    found: nat,
    all: nat,
)
    requires
        restored_queue(fields, name, count, found) is Err,
        found <= all,
    ensures
        restored_queue(fields, name, count, all) == restored_queue(fields, name, count, found),
    decreases all,
{
    if found < all {
        lemma_first_queue_refusal(fields, name, count, found, (all - 1) as nat);
    }
}

/// What stands in the queue after drop-outs: the members that still
/// request, each at most once.
pub proof fn lemma_standing(queue: Seq<usize>, scan: CoordinatorReadings, count: int)
    requires
        queue.no_duplicates(),
        forall|k: int| 0 <= k < queue.len() ==> (#[trigger] queue[k]) < count,
    ensures
        standing(queue, scan).no_duplicates(),
        standing(queue, scan).len() <= queue.len(),
        forall|k: int|
            0 <= k < standing(queue, scan).len() ==> (#[trigger] standing(queue, scan)[k]) < count,
        forall|m: usize| #[trigger]
            standing(queue, scan).contains(m) <==> queue.contains(m) && scan.requesting(m as int),
    decreases queue.len(),
{
    if queue.len() > 0 {
        let earlier = queue.drop_last();
        lemma_standing(earlier, scan, count);
        let kept = standing(earlier, scan);
        let all = standing(queue, scan);
        let last = queue.last();
        assert(!earlier.contains(last));
        assert forall|m: usize| #[trigger] all.contains(m) <==> queue.contains(m)
            && scan.requesting(m as int) by {
            lemma_pushed(earlier, last, m);
            lemma_pushed(kept, last, m);
            assert(queue == earlier.push(last));
        }
        assert(!kept.contains(last));
    }
}

proof fn lemma_pushed(queue: Seq<usize>, last: usize, m: usize)
    ensures
        queue.push(last).contains(m) <==> queue.contains(m) || m == last,
{
    let more = queue.push(last);
    if queue.contains(m) {
        let k = queue.index_of(m);
        assert(more[k] == m);
    }
    assert(more[queue.len() as int] == last);
    if more.contains(m) {
        let k = more.index_of(m);
        if k < queue.len() {
            assert(queue[k] == m);
        }
    }
}

/// What the insertion of a filter that was not there does to a list.
pub proof fn lemma_inserted(queue: Seq<usize>, at: int, filter: usize, m: usize)
    requires
        0 <= at <= queue.len(),
    ensures
        queue.insert(at, filter).contains(m) <==> queue.contains(m) || m == filter,
        queue.no_duplicates() && !queue.contains(filter) ==> queue.insert(
            at,
            filter,
        ).no_duplicates(),
{
    let more = queue.insert(at, filter);
    assert(more[at] == filter);
    if queue.contains(m) {
        let k = queue.index_of(m);
        if k < at {
            assert(more[k] == m);
        } else {
            assert(more[k + 1] == m);
        }
    }
    if more.contains(m) {
        let k = more.index_of(m);
        if k < at {
            assert(queue[k] == m);
        } else if k > at {
            assert(queue[k - 1] == m);
        }
    }
    if queue.no_duplicates() && !queue.contains(filter) {
        assert forall|i: int, j: int| 0 <= i < more.len() && 0 <= j < more.len() && i != j implies
            more[i] != more[j] by {
            let a = if i < at {
                i
            } else {
                i - 1
            };
            let b = if j < at {
                j
            } else {
                j - 1
            };
            if i != at {
                assert(more[i] == queue[a]);
            }
            if j != at {
                assert(more[j] == queue[b]);
            }
        }
    }
}

/// The place before the first higher-numbered member lies in the queue, and
/// no member before it is higher-numbered.
pub proof fn lemma_first_above(queue: Seq<usize>, filter: usize, from: int)
    requires
        0 <= from <= queue.len(),
    ensures
        from <= first_above(queue, filter, from) <= queue.len(),
        forall|k: int|
            from <= k < first_above(queue, filter, from) ==> #[trigger] queue[k] <= filter,
        first_above(queue, filter, from) < queue.len() ==> queue[first_above(queue, filter, from)]
            > filter,
    decreases queue.len() - from,
{
    if from < queue.len() && queue[from] <= filter {
        lemma_first_above(queue, filter, from + 1);
    }
}

/// What one more filter does to the queue.
pub proof fn lemma_joined_by(queue: Seq<usize>, filter: usize, policy: QueuePolicy, count: int)
    requires
        queue.no_duplicates(),
        !queue.contains(filter),
        filter < count,
        forall|k: int| 0 <= k < queue.len() ==> (#[trigger] queue[k]) < count,
    ensures
        ({
            let after = joined_by(queue, filter, policy);
            &&& after.no_duplicates()
            &&& after.len() == queue.len() + 1
            &&& forall|k: int| 0 <= k < after.len() ==> (#[trigger] after[k]) < count
            &&& forall|m: usize| #[trigger]
                after.contains(m) <==> queue.contains(m) || m == filter
        }),
{
    let after = joined_by(queue, filter, policy);
    let at = match policy {
        QueuePolicy::PriorityByTrigger => first_above(queue, filter, 0),
        _ => queue.len() as int,
    };
    lemma_first_above(queue, filter, 0);
    assert(after == queue.insert(at, filter));
    assert forall|m: usize| #[trigger] after.contains(m) <==> queue.contains(m) || m == filter by {
        lemma_inserted(queue, at, filter, m);
    }
    lemma_inserted(queue, at, filter, filter);
    assert forall|k: int| 0 <= k < after.len() implies (#[trigger] after[k]) < count by {
        if k < at {
            assert(after[k] == queue[k]);
        } else if k > at {
            assert(after[k] == queue[k - 1]);
        }
    }
}

/// What the arrivals among the first `done` filters do to the queue.
pub proof fn lemma_joined(
    kept: Seq<usize>,
    scan: CoordinatorReadings,
    holder: Option<usize>,
    policy: QueuePolicy,
    done: nat,
    count: int,
)
    requires
        done <= count <= usize::MAX,
        kept.no_duplicates(),
        forall|k: int| 0 <= k < kept.len() ==> (#[trigger] kept[k]) < count,
        holder matches Some(h) ==> !kept.contains(h),
    ensures
        ({
            let queue = joined(kept, scan, holder, policy, done);
            &&& queue.no_duplicates()
            &&& queue.len() >= kept.len()
            &&& forall|k: int| 0 <= k < queue.len() ==> (#[trigger] queue[k]) < count
            &&& forall|m: usize| #[trigger]
                queue.contains(m) <==> kept.contains(m) || (m < done && scan.requesting(m as int)
                    && holder != Some(m))
        }),
    decreases done,
{
    if done > 0 {
        lemma_joined(kept, scan, holder, policy, (done - 1) as nat, count);
        let earlier = joined(kept, scan, holder, policy, (done - 1) as nat);
        let filter = (done - 1) as usize;
        if scan.requesting(done - 1) && holder != Some(filter) && !earlier.contains(filter) {
            lemma_joined_by(earlier, filter, policy, count);
        }
    }
}

/// What the instruction does to the queue: its members stay the same.
pub proof fn lemma_reordered(queue: Seq<usize>, instruction: Option<usize>, count: int)
    requires
        queue.no_duplicates(),
        forall|k: int| 0 <= k < queue.len() ==> (#[trigger] queue[k]) < count,
    ensures
        ({
            let after = reordered(queue, instruction);
            &&& after.no_duplicates()
            &&& after.len() == queue.len()
            &&& forall|k: int| 0 <= k < after.len() ==> (#[trigger] after[k]) < count
            &&& forall|m: usize| #[trigger] after.contains(m) <==> queue.contains(m)
        }),
{
    if instruction is Some && queue.contains(instruction->0) {
        let target = instruction->0;
        let at = queue.index_of(target);
        let rest = queue.remove(at);
        let after = rest.insert(0, target);
        assert(queue[at] == target);
        assert(!rest.contains(target)) by {
            if rest.contains(target) {
                let k = rest.index_of(target);
                if k < at {
                    assert(queue[k] == target);
                } else {
                    assert(queue[k + 1] == target);
                }
            }
        }
        assert(rest.no_duplicates()) by {
            assert forall|i: int, j: int|
                0 <= i < rest.len() && 0 <= j < rest.len() && i != j implies rest[i] != rest[j] by {
                let a = if i < at {
                    i
                } else {
                    i + 1
                };
                let b = if j < at {
                    j
                } else {
                    j + 1
                };
                assert(rest[i] == queue[a] && rest[j] == queue[b]);
            }
        }
        lemma_inserted(rest, 0, target, target);
        assert forall|m: usize| #[trigger] after.contains(m) <==> queue.contains(m) by {
            lemma_inserted(rest, 0, target, m);
            if queue.contains(m) && m != target {
                let k = queue.index_of(m);
                if k < at {
                    assert(rest[k] == m);
                } else {
                    assert(rest[k - 1] == m);
                }
            }
            if rest.contains(m) {
                let k = rest.index_of(m);
                if k < at {
                    assert(queue[k] == m);
                } else {
                    assert(queue[k + 1] == m);
                }
            }
        }
        assert forall|k: int| 0 <= k < after.len() implies (#[trigger] after[k]) < count by {
            if k > 0 {
                if k - 1 < at {
                    assert(after[k] == queue[k - 1]);
                } else {
                    assert(after[k] == queue[k]);
                }
            }
        }
    }
}

/// A list of filters without repetition is no longer than the filters are
/// many.
pub proof fn lemma_length(queue: Seq<usize>, count: int)
    requires
        0 <= count,
        queue.no_duplicates(),
        forall|k: int| 0 <= k < queue.len() ==> (#[trigger] queue[k]) < count,
    ensures
        queue.len() <= count,
    decreases count,
{
    if count == 0 {
        if queue.len() > 0 {
            assert(queue[0] < 0);
        }
    } else {
        let top = (count - 1) as usize;
        if queue.contains(top) {
            let at = queue.index_of(top);
            let rest = queue.remove(at);
            assert forall|k: int| 0 <= k < rest.len() implies (#[trigger] rest[k]) < count - 1 by {
                let a = if k < at {
                    k
                } else {
                    k + 1
                };
                assert(rest[k] == queue[a]);
                assert(queue[a] != queue[at]);
            }
            assert forall|i: int, j: int|
                0 <= i < rest.len() && 0 <= j < rest.len() && i != j implies rest[i] != rest[j] by {
                let a = if i < at {
                    i
                } else {
                    i + 1
                };
                let b = if j < at {
                    j
                } else {
                    j + 1
                };
                assert(rest[i] == queue[a] && rest[j] == queue[b]);
            }
            lemma_length(rest, count - 1);
        } else {
            assert forall|k: int| 0 <= k < queue.len() implies (#[trigger] queue[k]) < count - 1 by {
                assert(queue.contains(queue[k]));
            }
            lemma_length(queue, count - 1);
        }
    }
}

/// What is left of a queue when its head leaves.
pub proof fn lemma_head_leaves(queue: Seq<usize>)
    requires
        queue.len() > 0,
        queue.no_duplicates(),
    ensures
        queue.remove(0).no_duplicates(),
        !queue.remove(0).contains(queue[0]),
        forall|m: usize| #[trigger]
            queue.remove(0).contains(m) <==> queue.contains(m) && m != queue[0],
{
    let rest = queue.remove(0);
    assert forall|m: usize| #[trigger] rest.contains(m) <==> queue.contains(m) && m != queue[0] by {
        if rest.contains(m) {
            let k = rest.index_of(m);
            assert(queue[k + 1] == m);
        }
        if queue.contains(m) && m != queue[0] {
            let k = queue.index_of(m);
            assert(rest[k - 1] == m);
        }
    }
}

/// The role hints follow the ports one by one.
proof fn lemma_roles_follow_ports(coordinator: CoordinatorView)
    ensures
        hints_declared(coordinator.requirements(), coordinator.roles()),
{
    lemma_filter_roles(
        coordinator.leading_ports(),
        coordinator.leading_roles(),
        coordinator.filters,
        coordinator.filters.len(),
    );
    describe::parallel_hints(coordinator.requirements(), coordinator.roles());
}

proof fn lemma_filter_roles(
    ports: Seq<RequirementView>,
    roles: Seq<(Seq<char>, PortRole)>,
    filters: Seq<FilterIo>,
    done: nat,
)
    requires
        ports.len() == roles.len(),
        forall|i: int| 0 <= i < roles.len() ==> (#[trigger] roles[i]).0 == ports[i].name,
    ensures
        ({
            let all = filter_roles(roles, done);
            &&& filter_ports(ports, filters, done).len() == all.len()
            &&& forall|i: int|
                0 <= i < all.len() ==> (#[trigger] all[i]).0 == filter_ports(
                    ports,
                    filters,
                    done,
                )[i].name
        }),
    decreases done,
{
    if done > 0 {
        lemma_filter_roles(ports, roles, filters, (done - 1) as nat);
    }
}

} // verus!
