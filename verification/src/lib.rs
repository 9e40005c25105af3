//! Control blocks for a scanned process-control runtime.
//!
//! A block reads its input points once per scan, decides, and drives its
//! output points. Here every block is a state machine on plain values: a
//! scan takes what the inputs read and gives back the writes, in order.
//! Points, their wiring and the executor belong to whoever runs the blocks,
//! and so does floating-point arithmetic; the blocks compare, select and
//! bound doubles by their bit patterns.
//!
//! Each block has a view that says what it is. Its constructors, scans,
//! retunes, descriptions and checkpoints are stated over that view, and the
//! public proof functions say what holds of all of them together.

pub mod alarm_monitor;
pub mod analog_input;
pub mod analog_output;
pub mod backwash_coordinator;
pub mod backwash_sequence;
pub mod blower_group;
pub mod blower_laws;
pub mod blower_model;
pub mod blower_scan_laws;
pub mod blower_tuning_laws;
pub mod bool_gate;
pub mod bool_latching_alarm;
pub mod coordinator_laws;
pub mod counter;
pub mod demand_fallback;
pub mod describe;
pub mod deviation_monitor;
pub mod digital_input;
pub mod digital_output;
pub mod edge_trigger;
pub mod failover_select;
pub mod feedforward_sum;
pub mod float;
pub mod gate_laws;
pub mod params;
pub mod refusal_laws;
pub mod sequence_laws;
pub mod sequence_model;
pub mod sequence_tuning_laws;
pub mod table;
pub mod text;
pub mod value;

pub use crate::alarm_monitor::{AlarmLimits, AlarmMonitor};
pub use crate::analog_input::{AnalogInput, RawInput, Scaling};
pub use crate::analog_output::{AnalogOutput, RawOutput};
pub use crate::backwash_coordinator::{
    BackwashCoordinator, BackwashCoordinatorConfig, CoordinatorOutputs, CoordinatorReadings,
    FilterIo, PermissiveInputs, QueuePolicy, QueuedState,
};
pub use crate::backwash_sequence::{
    AdvanceMode, AutoStart, BackwashSequence, BackwashSequenceConfig, BackwashSequenceInputs,
    BackwashSequenceOutputs, BackwashStep, FaultPolicy, OverrunPolicy, SequenceReadings,
};
pub use crate::blower_group::{
    BlowerGroup, BlowerGroupConfig, BlowerIo, BlowerOutputs, BlowerReadings, BlowerRotation,
    StagingAuthority, UnitBounds, UnitReadings,
};
pub use crate::bool_gate::{BoolGate, GateOperation};
pub use crate::bool_latching_alarm::BoolLatchingAlarm;
pub use crate::counter::Counter;
pub use crate::demand_fallback::{
    DemandFallback, DemandFallbackConfig, DemandFallbackIo, FallbackResponse,
};
pub use crate::describe::{
    ComponentDescriptor, Direction, IoRequirement, ParameterDescriptor, ParameterRange,
    PortDescriptor, PortRole,
};
pub use crate::deviation_monitor::{DeviationMonitor, WindowSums};
pub use crate::digital_input::DigitalInput;
pub use crate::digital_output::DigitalOutput;
pub use crate::edge_trigger::{Edge, EdgeTrigger};
pub use crate::failover_select::FailoverSelect;
pub use crate::feedforward_sum::{
    BadTermResponse, FeedforwardSum, FeedforwardSumConfig, FeedforwardSumIo,
};
pub use crate::float::Float;
pub use crate::params::{CommandError, ParameterError, Parameters};
pub use crate::table::{StateError, StateMap};
pub use crate::value::{
    PointId, Quality, QualityReason, Reading, Sample, Tick, Value, ValueKind, Write,
};
