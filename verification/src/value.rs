//! The plain values that blocks exchange with the points they are wired to.

use crate::float::Float;
use vstd::prelude::*;

verus! {

/// The identity of one wired point.
#[derive(Debug, Clone, Copy, PartialEq, Eq, Structural)]
pub struct PointId(pub u64);

/// One scan of the executor, numbered from one: zero stands before the first
/// scan, and where a scan is remembered it means that there was none.
#[derive(Debug, Clone, Copy, PartialEq, Eq, Structural)]
pub struct Tick(pub u64);

/// Why a sample is not `Good`.
#[derive(Debug, Clone, Copy, PartialEq, Eq, Structural)]
pub enum QualityReason {
    /// The value has not been refreshed recently enough.
    Stale,
    /// The value was entered in place of the measured one.
    Substituted,
    /// The value lies outside the range it is declared for.
    OutOfRange,
    /// The device behind the point reports, or shows, a fault.
    DeviceFault,
    /// The value could not be fetched.
    CommunicationFault,
    /// The point is not set up consistently.
    ConfigurationFault,
}

/// How far a sample can be trusted.
#[derive(Debug, Clone, Copy, PartialEq, Eq, Structural)]
pub enum Quality {
    Good,
    Uncertain(QualityReason),
    Bad(QualityReason),
}

impl Quality {
    /// The rank the worst-of merge goes by: `Good`, then `Uncertain`, then
    /// `Bad`.
    pub open spec fn severity(self) -> int {
        match self {
            Quality::Good => 0,
            Quality::Uncertain(_) => 1,
            Quality::Bad(_) => 2,
        }
    }

    /// The worse of the two; between two of one rank, the second.
    pub open spec fn spec_merge(self, other: Quality) -> Quality {
        if other.severity() >= self.severity() {
            other
        } else {
            self
        }
    }

    /// Whether the sample is trusted without reservation.
    pub fn is_good(self) -> (r: bool)
        ensures
            r == (self == Quality::Good),
    {
        match self {
            Quality::Good => true,
            _ => false,
        }
    }

    /// Merges two qualities into the worse one. Where both have the same
    /// rank, the second one's reason is kept.
    pub fn merge(self, other: Quality) -> (r: Quality)
        ensures
            r == self.spec_merge(other),
    {
        match self {
            Quality::Good => other,
            Quality::Uncertain(_) => match other {
                Quality::Good => self,
                _ => other,
            },
            Quality::Bad(_) => match other {
                Quality::Bad(_) => other,
                _ => self,
            },
        }
    }
}

/// The kind of value a point, a parameter or a state field carries.
#[derive(Debug, Clone, Copy, PartialEq, Eq, Structural)]
pub enum ValueKind {
    Bool,
    Int,
    Float,
}

/// One value.
#[derive(Debug, Clone, Copy, PartialEq, Eq, Structural)]
pub enum Value {
    Bool(bool),
    Int(i64),
    Float(Float),
}

impl Value {
    /// The kind of the value.
    pub open spec fn spec_kind(self) -> ValueKind {
        match self {
            Value::Bool(_) => ValueKind::Bool,
            Value::Int(_) => ValueKind::Int,
            Value::Float(_) => ValueKind::Float,
        }
    }

    /// The kind of the value.
    pub fn kind(self) -> (r: ValueKind)
        ensures
            r == self.spec_kind(),
    {
        match self {
            Value::Bool(_) => ValueKind::Bool,
            Value::Int(_) => ValueKind::Int,
            Value::Float(_) => ValueKind::Float,
        }
    }
}

/// A value as it stands on a point: how far it is trusted, and the scan it
/// belongs to.
#[derive(Debug, Clone, Copy, PartialEq, Eq, Structural)]
pub struct Sample {
    pub value: Value,
    pub quality: Quality,
    pub tick: Tick,
}

impl Sample {
    /// The sample with the given parts.
    pub open spec fn of(value: Value, quality: Quality, tick: Tick) -> Sample {
        Sample { value, quality, tick }
    }

    /// Builds a sample.
    pub fn new(value: Value, quality: Quality, tick: Tick) -> (r: Sample)
        ensures
            r == Sample::of(value, quality, tick),
    {
        Sample { value, quality, tick }
    }

    /// Builds a trusted sample.
    pub fn good(value: Value, tick: Tick) -> (r: Sample)
        ensures
            r == Sample::of(value, Quality::Good, tick),
    {
        Sample { value, quality: Quality::Good, tick }
    }
}

/// What a block reads from a point of a known kind.
#[derive(Debug, Clone, Copy, PartialEq, Eq)]
pub struct Reading<T> {
    pub value: T,
    pub quality: Quality,
}

/// The worst of the readings' qualities, folded in their order; `Good`
/// where there is none.
pub open spec fn worst_reading<T>(readings: Seq<Reading<T>>) -> Quality
    decreases readings.len(),
{
    if readings.len() == 0 {
        Quality::Good
    } else {
        worst_reading(readings.drop_last()).spec_merge(readings.last().quality)
    }
}

impl Reading<bool> {
    /// Whether the reading is `true` and trusted.
    pub open spec fn trusted(self) -> bool {
        self.value && self.quality == Quality::Good
    }

    /// Whether the reading is `true` and trusted.
    pub fn is_trusted(self) -> (r: bool)
        ensures
            r == self.trusted(),
    {
        self.value && self.quality.is_good()
    }
}

impl Reading<Float> {
    /// Whether the reading is finite and trusted.
    pub open spec fn usable(self) -> bool {
        self.quality == Quality::Good && self.value.finite()
    }

    /// Whether the reading is finite and trusted.
    pub fn is_usable(self) -> (r: bool)
        ensures
            r == self.usable(),
    {
        self.quality.is_good() && self.value.is_finite()
    }
}

/// The worst of two readings' qualities, where a value that is not finite
/// counts as a device fault.
pub open spec fn pair_quality(first: Reading<Float>, second: Reading<Float>) -> Quality {
    let merged = first.quality.spec_merge(second.quality);
    if first.value.finite() && second.value.finite() {
        merged
    } else {
        merged.spec_merge(Quality::Bad(QualityReason::DeviceFault))
    }
}

/// The worst of two readings' qualities, where a value that is not finite
/// counts as a device fault.
pub fn merged_quality(first: Reading<Float>, second: Reading<Float>) -> (r: Quality)
    ensures
        r == pair_quality(first, second),
{
    let merged = first.quality.merge(second.quality);
    if first.value.is_finite() && second.value.is_finite() {
        merged
    } else {
        merged.merge(Quality::Bad(QualityReason::DeviceFault))
    }
}

/// A sample that a block drives onto one of its output points.
#[derive(Debug, Clone, Copy, PartialEq, Eq, Structural)]
pub struct Write {
    pub point: PointId,
    pub sample: Sample,
}

impl Write {
    /// The write of the given sample to `point`.
    pub open spec fn of(point: PointId, value: Value, quality: Quality, tick: Tick) -> Write {
        Write { point, sample: Sample::of(value, quality, tick) }
    }

    /// Builds a write.
    pub fn new(point: PointId, value: Value, quality: Quality, tick: Tick) -> (r: Write)
        ensures
            r == Write::of(point, value, quality, tick),
    {
        Write { point, sample: Sample::new(value, quality, tick) }
    }
}

/// Merging qualities is associative, so the worst of many inputs does not
/// depend on how the merge is grouped.
pub proof fn merge_is_associative(a: Quality, b: Quality, c: Quality)
    ensures
        a.spec_merge(b).spec_merge(c) == a.spec_merge(b.spec_merge(c)),
{
}

/// A merged quality is one of the two, and as bad as the worse of them.
pub proof fn merge_is_worst_of(a: Quality, b: Quality)
    ensures
        a.spec_merge(b) == a || a.spec_merge(b) == b,
        a.spec_merge(b).severity() >= a.severity(),
        a.spec_merge(b).severity() >= b.severity(),
        a.spec_merge(b) == Quality::Good <==> a == Quality::Good && b == Quality::Good,
{
}

/// The worst of some readings is as bad as each of them, and `Good` exactly
/// where all of them are.
pub proof fn worst_reading_is_worst<T>(readings: Seq<Reading<T>>)
    ensures
        forall|i: int|
            0 <= i < readings.len() ==> (#[trigger] readings[i]).quality.severity()
                <= worst_reading(readings).severity(),
        worst_reading(readings) == Quality::Good <==> forall|i: int|
            0 <= i < readings.len() ==> (#[trigger] readings[i]).quality == Quality::Good,
    decreases readings.len(),
{
    if readings.len() > 0 {
        let earlier = readings.drop_last();
        worst_reading_is_worst(earlier);
        merge_is_worst_of(worst_reading(earlier), readings.last().quality);
        assert forall|i: int| 0 <= i < readings.len() implies (
        #[trigger] readings[i]).quality.severity() <= worst_reading(readings).severity() by {
            if i < earlier.len() {
                assert(earlier[i] == readings[i]);
            }
        }
        if worst_reading(readings) != Quality::Good && readings.last().quality == Quality::Good {
            let i = choose|i: int|
                0 <= i < earlier.len() && (#[trigger] earlier[i]).quality != Quality::Good;
            assert(readings[i].quality != Quality::Good);
        }
    }
}

/// Of two qualities the worse one stands: anything but `Good` over `Good`,
/// `Bad` over `Uncertain`, and between two of one rank the second.
pub proof fn merging_keeps_the_worse(
    a: Quality,
    b: Quality,
    first: QualityReason,
    second: QualityReason,
)
    ensures
        Quality::Good.spec_merge(b) == b,
        a.spec_merge(Quality::Good) == a,
        Quality::Uncertain(first).spec_merge(Quality::Bad(second)) == Quality::Bad(second),
        Quality::Bad(first).spec_merge(Quality::Uncertain(second)) == Quality::Bad(first),
        Quality::Uncertain(first).spec_merge(Quality::Uncertain(second)) == Quality::Uncertain(
            second,
        ),
        Quality::Bad(first).spec_merge(Quality::Bad(second)) == Quality::Bad(second),
        Quality::Good.severity() < Quality::Uncertain(first).severity(),
        Quality::Uncertain(first).severity() < Quality::Bad(second).severity(),
{
}

/// A truth value is trusted exactly where it reads `true` and `Good`. A
/// double is usable exactly where it is finite and `Good`.
pub proof fn trust_takes_the_value_and_the_quality(flag: Reading<bool>, number: Reading<Float>)
    ensures
        flag.trusted() <==> flag.value && flag.quality is Good,
        number.usable() <==> number.value.finite() && number.quality is Good,
{
}

/// The quality of two measurements together. A value that is not finite is a
/// device fault, whatever the qualities; otherwise `Good` gives way to the
/// other one, a `Bad` to no `Uncertain`, and between two of one rank the
/// second stands.
pub proof fn pairs_carry_the_worse_quality(first: Reading<Float>, second: Reading<Float>)
    ensures
        ({
            let pair = pair_quality(first, second);
            let finite = first.value.finite() && second.value.finite();
            &&& !finite ==> pair == Quality::Bad(QualityReason::DeviceFault)
            &&& finite && first.quality is Good ==> pair == second.quality
            &&& finite && second.quality is Good ==> pair == first.quality
            &&& finite && second.quality is Bad ==> pair == second.quality
            &&& finite && first.quality is Bad && second.quality is Uncertain ==> pair
                == first.quality
            &&& finite && first.quality is Uncertain && second.quality is Uncertain ==> pair
                == second.quality
        }),
{
}

/// The worst of some readings is the quality of one of them, or `Good` where
/// there is none: no reading is better than it says, and none after it is as
/// bad.
pub proof fn worst_reading_is_the_last_of_the_worst<T>(readings: Seq<Reading<T>>) -> (at: int)
    ensures
        readings.len() == 0 ==> worst_reading(readings) == Quality::Good,
        readings.len() > 0 ==> 0 <= at < readings.len() && worst_reading(readings)
            == readings[at].quality && forall|i: int|
            at < i < readings.len() ==> (#[trigger] readings[i]).quality.severity()
                < readings[at].quality.severity(),
    decreases readings.len(),
{
    if readings.len() == 0 {
        0
    } else {
        let earlier = readings.drop_last();
        let found = worst_reading_is_the_last_of_the_worst(earlier);
        let last = readings.last().quality;
        if earlier.len() == 0 || last.severity() >= worst_reading(earlier).severity() {
            readings.len() - 1
        } else {
            assert forall|i: int| found < i < readings.len() implies (
            #[trigger] readings[i]).quality.severity() < readings[found].quality.severity() by {
                if i < earlier.len() {
                    assert(earlier[i] == readings[i]);
                }
            }
            found
        }
    }
}

/// A write puts exactly the given value, quality and scan on the given point,
/// and a value's kind is that of its variant.
pub proof fn writes_hold_their_parts(point: PointId, value: Value, quality: Quality, tick: Tick)
    ensures
        ({
            let write = Write::of(point, value, quality, tick);
            &&& write.point == point && write.sample.tick == tick
            &&& write.sample.value == value && write.sample.quality == quality
            &&& Sample::of(value, quality, tick) == write.sample
        }),
        value.spec_kind() == ValueKind::Bool <==> value is Bool,
        value.spec_kind() == ValueKind::Int <==> value is Int,
        value.spec_kind() == ValueKind::Float <==> value is Float,
{
}

} // verus!
