//! Per-entity time series, the playback clock, and liveness resolution.
//!
//! Time is counted in whole ticks of one microsecond, so that every clock
//! step and every window comparison is exact.

use crate::text::{append_seconds_to_millis, seconds_to_millis};
use vstd::prelude::*;
use vstd::string::StringExecFns;

verus! {

/// Clock ticks in one second of recorded time.
pub const TICKS_PER_SECOND: i64 = 1_000_000;

/// How far behind the clock a sample may lie and still count as current:
/// a hundredth of a second. The window is open at its old end, so a sample
/// exactly this old is already stale.
pub const EPSILON: i64 = 10_000;

/// The step a fresh clock advances by on every tick: a hundredth of a second.
pub const DEFAULT_DELTA: i64 = 10_000;

/// The playback cursor, in ticks. Every entity is resolved against this one value.
#[derive(Clone, Copy, Debug, PartialEq, Eq, Structural)]
pub struct Time(pub i64);

/// How the cursor moves on its own: by `delta` ticks per tick of the
/// scheduler (negative runs backwards), unless `paused`.
#[derive(Clone, Copy, Debug, PartialEq, Eq, Structural)]
pub struct TimeFlow {
    pub delta: i64,
    pub paused: bool,
}

/// Whether an entity currently has a sample recent enough to be shown.
#[derive(Clone, Copy, Debug, PartialEq, Eq, Structural)]
pub struct Active(pub bool);

/// The integer nearest to `x` that the cursor can hold.
pub open spec fn clamp_ticks(x: int) -> int {
    if x < i64::MIN {
        i64::MIN as int
    } else if x > i64::MAX {
        i64::MAX as int
    } else {
        x
    }
}

/// A sample stamped `t` is current at `time` when it is not in the future
/// and less than `tolerance` old.
pub open spec fn in_window(t: int, time: int, tolerance: int) -> bool {
    time - tolerance < t <= time
}

/// The values of all samples stamped at or before `time`, in recorded order.
pub open spec fn trail<T>(samples: Seq<(i64, T)>, time: i64) -> Seq<T> {
    samples.filter_map(
        |s: (i64, T)|
            if s.0 <= time {
                Some(s.1)
            } else {
                None
            },
    )
}

/// The position of the last sample that is current at `time`, if any is.
pub open spec fn latest_in_window<T>(samples: Seq<(i64, T)>, time: int, tolerance: int) -> Option<
    int,
>
    decreases samples.len(),
{
    if samples.len() == 0 {
        None
    } else if in_window(samples.last().0 as int, time, tolerance) {
        Some(samples.len() - 1)
    } else {
        latest_in_window(samples.drop_last(), time, tolerance)
    }
}

/// The value an entity shows at `time`: that of its last current sample.
pub open spec fn live_value<T>(samples: Seq<(i64, T)>, time: int, tolerance: int) -> Option<T> {
    match latest_in_window(samples, time, tolerance) {
        Some(i) => Some(samples[i].1),
        None => None,
    }
}

/// Timestamps never decrease along the sequence.
pub open spec fn chronological<T>(samples: Seq<(i64, T)>) -> bool {
    forall|i: int, j: int| 0 <= i <= j < samples.len() ==> samples[i].0 <= samples[j].0
}

/// `latest_in_window` finds a current sample exactly when one exists, and
/// then no later sample is current.
pub proof fn lemma_latest_in_window<T>(samples: Seq<(i64, T)>, time: int, tolerance: int)
    ensures
        match latest_in_window(samples, time, tolerance) {
            Some(i) => {
                &&& 0 <= i < samples.len()
                &&& in_window(samples[i].0 as int, time, tolerance)
                &&& forall|j: int|
                    i < j < samples.len() ==> !in_window(
                        (#[trigger] samples[j]).0 as int,
                        time,
                        tolerance,
                    )
            },
            None => forall|j: int|
                0 <= j < samples.len() ==> !in_window(
                    (#[trigger] samples[j]).0 as int,
                    time,
                    tolerance,
                ),
        },
    decreases samples.len(),
{
    if samples.len() > 0 && !in_window(samples.last().0 as int, time, tolerance) {
        let rest = samples.drop_last();
        lemma_latest_in_window(rest, time, tolerance);
        assert forall|j: int| 0 <= j < rest.len() implies rest[j] == samples[j] by {}
        match latest_in_window(rest, time, tolerance) {
            Some(i) => {
                assert forall|j: int| i < j < samples.len() implies !in_window(
                    (#[trigger] samples[j]).0 as int,
                    time,
                    tolerance,
                ) by {
                    if j < rest.len() {
                        assert(rest[j] == samples[j]);
                    }
                }
            },
            None => {
                assert forall|j: int| 0 <= j < samples.len() implies !in_window(
                    (#[trigger] samples[j]).0 as int,
                    time,
                    tolerance,
                ) by {
                    if j < rest.len() {
                        assert(rest[j] == samples[j]);
                    }
                }
            },
        }
    }
}

/// A sample older than the tolerance is never shown, however recent it is
/// among the samples: the lookup is a window, not a floor.
pub proof fn lemma_stale_is_absent<T>(samples: Seq<(i64, T)>, time: int, tolerance: int)
    requires
        forall|j: int| 0 <= j < samples.len() ==> samples[j].0 <= time - tolerance,
    ensures
        live_value(samples, time, tolerance) is None,
{
    lemma_latest_in_window(samples, time, tolerance);
}

/// Along a chronological series the trail only grows with time: the trail
/// at an earlier instant is a prefix of the trail at any later one.
pub proof fn lemma_trail_extends<T>(samples: Seq<(i64, T)>, earlier: i64, later: i64)
    requires
        chronological(samples),
        earlier <= later,
    ensures
        trail(samples, earlier).is_prefix_of(trail(samples, later)),
    decreases samples.len(),
{
    if samples.len() > 0 {
        let rest = samples.drop_last();
        let last = samples.last();
        if last.0 <= earlier {
            lemma_trail_is_everything(samples, earlier);
            lemma_trail_is_everything(samples, later);
        } else {
            assert(chronological(rest)) by {
                assert forall|i: int, j: int| 0 <= i <= j < rest.len() implies rest[i].0
                    <= rest[j].0 by {
                    assert(rest[i] == samples[i] && rest[j] == samples[j]);
                }
            }
            lemma_trail_extends(rest, earlier, later);
            assert(trail(samples, earlier) == trail(rest, earlier));
        }
    }
}

/// When even the last sample of a chronological series is not after
/// `time`, the trail holds every value.
proof fn lemma_trail_is_everything<T>(samples: Seq<(i64, T)>, time: i64)
    requires
        chronological(samples),
        samples.len() > 0 ==> samples.last().0 <= time,
    ensures
        trail(samples, time) == samples.map_values(|s: (i64, T)| s.1),
    decreases samples.len(),
{
    if samples.len() > 0 {
        let rest = samples.drop_last();
        assert(chronological(rest)) by {
            assert forall|i: int, j: int| 0 <= i <= j < rest.len() implies rest[i].0
                <= rest[j].0 by {
                assert(rest[i] == samples[i] && rest[j] == samples[j]);
            }
        }
        if rest.len() > 0 {
            assert(rest.last() == samples[rest.len() - 1]);
        }
        lemma_trail_is_everything(rest, time);
        assert(trail(samples, time) =~= samples.map_values(|s: (i64, T)| s.1));
    }
}

/// The recorded history of one entity: timestamped samples in the order
/// they were recorded. A series always holds at least one sample.
pub struct TimeSeries<T> {
    history: Vec<(i64, T)>,
}

impl<T> View for TimeSeries<T> {
    type V = Seq<(i64, T)>;

    closed spec fn view(&self) -> Seq<(i64, T)> {
        self.history@
    }
}

impl<T> TimeSeries<T> {
    #[verifier::type_invariant]
    spec fn has_samples(&self) -> bool {
        self.history@.len() > 0
    }

    /// Takes ownership of the samples as they are; nothing is sorted.
    pub fn new(history: Vec<(i64, T)>) -> (series: Self)
        requires
            history@.len() > 0,
        ensures
            series@ == history@,
    {
        TimeSeries { history }
    }

    /// As `new`, for callers that cannot promise a sample: an empty history
    /// makes no series.
    pub fn try_new(history: Vec<(i64, T)>) -> (series: Option<Self>)
        ensures
            match series {
                Some(series) => history@.len() > 0 && series@ == history@,
                None => history@.len() == 0,
            },
    {
        if history.len() == 0 {
            None
        } else {
            Some(TimeSeries { history })
        }
    }

    /// The number of samples, which is never zero.
    pub fn len(&self) -> (n: usize)
        ensures
            n == self@.len(),
            n > 0,
    {
        proof {
            use_type_invariant(self);
        }
        self.history.len()
    }

    /// The value of the first recorded sample.
    pub fn first(&self) -> (value: &T)
        ensures
            self@.len() > 0,
            *value == self@[0].1,
    {
        proof {
            use_type_invariant(self);
        }
        &self.history[0].1
    }

    /// The history up to `time`: every value stamped at or before it, in
    /// recorded order, however old.
    pub fn before(&self, time: i64) -> (values: Vec<&T>)
        ensures
            values@.map_values(|v: &T| *v) == trail(self@, time),
    {
        let mut values: Vec<&T> = Vec::new();
        let mut i: usize = 0;
        while i < self.history.len()
            invariant
                i <= self.history@.len(),
                values@.map_values(|v: &T| *v) == trail(self.history@.take(i as int), time),
            decreases self.history@.len() - i,
        {
            let ghost keep = |s: (i64, T)|
                if s.0 <= time {
                    Some(s.1)
                } else {
                    None
                };
            proof {
                self.history@.lemma_filter_map_take_succ(keep, i as int);
            }
            let ghost seen = values@;
            if self.history[i].0 <= time {
                values.push(&self.history[i].1);
                assert(values@.map_values(|v: &T| *v) =~= seen.map_values(|v: &T| *v).push(
                    self.history@[i as int].1,
                ));
            }
            i += 1;
        }
        assert(self.history@.take(i as int) == self.history@);
        values
    }

    /// The value to show at `time`: that of the last sample stamped at or
    /// before `time` and less than `EPSILON` before it.
    pub fn at_or_before(&self, time: i64) -> (value: Option<&T>)
        ensures
            match value {
                Some(v) => live_value(self@, time as int, EPSILON as int) == Some(*v),
                None => live_value(self@, time as int, EPSILON as int) is None,
            },
    {
        self.at_or_before_within(time, EPSILON)
    }

    /// As `at_or_before`, with the staleness tolerance chosen by the caller.
    /// With a tolerance of zero or less nothing is ever current.
    pub fn at_or_before_within(&self, time: i64, tolerance: i64) -> (value: Option<&T>)
        ensures
            match value {
                Some(v) => live_value(self@, time as int, tolerance as int) == Some(*v),
                None => live_value(self@, time as int, tolerance as int) is None,
            },
    {
        let mut i: usize = self.history.len();
        assert(self.history@.take(i as int) == self.history@);
        while i > 0
            invariant
                i <= self.history@.len(),
                latest_in_window(self.history@, time as int, tolerance as int) == latest_in_window(
                    self.history@.take(i as int),
                    time as int,
                    tolerance as int,
                ),
            decreases i,
        {
            let t: i64 = self.history[i - 1].0;
            assert(self.history@.take(i as int).last() == self.history@[i - 1]);
            if t <= time && (time as i128) - (t as i128) < (tolerance as i128) {
                return Some(&self.history[i - 1].1);
            }
            assert(self.history@.take(i as int).drop_last() == self.history@.take(i - 1));
            i -= 1;
        }
        None
    }
}

impl Default for TimeFlow {
    /// A running clock at the default step.
    fn default() -> (flow: Self)
        ensures
            flow.delta == DEFAULT_DELTA,
            !flow.paused,
    {
        TimeFlow { delta: DEFAULT_DELTA, paused: false }
    }
}

/// Where the cursor stands after one tick of the scheduler.
pub open spec fn ticked(time: Time, flow: TimeFlow) -> Time {
    if flow.paused {
        time
    } else {
        Time(clamp_ticks(time.0 + flow.delta) as i64)
    }
}

/// `a + b`, held at the nearest end of the cursor's range where the sum
/// would leave it.
pub fn saturating_sum(a: i64, b: i64) -> (sum: i64)
    ensures
        sum == clamp_ticks(a + b),
{
    let wide: i128 = (a as i128) + (b as i128);
    if wide > (i64::MAX as i128) {
        i64::MAX
    } else if wide < (i64::MIN as i128) {
        i64::MIN
    } else {
        wide as i64
    }
}

/// `a - b`, held at the nearest end of the cursor's range where the
/// difference would leave it.
pub fn saturating_difference(a: i64, b: i64) -> (difference: i64)
    ensures
        difference == clamp_ticks(a - b),
{
    let wide: i128 = (a as i128) - (b as i128);
    if wide > (i64::MAX as i128) {
        i64::MAX
    } else if wide < (i64::MIN as i128) {
        i64::MIN
    } else {
        wide as i64
    }
}

/// One tick of the scheduler: a running clock moves by its step, a paused
/// one stays where it is.
pub fn advance_time(time: &mut Time, flow: &TimeFlow)
    ensures
        *final(time) == ticked(*old(time), *flow),
{
    if flow.paused {
        return ;
    }
    time.0 = saturating_sum(time.0, flow.delta);
}

/// Resolves one entity against the cursor. With a current sample the
/// entity becomes active and shows a clone of that sample's value; without
/// one it becomes inactive and keeps showing what it showed before.
pub fn update_current_time<T: Clone>(
    time: &Time,
    time_series: &TimeSeries<T>,
    current: &mut T,
    active: &mut Active,
)
    ensures
        match live_value(time_series@, time.0 as int, EPSILON as int) {
            Some(value) => final(active).0 && cloned(value, *final(current)),
            None => !final(active).0 && *final(current) == *old(current),
        },
{
    match time_series.at_or_before(time.0) {
        None => {
            *active = Active(false);
        },
        Some(value) => {
            *active = Active(true);
            *current = value.clone();
        },
    }
}

/// The elapsed-time readout.
#[derive(Clone, Debug, PartialEq, Eq)]
pub struct ElapsedText {
    pub value: String,
}

/// What the elapsed-time readout says at `ticks`: the cursor in seconds,
/// to three decimals.
pub open spec fn elapsed_label(ticks: int) -> Seq<char> {
    "Elapsed: "@ + seconds_to_millis(ticks) + "s"@
}

/// Brings the elapsed-time readout up to the cursor.
pub fn elapsed_text_update(time: &Time, text: &mut ElapsedText)
    ensures
        final(text).value@ == elapsed_label(time.0 as int),
{
    let mut value = String::new();
    value.append("Elapsed: ");
    append_seconds_to_millis(&mut value, time.0);
    value.append("s");
    assert(value@ =~= elapsed_label(time.0 as int));
    text.value = value;
}

} // verus!
