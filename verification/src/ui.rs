//! Operator control of the playback clock.

use crate::text::{append_seconds_exactly, seconds_exactly};
use crate::timeseries::{clamp_ticks, saturating_difference, saturating_sum, ticked, Time, TimeFlow};
use vstd::prelude::*;
use vstd::string::StringExecFns;

verus! {

/// The largest step magnitude that is still adjusted finely.
pub const FINE_LIMIT: i64 = 10_000;

/// The speed adjustment while the step magnitude is at most `FINE_LIMIT`.
pub const FINE_INCREMENT: i64 = 2_000;

/// The speed adjustment above `FINE_LIMIT`.
pub const COARSE_INCREMENT: i64 = 10_000;

/// One operator command to the playback clock.
#[derive(Clone, Copy, Debug, PartialEq, Eq, Structural)]
pub enum Command {
    /// Put the cursor back at zero.
    Reset,
    /// Lower the step by one increment.
    SpeedDown,
    /// Raise the step by one increment.
    SpeedUp,
    /// Move the cursor back by one step.
    StepBackward,
    /// Move the cursor on by one step.
    StepForward,
    /// Pause a running clock, resume a paused one.
    TogglePause,
}

/// The commands given since the last scheduling pass, one flag for each.
#[derive(Clone, Copy, Debug, PartialEq, Eq, Structural)]
pub struct KeyPresses {
    pub reset: bool,
    pub speed_down: bool,
    pub speed_up: bool,
    pub step_backward: bool,
    pub step_forward: bool,
    pub toggle_pause: bool,
}

/// The readout of how the clock is set.
#[derive(Clone, Debug, PartialEq, Eq)]
pub struct TimeControlText {
    pub value: String,
}

/// What the clock readout says of `flow`: the step in seconds, written
/// out exactly, and whether the clock is paused.
pub open spec fn flow_label(flow: TimeFlow) -> Seq<char> {
    "TimeFlow { delta: "@ + seconds_exactly(flow.delta as int) + ", paused: "@ + (if flow.paused {
        "true"@
    } else {
        "false"@
    }) + " }"@
}

/// By how much a speed command changes a step of `delta`: finely while the
/// clock is slow, coarsely once it is fast.
pub open spec fn speed_increment(delta: int) -> int {
    if -FINE_LIMIT <= delta <= FINE_LIMIT {
        FINE_INCREMENT as int
    } else {
        COARSE_INCREMENT as int
    }
}

/// The clock after one command. Speed commands add to or subtract from the
/// signed step, so the step may pass through zero and change direction.
pub open spec fn after_command(command: Command, clock: (Time, TimeFlow)) -> (Time, TimeFlow) {
    let (time, flow) = clock;
    match command {
        Command::Reset => (Time(0), flow),
        Command::SpeedDown => (
            time,
            TimeFlow {
                delta: clamp_ticks(flow.delta - speed_increment(flow.delta as int)) as i64,
                paused: flow.paused,
            },
        ),
        Command::SpeedUp => (
            time,
            TimeFlow {
                delta: clamp_ticks(flow.delta + speed_increment(flow.delta as int)) as i64,
                paused: flow.paused,
            },
        ),
        Command::StepBackward => (Time(clamp_ticks(time.0 - flow.delta) as i64), flow),
        Command::StepForward => (Time(clamp_ticks(time.0 + flow.delta) as i64), flow),
        Command::TogglePause => (time, TimeFlow { delta: flow.delta, paused: !flow.paused }),
    }
}

/// The clock after a run of commands, taken from first to last.
pub open spec fn after_commands(commands: Seq<Command>, clock: (Time, TimeFlow)) -> (
    Time,
    TimeFlow,
)
    decreases commands.len(),
{
    if commands.len() == 0 {
        clock
    } else {
        after_command(commands.last(), after_commands(commands.drop_last(), clock))
    }
}

impl KeyPresses {
    /// No command given: every flag is down.
    pub fn none() -> (keys: Self)
        ensures
            !keys.reset,
            !keys.speed_down,
            !keys.speed_up,
            !keys.step_backward,
            !keys.step_forward,
            !keys.toggle_pause,
            keys.commands() == Seq::<Command>::empty(),
    {
        KeyPresses {
            reset: false,
            speed_down: false,
            speed_up: false,
            step_backward: false,
            step_forward: false,
            toggle_pause: false,
        }
    }

    /// The commands that were given, in the order in which they take
    /// effect: reset, slower, faster, back, forward, pause.
    pub open spec fn commands(self) -> Seq<Command> {
        let c0 = Seq::<Command>::empty();
        let c1 = with_command(c0, self.reset, Command::Reset);
        let c2 = with_command(c1, self.speed_down, Command::SpeedDown);
        let c3 = with_command(c2, self.speed_up, Command::SpeedUp);
        let c4 = with_command(c3, self.step_backward, Command::StepBackward);
        let c5 = with_command(c4, self.step_forward, Command::StepForward);
        with_command(c5, self.toggle_pause, Command::TogglePause)
    }
}

/// `commands`, followed by `command` if it was `given`.
pub open spec fn with_command(commands: Seq<Command>, given: bool, command: Command) -> Seq<
    Command,
> {
    if given {
        commands.push(command)
    } else {
        commands
    }
}

/// The adjustment a speed command makes to a step of `delta`.
pub fn increment_for(delta: i64) -> (increment: i64)
    ensures
        increment == speed_increment(delta as int),
{
    if -FINE_LIMIT <= delta && delta <= FINE_LIMIT {
        FINE_INCREMENT
    } else {
        COARSE_INCREMENT
    }
}

/// Carries out one command on the clock.
pub fn apply_command(command: Command, time: &mut Time, flow: &mut TimeFlow)
    ensures
        (*final(time), *final(flow)) == after_command(command, (*old(time), *old(flow))),
{
    match command {
        Command::Reset => {
            time.0 = 0;
        },
        Command::SpeedDown => {
            flow.delta = saturating_difference(flow.delta, increment_for(flow.delta));
        },
        Command::SpeedUp => {
            flow.delta = saturating_sum(flow.delta, increment_for(flow.delta));
        },
        Command::StepBackward => {
            time.0 = saturating_difference(time.0, flow.delta);
        },
        Command::StepForward => {
            time.0 = saturating_sum(time.0, flow.delta);
        },
        Command::TogglePause => {
            flow.paused = !flow.paused;
        },
    }
}

/// The text of the clock readout for `flow`.
pub fn describe_flow(flow: &TimeFlow) -> (value: String)
    ensures
        value@ == flow_label(*flow),
{
    let mut value = String::new();
    value.append("TimeFlow { delta: ");
    append_seconds_exactly(&mut value, flow.delta);
    value.append(", paused: ");
    if flow.paused {
        value.append("true");
    } else {
        value.append("false");
    }
    value.append(" }");
    assert(value@ =~= flow_label(*flow));
    value
}

/// Carries out everything the operator asked for since the last pass, and
/// brings the clock readout up to date. Several commands given at once
/// take effect in the order of `KeyPresses::commands`.
pub fn time_control(
    keys: &KeyPresses,
    time: &mut Time,
    flow: &mut TimeFlow,
    text: &mut TimeControlText,
)
    ensures
        (*final(time), *final(flow)) == after_commands(keys.commands(), (*old(time), *old(flow))),
        final(text).value@ == flow_label(*final(flow)),
{
    let ghost start = (*time, *flow);
    let ghost mut done = Seq::<Command>::empty();
    if keys.reset {
        apply_command(Command::Reset, time, flow);
        proof {
            lemma_one_more(done, Command::Reset, start);
            done = done.push(Command::Reset);
        }
    }
    if keys.speed_down {
        apply_command(Command::SpeedDown, time, flow);
        proof {
            lemma_one_more(done, Command::SpeedDown, start);
            done = done.push(Command::SpeedDown);
        }
    }
    if keys.speed_up {
        apply_command(Command::SpeedUp, time, flow);
        proof {
            lemma_one_more(done, Command::SpeedUp, start);
            done = done.push(Command::SpeedUp);
        }
    }
    if keys.step_backward {
        apply_command(Command::StepBackward, time, flow);
        proof {
            lemma_one_more(done, Command::StepBackward, start);
            done = done.push(Command::StepBackward);
        }
    }
    if keys.step_forward {
        apply_command(Command::StepForward, time, flow);
        proof {
            lemma_one_more(done, Command::StepForward, start);
            done = done.push(Command::StepForward);
        }
    }
    if keys.toggle_pause {
        apply_command(Command::TogglePause, time, flow);
        proof {
            lemma_one_more(done, Command::TogglePause, start);
            done = done.push(Command::TogglePause);
        }
    }
    text.value = describe_flow(flow);
}

/// Running one more command after a run is running the longer run.
proof fn lemma_one_more(commands: Seq<Command>, next: Command, clock: (Time, TimeFlow))
    ensures
        after_commands(commands.push(next), clock) == after_command(
            next,
            after_commands(commands, clock),
        ),
{
    assert(commands.push(next).drop_last() =~= commands);
}

/// Pausing and resuming undo each other: two toggles in a row leave the
/// clock as it was.
pub proof fn lemma_toggle_twice(clock: (Time, TimeFlow))
    ensures
        after_command(Command::TogglePause, after_command(Command::TogglePause, clock)) == clock,
{
}

/// A paused clock does not move on a tick, whatever its step; in
/// particular not after it was resumed and paused again.
pub proof fn lemma_paused_clock_holds(clock: (Time, TimeFlow))
    requires
        clock.1.paused,
    ensures
        ticked(clock.0, clock.1) == clock.0,
        ({
            let again = after_command(
                Command::TogglePause,
                after_command(Command::TogglePause, clock),
            );
            ticked(again.0, again.1) == clock.0
        }),
{
}

/// `count` single steps forward.
pub open spec fn steps_forward(count: nat) -> Seq<Command> {
    Seq::new(count, |i: int| Command::StepForward)
}

/// Stepping forward `count` times from a reset puts the cursor at `count`
/// steps, as far as the cursor's range reaches.
pub proof fn lemma_steps_from_reset(clock: (Time, TimeFlow), count: nat)
    ensures
        after_commands(seq![Command::Reset] + steps_forward(count), clock) == (
            Time(clamp_ticks(count * clock.1.delta) as i64),
            clock.1,
        ),
    decreases count,
{
    let run = seq![Command::Reset] + steps_forward(count);
    let d = clock.1.delta as int;
    if count == 0 {
        assert(run.drop_last() =~= Seq::<Command>::empty());
        assert(run.last() == Command::Reset);
        assert(after_commands(run.drop_last(), clock) == clock);
        assert(after_commands(run, clock) == after_command(Command::Reset, clock));
        assert(count * d == 0) by (nonlinear_arith)
            requires
                count == 0,
        ;
    } else {
        let shorter = seq![Command::Reset] + steps_forward((count - 1) as nat);
        lemma_steps_from_reset(clock, (count - 1) as nat);
        assert(run.drop_last() =~= shorter);
        assert(run.last() == Command::StepForward);
        let before = after_commands(shorter, clock);
        assert(after_commands(run, clock) == after_command(Command::StepForward, before));
        assert(before == (Time(clamp_ticks((count - 1) * d) as i64), clock.1));
        assert(count * d == (count - 1) * d + d) by (nonlinear_arith);
        assert(d >= 0 ==> (count - 1) * d >= 0) by (nonlinear_arith)
            requires
                count >= 1,
        ;
        assert(d <= 0 ==> (count - 1) * d <= 0) by (nonlinear_arith)
            requires
                count >= 1,
        ;
        assert(clamp_ticks(clamp_ticks((count - 1) * d) + d) == clamp_ticks(count * d));
    }
}

/// A step forward and a step backward cancel, as long as the cursor stays
/// inside its range on the way.
pub proof fn lemma_step_there_and_back(clock: (Time, TimeFlow))
    requires
        i64::MIN <= clock.0.0 + clock.1.delta <= i64::MAX,
    ensures
        after_command(Command::StepBackward, after_command(Command::StepForward, clock)) == clock,
{
}

} // verus!
