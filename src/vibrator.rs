use vstd::prelude::*;

verus! {

/// What the PWM output has to do after a step of the vibration controller.
#[derive(Clone, Copy, Debug, PartialEq, Eq, Structural)]
pub enum PwmCommand {
    /// Leave the output as it is.
    Keep,
    /// Set the duty to the given value and enable the output.
    Start(u16),
    /// Set the duty to the given value.
    SetDuty(u16),
    /// Disable the output.
    Stop,
}

/// The duty of a decay step with `steps` steps left: `max_duty - max_duty / steps`.
pub open spec fn decay_duty(max_duty: u16, steps: u16) -> u16
    recommends
        steps > 0,
{
    (max_duty - max_duty / steps) as u16
}

/// A haptic pulse controller: once armed, it ramps the duty down over a
/// fixed number of steps, then stops the output.
pub struct Vibrator {
    rumbling: bool,
    cycles: u16,
    max_duty: u16,
}

impl Vibrator {
    /// A pulse is running.
    pub closed spec fn active(&self) -> bool {
        self.rumbling
    }

    /// Steps left in the running pulse.
    pub closed spec fn steps_left(&self) -> u16 {
        self.cycles
    }

    /// Maximum duty of the driven PWM channel.
    pub closed spec fn max_duty_spec(&self) -> u16 {
        self.max_duty
    }

    /// An idle controller for a PWM channel whose maximum duty is `max_duty`.
    pub fn new(max_duty: u16) -> (r: Vibrator)
        ensures
            !r.active(),
            r.steps_left() == 0,
            r.max_duty_spec() == max_duty,
    {
        Vibrator { rumbling: false, cycles: 0, max_duty }
    }

    /// Whether a pulse is running.
    pub fn is_active(&self) -> (r: bool)
        ensures
            r == self.active(),
    {
        self.rumbling
    }

    /// Steps left in the running pulse.
    pub fn remaining_steps(&self) -> (r: u16)
        ensures
            r == self.steps_left(),
    {
        self.cycles
    }

    /// Maximum duty of the driven PWM channel.
    pub fn max_duty(&self) -> (r: u16)
        ensures
            r == self.max_duty_spec(),
    {
        self.max_duty
    }
}

/// `after` is `before` once `enable(cycles)` returned `r`: an idle controller
/// arms a pulse of `cycles` steps at full duty; a running pulse is left alone.
pub open spec fn enabled(before: Vibrator, after: Vibrator, cycles: u16, r: PwmCommand) -> bool {
    &&& after.max_duty_spec() == before.max_duty_spec()
    &&& if before.active() {
        &&& r == PwmCommand::Keep
        &&& after.active()
        &&& after.steps_left() == before.steps_left()
    } else {
        &&& r == PwmCommand::Start(before.max_duty_spec())
        &&& after.active()
        &&& after.steps_left() == cycles
    }
}

/// `after` is `before` once `update()` returned `r`: an idle controller stays
/// idle; a running pulse loses one step, and stops once none is left (a pulse
/// with no step left stops too), else its duty follows `decay_duty`.
pub open spec fn updated(before: Vibrator, after: Vibrator, r: PwmCommand) -> bool {
    &&& after.max_duty_spec() == before.max_duty_spec()
    &&& if !before.active() {
        &&& r == PwmCommand::Keep
        &&& !after.active()
        &&& after.steps_left() == before.steps_left()
    } else if before.steps_left() <= 1 {
        &&& r == PwmCommand::Stop
        &&& !after.active()
        &&& after.steps_left() == 0
    } else {
        &&& after.active()
        &&& after.steps_left() == before.steps_left() - 1
        &&& r == PwmCommand::SetDuty(decay_duty(before.max_duty_spec(), after.steps_left()))
    }
}

/// `after` is `before` once `disable()` returned `r`: a running pulse stops
/// at once; otherwise nothing happens.
pub open spec fn disabled(before: Vibrator, after: Vibrator, r: PwmCommand) -> bool {
    &&& after.max_duty_spec() == before.max_duty_spec()
    &&& after.steps_left() == before.steps_left()
    &&& !after.active()
    &&& r == if before.active() {
        PwmCommand::Stop
    } else {
        PwmCommand::Keep
    }
}

impl Vibrator {
    /// Arms a pulse of `cycles` decay steps unless one is running already.
    pub fn enable(&mut self, cycles: u16) -> (r: PwmCommand)
        ensures
            enabled(*old(self), *final(self), cycles, r),
    {
        if self.rumbling {
            PwmCommand::Keep
        } else {
            self.cycles = cycles;
            self.rumbling = true;
            PwmCommand::Start(self.max_duty)
        }
    }

    /// Advances a running pulse by one decay step.
    pub fn update(&mut self) -> (r: PwmCommand)
        ensures
            updated(*old(self), *final(self), r),
    {
        if !self.rumbling {
            PwmCommand::Keep
        } else if self.cycles <= 1 {
            self.cycles = 0;
            self.rumbling = false;
            PwmCommand::Stop
        } else {
            self.cycles = self.cycles - 1;
            let max = self.max_duty;
            let steps = self.cycles;
            assert(max / steps <= max) by (nonlinear_arith)
                requires
                    steps >= 1,
            ;
            PwmCommand::SetDuty(max - max / steps)
        }
    }

    /// Stops a running pulse at once, whatever steps it had left.
    pub fn disable(&mut self) -> (r: PwmCommand)
        ensures
            disabled(*old(self), *final(self), r),
    {
        if self.rumbling {
            self.rumbling = false;
            PwmCommand::Stop
        } else {
            PwmCommand::Keep
        }
    }
}

/// Through the updates of a pulse of `cycles` steps armed on an idle
/// controller, after `j < cycles` updates the pulse still runs with
/// `cycles - j` steps left.
proof fn lemma_pulse_prefix(u: Seq<Vibrator>, c: Seq<PwmCommand>, cycles: u16, j: int)
    requires
        u.len() == cycles + 1,
        c.len() == cycles,
        u[0].active(),
        u[0].steps_left() == cycles,
        forall|k: int| 0 <= k < cycles ==> updated(#[trigger] u[k], u[k + 1], c[k]),
        0 <= j < cycles,
    ensures
        u[j].active(),
        u[j].steps_left() == cycles - j,
    decreases j,
{
    if j > 0 {
        lemma_pulse_prefix(u, c, cycles, j - 1);
        assert(updated(u[j - 1], u[j], c[j - 1]));
    }
}

/// A pulse of `cycles > 0` steps armed on an idle controller runs through the
/// first `cycles - 1` updates, each only setting a duty, and update number
/// `cycles` stops the output and the pulse.
///
/// `u[j]` is the controller after `j` updates, and `c[j]` what update `j + 1`
/// returned.
pub proof fn lemma_pulse_length(
    idle: Vibrator,
    armed: PwmCommand,
    u: Seq<Vibrator>,
    c: Seq<PwmCommand>,
    cycles: u16,
)
    requires
        cycles > 0,
        !idle.active(),
        u.len() == cycles + 1,
        c.len() == cycles,
        enabled(idle, u[0], cycles, armed),
        forall|k: int| 0 <= k < cycles ==> updated(#[trigger] u[k], u[k + 1], c[k]),
    ensures
        armed == PwmCommand::Start(idle.max_duty_spec()),
        forall|j: int| 0 <= j < cycles ==> (#[trigger] u[j]).active(),
        forall|j: int| 0 <= j < cycles - 1 ==> (#[trigger] c[j]) is SetDuty,
        c[cycles - 1] == PwmCommand::Stop,
        !u[cycles as int].active(),
{
    assert forall|j: int| 0 <= j < cycles implies (#[trigger] u[j]).active() by {
        lemma_pulse_prefix(u, c, cycles, j);
    }
    assert forall|j: int| 0 <= j < cycles - 1 implies (#[trigger] c[j]) is SetDuty by {
        lemma_pulse_prefix(u, c, cycles, j);
        assert(updated(u[j], u[j + 1], c[j]));
    }
    lemma_pulse_prefix(u, c, cycles, cycles - 1);
    assert(updated(u[cycles - 1], u[cycles as int], c[cycles - 1]));
}

/// A one-step pulse armed on an idle controller stops the output on the
/// first update, and a further update leaves everything idle.
pub proof fn lemma_one_step_pulse(
    idle: Vibrator,
    armed: Vibrator,
    stopped: Vibrator,
    after: Vibrator,
    start: PwmCommand,
    first: PwmCommand,
    second: PwmCommand,
)
    requires
        !idle.active(),
        enabled(idle, armed, 1, start),
        updated(armed, stopped, first),
        updated(stopped, after, second),
    ensures
        first == PwmCommand::Stop,
        !stopped.active(),
        stopped.steps_left() == 0,
        second == PwmCommand::Keep,
        !after.active(),
        after.steps_left() == 0,
{
}

} // verus!
