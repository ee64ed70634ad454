//! The actor state machine and the dispatch rules of the control loop.
//!
//! Times are milliseconds since the Unix epoch; watts are signed, positive
//! for power drawn from the grid.

use vstd::prelude::*;
use crate::drivers::change_power_target;

verus! {

/// What the control loop asks a device to do.
#[derive(Clone, Copy, Debug, PartialEq, Eq, Structural)]
pub enum DeviceCommand {
    On,
    Off,
    /// Set a regulator to this many watts.
    SetPower(u32),
}

/// Which list an actor belongs to: producers add power to the local bus,
/// consumers take it.
#[derive(Clone, Copy, Debug, PartialEq, Eq, Structural)]
pub enum Side {
    Producer,
    Consumer,
}

/// A command for the actor at `index` of the list `side`.
#[derive(Clone, Copy, Debug, PartialEq, Eq, Structural)]
pub struct Command {
    pub side: Side,
    pub index: usize,
    pub action: DeviceCommand,
}

/// Which side of the system is engaged.
#[derive(Clone, Copy, Debug, PartialEq, Eq, Structural)]
pub enum SystemState {
    AllOff,
    Producing,
    Consuming,
}

/// The part of an actor's state that depends on its capability.
#[derive(Clone, Copy, Debug, PartialEq, Eq, Structural)]
pub enum ActorKind {
    /// A device that is either on, drawing or giving `nominal_watts`, or off.
    Switching { on: bool, nominal_watts: u32 },
    /// A device set to `current_watts`, between 0 and `max_watts`.
    Regulating { current_watts: u32, max_watts: u32 },
}

/// The runtime state of one configured actor.
#[derive(Clone, Copy, Debug, PartialEq, Eq, Structural)]
pub struct ActorState {
    /// Until this time the actor takes no command.
    pub busy_until: Option<i64>,
    pub settling_seconds: u32,
    pub kind: ActorKind,
}

/// A regulator's setting lies within its bounds.
pub open spec fn actor_wf(a: ActorState) -> bool {
    match a.kind {
        ActorKind::Regulating { current_watts, max_watts } => current_watts <= max_watts,
        _ => true,
    }
}

/// A switch that is on, or a regulator set above 0.
pub open spec fn active(a: ActorState) -> bool {
    match a.kind {
        ActorKind::Switching { on, .. } => on,
        ActorKind::Regulating { current_watts, .. } => current_watts > 0,
    }
}

pub open spec fn busy(a: ActorState, now: int) -> bool {
    match a.busy_until {
        Some(t) => now < t,
        None => false,
    }
}

/// `now` plus the settling time, saturated at the largest time.
pub open spec fn deadline(now: int, settling_seconds: u32) -> int {
    if now + settling_seconds * 1000 > i64::MAX {
        i64::MAX as int
    } else {
        now + settling_seconds * 1000
    }
}

/// `busy_until` moved to the deadline, never backward.
pub open spec fn busy_after(a: ActorState, now: int) -> Option<i64> {
    let d = deadline(now, a.settling_seconds);
    match a.busy_until {
        Some(t) => if t >= d {
            Some(t)
        } else {
            Some(d as i64)
        },
        None => Some(d as i64),
    }
}

pub open spec fn min(a: int, b: int) -> int {
    if a <= b {
        a
    } else {
        b
    }
}

/// Actor state, effect and command of `increase_effect_by(w)` at `now`.
pub open spec fn increase_outcome(a: ActorState, w: int, now: int) -> (
    ActorState,
    int,
    Option<DeviceCommand>,
) {
    if busy(a, now) {
        (a, 0, None)
    } else {
        match a.kind {
            ActorKind::Switching { on, nominal_watts } => if on || nominal_watts > w {
                (a, 0, None)
            } else {
                (
                    ActorState {
                        busy_until: busy_after(a, now),
                        kind: ActorKind::Switching { on: true, nominal_watts },
                        ..a
                    },
                    nominal_watts as int,
                    Some(DeviceCommand::On),
                )
            },
            ActorKind::Regulating { current_watts, max_watts } => if max_watts - current_watts <= 0 {
                (a, 0, None)
            } else {
                let t = min(max_watts as int, current_watts + w);
                (
                    ActorState {
                        busy_until: busy_after(a, now),
                        kind: ActorKind::Regulating { current_watts: t as u32, max_watts },
                        ..a
                    },
                    min(max_watts - current_watts, w),
                    Some(DeviceCommand::SetPower(t as u32)),
                )
            },
        }
    }
}

/// Actor state, effect and command of `reduce_effect_by(w)` at `now`.
pub open spec fn reduce_outcome(a: ActorState, w: int, now: int) -> (
    ActorState,
    int,
    Option<DeviceCommand>,
) {
    if busy(a, now) || !active(a) {
        (a, 0, None)
    } else {
        match a.kind {
            ActorKind::Switching { on, nominal_watts } => (
                ActorState {
                    busy_until: busy_after(a, now),
                    kind: ActorKind::Switching { on: false, nominal_watts },
                    ..a
                },
                nominal_watts as int,
                Some(DeviceCommand::Off),
            ),
            ActorKind::Regulating { current_watts, max_watts } => {
                let t = if current_watts >= w {
                    current_watts - w
                } else {
                    0
                };
                (
                    ActorState {
                        busy_until: busy_after(a, now),
                        kind: ActorKind::Regulating { current_watts: t as u32, max_watts },
                        ..a
                    },
                    min(current_watts as int, w),
                    Some(DeviceCommand::SetPower(t as u32)),
                )
            },
        }
    }
}

impl ActorState {
    /// A switch, off and not busy.
    pub fn switching(nominal_watts: u32, settling_seconds: u32) -> (r: ActorState)
        ensures
            r == (ActorState {
                busy_until: None,
                settling_seconds,
                kind: ActorKind::Switching { on: false, nominal_watts },
            }),
    {
        ActorState {
            busy_until: None,
            settling_seconds,
            kind: ActorKind::Switching { on: false, nominal_watts },
        }
    }

    /// A regulator, set to 0 and not busy.
    pub fn regulating(max_watts: u32, settling_seconds: u32) -> (r: ActorState)
        ensures
            r == (ActorState {
                busy_until: None,
                settling_seconds,
                kind: ActorKind::Regulating { current_watts: 0, max_watts },
            }),
            actor_wf(r),
    {
        ActorState {
            busy_until: None,
            settling_seconds,
            kind: ActorKind::Regulating { current_watts: 0, max_watts },
        }
    }

    /// Whether the actor is on, or set above 0.
    pub fn is_active(&self) -> (r: bool)
        ensures
            r == active(*self),
    {
        match self.kind {
            ActorKind::Switching { on, .. } => on,
            ActorKind::Regulating { current_watts, .. } => current_watts > 0,
        }
    }

    /// The watts a regulator is set to; for a switch, its nominal watts when
    /// on and 0 when off.
    pub fn power(&self) -> (r: u32)
        ensures
            r == match self.kind {
                ActorKind::Switching { on, nominal_watts } => if on {
                    nominal_watts
                } else {
                    0
                },
                ActorKind::Regulating { current_watts, .. } => current_watts,
            },
    {
        match self.kind {
            ActorKind::Switching { on, nominal_watts } => if on {
                nominal_watts
            } else {
                0
            },
            ActorKind::Regulating { current_watts, .. } => current_watts,
        }
    }

    pub fn is_busy(&self, now: i64) -> (r: bool)
        ensures
            r == busy(*self, now as int),
    {
        match self.busy_until {
            Some(t) => now < t,
            None => false,
        }
    }

    fn mark_busy(&mut self, now: i64)
        ensures
            final(self).busy_until == busy_after(*old(self), now as int),
            final(self).settling_seconds == old(self).settling_seconds,
            final(self).kind == old(self).kind,
    {
        let sum: i128 = now as i128 + self.settling_seconds as i128 * 1000;
        let d: i64 = if sum > i64::MAX as i128 {
            i64::MAX
        } else {
            sum as i64
        };
        self.busy_until = match self.busy_until {
            Some(t) => if t >= d {
                Some(t)
            } else {
                Some(d)
            },
            None => Some(d),
        };
    }

    /// Engages the actor by up to `watts`, unless it is busy: a switch that is
    /// off and whose nominal watts do not exceed `watts` is turned on; a
    /// regulator with headroom is raised by `watts`, up to its maximum. Returns
    /// the effect in watts and the command to send.
    pub fn increase_effect_by(&mut self, watts: u32, now: i64) -> (r: (i64, Option<DeviceCommand>))
        requires
            actor_wf(*old(self)),
        ensures
            (*final(self), r.0 as int, r.1) == increase_outcome(*old(self), watts as int, now as int),
            actor_wf(*final(self)),
    {
        if self.is_busy(now) {
            return (0, None);
        }
        match self.kind {
            ActorKind::Switching { on, nominal_watts } => {
                if on || nominal_watts > watts {
                    (0, None)
                } else {
                    self.kind = ActorKind::Switching { on: true, nominal_watts };
                    self.mark_busy(now);
                    (nominal_watts as i64, Some(DeviceCommand::On))
                }
            },
            ActorKind::Regulating { current_watts, max_watts } => {
                if max_watts <= current_watts {
                    (0, None)
                } else {
                    let headroom = max_watts - current_watts;
                    let t = change_power_target(current_watts, watts as i64, max_watts);
                    self.kind = ActorKind::Regulating { current_watts: t, max_watts };
                    self.mark_busy(now);
                    let effect = if headroom <= watts {
                        headroom
                    } else {
                        watts
                    };
                    (effect as i64, Some(DeviceCommand::SetPower(t)))
                }
            },
        }
    }

    /// Disengages an active actor by up to `watts`, unless it is busy: a switch
    /// is turned off; a regulator is lowered by `watts`, down to 0. Returns the
    /// effect in watts and the command to send.
    pub fn reduce_effect_by(&mut self, watts: u32, now: i64) -> (r: (i64, Option<DeviceCommand>))
        requires
            actor_wf(*old(self)),
        ensures
            (*final(self), r.0 as int, r.1) == reduce_outcome(*old(self), watts as int, now as int),
            actor_wf(*final(self)),
    {
        if self.is_busy(now) || !self.is_active() {
            return (0, None);
        }
        match self.kind {
            ActorKind::Switching { nominal_watts, .. } => {
                self.kind = ActorKind::Switching { on: false, nominal_watts };
                self.mark_busy(now);
                (nominal_watts as i64, Some(DeviceCommand::Off))
            },
            ActorKind::Regulating { current_watts, max_watts } => {
                let t = change_power_target(current_watts, 0 - watts as i64, max_watts);
                self.kind = ActorKind::Regulating { current_watts: t, max_watts };
                self.mark_busy(now);
                let effect = if current_watts <= watts {
                    current_watts
                } else {
                    watts
                };
                (effect as i64, Some(DeviceCommand::SetPower(t)))
            },
        }
    }
}

pub open spec fn any_active(actors: Seq<ActorState>) -> bool {
    exists|i: int| 0 <= i < actors.len() && active(#[trigger] actors[i])
}

/// Producing when a producer is active, else consuming when a consumer is,
/// else all off.
pub open spec fn system_state(producers: Seq<ActorState>, consumers: Seq<ActorState>) -> SystemState {
    if any_active(producers) {
        SystemState::Producing
    } else if any_active(consumers) {
        SystemState::Consuming
    } else {
        SystemState::AllOff
    }
}

/// The system state depends on which actors are active and on nothing else.
pub proof fn lemma_system_state_by_activity(
    producers1: Seq<ActorState>,
    consumers1: Seq<ActorState>,
    producers2: Seq<ActorState>,
    consumers2: Seq<ActorState>,
)
    requires
        producers1.len() == producers2.len(),
        consumers1.len() == consumers2.len(),
        forall|i: int| 0 <= i < producers1.len() ==> active(#[trigger] producers1[i]) == active(producers2[i]),
        forall|i: int| 0 <= i < consumers1.len() ==> active(#[trigger] consumers1[i]) == active(consumers2[i]),
    ensures
        system_state(producers1, consumers1) == system_state(producers2, consumers2),
{
    assert(any_active(producers1) == any_active(producers2)) by {
        if any_active(producers1) {
            let i = choose|i: int| 0 <= i < producers1.len() && active(#[trigger] producers1[i]);
            assert(active(producers2[i]));
        }
        if any_active(producers2) {
            let i = choose|i: int| 0 <= i < producers2.len() && active(#[trigger] producers2[i]);
            assert(active(producers1[i]));
        }
    }
    assert(any_active(consumers1) == any_active(consumers2)) by {
        if any_active(consumers1) {
            let i = choose|i: int| 0 <= i < consumers1.len() && active(#[trigger] consumers1[i]);
            assert(active(consumers2[i]));
        }
        if any_active(consumers2) {
            let i = choose|i: int| 0 <= i < consumers2.len() && active(#[trigger] consumers2[i]);
            assert(active(consumers1[i]));
        }
    }
}

pub open spec fn all_wf(actors: Seq<ActorState>) -> bool {
    forall|i: int| 0 <= i < actors.len() ==> actor_wf(#[trigger] actors[i])
}

/// The command, if any, tagged with the actor it is for.
pub open spec fn tagged(c: Option<DeviceCommand>, side: Side, index: int) -> Seq<Command> {
    match c {
        Some(action) => seq![Command { side, index: index as usize, action }],
        None => Seq::empty(),
    }
}

/// Asks the actors from index `i` on, in order, to increase their effect by
/// what is still missing of `delta`, until nothing is missing.
pub open spec fn increase_run(actors: Seq<ActorState>, i: int, delta: int, now: int, side: Side) -> (
    Seq<ActorState>,
    Seq<Command>,
)
    decreases actors.len() - i,
{
    if i < 0 || i >= actors.len() || delta <= 0 {
        (actors, Seq::empty())
    } else {
        let (a, effect, c) = increase_outcome(actors[i], delta, now);
        let (rest, cs) = increase_run(actors.update(i, a), i + 1, delta - effect, now, side);
        (rest, tagged(c, side, i) + cs)
    }
}

/// Asks the actors below index `k`, from the last down, to reduce their
/// effect by what is still missing of `delta`, until nothing is missing.
pub open spec fn reduce_run(actors: Seq<ActorState>, k: int, delta: int, now: int, side: Side) -> (
    Seq<ActorState>,
    Seq<Command>,
)
    decreases k,
{
    if k <= 0 || k > actors.len() || delta <= 0 {
        (actors, Seq::empty())
    } else {
        let (a, effect, c) = reduce_outcome(actors[k - 1], delta, now);
        let (rest, cs) = reduce_run(actors.update(k - 1, a), k - 1, delta - effect, now, side);
        (rest, tagged(c, side, k - 1) + cs)
    }
}

/// The target operating point: the mean of the limits, truncated toward zero.
pub open spec fn margin(lower_limit: i32, upper_limit: i32) -> int {
    let sum = lower_limit + upper_limit;
    if sum >= 0 {
        sum / 2
    } else {
        -((-sum) / 2)
    }
}

pub open spec fn abs(x: int) -> int {
    if x >= 0 {
        x
    } else {
        -x
    }
}

/// The most a sample may lie in the future, in milliseconds.
pub const MAX_CLOCK_SKEW_MS: i64 = 5000;

/// Producers, consumers and commands after the sample `watts`, taken at `ts`,
/// arrives at `now`.
pub open spec fn step(
    producers: Seq<ActorState>,
    consumers: Seq<ActorState>,
    lower_limit: i32,
    upper_limit: i32,
    watts: i32,
    ts: int,
    now: int,
) -> (Seq<ActorState>, Seq<ActorState>, Seq<Command>) {
    let delta = abs(watts - margin(lower_limit, upper_limit));
    if ts > now + MAX_CLOCK_SKEW_MS {
        (producers, consumers, Seq::empty())
    } else if watts > upper_limit {
        match system_state(producers, consumers) {
            SystemState::Consuming => {
                let (c, cs) = reduce_run(consumers, consumers.len() as int, delta, now, Side::Consumer);
                (producers, c, cs)
            },
            _ => {
                let (p, cs) = increase_run(producers, 0, delta, now, Side::Producer);
                (p, consumers, cs)
            },
        }
    } else if watts < lower_limit {
        match system_state(producers, consumers) {
            SystemState::Producing => {
                let (p, cs) = reduce_run(producers, producers.len() as int, delta, now, Side::Producer);
                (p, consumers, cs)
            },
            _ => {
                let (c, cs) = increase_run(consumers, 0, delta, now, Side::Consumer);
                (producers, c, cs)
            },
        }
    } else {
        (producers, consumers, Seq::empty())
    }
}

fn any_active_exec(actors: &Vec<ActorState>) -> (r: bool)
    ensures
        r == any_active(actors@),
{
    let mut i: usize = 0;
    while i < actors.len()
        invariant
            i <= actors@.len(),
            forall|j: int| 0 <= j < i ==> !active(#[trigger] actors@[j]),
        decreases actors@.len() - i,
    {
        if actors[i].is_active() {
            return true;
        }
        i = i + 1;
    }
    false
}

/// Which side is engaged: producing when any producer is active, else
/// consuming when any consumer is, else all off.
pub fn compute_system_state(producers: &Vec<ActorState>, consumers: &Vec<ActorState>) -> (r: SystemState)
    ensures
        r == system_state(producers@, consumers@),
{
    if any_active_exec(producers) {
        SystemState::Producing
    } else if any_active_exec(consumers) {
        SystemState::Consuming
    } else {
        SystemState::AllOff
    }
}

fn increase_in_order(actors: &mut Vec<ActorState>, delta: u32, now: i64, side: Side) -> (r: Vec<Command>)
    requires
        all_wf(old(actors)@),
    ensures
        (final(actors)@, r@) == increase_run(old(actors)@, 0, delta as int, now as int, side),
        all_wf(final(actors)@),
{
    let ghost orig = actors@;
    let mut out: Vec<Command> = Vec::new();
    let mut rem: i64 = delta as i64;
    let mut i: usize = 0;
    while i < actors.len() && rem > 0
        invariant
            0 <= i <= actors@.len(),
            actors@.len() == orig.len(),
            rem <= delta,
            all_wf(actors@),
            increase_run(orig, 0, delta as int, now as int, side) == (
                increase_run(actors@, i as int, rem as int, now as int, side).0,
                out@ + increase_run(actors@, i as int, rem as int, now as int, side).1,
            ),
        decreases actors@.len() - i,
    {
        let mut a = actors[i];
        let (effect, c) = a.increase_effect_by(rem as u32, now);
        proof {
            assert(out@ + (tagged(c, side, i as int) + increase_run(actors@.update(i as int, a), i + 1, rem - effect, now as int, side).1)
                =~= (out@ + tagged(c, side, i as int)) + increase_run(actors@.update(i as int, a), i + 1, rem - effect, now as int, side).1);
        }
        actors.set(i, a);
        let ghost prev = out@;
        match c {
            Some(action) => {
                out.push(Command { side, index: i, action });
            },
            None => {},
        }
        proof {
            assert(out@ =~= prev + tagged(c, side, i as int));
        }
        rem = rem - effect;
        i = i + 1;
    }
    proof {
        assert(out@ + Seq::<Command>::empty() =~= out@);
    }
    out
}

fn reduce_in_reverse(actors: &mut Vec<ActorState>, delta: u32, now: i64, side: Side) -> (r: Vec<Command>)
    requires
        all_wf(old(actors)@),
    ensures
        (final(actors)@, r@) == reduce_run(old(actors)@, old(actors)@.len() as int, delta as int, now as int, side),
        all_wf(final(actors)@),
{
    let ghost orig = actors@;
    let mut out: Vec<Command> = Vec::new();
    let mut rem: i64 = delta as i64;
    let mut k: usize = actors.len();
    while k > 0 && rem > 0
        invariant
            0 <= k <= actors@.len(),
            actors@.len() == orig.len(),
            rem <= delta,
            all_wf(actors@),
            reduce_run(orig, orig.len() as int, delta as int, now as int, side) == (
                reduce_run(actors@, k as int, rem as int, now as int, side).0,
                out@ + reduce_run(actors@, k as int, rem as int, now as int, side).1,
            ),
        decreases k,
    {
        let mut a = actors[k - 1];
        let (effect, c) = a.reduce_effect_by(rem as u32, now);
        proof {
            assert(out@ + (tagged(c, side, k - 1) + reduce_run(actors@.update(k - 1, a), k - 1, rem - effect, now as int, side).1)
                =~= (out@ + tagged(c, side, k - 1)) + reduce_run(actors@.update(k - 1, a), k - 1, rem - effect, now as int, side).1);
        }
        actors.set(k - 1, a);
        let ghost prev = out@;
        match c {
            Some(action) => {
                out.push(Command { side, index: k - 1, action });
            },
            None => {},
        }
        proof {
            assert(out@ =~= prev + tagged(c, side, k - 1));
        }
        rem = rem - effect;
        k = k - 1;
    }
    proof {
        assert(out@ + Seq::<Command>::empty() =~= out@);
    }
    out
}

/// The actors of a site and the dead-band `[lower_limit, upper_limit]` that
/// the control loop keeps the grid exchange in.
pub struct Controller {
    /// In dispatch priority: the first is engaged first and released last.
    pub producers: Vec<ActorState>,
    pub consumers: Vec<ActorState>,
    pub lower_limit: i32,
    pub upper_limit: i32,
}

impl Controller {
    pub open spec fn wf(&self) -> bool {
        all_wf(self.producers@) && all_wf(self.consumers@)
    }

    pub fn new(producers: Vec<ActorState>, consumers: Vec<ActorState>, lower_limit: i32, upper_limit: i32) -> (r: Controller)
        ensures
            r.producers@ == producers@,
            r.consumers@ == consumers@,
            r.lower_limit == lower_limit,
            r.upper_limit == upper_limit,
    {
        Controller { producers, consumers, lower_limit, upper_limit }
    }

    /// The commands that bring every actor to a known state at startup: off
    /// for each switch, 0 W for each regulator; producers first.
    pub fn startup_commands(&self) -> (r: Vec<Command>)
        ensures
            r@.len() == self.producers@.len() + self.consumers@.len(),
            forall|i: int| 0 <= i < self.producers@.len() ==> #[trigger] r@[i] == shutdown_command(self.producers@[i], Side::Producer, i),
            forall|i: int| 0 <= i < self.consumers@.len() ==> #[trigger] r@[self.producers@.len() + i] == shutdown_command(self.consumers@[i], Side::Consumer, i),
    {
        let mut out: Vec<Command> = Vec::new();
        let mut i: usize = 0;
        while i < self.producers.len()
            invariant
                i <= self.producers@.len(),
                out@.len() == i,
                forall|j: int| 0 <= j < i ==> #[trigger] out@[j] == shutdown_command(self.producers@[j], Side::Producer, j),
            decreases self.producers@.len() - i,
        {
            out.push(shutdown_exec(&self.producers[i], Side::Producer, i));
            i = i + 1;
        }
        let mut k: usize = 0;
        while k < self.consumers.len()
            invariant
                k <= self.consumers@.len(),
                out@.len() == self.producers@.len() + k,
                forall|j: int| 0 <= j < self.producers@.len() ==> #[trigger] out@[j] == shutdown_command(self.producers@[j], Side::Producer, j),
                forall|j: int| 0 <= j < k ==> #[trigger] out@[self.producers@.len() + j] == shutdown_command(self.consumers@[j], Side::Consumer, j),
            decreases self.consumers@.len() - k,
        {
            out.push(shutdown_exec(&self.consumers[k], Side::Consumer, k));
            k = k + 1;
        }
        out
    }

    /// Handles one sample of `watts` taken at `ts`, arriving at `now`:
    /// discards it when it lies more than five seconds in the future;
    /// otherwise, when the sample lies above the upper limit, releases
    /// consumers (last first) if consumers are engaged, else engages producers
    /// (first first); when it lies below the lower limit, releases producers if
    /// producers are engaged, else engages consumers; each by the distance of
    /// the sample from the margin. Returns the commands to send.
    pub fn handle_sample(&mut self, watts: i32, ts: i64, now: i64) -> (r: Vec<Command>)
        requires
            old(self).wf(),
        ensures
            final(self).wf(),
            final(self).lower_limit == old(self).lower_limit,
            final(self).upper_limit == old(self).upper_limit,
            (final(self).producers@, final(self).consumers@, r@) == step(
                old(self).producers@,
                old(self).consumers@,
                old(self).lower_limit,
                old(self).upper_limit,
                watts,
                ts as int,
                now as int,
            ),
    {
        if ts as i128 > now as i128 + MAX_CLOCK_SKEW_MS as i128 {
            return Vec::new();
        }
        let sum: i64 = self.lower_limit as i64 + self.upper_limit as i64;
        let m: i64 = if sum >= 0 {
            sum / 2
        } else {
            0 - (0 - sum) / 2
        };
        let diff: i64 = watts as i64 - m;
        let delta: i64 = if diff >= 0 {
            diff
        } else {
            0 - diff
        };
        proof {
            assert(m == margin(self.lower_limit, self.upper_limit));
            assert(-0x8000_0000 <= m <= 0x7fff_ffff);
        }
        let delta = delta as u32;
        let state = compute_system_state(&self.producers, &self.consumers);
        if watts > self.upper_limit {
            match state {
                SystemState::Consuming => reduce_in_reverse(&mut self.consumers, delta, now, Side::Consumer),
                _ => increase_in_order(&mut self.producers, delta, now, Side::Producer),
            }
        } else if watts < self.lower_limit {
            match state {
                SystemState::Producing => reduce_in_reverse(&mut self.producers, delta, now, Side::Producer),
                _ => increase_in_order(&mut self.consumers, delta, now, Side::Consumer),
            }
        } else {
            Vec::new()
        }
    }
}

/// The command that turns an actor off: off for a switch, 0 W for a regulator.
pub open spec fn shutdown_command(a: ActorState, side: Side, index: int) -> Command {
    Command {
        side,
        index: index as usize,
        action: match a.kind {
            ActorKind::Switching { .. } => DeviceCommand::Off,
            ActorKind::Regulating { .. } => DeviceCommand::SetPower(0),
        },
    }
}

fn shutdown_exec(a: &ActorState, side: Side, index: usize) -> (r: Command)
    ensures
        r == shutdown_command(*a, side, index as int),
{
    Command {
        side,
        index,
        action: match a.kind {
            ActorKind::Switching { .. } => DeviceCommand::Off,
            ActorKind::Regulating { .. } => DeviceCommand::SetPower(0),
        },
    }
}

/// Outcome of `increase_effect_by` when `increase` holds, else of `reduce_effect_by`.
pub open spec fn command_outcome(a: ActorState, increase: bool, w: int, now: int) -> (
    ActorState,
    int,
    Option<DeviceCommand>,
) {
    if increase {
        increase_outcome(a, w, now)
    } else {
        reduce_outcome(a, w, now)
    }
}

/// After an actor has taken a command at `now1`, it takes no other, and stays
/// as it is, until `settling_seconds` have passed.
pub proof fn lemma_settling_gate(
    a: ActorState,
    first: bool,
    w1: int,
    now1: int,
    second: bool,
    w2: int,
    now2: int,
)
    requires
        command_outcome(a, first, w1, now1).2 is Some,
        now2 < now1 + a.settling_seconds * 1000,
        now2 < i64::MAX,
    ensures
        ({
            let a1 = command_outcome(a, first, w1, now1).0;
            command_outcome(a1, second, w2, now2) == (a1, 0int, None::<DeviceCommand>)
        }),
{
}

/// A switch that is off and free gives its nominal watts on the first
/// `increase_effect_by` that asks for at least as much, and nothing on the
/// next one, which leaves it as it is.
pub proof fn lemma_switch_engages_once(a: ActorState, w1: int, now1: int, w2: int, now2: int)
    requires
        a.kind matches ActorKind::Switching { on, nominal_watts } && !on && nominal_watts <= w1,
        !busy(a, now1),
    ensures
        ({
            let (a1, e1, c1) = increase_outcome(a, w1, now1);
            &&& a1.kind matches ActorKind::Switching { nominal_watts, .. } && e1 == nominal_watts
            &&& c1 == Some(DeviceCommand::On)
            &&& increase_outcome(a1, w2, now2) == (a1, 0int, None::<DeviceCommand>)
        }),
{
}

/// A free regulator that is asked to increase by `w` is set to the lesser of
/// its maximum and its setting plus `w`.
pub proof fn lemma_regulator_increase(a: ActorState, w: int, now: int)
    requires
        actor_wf(a),
        a.kind is Regulating,
        !busy(a, now),
        w >= 0,
    ensures
        ({
            let a1 = increase_outcome(a, w, now).0;
            a1.kind matches ActorKind::Regulating { current_watts, max_watts } && max_watts
                == a.kind->max_watts && current_watts == min(max_watts as int, a.kind->current_watts + w)
        }),
{
}

/// What a run may do to the actor at `j` when it sends it `action`, where
/// `increase` tells an increasing run from a reducing one.
pub open spec fn run_command_allowed(a: ActorState, increase: bool, action: DeviceCommand, now: int) -> bool {
    &&& !busy(a, now)
    &&& increase ==> (a.kind matches ActorKind::Switching { on, .. } ==> !on && action == DeviceCommand::On)
    &&& !increase ==> active(a) && action != DeviceCommand::On
}

/// The actor at `j` after a run that sent it a command at `now`.
pub open spec fn commanded_at(before: ActorState, after: ActorState, now: int) -> bool {
    &&& after.settling_seconds == before.settling_seconds
    &&& after.busy_until matches Some(t) && t >= deadline(now, before.settling_seconds)
}

proof fn lemma_increase_run(actors: Seq<ActorState>, i: int, delta: int, now: int, side: Side)
    requires
        0 <= i,
        actors.len() <= usize::MAX,
    ensures
        ({
            let (res, cs) = increase_run(actors, i, delta, now, side);
            &&& res.len() == actors.len()
            &&& forall|j: int| 0 <= j < actors.len() ==> #[trigger] res[j].settling_seconds == actors[j].settling_seconds
            &&& forall|j: int| 0 <= j < i ==> #[trigger] res[j] == actors[j]
            &&& forall|k: int| 0 <= k < cs.len() ==> {
                let c = #[trigger] cs[k];
                &&& c.side == side
                &&& i <= c.index < actors.len()
                &&& run_command_allowed(actors[c.index as int], true, c.action, now)
                &&& commanded_at(actors[c.index as int], res[c.index as int], now)
            }
        }),
    decreases actors.len() - i,
{
    if !(i < 0 || i >= actors.len() || delta <= 0) {
        let (a, effect, c) = increase_outcome(actors[i], delta, now);
        let next = actors.update(i, a);
        lemma_increase_run(next, i + 1, delta - effect, now, side);
        let (res, cs) = increase_run(next, i + 1, delta - effect, now, side);
        let t = tagged(c, side, i);
        assert(increase_run(actors, i, delta, now, side) == (res, t + cs));
        assert forall|k: int| 0 <= k < (t + cs).len() implies {
            let cc = #[trigger] (t + cs)[k];
            &&& cc.side == side
            &&& i <= cc.index < actors.len()
            &&& run_command_allowed(actors[cc.index as int], true, cc.action, now)
            &&& commanded_at(actors[cc.index as int], res[cc.index as int], now)
        } by {
            if k < t.len() {
                assert((t + cs)[k] == t[k]);
                assert(res[i] == next[i]);
            } else {
                assert((t + cs)[k] == cs[k - t.len()]);
                let cc = cs[k - t.len()];
                assert(next[cc.index as int] == actors[cc.index as int]);
            }
        }
        assert forall|j: int| 0 <= j < actors.len() implies #[trigger] res[j].settling_seconds == actors[j].settling_seconds by {
            assert(res[j].settling_seconds == next[j].settling_seconds);
        }
        assert forall|j: int| 0 <= j < i implies #[trigger] res[j] == actors[j] by {
            assert(res[j] == next[j]);
        }
    }
}

proof fn lemma_reduce_run(actors: Seq<ActorState>, k: int, delta: int, now: int, side: Side)
    requires
        k <= actors.len(),
        actors.len() <= usize::MAX,
    ensures
        ({
            let (res, cs) = reduce_run(actors, k, delta, now, side);
            &&& res.len() == actors.len()
            &&& forall|j: int| 0 <= j < actors.len() ==> #[trigger] res[j].settling_seconds == actors[j].settling_seconds
            &&& forall|j: int| k <= j < actors.len() ==> #[trigger] res[j] == actors[j]
            &&& forall|m: int| 0 <= m < cs.len() ==> {
                let c = #[trigger] cs[m];
                &&& c.side == side
                &&& 0 <= c.index < k
                &&& run_command_allowed(actors[c.index as int], false, c.action, now)
                &&& commanded_at(actors[c.index as int], res[c.index as int], now)
            }
        }),
    decreases k,
{
    if !(k <= 0 || k > actors.len() || delta <= 0) {
        let (a, effect, c) = reduce_outcome(actors[k - 1], delta, now);
        let next = actors.update(k - 1, a);
        lemma_reduce_run(next, k - 1, delta - effect, now, side);
        let (res, cs) = reduce_run(next, k - 1, delta - effect, now, side);
        let t = tagged(c, side, k - 1);
        assert(reduce_run(actors, k, delta, now, side) == (res, t + cs));
        assert forall|m: int| 0 <= m < (t + cs).len() implies {
            let cc = #[trigger] (t + cs)[m];
            &&& cc.side == side
            &&& 0 <= cc.index < k
            &&& run_command_allowed(actors[cc.index as int], false, cc.action, now)
            &&& commanded_at(actors[cc.index as int], res[cc.index as int], now)
        } by {
            if m < t.len() {
                assert((t + cs)[m] == t[m]);
                assert(res[k - 1] == next[k - 1]);
            } else {
                assert((t + cs)[m] == cs[m - t.len()]);
                let cc = cs[m - t.len()];
                assert(next[cc.index as int] == actors[cc.index as int]);
            }
        }
        assert forall|j: int| 0 <= j < actors.len() implies #[trigger] res[j].settling_seconds == actors[j].settling_seconds by {
            assert(res[j].settling_seconds == next[j].settling_seconds);
        }
        assert forall|j: int| k <= j < actors.len() implies #[trigger] res[j] == actors[j] by {
            assert(res[j] == next[j]);
        }
    }
}

/// The actors of `side`.
pub open spec fn side_of(producers: Seq<ActorState>, consumers: Seq<ActorState>, side: Side) -> Seq<ActorState> {
    match side {
        Side::Producer => producers,
        Side::Consumer => consumers,
    }
}

/// Every command of a step goes to an actor that exists and is free at
/// `now`; an engaging command never goes to a switch that is on, and the
/// actor is left busy until `now` plus its settling time, its settling time
/// unchanged.
pub proof fn lemma_step_commands(
    producers: Seq<ActorState>,
    consumers: Seq<ActorState>,
    lower_limit: i32,
    upper_limit: i32,
    watts: i32,
    ts: int,
    now: int,
)
    requires
        producers.len() <= usize::MAX,
        consumers.len() <= usize::MAX,
    ensures
        ({
            let (p, c, cs) = step(producers, consumers, lower_limit, upper_limit, watts, ts, now);
            &&& p.len() == producers.len() && c.len() == consumers.len()
            &&& forall|j: int| 0 <= j < producers.len() ==> #[trigger] p[j].settling_seconds == producers[j].settling_seconds
            &&& forall|j: int| 0 <= j < consumers.len() ==> #[trigger] c[j].settling_seconds == consumers[j].settling_seconds
            &&& forall|m: int| 0 <= m < cs.len() ==> {
                let cmd = #[trigger] cs[m];
                let before = side_of(producers, consumers, cmd.side);
                let after = side_of(p, c, cmd.side);
                &&& 0 <= cmd.index < before.len()
                &&& !busy(before[cmd.index as int], now)
                &&& (before[cmd.index as int].kind matches ActorKind::Switching { on, .. } && on
                    ==> cmd.action != DeviceCommand::On)
                &&& commanded_at(before[cmd.index as int], after[cmd.index as int], now)
            }
        }),
{
    let delta = abs(watts - margin(lower_limit, upper_limit));
    lemma_increase_run(producers, 0, delta, now, Side::Producer);
    lemma_increase_run(consumers, 0, delta, now, Side::Consumer);
    lemma_reduce_run(producers, producers.len() as int, delta, now, Side::Producer);
    lemma_reduce_run(consumers, consumers.len() as int, delta, now, Side::Consumer);
}

/// Once the control loop has sent an actor a command at `now1`, it sends that
/// actor none at any later sample that arrives before its settling time has
/// passed.
pub proof fn lemma_step_settling(
    producers: Seq<ActorState>,
    consumers: Seq<ActorState>,
    lower_limit: i32,
    upper_limit: i32,
    w1: i32,
    ts1: int,
    now1: int,
    w2: int,
    ts2: int,
    now2: int,
    side: Side,
    index: usize,
)
    requires
        producers.len() <= usize::MAX,
        consumers.len() <= usize::MAX,
        ({
            let cs = step(producers, consumers, lower_limit, upper_limit, w1, ts1, now1).2;
            exists|m: int| 0 <= m < cs.len() && #[trigger] cs[m].side == side && cs[m].index == index
        }),
        index < side_of(producers, consumers, side).len(),
        now2 < now1 + side_of(producers, consumers, side)[index as int].settling_seconds * 1000,
        now2 < i64::MAX,
        i32::MIN <= w2 <= i32::MAX,
    ensures
        ({
            let (p, c, _) = step(producers, consumers, lower_limit, upper_limit, w1, ts1, now1);
            let cs2 = step(p, c, lower_limit, upper_limit, w2 as i32, ts2, now2).2;
            forall|m: int| 0 <= m < cs2.len() ==> !(#[trigger] cs2[m].side == side && cs2[m].index == index)
        }),
{
    let (p, c, cs) = step(producers, consumers, lower_limit, upper_limit, w1, ts1, now1);
    lemma_step_commands(producers, consumers, lower_limit, upper_limit, w1, ts1, now1);
    let m = choose|m: int| 0 <= m < cs.len() && #[trigger] cs[m].side == side && cs[m].index == index;
    assert(cs[m].side == side);
    let a = side_of(p, c, side)[index as int];
    assert(busy(a, now2));
    lemma_step_commands(p, c, lower_limit, upper_limit, w2 as i32, ts2, now2);
    let cs2 = step(p, c, lower_limit, upper_limit, w2 as i32, ts2, now2).2;
    assert forall|k: int| 0 <= k < cs2.len() implies !(#[trigger] cs2[k].side == side && cs2[k].index == index) by {
        if cs2[k].side == side && cs2[k].index == index {
            assert(!busy(side_of(p, c, cs2[k].side)[cs2[k].index as int], now2));
        }
    }
}

/// The control loop never sends `On` to a switch that is already on: after it
/// engages a switch, it engages it again only after turning it off.
pub proof fn lemma_step_no_second_on(
    producers: Seq<ActorState>,
    consumers: Seq<ActorState>,
    lower_limit: i32,
    upper_limit: i32,
    watts: i32,
    ts: int,
    now: int,
    side: Side,
    index: usize,
)
    requires
        producers.len() <= usize::MAX,
        consumers.len() <= usize::MAX,
        index < side_of(producers, consumers, side).len(),
        side_of(producers, consumers, side)[index as int].kind matches ActorKind::Switching { on, .. } && on,
    ensures
        ({
            let cs = step(producers, consumers, lower_limit, upper_limit, watts, ts, now).2;
            forall|m: int| 0 <= m < cs.len() && #[trigger] cs[m].side == side && cs[m].index == index
                ==> cs[m].action != DeviceCommand::On
        }),
{
    lemma_step_commands(producers, consumers, lower_limit, upper_limit, watts, ts, now);
}

/// Whether a threshold-driven actor charges a battery or discharges it.
#[derive(Clone, Copy, Debug, PartialEq, Eq, Structural)]
pub enum ActorMode {
    Discharge,
    Charge,
}

/// Whether a threshold-driven actor should be on after a sample of `received`
/// watts, with hysteresis: a charger turns on below `enable_threshold` and off
/// above `disable_threshold`; a discharger turns on above `enable_threshold`
/// and off below `disable_threshold`.
pub open spec fn actor_should_be_on(
    on: bool,
    received: int,
    enable_threshold: int,
    disable_threshold: int,
    actor_mode: ActorMode,
) -> bool {
    match actor_mode {
        ActorMode::Charge => if !on {
            received < enable_threshold
        } else {
            !(received > disable_threshold)
        },
        ActorMode::Discharge => if !on {
            received > enable_threshold
        } else {
            !(received < disable_threshold)
        },
    }
}

pub fn compute_actor_state(
    on: bool,
    received: i32,
    enable_threshold: isize,
    disable_threshold: isize,
    actor_mode: ActorMode,
) -> (r: bool)
    ensures
        r == actor_should_be_on(on, received as int, enable_threshold as int, disable_threshold as int, actor_mode),
{
    let received = received as isize;
    match actor_mode {
        ActorMode::Charge => if !on {
            received < enable_threshold
        } else {
            !(received > disable_threshold)
        },
        ActorMode::Discharge => if !on {
            received > enable_threshold
        } else {
            !(received < disable_threshold)
        },
    }
}

/// Relies on `rand::random`: a value drawn from the thread-local generator;
/// nothing is promised of it.
pub assume_specification<T>[ rand::random::<T> ]() -> (r: T)
    where
        rand::distributions::Standard: rand::distributions::Distribution<T>,
;

/// An actor switched by thresholds on the grid exchange.
#[derive(Clone, Copy, Debug, PartialEq, Eq, Structural)]
pub struct ThresholdActor {
    pub actor_mode: ActorMode,
    pub on: bool,
    pub enable_threshold: isize,
    pub disable_threshold: isize,
}

impl ThresholdActor {
    /// Whether the actor should be on after a sample of `received` watts.
    pub fn should_be_on(&self, received: i32) -> (r: bool)
        ensures
            r == actor_should_be_on(
                self.on,
                received as int,
                self.enable_threshold as int,
                self.disable_threshold as int,
                self.actor_mode,
            ),
    {
        compute_actor_state(self.on, received, self.enable_threshold, self.disable_threshold, self.actor_mode)
    }
}

/// The indices of the actors of `mode`, in order.
pub open spec fn indices_of_mode(actors: Seq<ThresholdActor>, mode: ActorMode) -> Seq<int>
    decreases actors.len(),
{
    if actors.len() == 0 {
        Seq::empty()
    } else {
        let rest = indices_of_mode(actors.drop_last(), mode);
        if actors.last().actor_mode == mode {
            rest.push(actors.len() - 1)
        } else {
            rest
        }
    }
}

pub open spec fn any_on(actors: Seq<ThresholdActor>, mode: ActorMode) -> bool {
    exists|i: int| 0 <= i < actors.len() && actors[i].actor_mode == mode && #[trigger] actors[i].on
}

/// The `r`-th member, modulo their number, of a group of indices.
pub open spec fn pick_in(group: Seq<int>, r: int) -> Option<int> {
    if group.len() == 0 {
        None
    } else {
        Some(group[r % group.len() as int])
    }
}

/// The actor that the threshold rules act on, given a coin and a number drawn
/// at random: a discharger when one is on, else a charger when one is on, else
/// a discharger when there are any and the coin shows true, else a charger,
/// else a discharger; within the group, the one that the number picks.
pub open spec fn actor_choice(actors: Seq<ThresholdActor>, coin: bool, r: int) -> Option<int> {
    let dischargers = indices_of_mode(actors, ActorMode::Discharge);
    let chargers = indices_of_mode(actors, ActorMode::Charge);
    if chargers.len() == 0 {
        pick_in(dischargers, r)
    } else if dischargers.len() > 0 && any_on(actors, ActorMode::Discharge) {
        pick_in(dischargers, r)
    } else if any_on(actors, ActorMode::Charge) {
        pick_in(chargers, r)
    } else if dischargers.len() > 0 && coin {
        pick_in(dischargers, r)
    } else {
        pick_in(chargers, r)
    }
}

proof fn lemma_indices_of_mode(actors: Seq<ThresholdActor>, mode: ActorMode)
    ensures
        forall|k: int| 0 <= k < indices_of_mode(actors, mode).len() ==> {
            let i = #[trigger] indices_of_mode(actors, mode)[k];
            0 <= i < actors.len() && actors[i].actor_mode == mode
        },
        (exists|i: int| 0 <= i < actors.len() && actors[i].actor_mode == mode) ==> indices_of_mode(actors, mode).len() > 0,
    decreases actors.len(),
{
    if actors.len() > 0 {
        lemma_indices_of_mode(actors.drop_last(), mode);
        if exists|i: int| 0 <= i < actors.len() && actors[i].actor_mode == mode {
            let i = choose|i: int| 0 <= i < actors.len() && actors[i].actor_mode == mode;
            if i < actors.len() - 1 {
                assert(actors.drop_last()[i].actor_mode == mode);
            }
        }
    }
}

fn indices_of_mode_exec(actors: &Vec<ThresholdActor>, mode: ActorMode) -> (r: Vec<usize>)
    ensures
        r@.len() == indices_of_mode(actors@, mode).len(),
        forall|k: int| 0 <= k < r@.len() ==> r@[k] as int == #[trigger] indices_of_mode(actors@, mode)[k],
{
    let mut out: Vec<usize> = Vec::new();
    let mut i: usize = 0;
    while i < actors.len()
        invariant
            i <= actors@.len(),
            out@.len() == indices_of_mode(actors@.subrange(0, i as int), mode).len(),
            forall|k: int| 0 <= k < out@.len() ==> out@[k] as int == #[trigger] indices_of_mode(actors@.subrange(0, i as int), mode)[k],
        decreases actors@.len() - i,
    {
        assert(actors@.subrange(0, i + 1).drop_last() =~= actors@.subrange(0, i as int));
        if actors[i].actor_mode == mode {
            out.push(i);
        }
        i = i + 1;
    }
    assert(actors@.subrange(0, i as int) =~= actors@);
    out
}

fn any_on_exec(actors: &Vec<ThresholdActor>, mode: ActorMode) -> (r: bool)
    ensures
        r == any_on(actors@, mode),
{
    let mut i: usize = 0;
    while i < actors.len()
        invariant
            i <= actors@.len(),
            forall|j: int| 0 <= j < i ==> !(actors@[j].actor_mode == mode && #[trigger] actors@[j].on),
        decreases actors@.len() - i,
    {
        if actors[i].actor_mode == mode && actors[i].on {
            return true;
        }
        i = i + 1;
    }
    false
}

fn pick_in_exec(group: &Vec<usize>, r: usize) -> (res: Option<usize>)
    ensures
        match res {
            Some(i) => group@.len() > 0 && i == group@[r as int % group@.len() as int],
            None => group@.len() == 0,
        },
{
    if group.len() == 0 {
        None
    } else {
        Some(group[r % group.len()])
    }
}

/// The index of the actor that the threshold rules act on, for a given coin
/// and number, as `actor_choice` describes.
pub fn select_actor(actors: &Vec<ThresholdActor>, coin: bool, r: usize) -> (res: Option<usize>)
    ensures
        match res {
            Some(i) => actor_choice(actors@, coin, r as int) == Some(i as int),
            None => actor_choice(actors@, coin, r as int) is None,
        },
{
    let dischargers = indices_of_mode_exec(actors, ActorMode::Discharge);
    let chargers = indices_of_mode_exec(actors, ActorMode::Charge);
    let group = if chargers.len() == 0 {
        dischargers
    } else if dischargers.len() > 0 && any_on_exec(actors, ActorMode::Discharge) {
        dischargers
    } else if any_on_exec(actors, ActorMode::Charge) {
        chargers
    } else if dischargers.len() > 0 && coin {
        dischargers
    } else {
        chargers
    };
    pick_in_exec(&group, r)
}

/// The index of the actor that the threshold rules act on, chosen with a coin
/// and a number drawn at random; none only when there is no actor.
pub fn get_actor(actors: &Vec<ThresholdActor>) -> (res: Option<usize>)
    ensures
        match res {
            Some(i) => i < actors@.len() && exists|coin: bool, r: usize| actor_choice(actors@, coin, r as int) == Some(i as int),
            None => actors@.len() == 0,
        },
{
    let coin: bool = rand::random::<bool>();
    let r: usize = rand::random::<usize>();
    let res = select_actor(actors, coin, r);
    proof {
        lemma_indices_of_mode(actors@, ActorMode::Discharge);
        lemma_indices_of_mode(actors@, ActorMode::Charge);
        if actors@.len() > 0 {
            let a = actors@[0];
            if a.actor_mode == ActorMode::Discharge {
                assert(indices_of_mode(actors@, ActorMode::Discharge).len() > 0);
            } else {
                assert(indices_of_mode(actors@, ActorMode::Charge).len() > 0);
            }
        }
        match res {
            Some(i) => {
                let ds = indices_of_mode(actors@, ActorMode::Discharge);
                let cs = indices_of_mode(actors@, ActorMode::Charge);
                if ds.len() > 0 {
                    assert(0 <= ds[r as int % ds.len() as int] < actors@.len());
                }
                if cs.len() > 0 {
                    assert(0 <= cs[r as int % cs.len() as int] < actors@.len());
                }
            },
            None => {},
        }
    }
    res
}

/// An index below `len` drawn at random, or none when `len` is 0.
pub fn get_random_element(len: usize) -> (r: Option<usize>)
    ensures
        match r {
            Some(i) => i < len && exists|x: usize| i == #[trigger] (x % len),
            None => len == 0,
        },
{
    if len == 0 {
        return None;
    }
    let x: usize = rand::random::<usize>();
    Some(index_from_draw(x, len))
}

/// The index below `len` that the drawn number `x` picks: `x` modulo `len`.
pub fn index_from_draw(x: usize, len: usize) -> (r: usize)
    requires
        len > 0,
    ensures
        r == x % len,
        r < len,
{
    x % len
}

} // verus!
