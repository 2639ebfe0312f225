//! A structured view of what the loader is doing right now.
//!
//! The numbers live here, updated once per tensor, instead of in a log line
//! that would have to be parsed back. What a reader must never see is a
//! finished or abandoned load shown as live: every load takes a generation,
//! and a guard settles the state however the load ends.
//!
//! Clock readings are unix milliseconds and come from the caller.

use vstd::prelude::*;

verus! {

/// What the runner is doing. A phase that carries counts renders as a
/// determinate bar; one that cannot know its own size renders indeterminate.
#[derive(Debug, Clone, Copy, PartialEq, Eq, Structural)]
pub enum Phase {
    /// Nothing is loading. The only phase a failed load may leave behind.
    Idle,
    /// Reading weights. Counted: tensors and bytes.
    Loading,
    /// Building the host twins from resident weights. Uncounted.
    Packing,
    /// First forward pass. Uncounted.
    Warming,
    /// Resident and answering. Held until the next load begins.
    Ready,
}

impl Phase {
    /// The wire name.
    pub fn as_str(self) -> (r: &'static str)
        ensures
            r@ == (match self {
                Phase::Idle => "idle"@,
                Phase::Loading => "loading"@,
                Phase::Packing => "packing"@,
                Phase::Warming => "warming"@,
                Phase::Ready => "ready"@,
            }),
    {
        match self {
            Phase::Idle => "idle",
            Phase::Loading => "loading",
            Phase::Packing => "packing",
            Phase::Warming => "warming",
            Phase::Ready => "ready",
        }
    }

    /// Is a load actually in flight? `Ready` is a resting state, not work.
    pub fn is_working(self) -> (r: bool)
        ensures
            r == (self == Phase::Loading || self == Phase::Packing || self == Phase::Warming),
    {
        match self {
            Phase::Loading | Phase::Packing | Phase::Warming => true,
            Phase::Idle | Phase::Ready => false,
        }
    }
}

/// The loader's state.
#[derive(Debug)]
pub struct Progress {
    pub generation: u64,
    pub phase: Phase,
    pub model: String,
    pub done: u64,
    pub expected: u64,
    pub bytes: u64,
    pub started_ms: u64,
    pub updated_ms: u64,
}

/// One reading of the loader's state.
#[derive(Debug, Clone, PartialEq, Eq)]
pub struct Snapshot {
    /// Which load this describes. Bumped by every [`Load::begin`].
    pub generation: u64,
    pub phase: Phase,
    /// The model being loaded, empty when nothing is.
    pub model: String,
    pub done: u64,
    /// 0 means "no count": render indeterminate, not 0%.
    pub expected: u64,
    pub bytes: u64,
    /// When the current phase began.
    pub started_ms: u64,
    /// When the last advance or phase change was.
    pub updated_ms: u64,
}

/// The loader's state by content.
#[verifier::ext_equal]
pub struct State {
    pub generation: u64,
    pub phase: Phase,
    pub model: Seq<char>,
    pub done: u64,
    pub expected: u64,
    pub bytes: u64,
    pub started_ms: u64,
    pub updated_ms: u64,
}

impl View for Progress {
    type V = State;

    open spec fn view(&self) -> State {
        State {
            generation: self.generation,
            phase: self.phase,
            model: self.model@,
            done: self.done,
            expected: self.expected,
            bytes: self.bytes,
            started_ms: self.started_ms,
            updated_ms: self.updated_ms,
        }
    }
}

impl View for Snapshot {
    type V = State;

    open spec fn view(&self) -> State {
        State {
            generation: self.generation,
            phase: self.phase,
            model: self.model@,
            done: self.done,
            expected: self.expected,
            bytes: self.bytes,
            started_ms: self.started_ms,
            updated_ms: self.updated_ms,
        }
    }
}

/// A counted phase just entered: `expected` items, zero done, the clock
/// restarted.
pub open spec fn in_phase(s: State, phase: Phase, expected: u64, now: u64) -> State {
    State {
        phase,
        done: 0,
        expected,
        bytes: 0,
        started_ms: now,
        updated_ms: now,
        ..s
    }
}

/// Nothing in flight, and no model named.
pub open spec fn at_rest(s: State, now: u64) -> State {
    State { model: Seq::empty(), ..in_phase(s, Phase::Idle, 0, now) }
}

/// A load of `model` just begun.
pub open spec fn begun(s: State, model: Seq<char>, now: u64) -> State {
    State {
        generation: (s.generation + 1) as u64,
        model,
        ..in_phase(s, Phase::Loading, 0, now)
    }
}

/// The state after a load's guard ended: a load that never became ready
/// leaves nothing in flight, unless a newer load owns the state.
pub open spec fn ended(s: State, generation: u64, done: bool, now: u64) -> State {
    if !done && s.generation == generation {
        at_rest(s, now)
    } else {
        s
    }
}

impl Progress {
    /// Nothing has ever been loaded.
    pub fn new() -> (r: Self)
        ensures
            r@ == (State {
                generation: 0,
                phase: Phase::Idle,
                model: Seq::empty(),
                done: 0,
                expected: 0,
                bytes: 0,
                started_ms: 0,
                updated_ms: 0,
            }),
    {
        let r: Progress = Progress {
            generation: 0,
            phase: Phase::Idle,
            model: String::new(),
            done: 0,
            expected: 0,
            bytes: 0,
            started_ms: 0,
            updated_ms: 0,
        };
        assert(r.model@ =~= Seq::<char>::empty());
        r
    }
}

/// Enter a counted phase. `expected` of 0 means the phase has no count.
///
/// The clock restarts: it marks the beginning of the current phase, so the
/// rate describes the work actually being done.
pub fn begin(s: &mut Progress, phase: Phase, expected: u64, now: u64)
    ensures
        final(s)@ == in_phase(old(s)@, phase, expected, now),
{
    s.done = 0;
    s.bytes = 0;
    s.expected = expected;
    s.started_ms = now;
    s.updated_ms = now;
    s.phase = phase;
}

/// Report progress inside the current phase: both counts are cumulative.
pub fn advance(s: &mut Progress, done: u64, bytes: u64, now: u64)
    ensures
        final(s)@ == (State { done, bytes, updated_ms: now, ..old(s)@ }),
{
    s.done = done;
    s.bytes = bytes;
    s.updated_ms = now;
}

/// Switch to an uncounted phase. The previous phase's counts are dropped, not
/// carried.
pub fn phase(s: &mut Progress, p: Phase, now: u64)
    ensures
        final(s)@ == in_phase(old(s)@, p, 0, now),
{
    begin(s, p, 0, now);
}

/// The load succeeded: the model is resident and answering.
pub fn finish(s: &mut Progress, now: u64)
    ensures
        final(s)@ == in_phase(old(s)@, Phase::Ready, 0, now),
{
    phase(s, Phase::Ready, now);
}

/// Back to nothing in flight: what a failed or abandoned load leaves behind.
pub fn idle(s: &mut Progress, now: u64)
    ensures
        final(s)@ == at_rest(old(s)@, now),
{
    phase(s, Phase::Idle, now);
    s.model = String::new();
    assert(s.model@ =~= Seq::<char>::empty());
}

/// The resident model is gone. Only a `Ready` claim needs retracting: a
/// working phase owns this state, and `Idle` already is the answer.
pub fn evicted(s: &mut Progress, now: u64)
    ensures
        final(s)@ == (if old(s).phase == Phase::Ready {
            at_rest(old(s)@, now)
        } else {
            old(s)@
        }),
{
    if s.phase == Phase::Ready {
        idle(s, now);
    }
}

/// Read the current state.
pub fn snapshot(s: &Progress) -> (r: Snapshot)
    ensures
        r@ == s@,
{
    Snapshot {
        generation: s.generation,
        phase: s.phase,
        model: s.model.clone(),
        done: s.done,
        expected: s.expected,
        bytes: s.bytes,
        started_ms: s.started_ms,
        updated_ms: s.updated_ms,
    }
}

/// One load's claim on the progress state.
///
/// A load can end without reaching the end of its function. Whoever holds the
/// guard calls [`Load::end`] on every way out, and the state goes back to
/// [`Phase::Idle`] unless [`Load::ready`] was called.
#[derive(Debug)]
pub struct Load {
    pub generation: u64,
    /// Set by [`Load::ready`].
    pub done: bool,
}

impl Load {
    /// Begin a load for `model_name`, taking ownership of the progress state.
    pub fn begin(s: &mut Progress, model_name: &str, now: u64) -> (r: Self)
        requires
            old(s).generation < u64::MAX,
        ensures
            final(s)@ == begun(old(s)@, model_name@, now),
            r.generation == final(s).generation,
            !r.done,
    {
        s.generation = s.generation + 1;
        s.model = model_name.to_owned();
        begin(s, Phase::Loading, 0, now);
        Load { generation: s.generation, done: false }
    }

    /// The generation this guard owns.
    pub fn generation(&self) -> (r: u64)
        ensures
            r == self.generation,
    {
        self.generation
    }

    /// Is this still the live load?
    pub fn current(&self, s: &Progress) -> (r: bool)
        ensures
            r == (s.generation == self.generation),
    {
        s.generation == self.generation
    }

    /// Move to `p`, unless a newer load has taken over.
    pub fn phase(&self, s: &mut Progress, p: Phase, now: u64)
        ensures
            final(s)@ == (if old(s).generation == self.generation {
                in_phase(old(s)@, p, 0, now)
            } else {
                old(s)@
            }),
    {
        if self.current(s) {
            phase(s, p, now);
        }
    }

    /// Enter a counted phase, unless a newer load has taken over.
    pub fn begin_phase(&self, s: &mut Progress, p: Phase, expected: u64, now: u64)
        ensures
            final(s)@ == (if old(s).generation == self.generation {
                in_phase(old(s)@, p, expected, now)
            } else {
                old(s)@
            }),
    {
        if self.current(s) {
            begin(s, p, expected, now);
        }
    }

    /// The load succeeded: settle on [`Phase::Ready`] and disarm the reset.
    /// Calling it twice is harmless.
    pub fn ready(&mut self, s: &mut Progress, now: u64)
        ensures
            final(self).generation == old(self).generation,
            final(self).done,
            final(s)@ == (if old(s).generation == old(self).generation {
                in_phase(old(s)@, Phase::Ready, 0, now)
            } else {
                old(s)@
            }),
    {
        self.done = true;
        if self.current(s) {
            finish(s, now);
        }
    }

    /// The guard goes away, on whatever way out.
    pub fn end(self, s: &mut Progress, now: u64)
        ensures
            final(s)@ == ended(old(s)@, self.generation, self.done, now),
    {
        if !self.done && self.current(s) {
            idle(s, now);
        }
    }
}

/// An older load's guard keeps its hands off a newer load: once a load has
/// begun, ending any guard of an earlier generation changes nothing.
pub proof fn a_stale_guard_changes_nothing(
    s: State,
    model: Seq<char>,
    began: u64,
    generation: u64,
    done: bool,
    now: u64,
)
    requires
        s.generation < u64::MAX,
        generation <= s.generation,
    ensures
        ended(begun(s, model, began), generation, done, now) == begun(s, model, began),
{
}

/// A load that fails leaves nothing of itself behind but its generation: no
/// phase, no name, no counts.
pub proof fn a_failed_load_leaves_nothing(s: State, model: Seq<char>, began: u64, now: u64)
    requires
        s.generation < u64::MAX,
    ensures
        ({
            let live = begun(s, model, began);
            let after = ended(live, live.generation, false, now);
            &&& after.phase == Phase::Idle
            &&& after.model.len() == 0
            &&& after.done == 0
            &&& after.expected == 0
            &&& after.bytes == 0
            &&& after.generation == live.generation
        }),
{
}

/// Counts of a previous load are never visible under the next one's label.
pub proof fn a_new_load_starts_from_zero(s: State, model: Seq<char>, now: u64)
    ensures
        begun(s, model, now).done == 0,
        begun(s, model, now).expected == 0,
        begun(s, model, now).bytes == 0,
        begun(s, model, now).model == model,
{
}

impl Snapshot {
    /// Milliseconds spent in the current phase: a clock step backwards counts
    /// as none, and there is no clock before the first load.
    pub open spec fn elapsed(self, now: u64) -> Option<int> {
        let end = if now > self.updated_ms {
            now
        } else {
            self.updated_ms
        };
        if self.started_ms == 0 {
            None
        } else if end >= self.started_ms {
            Some(end - self.started_ms)
        } else {
            Some(0)
        }
    }

    /// Milliseconds spent in the current phase.
    pub fn elapsed_ms(&self, now: u64) -> (r: Option<u64>)
        ensures
            match r {
                Some(ms) => self.elapsed(now) == Some(ms as int),
                None => self.elapsed(now) is None,
            },
    {
        if self.started_ms == 0 {
            return None;
        }
        let end: u64 = if now > self.updated_ms {
            now
        } else {
            self.updated_ms
        };
        if end >= self.started_ms {
            Some(end - self.started_ms)
        } else {
            Some(0)
        }
    }

    /// `(bytes, milliseconds)` whose quotient is the rate; `None` when nothing
    /// was read yet or no measurable time has passed.
    pub fn rate_parts(&self, now: u64) -> (r: Option<(u64, u64)>)
        ensures
            match r {
                Some(p) => self.elapsed(now) == Some(p.1 as int) && p.1 > 0 && p.0 == self.bytes
                    && self.bytes > 0,
                None => self.elapsed(now) is None || self.elapsed(now) == Some(0int)
                    || self.bytes == 0,
            },
    {
        match self.elapsed_ms(now) {
            None => None,
            Some(ms) => if self.bytes == 0 || ms == 0 {
                None
            } else {
                Some((self.bytes, ms))
            },
        }
    }

    /// `(milliseconds, items left, items done)`: the time left is the elapsed
    /// time by the items left over the items done. `None` without a total, an
    /// item done and a measurable time.
    pub fn eta_parts(&self, now: u64) -> (r: Option<(u64, u64, u64)>)
        ensures
            match r {
                Some(p) => {
                    &&& self.elapsed(now) == Some(p.0 as int)
                    &&& p.0 > 0
                    &&& p.1 == (if self.expected >= self.done {
                        self.expected - self.done
                    } else {
                        0
                    })
                    &&& p.2 == self.done
                    &&& self.done > 0
                    &&& self.expected > 0
                },
                None => self.elapsed(now) is None || self.elapsed(now) == Some(0int)
                    || self.expected == 0 || self.done == 0,
            },
    {
        match self.elapsed_ms(now) {
            None => None,
            Some(ms) => if self.expected == 0 || self.done == 0 || ms == 0 {
                None
            } else {
                let left: u64 = if self.expected >= self.done {
                    self.expected - self.done
                } else {
                    0
                };
                Some((ms, left, self.done))
            },
        }
    }

    /// `(done, expected)` whose quotient is the fraction complete, never past
    /// 1; `None` when this phase has no count.
    pub fn fraction_parts(&self) -> (r: Option<(u64, u64)>)
        ensures
            match r {
                Some(p) => {
                    &&& self.expected > 0
                    &&& p.1 == self.expected
                    &&& p.0 == (if self.done > self.expected {
                        self.expected
                    } else {
                        self.done
                    })
                },
                None => self.expected == 0,
            },
    {
        if self.expected == 0 {
            return None;
        }
        if self.done > self.expected {
            Some((self.expected, self.expected))
        } else {
            Some((self.done, self.expected))
        }
    }
}

} // verus!
