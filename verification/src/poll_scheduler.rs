use vstd::prelude::*;

use crate::clock::{elapsed_between, elapsed_ms, now_millis};

verus! {

/// Time between two poll cycles while polling, in milliseconds.
pub const POLL_INTERVAL_MS: u64 = 3000;

/// How long the scheduler keeps polling after a boost when nothing runs.
pub const GRACE_DURATION_MS: u64 = 90000;

/// How long the scheduler keeps polling after the last build finished.
pub const COOLDOWN_DURATION_MS: u64 = 60000;

/// Cap on how long a single watched PR keeps the scheduler out of Sleep.
pub const PR_WATCH_CAP_MS: u64 = 3600000;

/// The phase of an active polling period.
#[derive(Debug, Clone, Copy, PartialEq, Eq, Structural)]
pub enum PollingPhase {
    Grace,
    Active,
    Cooldown,
}

/// Sleeping (no polling) or polling in a phase entered at `since`
/// (milliseconds since the UNIX epoch).
#[derive(Debug, Clone, Copy, PartialEq, Eq, Structural)]
pub enum PollState {
    Sleep,
    Polling { phase: PollingPhase, since: u64 },
}

/// The state that a boost at time `now` leads to: every state but Active
/// (re)enters Grace; Active is left alone.
pub open spec fn boost_spec(s: PollState, now: u64) -> PollState {
    match s {
        PollState::Polling { phase: PollingPhase::Active, .. } => s,
        _ => PollState::Polling { phase: PollingPhase::Grace, since: now },
    }
}

/// The state that a poll-cycle transition at time `now` leads to, given
/// whether any build is running.
pub open spec fn transition_spec(s: PollState, any_running: bool, now: u64) -> PollState {
    match s {
        PollState::Sleep => PollState::Sleep,
        PollState::Polling { phase: PollingPhase::Grace, since } => if any_running {
            PollState::Polling { phase: PollingPhase::Active, since: now }
        } else if elapsed_ms(since, now) >= GRACE_DURATION_MS {
            PollState::Sleep
        } else {
            s
        },
        PollState::Polling { phase: PollingPhase::Active, .. } => if !any_running {
            PollState::Polling { phase: PollingPhase::Cooldown, since: now }
        } else {
            s
        },
        PollState::Polling { phase: PollingPhase::Cooldown, since } => if any_running {
            PollState::Polling { phase: PollingPhase::Active, since: now }
        } else if elapsed_ms(since, now) >= COOLDOWN_DURATION_MS {
            PollState::Sleep
        } else {
            s
        },
    }
}

/// The polling state machine: Sleep until boosted, then Grace, Active
/// while builds run, Cooldown after they finish, and back to Sleep.
pub struct PollScheduler {
    state: PollState,
}

impl View for PollScheduler {
    type V = PollState;

    closed spec fn view(&self) -> PollState {
        self.state
    }
}

impl PollScheduler {
    /// A scheduler that sleeps.
    pub fn new() -> (s: Self)
        ensures
            s@ == PollState::Sleep,
    {
        PollScheduler { state: PollState::Sleep }
    }

    /// The current state.
    pub fn state(&self) -> (s: PollState)
        ensures
            s == self@,
    {
        self.state
    }

    /// The scheduler is polling (in any phase).
    pub fn is_polling(&self) -> (b: bool)
        ensures
            b == (self@ is Polling),
    {
        match self.state {
            PollState::Sleep => false,
            PollState::Polling { .. } => true,
        }
    }

    /// The time between poll cycles, in milliseconds.
    pub fn interval(&self) -> (ms: u64)
        ensures
            ms == POLL_INTERVAL_MS,
    {
        POLL_INTERVAL_MS
    }

    /// A boost (key press or push signal) at time `now`.
    pub fn boost_at(&mut self, now: u64)
        ensures
            final(self)@ == boost_spec(old(self)@, now),
    {
        match self.state {
            PollState::Polling { phase: PollingPhase::Active, .. } => {},
            _ => {
                self.state = PollState::Polling { phase: PollingPhase::Grace, since: now };
            },
        }
    }

    /// A boost now: the scheduler enters Grace, timed from the moment of the
    /// boost, unless builds are already being watched in Active.
    pub fn boost(&mut self)
        ensures
            exists|now: u64| final(self)@ == boost_spec(old(self)@, now),
    {
        let now = now_millis();
        self.boost_at(now);
    }

    /// The transition at the end of a poll cycle at time `now`.
    pub fn transition_at(&mut self, any_running: bool, now: u64)
        ensures
            final(self)@ == transition_spec(old(self)@, any_running, now),
    {
        match self.state {
            PollState::Sleep => {},
            PollState::Polling { phase: PollingPhase::Grace, since } => {
                if any_running {
                    self.state = PollState::Polling { phase: PollingPhase::Active, since: now };
                } else if elapsed_between(since, now) >= GRACE_DURATION_MS {
                    self.state = PollState::Sleep;
                }
            },
            PollState::Polling { phase: PollingPhase::Active, .. } => {
                if !any_running {
                    self.state = PollState::Polling { phase: PollingPhase::Cooldown, since: now };
                }
            },
            PollState::Polling { phase: PollingPhase::Cooldown, since } => {
                if any_running {
                    self.state = PollState::Polling { phase: PollingPhase::Active, since: now };
                } else if elapsed_between(since, now) >= COOLDOWN_DURATION_MS {
                    self.state = PollState::Sleep;
                }
            },
        }
    }

    /// The transition at the end of a poll cycle, timed now.
    pub fn transition(&mut self, any_running: bool)
        ensures
            exists|now: u64| final(self)@ == transition_spec(old(self)@, any_running, now),
    {
        let now = now_millis();
        self.transition_at(any_running, now);
    }

    /// Puts the scheduler in `phase`, entered `age_ms` milliseconds before
    /// `now` (or at `now` when that would lie before the epoch).
    pub fn force_phase_since_at(&mut self, phase: PollingPhase, age_ms: u64, now: u64)
        ensures
            final(self)@ == (PollState::Polling {
                phase,
                since: if age_ms <= now { (now - age_ms) as u64 } else { now },
            }),
    {
        let since = if age_ms <= now { now - age_ms } else { now };
        self.state = PollState::Polling { phase, since };
    }

    /// Puts the scheduler in `phase`, entered `age_ms` milliseconds ago.
    pub fn force_phase_since(&mut self, phase: PollingPhase, age_ms: u64)
        ensures
            final(self)@ is Polling,
            final(self)@->phase == phase,
    {
        let now = now_millis();
        self.force_phase_since_at(phase, age_ms, now);
    }
}

/// Sleep is left only by a boost: a poll-cycle transition never wakes the
/// scheduler, whatever runs.
pub proof fn lemma_sleep_is_left_only_by_boost(any_running: bool, now: u64)
    ensures
        transition_spec(PollState::Sleep, any_running, now) == PollState::Sleep,
        boost_spec(PollState::Sleep, now) == (PollState::Polling {
            phase: PollingPhase::Grace,
            since: now,
        }),
{
}

/// After a boost the scheduler is always polling, and it is in Grace
/// (timed from the boost) unless it was already in Active.
pub proof fn lemma_boost_always_polls(s: PollState, now: u64)
    ensures
        boost_spec(s, now) is Polling,
        !(s matches PollState::Polling { phase: PollingPhase::Active, .. }) ==> boost_spec(s, now)
            == (PollState::Polling { phase: PollingPhase::Grace, since: now }),
        (s matches PollState::Polling { phase: PollingPhase::Active, .. }) ==> boost_spec(s, now)
            == s,
{
}

/// A second boost at the same moment changes nothing.
pub proof fn lemma_boost_idempotent(s: PollState, now: u64)
    ensures
        boost_spec(boost_spec(s, now), now) == boost_spec(s, now),
{
}

/// A transition never enters Grace: Grace is reached only by a boost.
pub proof fn lemma_transition_never_enters_grace(s: PollState, any_running: bool, now: u64)
    ensures
        (transition_spec(s, any_running, now) matches PollState::Polling {
            phase: PollingPhase::Grace,
            ..
        }) ==> transition_spec(s, any_running, now) == s,
{
}

/// Running builds keep a polling scheduler in (or bring it to) Active;
/// with nothing running, Active gives way to Cooldown.
pub proof fn lemma_running_builds_mean_active(s: PollState, now: u64)
    ensures
        s is Polling ==> transition_spec(s, true, now) is Polling && transition_spec(
            s,
            true,
            now,
        )->phase == PollingPhase::Active,
        (s matches PollState::Polling { phase: PollingPhase::Active, .. }) ==> transition_spec(
            s,
            false,
            now,
        ) == (PollState::Polling { phase: PollingPhase::Cooldown, since: now }),
{
}

/// Without running builds, Grace and Cooldown end in Sleep once their
/// window has passed, and not before.
pub proof fn lemma_windows_expire_to_sleep(phase: PollingPhase, since: u64, now: u64)
    requires
        phase != PollingPhase::Active,
    ensures
        ({
            let s = PollState::Polling { phase, since };
            let window = if phase == PollingPhase::Grace {
                GRACE_DURATION_MS
            } else {
                COOLDOWN_DURATION_MS
            };
            &&& elapsed_ms(since, now) >= window ==> transition_spec(s, false, now)
                == PollState::Sleep
            &&& elapsed_ms(since, now) < window ==> transition_spec(s, false, now) == s
        }),
{
}

} // verus!
