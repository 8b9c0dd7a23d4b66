//! The decisions of the poll loop: what a boost or a push signal does to
//! the scheduler and the shown state, and how a finished poll cycle moves
//! the scheduler on.  The loop itself (waiting on keys, signals and
//! timers) runs outside the library and hands these functions its events.

use vstd::prelude::*;

use crate::app::{any_running_spec, pr_keeps_polling, some_link_dangles, App};
use crate::clock::now_millis;
use crate::linkage::LinkMap;
use crate::poll_scheduler::{boost_spec, transition_spec, PollScheduler, PollState, PR_WATCH_CAP_MS};

verus! {

/// What woke the poll loop early.
#[derive(Debug, Clone, Copy, PartialEq, Eq, Structural)]
pub enum InterruptSource {
    /// The boost key.
    Boost,
    /// A push signal sent by the pre-push hook.
    Sigusr1,
}

/// The app after an interrupt from `source` at `now` that left the
/// scheduler in `state`: the state is shown, and a push signal is
/// remembered for the status bar.
pub open spec fn interrupted_app(a: App, state: PollState, source: InterruptSource, now: u64) -> App {
    App {
        poll_state: state,
        push_signal_at: match source {
            InterruptSource::Sigusr1 => Some(now),
            InterruptSource::Boost => a.push_signal_at,
        },
        ..a
    }
}

/// An interrupt at `now`: the scheduler is boosted (see
/// [`boost_spec`]) and the app shows its new state; a push signal is also
/// time-stamped.
pub fn handle_poll_interrupt_at(app: &mut App, scheduler: &mut PollScheduler, source: InterruptSource, now: u64)
    ensures
        final(scheduler)@ == boost_spec(old(scheduler)@, now),
        final(scheduler)@ is Polling,
        *final(app) == interrupted_app(*old(app), final(scheduler)@, source, now),
{
    scheduler.boost_at(now);
    app.poll_state = scheduler.state();
    match source {
        InterruptSource::Sigusr1 => {
            app.push_signal_at = Some(now);
        },
        InterruptSource::Boost => {},
    }
}

/// An interrupt now (see [`handle_poll_interrupt_at`]).
pub fn handle_poll_interrupt(app: &mut App, scheduler: &mut PollScheduler, source: InterruptSource)
    ensures
        exists|now: u64|
            {
                &&& final(scheduler)@ == boost_spec(old(scheduler)@, now)
                &&& *final(app) == interrupted_app(*old(app), final(scheduler)@, source, now)
            },
        final(scheduler)@ is Polling,
{
    let now = now_millis();
    handle_poll_interrupt_at(app, scheduler, source, now);
}

/// The first poll at start-up: the scheduler is boosted at `now` and the
/// app shows its state.
pub fn bootstrap_initial_poll_at(app: &mut App, scheduler: &mut PollScheduler, now: u64)
    ensures
        final(scheduler)@ == boost_spec(old(scheduler)@, now),
        final(scheduler)@ is Polling,
        *final(app) == (App { poll_state: final(scheduler)@, ..*old(app) }),
{
    scheduler.boost_at(now);
    app.poll_state = scheduler.state();
}

/// The first poll at start-up, now (see [`bootstrap_initial_poll_at`]).
pub fn bootstrap_initial_poll(app: &mut App, scheduler: &mut PollScheduler)
    ensures
        exists|now: u64| final(scheduler)@ == boost_spec(old(scheduler)@, now),
        final(scheduler)@ is Polling,
        *final(app) == (App { poll_state: final(scheduler)@, ..*old(app) }),
{
    let now = now_millis();
    bootstrap_initial_poll_at(app, scheduler, now);
}

/// Something keeps the scheduler polling at `now`: a build runs or is
/// awaited, or a watched pull request is still open within the watch cap.
pub open spec fn effective_any_running_spec(a: App, now: u64) -> bool {
    any_running_spec(a.pipeline_groups@, a.workflow_groups@) || exists|i: int|
        0 <= i < a.watched_prs@.len() && pr_keeps_polling(a.watched_prs@[i], PR_WATCH_CAP_MS, now)
}

/// Whether something keeps the scheduler polling at `now` (see
/// [`effective_any_running_spec`]).
pub fn effective_any_running(app: &App, now: u64) -> (r: bool)
    ensures
        r == effective_any_running_spec(*app, now),
{
    app.has_any_running() || app.has_watched_open_prs(PR_WATCH_CAP_MS, now)
}

/// The end of a poll cycle at `now`, once the results are in: the link
/// health is checked, the scheduler moves on according to whether
/// anything keeps it polling (see [`effective_any_running_spec`] and
/// [`transition_spec`]), and the app shows the new state.  Returns whether
/// anything keeps it polling.
pub fn end_poll_cycle_at(app: &mut App, link_map: &LinkMap, scheduler: &mut PollScheduler, now: u64) -> (any_running: bool)
    ensures
        any_running == effective_any_running_spec(*old(app), now),
        final(scheduler)@ == transition_spec(old(scheduler)@, any_running, now),
        *final(app) == (App {
            poll_state: final(scheduler)@,
            linkage_broken: if old(app).loading_pipelines || old(app).loading_actions {
                old(app).linkage_broken
            } else {
                some_link_dangles(link_map@.links, old(app).pipeline_groups@, old(app).workflow_groups@)
            },
            ..*old(app)
        }),
{
    app.check_linkage_health(link_map);
    let any_running = effective_any_running(app, now);
    scheduler.transition_at(any_running, now);
    app.poll_state = scheduler.state();
    any_running
}

/// The end of a poll cycle, now (see [`end_poll_cycle_at`]).
pub fn end_poll_cycle(app: &mut App, link_map: &LinkMap, scheduler: &mut PollScheduler) -> (any_running: bool)
    ensures
        exists|now: u64|
            {
                &&& any_running == effective_any_running_spec(*old(app), now)
                &&& final(scheduler)@ == transition_spec(old(scheduler)@, any_running, now)
            },
        final(app).poll_state == final(scheduler)@,
        final(app).pipeline_groups == old(app).pipeline_groups,
        final(app).workflow_groups == old(app).workflow_groups,
{
    let now = now_millis();
    end_poll_cycle_at(app, link_map, scheduler, now)
}


/// While a watched pull request is open within the watch cap, the end of
/// a poll cycle never puts a polling scheduler to sleep.
pub proof fn lemma_open_watched_pr_keeps_polling(a: App, s: PollState, i: int, now: u64)
    requires
        s is Polling,
        0 <= i < a.watched_prs@.len(),
        pr_keeps_polling(a.watched_prs@[i], PR_WATCH_CAP_MS, now),
    ensures
        effective_any_running_spec(a, now),
        transition_spec(s, effective_any_running_spec(a, now), now) is Polling,
{
}

} // verus!
