use cibars::app::App;
use cibars::linkage::LinkMap;
use cibars::model::WatchedPrState;
use cibars::orchestrator::{effective_any_running, end_poll_cycle_at, handle_poll_interrupt_at, InterruptSource};
use cibars::poll_scheduler::{PollScheduler, PollState, PollingPhase, COOLDOWN_DURATION_MS, PR_WATCH_CAP_MS};
use cibars::poller::{apply_pr_states, pr_poll_candidates};

const MIN_INTERVAL_MS: u64 = 30_000;

fn set_pr(app: &mut App, number: u64, state: WatchedPrState, last_checked: Option<u64>, now: u64) {
    app.add_or_update_watched_prs(&[number], now);
    let entry = app.watched_prs.iter_mut().find(|p| p.number == number).unwrap();
    entry.state = state;
    entry.last_checked = last_checked;
}

fn pr(app: &App, number: u64) -> cibars::model::WatchedPr {
    *app.watched_prs.iter().find(|p| p.number == number).unwrap()
}

/// One round of PR-state polling against scripted answers (None: the
/// fetch failed); returns the numbers fetched and whether a merge was seen.
fn poll_round(app: &mut App, answers: &[(u64, Option<WatchedPrState>)], now: u64) -> (Vec<u64>, bool) {
    let due = pr_poll_candidates(app, MIN_INTERVAL_MS, now);
    let results: Vec<(u64, Option<WatchedPrState>)> = due
        .iter()
        .map(|n| (*n, answers.iter().find(|(m, _)| m == n).and_then(|(_, s)| *s)))
        .collect();
    let merged = apply_pr_states(app, &results, now);
    (due, merged)
}

#[test]
fn effective_any_running_is_false_for_fresh_app() {
    let app = App::new();
    assert!(!effective_any_running(&app, 1_000_000));
}

#[test]
fn effective_any_running_true_when_watched_pr_open() {
    let mut app = App::new();
    app.add_or_update_watched_prs(&[7], 1_000_000);
    assert!(effective_any_running(&app, 1_000_000));
}

#[test]
fn effective_any_running_false_when_watched_pr_merged() {
    let mut app = App::new();
    set_pr(&mut app, 7, WatchedPrState::Merged, None, 1_000_000);
    assert!(!effective_any_running(&app, 1_000_000));
}

#[test]
fn watched_open_pr_prevents_cooldown_to_sleep() {
    let now = 10_000_000;
    let mut app = App::new();
    app.add_or_update_watched_prs(&[7], now);

    let mut scheduler = PollScheduler::new();
    scheduler.boost_at(now - 200_000);
    scheduler.transition_at(true, now - 150_000);
    scheduler.transition_at(false, now - 100_000);
    scheduler.force_phase_since_at(PollingPhase::Cooldown, COOLDOWN_DURATION_MS + 1_000, now);

    let any = end_poll_cycle_at(&mut app, &LinkMap::new(), &mut scheduler, now);
    assert!(any);
    assert_ne!(scheduler.state(), PollState::Sleep, "scheduler must not enter Sleep while a watched PR is still Open");
}

#[test]
fn add_or_update_keeps_known_prs_as_they_are() {
    let mut app = App::new();
    app.add_or_update_watched_prs(&[7, 8, 7], 1_000);
    assert_eq!(app.watched_prs.len(), 2);
    set_pr(&mut app, 7, WatchedPrState::Merged, Some(1_500), 1_000);
    app.add_or_update_watched_prs(&[7, 9], 2_000);
    assert_eq!(app.watched_prs.len(), 3);
    assert_eq!(pr(&app, 7).state, WatchedPrState::Merged);
    assert_eq!(pr(&app, 7).first_seen, 1_000);
    assert_eq!(pr(&app, 9).state, WatchedPrState::Open);
    assert_eq!(pr(&app, 9).first_seen, 2_000);
    assert!(pr(&app, 9).last_checked.is_none());
}

#[test]
fn poll_pr_states_skips_merged_prs() {
    let mut app = App::new();
    set_pr(&mut app, 7, WatchedPrState::Merged, None, 1_000);
    let (due, merged) = poll_round(&mut app, &[], 2_000);
    assert!(!merged);
    assert!(due.is_empty(), "terminal state must not be polled");
}

#[test]
fn poll_pr_states_skips_closed_unmerged_prs() {
    let mut app = App::new();
    set_pr(&mut app, 7, WatchedPrState::ClosedUnmerged, None, 1_000);
    let (due, merged) = poll_round(&mut app, &[], 2_000);
    assert!(!merged);
    assert!(due.is_empty());
}

#[test]
fn poll_pr_states_skips_prs_polled_within_min_interval() {
    let now = 100_000;
    let mut app = App::new();
    set_pr(&mut app, 7, WatchedPrState::Open, Some(now - 10_000), now - 60_000);
    let (due, _) = poll_round(&mut app, &[], now);
    assert!(due.is_empty(), "throttle should suppress this poll");
}

#[test]
fn poll_pr_states_polls_stale_open_pr() {
    let now = 100_000;
    let mut app = App::new();
    set_pr(&mut app, 7, WatchedPrState::Open, Some(now - 60_000), now - 90_000);
    let (due, merged) = poll_round(&mut app, &[(7, Some(WatchedPrState::Open))], now);
    assert!(!merged, "Open → Open is not a merge transition");
    assert_eq!(due, vec![7]);
    assert_eq!(pr(&app, 7).last_checked, Some(now));
}

#[test]
fn poll_pr_states_polls_unknown_pr() {
    let mut app = App::new();
    set_pr(&mut app, 7, WatchedPrState::Unknown, None, 1_000);
    let (due, _) = poll_round(&mut app, &[], 2_000);
    assert_eq!(due, vec![7]);
}

#[test]
fn poll_pr_states_keeps_prior_state_on_error() {
    let mut app = App::new();
    set_pr(&mut app, 7, WatchedPrState::Open, None, 1_000);
    let (_, merged) = poll_round(&mut app, &[(7, None)], 2_000);
    assert!(!merged);
    assert_eq!(pr(&app, 7).state, WatchedPrState::Open);
    assert!(pr(&app, 7).last_checked.is_none(), "error must leave last_checked untouched so next tick retries");
}

#[test]
fn poll_pr_states_returns_true_on_open_to_merged() {
    let mut app = App::new();
    set_pr(&mut app, 7, WatchedPrState::Open, None, 1_000);
    let (_, merged) = poll_round(&mut app, &[(7, Some(WatchedPrState::Merged))], 2_000);
    assert!(merged);
    assert_eq!(pr(&app, 7).state, WatchedPrState::Merged);
}

#[test]
fn poll_pr_states_returns_true_exactly_once_across_two_ticks() {
    let mut app = App::new();
    set_pr(&mut app, 7, WatchedPrState::Open, None, 1_000);
    let answers = [(7, Some(WatchedPrState::Merged))];
    let (due1, merged1) = poll_round(&mut app, &answers, 2_000);
    assert!(merged1, "first tick detects merge");
    let (due2, merged2) = poll_round(&mut app, &answers, 100_000);
    assert!(!merged2, "no re-boost on subsequent tick");
    assert_eq!(due1.len() + due2.len(), 1, "terminal state must prevent further API calls");
}

#[test]
fn unknown_number_in_results_changes_nothing() {
    let mut app = App::new();
    set_pr(&mut app, 7, WatchedPrState::Open, None, 1_000);
    let merged = apply_pr_states(&mut app, &[(8, Some(WatchedPrState::Merged))], 2_000);
    assert!(!merged);
    assert_eq!(pr(&app, 7).state, WatchedPrState::Open);
    assert_eq!(app.watched_prs.len(), 1);
}

#[test]
fn e2e_pr_run_keeps_polling_active() {
    let now = 10_000_000;
    let mut app = App::new();
    app.add_or_update_watched_prs(&[11], now);

    let mut scheduler = PollScheduler::new();
    scheduler.boost_at(now - 200_000);
    scheduler.transition_at(true, now - 150_000);
    scheduler.transition_at(false, now - 100_000);
    scheduler.force_phase_since_at(PollingPhase::Cooldown, COOLDOWN_DURATION_MS + 1_000, now);

    assert!(effective_any_running(&app, now), "harvested watched PR must make effective_any_running true");
    end_poll_cycle_at(&mut app, &LinkMap::new(), &mut scheduler, now);
    assert_ne!(scheduler.state(), PollState::Sleep, "scheduler must not drain to Sleep while PR is Open");
}

#[test]
fn e2e_pr_merge_flips_scheduler_back_to_grace() {
    let mut app = App::new();
    set_pr(&mut app, 11, WatchedPrState::Open, None, 1_000);

    let mut scheduler = PollScheduler::new();
    scheduler.boost_at(1_000);
    scheduler.transition_at(true, 2_000);
    scheduler.transition_at(false, 3_000);
    assert_eq!(scheduler.state(), PollState::Polling { phase: PollingPhase::Cooldown, since: 3_000 });

    let (_, merge_detected) = poll_round(&mut app, &[(11, Some(WatchedPrState::Merged))], 4_000);
    assert!(merge_detected, "Open → Merged must surface from the tick");

    handle_poll_interrupt_at(&mut app, &mut scheduler, InterruptSource::Boost, 4_000);
    assert_eq!(scheduler.state(), PollState::Polling { phase: PollingPhase::Grace, since: 4_000 });
}

#[test]
fn e2e_pr_watch_expires_after_cap() {
    let t0 = 1_000;
    let mut app = App::new();
    app.add_or_update_watched_prs(&[11], t0);

    let later = t0 + PR_WATCH_CAP_MS + 1_000;
    assert!(!app.has_watched_open_prs(PR_WATCH_CAP_MS, later), "past-cap PR must not keep polling active");
    assert!(app.has_watched_open_prs(PR_WATCH_CAP_MS, t0 + PR_WATCH_CAP_MS - 1));
    app.prune_expired_prs(PR_WATCH_CAP_MS, later);
    assert!(!app.watched_prs.iter().any(|p| p.number == 11), "prune_expired_prs must drop entries past cap");
}

#[test]
fn poll_actions_tick_records_pr_numbers_in_app() {
    let mut app = App::new();
    app.add_or_update_watched_prs(&[42], 5_000);
    assert!(app.watched_prs.iter().any(|p| p.number == 42 && p.state == WatchedPrState::Open));
}
