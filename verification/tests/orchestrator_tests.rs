use cibars::app::App;
use cibars::linkage::LinkMap;
use cibars::model::{Bar, BuildStatus, PipelineGroup};
use cibars::orchestrator::{
    bootstrap_initial_poll, bootstrap_initial_poll_at, end_poll_cycle, end_poll_cycle_at,
    handle_poll_interrupt, handle_poll_interrupt_at, InterruptSource,
};
use cibars::poll_scheduler::{PollScheduler, PollState, PollingPhase};

fn polling_phase(state: PollState) -> PollingPhase {
    match state {
        PollState::Polling { phase, .. } => phase,
        other => panic!("expected Polling, got {other:?}"),
    }
}

#[test]
fn handle_interrupt_sigusr1_sets_push_signal() {
    let mut app = App::new();
    let mut scheduler = PollScheduler::new();
    handle_poll_interrupt(&mut app, &mut scheduler, InterruptSource::Sigusr1);
    assert!(app.push_signal_at.is_some());
}

#[test]
fn handle_interrupt_boost_no_push_signal() {
    let mut app = App::new();
    let mut scheduler = PollScheduler::new();
    handle_poll_interrupt(&mut app, &mut scheduler, InterruptSource::Boost);
    assert!(app.push_signal_at.is_none());
}

#[test]
fn handle_interrupt_transitions_to_grace_from_sleep() {
    let mut app = App::new();
    let mut scheduler = PollScheduler::new();
    assert_eq!(scheduler.state(), PollState::Sleep);
    handle_poll_interrupt(&mut app, &mut scheduler, InterruptSource::Boost);
    assert_eq!(polling_phase(scheduler.state()), PollingPhase::Grace);
}

#[test]
fn handle_interrupt_updates_app_poll_state() {
    let mut app = App::new();
    let mut scheduler = PollScheduler::new();
    handle_poll_interrupt(&mut app, &mut scheduler, InterruptSource::Sigusr1);
    assert_eq!(app.poll_state, scheduler.state());
}

#[test]
fn bootstrap_initial_poll_transitions_sleep_to_grace() {
    let mut app = App::new();
    let mut scheduler = PollScheduler::new();
    assert_eq!(scheduler.state(), PollState::Sleep);

    bootstrap_initial_poll(&mut app, &mut scheduler);

    assert_eq!(polling_phase(scheduler.state()), PollingPhase::Grace);
    assert_eq!(app.poll_state, scheduler.state());
}

#[test]
fn handle_interrupt_from_cooldown_re_enters_grace() {
    let mut app = App::new();
    let mut scheduler = PollScheduler::new();
    scheduler.boost();
    scheduler.transition(true);
    scheduler.transition(false);
    assert_eq!(polling_phase(scheduler.state()), PollingPhase::Cooldown);

    handle_poll_interrupt(&mut app, &mut scheduler, InterruptSource::Boost);
    assert_eq!(polling_phase(scheduler.state()), PollingPhase::Grace);
}

#[test]
fn interrupt_at_is_timed_exactly() {
    let mut app = App::new();
    let mut scheduler = PollScheduler::new();
    handle_poll_interrupt_at(&mut app, &mut scheduler, InterruptSource::Sigusr1, 5_000);
    assert_eq!(scheduler.state(), PollState::Polling { phase: PollingPhase::Grace, since: 5_000 });
    assert_eq!(app.poll_state, scheduler.state());
    assert_eq!(app.push_signal_at, Some(5_000));
    assert!(app.boost_pressed_at.is_none());
}

#[test]
fn interrupt_during_active_keeps_active() {
    let mut app = App::new();
    let mut scheduler = PollScheduler::new();
    bootstrap_initial_poll_at(&mut app, &mut scheduler, 1_000);
    scheduler.transition_at(true, 2_000);
    handle_poll_interrupt_at(&mut app, &mut scheduler, InterruptSource::Boost, 3_000);
    assert_eq!(scheduler.state(), PollState::Polling { phase: PollingPhase::Active, since: 2_000 });
    assert_eq!(app.poll_state, scheduler.state());
}

fn running_pipeline() -> PipelineGroup {
    let mut b = Bar::new("Build".to_string());
    b.set_status(BuildStatus::Running);
    PipelineGroup {
        name: "deploy".to_string(),
        stages: vec![b],
        gone: false,
        summary_status: BuildStatus::Running,
        pending_link: false,
    }
}

#[test]
fn end_poll_cycle_moves_grace_to_active_when_running() {
    let mut app = App::new();
    app.pipeline_groups.push(running_pipeline());
    let mut scheduler = PollScheduler::new();
    bootstrap_initial_poll_at(&mut app, &mut scheduler, 1_000);
    let link_map = LinkMap::new();
    let any = end_poll_cycle_at(&mut app, &link_map, &mut scheduler, 4_000);
    assert!(any);
    assert_eq!(scheduler.state(), PollState::Polling { phase: PollingPhase::Active, since: 4_000 });
    assert_eq!(app.poll_state, scheduler.state());
}

#[test]
fn end_poll_cycle_moves_active_to_cooldown_when_idle() {
    let mut app = App::new();
    let mut scheduler = PollScheduler::new();
    scheduler.boost_at(1_000);
    scheduler.transition_at(true, 2_000);
    let link_map = LinkMap::new();
    let any = end_poll_cycle(&mut app, &link_map, &mut scheduler);
    assert!(!any);
    assert_eq!(polling_phase(scheduler.state()), PollingPhase::Cooldown);
    assert_eq!(app.poll_state, scheduler.state());
}

#[test]
fn end_poll_cycle_checks_link_health() {
    let mut app = App::new();
    app.loading_pipelines = false;
    app.loading_actions = false;
    let mut link_map = LinkMap::new();
    link_map.add_discovered("ghost-pipe".into(), "CI".into(), "b".into(), "k".into());
    let mut scheduler = PollScheduler::new();
    end_poll_cycle_at(&mut app, &link_map, &mut scheduler, 1_000);
    assert!(app.linkage_broken);
    assert_eq!(scheduler.state(), PollState::Sleep);
}
