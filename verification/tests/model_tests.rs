use cibars::model::{Bar, BuildStatus, PipelineGroup, StageInfo, StatusColor, WorkflowCategory, WorkflowGroup};

fn make_bar() -> Bar {
    Bar::new("test-pipe".to_string())
}

fn workflow_group(name: &str, jobs: Vec<Bar>, status: BuildStatus) -> WorkflowGroup {
    WorkflowGroup {
        name: name.to_string(),
        jobs,
        gone: false,
        summary_status: status,
        run_id: None,
        category: WorkflowCategory::default(),
        linked_pipeline: None,
    }
}

fn pipeline_group(name: &str, stages: Vec<Bar>, status: BuildStatus) -> PipelineGroup {
    PipelineGroup { name: name.to_string(), stages, gone: false, summary_status: status, pending_link: false }
}

#[test]
fn new_bar_is_idle() {
    let bar = make_bar();
    assert_eq!(bar.status, BuildStatus::Idle);
    assert_eq!(bar.fill, 0);
    assert_eq!(bar.write_pos, 0);
    assert!(!bar.gone);
}

#[test]
fn set_status_idle_to_running_resets() {
    let mut bar = make_bar();
    bar.fill = 5;
    bar.write_pos = 5;
    bar.set_status(BuildStatus::Running);
    assert_eq!(bar.status, BuildStatus::Running);
    assert_eq!(bar.fill, 0);
    assert_eq!(bar.write_pos, 0);
}

#[test]
fn set_status_running_while_running_no_reset() {
    let mut bar = make_bar();
    bar.set_status(BuildStatus::Running);
    bar.tick(10);
    bar.tick(10);
    assert_eq!(bar.fill, 2);
    bar.set_status(BuildStatus::Running);
    assert_eq!(bar.fill, 2);
    assert_eq!(bar.write_pos, 2);
}

#[test]
fn set_status_succeeded_from_running() {
    let mut bar = make_bar();
    bar.set_status(BuildStatus::Running);
    bar.tick(10);
    bar.set_status(BuildStatus::Succeeded);
    assert_eq!(bar.status, BuildStatus::Succeeded);
    assert_eq!(bar.fill, 1);
}

#[test]
fn set_status_failed_from_running() {
    let mut bar = make_bar();
    bar.set_status(BuildStatus::Running);
    bar.tick(10);
    bar.set_status(BuildStatus::Failed);
    assert_eq!(bar.status, BuildStatus::Failed);
    assert_eq!(bar.fill, 1);
}

#[test]
fn set_status_idle_is_noop() {
    let mut bar = make_bar();
    bar.set_status(BuildStatus::Running);
    bar.tick(10);
    let fill_before = bar.fill;
    let pos_before = bar.write_pos;
    bar.set_status(BuildStatus::Idle);
    assert_eq!(bar.fill, fill_before);
    assert_eq!(bar.write_pos, pos_before);
    assert_eq!(bar.status, BuildStatus::Running);
}

#[test]
fn set_status_resets_on_new_execution() {
    let mut bar = make_bar();
    bar.set_status(BuildStatus::Running);
    bar.tick(10);
    bar.tick(10);
    bar.set_status(BuildStatus::Succeeded);
    assert_eq!(bar.fill, 2);
    bar.set_status(BuildStatus::Running);
    assert_eq!(bar.fill, 0);
    assert_eq!(bar.write_pos, 0);
}

#[test]
fn tick_advances_running_bar() {
    let mut bar = make_bar();
    bar.set_status(BuildStatus::Running);
    bar.tick(10);
    assert_eq!(bar.fill, 1);
    assert_eq!(bar.write_pos, 1);
    bar.tick(10);
    assert_eq!(bar.fill, 2);
    assert_eq!(bar.write_pos, 2);
}

#[test]
fn tick_wraps_at_width() {
    let mut bar = make_bar();
    bar.set_status(BuildStatus::Running);
    let width = 3;
    for _ in 0..3 {
        bar.tick(width);
    }
    assert_eq!(bar.write_pos, 0);
    assert_eq!(bar.fill, 1);
    assert_eq!(bar.status, BuildStatus::Running);
}

#[test]
fn tick_wrap_resets_then_continues() {
    let mut bar = make_bar();
    bar.set_status(BuildStatus::Running);
    let width = 2;
    bar.tick(width);
    bar.tick(width);
    assert_eq!(bar.write_pos, 0);
    assert_eq!(bar.fill, 1);
    bar.tick(width);
    assert_eq!(bar.write_pos, 1);
    assert_eq!(bar.fill, 2);
}

#[test]
fn tick_noop_for_idle() {
    let mut bar = make_bar();
    bar.tick(10);
    assert_eq!(bar.fill, 0);
    assert_eq!(bar.write_pos, 0);
}

#[test]
fn tick_noop_for_succeeded() {
    let mut bar = make_bar();
    bar.set_status(BuildStatus::Running);
    bar.tick(10);
    bar.set_status(BuildStatus::Succeeded);
    bar.tick(10);
    assert_eq!(bar.fill, 1);
    assert_eq!(bar.write_pos, 1);
}

#[test]
fn tick_noop_for_failed() {
    let mut bar = make_bar();
    bar.set_status(BuildStatus::Running);
    bar.tick(10);
    bar.set_status(BuildStatus::Failed);
    bar.tick(10);
    assert_eq!(bar.fill, 1);
}

#[test]
fn tick_noop_for_zero_width() {
    let mut bar = make_bar();
    bar.set_status(BuildStatus::Running);
    bar.tick(0);
    assert_eq!(bar.fill, 0);
    assert_eq!(bar.write_pos, 0);
}

#[test]
fn workflow_group_new() {
    let group = workflow_group("CI", vec![], BuildStatus::Idle);
    assert_eq!(group.name, "CI");
    assert!(group.jobs.is_empty());
    assert!(!group.gone);
}

#[test]
fn workflow_group_with_jobs() {
    let group = workflow_group(
        "CI",
        vec![Bar::new("build".to_string()), Bar::new("test".to_string())],
        BuildStatus::Running,
    );
    assert_eq!(group.jobs.len(), 2);
    assert_eq!(group.jobs[0].name, "build");
    assert_eq!(group.jobs[1].name, "test");
}

#[test]
fn workflow_group_gone_marking() {
    let mut group = workflow_group("CI", vec![], BuildStatus::Idle);
    group.gone = true;
    assert!(group.gone);
}

#[test]
fn pipeline_group_new() {
    let group = pipeline_group("deploy-pipe", vec![], BuildStatus::Idle);
    assert_eq!(group.name, "deploy-pipe");
    assert!(group.stages.is_empty());
    assert!(!group.gone);
}

#[test]
fn pipeline_group_with_stages_and_actions() {
    // A pipeline group shows one bar per stage; the actions of each stage
    // are held in a StageInfo.
    let stages = vec![
        StageInfo { name: "Source".to_string(), actions: vec![Bar::new("checkout".to_string())] },
        StageInfo {
            name: "Build".to_string(),
            actions: vec![Bar::new("compile".to_string()), Bar::new("test".to_string())],
        },
    ];
    let group = pipeline_group(
        "my-pipeline",
        stages.iter().map(|s| Bar::new(s.name.clone())).collect(),
        BuildStatus::Running,
    );
    assert_eq!(group.stages.len(), 2);
    assert_eq!(group.stages[0].name, "Source");
    assert_eq!(stages[0].actions.len(), 1);
    assert_eq!(group.stages[1].name, "Build");
    assert_eq!(stages[1].actions.len(), 2);
    assert_eq!(stages[1].actions[1].name, "test");
}

#[test]
fn pipeline_group_gone_marking() {
    let mut group = pipeline_group("old-pipe", vec![], BuildStatus::Idle);
    group.gone = true;
    assert!(group.gone);
}

// --- further cases ---

#[test]
fn status_colors() {
    assert_eq!(BuildStatus::Running.color(), StatusColor::Yellow);
    assert_eq!(BuildStatus::Succeeded.color(), StatusColor::Green);
    assert_eq!(BuildStatus::Failed.color(), StatusColor::Red);
    assert_eq!(BuildStatus::Idle.color(), StatusColor::DarkGray);
}

#[test]
fn ticking_stays_inside_the_area() {
    // The write position never reaches the width, and the fill never
    // passes one beyond it.
    let mut bar = make_bar();
    bar.set_status(BuildStatus::Running);
    for _ in 0..25 {
        bar.tick(4);
        assert!(bar.write_pos < 4);
        assert!(bar.fill <= bar.write_pos + 1);
    }
}

#[test]
fn advance_fill_wraps_to_one() {
    let mut bar = make_bar();
    bar.write_pos = 4;
    bar.fill = 5;
    bar.advance_fill(5);
    assert_eq!(bar.write_pos, 0);
    assert_eq!(bar.fill, 1);
}

#[test]
fn can_tick_now_guards_counter_overflow() {
    let mut b = Bar::new("build".into());
    assert!(b.can_tick_now(10));
    b.set_status(BuildStatus::Running);
    assert!(b.can_tick_now(10));
    b.write_pos = usize::MAX;
    assert!(!b.can_tick_now(10));
    assert!(b.can_tick_now(0));
    b.write_pos = 3;
    b.fill = usize::MAX;
    assert!(!b.can_tick_now(10));
    assert!(b.can_tick_now(4));
}
