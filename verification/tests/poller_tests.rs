use chrono::TimeZone;
use cibars::app::{App, SourceHealth};
use cibars::config::Config;
use cibars::model::{Bar, BuildStatus, WorkflowCategory, WorkflowGroup};
use cibars::poller::{
    aws_sso_expired_msg, begin_actions_poll, classify_workflows, finish_auth_check, finish_pipeline_poll,
    finish_runs_poll, is_auth_error, is_rate_limit_error, pipeline_poll_blocked, reconcile_bars, stage_status_and_timestamp,
    update_pipeline_groups, update_workflow_jobs, update_workflow_summaries, ActionState, JobInfo, PipelineState,
    StageState, WorkflowRunSummary, RATE_LIMIT_BACKOFF_MS,
};

fn ts(h: u32, m: u32) -> i64 {
    chrono::Utc.with_ymd_and_hms(2026, 3, 18, h, m, 0).unwrap().timestamp_millis()
}

fn wg(name: &str) -> WorkflowGroup {
    WorkflowGroup {
        name: name.into(),
        jobs: vec![],
        gone: false,
        summary_status: BuildStatus::Idle,
        run_id: None,
        category: WorkflowCategory::default(),
        linked_pipeline: None,
    }
}

#[test]
fn is_auth_error_expired_token() {
    assert!(is_auth_error("ExpiredToken: the security token is expired"));
}

#[test]
fn is_auth_error_unauthorized_exception() {
    assert!(is_auth_error("UnauthorizedException: user is not authorized"));
}

#[test]
fn is_auth_error_invalid_identity_token() {
    assert!(is_auth_error("InvalidIdentityToken: bad token"));
}

#[test]
fn is_auth_error_expired_token_exception() {
    assert!(is_auth_error("ExpiredTokenException: token expired"));
}

#[test]
fn is_auth_error_access_denied_with_sso() {
    assert!(is_auth_error("AccessDenied: SSO session has expired"));
}

#[test]
fn is_auth_error_access_denied_with_sts() {
    assert!(is_auth_error("AccessDenied: STS token is invalid"));
}

#[test]
fn is_auth_error_plain_access_denied_is_not_auth() {
    assert!(!is_auth_error("AccessDenied: not authorized to perform action"));
}

#[test]
fn is_auth_error_connection_refused_is_not_auth() {
    assert!(!is_auth_error("connection refused"));
}

#[test]
fn is_auth_error_network_timeout_is_not_auth() {
    assert!(!is_auth_error("network timeout"));
}

#[test]
fn is_auth_error_loading_credentials() {
    assert!(is_auth_error(
        "failed to list pipelines: dispatch failure: other: \
         an error occurred while loading credentials: \
         an error occurred while loading credentials"
    ));
}

#[test]
fn reconcile_bars_new_bar_with_terminal_status_gets_minimum_fill() {
    let mut bars: Vec<Bar> = vec![];
    let updates = vec![
        ("Source".to_string(), BuildStatus::Succeeded, None),
        ("Build".to_string(), BuildStatus::Failed, None),
    ];
    reconcile_bars(&mut bars, updates);
    let source = bars.iter().find(|b| b.name == "Source").unwrap();
    assert_eq!(source.status, BuildStatus::Succeeded);
    assert_eq!(source.fill, 1, "new bar with terminal status should get minimum fill=1");
    let build = bars.iter().find(|b| b.name == "Build").unwrap();
    assert_eq!(build.status, BuildStatus::Failed);
    assert_eq!(build.fill, 1, "new bar with terminal status should get minimum fill=1");
}

#[test]
fn classify_workflows_sets_categories() {
    let mut app = App::new();
    app.workflow_groups.push(wg("CI"));
    app.workflow_groups.push(wg("Automated Code Review"));
    let config =
        Config::try_from_args(&["cibars", "--aws-profile", "p", "--region", "r", "--github-repo", "o/r"]).unwrap();
    classify_workflows(&mut app, &config);
    assert_eq!(app.workflow_groups[0].category, WorkflowCategory::CI);
    assert_eq!(app.workflow_groups[1].category, WorkflowCategory::Review);
}

#[test]
fn action_state_carries_timestamp() {
    let t = ts(14, 25);
    let action = ActionState { status: BuildStatus::Succeeded, last_status_change: Some(t) };
    assert_eq!(action.last_status_change, Some(t));
}

#[test]
fn job_info_carries_completed_at() {
    let t = ts(14, 28);
    let job = JobInfo { name: "build".to_string(), status: BuildStatus::Succeeded, completed_at: Some(t) };
    assert_eq!(job.completed_at, Some(t));
}

#[test]
fn reconcile_bars_marks_missing_as_gone() {
    let mut bars = vec![Bar::new("alpha".to_string()), Bar::new("beta".to_string())];
    bars[0].set_status(BuildStatus::Succeeded);
    bars[1].set_status(BuildStatus::Running);
    let updates = vec![("alpha".to_string(), BuildStatus::Succeeded, None)];
    reconcile_bars(&mut bars, updates);
    let alpha = bars.iter().find(|b| b.name == "alpha").unwrap();
    assert!(!alpha.gone);
    let beta = bars.iter().find(|b| b.name == "beta").unwrap();
    assert!(beta.gone);
}

#[test]
fn reconcile_bars_sets_last_finished_from_tuple() {
    let mut bars: Vec<Bar> = vec![];
    let t = ts(14, 28);
    let updates = vec![
        ("Source".to_string(), BuildStatus::Succeeded, Some(t)),
        ("Build".to_string(), BuildStatus::Running, None),
    ];
    reconcile_bars(&mut bars, updates);
    let source = bars.iter().find(|b| b.name == "Source").unwrap();
    assert_eq!(source.last_finished, Some(t));
    let build = bars.iter().find(|b| b.name == "Build").unwrap();
    assert!(build.last_finished.is_none());
}

#[test]
fn stage_status_and_timestamp_for_succeeded() {
    let t = ts(14, 25);
    let actions = vec![ActionState { status: BuildStatus::Succeeded, last_status_change: Some(t) }];
    let (status, timestamp) = stage_status_and_timestamp(&actions);
    assert_eq!(status, BuildStatus::Succeeded);
    assert_eq!(timestamp, Some(t));
}

#[test]
fn stage_status_and_timestamp_for_running() {
    let actions = vec![ActionState { status: BuildStatus::Running, last_status_change: None }];
    let (status, timestamp) = stage_status_and_timestamp(&actions);
    assert_eq!(status, BuildStatus::Running);
    assert!(timestamp.is_none());
}

#[test]
fn reconcile_bars_clears_last_finished_on_new_run() {
    let t = ts(14, 28);
    let mut bars: Vec<Bar> = vec![];
    reconcile_bars(&mut bars, vec![("Build".to_string(), BuildStatus::Succeeded, Some(t))]);
    assert_eq!(bars[0].last_finished, Some(t));
    reconcile_bars(&mut bars, vec![("Build".to_string(), BuildStatus::Running, None)]);
    assert!(bars[0].last_finished.is_none());
}

#[test]
fn stage_status_and_timestamp_empty_actions() {
    let actions: Vec<ActionState> = vec![];
    let (status, timestamp) = stage_status_and_timestamp(&actions);
    assert_eq!(status, BuildStatus::Idle);
    assert!(timestamp.is_none());
}

#[test]
fn stage_status_and_timestamp_failed_with_time() {
    let t = ts(14, 25);
    let actions = vec![ActionState { status: BuildStatus::Failed, last_status_change: Some(t) }];
    let (status, timestamp) = stage_status_and_timestamp(&actions);
    assert_eq!(status, BuildStatus::Failed);
    assert_eq!(timestamp, Some(t));
}

#[test]
fn stage_status_and_timestamp_running_ignores_timestamp() {
    let t = ts(14, 25);
    let actions = vec![ActionState { status: BuildStatus::Running, last_status_change: Some(t) }];
    let (status, timestamp) = stage_status_and_timestamp(&actions);
    assert_eq!(status, BuildStatus::Running);
    assert!(timestamp.is_none(), "Running should not expose timestamp");
}

#[test]
fn stage_status_and_timestamp_multi_action_uses_last() {
    let t = ts(15, 0);
    let actions = vec![
        ActionState { status: BuildStatus::Succeeded, last_status_change: Some(ts(14, 0)) },
        ActionState { status: BuildStatus::Failed, last_status_change: Some(t) },
    ];
    let (status, timestamp) = stage_status_and_timestamp(&actions);
    assert_eq!(status, BuildStatus::Failed, "should use last action's status");
    assert_eq!(timestamp, Some(t), "should use last action's timestamp");
}

// --- group updates and poll outcomes ---

fn state(name: &str, stages: &[(&str, BuildStatus)]) -> PipelineState {
    PipelineState {
        name: name.to_string(),
        status: BuildStatus::Idle,
        stages: stages
            .iter()
            .map(|(n, s)| StageState {
                name: n.to_string(),
                actions: vec![ActionState { status: *s, last_status_change: None }],
            })
            .collect(),
    }
}

#[test]
fn pipeline_states_add_update_and_mark_gone() {
    let mut app = App::new();
    update_pipeline_groups(&mut app, vec![state("a", &[("Build", BuildStatus::Running)]), state("b", &[])]);
    assert_eq!(app.pipeline_groups.len(), 2);
    assert_eq!(app.pipeline_groups[0].stages[0].status, BuildStatus::Running);
    update_pipeline_groups(&mut app, vec![state("a", &[("Build", BuildStatus::Succeeded)])]);
    assert_eq!(app.pipeline_groups[0].stages[0].status, BuildStatus::Succeeded);
    assert!(!app.pipeline_groups[0].gone);
    assert!(app.pipeline_groups[1].gone);
}

#[test]
fn run_summaries_update_groups_and_jobs() {
    let mut app = App::new();
    update_workflow_summaries(
        &mut app,
        &[WorkflowRunSummary { workflow_name: "CI".into(), run_id: 7, status: BuildStatus::Running }],
    );
    assert_eq!(app.workflow_groups.len(), 1);
    assert_eq!(app.workflow_groups[0].run_id, Some(7));
    update_workflow_jobs(
        &mut app,
        "CI",
        vec![JobInfo { name: "build".into(), status: BuildStatus::Running, completed_at: None }],
    );
    assert_eq!(app.workflow_groups[0].jobs.len(), 1);
    assert_eq!(app.workflow_groups[0].jobs[0].name, "build");
    update_workflow_summaries(&mut app, &[]);
    assert!(app.workflow_groups[0].gone);
}

#[test]
fn auth_failure_blocks_unforced_pipeline_polls() {
    let mut app = App::new();
    assert!(!pipeline_poll_blocked(&app, false));
    finish_pipeline_poll(&mut app, Err("ExpiredToken: expired".to_string()), "dev", 1000);
    assert_eq!(app.aws_health, SourceHealth::AuthFailed { since: 1000 });
    assert!(pipeline_poll_blocked(&app, false));
    assert!(!pipeline_poll_blocked(&app, true));
    assert_eq!(app.warnings.last().unwrap(), &aws_sso_expired_msg("dev"));
    assert_eq!(app.last_poll, Some(1000));
    assert!(!app.loading_pipelines);
}

#[test]
fn other_pipeline_errors_become_warnings() {
    let mut app = App::new();
    finish_pipeline_poll(&mut app, Err("throttled".to_string()), "dev", 5);
    assert_eq!(app.warnings, vec!["AWS: throttled".to_string()]);
    assert_eq!(app.aws_health, SourceHealth::Unknown);
}

#[test]
fn successful_auth_check_clears_aws_warnings() {
    let mut app = App::new();
    finish_auth_check(&mut app, Err("ExpiredToken".to_string()), "dev", 10);
    app.push_warning("GitHub: down".to_string());
    finish_auth_check(&mut app, Ok(()), "dev", 20);
    assert_eq!(app.aws_health, SourceHealth::Healthy);
    assert_eq!(app.warnings, vec!["GitHub: down".to_string()]);
}

#[test]
fn rate_limit_backs_off_then_skips_polls() {
    let mut app = App::new();
    finish_runs_poll(&mut app, Err("HTTP 403 rate limit exceeded".to_string()), 1000);
    assert_eq!(app.rate_limited_until, Some(1000 + RATE_LIMIT_BACKOFF_MS));
    assert_eq!(app.warnings, vec!["GitHub: rate limited, backing off 60s".to_string()]);
    assert!(!begin_actions_poll(&mut app, 2000));
    assert_eq!(app.warnings, vec!["GitHub: rate-limited, backing off".to_string()]);
    assert!(begin_actions_poll(&mut app, 1000 + RATE_LIMIT_BACKOFF_MS));
    assert!(app.warnings.is_empty());
}

#[test]
fn other_runs_errors_become_warnings() {
    let mut app = App::new();
    finish_runs_poll(&mut app, Err("boom".to_string()), 3);
    assert_eq!(app.warnings, vec!["GitHub: boom".to_string()]);
    assert_eq!(app.rate_limited_until, None);
    assert_eq!(app.last_poll, Some(3));
}

#[test]
fn rate_limit_messages_are_recognised() {
    assert!(is_rate_limit_error("api rate limit exceeded"));
    assert!(is_rate_limit_error("http 403"));
    assert!(is_rate_limit_error("status 429"));
    assert!(is_rate_limit_error("you have triggered an abuse detection mechanism"));
    assert!(!is_rate_limit_error("connection reset"));
    assert!(!is_rate_limit_error("Rate Limit"));
}

#[test]
fn mixed_case_rate_limit_message_starts_backoff() {
    let mut app = App::new();
    finish_runs_poll(&mut app, Err("API Rate Limit exceeded".to_string()), 5_000);
    assert_eq!(app.rate_limited_until, Some(5_000 + 60_000));
}

#[test]
fn poll_first_sees_terminal_stage_gets_minimum_fill() {
    let mut app = App::new();
    update_pipeline_groups(
        &mut app,
        vec![state("my-pipe", &[("Source", BuildStatus::Succeeded), ("Build", BuildStatus::Failed)])],
    );
    update_workflow_summaries(
        &mut app,
        &[WorkflowRunSummary { workflow_name: "CI".into(), run_id: 42, status: BuildStatus::Succeeded }],
    );
    update_workflow_jobs(
        &mut app,
        "CI",
        vec![JobInfo { name: "lint".into(), status: BuildStatus::Succeeded, completed_at: None }],
    );
    let source = &app.pipeline_groups[0].stages[0];
    assert_eq!(source.name, "Source");
    assert_eq!(source.status, BuildStatus::Succeeded);
    assert!(source.fill >= 1, "terminal stage on first poll must have fill >= 1, got {}", source.fill);
    let build = &app.pipeline_groups[0].stages[1];
    assert_eq!(build.name, "Build");
    assert_eq!(build.status, BuildStatus::Failed);
    assert!(build.fill >= 1, "terminal stage on first poll must have fill >= 1, got {}", build.fill);
    let job = &app.workflow_groups[0].jobs[0];
    assert_eq!(job.name, "lint");
    assert_eq!(job.status, BuildStatus::Succeeded);
    assert!(job.fill >= 1, "terminal job on first poll must have fill >= 1, got {}", job.fill);
}
