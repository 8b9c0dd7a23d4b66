use chrono::TimeZone;
use cibars::model::{BuildStatus, WatchedPrState};
use cibars::poller::github::{
    build_runs_route, decode_workflow_content, discovered_workflow_file, extract_jobs_s3_info,
    extract_s3_paths, file_name_of, is_workflow_file_name, latest_to_summaries, map_pr_state,
    map_run_status, parse_job_completed_at, parse_workflow_runs, parse_workflow_yaml, should_stop_paging,
    workflow_file_from_doc,
    JobDoc, RunRecord, WorkflowDoc,
};

// --- helpers: a run record, and a parsed workflow document ---

fn run(name: Option<&str>, id: Option<u64>, status: &str, conclusion: Option<&str>) -> RunRecord {
    RunRecord {
        id,
        name: name.map(String::from),
        status: Some(status.to_string()),
        conclusion: conclusion.map(String::from),
        event: None,
        actor_login: None,
        head_branch: None,
        pr_numbers: vec![],
    }
}

fn run_by(
    name: &str,
    id: u64,
    status: &str,
    conclusion: Option<&str>,
    head_branch: &str,
    actor: &str,
) -> RunRecord {
    RunRecord {
        head_branch: Some(head_branch.to_string()),
        actor_login: Some(actor.to_string()),
        ..run(Some(name), Some(id), status, conclusion)
    }
}

fn pr_run(name: &str, id: u64, actor: &str, head_branch: &str, event: &str, prs: &[u64]) -> RunRecord {
    RunRecord {
        event: Some(event.to_string()),
        pr_numbers: prs.to_vec(),
        ..run_by(name, id, "in_progress", None, head_branch, actor)
    }
}

type Latest = Vec<(String, (u64, BuildStatus))>;

fn parse(runs: &[RunRecord], latest: &mut Latest, filter: Option<&str>) -> Vec<u64> {
    let mut prs = Vec::new();
    parse_workflow_runs(runs, latest, &mut prs, filter);
    prs
}

fn entry<'a>(latest: &'a Latest, name: &str) -> Option<&'a (u64, BuildStatus)> {
    latest.iter().find(|(n, _)| n == name).map(|(_, v)| v)
}

fn jobs_of(yaml: &str) -> Vec<cibars::poller::JobS3Info> {
    parse_workflow_yaml("workflow.yml", yaml).unwrap().jobs
}

// --- routes ---

#[test]
fn build_runs_route_no_branch() {
    let route = build_runs_route("owner", "repo", 1, None);
    assert_eq!(route, "/repos/owner/repo/actions/runs?per_page=100&page=1");
}

#[test]
fn build_runs_route_with_branch() {
    let route = build_runs_route("owner", "repo", 1, Some("master"));
    assert_eq!(route, "/repos/owner/repo/actions/runs?per_page=100&page=1&branch=master");
}

#[test]
fn build_runs_route_page_2() {
    let route = build_runs_route("o", "r", 2, Some("main"));
    assert_eq!(route, "/repos/o/r/actions/runs?per_page=100&page=2&branch=main");
}

// --- run status ---

#[test]
fn github_maps_in_progress() {
    assert_eq!(map_run_status("in_progress", None), BuildStatus::Running);
}

#[test]
fn maps_queued() {
    assert_eq!(map_run_status("queued", None), BuildStatus::Running);
}

#[test]
fn maps_completed_success() {
    assert_eq!(map_run_status("completed", Some("success")), BuildStatus::Succeeded);
}

#[test]
fn maps_completed_failure() {
    assert_eq!(map_run_status("completed", Some("failure")), BuildStatus::Failed);
}

#[test]
fn maps_completed_cancelled() {
    assert_eq!(map_run_status("completed", Some("cancelled")), BuildStatus::Failed);
}

#[test]
fn maps_completed_timed_out() {
    assert_eq!(map_run_status("completed", Some("timed_out")), BuildStatus::Failed);
}

#[test]
fn maps_completed_no_conclusion() {
    assert_eq!(map_run_status("completed", None), BuildStatus::Failed);
}

#[test]
fn github_maps_unknown_to_idle() {
    assert_eq!(map_run_status("unknown", None), BuildStatus::Idle);
}

#[test]
fn maps_waiting_to_running() {
    assert_eq!(map_run_status("waiting", None), BuildStatus::Running);
}

#[test]
fn maps_pending_to_running() {
    assert_eq!(map_run_status("pending", None), BuildStatus::Running);
}

#[test]
fn maps_completed_skipped_to_idle() {
    assert_eq!(map_run_status("completed", Some("skipped")), BuildStatus::Idle);
}

// --- S3 paths ---

#[test]
fn extract_s3_cp_command() {
    let yaml = "run: aws s3 cp dist.zip s3://my-bucket/my-app/dist.zip";
    let uploads = extract_s3_paths(yaml);
    assert_eq!(uploads.len(), 1);
    assert_eq!(uploads[0].bucket, "my-bucket");
    assert_eq!(uploads[0].key, "my-app/dist.zip");
}

#[test]
fn extract_s3_sync_command() {
    let yaml = "run: aws s3 sync ./build s3://deploy-bucket/frontend/";
    let uploads = extract_s3_paths(yaml);
    assert_eq!(uploads.len(), 1);
    assert_eq!(uploads[0].bucket, "deploy-bucket");
    assert_eq!(uploads[0].key, "frontend/");
}

#[test]
fn extract_multiple_s3_paths() {
    let yaml = r#"
        run: |
          aws s3 cp a.zip s3://bucket-a/key-a.zip
          aws s3 cp b.zip s3://bucket-b/key-b.zip
        "#;
    let uploads = extract_s3_paths(yaml);
    assert_eq!(uploads.len(), 2);
}

#[test]
fn extract_deduplicates() {
    let yaml = r#"
          aws s3 cp a.zip s3://bucket/key.zip
          aws s3 cp a.zip s3://bucket/key.zip
        "#;
    let uploads = extract_s3_paths(yaml);
    assert_eq!(uploads.len(), 1);
}

#[test]
fn extract_no_s3_paths() {
    let yaml = "run: echo hello";
    let uploads = extract_s3_paths(yaml);
    assert!(uploads.is_empty());
}

#[test]
fn extract_s3_with_env_var_in_bucket() {
    let yaml = "run: aws s3 cp dist.zip s3://${AWS_ACCOUNT_ID}-deploy/app.zip";
    let uploads = extract_s3_paths(yaml);
    assert_eq!(uploads.len(), 1);
    assert_eq!(uploads[0].bucket, "${AWS_ACCOUNT_ID}-deploy");
}

#[test]
fn extract_s3_with_github_actions_expression_in_bucket() {
    let yaml =
        "run: aws s3 cp dist.zip s3://attracr-ci-artifacts-${{ vars.AWS_ACCOUNT_ID }}/frontend/frontend-artifacts.zip";
    let uploads = extract_s3_paths(yaml);
    assert_eq!(uploads.len(), 1, "should match despite ${{}} spaces");
    assert_eq!(uploads[0].key, "frontend/frontend-artifacts.zip");
}

#[test]
fn extract_s3_with_multiple_github_actions_expressions() {
    let yaml = "run: aws s3 cp app.zip s3://${{ vars.BUCKET }}-${{ vars.ENV }}/deploy/app.zip";
    let uploads = extract_s3_paths(yaml);
    assert_eq!(uploads.len(), 1);
    assert_eq!(uploads[0].key, "deploy/app.zip");
}

#[test]
fn extract_collapses_expression_into_placeholder() {
    let uploads = extract_s3_paths("aws s3 cp x s3://b-${{ vars.X }}/k");
    assert_eq!(uploads.len(), 1);
    assert_eq!(uploads[0].bucket, "b-GHEXPR");
    assert_eq!(uploads[0].key, "k");
}

// --- PR state ---

#[test]
fn map_pr_state_open_false_is_open() {
    assert_eq!(map_pr_state("open", false), WatchedPrState::Open);
}

#[test]
fn map_pr_state_closed_true_is_merged() {
    assert_eq!(map_pr_state("closed", true), WatchedPrState::Merged);
}

#[test]
fn map_pr_state_closed_false_is_closed_unmerged() {
    assert_eq!(map_pr_state("closed", false), WatchedPrState::ClosedUnmerged);
}

#[test]
fn map_pr_state_unknown_bucket_when_open_and_merged_true() {
    assert_eq!(map_pr_state("open", true), WatchedPrState::Unknown);
}

#[test]
fn map_pr_state_unknown_bucket_for_unrecognized_state() {
    assert_eq!(map_pr_state("weird", false), WatchedPrState::Unknown);
}

// --- runs ---

#[test]
fn parse_skips_run_with_missing_id() {
    let runs = vec![
        run(Some("CI"), None, "completed", Some("success")),
        run(Some("Deploy"), Some(42), "completed", Some("success")),
    ];
    let mut latest = Vec::new();
    parse(&runs, &mut latest, None);
    assert_eq!(latest.len(), 1);
    assert!(entry(&latest, "Deploy").is_some());
    assert!(entry(&latest, "CI").is_none());
}

#[test]
fn parse_skips_run_with_null_id() {
    let runs = vec![run(Some("CI"), None, "in_progress", None)];
    let mut latest = Vec::new();
    parse(&runs, &mut latest, None);
    assert!(latest.is_empty());
}

#[test]
fn parse_keeps_first_run_per_workflow() {
    let runs = vec![
        run(Some("CI"), Some(10), "completed", Some("success")),
        run(Some("CI"), Some(9), "completed", Some("failure")),
    ];
    let mut latest = Vec::new();
    parse(&runs, &mut latest, None);
    assert_eq!(latest.len(), 1);
    assert_eq!(entry(&latest, "CI").unwrap().0, 10);
    assert_eq!(entry(&latest, "CI").unwrap().1, BuildStatus::Succeeded);
}

#[test]
fn parse_excludes_skipped_run() {
    let runs = vec![
        run(Some("Automated Code"), Some(100), "completed", Some("skipped")),
        run(Some("CI"), Some(101), "completed", Some("success")),
    ];
    let mut latest = Vec::new();
    parse(&runs, &mut latest, None);
    assert_eq!(latest.len(), 1);
    assert!(entry(&latest, "CI").is_some());
    assert!(entry(&latest, "Automated Code").is_none());
}

#[test]
fn parse_skips_skipped_keeps_next_non_skipped() {
    let runs = vec![
        run(Some("CI"), Some(50), "completed", Some("skipped")),
        run(Some("CI"), Some(49), "completed", Some("success")),
    ];
    let mut latest = Vec::new();
    parse(&runs, &mut latest, None);
    assert_eq!(latest.len(), 1);
    assert_eq!(entry(&latest, "CI").unwrap().0, 49);
    assert_eq!(entry(&latest, "CI").unwrap().1, BuildStatus::Succeeded);
}

#[test]
fn parse_all_skipped_produces_empty_map() {
    let runs = vec![
        run(Some("Automated Code"), Some(10), "completed", Some("skipped")),
        run(Some("Automated Code"), Some(9), "completed", Some("skipped")),
    ];
    let mut latest = Vec::new();
    parse(&runs, &mut latest, None);
    assert!(latest.is_empty());
}

#[test]
fn parse_filters_by_head_branch() {
    let runs = vec![
        run_by("CI", 10, "completed", Some("success"), "master", "glnds"),
        run_by("CI", 9, "completed", Some("failure"), "feature/foo", "glnds"),
    ];
    let mut latest = Vec::new();
    parse(&runs, &mut latest, Some("master"));
    assert_eq!(latest.len(), 1);
    assert_eq!(entry(&latest, "CI").unwrap().0, 10);
}

#[test]
fn parse_skips_bot_actors() {
    let runs = vec![
        run_by("CI", 10, "completed", Some("success"), "master", "glnds"),
        run_by("pip in /backend - Update #123", 9, "completed", Some("success"), "master", "dependabot[bot]"),
        run_by("CI", 8, "completed", Some("failure"), "dependabot/npm/lodash", "dependabot[bot]"),
    ];
    let mut latest = Vec::new();
    parse(&runs, &mut latest, None);
    assert_eq!(latest.len(), 1);
    assert!(entry(&latest, "CI").is_some());
}

#[test]
fn parse_keeps_human_actors() {
    let runs = vec![
        run_by("CI", 10, "completed", Some("success"), "master", "glnds"),
        run_by("Deploy", 9, "completed", Some("success"), "feature/foo", "coworker"),
    ];
    let mut latest = Vec::new();
    parse(&runs, &mut latest, None);
    assert_eq!(latest.len(), 2);
}

#[test]
fn parse_workflow_runs_returns_no_new_on_stale_page() {
    let mut latest = Vec::new();
    parse(&[run(Some("CI"), Some(10), "completed", Some("success"))], &mut latest, None);
    assert_eq!(latest.len(), 1);
    let prev_count = latest.len();
    parse(&[run(Some("CI"), Some(5), "completed", Some("failure"))], &mut latest, None);
    let new_count = latest.len();
    assert_eq!(prev_count, new_count);
}

#[test]
fn parse_workflow_runs_detects_new_on_fresh_page() {
    let mut latest = Vec::new();
    parse(&[run(Some("CI"), Some(10), "completed", Some("success"))], &mut latest, None);
    let prev_count = latest.len();
    parse(&[run(Some("Deploy"), Some(8), "completed", Some("success"))], &mut latest, None);
    let new_count = latest.len();
    assert!(new_count > prev_count);
}

#[test]
fn parse_run_missing_name_defaults_to_unknown() {
    let mut latest = Vec::new();
    parse(&[run(None, Some(1), "completed", Some("success"))], &mut latest, None);
    assert!(entry(&latest, "unknown").is_some());
}

#[test]
fn parse_extracts_pr_number_from_pull_request_event() {
    let runs = vec![pr_run("CI", 100, "alice", "feat/x", "pull_request", &[7])];
    let prs = parse(&runs, &mut Vec::new(), None);
    assert!(prs.contains(&7));
}

#[test]
fn parse_ignores_pr_numbers_on_push_event() {
    let runs = vec![pr_run("CI", 100, "alice", "master", "push", &[7])];
    let prs = parse(&runs, &mut Vec::new(), None);
    assert!(prs.is_empty());
}

#[test]
fn parse_extracts_pr_numbers_even_for_bot_actors() {
    let runs = vec![pr_run("Automated Code Review", 100, "helper[bot]", "feat/x", "pull_request", &[9])];
    let mut latest = Vec::new();
    let prs = parse(&runs, &mut latest, None);
    assert!(latest.is_empty(), "bot-actor run should still be filtered out");
    assert!(prs.contains(&9), "but PR number must be harvested");
}

#[test]
fn parse_extracts_pr_numbers_even_when_head_branch_mismatches() {
    let runs = vec![pr_run("CI", 100, "alice", "feat/x", "pull_request", &[11])];
    let mut latest = Vec::new();
    let prs = parse(&runs, &mut latest, Some("master"));
    assert!(latest.is_empty(), "branch filter should drop from visible list");
    assert!(prs.contains(&11), "PR number must still be harvested");
}

#[test]
fn parse_dedupes_pr_numbers_across_runs() {
    let runs = vec![
        pr_run("CI", 100, "alice", "feat/x", "pull_request", &[3]),
        pr_run("Review", 101, "bob", "feat/x", "pull_request", &[3]),
    ];
    let prs = parse(&runs, &mut Vec::new(), None);
    assert_eq!(prs.len(), 1);
    assert!(prs.contains(&3));
}

#[test]
fn parse_accepts_pull_request_target_event() {
    let runs = vec![pr_run("CI", 100, "alice", "feat/x", "pull_request_target", &[13])];
    let prs = parse(&runs, &mut Vec::new(), None);
    assert!(prs.contains(&13));
}

#[test]
fn parse_empty_when_pull_requests_missing_or_empty() {
    let runs = vec![
        pr_run("CI", 100, "alice", "master", "pull_request", &[]),
        pr_run("CI2", 101, "alice", "master", "pull_request", &[]),
    ];
    let prs = parse(&runs, &mut Vec::new(), None);
    assert!(prs.is_empty());
}

#[test]
fn latest_runs_become_summaries_in_order() {
    let mut latest = Vec::new();
    parse(
        &[
            run(Some("CI"), Some(10), "in_progress", None),
            run(Some("Deploy"), Some(8), "completed", Some("failure")),
        ],
        &mut latest,
        None,
    );
    let sums = latest_to_summaries(latest);
    assert_eq!(sums.len(), 2);
    assert_eq!(sums[0].workflow_name, "CI");
    assert_eq!(sums[0].run_id, 10);
    assert_eq!(sums[0].status, BuildStatus::Running);
    assert_eq!(sums[1].workflow_name, "Deploy");
    assert_eq!(sums[1].status, BuildStatus::Failed);
}

#[test]
fn paging_stops_on_short_page_last_page_cap_or_stale_page() {
    assert!(should_stop_paging(40, 1, 500, 0, 3));
    assert!(should_stop_paging(100, 5, 500, 0, 3));
    assert!(should_stop_paging(100, 20, 5000, 0, 3));
    assert!(should_stop_paging(100, 2, 5000, 3, 3));
    assert!(!should_stop_paging(100, 2, 5000, 3, 4));
}

// --- workflow files ---

#[test]
fn parse_yaml_with_name_and_s3() {
    let yaml = r#"
name: Deploy Frontend
on: push
jobs:
  deploy:
    runs-on: ubuntu-latest
    steps:
      - run: aws s3 cp dist.zip s3://my-bucket/frontend/dist.zip
"#;
    let wf = parse_workflow_yaml("deploy.yml", yaml).unwrap();
    assert_eq!(wf.name, "Deploy Frontend");
    assert_eq!(wf.s3_uploads.len(), 1);
    assert_eq!(wf.s3_uploads[0].bucket, "my-bucket");
    assert_eq!(wf.s3_uploads[0].key, "frontend/dist.zip");
}

#[test]
fn parse_yaml_no_name_uses_filename() {
    let yaml = r#"
on: push
jobs:
  build:
    runs-on: ubuntu-latest
    steps:
      - run: aws s3 cp out.zip s3://bucket/key.zip
"#;
    let wf = parse_workflow_yaml("ci.yml", yaml).unwrap();
    assert_eq!(wf.name, "ci.yml");
}

#[test]
fn parse_yaml_no_s3() {
    let yaml = r#"
name: CI
on: push
jobs:
  test:
    runs-on: ubuntu-latest
    steps:
      - run: cargo test
"#;
    let wf = parse_workflow_yaml("ci.yml", yaml).unwrap();
    assert!(wf.s3_uploads.is_empty());
}

#[test]
fn parse_invalid_yaml_returns_none() {
    let result = parse_workflow_yaml("bad.yml", "\t\t---\n\t bad:\n\t\t\t[[[unterminated");
    assert!(result.is_none());
}

#[test]
fn extract_jobs_s3_info_multi_job_workflow() {
    let yaml = r#"
name: CI
on: push
jobs:
  validate-cfn:
    name: Validate CloudFormation
    runs-on: ubuntu-latest
    steps:
      - run: cfn-lint templates/*.yaml
  test-backend:
    name: Backend Tests
    runs-on: ubuntu-latest
    steps:
      - run: cargo test
  build-backend:
    name: Build Backend
    needs: [validate-cfn, test-backend]
    runs-on: ubuntu-latest
    steps:
      - run: aws s3 cp backend.zip s3://bucket/backend/source.zip
  build-frontend:
    name: Build Frontend
    needs: [validate-cfn, test-backend]
    runs-on: ubuntu-latest
    steps:
      - run: aws s3 cp frontend.zip s3://bucket/frontend/artifacts.zip
"#;
    let jobs = jobs_of(yaml);
    assert_eq!(jobs.len(), 4);

    let cfn = jobs.iter().find(|j| j.job_id == "validate-cfn").unwrap();
    assert_eq!(cfn.job_name, "Validate CloudFormation");
    assert!(cfn.s3_uploads.is_empty());
    assert!(cfn.needs.is_empty());

    let test = jobs.iter().find(|j| j.job_id == "test-backend").unwrap();
    assert_eq!(test.job_name, "Backend Tests");
    assert!(test.s3_uploads.is_empty());
    assert!(test.needs.is_empty());

    let build_be = jobs.iter().find(|j| j.job_id == "build-backend").unwrap();
    assert_eq!(build_be.job_name, "Build Backend");
    assert_eq!(build_be.s3_uploads.len(), 1);
    assert_eq!(build_be.s3_uploads[0].key, "backend/source.zip");
    assert_eq!(build_be.needs, vec!["validate-cfn", "test-backend"]);

    let build_fe = jobs.iter().find(|j| j.job_id == "build-frontend").unwrap();
    assert_eq!(build_fe.job_name, "Build Frontend");
    assert_eq!(build_fe.s3_uploads.len(), 1);
    assert_eq!(build_fe.s3_uploads[0].key, "frontend/artifacts.zip");
    assert_eq!(build_fe.needs, vec!["validate-cfn", "test-backend"]);
}

#[test]
fn extract_jobs_s3_info_single_string_needs() {
    let yaml = r#"
name: Deploy
on: push
jobs:
  build:
    name: Build
    runs-on: ubuntu-latest
    steps:
      - run: aws s3 cp out.zip s3://bucket/key.zip
  deploy:
    name: Deploy
    needs: build
    runs-on: ubuntu-latest
    steps:
      - run: echo deploying
"#;
    let jobs = jobs_of(yaml);
    let deploy = jobs.iter().find(|j| j.job_id == "deploy").unwrap();
    assert_eq!(deploy.needs, vec!["build"]);
}

#[test]
fn extract_jobs_s3_info_no_jobs() {
    let yaml = r#"
name: Empty
on: push
"#;
    let jobs = jobs_of(yaml);
    assert!(jobs.is_empty());
}

#[test]
fn extract_jobs_s3_info_job_without_name_uses_id() {
    let yaml = r#"
name: CI
on: push
jobs:
  lint:
    runs-on: ubuntu-latest
    steps:
      - run: cargo clippy
"#;
    let jobs = jobs_of(yaml);
    let lint = jobs.iter().find(|j| j.job_id == "lint").unwrap();
    assert_eq!(lint.job_name, "lint");
}

#[test]
fn extract_jobs_s3_info_github_expression_in_s3() {
    let yaml = r#"
name: CI
on: push
jobs:
  build:
    name: Build
    runs-on: ubuntu-latest
    steps:
      - run: aws s3 cp out.zip s3://bucket-${{ vars.ACCOUNT }}/app/out.zip
"#;
    let jobs = jobs_of(yaml);
    let build = jobs.iter().find(|j| j.job_id == "build").unwrap();
    assert_eq!(build.s3_uploads.len(), 1);
    assert_eq!(build.s3_uploads[0].key, "app/out.zip");
}

#[test]
fn parse_job_completed_at_extracts_timestamp() {
    let result = parse_job_completed_at(Some("2026-03-18T14:28:00Z"));
    assert_eq!(result, Some(chrono::Utc.with_ymd_and_hms(2026, 3, 18, 14, 28, 0).unwrap().timestamp_millis()));
}

#[test]
fn parse_job_completed_at_null_is_none() {
    assert!(parse_job_completed_at(None).is_none());
}

#[test]
fn parse_job_completed_at_missing_is_none() {
    assert!(parse_job_completed_at(None).is_none());
}

#[test]
fn parse_job_completed_at_rejects_garbage() {
    assert!(parse_job_completed_at(Some("yesterday")).is_none());
}

#[test]
fn workflow_content_decodes_base64_with_line_breaks() {
    // "name: CI\n" in base64, broken across lines as the contents API does.
    let decoded = decode_workflow_content("bmFtZTog\nQ0kK");
    assert_eq!(decoded.as_deref(), Some("name: CI\n"));
}

#[test]
fn workflow_content_rejects_bad_base64() {
    assert_eq!(decode_workflow_content("!!!"), None);
}

#[test]
fn workflow_file_names() {
    assert!(is_workflow_file_name("ci.yml"));
    assert!(is_workflow_file_name("deploy.yaml"));
    assert!(!is_workflow_file_name("README.md"));
    assert_eq!(file_name_of(".github/workflows/ci.yml"), "ci.yml");
    assert_eq!(file_name_of("ci.yml"), "ci.yml");
    assert_eq!(file_name_of("dir/"), "");
}

#[test]
fn discovered_files_need_uploads() {
    let kept = discovered_workflow_file(".github/workflows/ci.yml", "run: aws s3 cp a s3://b/k").unwrap();
    assert_eq!(kept.name, "ci.yml");
    assert_eq!(kept.s3_uploads.len(), 1);
    assert!(discovered_workflow_file(".github/workflows/ci.yml", "echo hi").is_none());
}

#[test]
fn discovered_files_need_yaml() {
    let bad = "\t\t---\n\t bad: s3://b/k\n\t\t\t[[[unterminated";
    assert!(discovered_workflow_file(".github/workflows/bad.yml", bad).is_none());
}

#[test]
fn discovered_file_takes_the_workflow_name() {
    let yaml = "name: Deploy\njobs:\n  up:\n    steps:\n      - run: aws s3 cp a s3://b/k\n";
    let kept = discovered_workflow_file(".github/workflows/deploy.yml", yaml).unwrap();
    assert_eq!(kept.name, "Deploy");
    assert_eq!(kept.jobs.len(), 1);
    assert_eq!(kept.jobs[0].job_id, "up");
}

#[test]
fn parse_yaml_non_string_name_uses_filename() {
    let wf = parse_workflow_yaml("ci.yml", "name: 42\non: push\n").unwrap();
    assert_eq!(wf.name, "ci.yml");
    assert!(wf.jobs.is_empty());
}

#[test]
fn jobs_from_a_built_document() {
    let doc = WorkflowDoc {
        name: Some("CI".to_string()),
        jobs: Some(vec![
            JobDoc {
                key: Some("build".to_string()),
                name: None,
                needs: vec![None],
                run_commands: vec![Some("aws s3 cp a s3://b/k1".to_string()), None],
            },
            JobDoc { key: None, name: Some("x".to_string()), needs: vec![], run_commands: vec![] },
            JobDoc {
                key: Some("deploy".to_string()),
                name: Some("Deploy".to_string()),
                needs: vec![Some("build".to_string()), None],
                run_commands: vec![],
            },
        ]),
    };
    let jobs = extract_jobs_s3_info(&doc);
    assert_eq!(jobs.len(), 2);
    assert_eq!(jobs[0].job_id, "build");
    assert_eq!(jobs[0].job_name, "build");
    assert_eq!(jobs[0].s3_uploads.len(), 1);
    assert_eq!(jobs[0].s3_uploads[0].key, "k1");
    assert_eq!(jobs[1].job_name, "Deploy");
    assert_eq!(jobs[1].needs, vec!["build".to_string()]);
    let wf = workflow_file_from_doc("ci.yml", "s3://b/k1 s3://b/k2", &doc);
    assert_eq!(wf.name, "CI");
    assert_eq!(wf.s3_uploads.len(), 2);
    assert_eq!(wf.jobs.len(), 2);
}

#[test]
fn tagged_needs_is_not_a_dependency() {
    let yaml = "jobs:\n  deploy:\n    needs: !custom build\n    steps:\n      - run: aws s3 cp a s3://b/k\n";
    let wf = parse_workflow_yaml("ci.yml", yaml).unwrap();
    assert_eq!(wf.jobs.len(), 1);
    assert!(wf.jobs[0].needs.is_empty());
    let plain = parse_workflow_yaml("ci.yml", "jobs:\n  deploy:\n    needs: build\n").unwrap();
    assert_eq!(plain.jobs[0].needs, vec!["build".to_string()]);
}
