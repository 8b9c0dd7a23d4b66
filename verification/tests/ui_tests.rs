use cibars::model::StatusColor;
use cibars::ui::bar::DotTone;
use cibars::ui::rows::{action_row_list_of, pipeline_row_list_of, ActionRow, PipelineRow};
use cibars::app::App;
use cibars::model::{Bar, BuildStatus, PipelineGroup, WorkflowCategory, WorkflowGroup};
use cibars::ui::bar::{bar_layout, compute_name_width, MAX_NAME_WIDTH};
use cibars::ui::{
    action_rows, all_jobs_name_width, all_pipeline_stages_name_width, compute_layout_constraints, pipe_rows,
    section_height, sorted_pipeline_groups, sorted_workflow_groups, toggle_expand, Section,
};

fn make_test_bar(name: &str, status: BuildStatus) -> Bar {
    Bar {
        name: name.to_string(),
        status,
        fill: 0,
        write_pos: 0,
        gone: false,
        last_finished: None,
    }
}

fn wf(name: &str, jobs: Vec<Bar>, status: BuildStatus, category: WorkflowCategory) -> WorkflowGroup {
    WorkflowGroup {
        name: name.to_string(),
        jobs,
        gone: false,
        summary_status: status,
        run_id: None,
        category,
        linked_pipeline: None,
    }
}

fn pipe(name: &str, stages: Vec<Bar>, status: BuildStatus) -> PipelineGroup {
    PipelineGroup {
        name: name.to_string(),
        stages,
        gone: false,
        summary_status: status,
        pending_link: false,
    }
}

/// Bars ordered running first, then by name (the order the pipeline and
/// workflow lists use).
fn sorted_bars(bars: &[Bar]) -> Vec<&Bar> {
    let mut sorted: Vec<&Bar> = bars.iter().collect();
    sorted.sort_by(|a, b| {
        let a_running = a.status == BuildStatus::Running;
        let b_running = b.status == BuildStatus::Running;
        b_running.cmp(&a_running).then(a.name.cmp(&b.name))
    });
    sorted
}

#[test]
fn sorted_bars_running_first_then_alphabetical() {
    let bars = vec![
        make_test_bar("zebra", BuildStatus::Idle),
        make_test_bar("alpha", BuildStatus::Running),
        make_test_bar("beta", BuildStatus::Succeeded),
        make_test_bar("gamma", BuildStatus::Running),
    ];
    let sorted = sorted_bars(&bars);
    assert_eq!(sorted[0].name, "alpha");
    assert_eq!(sorted[1].name, "gamma");
    assert_eq!(sorted[2].name, "beta");
    assert_eq!(sorted[3].name, "zebra");
}

#[test]
fn toggle_expand_toggles_both_flags() {
    let mut app = App::new();
    assert!(app.actions_expanded);
    assert!(app.pipelines_expanded);

    toggle_expand(&mut app);
    assert!(!app.actions_expanded);
    assert!(!app.pipelines_expanded);

    toggle_expand(&mut app);
    assert!(app.actions_expanded);
    assert!(app.pipelines_expanded);
}

#[test]
fn sorted_pipeline_groups_running_first() {
    let groups = vec![
        pipe("zzz-idle", vec![], BuildStatus::Idle),
        pipe(
            "aaa-running",
            vec![make_test_bar("Build", BuildStatus::Running)],
            BuildStatus::Running,
        ),
    ];
    let sorted = sorted_pipeline_groups(&groups, &[]);
    assert_eq!(sorted[0].name, "aaa-running");
    assert_eq!(sorted[1].name, "zzz-idle");
}

#[test]
fn gone_groups_included_in_display() {
    let mut deploy = wf(
        "Deploy",
        vec![Bar::new("deploy-backend".to_string())],
        BuildStatus::Succeeded,
        WorkflowCategory::default(),
    );
    deploy.gone = true;
    let groups = vec![
        wf(
            "CI",
            vec![Bar::new("build".to_string()), Bar::new("test".to_string())],
            BuildStatus::Running,
            WorkflowCategory::default(),
        ),
        deploy,
    ];

    let visible: Vec<&WorkflowGroup> = sorted_workflow_groups(&groups);

    assert_eq!(visible.len(), 2);
    assert_eq!(visible[0].name, "CI");
    assert!(visible.iter().any(|g| g.name == "Deploy" && g.gone));
}

#[test]
fn all_jobs_name_width_empty() {
    assert_eq!(all_jobs_name_width(&[]), 12);
}

#[test]
fn all_jobs_name_width_computes_max_plus_indent() {
    let groups = vec![
        wf(
            "wf1",
            vec![make_test_bar("build", BuildStatus::Idle)],
            BuildStatus::Idle,
            WorkflowCategory::default(),
        ),
        wf(
            "wf2",
            vec![make_test_bar("integration-test", BuildStatus::Idle)],
            BuildStatus::Idle,
            WorkflowCategory::default(),
        ),
    ];
    assert_eq!(all_jobs_name_width(&groups), 18);
}

#[test]
fn all_pipeline_stages_name_width_empty() {
    assert_eq!(all_pipeline_stages_name_width(&[]), 14);
}

#[test]
fn all_pipeline_stages_name_width_computes_max_plus_indent() {
    let groups = vec![pipe(
        "my-pipeline",
        vec![
            make_test_bar("Source", BuildStatus::Succeeded),
            make_test_bar("Deploy", BuildStatus::Idle),
        ],
        BuildStatus::Idle,
    )];
    assert_eq!(all_pipeline_stages_name_width(&groups), 10);
}

#[test]
fn action_rows_includes_separator_when_review_present() {
    let ci = wf(
        "CI",
        vec![make_test_bar("build", BuildStatus::Idle)],
        BuildStatus::Idle,
        WorkflowCategory::CI,
    );
    let review = wf(
        "Automated Code Review",
        vec![make_test_bar("review", BuildStatus::Idle)],
        BuildStatus::Idle,
        WorkflowCategory::Review,
    );
    let groups = vec![&ci, &review];
    assert_eq!(action_rows(&groups, &[]), 3);
}

#[test]
fn action_rows_no_separator_without_review() {
    let ci = wf(
        "CI",
        vec![make_test_bar("build", BuildStatus::Idle)],
        BuildStatus::Idle,
        WorkflowCategory::CI,
    );
    let groups = vec![&ci];
    assert_eq!(action_rows(&groups, &[]), 1);
}

#[test]
fn action_rows_multiple_ci_groups() {
    let ci1 = wf(
        "CI",
        vec![
            make_test_bar("build", BuildStatus::Idle),
            make_test_bar("test", BuildStatus::Idle),
        ],
        BuildStatus::Idle,
        WorkflowCategory::CI,
    );
    let ci2 = wf(
        "Deploy",
        vec![make_test_bar("deploy", BuildStatus::Idle)],
        BuildStatus::Idle,
        WorkflowCategory::CI,
    );
    let groups = vec![&ci1, &ci2];
    assert_eq!(action_rows(&groups, &[]), 3);
}

#[test]
fn action_rows_single_group_multiple_jobs() {
    let ci = wf(
        "CI",
        vec![
            make_test_bar("build", BuildStatus::Idle),
            make_test_bar("test", BuildStatus::Idle),
            make_test_bar("lint", BuildStatus::Idle),
        ],
        BuildStatus::Idle,
        WorkflowCategory::CI,
    );
    let groups = vec![&ci];
    assert_eq!(action_rows(&groups, &[]), 3);
}

#[test]
fn action_rows_single_job() {
    let ci = wf(
        "CI",
        vec![make_test_bar("build", BuildStatus::Idle)],
        BuildStatus::Idle,
        WorkflowCategory::CI,
    );
    let groups = vec![&ci];
    assert_eq!(action_rows(&groups, &[]), 1);
}

#[test]
fn action_rows_multiple_groups_with_separator() {
    let ci1 = wf(
        "CI",
        vec![make_test_bar("build", BuildStatus::Idle)],
        BuildStatus::Idle,
        WorkflowCategory::CI,
    );
    let ci2 = wf(
        "Deploy",
        vec![make_test_bar("deploy", BuildStatus::Idle)],
        BuildStatus::Idle,
        WorkflowCategory::CI,
    );
    let review = wf(
        "Review",
        vec![make_test_bar("review", BuildStatus::Idle)],
        BuildStatus::Idle,
        WorkflowCategory::Review,
    );
    let groups = vec![&ci1, &ci2, &review];
    assert_eq!(action_rows(&groups, &[]), 4);
}

#[test]
fn action_rows_count_linked_pipeline_under_its_workflow() {
    let mut ci = wf(
        "CI",
        vec![make_test_bar("build", BuildStatus::Idle)],
        BuildStatus::Idle,
        WorkflowCategory::CI,
    );
    ci.linked_pipeline = Some("deploy-pipe".to_string());
    let mut gone_stage = make_test_bar("Old", BuildStatus::Idle);
    gone_stage.gone = true;
    let pipes = vec![pipe(
        "deploy-pipe",
        vec![
            make_test_bar("Source", BuildStatus::Idle),
            make_test_bar("Deploy", BuildStatus::Idle),
            gone_stage,
        ],
        BuildStatus::Idle,
    )];
    let groups = vec![&ci];
    // 1 job + 1 pipeline header + 2 visible stages
    assert_eq!(action_rows(&groups, &pipes), 4);
}

#[test]
fn pipe_rows_multiple_groups_with_spacer() {
    let g1 = pipe(
        "pipe-a",
        vec![
            make_test_bar("Source", BuildStatus::Succeeded),
            make_test_bar("Build", BuildStatus::Running),
        ],
        BuildStatus::Running,
    );
    let g2 = pipe(
        "pipe-b",
        vec![make_test_bar("Deploy", BuildStatus::Idle)],
        BuildStatus::Idle,
    );
    let groups = vec![&g1, &g2];
    assert_eq!(pipe_rows(&groups), 6);
}

#[test]
fn pipe_rows_single_group_multiple_stages() {
    let g = pipe(
        "pipe",
        vec![
            make_test_bar("Source", BuildStatus::Succeeded),
            make_test_bar("Build", BuildStatus::Running),
            make_test_bar("Deploy", BuildStatus::Idle),
        ],
        BuildStatus::Running,
    );
    let groups = vec![&g];
    assert_eq!(pipe_rows(&groups), 4);
}

#[test]
fn pipe_rows_single_stage() {
    let g = pipe(
        "pipe",
        vec![make_test_bar("Source", BuildStatus::Succeeded)],
        BuildStatus::Succeeded,
    );
    let groups = vec![&g];
    assert_eq!(pipe_rows(&groups), 2);
}

#[test]
fn pipe_rows_skip_groups_without_visible_stages() {
    let mut gone = make_test_bar("Old", BuildStatus::Idle);
    gone.gone = true;
    let g1 = pipe("empty", vec![gone], BuildStatus::Idle);
    let g2 = pipe(
        "pipe",
        vec![make_test_bar("Source", BuildStatus::Succeeded)],
        BuildStatus::Succeeded,
    );
    let groups = vec![&g1, &g2];
    assert_eq!(pipe_rows(&groups), 2);
    assert_eq!(pipe_rows(&[]), 0);
}

#[test]
fn sorted_workflow_groups_ci_before_review() {
    let groups = vec![
        wf("Automated Code Review", vec![], BuildStatus::Succeeded, WorkflowCategory::Review),
        wf(
            "CI",
            vec![make_test_bar("build", BuildStatus::Idle)],
            BuildStatus::Idle,
            WorkflowCategory::CI,
        ),
    ];
    let sorted = sorted_workflow_groups(&groups);
    assert_eq!(sorted[0].name, "CI");
    assert_eq!(sorted[1].name, "Automated Code Review");
}

#[test]
fn sorted_workflow_groups_running_first_within_category() {
    let groups = vec![
        wf("zzz-idle", vec![], BuildStatus::Idle, WorkflowCategory::CI),
        wf(
            "aaa-running",
            vec![make_test_bar("build", BuildStatus::Running)],
            BuildStatus::Running,
            WorkflowCategory::CI,
        ),
        wf(
            "review-running",
            vec![make_test_bar("job", BuildStatus::Running)],
            BuildStatus::Running,
            WorkflowCategory::Review,
        ),
        wf("review-idle", vec![], BuildStatus::Idle, WorkflowCategory::Review),
    ];
    let sorted = sorted_workflow_groups(&groups);
    assert_eq!(sorted[0].name, "aaa-running");
    assert_eq!(sorted[1].name, "zzz-idle");
    assert_eq!(sorted[2].name, "review-running");
    assert_eq!(sorted[3].name, "review-idle");
}

#[test]
fn sorted_workflow_groups_running_first() {
    let groups = vec![
        wf("zzz-idle", vec![], BuildStatus::Idle, WorkflowCategory::default()),
        wf(
            "aaa-running",
            vec![make_test_bar("build", BuildStatus::Running)],
            BuildStatus::Running,
            WorkflowCategory::default(),
        ),
    ];
    let sorted = sorted_workflow_groups(&groups);
    assert_eq!(sorted[0].name, "aaa-running");
    assert_eq!(sorted[1].name, "zzz-idle");
}

#[test]
fn sorted_workflow_groups_alphabetical_among_equals() {
    let groups = vec![
        wf("beta", vec![], BuildStatus::Idle, WorkflowCategory::CI),
        wf("alpha", vec![], BuildStatus::Idle, WorkflowCategory::CI),
        wf("Zeta", vec![], BuildStatus::Idle, WorkflowCategory::CI),
    ];
    let sorted = sorted_workflow_groups(&groups);
    let names: Vec<&str> = sorted.iter().map(|g| g.name.as_str()).collect();
    assert_eq!(names, vec!["Zeta", "alpha", "beta"]);
}

#[test]
fn section_height_expanded_with_content() {
    assert_eq!(section_height(true, true, 5), 7);
}

#[test]
fn section_height_collapsed() {
    assert_eq!(section_height(true, false, 5), 3);
}

#[test]
fn section_height_no_content() {
    assert_eq!(section_height(false, true, 0), 3);
}

#[test]
fn sorted_pipeline_groups_filters_linked() {
    let pipelines = vec![
        pipe("linked-pipe", vec![], BuildStatus::Idle),
        pipe("unlinked-pipe", vec![], BuildStatus::Idle),
    ];
    let mut ci = wf("CI", vec![], BuildStatus::Idle, WorkflowCategory::CI);
    ci.linked_pipeline = Some("linked-pipe".into());
    let workflows = vec![ci];
    let sorted = sorted_pipeline_groups(&pipelines, &workflows);
    assert_eq!(sorted.len(), 1);
    assert_eq!(sorted[0].name, "unlinked-pipe");
}

#[test]
fn no_minimum_terminal_size_enforced() {
    // Nothing gates the layout on the terminal's size: every width is
    // accepted, and a row too narrow for a bar is simply left empty.
    let b = make_test_bar("build", BuildStatus::Running);
    for w in 0..200usize {
        let l = bar_layout(&b, 10, false, true, w);
        assert_eq!(l.is_some(), w > 2 + 10 + 2 + 7);
    }
    assert_eq!(section_height(true, true, 1), 3);
    assert_eq!(section_height(true, true, 100), 102);
}

#[test]
fn name_width_computed_correctly() {
    let bars = vec![
        make_test_bar("a", BuildStatus::Idle),
        make_test_bar("long-name", BuildStatus::Idle),
    ];
    assert_eq!(compute_name_width(&bars), 9);
}

#[test]
fn name_width_is_capped() {
    let bars = vec![make_test_bar(&"x".repeat(50), BuildStatus::Idle)];
    assert_eq!(compute_name_width(&bars), MAX_NAME_WIDTH);
    let mut gone = make_test_bar(&"y".repeat(20), BuildStatus::Idle);
    gone.gone = true;
    let bars = vec![make_test_bar("ab", BuildStatus::Idle), gone];
    assert_eq!(compute_name_width(&bars), 20);
    assert_eq!(compute_name_width(&[]), 10);
}

fn bar_with_fill(name: &str, status: BuildStatus, fill: usize) -> Bar {
    let mut b = make_test_bar(name, status);
    b.fill = fill;
    b
}

#[test]
fn gone_bar_shows_asterisk() {
    let mut b = bar_with_fill("old", BuildStatus::Idle, 0);
    b.gone = true;
    let l = bar_layout(&b, 10, false, false, 25).unwrap();
    assert_eq!(l.name_cell, "old      *  ");
}

#[test]
fn renders_idle_bar() {
    let b = bar_with_fill("deploy", BuildStatus::Idle, 0);
    let l = bar_layout(&b, 10, false, false, 25).unwrap();
    assert_eq!(l.name_cell, "deploy      ");
    assert_eq!((l.main, l.tip, l.empty), (0, 0, 6));
}

#[test]
fn running_bar_gradient_tip() {
    let b = bar_with_fill("build", BuildStatus::Running, 5);
    let l = bar_layout(&b, 10, false, false, 40).unwrap();
    assert_eq!((l.main, l.tip, l.empty), (3, 2, 16));
    let small = bar_with_fill("build", BuildStatus::Running, 1);
    let l = bar_layout(&small, 10, false, false, 30).unwrap();
    assert_eq!((l.main, l.tip), (0, 1));
}

#[test]
fn dim_running_bar_no_gradient() {
    let b = bar_with_fill("build", BuildStatus::Running, 5);
    let l = bar_layout(&b, 10, true, false, 30).unwrap();
    assert_eq!((l.main, l.tip), (5, 0));
    assert_eq!(l.tone, DotTone::Dim);
}

#[test]
fn bar_fill_is_clipped_to_the_row() {
    let b = bar_with_fill("build", BuildStatus::Succeeded, 100);
    let l = bar_layout(&b, 10, false, true, 30).unwrap();
    assert_eq!((l.main, l.tip, l.empty), (9, 0, 0));
}

#[test]
fn bar_renders_nothing_for_narrow_area() {
    let b = bar_with_fill("build", BuildStatus::Running, 3);
    assert!(bar_layout(&b, 10, false, false, 9).is_none());
    assert!(bar_layout(&b, 10, false, false, 19).is_none());
    assert!(bar_layout(&b, 10, false, false, 20).is_some());
}

#[test]
fn compute_layout_constraints_produces_five_sections() {
    let c = compute_layout_constraints(7, 5);
    assert_eq!(c.len(), 5);
    assert_eq!(c[0], Section::Length(3));
    assert_eq!(c[1], Section::Length(7));
    assert_eq!(c[2], Section::Length(5));
    assert_eq!(c[3], Section::Fill(1));
    assert_eq!(c[4], Section::Length(3));
}

#[test]
fn compute_layout_constraints_collapsed() {
    let c = compute_layout_constraints(3, 3);
    assert_eq!(c[1], Section::Length(3));
    assert_eq!(c[2], Section::Length(3));
}

#[test]
fn action_row_list_draws_ci_then_linked_pipeline_then_reviews() {

    let mut ci = wf(
        "CI",
        vec![make_test_bar("build", BuildStatus::Running), make_test_bar("test", BuildStatus::Failed)],
        BuildStatus::Running,
        WorkflowCategory::CI,
    );
    ci.jobs[1].gone = true;
    ci.linked_pipeline = Some("deploy-pipe".to_string());
    let review = wf(
        "Review",
        vec![make_test_bar("review", BuildStatus::Succeeded)],
        BuildStatus::Succeeded,
        WorkflowCategory::Review,
    );
    let mut p = pipe(
        "deploy-pipe",
        vec![make_test_bar("Source", BuildStatus::Succeeded), make_test_bar("Deploy", BuildStatus::Idle)],
        BuildStatus::Succeeded,
    );
    p.pending_link = true;
    let pipes = vec![pipe("other", vec![], BuildStatus::Idle), p];
    let groups = vec![&ci, &review];
    let rows = action_row_list_of(&groups, &pipes, false);
    assert_eq!(
        rows,
        vec![
            ActionRow::Job { group: 0, job: 0, dim: false, dot: DotTone::Status(StatusColor::Yellow) },
            ActionRow::LinkedPipeline { pipeline: 1, tone: DotTone::Dim },
            ActionRow::LinkedStage { pipeline: 1, stage: 0, dim: true },
            ActionRow::LinkedStage { pipeline: 1, stage: 1, dim: true },
            ActionRow::ReviewSeparator,
            ActionRow::Job { group: 1, job: 0, dim: true, dot: DotTone::Dim },
        ]
    );
    assert_eq!(rows.len(), action_rows(&groups, &pipes));
}

#[test]
fn pipeline_row_list_puts_spacers_between_groups_with_stages() {

    let g1 = pipe("a", vec![make_test_bar("Build", BuildStatus::Running)], BuildStatus::Running);
    let g2 = pipe("empty", vec![], BuildStatus::Idle);
    let mut g3 = pipe("b", vec![make_test_bar("Deploy", BuildStatus::Idle)], BuildStatus::Idle);
    g3.gone = true;
    let groups = vec![&g1, &g2, &g3];
    let rows = pipeline_row_list_of(&groups, false);
    assert_eq!(
        rows,
        vec![
            PipelineRow::Header { group: 0, tone: DotTone::Status(StatusColor::Yellow) },
            PipelineRow::Stage { group: 0, stage: 0, dim: false },
            PipelineRow::Spacer,
            PipelineRow::Header { group: 2, tone: DotTone::Dim },
            PipelineRow::Stage { group: 2, stage: 0, dim: true },
        ]
    );
    assert_eq!(rows.len(), pipe_rows(&groups));
}

#[test]
fn animate_bars_moves_running_bars_on_their_lap() {
    let mut app = App::new();
    app.terminal_width = 40;
    let mut running = make_test_bar("Build", BuildStatus::Running);
    running.write_pos = 3;
    running.fill = 3;
    app.pipeline_groups.push(pipe("p", vec![running, make_test_bar("Deploy", BuildStatus::Idle)], BuildStatus::Running));
    let mut job = make_test_bar("build", BuildStatus::Running);
    job.write_pos = 19;
    job.fill = 20;
    app.workflow_groups.push(wf("CI", vec![job], BuildStatus::Running, WorkflowCategory::CI));

    cibars::ui::animate::animate_bars(&mut app);

    // stage lap: 40 - ((6 + 4) + 13) = 17 cells
    let s = &app.pipeline_groups[0].stages;
    assert_eq!((s[0].write_pos, s[0].fill), (4, 4));
    assert_eq!((s[1].write_pos, s[1].fill), (0, 0));
    // job lap: 40 - ((5 + 2) + 13) = 20 cells: the job wraps
    let j = &app.workflow_groups[0].jobs[0];
    assert_eq!((j.write_pos, j.fill), (0, 1));
}

#[test]
fn animate_bars_leaves_bars_alone_without_room() {
    let mut app = App::new();
    app.terminal_width = 20;
    let mut running = make_test_bar("Build", BuildStatus::Running);
    running.write_pos = 2;
    running.fill = 2;
    app.pipeline_groups.push(pipe("p", vec![running], BuildStatus::Running));
    cibars::ui::animate::animate_bars(&mut app);
    let b = &app.pipeline_groups[0].stages[0];
    assert_eq!((b.write_pos, b.fill), (2, 2));
}
