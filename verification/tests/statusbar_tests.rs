use cibars::config::{HookLocation, HookStatus};
use cibars::poll_scheduler::{PollState, PollingPhase};
use cibars::ui::bar::{
    collapsed_actions_label, collapsed_pipelines_label, ActionsTitle, DotTone, PipelinesTitle,
};
use cibars::model::{Bar, BuildStatus, PipelineGroup, StatusColor, WorkflowCategory, WorkflowGroup};
use cibars::ui::statusbar::{spinner_at, spinner_frame, Segment, StatusBar, Tone};
use cibars::ui::theme::{BAR_FILLED, BAR_UNFILLED, CHECK_MARK, STATUS_DOT, SYMBOL_HEARTBEAT};

const SPINNER_FRAMES: [char; 10] = ['⠋', '⠙', '⠹', '⠸', '⠼', '⠴', '⠦', '⠧', '⠇', '⠏'];

fn now_ms() -> u64 {
    std::time::SystemTime::now()
        .duration_since(std::time::UNIX_EPOCH)
        .map(|d| d.as_millis() as u64)
        .unwrap_or(0)
}

fn polling(phase: PollingPhase, age_secs: u64) -> PollState {
    PollState::Polling { phase, since: now_ms().saturating_sub(age_secs * 1000) }
}

fn text(segs: &[Segment]) -> String {
    segs.iter().map(|s| s.text.as_str()).collect()
}

fn bar<'a>(state: &'a PollState, hook: &'a HookStatus, global: bool, warnings: &'a [String]) -> StatusBar<'a> {
    StatusBar {
        poll_state: state,
        warnings,
        hook_status: hook,
        has_global_hooks_path: global,
        boost_pressed_at: None,
        push_signal_at: None,
        linkage_broken: false,
        linkage_discovering: false,
    }
}

fn render_bar_with_hook(state: &PollState, hook: &HookStatus, global: bool) -> String {
    text(&bar(state, hook, global, &[]).segments())
}

fn render_bar(state: &PollState) -> String {
    render_bar_with_hook(state, &HookStatus::Installed(HookLocation::Local), false)
}

#[test]
fn sleep_renders_moon_label() {
    let content = render_bar(&PollState::Sleep);
    assert!(content.contains("☾ Sleep"), "got: {content}");
}

#[test]
fn polling_grace_renders_spinner() {
    let content = render_bar(&polling(PollingPhase::Grace, 0));
    assert!(content.contains("Polling"), "got: {content}");
    let has_spinner = SPINNER_FRAMES.iter().any(|c| content.contains(*c));
    assert!(has_spinner, "expected a spinner frame in: {content}");
}

#[test]
fn polling_active_renders_spinner() {
    let content = render_bar(&polling(PollingPhase::Active, 5));
    assert!(content.contains("Polling"), "got: {content}");
    let has_spinner = SPINNER_FRAMES.iter().any(|c| content.contains(*c));
    assert!(has_spinner, "expected a spinner frame in: {content}");
}

#[test]
fn cooldown_renders_countdown_seconds() {
    let content = render_bar(&polling(PollingPhase::Cooldown, 18));
    assert!(content.contains("Cooldown"), "got: {content}");
    assert!(content.contains("42s") || content.contains("41s"), "got: {content}");
}

#[test]
fn cooldown_countdown_exact_and_saturating() {
    let hook = HookStatus::NoGitDir;
    let state = PollState::Polling { phase: PollingPhase::Cooldown, since: 1_000_000 };
    let b = bar(&state, &hook, false, &[]);
    assert_eq!(b.segments_at(1_018_000, 'x')[0].text, "Cooldown 42s");
    assert_eq!(b.segments_at(1_018_001, 'x')[0].text, "Cooldown 41s");
    assert_eq!(b.segments_at(2_000_000, 'x')[0].text, "Cooldown 0s");
    assert_eq!(b.segments_at(0, 'x')[0].text, "Cooldown 60s");
    assert_eq!(b.segments_at(0, 'x')[0].tone, Tone::Cool);
}

#[test]
fn sleep_label_tone() {
    let hook = HookStatus::Installed(HookLocation::Local);
    let segs = bar(&PollState::Sleep, &hook, false, &[]).segments_at(0, 'x');
    assert_eq!(segs[0].text, "☾ Sleep");
    assert_eq!(segs[0].tone, Tone::Sleep);
}

#[test]
fn polling_label_uses_given_frame() {
    let hook = HookStatus::NoGitDir;
    let state = PollState::Polling { phase: PollingPhase::Grace, since: 0 };
    let segs = bar(&state, &hook, false, &[]).segments_at(10, '⠹');
    assert_eq!(segs[0].text, "⠹ Polling");
    assert_eq!(segs[0].tone, Tone::Fast);
}

#[test]
fn shows_boost_not_refresh() {
    let content = render_bar(&PollState::Sleep);
    assert!(content.contains("b=boost"), "got: {content}");
    assert!(!content.contains("r=boost"), "got: {content}");
}

#[test]
fn separator_uses_box_drawing_char() {
    let content = render_bar(&PollState::Sleep);
    assert!(content.contains('\u{2502}'), "expected │ (U+2502) in: {content}");
}

#[test]
fn shows_local_hint_when_missing_no_global() {
    let content = render_bar_with_hook(&PollState::Sleep, &HookStatus::Missing, false);
    assert!(content.contains("p=install hook"), "got: {content}");
    assert!(!content.contains("g="), "got: {content}");
}

#[test]
fn shows_both_hints_when_missing_with_global() {
    let content = render_bar_with_hook(&PollState::Sleep, &HookStatus::Missing, true);
    assert!(content.contains("p=local"), "got: {content}");
    assert!(content.contains("g=global"), "got: {content}");
}

#[test]
fn shows_local_hint_when_incomplete_no_global() {
    let content = render_bar_with_hook(&PollState::Sleep, &HookStatus::Incomplete, false);
    assert!(content.contains("p=install hook"), "got: {content}");
}

#[test]
fn no_hook_hint_when_installed() {
    let content = render_bar_with_hook(
        &PollState::Sleep,
        &HookStatus::Installed(HookLocation::Local),
        false,
    );
    assert!(!content.contains("p=install"), "got: {content}");
    assert!(!content.contains("g="), "got: {content}");
}

#[test]
fn installed_hook_shows_checkmark() {
    let content = render_bar(&PollState::Sleep);
    assert!(content.contains("✓hook"), "got: {content}");
}

#[test]
fn installed_hook_uses_success_color() {
    let segs = bar(&PollState::Sleep, &HookStatus::Installed(HookLocation::Local), false, &[])
        .segments();
    let s = segs.iter().find(|s| s.text.contains('\u{2713}')).expect("✓ not found");
    assert_eq!(s.tone, Tone::Success);
}

#[test]
fn global_and_shadowed_hook_segments() {
    let content = render_bar_with_hook(
        &PollState::Sleep,
        &HookStatus::Installed(HookLocation::Global),
        true,
    );
    assert!(content.contains("✓g-hook"), "got: {content}");
    let content = render_bar_with_hook(&PollState::Sleep, &HookStatus::Shadowed, true);
    assert!(content.contains("hook:override g=fix"), "got: {content}");
}

fn boost_tone(boost_pressed_at: Option<u64>, now: u64) -> Tone {
    let hook = HookStatus::Installed(HookLocation::Local);
    let mut b = bar(&PollState::Sleep, &hook, false, &[]);
    b.boost_pressed_at = boost_pressed_at;
    let segs = b.segments_at(now, 'x');
    segs.iter().find(|s| s.text == "b=boost").expect("b=boost not found").tone
}

#[test]
fn boost_flash_active() {
    assert_eq!(boost_tone(Some(10_000), 10_000), Tone::BoostFlash);
    assert_eq!(boost_tone(Some(10_000), 10_749), Tone::BoostFlash);
}

#[test]
fn boost_flash_expired() {
    assert_eq!(boost_tone(Some(10_000), 12_000), Tone::Plain);
    assert_eq!(boost_tone(Some(10_000), 10_750), Tone::Plain);
}

#[test]
fn boost_flash_none() {
    assert_eq!(boost_tone(None, 10_000), Tone::Plain);
}

fn render_bar_with_linkage(linkage_broken: bool, linkage_discovering: bool) -> String {
    let hook = HookStatus::Installed(HookLocation::Local);
    let mut b = bar(&PollState::Sleep, &hook, false, &[]);
    b.linkage_broken = linkage_broken;
    b.linkage_discovering = linkage_discovering;
    text(&b.segments())
}

#[test]
fn shows_relink_hint_normally() {
    let content = render_bar_with_linkage(false, false);
    assert!(content.contains("l=relink"), "got: {content}");
    assert!(!content.contains("\u{26A0}"), "got: {content}");
}

#[test]
fn shows_relink_warning_when_broken() {
    let content = render_bar_with_linkage(true, false);
    assert!(content.contains("l=relink"), "got: {content}");
    assert!(content.contains("\u{26A0}"), "got: {content}");
}

#[test]
fn shows_relinking_spinner_when_discovering() {
    let content = render_bar_with_linkage(false, true);
    assert!(content.contains("relinking"), "got: {content}");
    assert!(!content.contains("l=relink"), "got: {content}");
}

#[test]
fn renders_warnings() {
    let warnings = vec!["AWS: timeout".to_string()];
    let hook = HookStatus::Installed(HookLocation::Local);
    let content = text(&bar(&PollState::Sleep, &hook, false, &warnings).segments());
    assert!(content.contains("AWS: timeout"), "got: {content}");
}

#[test]
fn renders_hook_hint_and_warning_together() {
    let warnings = vec!["AWS: timeout".to_string()];
    let content = text(&bar(&PollState::Sleep, &HookStatus::Missing, false, &warnings).segments());
    assert!(content.contains("p=install hook"), "got: {content}");
    assert!(content.contains("AWS: timeout"), "got: {content}");
}

#[test]
fn warnings_joined_with_semicolons() {
    let warnings = vec!["A".to_string(), "B".to_string(), "C".to_string()];
    let hook = HookStatus::NoGitDir;
    let segs = bar(&PollState::Sleep, &hook, false, &warnings).segments_at(0, 'x');
    let last = segs.last().unwrap();
    assert_eq!(last.text, "A; B; C");
    assert_eq!(last.tone, Tone::Warn);
}

#[test]
fn full_status_line_layout() {
    let hook = HookStatus::NoGitDir;
    let segs = bar(&PollState::Sleep, &hook, false, &[]).segments_at(0, 'x');
    assert_eq!(text(&segs), "☾ Sleep │ e=expand b=boost q=quit │ l=relink");
}

fn render_with_push(push_signal_at: Option<u64>, now: u64) -> String {
    let hook = HookStatus::Installed(HookLocation::Local);
    let mut b = bar(&PollState::Sleep, &hook, false, &[]);
    b.push_signal_at = push_signal_at;
    text(&b.segments_at(now, 'x'))
}

#[test]
fn push_signal_shows_pushed_label() {
    let content = render_with_push(Some(now_ms()), now_ms());
    assert!(content.contains("pushed!"), "got: {content}");
    assert!(!content.contains("✓hook"), "got: {content}");
}

#[test]
fn expired_push_signal_shows_checkmark() {
    let content = render_with_push(Some(10_000), 15_000);
    assert!(content.contains("✓hook"), "got: {content}");
    assert!(!content.contains("pushed!"), "got: {content}");
}

#[test]
fn push_signal_uses_scan_color() {
    let hook = HookStatus::Installed(HookLocation::Local);
    let mut b = bar(&PollState::Sleep, &hook, false, &[]);
    b.push_signal_at = Some(10_000);
    let segs = b.segments_at(10_100, 'x');
    let s = segs.iter().find(|s| s.text.contains('\u{2B06}')).expect("⬆ not found");
    assert_eq!(s.tone, Tone::Scan);
}

#[test]
fn no_git_dir_omits_hook_indicator() {
    let content = render_bar_with_hook(&PollState::Sleep, &HookStatus::NoGitDir, false);
    assert!(!content.contains("✓hook"), "got: {content}");
    assert!(!content.contains("p=install"), "got: {content}");
    assert!(!content.contains("pushed!"), "got: {content}");
}

#[test]
fn spinner_frame_is_in_set() {
    let f = spinner_frame();
    assert!(SPINNER_FRAMES.contains(&f));
}

#[test]
fn spinner_advances_every_quarter_second() {
    assert_eq!(spinner_at(0), '⠋');
    assert_eq!(spinner_at(249), '⠋');
    assert_eq!(spinner_at(250), '⠙');
    assert_eq!(spinner_at(2250), '⠏');
    assert_eq!(spinner_at(2500), '⠋');
}

#[test]
fn bar_chars_are_correct_unicode() {
    assert_eq!(BAR_FILLED, '⣿');
    assert_eq!(BAR_UNFILLED, '⣿');
}

#[test]
fn check_mark_is_correct_unicode() {
    assert_eq!(CHECK_MARK, '✓');
}

#[test]
fn heartbeat_symbol_is_correct_unicode() {
    assert_eq!(SYMBOL_HEARTBEAT, '◉');
}

#[test]
fn status_dot_is_correct_unicode() {
    assert_eq!(STATUS_DOT, '\u{25CF}');
}

fn make_group(name: &str, job_statuses: &[BuildStatus]) -> WorkflowGroup {
    WorkflowGroup {
        name: name.to_string(),
        jobs: job_statuses
            .iter()
            .enumerate()
            .map(|(i, s)| {
                let mut bar = Bar::new(format!("job-{i}"));
                bar.status = *s;
                bar
            })
            .collect(),
        gone: false,
        summary_status: BuildStatus::Running,
        run_id: None,
        category: WorkflowCategory::CI,
        linked_pipeline: None,
    }
}

fn make_pipe_group(name: &str, summary_status: BuildStatus) -> PipelineGroup {
    PipelineGroup {
        name: name.to_string(),
        stages: vec![],
        gone: false,
        summary_status,
        pending_link: false,
    }
}

const GREEN: DotTone = DotTone::Status(StatusColor::Green);
const YELLOW: DotTone = DotTone::Status(StatusColor::Yellow);
const RED: DotTone = DotTone::Status(StatusColor::Red);
const GRAY: DotTone = DotTone::Status(StatusColor::DarkGray);

#[test]
fn actions_title_renders_label_and_dots() {
    let group = make_group("CI", &[BuildStatus::Succeeded, BuildStatus::Running]);
    let groups = vec![&group];
    let dots = ActionsTitle::new(&groups, false).dots();
    assert_eq!(dots, vec![GREEN, YELLOW]);
}

#[test]
fn actions_title_dot_colors() {
    let group = make_group(
        "Deploy",
        &[BuildStatus::Failed, BuildStatus::Idle, BuildStatus::Succeeded, BuildStatus::Running],
    );
    let groups = vec![&group];
    let dots = ActionsTitle::new(&groups, false).dots();
    assert_eq!(dots, vec![RED, GRAY, GREEN, YELLOW]);
}

#[test]
fn actions_title_multiple_groups() {
    let g1 = make_group("CI", &[BuildStatus::Succeeded]);
    let g2 = make_group("Deploy", &[BuildStatus::Failed, BuildStatus::Running]);
    let groups = vec![&g1, &g2];
    let dots = ActionsTitle::new(&groups, false).dots();
    assert_eq!(dots, vec![GREEN, RED, YELLOW]);
}

#[test]
fn actions_title_summary_dot_when_no_jobs() {
    let mut group = make_group("CI", &[]);
    group.summary_status = BuildStatus::Succeeded;
    let groups = vec![&group];
    assert_eq!(ActionsTitle::new(&groups, false).dots(), vec![GREEN]);
}

#[test]
fn actions_title_review_dots_dimmed() {
    let ci_group = make_group("CI", &[BuildStatus::Succeeded]);
    let mut review_group = make_group("Review", &[BuildStatus::Running]);
    review_group.category = WorkflowCategory::Review;
    let groups = vec![&ci_group, &review_group];
    assert_eq!(ActionsTitle::new(&groups, false).dots(), vec![GREEN, DotTone::Dim]);
}

#[test]
fn actions_title_gone_group_dimmed() {
    let mut group = make_group("Old", &[]);
    group.gone = true;
    group.summary_status = BuildStatus::Succeeded;
    let groups = vec![&group];
    assert_eq!(ActionsTitle::new(&groups, false).dots(), vec![DotTone::Dim]);
}

#[test]
fn actions_title_no_dots_when_expanded() {
    let group = make_group("CI", &[BuildStatus::Succeeded, BuildStatus::Running]);
    let groups = vec![&group];
    assert!(ActionsTitle::new(&groups, true).dots().is_empty(), "expanded title should have no dots");
}

#[test]
fn actions_title_dots_when_collapsed() {
    let group = make_group("CI", &[BuildStatus::Succeeded, BuildStatus::Running]);
    let groups = vec![&group];
    assert_eq!(ActionsTitle::new(&groups, false).dots().len(), 2, "collapsed title should show dots");
}

#[test]
fn pipelines_title_renders_label_and_dots() {
    let g1 = make_pipe_group("pipe-a", BuildStatus::Succeeded);
    let g2 = make_pipe_group("pipe-b", BuildStatus::Running);
    let groups = vec![&g1, &g2];
    assert_eq!(PipelinesTitle::new(&groups, false).dots(), vec![GREEN, YELLOW]);
}

#[test]
fn pipelines_title_dot_colors() {
    let g1 = make_pipe_group("a", BuildStatus::Failed);
    let g2 = make_pipe_group("b", BuildStatus::Idle);
    let g3 = make_pipe_group("c", BuildStatus::Succeeded);
    let g4 = make_pipe_group("d", BuildStatus::Running);
    let groups = vec![&g1, &g2, &g3, &g4];
    assert_eq!(PipelinesTitle::new(&groups, false).dots(), vec![RED, GRAY, GREEN, YELLOW]);
}

#[test]
fn pipelines_title_gone_group_dimmed() {
    let mut g = make_pipe_group("pipe", BuildStatus::Succeeded);
    g.gone = true;
    let groups = vec![&g];
    assert_eq!(PipelinesTitle::new(&groups, false).dots(), vec![DotTone::Dim]);
}

#[test]
fn pipelines_title_no_dots_when_expanded() {
    let g1 = make_pipe_group("pipe-a", BuildStatus::Succeeded);
    let g2 = make_pipe_group("pipe-b", BuildStatus::Running);
    let groups = vec![&g1, &g2];
    assert!(PipelinesTitle::new(&groups, true).dots().is_empty(), "expanded title should have no dots");
}

#[test]
fn pipelines_title_pending_link_dims_dot() {
    let mut g = make_pipe_group("pipe", BuildStatus::Succeeded);
    g.pending_link = true;
    let groups = vec![&g];
    assert_eq!(PipelinesTitle::new(&groups, false).dots(), vec![DotTone::Dim], "pending_link should dim the dot");
}

#[test]
fn pipelines_title_pending_link_cleared_shows_status() {
    let g = make_pipe_group("pipe", BuildStatus::Succeeded);
    let groups = vec![&g];
    assert_eq!(
        PipelinesTitle::new(&groups, false).dots(),
        vec![GREEN],
        "without pending_link, dot should show status color"
    );
}

#[test]
fn collapsed_pipelines_singular_label() {
    assert_eq!(collapsed_pipelines_label(1), " (1 pipeline)");
}

#[test]
fn collapsed_pipelines_renders_dots_and_count() {
    assert_eq!(collapsed_pipelines_label(2), " (2 pipelines)");
    assert_eq!(collapsed_pipelines_label(0), " (0 pipelines)");
}

#[test]
fn collapsed_actions_renders_dots_and_count() {
    assert_eq!(collapsed_actions_label(2), " (2 jobs)");
    let group = make_group("CI", &[BuildStatus::Succeeded, BuildStatus::Running]);
    let groups = vec![&group];
    assert_eq!(ActionsTitle::new(&groups, false).dots().len(), 2);
}

#[test]
fn collapsed_dots_retain_status_colors() {
    let mut group = make_group("CI", &[BuildStatus::Succeeded, BuildStatus::Failed]);
    group.summary_status = BuildStatus::Failed;
    let groups = vec![&group];
    assert_eq!(ActionsTitle::new(&groups, false).dots(), vec![GREEN, RED]);
}
