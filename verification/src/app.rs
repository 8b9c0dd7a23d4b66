use vstd::prelude::*;

use crate::clock::{elapsed_between, elapsed_ms, now_millis};
use crate::config::HookStatus;
use crate::linkage::{JobAssignment, LinkMap, LinkView};
use crate::model::{BuildStatus, PipelineGroup, WatchedPr, WatchedPrState, WorkflowGroup};
use crate::poll_scheduler::{PollState, POLL_INTERVAL_MS};
use crate::text::{chars_eq, chars_of, str_starts_with};

verus! {

/// The health of a data source's credentials.
#[derive(Debug, Clone, Copy, PartialEq, Eq, Structural)]
pub enum SourceHealth {
    Unknown,
    Healthy,
    /// Authentication failed at `since` (milliseconds since the epoch).
    AuthFailed { since: u64 },
}

/// The state shown by the UI and updated by the pollers.
pub struct App {
    pub pipeline_groups: Vec<PipelineGroup>,
    pub workflow_groups: Vec<WorkflowGroup>,
    pub actions_expanded: bool,
    pub pipelines_expanded: bool,
    /// When the last poll finished (milliseconds since the epoch).
    pub last_poll: Option<u64>,
    pub warnings: Vec<String>,
    /// Terminal width, updated on each render; used by the animation tick.
    pub terminal_width: u16,
    /// Skip GitHub polling until this time (rate-limit back-off).
    pub rate_limited_until: Option<u64>,
    /// True until the first pipeline poll completes.
    pub loading_pipelines: bool,
    /// True until the first actions poll completes.
    pub loading_actions: bool,
    /// The poll state machine's state, for display.
    pub poll_state: PollState,
    /// Status bar animation counter (0..=NUM_TICKS, cycling).
    pub status_tick: usize,
    /// When the status tick last advanced.
    pub last_tick_advance: Option<u64>,
    /// Cooldown remaining, in milliseconds, for display.
    pub cooldown_remaining: Option<u64>,
    /// Idle time remaining, in milliseconds, for display.
    pub idle_remaining: Option<u64>,
    /// Watching time remaining, in milliseconds, for display.
    pub watching_remaining: Option<u64>,
    /// Time spent in Active, in milliseconds, for display.
    pub active_elapsed: Option<u64>,
    /// State of the git pre-push hook.
    pub hook_status: HookStatus,
    /// core.hooksPath overrides .git/hooks.
    pub has_global_hooks_path: bool,
    /// AWS credential health.
    pub aws_health: SourceHealth,
    /// When the boost key was last pressed.
    pub boost_pressed_at: Option<u64>,
    /// When a push signal was last received.
    pub push_signal_at: Option<u64>,
    /// The cached link map refers to pipelines or workflows that are gone.
    pub linkage_broken: bool,
    /// Link discovery is running.
    pub linkage_discovering: bool,
    /// Per-pipeline job assignment, after link discovery.
    pub job_assignment: Option<JobAssignment>,
    /// Pull requests whose runs were seen, each number once.
    pub watched_prs: Vec<WatchedPr>,
}

/// The views of the warnings.
pub open spec fn warnings_view(v: Seq<String>) -> Seq<Seq<char>> {
    v.map_values(|s: String| s@)
}

/// The warnings after adding `msg`: the oldest is dropped when
/// MAX_WARNINGS are kept.
pub open spec fn push_warning_spec(ws: Seq<Seq<char>>, msg: Seq<char>) -> Seq<Seq<char>> {
    if ws.len() >= 10 {
        ws.drop_first().push(msg)
    } else {
        ws.push(msg)
    }
}

/// Some group of `groups` is named `name`.
pub open spec fn has_pipeline_group(groups: Seq<PipelineGroup>, name: Seq<char>) -> bool {
    exists|i: int| 0 <= i < groups.len() && groups[i].name@ == name
}

/// Some group of `groups` is named `name`.
pub open spec fn has_workflow_group(groups: Seq<WorkflowGroup>, name: Seq<char>) -> bool {
    exists|i: int| 0 <= i < groups.len() && groups[i].name@ == name
}

/// Some link refers to a pipeline or a workflow that has no group.
pub open spec fn some_link_dangles(links: Seq<LinkView>, pgs: Seq<PipelineGroup>, wgs: Seq<WorkflowGroup>) -> bool {
    exists|i: int|
        0 <= i < links.len() && (!has_pipeline_group(pgs, links[i].pipeline) || !has_workflow_group(
            wgs,
            links[i].workflow,
        ))
}

/// A pipeline group is busy: running, with a running stage, or waiting
/// for its linked workflow.
pub open spec fn pipeline_group_busy(g: PipelineGroup) -> bool {
    g.summary_status == BuildStatus::Running || (exists|j: int|
        0 <= j < g.stages@.len() && g.stages@[j].status == BuildStatus::Running) || g.pending_link
}

/// A workflow group is busy: running, or with a running job.
pub open spec fn workflow_group_busy(g: WorkflowGroup) -> bool {
    g.summary_status == BuildStatus::Running || (exists|j: int|
        0 <= j < g.jobs@.len() && g.jobs@[j].status == BuildStatus::Running)
}

/// Something is being built or awaited.
pub open spec fn any_running_spec(pgs: Seq<PipelineGroup>, wgs: Seq<WorkflowGroup>) -> bool {
    (exists|i: int| 0 <= i < pgs.len() && pipeline_group_busy(pgs[i])) || (exists|i: int|
        0 <= i < wgs.len() && workflow_group_busy(wgs[i]))
}

/// Some watched pull request has number `n`.
pub open spec fn has_pr(ws: Seq<WatchedPr>, n: u64) -> bool {
    exists|i: int| 0 <= i < ws.len() && ws[i].number == n
}

/// No number is watched twice.
pub open spec fn prs_unique(ws: Seq<WatchedPr>) -> bool {
    forall|i: int, j: int| 0 <= i < j < ws.len() ==> ws[i].number != ws[j].number
}

/// A newly seen pull request: open, first seen at `now`, never checked.
pub open spec fn new_pr(n: u64, now: u64) -> WatchedPr {
    WatchedPr { number: n, state: WatchedPrState::Open, first_seen: now, last_checked: None }
}

/// The watched pull requests after `n` is seen at `now`: a new number is
/// added; a known one is left as it is (its state and first sighting
/// stand).
pub open spec fn add_pr(ws: Seq<WatchedPr>, n: u64, now: u64) -> Seq<WatchedPr> {
    if has_pr(ws, n) {
        ws
    } else {
        ws.push(new_pr(n, now))
    }
}

/// The watched pull requests after each of `ns` is seen at `now`.
pub open spec fn add_prs(ws: Seq<WatchedPr>, ns: Seq<u64>, now: u64) -> Seq<WatchedPr>
    decreases ns.len(),
{
    if ns.len() == 0 {
        ws
    } else {
        add_pr(add_prs(ws, ns.drop_last(), now), ns.last(), now)
    }
}

/// A watched pull request is still open, within `cap_ms` of its first
/// sighting at `now`.
pub open spec fn pr_keeps_polling(p: WatchedPr, cap_ms: u64, now: u64) -> bool {
    p.state == WatchedPrState::Open && elapsed_ms(p.first_seen, now) < cap_ms
}

impl App {
    /// At most this many warnings are kept.
    pub const MAX_WARNINGS: usize = 10;

    /// Number of status bar animation ticks per poll interval, minus one.
    pub const NUM_TICKS: usize = 5;

    /// The initial state: nothing loaded, both sections expanded, sleeping.
    pub fn new() -> (a: Self)
        ensures
            a.pipeline_groups@.len() == 0,
            a.workflow_groups@.len() == 0,
            a.actions_expanded,
            a.pipelines_expanded,
            a.last_poll is None,
            a.warnings@.len() == 0,
            a.terminal_width == 80,
            a.rate_limited_until is None,
            a.loading_pipelines,
            a.loading_actions,
            a.poll_state == PollState::Sleep,
            a.status_tick == 0,
            a.last_tick_advance is None,
            a.cooldown_remaining is None,
            a.idle_remaining is None,
            a.watching_remaining is None,
            a.active_elapsed is None,
            a.hook_status == HookStatus::NoGitDir,
            !a.has_global_hooks_path,
            a.aws_health == SourceHealth::Unknown,
            a.boost_pressed_at is None,
            a.push_signal_at is None,
            !a.linkage_broken,
            !a.linkage_discovering,
            a.job_assignment is None,
            a.watched_prs@.len() == 0,
    {
        App {
            pipeline_groups: Vec::new(),
            workflow_groups: Vec::new(),
            actions_expanded: true,
            pipelines_expanded: true,
            last_poll: None,
            warnings: Vec::new(),
            terminal_width: 80,
            rate_limited_until: None,
            loading_pipelines: true,
            loading_actions: true,
            poll_state: PollState::Sleep,
            status_tick: 0,
            last_tick_advance: None,
            cooldown_remaining: None,
            idle_remaining: None,
            watching_remaining: None,
            active_elapsed: None,
            hook_status: HookStatus::NoGitDir,
            has_global_hooks_path: false,
            aws_health: SourceHealth::Unknown,
            boost_pressed_at: None,
            push_signal_at: None,
            linkage_broken: false,
            linkage_discovering: false,
            job_assignment: None,
            watched_prs: Vec::new(),
        }
    }

    /// The time between two status bar animation ticks, in milliseconds:
    /// the poll interval split in NUM_TICKS + 1 steps.
    pub fn tick_interval_for(state: &PollState) -> (ms: u64)
        ensures
            ms == POLL_INTERVAL_MS / 6,
    {
        POLL_INTERVAL_MS / 6
    }

    /// Advances the status bar animation at time `now`.
    pub fn advance_status_tick_at(&mut self, now: u64)
        requires
            old(self).status_tick < usize::MAX,
        ensures
            final(self).status_tick == (old(self).status_tick + 1) % 6,
            final(self).last_tick_advance == Some(now),
            final(self).warnings == old(self).warnings,
            final(self).pipeline_groups == old(self).pipeline_groups,
            final(self).workflow_groups == old(self).workflow_groups,
    {
        self.status_tick = (self.status_tick + 1) % (Self::NUM_TICKS + 1);
        self.last_tick_advance = Some(now);
    }

    /// Advances the status bar animation now.
    pub fn advance_status_tick(&mut self)
        requires
            old(self).status_tick < usize::MAX,
        ensures
            final(self).status_tick == (old(self).status_tick + 1) % 6,
            final(self).last_tick_advance is Some,
    {
        let now = now_millis();
        self.advance_status_tick_at(now);
    }

    /// Adds a warning, dropping the oldest when MAX_WARNINGS are kept.
    pub fn push_warning(&mut self, msg: String)
        ensures
            final(self).warnings@ == if old(self).warnings@.len() >= 10 {
                old(self).warnings@.drop_first().push(msg)
            } else {
                old(self).warnings@.push(msg)
            },
            warnings_view(final(self).warnings@) == push_warning_spec(
                warnings_view(old(self).warnings@),
                msg@,
            ),
            *final(self) == (App { warnings: final(self).warnings, ..*old(self) }),
    {
        let ghost w0 = self.warnings@;
        if self.warnings.len() >= Self::MAX_WARNINGS {
            self.warnings.remove(0);
            assert(self.warnings@ =~= w0.drop_first());
        }
        self.warnings.push(msg);
        assert(warnings_view(self.warnings@) =~= push_warning_spec(warnings_view(w0), msg@));
    }

    /// Removes the warnings that start with `prefix`.
    pub fn clear_warnings_by_prefix(&mut self, prefix: &str)
        ensures
            warnings_view(final(self).warnings@) == warnings_view(old(self).warnings@).filter(
                |w: Seq<char>| !prefix@.is_prefix_of(w),
            ),
            *final(self) == (App { warnings: final(self).warnings, ..*old(self) }),
    {
        let ghost wv = warnings_view(self.warnings@);
        let mut kept: Vec<String> = Vec::new();
        let mut i: usize = 0;
        while i < self.warnings.len()
            invariant
                wv == warnings_view(self.warnings@),
                i <= self.warnings.len(),
                warnings_view(kept@) == wv.take(i as int).filter(
                    |w: Seq<char>| !prefix@.is_prefix_of(w),
                ),
            decreases self.warnings.len() - i,
        {
            proof {
                assert(wv.take(i + 1) =~= wv.take(i as int).push(wv[i as int]));
                wv.take(i as int).lemma_filter_push(wv[i as int], |w: Seq<char>| !prefix@.is_prefix_of(w));
            }
            if !str_starts_with(self.warnings[i].as_str(), prefix) {
                let ghost before = kept@;
                kept.push(self.warnings[i].clone());
                assert(warnings_view(kept@) =~= warnings_view(before).push(wv[i as int]));
            }
            i = i + 1;
        }
        assert(wv.take(i as int) =~= wv);
        self.warnings = kept;
    }

    fn has_pipeline_named(&self, name: &Vec<char>) -> (r: bool)
        ensures
            r == has_pipeline_group(self.pipeline_groups@, name@),
    {
        let mut i: usize = 0;
        while i < self.pipeline_groups.len()
            invariant
                i <= self.pipeline_groups.len(),
                forall|k: int| 0 <= k < i ==> self.pipeline_groups@[k].name@ != name@,
            decreases self.pipeline_groups.len() - i,
        {
            let n = chars_of(self.pipeline_groups[i].name.as_str());
            if chars_eq(&n, name) {
                return true;
            }
            i = i + 1;
        }
        false
    }

    fn has_workflow_named(&self, name: &Vec<char>) -> (r: bool)
        ensures
            r == has_workflow_group(self.workflow_groups@, name@),
    {
        let mut i: usize = 0;
        while i < self.workflow_groups.len()
            invariant
                i <= self.workflow_groups.len(),
                forall|k: int| 0 <= k < i ==> self.workflow_groups@[k].name@ != name@,
            decreases self.workflow_groups.len() - i,
        {
            let n = chars_of(self.workflow_groups[i].name.as_str());
            if chars_eq(&n, name) {
                return true;
            }
            i = i + 1;
        }
        false
    }

    /// Compares the link map with the live groups, once both sources have
    /// loaded: the linkage is broken when some link refers to a pipeline or
    /// a workflow that has no group.
    pub fn check_linkage_health(&mut self, link_map: &LinkMap)
        ensures
            final(self).linkage_broken == if old(self).loading_pipelines
                || old(self).loading_actions {
                old(self).linkage_broken
            } else {
                some_link_dangles(
                    link_map@.links,
                    old(self).pipeline_groups@,
                    old(self).workflow_groups@,
                )
            },
            *final(self) == (App { linkage_broken: final(self).linkage_broken, ..*old(self) }),
    {
        if self.loading_pipelines || self.loading_actions {
            return;
        }
        let links = link_map.links();
        let ghost lv = link_map@.links;
        let mut broken = false;
        let mut i: usize = 0;
        while i < links.len()
            invariant
                lv == crate::linkage::links_view(links@),
                i <= links.len(),
                broken == (exists|k: int|
                    0 <= k < i && (!has_pipeline_group(self.pipeline_groups@, lv[k].pipeline)
                        || !has_workflow_group(self.workflow_groups@, lv[k].workflow))),
            decreases links.len() - i,
        {
            let p = chars_of(links[i].pipeline_name.as_str());
            let w = chars_of(links[i].workflow_name.as_str());
            assert(lv[i as int] == links@[i as int]@);
            if !self.has_pipeline_named(&p) || !self.has_workflow_named(&w) {
                broken = true;
            }
            i = i + 1;
        }
        self.linkage_broken = broken;
    }

    /// Records the pull requests `prs` seen at `now` (see [`add_prs`]).
    pub fn add_or_update_watched_prs(&mut self, prs: &[u64], now: u64)
        ensures
            final(self).watched_prs@ == add_prs(old(self).watched_prs@, prs@, now),
            *final(self) == (App { watched_prs: final(self).watched_prs, ..*old(self) }),
    {
        let mut k: usize = 0;
        while k < prs.len()
            invariant
                k <= prs.len(),
                self.watched_prs@ == add_prs(old(self).watched_prs@, prs@.take(k as int), now),
                *self == (App { watched_prs: self.watched_prs, ..*old(self) }),
            decreases prs.len() - k,
        {
            assert(prs@.take(k + 1).drop_last() =~= prs@.take(k as int));
            let n = prs[k];
            let mut found = false;
            let mut i: usize = 0;
            while i < self.watched_prs.len()
                invariant
                    i <= self.watched_prs.len(),
                    found == (exists|j: int| 0 <= j < i && self.watched_prs@[j].number == n),
                decreases self.watched_prs.len() - i,
            {
                if self.watched_prs[i].number == n {
                    found = true;
                }
                i = i + 1;
            }
            if !found {
                self.watched_prs.push(
                    WatchedPr { number: n, state: WatchedPrState::Open, first_seen: now, last_checked: None },
                );
            }
            k = k + 1;
        }
        assert(prs@.take(k as int) =~= prs@);
    }

    /// Some watched pull request keeps polling at `now` (see
    /// [`pr_keeps_polling`]).
    pub fn has_watched_open_prs(&self, cap_ms: u64, now: u64) -> (r: bool)
        ensures
            r == (exists|i: int|
                0 <= i < self.watched_prs@.len() && pr_keeps_polling(self.watched_prs@[i], cap_ms, now)),
    {
        let mut i: usize = 0;
        while i < self.watched_prs.len()
            invariant
                i <= self.watched_prs.len(),
                forall|j: int| 0 <= j < i ==> !pr_keeps_polling(#[trigger] self.watched_prs@[j], cap_ms, now),
            decreases self.watched_prs.len() - i,
        {
            let p = self.watched_prs[i];
            let open = match p.state {
                WatchedPrState::Open => true,
                _ => false,
            };
            if open && elapsed_between(p.first_seen, now) < cap_ms {
                return true;
            }
            i = i + 1;
        }
        false
    }

    /// Forgets the pull requests first seen `cap_ms` or more before `now`.
    pub fn prune_expired_prs(&mut self, cap_ms: u64, now: u64)
        ensures
            final(self).watched_prs@ == old(self).watched_prs@.filter(
                |p: WatchedPr| elapsed_ms(p.first_seen, now) < cap_ms,
            ),
            *final(self) == (App { watched_prs: final(self).watched_prs, ..*old(self) }),
    {
        let ghost ws = self.watched_prs@;
        let mut kept: Vec<WatchedPr> = Vec::new();
        let mut i: usize = 0;
        while i < self.watched_prs.len()
            invariant
                ws == self.watched_prs@,
                i <= ws.len(),
                kept@ == ws.take(i as int).filter(|p: WatchedPr| elapsed_ms(p.first_seen, now) < cap_ms),
            decreases self.watched_prs.len() - i,
        {
            proof {
                assert(ws.take(i + 1) =~= ws.take(i as int).push(ws[i as int]));
                ws.take(i as int).lemma_filter_push(ws[i as int], |p: WatchedPr| elapsed_ms(p.first_seen, now) < cap_ms);
            }
            let p = self.watched_prs[i];
            if elapsed_between(p.first_seen, now) < cap_ms {
                kept.push(p);
            }
            i = i + 1;
        }
        assert(ws.take(i as int) =~= ws);
        self.watched_prs = kept;
    }

    /// Something is being built or awaited: a running pipeline, stage,
    /// workflow or job, or a pipeline waiting for its linked workflow.
    pub fn has_any_running(&self) -> (r: bool)
        ensures
            r == any_running_spec(self.pipeline_groups@, self.workflow_groups@),
    {
        let mut i: usize = 0;
        while i < self.pipeline_groups.len()
            invariant
                i <= self.pipeline_groups.len(),
                forall|k: int| 0 <= k < i ==> !pipeline_group_busy(#[trigger] self.pipeline_groups@[k]),
            decreases self.pipeline_groups.len() - i,
        {
            let g = &self.pipeline_groups[i];
            if g.summary_status == BuildStatus::Running || g.pending_link {
                assert(pipeline_group_busy(self.pipeline_groups@[i as int]));
                return true;
            }
            let mut j: usize = 0;
            while j < g.stages.len()
                invariant
                    i < self.pipeline_groups@.len(),
                    *g == self.pipeline_groups@[i as int],
                    forall|k: int| 0 <= k < i ==> !pipeline_group_busy(#[trigger] self.pipeline_groups@[k]),
                    g.summary_status != BuildStatus::Running,
                    !g.pending_link,
                    j <= g.stages.len(),
                    forall|k: int| 0 <= k < j ==> g.stages@[k].status != BuildStatus::Running,
                decreases g.stages.len() - j,
            {
                if g.stages[j].status == BuildStatus::Running {
                    assert(pipeline_group_busy(self.pipeline_groups@[i as int]));
                    return true;
                }
                j = j + 1;
            }
            i = i + 1;
        }
        let mut i: usize = 0;
        while i < self.workflow_groups.len()
            invariant
                i <= self.workflow_groups.len(),
                forall|k: int| 0 <= k < self.pipeline_groups@.len() ==> !pipeline_group_busy(#[trigger] self.pipeline_groups@[k]),
                forall|k: int| 0 <= k < i ==> !workflow_group_busy(#[trigger] self.workflow_groups@[k]),
            decreases self.workflow_groups.len() - i,
        {
            let g = &self.workflow_groups[i];
            if g.summary_status == BuildStatus::Running {
                assert(workflow_group_busy(self.workflow_groups@[i as int]));
                return true;
            }
            let mut j: usize = 0;
            while j < g.jobs.len()
                invariant
                    i < self.workflow_groups@.len(),
                    *g == self.workflow_groups@[i as int],
                    forall|k: int| 0 <= k < self.pipeline_groups@.len() ==> !pipeline_group_busy(#[trigger] self.pipeline_groups@[k]),
                    forall|k: int| 0 <= k < i ==> !workflow_group_busy(#[trigger] self.workflow_groups@[k]),
                    g.summary_status != BuildStatus::Running,
                    j <= g.jobs.len(),
                    forall|k: int| 0 <= k < j ==> g.jobs@[k].status != BuildStatus::Running,
                decreases g.jobs.len() - j,
            {
                if g.jobs[j].status == BuildStatus::Running {
                    assert(workflow_group_busy(self.workflow_groups@[i as int]));
                    return true;
                }
                j = j + 1;
            }
            i = i + 1;
        }
        false
    }
}

impl Default for App {
    fn default() -> (a: Self)
        ensures
            a.pipeline_groups@.len() == 0,
            a.workflow_groups@.len() == 0,
            a.poll_state == PollState::Sleep,
            a.loading_pipelines,
            a.loading_actions,
    {
        Self::new()
    }
}

/// Seeing pull requests never makes a number watched twice.
pub proof fn lemma_add_prs_keeps_unique(ws: Seq<WatchedPr>, ns: Seq<u64>, now: u64)
    requires
        prs_unique(ws),
    ensures
        prs_unique(add_prs(ws, ns, now)),
        forall|n: u64| #[trigger] has_pr(ws, n) ==> has_pr(add_prs(ws, ns, now), n),
        forall|k: int| 0 <= k < ns.len() ==> has_pr(add_prs(ws, ns, now), #[trigger] ns[k]),
    decreases ns.len(),
{
    if ns.len() > 0 {
        let prev = add_prs(ws, ns.drop_last(), now);
        lemma_add_prs_keeps_unique(ws, ns.drop_last(), now);
        let n = ns.last();
        if !has_pr(prev, n) {
            let next = prev.push(new_pr(n, now));
            assert(next[prev.len() as int].number == n);
            assert forall|m: u64| #[trigger] has_pr(prev, m) implies has_pr(next, m) by {
                let i = choose|i: int| 0 <= i < prev.len() && prev[i].number == m;
                assert(next[i] == prev[i]);
            }
        }
        assert forall|k: int| 0 <= k < ns.len() implies has_pr(add_prs(ws, ns, now), #[trigger] ns[k]) by {
            if k < ns.len() - 1 {
                assert(ns.drop_last()[k] == ns[k]);
            }
        }
    }
}

/// Adding warnings never keeps more than MAX_WARNINGS of them, and the
/// newest warning is always kept.
pub proof fn lemma_warnings_stay_bounded(before: Seq<String>, msg: String)
    requires
        before.len() <= 10,
    ensures
        ({
            let after = if before.len() >= 10 {
                before.drop_first().push(msg)
            } else {
                before.push(msg)
            };
            after.len() <= 10 && after.last() == msg
        }),
{
}

} // verus!
