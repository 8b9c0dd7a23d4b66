pub mod aws;
pub mod github;

use vstd::prelude::*;

use crate::app::{push_warning_spec, warnings_view, App, SourceHealth};
use crate::config::{classify_spec, Config};
use crate::clock::{elapsed_between, elapsed_ms};
use crate::model::{
    set_status_spec, Bar, BuildStatus, PipelineGroup, WatchedPr, WatchedPrState, WorkflowCategory, WorkflowGroup,
};
use crate::text::{chars_eq, chars_of, concat2, contains_seq, spec_lowercase, str_contains, to_lowercase};

verus! {

/// How long GitHub polling backs off after a rate limit, in milliseconds.
pub const RATE_LIMIT_BACKOFF_MS: u64 = 60000;

/// A pipeline's state from the AWS API, with its stages.
pub struct PipelineState {
    pub name: String,
    pub status: BuildStatus,
    pub stages: Vec<StageState>,
}

/// One stage of a pipeline and its actions.
pub struct StageState {
    pub name: String,
    pub actions: Vec<ActionState>,
}

/// One action of a stage.
pub struct ActionState {
    pub status: BuildStatus,
    /// When the action last changed status, in milliseconds since the epoch.
    pub last_status_change: Option<i64>,
}

/// A pipeline's source configuration (GetPipeline).
#[derive(Clone)]
pub struct PipelineDefinition {
    pub name: String,
    pub source_s3: Option<S3Source>,
}

/// An S3 source of a pipeline.
#[derive(Clone)]
pub struct S3Source {
    pub bucket: String,
    pub object_key: String,
}

/// One job of a workflow run.
pub struct JobInfo {
    pub name: String,
    pub status: BuildStatus,
    /// When the job completed, in milliseconds since the epoch.
    pub completed_at: Option<i64>,
}

/// A workflow file with its S3 upload targets.
#[derive(Clone)]
pub struct WorkflowFile {
    pub name: String,
    pub s3_uploads: Vec<S3Upload>,
    /// Per-job S3 information (empty when the jobs could not be read).
    pub jobs: Vec<JobS3Info>,
}

/// An S3 upload target.
#[derive(Clone, Debug)]
pub struct S3Upload {
    pub bucket: String,
    pub key: String,
}

/// The S3 uploads and dependencies of one workflow job.
#[derive(Clone, Debug)]
pub struct JobS3Info {
    /// The job's key in the workflow (e.g. `build-backend`).
    pub job_id: String,
    /// The job's display name (its `name:`, or its key).
    pub job_name: String,
    /// S3 uploads found in the job's `run:` steps.
    pub s3_uploads: Vec<S3Upload>,
    /// Job keys this job depends on (its `needs:`).
    pub needs: Vec<String>,
}

/// The latest run of one workflow (without jobs).
pub struct WorkflowRunSummary {
    pub workflow_name: String,
    pub run_id: u64,
    pub status: BuildStatus,
}

/// The result of listing the latest runs: the visible runs, and the PR
/// numbers harvested from pull-request runs before any filter.
pub struct RunsPage {
    pub summaries: Vec<WorkflowRunSummary>,
    pub pr_numbers: Vec<u64>,
}

impl Default for RunsPage {
    fn default() -> (p: Self)
        ensures
            p.summaries@.len() == 0,
            p.pr_numbers@.len() == 0,
    {
        RunsPage { summaries: Vec::new(), pr_numbers: Vec::new() }
    }
}

/// A workflow run with its jobs.
pub struct WorkflowRunInfo {
    pub workflow_name: String,
    pub run_id: u64,
    pub status: BuildStatus,
    pub jobs: Vec<JobInfo>,
}

/// The warning shown when the AWS SSO session expired.
pub open spec fn sso_expired_msg_spec(profile: Seq<char>) -> Seq<char> {
    "AWS: SSO session expired \u{2014} run `aws sso login --profile "@ + profile
        + "` then press b"@
}

/// The warning shown when the AWS SSO session of `profile` expired.
pub fn aws_sso_expired_msg(profile: &str) -> (r: String)
    ensures
        r@ == sso_expired_msg_spec(profile@),
{
    let a = concat2("AWS: SSO session expired \u{2014} run `aws sso login --profile ", profile);
    concat2(a.as_str(), "` then press b")
}

/// An AWS error message that reports expired or missing credentials.
pub open spec fn is_auth_error_spec(msg: Seq<char>) -> bool {
    contains_seq(msg, "ExpiredToken"@) || contains_seq(msg, "UnauthorizedException"@)
        || contains_seq(msg, "InvalidIdentityToken"@) || contains_seq(
        msg,
        "ExpiredTokenException"@,
    ) || (contains_seq(msg, "AccessDenied"@) && (contains_seq(msg, "SSO"@) || contains_seq(
        msg,
        "STS"@,
    ))) || contains_seq(msg, "error occurred while loading credentials"@)
}

/// Detects AWS authentication and credential errors by their message.
pub fn is_auth_error(msg: &str) -> (r: bool)
    ensures
        r == is_auth_error_spec(msg@),
{
    str_contains(msg, "ExpiredToken") || str_contains(msg, "UnauthorizedException")
        || str_contains(msg, "InvalidIdentityToken") || str_contains(msg, "ExpiredTokenException")
        || (str_contains(msg, "AccessDenied") && (str_contains(msg, "SSO") || str_contains(
        msg,
        "STS",
    ))) || str_contains(msg, "error occurred while loading credentials")
}

/// A bar update: name, status and finish time.
pub type BarUpdate = (String, BuildStatus, Option<i64>);

/// A fresh idle bar named `name`.
pub open spec fn fresh_bar(name: String) -> Bar {
    Bar { name, status: BuildStatus::Idle, fill: 0, write_pos: 0, gone: false, last_finished: None }
}

/// The first bar at or after `start` named `name`.
pub open spec fn find_bar_from(bars: Seq<Bar>, name: Seq<char>, start: int) -> Option<int>
    decreases bars.len() - start,
{
    if start < 0 || start >= bars.len() {
        None
    } else if bars[start].name@ == name {
        Some(start)
    } else {
        find_bar_from(bars, name, start + 1)
    }
}

/// A found bar lies inside the sequence and has the name.
pub proof fn lemma_find_bar_from(bars: Seq<Bar>, name: Seq<char>, start: int)
    ensures
        match find_bar_from(bars, name, start) {
            Some(i) => start <= i < bars.len() && bars[i].name@ == name,
            None => true,
        },
    decreases bars.len() - start,
{
    if start < 0 || start >= bars.len() {
    } else if bars[start].name@ == name {
    } else {
        lemma_find_bar_from(bars, name, start + 1);
    }
}

/// The bar appended for an update whose name no bar has: a fresh bar that
/// takes the status and the finish time, and that shows one filled cell
/// when it is first seen already finished (succeeded or failed).
pub open spec fn first_seen_bar(u: BarUpdate) -> Bar {
    let b = set_status_spec(fresh_bar(u.0), u.1);
    Bar {
        last_finished: u.2,
        fill: if u.1 == BuildStatus::Succeeded || u.1 == BuildStatus::Failed {
            1
        } else {
            b.fill
        },
        ..b
    }
}

/// One update applied: the first bar of that name is revived, takes the
/// status and the finish time; without such a bar a new one is appended
/// (see [`first_seen_bar`]).
pub open spec fn apply_bar_update(bars: Seq<Bar>, u: BarUpdate) -> Seq<Bar> {
    match find_bar_from(bars, u.0@, 0) {
        Some(i) => bars.update(
            i,
            Bar { last_finished: u.2, ..set_status_spec(Bar { gone: false, ..bars[i] }, u.1) },
        ),
        None => bars.push(first_seen_bar(u)),
    }
}

/// All updates applied in order.
pub open spec fn apply_bar_updates(bars: Seq<Bar>, us: Seq<BarUpdate>) -> Seq<Bar>
    decreases us.len(),
{
    if us.len() == 0 {
        bars
    } else {
        apply_bar_update(apply_bar_updates(bars, us.drop_last()), us.last())
    }
}

/// The names of the updates.
pub open spec fn update_names(us: Seq<BarUpdate>) -> Seq<Seq<char>> {
    us.map_values(|u: BarUpdate| u.0@)
}

/// Bars whose name no update mentions are marked gone.
pub open spec fn mark_gone(bars: Seq<Bar>, names: Seq<Seq<char>>) -> Seq<Bar> {
    bars.map_values(
        |b: Bar|
            Bar {
                gone: if names.contains(b.name@) {
                    b.gone
                } else {
                    true
                },
                ..b
            },
    )
}

/// The last update among the first `n` that names `name`.
pub open spec fn last_key(us: Seq<BarUpdate>, name: Seq<char>, n: int) -> Option<int>
    decreases n,
{
    if n <= 0 || n > us.len() {
        None
    } else if us[n - 1].0@ == name {
        Some(n - 1)
    } else {
        last_key(us, name, n - 1)
    }
}

/// The position of a bar in the API's order: the last update naming it.
pub open spec fn order_key(us: Seq<BarUpdate>, name: Seq<char>) -> Option<int> {
    last_key(us, name, us.len() as int)
}

/// The bars whose position is `k`, in their order.
pub open spec fn bars_with_key(bars: Seq<Bar>, us: Seq<BarUpdate>, k: Option<int>) -> Seq<Bar> {
    bars.filter(|b: Bar| order_key(us, b.name@) == k)
}

/// The bars of positions 0 to k - 1, by position.
pub open spec fn keyed_prefix(bars: Seq<Bar>, us: Seq<BarUpdate>, k: int) -> Seq<Bar>
    decreases k,
{
    if k <= 0 {
        Seq::empty()
    } else {
        keyed_prefix(bars, us, k - 1) + bars_with_key(bars, us, Some(k - 1))
    }
}

/// The bars in the API's order (a stable sort by position); bars that no
/// update names go last, in their former order.
pub open spec fn reorder_spec(bars: Seq<Bar>, us: Seq<BarUpdate>) -> Seq<Bar> {
    keyed_prefix(bars, us, us.len() as int) + bars_with_key(bars, us, None)
}

/// The bars after reconciling them with the updates of a poll.
pub open spec fn reconcile_spec(bars: Seq<Bar>, us: Seq<BarUpdate>) -> Seq<Bar> {
    reorder_spec(apply_bar_updates(mark_gone(bars, update_names(us)), us), us)
}

/// Update `k` is the last of the updates that names `name`.
pub open spec fn names_last(us: Seq<BarUpdate>, k: int, name: Seq<char>) -> bool {
    0 <= k < us.len() && us[k].0@ == name && forall|l: int| k < l < us.len() ==> us[l].0@ != name
}

/// No update names `name`.
pub open spec fn unnamed(us: Seq<BarUpdate>, name: Seq<char>) -> bool {
    forall|k: int| 0 <= k < us.len() ==> us[k].0@ != name
}

proof fn lemma_last_key(us: Seq<BarUpdate>, name: Seq<char>, n: int)
    requires
        0 <= n <= us.len(),
    ensures
        match last_key(us, name, n) {
            Some(m) => 0 <= m < n && us[m].0@ == name && forall|l: int| m < l < n ==> us[l].0@ != name,
            None => forall|l: int| 0 <= l < n ==> us[l].0@ != name,
        },
    decreases n,
{
    if n > 0 && us[n - 1].0@ != name {
        lemma_last_key(us, name, n - 1);
    }
}

/// The position of a bar in the order of the updates (after all of them
/// when no update names it).
spec fn rank(us: Seq<BarUpdate>, b: Bar) -> int {
    match order_key(us, b.name@) {
        Some(m) => m,
        None => us.len() as int,
    }
}

proof fn lemma_keyed_prefix_ranks(bars: Seq<Bar>, us: Seq<BarUpdate>, k: int)
    requires
        0 <= k <= us.len(),
    ensures
        forall|i: int| 0 <= i < keyed_prefix(bars, us, k).len() ==> rank(us, #[trigger] keyed_prefix(bars, us, k)[i]) < k
            && order_key(us, keyed_prefix(bars, us, k)[i].name@) is Some,
        forall|i: int, j: int|
            0 <= i < j < keyed_prefix(bars, us, k).len() ==> rank(us, #[trigger] keyed_prefix(bars, us, k)[i])
                <= rank(us, #[trigger] keyed_prefix(bars, us, k)[j]),
    decreases k,
{
    broadcast use vstd::seq_lib::group_filter_ensures;

    if k > 0 {
        lemma_keyed_prefix_ranks(bars, us, k - 1);
        let a = keyed_prefix(bars, us, k - 1);
        let f = bars_with_key(bars, us, Some(k - 1));
        let c = keyed_prefix(bars, us, k);
        assert(c == a + f);
        assert forall|i: int| 0 <= i < f.len() implies order_key(us, #[trigger] f[i].name@) == Some(k - 1) by {
            let p = |b: Bar| order_key(us, b.name@) == Some(k - 1);
            assert(p(bars.filter(p)[i]));
        }
        assert forall|i: int| 0 <= i < c.len() implies rank(us, #[trigger] c[i]) < k && order_key(us, c[i].name@) is Some by {
            if i < a.len() {
                assert(c[i] == a[i]);
            } else {
                assert(c[i] == f[i - a.len()]);
            }
        }
        assert forall|i: int, j: int| 0 <= i < j < c.len() implies rank(us, #[trigger] c[i]) <= rank(us, #[trigger] c[j]) by {
            if j < a.len() {
                assert(c[i] == a[i] && c[j] == a[j]);
            } else if i < a.len() {
                assert(c[i] == a[i] && c[j] == f[j - a.len()]);
            } else {
                assert(c[i] == f[i - a.len()] && c[j] == f[j - a.len()]);
            }
        }
    }
}

proof fn lemma_reorder_ranks(bars: Seq<Bar>, us: Seq<BarUpdate>)
    ensures
        forall|i: int, j: int|
            0 <= i < j < reorder_spec(bars, us).len() ==> rank(us, #[trigger] reorder_spec(bars, us)[i]) <= rank(
                us,
                #[trigger] reorder_spec(bars, us)[j],
            ),
{
    broadcast use vstd::seq_lib::group_filter_ensures;

    let n = us.len() as int;
    lemma_keyed_prefix_ranks(bars, us, n);
    let a = keyed_prefix(bars, us, n);
    let f = bars_with_key(bars, us, None);
    let c = reorder_spec(bars, us);
    assert forall|i: int| 0 <= i < f.len() implies order_key(us, #[trigger] f[i].name@) is None by {
        let p = |b: Bar| order_key(us, b.name@) == None::<int>;
        assert(p(bars.filter(p)[i]));
    }
    assert forall|i: int, j: int| 0 <= i < j < c.len() implies rank(us, #[trigger] c[i]) <= rank(us, #[trigger] c[j]) by {
        if j < a.len() {
            assert(c[i] == a[i] && c[j] == a[j]);
        } else if i < a.len() {
            assert(c[i] == a[i] && c[j] == f[j - a.len()]);
        } else {
            assert(c[i] == f[i - a.len()] && c[j] == f[j - a.len()]);
        }
    }
}

/// Reconciling puts the bars in the order of the updates: a bar comes
/// before another whenever the last update naming it comes before the last
/// update naming the other, and the bars that no update names (those left
/// gone) come after all the others.
pub proof fn lemma_reconcile_follows_update_order(bars: Seq<Bar>, us: Seq<BarUpdate>)
    ensures
        forall|i: int, j: int, ki: int, kj: int|
            0 <= i < j < reconcile_spec(bars, us).len() && #[trigger] names_last(
                us,
                ki,
                reconcile_spec(bars, us)[i].name@,
            ) && #[trigger] names_last(us, kj, reconcile_spec(bars, us)[j].name@) ==> ki <= kj,
        forall|i: int, j: int|
            0 <= i < j < reconcile_spec(bars, us).len() && #[trigger] unnamed(us, reconcile_spec(bars, us)[i].name@)
                ==> #[trigger] unnamed(us, reconcile_spec(bars, us)[j].name@),
{
    let applied = apply_bar_updates(mark_gone(bars, update_names(us)), us);
    let r = reconcile_spec(bars, us);
    assert(r == reorder_spec(applied, us));
    lemma_reorder_ranks(applied, us);
    let n = us.len() as int;
    assert forall|b: Bar| #![trigger rank(us, b)]
        (forall|k: int| names_last(us, k, b.name@) ==> rank(us, b) == k)
            && (unnamed(us, b.name@) <==> rank(us, b) == n) by {
        lemma_last_key(us, b.name@, n);
        assert forall|k: int| names_last(us, k, b.name@) implies rank(us, b) == k by {
            match order_key(us, b.name@) {
                Some(m) => {
                    if m < k {
                        assert(us[k].0@ == b.name@);
                    }
                    if k < m {
                        assert(us[m].0@ == b.name@);
                    }
                },
                None => {
                    assert(us[k].0@ != b.name@);
                },
            }
        }
        if unnamed(us, b.name@) {
            match order_key(us, b.name@) {
                Some(m) => {
                    assert(us[m].0@ != b.name@);
                },
                None => {},
            }
        }
    }
    assert forall|i: int, j: int, ki: int, kj: int|
        0 <= i < j < r.len() && #[trigger] names_last(us, ki, r[i].name@) && #[trigger] names_last(us, kj, r[j].name@)
        implies ki <= kj by {
        assert(rank(us, r[i]) <= rank(us, r[j]));
        assert(rank(us, r[i]) == ki);
        assert(rank(us, r[j]) == kj);
    }
    assert forall|i: int, j: int|
        0 <= i < j < r.len() && #[trigger] unnamed(us, r[i].name@) implies #[trigger] unnamed(us, r[j].name@) by {
        assert(rank(us, r[i]) <= rank(us, r[j]));
        assert(rank(us, r[i]) == n);
        lemma_last_key(us, r[j].name@, n);
        match order_key(us, r[j].name@) {
            Some(m) => {
                assert(rank(us, r[j]) == m);
            },
            None => {},
        }
    }
}

proof fn lemma_keyed_prefix_members(bars: Seq<Bar>, us: Seq<BarUpdate>, k: int)
    requires
        0 <= k <= us.len(),
    ensures
        forall|b: Bar| #[trigger] keyed_prefix(bars, us, k).contains(b) ==> bars.contains(b),
        forall|b: Bar|
            bars.contains(b) && (order_key(us, b.name@) matches Some(m) && m < k) ==> #[trigger] keyed_prefix(
                bars,
                us,
                k,
            ).contains(b),
    decreases k,
{
    broadcast use vstd::seq_lib::group_filter_ensures;

    if k == 0 {
        assert forall|b: Bar| bars.contains(b) && (order_key(us, b.name@) matches Some(m) && m < k) implies #[trigger] keyed_prefix(
            bars,
            us,
            k,
        ).contains(b) by {
            lemma_last_key(us, b.name@, us.len() as int);
        }
    }
    if k > 0 {
        lemma_keyed_prefix_members(bars, us, k - 1);
        let a = keyed_prefix(bars, us, k - 1);
        let p = |b: Bar| order_key(us, b.name@) == Some(k - 1);
        let f = bars.filter(p);
        let c = keyed_prefix(bars, us, k);
        assert(c == a + f);
        assert forall|b: Bar| #[trigger] c.contains(b) implies bars.contains(b) by {
            let i = choose|i: int| 0 <= i < c.len() && c[i] == b;
            if i < a.len() {
                assert(a[i] == b);
                assert(a.contains(b));
            } else {
                assert(f[i - a.len()] == b);
                assert(f.contains(b));
                bars.lemma_filter_contains_rev(p, b);
            }
        }
        assert forall|b: Bar|
            bars.contains(b) && (order_key(us, b.name@) matches Some(m) && m < k) implies #[trigger] c.contains(b) by {
            let m = order_key(us, b.name@)->0;
            if m < k - 1 {
                assert(a.contains(b));
                let i = choose|i: int| 0 <= i < a.len() && a[i] == b;
                assert(c[i] == b);
            } else {
                let j = choose|j: int| 0 <= j < bars.len() && bars[j] == b;
                assert(p(bars[j]));
                assert(f.contains(b));
                let i = choose|i: int| 0 <= i < f.len() && f[i] == b;
                assert(c[a.len() + i] == b);
            }
        }
    }
}

/// Reordering keeps exactly the bars it is given.
proof fn lemma_reorder_members(bars: Seq<Bar>, us: Seq<BarUpdate>)
    ensures
        forall|b: Bar| #[trigger] reorder_spec(bars, us).contains(b) <==> bars.contains(b),
{
    broadcast use vstd::seq_lib::group_filter_ensures;

    let n = us.len() as int;
    lemma_keyed_prefix_members(bars, us, n);
    let a = keyed_prefix(bars, us, n);
    let p = |b: Bar| order_key(us, b.name@) == None::<int>;
    let f = bars.filter(p);
    let c = reorder_spec(bars, us);
    assert(c == a + f);
    assert forall|b: Bar| #[trigger] c.contains(b) <==> bars.contains(b) by {
        if c.contains(b) {
            let i = choose|i: int| 0 <= i < c.len() && c[i] == b;
            if i < a.len() {
                assert(a[i] == b);
                assert(a.contains(b));
            } else {
                assert(f[i - a.len()] == b);
                assert(f.contains(b));
                bars.lemma_filter_contains_rev(p, b);
            }
        }
        if bars.contains(b) {
            lemma_last_key(us, b.name@, n);
            match order_key(us, b.name@) {
                Some(m) => {
                    assert(a.contains(b));
                    let i = choose|i: int| 0 <= i < a.len() && a[i] == b;
                    assert(c[i] == b);
                },
                None => {
                    let j = choose|j: int| 0 <= j < bars.len() && bars[j] == b;
                    assert(p(bars[j]));
                    assert(f.contains(b));
                    let i = choose|i: int| 0 <= i < f.len() && f[i] == b;
                    assert(c[a.len() + i] == b);
                },
            }
        }
    }
}

/// What applying updates keeps: the bars it started with keep their
/// names, and those that no update names are left as they were; the bars
/// it adds are named by updates; every update names a bar that is not
/// gone.
proof fn lemma_apply_updates_members(x: Seq<Bar>, us: Seq<BarUpdate>)
    ensures
        ({
            let a = apply_bar_updates(x, us);
            &&& a.len() >= x.len()
            &&& forall|i: int| 0 <= i < x.len() ==> #[trigger] a[i].name == x[i].name
            &&& forall|i: int| 0 <= i < x.len() && unnamed(us, x[i].name@) ==> #[trigger] a[i] == x[i]
            &&& forall|i: int| x.len() <= i < a.len() ==> !unnamed(us, #[trigger] a[i].name@)
            &&& forall|k: int|
                0 <= k < us.len() ==> exists|i: int| 0 <= i < a.len() && #[trigger] a[i].name@ == #[trigger] us[k].0@ && !a[i].gone
        }),
    decreases us.len(),
{
    if us.len() > 0 {
        let d = us.drop_last();
        lemma_apply_updates_members(x, d);
        let prev = apply_bar_updates(x, d);
        let u = us.last();
        let a = apply_bar_updates(x, us);
        assert(a == apply_bar_update(prev, u));
        lemma_find_bar_from(prev, u.0@, 0);
        assert forall|i: int| 0 <= i < x.len() && unnamed(us, x[i].name@) implies #[trigger] a[i] == x[i] by {
            assert(unnamed(d, x[i].name@)) by {
                assert forall|k: int| 0 <= k < d.len() implies d[k].0@ != x[i].name@ by {
                    assert(d[k] == us[k]);
                }
            }
            assert(us[us.len() - 1] == u);
            match find_bar_from(prev, u.0@, 0) {
                Some(j) => {
                    if j == i {
                        assert(prev[i].name@ == u.0@);
                    }
                },
                None => {},
            }
        }
        assert forall|i: int| x.len() <= i < a.len() implies !unnamed(us, #[trigger] a[i].name@) by {
            if i < prev.len() {
                assert(!unnamed(d, prev[i].name@));
                let k = choose|k: int| 0 <= k < d.len() && d[k].0@ == prev[i].name@;
                assert(us[k] == d[k]);
                assert(a[i].name == prev[i].name);
            } else {
                assert(us[us.len() - 1] == u);
                assert(a[i].name@ == u.0@);
            }
        }
        assert forall|k: int| 0 <= k < us.len() implies exists|i: int|
            0 <= i < a.len() && #[trigger] a[i].name@ == #[trigger] us[k].0@ && !a[i].gone by {
            if k == us.len() - 1 {
                assert(us[k] == u);
                match find_bar_from(prev, u.0@, 0) {
                    Some(j) => {
                        assert(a[j].name@ == us[k].0@ && !a[j].gone);
                    },
                    None => {
                        assert(a[prev.len() as int].name@ == us[k].0@ && !a[prev.len() as int].gone);
                    },
                }
            } else {
                assert(d[k] == us[k]);
                let i = choose|i: int| 0 <= i < prev.len() && #[trigger] prev[i].name@ == #[trigger] d[k].0@ && !prev[i].gone;
                assert(a[i].name@ == us[k].0@ && !a[i].gone);
            }
        }
    }
}

/// Reconciling keeps and marks the right bars: every update names a bar
/// that is not gone; a bar that no update names is one of the former bars,
/// unchanged but marked gone; every other bar is named by an update.
pub proof fn lemma_reconcile_members(bars: Seq<Bar>, us: Seq<BarUpdate>)
    ensures
        forall|k: int|
            0 <= k < us.len() ==> exists|i: int|
                0 <= i < reconcile_spec(bars, us).len() && #[trigger] reconcile_spec(bars, us)[i].name@
                    == #[trigger] us[k].0@ && !reconcile_spec(bars, us)[i].gone,
        forall|i: int|
            0 <= i < reconcile_spec(bars, us).len() && unnamed(us, #[trigger] reconcile_spec(bars, us)[i].name@)
                ==> exists|j: int| 0 <= j < bars.len() && reconcile_spec(bars, us)[i] == (Bar { gone: true, ..#[trigger] bars[j] }),
{
    let names = update_names(us);
    let x = mark_gone(bars, names);
    let a = apply_bar_updates(x, us);
    let r = reconcile_spec(bars, us);
    assert(r == reorder_spec(a, us));
    lemma_reorder_members(a, us);
    lemma_apply_updates_members(x, us);
    assert forall|k: int| 0 <= k < us.len() implies exists|i: int|
        0 <= i < r.len() && #[trigger] r[i].name@ == #[trigger] us[k].0@ && !r[i].gone by {
        let i = choose|i: int| 0 <= i < a.len() && #[trigger] a[i].name@ == #[trigger] us[k].0@ && !a[i].gone;
        assert(a.contains(a[i]));
        assert(r.contains(a[i]));
        let m = choose|m: int| 0 <= m < r.len() && r[m] == a[i];
        assert(r[m].name@ == us[k].0@ && !r[m].gone);
    }
    assert forall|i: int| 0 <= i < r.len() && unnamed(us, #[trigger] r[i].name@) implies exists|j: int|
        0 <= j < bars.len() && r[i] == (Bar { gone: true, ..#[trigger] bars[j] }) by {
        assert(r.contains(r[i]));
        assert(a.contains(r[i]));
        let m = choose|m: int| 0 <= m < a.len() && a[m] == r[i];
        if m >= x.len() {
            assert(!unnamed(us, a[m].name@));
        }
        assert(a[m] == x[m]);
        assert(x[m].name == bars[m].name);
        assert(!names.contains(bars[m].name@)) by {
            if names.contains(bars[m].name@) {
                let k = choose|k: int| 0 <= k < names.len() && names[k] == bars[m].name@;
                assert(us[k].0@ == names[k]);
            }
        }
        assert(r[i] == Bar { gone: true, ..bars[m] });
    }
}

/// A copy of a bar.
pub fn clone_bar(b: &Bar) -> (r: Bar)
    ensures
        r == *b,
{
    Bar {
        name: b.name.clone(),
        status: b.status,
        fill: b.fill,
        write_pos: b.write_pos,
        gone: b.gone,
        last_finished: b.last_finished,
    }
}

fn names_contain(names: &Vec<Vec<char>>, name: &Vec<char>) -> (r: bool)
    ensures
        r == names@.map_values(|v: Vec<char>| v@).contains(name@),
{
    let ghost nv = names@.map_values(|v: Vec<char>| v@);
    let mut i: usize = 0;
    while i < names.len()
        invariant
            nv == names@.map_values(|v: Vec<char>| v@),
            i <= names.len(),
            forall|k: int| 0 <= k < i ==> nv[k] != name@,
        decreases names.len() - i,
    {
        assert(nv[i as int] == names@[i as int]@);
        if chars_eq(&names[i], name) {
            assert(nv[i as int] == name@);
            return true;
        }
        i = i + 1;
    }
    false
}

fn find_bar(bars: &Vec<Bar>, name: &Vec<char>) -> (r: Option<usize>)
    ensures
        match r {
            Some(i) => find_bar_from(bars@, name@, 0) == Some(i as int) && i < bars.len(),
            None => find_bar_from(bars@, name@, 0) is None,
        },
{
    let mut i: usize = 0;
    while i < bars.len()
        invariant
            i <= bars.len(),
            find_bar_from(bars@, name@, 0) == find_bar_from(bars@, name@, i as int),
        decreases bars.len() - i,
    {
        let n = chars_of(bars[i].name.as_str());
        if chars_eq(&n, name) {
            return Some(i);
        }
        i = i + 1;
    }
    None
}

fn order_key_of(us: &Vec<BarUpdate>, name: &Vec<char>) -> (r: Option<usize>)
    ensures
        match r {
            Some(k) => order_key(us@, name@) == Some(k as int),
            None => order_key(us@, name@) is None,
        },
{
    let mut n: usize = us.len();
    while n > 0
        invariant
            n <= us.len(),
            order_key(us@, name@) == last_key(us@, name@, n as int),
        decreases n,
    {
        let v = chars_of(us[n - 1].0.as_str());
        if chars_eq(&v, name) {
            return Some(n - 1);
        }
        n = n - 1;
    }
    None
}

fn push_bars_with_key(out: &mut Vec<Bar>, bars: &Vec<Bar>, us: &Vec<BarUpdate>, k: Option<usize>)
    ensures
        final(out)@ == old(out)@ + bars_with_key(
            bars@,
            us@,
            match k {
                Some(x) => Some(x as int),
                None => None,
            },
        ),
{
    let ghost key = match k {
        Some(x) => Some(x as int),
        None => None::<int>,
    };
    let ghost start = out@;
    let ghost pred = |b: Bar| order_key(us@, b.name@) == key;
    let mut j: usize = 0;
    while j < bars.len()
        invariant
            j <= bars.len(),
            pred == (|b: Bar| order_key(us@, b.name@) == key),
            key == match k {
                Some(x) => Some(x as int),
                None => None::<int>,
            },
            out@ == start + bars@.take(j as int).filter(pred),
        decreases bars.len() - j,
    {
        proof {
            assert(bars@.take(j + 1) =~= bars@.take(j as int).push(bars@[j as int]));
            bars@.take(j as int).lemma_filter_push(bars@[j as int], pred);
        }
        let name = chars_of(bars[j].name.as_str());
        let bk = order_key_of(us, &name);
        let matches = match (bk, k) {
            (Some(a), Some(b)) => a == b,
            (None, None) => true,
            _ => false,
        };
        if matches {
            let ghost before = out@;
            out.push(clone_bar(&bars[j]));
            assert(out@ =~= before.push(bars@[j as int]));
        }
        assert(out@ =~= start + bars@.take(j + 1).filter(pred));
        j = j + 1;
    }
    assert(bars@.take(j as int) =~= bars@);
}

/// Reconciles bars with the updates of a poll: bars no update names are
/// marked gone; each update revives and updates the first bar of its name
/// or appends a new one; the bars are then ordered as the updates are, the
/// gone ones last.
pub fn reconcile_bars(bars: &mut Vec<Bar>, updates: Vec<BarUpdate>)
    ensures
        final(bars)@ == reconcile_spec(old(bars)@, updates@),
{
    let ghost us = updates@;
    let ghost names_v = update_names(us);
    let mut names: Vec<Vec<char>> = Vec::new();
    let mut i: usize = 0;
    while i < updates.len()
        invariant
            us == updates@,
            names_v == update_names(us),
            i <= updates.len(),
            names@.map_values(|v: Vec<char>| v@) == names_v.take(i as int),
        decreases updates.len() - i,
    {
        let ghost before = names@;
        let nv = chars_of(updates[i].0.as_str());
        assert(names_v[i as int] == us[i as int].0@);
        names.push(nv);
        assert(names@.map_values(|v: Vec<char>| v@) =~= before.map_values(|v: Vec<char>| v@).push(
            nv@,
        ));
        assert(names_v.take(i + 1) =~= names_v.take(i as int).push(names_v[i as int]));
        i = i + 1;
    }
    assert(names_v.take(i as int) =~= names_v);
    let ghost old_bars = bars@;
    let mut marked: Vec<Bar> = Vec::new();
    let mut j: usize = 0;
    while j < bars.len()
        invariant
            old_bars == bars@,
            names@.map_values(|v: Vec<char>| v@) == names_v,
            j <= bars.len(),
            marked@ == mark_gone(old_bars.take(j as int), names_v),
        decreases bars.len() - j,
    {
        let mut b = clone_bar(&bars[j]);
        let n = chars_of(b.name.as_str());
        if !names_contain(&names, &n) {
            b.gone = true;
        }
        marked.push(b);
        assert(marked@ =~= mark_gone(old_bars.take(j + 1), names_v));
        j = j + 1;
    }
    assert(old_bars.take(j as int) =~= old_bars);
    let ghost base = marked@;
    let mut i: usize = 0;
    while i < updates.len()
        invariant
            us == updates@,
            base == mark_gone(old_bars, names_v),
            i <= updates.len(),
            marked@ == apply_bar_updates(base, us.take(i as int)),
        decreases updates.len() - i,
    {
        assert(us.take(i + 1).drop_last() =~= us.take(i as int));
        assert(us.take(i + 1).last() == us[i as int]);
        let u = &updates[i];
        let n = chars_of(u.0.as_str());
        match find_bar(&marked, &n) {
            Some(idx) => {
                let mut b = clone_bar(&marked[idx]);
                b.gone = false;
                b.set_status(u.1);
                b.last_finished = u.2;
                marked.set(idx, b);
            },
            None => {
                let mut b = Bar::new(u.0.clone());
                b.set_status(u.1);
                b.last_finished = u.2;
                match u.1 {
                    BuildStatus::Succeeded | BuildStatus::Failed => {
                        b.fill = 1;
                    },
                    _ => {},
                }
                marked.push(b);
            },
        }
        i = i + 1;
    }
    assert(us.take(i as int) =~= us);
    let mut out: Vec<Bar> = Vec::new();
    let mut k: usize = 0;
    while k < updates.len()
        invariant
            us == updates@,
            k <= updates.len(),
            out@ == keyed_prefix(marked@, us, k as int),
        decreases updates.len() - k,
    {
        push_bars_with_key(&mut out, &marked, &updates, Some(k));
        k = k + 1;
    }
    push_bars_with_key(&mut out, &marked, &updates, None);
    *bars = out;
}

/// The status of a stage (that of its last action, Idle without actions)
/// and, when finished, when its last action changed.
pub open spec fn stage_status_spec(actions: Seq<ActionState>) -> (BuildStatus, Option<i64>) {
    if actions.len() == 0 {
        (BuildStatus::Idle, None)
    } else {
        let last = actions.last();
        (
            last.status,
            if last.status == BuildStatus::Succeeded || last.status == BuildStatus::Failed {
                last.last_status_change
            } else {
                None
            },
        )
    }
}

/// Computes a stage's status and finish time from its actions.
pub fn stage_status_and_timestamp(actions: &[ActionState]) -> (r: (BuildStatus, Option<i64>))
    ensures
        r == stage_status_spec(actions@),
{
    if actions.len() == 0 {
        return (BuildStatus::Idle, None);
    }
    let last = &actions[actions.len() - 1];
    let timestamp = match last.status {
        BuildStatus::Succeeded | BuildStatus::Failed => last.last_status_change,
        _ => None,
    };
    (last.status, timestamp)
}

/// A pipeline group, as plain values.
pub struct PipelineGroupView {
    pub name: Seq<char>,
    pub stages: Seq<Bar>,
    pub gone: bool,
    pub summary_status: BuildStatus,
    pub pending_link: bool,
}

/// The view of a pipeline group.
pub open spec fn pgroup_view(g: PipelineGroup) -> PipelineGroupView {
    PipelineGroupView {
        name: g.name@,
        stages: g.stages@,
        gone: g.gone,
        summary_status: g.summary_status,
        pending_link: g.pending_link,
    }
}

/// The views of pipeline groups.
pub open spec fn pgroups_view(v: Seq<PipelineGroup>) -> Seq<PipelineGroupView> {
    v.map_values(|g: PipelineGroup| pgroup_view(g))
}

/// The bar updates of a pipeline's stages.
pub open spec fn stage_updates_spec(stages: Seq<StageState>) -> Seq<BarUpdate> {
    stages.map_values(
        |st: StageState|
            (st.name, stage_status_spec(st.actions@).0, stage_status_spec(st.actions@).1),
    )
}

/// The first group at or after `start` named `name`.
pub open spec fn find_pgroup_from(gs: Seq<PipelineGroupView>, name: Seq<char>, start: int) -> Option<int>
    decreases gs.len() - start,
{
    if start < 0 || start >= gs.len() {
        None
    } else if gs[start].name == name {
        Some(start)
    } else {
        find_pgroup_from(gs, name, start + 1)
    }
}

/// One pipeline state applied to the groups.
pub open spec fn apply_pipeline_state(gs: Seq<PipelineGroupView>, st: PipelineState) -> Seq<PipelineGroupView> {
    let ups = stage_updates_spec(st.stages@);
    match find_pgroup_from(gs, st.name@, 0) {
        Some(i) => gs.update(
            i,
            PipelineGroupView {
                gone: false,
                summary_status: st.status,
                stages: reconcile_spec(gs[i].stages, ups),
                ..gs[i]
            },
        ),
        None => gs.push(
            PipelineGroupView {
                name: st.name@,
                stages: reconcile_spec(Seq::empty(), ups),
                gone: false,
                summary_status: st.status,
                pending_link: false,
            },
        ),
    }
}

/// All pipeline states applied in order.
pub open spec fn apply_pipeline_states(gs: Seq<PipelineGroupView>, sts: Seq<PipelineState>) -> Seq<PipelineGroupView>
    decreases sts.len(),
{
    if sts.len() == 0 {
        gs
    } else {
        apply_pipeline_state(apply_pipeline_states(gs, sts.drop_last()), sts.last())
    }
}

/// Groups that no state names are marked gone.
pub open spec fn mark_pgroups_gone(gs: Seq<PipelineGroupView>, names: Seq<Seq<char>>) -> Seq<PipelineGroupView> {
    gs.map_values(
        |g: PipelineGroupView|
            PipelineGroupView {
                gone: if names.contains(g.name) {
                    g.gone
                } else {
                    true
                },
                ..g
            },
    )
}

/// The names of the pipeline states.
pub open spec fn state_names(sts: Seq<PipelineState>) -> Seq<Seq<char>> {
    sts.map_values(|st: PipelineState| st.name@)
}

/// A placeholder pipeline group: no name, no stages, idle, present and
/// not waiting on a link.
pub(crate) fn empty_pgroup() -> (g: PipelineGroup)
    ensures
        g.name@ == Seq::<char>::empty(),
        g.stages@.len() == 0,
        !g.gone,
        g.summary_status == BuildStatus::Idle,
        !g.pending_link,
{
    PipelineGroup {
        name: String::new(),
        stages: Vec::new(),
        gone: false,
        summary_status: BuildStatus::Idle,
        pending_link: false,
    }
}

fn stage_updates(stages: &Vec<StageState>) -> (r: Vec<BarUpdate>)
    ensures
        r@ == stage_updates_spec(stages@),
{
    let mut r: Vec<BarUpdate> = Vec::new();
    let mut i: usize = 0;
    while i < stages.len()
        invariant
            i <= stages.len(),
            r@ == stage_updates_spec(stages@.take(i as int)),
        decreases stages.len() - i,
    {
        let (status, ts) = stage_status_and_timestamp(stages[i].actions.as_slice());
        r.push((stages[i].name.clone(), status, ts));
        assert(r@ =~= stage_updates_spec(stages@.take(i + 1)));
        i = i + 1;
    }
    assert(stages@.take(i as int) =~= stages@);
    r
}

fn find_pgroup(gs: &Vec<PipelineGroup>, name: &Vec<char>) -> (r: Option<usize>)
    ensures
        match r {
            Some(i) => find_pgroup_from(pgroups_view(gs@), name@, 0) == Some(i as int) && i
                < gs.len(),
            None => find_pgroup_from(pgroups_view(gs@), name@, 0) is None,
        },
{
    let ghost gv = pgroups_view(gs@);
    let mut i: usize = 0;
    while i < gs.len()
        invariant
            gv == pgroups_view(gs@),
            i <= gs.len(),
            find_pgroup_from(gv, name@, 0) == find_pgroup_from(gv, name@, i as int),
        decreases gs.len() - i,
    {
        let n = chars_of(gs[i].name.as_str());
        assert(gv[i as int].name == gs@[i as int].name@);
        if chars_eq(&n, name) {
            return Some(i);
        }
        i = i + 1;
    }
    None
}

/// Updates the pipeline groups from polled pipeline states: groups that
/// no state names are marked gone; each state revives and updates the
/// group of its name (reconciling its stages) or adds a new group.
pub fn update_pipeline_groups(app: &mut App, states: Vec<PipelineState>)
    ensures
        pgroups_view(final(app).pipeline_groups@) == apply_pipeline_states(
            mark_pgroups_gone(pgroups_view(old(app).pipeline_groups@), state_names(states@)),
            states@,
        ),
        *final(app) == (App { pipeline_groups: final(app).pipeline_groups, ..*old(app) }),
{
    let ghost sts = states@;
    let ghost names_v = state_names(sts);
    let mut names: Vec<Vec<char>> = Vec::new();
    let mut i: usize = 0;
    while i < states.len()
        invariant
            sts == states@,
            names_v == state_names(sts),
            i <= states.len(),
            names@.map_values(|v: Vec<char>| v@) == names_v.take(i as int),
        decreases states.len() - i,
    {
        let ghost before = names@;
        let nv = chars_of(states[i].name.as_str());
        assert(names_v[i as int] == sts[i as int].name@);
        names.push(nv);
        assert(names@.map_values(|v: Vec<char>| v@) =~= before.map_values(|v: Vec<char>| v@).push(
            nv@,
        ));
        assert(names_v.take(i + 1) =~= names_v.take(i as int).push(names_v[i as int]));
        i = i + 1;
    }
    assert(names_v.take(i as int) =~= names_v);
    let ghost old_gs = pgroups_view(app.pipeline_groups@);
    let mut j: usize = 0;
    while j < app.pipeline_groups.len()
        invariant
            names@.map_values(|v: Vec<char>| v@) == names_v,
            j <= app.pipeline_groups.len(),
            old_gs.len() == app.pipeline_groups@.len(),
            forall|k: int|
                0 <= k < j ==> #[trigger] pgroups_view(app.pipeline_groups@)[k] == mark_pgroups_gone(
                    old_gs,
                    names_v,
                )[k],
            forall|k: int|
                j <= k < old_gs.len() ==> #[trigger] pgroups_view(app.pipeline_groups@)[k]
                    == old_gs[k],
            *app == (App { pipeline_groups: app.pipeline_groups, ..*old(app) }),
        decreases app.pipeline_groups.len() - j,
    {
        let ghost prev = app.pipeline_groups@;
        let n = chars_of(app.pipeline_groups[j].name.as_str());
        assert(pgroups_view(prev)[j as int] == old_gs[j as int]);
        assert(old_gs[j as int] == pgroup_view(prev[j as int]));
        if !names_contain(&names, &n) {
            let mut g = empty_pgroup();
            app.pipeline_groups.set_and_swap(j, &mut g);
            g.gone = true;
            let ghost gm = g;
            app.pipeline_groups.set_and_swap(j, &mut g);
            assert(app.pipeline_groups@ == prev.update(j as int, gm));
        }
        assert(pgroups_view(app.pipeline_groups@)[j as int] == mark_pgroups_gone(old_gs, names_v)[j as int]);
        assert forall|k: int| 0 <= k < old_gs.len() && k != j implies #[trigger] pgroups_view(app.pipeline_groups@)[k]
            == pgroups_view(prev)[k] by {}
        j = j + 1;
    }
    assert(pgroups_view(app.pipeline_groups@) =~= mark_pgroups_gone(old_gs, names_v));
    let ghost base = pgroups_view(app.pipeline_groups@);
    let mut states = states;
    let mut i: usize = 0;
    while i < states.len()
        invariant
            sts == states@,
            i <= states.len(),
            base == mark_pgroups_gone(old_gs, names_v),
            pgroups_view(app.pipeline_groups@) == apply_pipeline_states(base, sts.take(i as int)),
            *app == (App { pipeline_groups: app.pipeline_groups, ..*old(app) }),
        decreases states.len() - i,
    {
        assert(sts.take(i + 1).drop_last() =~= sts.take(i as int));
        assert(sts.take(i + 1).last() == sts[i as int]);
        let ghost gs = pgroups_view(app.pipeline_groups@);
        let ups = stage_updates(&states[i].stages);
        let n = chars_of(states[i].name.as_str());
        match find_pgroup(&app.pipeline_groups, &n) {
            Some(idx) => {
                let mut g = empty_pgroup();
                app.pipeline_groups.set_and_swap(idx, &mut g);
                g.gone = false;
                g.summary_status = states[i].status;
                reconcile_bars(&mut g.stages, ups);
                app.pipeline_groups.set_and_swap(idx, &mut g);
                assert(pgroups_view(app.pipeline_groups@) =~= apply_pipeline_state(gs, sts[i as int]));
            },
            None => {
                let mut stages: Vec<Bar> = Vec::new();
                reconcile_bars(&mut stages, ups);
                let g = PipelineGroup {
                    name: states[i].name.clone(),
                    stages,
                    gone: false,
                    summary_status: states[i].status,
                    pending_link: false,
                };
                app.pipeline_groups.push(g);
                assert(pgroups_view(app.pipeline_groups@) =~= apply_pipeline_state(gs, sts[i as int]));
            },
        }
        i = i + 1;
    }
    assert(sts.take(i as int) =~= sts);
}

/// A workflow group, as plain values.
pub struct WorkflowGroupView {
    pub name: Seq<char>,
    pub jobs: Seq<Bar>,
    pub gone: bool,
    pub summary_status: BuildStatus,
    pub run_id: Option<u64>,
    pub category: WorkflowCategory,
    pub linked_pipeline: Option<Seq<char>>,
}

/// The view of a workflow group.
pub open spec fn wgroup_view(g: WorkflowGroup) -> WorkflowGroupView {
    WorkflowGroupView {
        name: g.name@,
        jobs: g.jobs@,
        gone: g.gone,
        summary_status: g.summary_status,
        run_id: g.run_id,
        category: g.category,
        linked_pipeline: match g.linked_pipeline {
            Some(p) => Some(p@),
            None => None,
        },
    }
}

/// The views of workflow groups.
pub open spec fn wgroups_view(v: Seq<WorkflowGroup>) -> Seq<WorkflowGroupView> {
    v.map_values(|g: WorkflowGroup| wgroup_view(g))
}

/// The first group at or after `start` named `name`.
pub open spec fn find_wgroup_from(gs: Seq<WorkflowGroupView>, name: Seq<char>, start: int) -> Option<int>
    decreases gs.len() - start,
{
    if start < 0 || start >= gs.len() {
        None
    } else if gs[start].name == name {
        Some(start)
    } else {
        find_wgroup_from(gs, name, start + 1)
    }
}

/// One run summary applied to the workflow groups.
pub open spec fn apply_summary(gs: Seq<WorkflowGroupView>, s: WorkflowRunSummary) -> Seq<WorkflowGroupView> {
    match find_wgroup_from(gs, s.workflow_name@, 0) {
        Some(i) => gs.update(
            i,
            WorkflowGroupView {
                gone: false,
                summary_status: s.status,
                run_id: Some(s.run_id),
                ..gs[i]
            },
        ),
        None => gs.push(
            WorkflowGroupView {
                name: s.workflow_name@,
                jobs: Seq::empty(),
                gone: false,
                summary_status: s.status,
                run_id: Some(s.run_id),
                category: WorkflowCategory::CI,
                linked_pipeline: None,
            },
        ),
    }
}

/// All run summaries applied in order.
pub open spec fn apply_summaries(gs: Seq<WorkflowGroupView>, ss: Seq<WorkflowRunSummary>) -> Seq<WorkflowGroupView>
    decreases ss.len(),
{
    if ss.len() == 0 {
        gs
    } else {
        apply_summary(apply_summaries(gs, ss.drop_last()), ss.last())
    }
}

/// Workflow groups that no summary names are marked gone.
pub open spec fn mark_wgroups_gone(gs: Seq<WorkflowGroupView>, names: Seq<Seq<char>>) -> Seq<WorkflowGroupView> {
    gs.map_values(
        |g: WorkflowGroupView|
            WorkflowGroupView {
                gone: if names.contains(g.name) {
                    g.gone
                } else {
                    true
                },
                ..g
            },
    )
}

/// The workflow names of the summaries.
pub open spec fn summary_names(ss: Seq<WorkflowRunSummary>) -> Seq<Seq<char>> {
    ss.map_values(|s: WorkflowRunSummary| s.workflow_name@)
}

/// A placeholder workflow group: no name, no jobs, idle, present, without
/// a run, a CI workflow, linked to no pipeline.
pub(crate) fn empty_wgroup() -> (g: WorkflowGroup)
    ensures
        g.name@ == Seq::<char>::empty(),
        g.jobs@.len() == 0,
        !g.gone,
        g.summary_status == BuildStatus::Idle,
        g.run_id is None,
        g.category == WorkflowCategory::CI,
        g.linked_pipeline is None,
{
    WorkflowGroup {
        name: String::new(),
        jobs: Vec::new(),
        gone: false,
        summary_status: BuildStatus::Idle,
        run_id: None,
        category: WorkflowCategory::CI,
        linked_pipeline: None,
    }
}

pub(crate) fn find_wgroup(gs: &Vec<WorkflowGroup>, name: &Vec<char>) -> (r: Option<usize>)
    ensures
        match r {
            Some(i) => find_wgroup_from(wgroups_view(gs@), name@, 0) == Some(i as int) && i
                < gs.len(),
            None => find_wgroup_from(wgroups_view(gs@), name@, 0) is None,
        },
{
    let ghost gv = wgroups_view(gs@);
    let mut i: usize = 0;
    while i < gs.len()
        invariant
            gv == wgroups_view(gs@),
            i <= gs.len(),
            find_wgroup_from(gv, name@, 0) == find_wgroup_from(gv, name@, i as int),
        decreases gs.len() - i,
    {
        let n = chars_of(gs[i].name.as_str());
        assert(gv[i as int].name == gs@[i as int].name@);
        if chars_eq(&n, name) {
            return Some(i);
        }
        i = i + 1;
    }
    None
}

/// Updates the workflow groups from run summaries (before the jobs are
/// fetched): groups that no summary names are marked gone; each summary
/// revives and updates the group of its workflow or adds a new CI group.
pub fn update_workflow_summaries(app: &mut App, summaries: &[WorkflowRunSummary])
    ensures
        wgroups_view(final(app).workflow_groups@) == apply_summaries(
            mark_wgroups_gone(wgroups_view(old(app).workflow_groups@), summary_names(summaries@)),
            summaries@,
        ),
        *final(app) == (App { workflow_groups: final(app).workflow_groups, ..*old(app) }),
{
    let ghost ss = summaries@;
    let ghost names_v = summary_names(ss);
    let mut names: Vec<Vec<char>> = Vec::new();
    let mut i: usize = 0;
    while i < summaries.len()
        invariant
            ss == summaries@,
            names_v == summary_names(ss),
            i <= summaries.len(),
            names@.map_values(|v: Vec<char>| v@) == names_v.take(i as int),
        decreases summaries.len() - i,
    {
        let ghost before = names@;
        let nv = chars_of(summaries[i].workflow_name.as_str());
        assert(names_v[i as int] == ss[i as int].workflow_name@);
        names.push(nv);
        assert(names@.map_values(|v: Vec<char>| v@) =~= before.map_values(|v: Vec<char>| v@).push(
            nv@,
        ));
        assert(names_v.take(i + 1) =~= names_v.take(i as int).push(names_v[i as int]));
        i = i + 1;
    }
    assert(names_v.take(i as int) =~= names_v);
    let ghost old_gs = wgroups_view(app.workflow_groups@);
    let mut j: usize = 0;
    while j < app.workflow_groups.len()
        invariant
            names@.map_values(|v: Vec<char>| v@) == names_v,
            j <= app.workflow_groups.len(),
            old_gs.len() == app.workflow_groups@.len(),
            forall|k: int|
                0 <= k < j ==> #[trigger] wgroups_view(app.workflow_groups@)[k] == mark_wgroups_gone(
                    old_gs,
                    names_v,
                )[k],
            forall|k: int|
                j <= k < old_gs.len() ==> #[trigger] wgroups_view(app.workflow_groups@)[k]
                    == old_gs[k],
            *app == (App { workflow_groups: app.workflow_groups, ..*old(app) }),
        decreases app.workflow_groups.len() - j,
    {
        let ghost prev = app.workflow_groups@;
        let n = chars_of(app.workflow_groups[j].name.as_str());
        assert(wgroups_view(prev)[j as int] == old_gs[j as int]);
        assert(old_gs[j as int] == wgroup_view(prev[j as int]));
        if !names_contain(&names, &n) {
            let mut g = empty_wgroup();
            app.workflow_groups.set_and_swap(j, &mut g);
            g.gone = true;
            let ghost gm = g;
            app.workflow_groups.set_and_swap(j, &mut g);
            assert(app.workflow_groups@ == prev.update(j as int, gm));
        }
        assert(wgroups_view(app.workflow_groups@)[j as int] == mark_wgroups_gone(old_gs, names_v)[j as int]);
        assert forall|k: int| 0 <= k < old_gs.len() && k != j implies #[trigger] wgroups_view(app.workflow_groups@)[k]
            == wgroups_view(prev)[k] by {}
        j = j + 1;
    }
    assert(wgroups_view(app.workflow_groups@) =~= mark_wgroups_gone(old_gs, names_v));
    let ghost base = wgroups_view(app.workflow_groups@);
    let mut i: usize = 0;
    while i < summaries.len()
        invariant
            ss == summaries@,
            i <= summaries.len(),
            base == mark_wgroups_gone(old_gs, names_v),
            wgroups_view(app.workflow_groups@) == apply_summaries(base, ss.take(i as int)),
            *app == (App { workflow_groups: app.workflow_groups, ..*old(app) }),
        decreases summaries.len() - i,
    {
        assert(ss.take(i + 1).drop_last() =~= ss.take(i as int));
        assert(ss.take(i + 1).last() == ss[i as int]);
        let ghost gs = wgroups_view(app.workflow_groups@);
        let s = &summaries[i];
        let n = chars_of(s.workflow_name.as_str());
        match find_wgroup(&app.workflow_groups, &n) {
            Some(idx) => {
                let mut g = empty_wgroup();
                app.workflow_groups.set_and_swap(idx, &mut g);
                g.gone = false;
                g.summary_status = s.status;
                g.run_id = Some(s.run_id);
                app.workflow_groups.set_and_swap(idx, &mut g);
                assert(wgroups_view(app.workflow_groups@) =~= apply_summary(gs, ss[i as int]));
            },
            None => {
                let g = WorkflowGroup {
                    name: s.workflow_name.clone(),
                    jobs: Vec::new(),
                    gone: false,
                    summary_status: s.status,
                    run_id: Some(s.run_id),
                    category: WorkflowCategory::CI,
                    linked_pipeline: None,
                };
                app.workflow_groups.push(g);
                assert(wgroups_view(app.workflow_groups@) =~= apply_summary(gs, ss[i as int]));
            },
        }
        i = i + 1;
    }
    assert(ss.take(i as int) =~= ss);
}

/// Classifies every workflow group by the configuration.
pub fn classify_workflows(app: &mut App, config: &Config)
    ensures
        final(app).workflow_groups@.len() == old(app).workflow_groups@.len(),
        forall|i: int|
            0 <= i < final(app).workflow_groups@.len() ==> #[trigger] wgroup_view(
                final(app).workflow_groups@[i],
            ) == (WorkflowGroupView {
                category: classify_spec(
                    config@.review_workflows,
                    old(app).workflow_groups@[i].name@,
                    spec_lowercase(old(app).workflow_groups@[i].name@),
                ),
                ..wgroup_view(old(app).workflow_groups@[i])
            }),
        *final(app) == (App { workflow_groups: final(app).workflow_groups, ..*old(app) }),
{
    let ghost old_gs = app.workflow_groups@;
    let mut j: usize = 0;
    while j < app.workflow_groups.len()
        invariant
            j <= app.workflow_groups.len(),
            old_gs.len() == app.workflow_groups@.len(),
            forall|k: int|
                0 <= k < j ==> #[trigger] wgroup_view(app.workflow_groups@[k]) == (WorkflowGroupView {
                    category: classify_spec(
                        config@.review_workflows,
                        old_gs[k].name@,
                        spec_lowercase(old_gs[k].name@),
                    ),
                    ..wgroup_view(old_gs[k])
                }),
            forall|k: int| j <= k < old_gs.len() ==> #[trigger] app.workflow_groups@[k] == old_gs[k],
            *app == (App { workflow_groups: app.workflow_groups, ..*old(app) }),
        decreases app.workflow_groups.len() - j,
    {
        let ghost prev = app.workflow_groups@;
        let c = config.classify_workflow(app.workflow_groups[j].name.as_str());
        let mut g = empty_wgroup();
        app.workflow_groups.set_and_swap(j, &mut g);
        g.category = c;
        let ghost gm = g;
        app.workflow_groups.set_and_swap(j, &mut g);
        assert(app.workflow_groups@ == prev.update(j as int, gm));
        j = j + 1;
    }
}

/// The bar updates of a run's jobs.
pub open spec fn job_updates_spec(jobs: Seq<JobInfo>) -> Seq<BarUpdate> {
    jobs.map_values(|j: JobInfo| (j.name, j.status, j.completed_at))
}

/// Fills in the jobs of workflow `workflow_name`, reconciling its bars;
/// without such a group nothing changes.
pub fn update_workflow_jobs(app: &mut App, workflow_name: &str, jobs: Vec<JobInfo>)
    ensures
        match find_wgroup_from(wgroups_view(old(app).workflow_groups@), workflow_name@, 0) {
            Some(i) => wgroups_view(final(app).workflow_groups@) == wgroups_view(
                old(app).workflow_groups@,
            ).update(
                i,
                (WorkflowGroupView {
                    jobs: reconcile_spec(old(app).workflow_groups@[i].jobs@, job_updates_spec(jobs@)),
                    ..wgroup_view(old(app).workflow_groups@[i])
                }),
            ),
            None => final(app).workflow_groups == old(app).workflow_groups,
        },
        *final(app) == (App { workflow_groups: final(app).workflow_groups, ..*old(app) }),
{
    let n = chars_of(workflow_name);
    let idx = match find_wgroup(&app.workflow_groups, &n) {
        Some(i) => i,
        None => {
            return;
        },
    };
    let ghost prev = app.workflow_groups@;
    let mut updates: Vec<BarUpdate> = Vec::new();
    let mut jobs = jobs;
    let ghost js = jobs@;
    let mut k: usize = 0;
    while k < jobs.len()
        invariant
            js == jobs@,
            k <= jobs.len(),
            updates@ == job_updates_spec(js.take(k as int)),
        decreases jobs.len() - k,
    {
        let j = &jobs[k];
        updates.push((j.name.clone(), j.status, j.completed_at));
        assert(updates@ =~= job_updates_spec(js.take(k + 1)));
        k = k + 1;
    }
    assert(js.take(k as int) =~= js);
    let mut g = empty_wgroup();
    app.workflow_groups.set_and_swap(idx, &mut g);
    reconcile_bars(&mut g.jobs, updates);
    let ghost gm = g;
    app.workflow_groups.set_and_swap(idx, &mut g);
    assert(app.workflow_groups@ == prev.update(idx as int, gm));
    assert(wgroups_view(app.workflow_groups@) =~= wgroups_view(prev).update(
        idx as int,
        wgroup_view(gm),
    ));
}

/// Pipelines are not polled while AWS credentials are known to have
/// failed, unless the poll is forced.
pub fn pipeline_poll_blocked(app: &App, force: bool) -> (r: bool)
    ensures
        r == (app.aws_health is AuthFailed && !force),
{
    match app.aws_health {
        SourceHealth::AuthFailed { .. } => !force,
        _ => false,
    }
}

/// The warning for an AWS error that is not about credentials.
pub open spec fn aws_warning_spec(msg: Seq<char>) -> Seq<char> {
    "AWS: "@ + msg
}

/// Applies the outcome of a pipeline poll at time `now`: polled states
/// update the groups and mark AWS healthy; a credential error marks AWS
/// failed and asks for an SSO login; another error becomes a warning.
pub fn finish_pipeline_poll(app: &mut App, result: Result<Vec<PipelineState>, String>, profile: &str, now: u64)
    ensures
        match result {
            Ok(states) => {
                &&& pgroups_view(final(app).pipeline_groups@) == apply_pipeline_states(
                    mark_pgroups_gone(pgroups_view(old(app).pipeline_groups@), state_names(states@)),
                    states@,
                )
                &&& final(app).aws_health == SourceHealth::Healthy
                &&& final(app).warnings == old(app).warnings
            },
            Err(msg) => {
                &&& final(app).pipeline_groups == old(app).pipeline_groups
                &&& if is_auth_error_spec(msg@) {
                    &&& final(app).aws_health == (SourceHealth::AuthFailed { since: now })
                    &&& warnings_view(final(app).warnings@) == push_warning_spec(
                        warnings_view(old(app).warnings@),
                        sso_expired_msg_spec(profile@),
                    )
                } else {
                    &&& final(app).aws_health == old(app).aws_health
                    &&& warnings_view(final(app).warnings@) == push_warning_spec(
                        warnings_view(old(app).warnings@),
                        aws_warning_spec(msg@),
                    )
                }
            },
        },
        final(app).workflow_groups == old(app).workflow_groups,
        !final(app).loading_pipelines,
        final(app).last_poll == Some(now),
{
    match result {
        Ok(states) => {
            update_pipeline_groups(app, states);
            app.aws_health = SourceHealth::Healthy;
        },
        Err(msg) => {
            if is_auth_error(msg.as_str()) {
                app.aws_health = SourceHealth::AuthFailed { since: now };
                app.push_warning(aws_sso_expired_msg(profile));
            } else {
                app.push_warning(concat2("AWS: ", msg.as_str()));
            }
        },
    }
    app.loading_pipelines = false;
    app.last_poll = Some(now);
}

/// Applies the outcome of a credential check at time `now`: success
/// clears a credential failure and its warnings; a credential error marks
/// AWS failed and asks for an SSO login; other errors change nothing.
pub fn finish_auth_check(app: &mut App, result: Result<(), String>, profile: &str, now: u64)
    ensures
        match result {
            Ok(()) => if old(app).aws_health is AuthFailed {
                &&& final(app).aws_health == SourceHealth::Healthy
                &&& warnings_view(final(app).warnings@) == warnings_view(old(app).warnings@).filter(
                    |w: Seq<char>| !"AWS:"@.is_prefix_of(w),
                )
            } else {
                &&& final(app).aws_health == old(app).aws_health
                &&& final(app).warnings == old(app).warnings
            },
            Err(msg) => if is_auth_error_spec(msg@) {
                &&& final(app).aws_health == (SourceHealth::AuthFailed { since: now })
                &&& warnings_view(final(app).warnings@) == push_warning_spec(
                    warnings_view(old(app).warnings@),
                    sso_expired_msg_spec(profile@),
                )
            } else {
                &&& final(app).aws_health == old(app).aws_health
                &&& final(app).warnings == old(app).warnings
            },
        },
        final(app).pipeline_groups == old(app).pipeline_groups,
        final(app).workflow_groups == old(app).workflow_groups,
{
    match result {
        Ok(()) => {
            if let SourceHealth::AuthFailed { .. } = app.aws_health {
                app.aws_health = SourceHealth::Healthy;
                app.clear_warnings_by_prefix("AWS:");
            }
        },
        Err(msg) => {
            if is_auth_error(msg.as_str()) {
                app.aws_health = SourceHealth::AuthFailed { since: now };
                app.push_warning(aws_sso_expired_msg(profile));
            }
        },
    }
}

/// GitHub is being backed off from at time `now`.
pub open spec fn backoff_active_spec(until: Option<u64>, now: u64) -> bool {
    until matches Some(u) && now < u
}

/// Starts an actions poll at time `now`: clears the GitHub warnings; while
/// backing off after a rate limit, warns, ends loading and returns false
/// (no poll); otherwise returns true.
pub fn begin_actions_poll(app: &mut App, now: u64) -> (r: bool)
    ensures
        r == !backoff_active_spec(old(app).rate_limited_until, now),
        ({
            let cleared = warnings_view(old(app).warnings@).filter(
                |w: Seq<char>| !"GitHub:"@.is_prefix_of(w),
            );
            if r {
                &&& warnings_view(final(app).warnings@) == cleared
                &&& final(app).loading_actions == old(app).loading_actions
            } else {
                &&& warnings_view(final(app).warnings@) == push_warning_spec(
                    cleared,
                    "GitHub: rate-limited, backing off"@,
                )
                &&& !final(app).loading_actions
            }
        }),
        final(app).pipeline_groups == old(app).pipeline_groups,
        final(app).workflow_groups == old(app).workflow_groups,
        final(app).rate_limited_until == old(app).rate_limited_until,
{
    let skip = match app.rate_limited_until {
        Some(until) => now < until,
        None => false,
    };
    app.clear_warnings_by_prefix("GitHub:");
    if skip {
        app.push_warning(crate::text::owned("GitHub: rate-limited, backing off"));
        app.loading_actions = false;
        return false;
    }
    true
}

/// An error from the runs API that reports a rate limit (by its
/// lower-cased message).
pub open spec fn is_rate_limit_spec(lower: Seq<char>) -> bool {
    contains_seq(lower, "rate limit"@) || contains_seq(lower, "403"@) || contains_seq(lower, "429"@)
        || contains_seq(lower, "abuse detection"@)
}

/// Whether a lower-cased error message from the runs API reports a rate
/// limit (see [`is_rate_limit_spec`]).
pub fn is_rate_limit_error(lower: &str) -> (r: bool)
    ensures
        r == is_rate_limit_spec(lower@),
{
    str_contains(lower, "rate limit") || str_contains(lower, "403") || str_contains(lower, "429")
        || str_contains(lower, "abuse detection")
}

/// Applies the outcome of listing the latest runs at time `now`: the
/// summaries update the workflow groups and end any back-off; a rate-limit
/// error starts a back-off of RATE_LIMIT_BACKOFF_MS; another error becomes
/// a warning.  Loading ends and the poll time is recorded either way.
pub fn finish_runs_poll(app: &mut App, result: Result<Vec<WorkflowRunSummary>, String>, now: u64)
    requires
        now <= u64::MAX - RATE_LIMIT_BACKOFF_MS,
    ensures
        match result {
            Ok(sums) => {
                &&& wgroups_view(final(app).workflow_groups@) == apply_summaries(
                    mark_wgroups_gone(wgroups_view(old(app).workflow_groups@), summary_names(sums@)),
                    sums@,
                )
                &&& final(app).rate_limited_until is None
                &&& final(app).warnings == old(app).warnings
            },
            Err(msg) => {
                &&& final(app).workflow_groups == old(app).workflow_groups
                &&& if is_rate_limit_spec(spec_lowercase(msg@)) {
                    &&& final(app).rate_limited_until == Some((now + RATE_LIMIT_BACKOFF_MS) as u64)
                    &&& warnings_view(final(app).warnings@) == push_warning_spec(
                        warnings_view(old(app).warnings@),
                        "GitHub: rate limited, backing off 60s"@,
                    )
                } else {
                    &&& final(app).rate_limited_until == old(app).rate_limited_until
                    &&& warnings_view(final(app).warnings@) == push_warning_spec(
                        warnings_view(old(app).warnings@),
                        "GitHub: "@ + msg@,
                    )
                }
            },
        },
        final(app).pipeline_groups == old(app).pipeline_groups,
        !final(app).loading_actions,
        final(app).last_poll == Some(now),
{
    match result {
        Ok(sums) => {
            update_workflow_summaries(app, sums.as_slice());
            app.rate_limited_until = None;
        },
        Err(msg) => {
            let lower = to_lowercase(msg.as_str());
            if is_rate_limit_error(lower.as_str()) {
                app.rate_limited_until = Some(now + RATE_LIMIT_BACKOFF_MS);
                app.push_warning(crate::text::owned("GitHub: rate limited, backing off 60s"));
            } else {
                app.push_warning(concat2("GitHub: ", msg.as_str()));
            }
        },
    }
    app.loading_actions = false;
    app.last_poll = Some(now);
}


/// A watched pull request is due for a state check at `now`: its state is
/// not final (open or unknown), and it was never checked or was checked at
/// least `min_interval_ms` before.
pub open spec fn pr_due(p: WatchedPr, min_interval_ms: u64, now: u64) -> bool {
    (p.state == WatchedPrState::Open || p.state == WatchedPrState::Unknown) && match p.last_checked {
        None => true,
        Some(t) => elapsed_ms(t, now) >= min_interval_ms,
    }
}

/// The numbers of the pull requests due for a check, in order.
pub open spec fn due_numbers(ws: Seq<WatchedPr>, min_interval_ms: u64, now: u64) -> Seq<u64>
    decreases ws.len(),
{
    if ws.len() == 0 {
        Seq::empty()
    } else {
        let r = due_numbers(ws.drop_last(), min_interval_ms, now);
        if pr_due(ws.last(), min_interval_ms, now) {
            r.push(ws.last().number)
        } else {
            r
        }
    }
}

/// The pull requests whose state should be fetched at `now` (see
/// [`pr_due`]).
pub fn pr_poll_candidates(app: &App, min_interval_ms: u64, now: u64) -> (r: Vec<u64>)
    ensures
        r@ == due_numbers(app.watched_prs@, min_interval_ms, now),
{
    let ghost ws = app.watched_prs@;
    let mut r: Vec<u64> = Vec::new();
    let mut i: usize = 0;
    while i < app.watched_prs.len()
        invariant
            ws == app.watched_prs@,
            i <= ws.len(),
            r@ == due_numbers(ws.take(i as int), min_interval_ms, now),
        decreases app.watched_prs.len() - i,
    {
        assert(ws.take(i + 1).drop_last() =~= ws.take(i as int));
        let p = app.watched_prs[i];
        let open = match p.state {
            WatchedPrState::Open | WatchedPrState::Unknown => true,
            _ => false,
        };
        let stale = match p.last_checked {
            None => true,
            Some(t) => elapsed_between(t, now) >= min_interval_ms,
        };
        if open && stale {
            r.push(p.number);
        }
        i = i + 1;
    }
    assert(ws.take(i as int) =~= ws);
    r
}

/// The index of the first watched pull request numbered `n` at or after
/// `start`.
pub open spec fn find_pr_from(ws: Seq<WatchedPr>, n: u64, start: int) -> Option<int>
    decreases ws.len() - start,
{
    if start < 0 || start >= ws.len() {
        None
    } else if ws[start].number == n {
        Some(start)
    } else {
        find_pr_from(ws, n, start + 1)
    }
}

/// One fetched state (None: the fetch failed) applied at `now`: a known
/// pull request takes the new state and is marked checked; a failure or
/// an unknown number changes nothing.  The flag says whether an open pull
/// request was found merged.
pub open spec fn apply_pr_result(ws: Seq<WatchedPr>, r: (u64, Option<WatchedPrState>), now: u64) -> (Seq<WatchedPr>, bool) {
    match r.1 {
        None => (ws, false),
        Some(s) => match find_pr_from(ws, r.0, 0) {
            None => (ws, false),
            Some(i) => (
                ws.update(i, WatchedPr { state: s, last_checked: Some(now), ..ws[i] }),
                ws[i].state == WatchedPrState::Open && s == WatchedPrState::Merged,
            ),
        },
    }
}

/// The fetched states applied in order; the flag says whether any open
/// pull request was found merged.
pub open spec fn apply_pr_results(ws: Seq<WatchedPr>, rs: Seq<(u64, Option<WatchedPrState>)>, now: u64) -> (Seq<WatchedPr>, bool)
    decreases rs.len(),
{
    if rs.len() == 0 {
        (ws, false)
    } else {
        let prev = apply_pr_results(ws, rs.drop_last(), now);
        let last = apply_pr_result(prev.0, rs.last(), now);
        (last.0, prev.1 || last.1)
    }
}

/// Applies the pull-request states fetched at `now` (see
/// [`apply_pr_results`]); returns whether an open pull request was found
/// merged, which calls for a boost.
pub fn apply_pr_states(app: &mut App, results: &[(u64, Option<WatchedPrState>)], now: u64) -> (merged: bool)
    ensures
        (final(app).watched_prs@, merged) == apply_pr_results(old(app).watched_prs@, results@, now),
        *final(app) == (App { watched_prs: final(app).watched_prs, ..*old(app) }),
{
    let mut merged = false;
    let mut k: usize = 0;
    while k < results.len()
        invariant
            k <= results.len(),
            (app.watched_prs@, merged) == apply_pr_results(old(app).watched_prs@, results@.take(k as int), now),
            *app == (App { watched_prs: app.watched_prs, ..*old(app) }),
        decreases results.len() - k,
    {
        assert(results@.take(k + 1).drop_last() =~= results@.take(k as int));
        let (n, fetched) = results[k];
        match fetched {
            None => {},
            Some(s) => {
                let ghost ws = app.watched_prs@;
                let mut i: usize = 0;
                let mut at: Option<usize> = None;
                while i < app.watched_prs.len()
                    invariant
                        ws == app.watched_prs@,
                        i <= ws.len(),
                        at is None ==> find_pr_from(ws, n, 0) == find_pr_from(ws, n, i as int),
                        at matches Some(j) ==> find_pr_from(ws, n, 0) == Some(j as int) && j < ws.len(),
                    decreases app.watched_prs.len() - i,
                {
                    if at.is_none() && app.watched_prs[i].number == n {
                        at = Some(i);
                    }
                    i = i + 1;
                }
                match at {
                    None => {},
                    Some(j) => {
                        let p = app.watched_prs[j];
                        let was_open = match p.state {
                            WatchedPrState::Open => true,
                            _ => false,
                        };
                        let now_merged = match s {
                            WatchedPrState::Merged => true,
                            _ => false,
                        };
                        app.watched_prs.set(j, WatchedPr { state: s, last_checked: Some(now), ..p });
                        merged = merged || (was_open && now_merged);
                    },
                }
            },
        }
        k = k + 1;
    }
    assert(results@.take(k as int) =~= results@);
    merged
}


/// A pull request in a final state (merged, or closed unmerged) is never
/// checked again, so a merge is reported once.
pub proof fn lemma_final_prs_are_not_polled(p: WatchedPr, min_interval_ms: u64, now: u64)
    requires
        p.state == WatchedPrState::Merged || p.state == WatchedPrState::ClosedUnmerged,
    ensures
        !pr_due(p, min_interval_ms, now),
{
}

} // verus!
