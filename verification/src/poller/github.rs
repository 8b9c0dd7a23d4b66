use vstd::prelude::*;
use vstd::utf8::{decode_utf8, valid_utf8};

use base64::Engine;
use serde_yaml::Value;
use serde_yaml::Value::{Sequence, String as YamlString};

use crate::model::{BuildStatus, WatchedPrState};
use crate::poller::{JobS3Info, S3Upload, WorkflowFile, WorkflowRunSummary};
use crate::text::{
    chars_eq, chars_of, concat2, owned, str_eq, str_ends_with, string_from_chars, u64_to_decimal,
    decimal,
};

verus! {

/// Runs are listed 100 per page.
pub const RUNS_PER_PAGE: u64 = 100;

/// At most this many pages of runs are read.
pub const MAX_PAGES: u32 = 20;

/// The pattern of an S3 URI: bucket and key.
pub const S3_PATH_PATTERN: &'static str = "s3://([^/\\s]+)/(\\S+)";

/// The pattern of a GitHub Actions expression `${{ ... }}`.
pub const GH_EXPR_PATTERN: &'static str = "\\$\\{\\{[^}]*\\}\\}";

/// What GitHub Actions expressions are collapsed into before S3 URIs are
/// searched, so that spaces inside them do not cut a URI.
pub const GH_EXPR_PLACEHOLDER: &'static str = "GHEXPR";

/// The optional string, as characters.
pub open spec fn ostr(o: Option<&str>) -> Option<Seq<char>> {
    match o {
        Some(s) => Some(s@),
        None => None,
    }
}

/// The optional owned string, as characters.
pub open spec fn ostring(o: Option<String>) -> Option<Seq<char>> {
    match o {
        Some(s) => Some(s@),
        None => None,
    }
}

/// The route that lists one page of workflow runs, filtered by branch
/// when one is given.
pub open spec fn runs_route_spec(owner: Seq<char>, repo: Seq<char>, page: nat, branch: Option<Seq<char>>) -> Seq<char> {
    "/repos/"@ + owner + "/"@ + repo + "/actions/runs?per_page=100&page="@ + decimal(page)
        + match branch {
        Some(b) => "&branch="@ + b,
        None => Seq::empty(),
    }
}

/// Builds the API route that lists workflow runs.
pub fn build_runs_route(owner: &str, repo: &str, page: u32, branch: Option<&str>) -> (r: String)
    ensures
        r@ == runs_route_spec(owner@, repo@, page as nat, ostr(branch)),
{
    let a = concat2("/repos/", owner);
    let b = concat2(a.as_str(), "/");
    let c = concat2(b.as_str(), repo);
    let d = concat2(c.as_str(), "/actions/runs?per_page=100&page=");
    let p = u64_to_decimal(page as u64);
    let e = concat2(d.as_str(), p.as_str());
    match branch {
        Some(br) => {
            let f = concat2(e.as_str(), "&branch=");
            let g = concat2(f.as_str(), br);
            assert(g@ =~= runs_route_spec(owner@, repo@, page as nat, ostr(branch)));
            g
        },
        None => {
            assert(e@ =~= runs_route_spec(owner@, repo@, page as nat, ostr(branch)));
            e
        },
    }
}

/// The state of a pull request, from its `state` and `merged` fields.
pub open spec fn pr_state_spec(state: Seq<char>, merged: bool) -> WatchedPrState {
    if state == "open"@ && !merged {
        WatchedPrState::Open
    } else if state == "closed"@ && merged {
        WatchedPrState::Merged
    } else if state == "closed"@ && !merged {
        WatchedPrState::ClosedUnmerged
    } else {
        WatchedPrState::Unknown
    }
}

/// Maps a pull request's `state` and `merged` fields to its watched state.
pub fn map_pr_state(state: &str, merged: bool) -> (r: WatchedPrState)
    ensures
        r == pr_state_spec(state@, merged),
{
    if str_eq(state, "open") && !merged {
        WatchedPrState::Open
    } else if str_eq(state, "closed") && merged {
        WatchedPrState::Merged
    } else if str_eq(state, "closed") && !merged {
        WatchedPrState::ClosedUnmerged
    } else {
        WatchedPrState::Unknown
    }
}

/// A run or job status that means it has not finished.
pub open spec fn is_pending_status(status: Seq<char>) -> bool {
    status == "in_progress"@ || status == "queued"@ || status == "waiting"@ || status == "pending"@
}

/// The build status of a run or job: unfinished ones run; finished ones
/// succeed on `success`, are idle when `skipped`, and fail otherwise.
pub open spec fn run_status_spec(status: Seq<char>, conclusion: Option<Seq<char>>) -> BuildStatus {
    if is_pending_status(status) {
        BuildStatus::Running
    } else if status == "completed"@ {
        match conclusion {
            Some(c) => if c == "success"@ {
                BuildStatus::Succeeded
            } else if c == "skipped"@ {
                BuildStatus::Idle
            } else {
                BuildStatus::Failed
            },
            None => BuildStatus::Failed,
        }
    } else {
        BuildStatus::Idle
    }
}

/// Maps a run's `status` and `conclusion` to a build status.
pub fn map_run_status(status: &str, conclusion: Option<&str>) -> (r: BuildStatus)
    ensures
        r == run_status_spec(status@, ostr(conclusion)),
{
    if str_eq(status, "in_progress") || str_eq(status, "queued") || str_eq(status, "waiting")
        || str_eq(status, "pending") {
        BuildStatus::Running
    } else if str_eq(status, "completed") {
        match conclusion {
            Some(c) => {
                if str_eq(c, "success") {
                    BuildStatus::Succeeded
                } else if str_eq(c, "skipped") {
                    BuildStatus::Idle
                } else {
                    BuildStatus::Failed
                }
            },
            None => BuildStatus::Failed,
        }
    } else {
        BuildStatus::Idle
    }
}

/// What `regex::Regex::replace_all` returns when `pattern` compiles
/// (None when it does not): `text` with every match of `pattern` replaced
/// by `replacement`.
pub uninterp spec fn spec_regex_replace_all(
    pattern: Seq<char>,
    text: Seq<char>,
    replacement: Seq<char>,
) -> Option<Seq<char>>;

/// `regex::Regex::new` then `Regex::replace_all`.  The claim is only that
/// the result is a function of the pattern, the text and the replacement,
/// named [`spec_regex_replace_all`]; regular-expression matching is not
/// written out.
#[verifier::external_body]
fn regex_replace_all(pattern: &str, text: &str, replacement: &str) -> (r: Option<String>)
    ensures
        ostring(r) == spec_regex_replace_all(pattern@, text@, replacement@),
{
    regex::Regex::new(pattern).ok().map(|re| re.replace_all(text, replacement).into_owned())
}

/// What `regex::Regex::captures_iter` yields when `pattern` compiles
/// (None when it does not): for each successive match, the text of the
/// first and the second capture group, None for a group that did not take
/// part in the match.
pub uninterp spec fn spec_regex_capture_pairs(pattern: Seq<char>, text: Seq<char>) -> Option<
    Seq<(Option<Seq<char>>, Option<Seq<char>>)>,
>;

/// The view of a sequence of optional capture pairs.
pub open spec fn capture_pairs_view(v: Seq<(Option<String>, Option<String>)>) -> Seq<
    (Option<Seq<char>>, Option<Seq<char>>),
> {
    v.map_values(|p: (Option<String>, Option<String>)| (ostring(p.0), ostring(p.1)))
}

/// `regex::Regex::new` then `Regex::captures_iter`, keeping groups 1 and
/// 2 of each match.  The claim is only that the result is a function of
/// the pattern and the text, named [`spec_regex_capture_pairs`].
#[verifier::external_body]
fn regex_capture_pairs(pattern: &str, text: &str) -> (r: Option<Vec<(Option<String>, Option<String>)>>)
    ensures
        match r {
            Some(v) => spec_regex_capture_pairs(pattern@, text@) == Some(capture_pairs_view(v@)),
            None => spec_regex_capture_pairs(pattern@, text@) is None,
        },
{
    regex::Regex::new(pattern).ok().map(
        |re|
            re.captures_iter(text).map(
                |c| (c.get(1).map(|m| m.as_str().to_string()), c.get(2).map(|m| m.as_str().to_string())),
            ).collect(),
    )
}

/// An S3 upload target, as plain values (bucket, key).
pub open spec fn upload_view(u: S3Upload) -> (Seq<char>, Seq<char>) {
    (u.bucket@, u.key@)
}

/// The views of a sequence of uploads.
pub open spec fn uploads_view(v: Seq<S3Upload>) -> Seq<(Seq<char>, Seq<char>)> {
    v.map_values(|u: S3Upload| upload_view(u))
}

/// `acc` with `u` appended unless already present.
pub open spec fn add_unique(acc: Seq<(Seq<char>, Seq<char>)>, u: (Seq<char>, Seq<char>)) -> Seq<
    (Seq<char>, Seq<char>),
> {
    if acc.contains(u) {
        acc
    } else {
        acc.push(u)
    }
}

/// `acc` with each complete capture pair of `pairs` appended in order,
/// skipping those already present.
pub open spec fn dedup_pairs_onto(
    acc: Seq<(Seq<char>, Seq<char>)>,
    pairs: Seq<(Option<Seq<char>>, Option<Seq<char>>)>,
) -> Seq<(Seq<char>, Seq<char>)>
    decreases pairs.len(),
{
    if pairs.len() == 0 {
        acc
    } else {
        let last = pairs.last();
        let before = dedup_pairs_onto(acc, pairs.drop_last());
        match last {
            (Some(b), Some(k)) => add_unique(before, (b, k)),
            _ => before,
        }
    }
}

/// `acc` with each upload of `new` appended in order, skipping those
/// already present.
pub open spec fn add_all_unique(acc: Seq<(Seq<char>, Seq<char>)>, new: Seq<(Seq<char>, Seq<char>)>) -> Seq<
    (Seq<char>, Seq<char>),
>
    decreases new.len(),
{
    if new.len() == 0 {
        acc
    } else {
        add_unique(add_all_unique(acc, new.drop_last()), new.last())
    }
}

/// The S3 uploads named in `text`: GitHub Actions expressions collapsed,
/// then every `s3://bucket/key` in order, without repeats.
pub open spec fn s3_paths_spec(text: Seq<char>) -> Seq<(Seq<char>, Seq<char>)> {
    match spec_regex_replace_all(GH_EXPR_PATTERN@, text, GH_EXPR_PLACEHOLDER@) {
        None => Seq::empty(),
        Some(cleaned) => match spec_regex_capture_pairs(S3_PATH_PATTERN@, cleaned) {
            None => Seq::empty(),
            Some(pairs) => dedup_pairs_onto(Seq::empty(), pairs),
        },
    }
}

fn upload_position(acc: &Vec<S3Upload>, bucket: &str, key: &str) -> (r: bool)
    ensures
        r == uploads_view(acc@).contains((bucket@, key@)),
{
    let ghost av = uploads_view(acc@);
    let mut i: usize = 0;
    while i < acc.len()
        invariant
            av == uploads_view(acc@),
            i <= acc.len(),
            forall|k: int| 0 <= k < i ==> av[k] != (bucket@, key@),
        decreases acc.len() - i,
    {
        assert(av[i as int] == upload_view(acc@[i as int]));
        if str_eq(acc[i].bucket.as_str(), bucket) && str_eq(acc[i].key.as_str(), key) {
            assert(av[i as int] == (bucket@, key@));
            return true;
        }
        i = i + 1;
    }
    false
}

/// Appends upload (bucket, key) to `acc` unless it is already there.
pub fn push_unique_upload(acc: &mut Vec<S3Upload>, bucket: String, key: String)
    ensures
        uploads_view(final(acc)@) == add_unique(uploads_view(old(acc)@), (bucket@, key@)),
{
    if !upload_position(acc, bucket.as_str(), key.as_str()) {
        let ghost before = uploads_view(acc@);
        acc.push(S3Upload { bucket, key });
        assert(uploads_view(acc@) =~= before.push((bucket@, key@)));
    }
}

/// The uploads named by captured (bucket, key) pairs, in order, without
/// repeats; incomplete pairs are skipped.
pub fn dedup_uploads(pairs: Vec<(Option<String>, Option<String>)>) -> (r: Vec<S3Upload>)
    ensures
        uploads_view(r@) == dedup_pairs_onto(Seq::empty(), capture_pairs_view(pairs@)),
{
    let ghost pv = capture_pairs_view(pairs@);
    let mut acc: Vec<S3Upload> = Vec::new();
    let mut i: usize = 0;
    assert(uploads_view(acc@) =~= Seq::<(Seq<char>, Seq<char>)>::empty());
    while i < pairs.len()
        invariant
            pv == capture_pairs_view(pairs@),
            i <= pairs.len(),
            uploads_view(acc@) == dedup_pairs_onto(Seq::empty(), pv.take(i as int)),
        decreases pairs.len() - i,
    {
        assert(pv.take(i + 1).drop_last() =~= pv.take(i as int));
        assert(pv.take(i + 1).last() == pv[i as int]);
        let p = &pairs[i];
        match (&p.0, &p.1) {
            (Some(b), Some(k)) => {
                push_unique_upload(&mut acc, b.clone(), k.clone());
            },
            _ => {},
        }
        i = i + 1;
    }
    assert(pv.take(i as int) =~= pv);
    acc
}

/// Extracts the S3 upload targets (`s3://bucket/key`) from workflow text,
/// in order and without repeats.  GitHub Actions expressions are collapsed
/// first so that spaces inside them do not cut a URI.
pub fn extract_s3_paths(yaml_content: &str) -> (r: Vec<S3Upload>)
    ensures
        uploads_view(r@) == s3_paths_spec(yaml_content@),
{
    match regex_replace_all(GH_EXPR_PATTERN, yaml_content, GH_EXPR_PLACEHOLDER) {
        None => {
            let r: Vec<S3Upload> = Vec::new();
            assert(uploads_view(r@) =~= Seq::<(Seq<char>, Seq<char>)>::empty());
            r
        },
        Some(cleaned) => match regex_capture_pairs(S3_PATH_PATTERN, cleaned.as_str()) {
            None => {
                let r: Vec<S3Upload> = Vec::new();
                assert(uploads_view(r@) =~= Seq::<(Seq<char>, Seq<char>)>::empty());
                r
            },
            Some(pairs) => dedup_uploads(pairs),
        },
    }
}

/// One workflow run from the runs API, as plain values (absent or
/// mistyped fields are None).
#[derive(Debug, Clone)]
pub struct RunRecord {
    pub id: Option<u64>,
    pub name: Option<String>,
    pub status: Option<String>,
    pub conclusion: Option<String>,
    pub event: Option<String>,
    pub actor_login: Option<String>,
    pub head_branch: Option<String>,
    /// The numbers of the run's pull requests.
    pub pr_numbers: Vec<u64>,
}

/// A run, as plain values.
pub struct RunView {
    pub id: Option<u64>,
    pub name: Option<Seq<char>>,
    pub status: Option<Seq<char>>,
    pub conclusion: Option<Seq<char>>,
    pub event: Option<Seq<char>>,
    pub actor_login: Option<Seq<char>>,
    pub head_branch: Option<Seq<char>>,
    pub pr_numbers: Seq<u64>,
}

impl View for RunRecord {
    type V = RunView;

    open spec fn view(&self) -> RunView {
        RunView {
            id: self.id,
            name: ostring(self.name),
            status: ostring(self.status),
            conclusion: ostring(self.conclusion),
            event: ostring(self.event),
            actor_login: ostring(self.actor_login),
            head_branch: ostring(self.head_branch),
            pr_numbers: self.pr_numbers@,
        }
    }
}

/// The views of a sequence of runs.
pub open spec fn runs_view(v: Seq<RunRecord>) -> Seq<RunView> {
    v.map_values(|r: RunRecord| r@)
}

/// The value, or `d` when absent.
pub open spec fn or_default(o: Option<Seq<char>>, d: Seq<char>) -> Seq<char> {
    match o {
        Some(s) => s,
        None => d,
    }
}

/// A run triggered by a pull request.
pub open spec fn is_pr_event(e: Option<Seq<char>>) -> bool {
    e == Some("pull_request"@) || e == Some("pull_request_target"@)
}

/// `prs` with each number of `nums` added unless already present.
pub open spec fn add_numbers(prs: Seq<u64>, nums: Seq<u64>) -> Seq<u64>
    decreases nums.len(),
{
    if nums.len() == 0 {
        prs
    } else {
        let before = add_numbers(prs, nums.drop_last());
        if before.contains(nums.last()) {
            before
        } else {
            before.push(nums.last())
        }
    }
}

/// A run that is shown: not by a bot, on the filtered branch (when a
/// branch filter is set), and not a skipped completion.
pub open spec fn run_is_visible(run: RunView, filter: Option<Seq<char>>) -> bool {
    &&& !"[bot]"@.is_suffix_of(or_default(run.actor_login, Seq::empty()))
    &&& (filter matches Some(f) ==> or_default(run.head_branch, Seq::empty()) == f)
    &&& !(or_default(run.status, "unknown"@) == "completed"@ && run.conclusion == Some("skipped"@))
}

/// The latest run per workflow, as plain values.
pub open spec fn latest_view(v: Seq<(String, (u64, BuildStatus))>) -> Seq<(Seq<char>, (u64, BuildStatus))> {
    v.map_values(|e: (String, (u64, BuildStatus))| (e.0@, e.1))
}

/// Some entry is of workflow `name`.
pub open spec fn has_workflow(latest: Seq<(Seq<char>, (u64, BuildStatus))>, name: Seq<char>) -> bool {
    exists|i: int| 0 <= i < latest.len() && latest[i].0 == name
}

/// One run folded into the latest-per-workflow list and the PR numbers:
/// runs without an id are skipped; PR numbers are harvested before any
/// filter; a visible run is kept when its workflow has no entry yet.
pub open spec fn run_step(
    state: (Seq<(Seq<char>, (u64, BuildStatus))>, Seq<u64>),
    run: RunView,
    filter: Option<Seq<char>>,
) -> (Seq<(Seq<char>, (u64, BuildStatus))>, Seq<u64>) {
    match run.id {
        None => state,
        Some(id) => {
            let prs = if is_pr_event(run.event) {
                add_numbers(state.1, run.pr_numbers)
            } else {
                state.1
            };
            let name = or_default(run.name, "unknown"@);
            let latest = if run_is_visible(run, filter) && !has_workflow(state.0, name) {
                state.0.push(
                    (
                        name,
                        (id, run_status_spec(or_default(run.status, "unknown"@), run.conclusion)),
                    ),
                )
            } else {
                state.0
            };
            (latest, prs)
        },
    }
}

/// All runs folded in order.
pub open spec fn runs_fold(
    state: (Seq<(Seq<char>, (u64, BuildStatus))>, Seq<u64>),
    runs: Seq<RunView>,
    filter: Option<Seq<char>>,
) -> (Seq<(Seq<char>, (u64, BuildStatus))>, Seq<u64>)
    decreases runs.len(),
{
    if runs.len() == 0 {
        state
    } else {
        run_step(runs_fold(state, runs.drop_last(), filter), runs.last(), filter)
    }
}

fn add_pr_numbers(prs: &mut Vec<u64>, nums: &Vec<u64>)
    ensures
        final(prs)@ == add_numbers(old(prs)@, nums@),
{
    let ghost start = prs@;
    let mut i: usize = 0;
    while i < nums.len()
        invariant
            i <= nums.len(),
            prs@ == add_numbers(start, nums@.take(i as int)),
        decreases nums.len() - i,
    {
        assert(nums@.take(i + 1).drop_last() =~= nums@.take(i as int));
        let n = nums[i];
        let mut found = false;
        let mut j: usize = 0;
        while j < prs.len()
            invariant
                j <= prs.len(),
                found == (exists|k: int| 0 <= k < j && prs@[k] == n),
            decreases prs.len() - j,
        {
            if prs[j] == n {
                found = true;
            }
            j = j + 1;
        }
        if !found {
            prs.push(n);
        }
        i = i + 1;
    }
    assert(nums@.take(i as int) =~= nums@);
}

fn latest_has(latest: &Vec<(String, (u64, BuildStatus))>, name: &Vec<char>) -> (r: bool)
    ensures
        r == has_workflow(latest_view(latest@), name@),
{
    let ghost lv = latest_view(latest@);
    let mut i: usize = 0;
    while i < latest.len()
        invariant
            lv == latest_view(latest@),
            i <= latest.len(),
            forall|k: int| 0 <= k < i ==> lv[k].0 != name@,
        decreases latest.len() - i,
    {
        let n = chars_of(latest[i].0.as_str());
        assert(lv[i as int].0 == latest@[i as int].0@);
        if chars_eq(&n, name) {
            return true;
        }
        i = i + 1;
    }
    false
}

fn str_or<'a>(o: &'a Option<String>, d: &'a str) -> (r: &'a str)
    ensures
        r@ == or_default(ostring(*o), d@),
{
    match o {
        Some(s) => s.as_str(),
        None => d,
    }
}

fn opt_as_str<'a>(o: &'a Option<String>) -> (r: Option<&'a str>)
    ensures
        ostr(r) == ostring(*o),
{
    match o {
        Some(s) => Some(s.as_str()),
        None => None,
    }
}

/// Folds one page of runs into the latest run per workflow and the PR
/// numbers seen.
pub fn parse_workflow_runs(
    runs: &[RunRecord],
    latest: &mut Vec<(String, (u64, BuildStatus))>,
    prs: &mut Vec<u64>,
    branch_filter: Option<&str>,
)
    ensures
        (latest_view(final(latest)@), final(prs)@) == runs_fold(
            (latest_view(old(latest)@), old(prs)@),
            runs_view(runs@),
            ostr(branch_filter),
        ),
{
    let ghost start = (latest_view(latest@), prs@);
    let ghost rv = runs_view(runs@);
    let ghost filter = ostr(branch_filter);
    let mut i: usize = 0;
    while i < runs.len()
        invariant
            rv == runs_view(runs@),
            filter == ostr(branch_filter),
            i <= runs.len(),
            (latest_view(latest@), prs@) == runs_fold(start, rv.take(i as int), filter),
        decreases runs.len() - i,
    {
        assert(rv.take(i + 1).drop_last() =~= rv.take(i as int));
        assert(rv.take(i + 1).last() == runs@[i as int]@);
        let run = &runs[i];
        match run.id {
            None => {},
            Some(id) => {
                let is_pr = match &run.event {
                    Some(e) => str_eq(e.as_str(), "pull_request") || str_eq(
                        e.as_str(),
                        "pull_request_target",
                    ),
                    None => false,
                };
                if is_pr {
                    add_pr_numbers(prs, &run.pr_numbers);
                }
                let actor = str_or(&run.actor_login, "");
                let by_bot = str_ends_with(actor, "[bot]");
                let head = str_or(&run.head_branch, "");
                let off_branch = match branch_filter {
                    Some(f) => !str_eq(head, f),
                    None => false,
                };
                let status = str_or(&run.status, "unknown");
                let conclusion = opt_as_str(&run.conclusion);
                let skipped = str_eq(status, "completed") && match conclusion {
                    Some(c) => str_eq(c, "skipped"),
                    None => false,
                };
                proof {
                    assert(or_default(ostring(run.actor_login), Seq::empty()) == actor@) by {
                        if run.actor_login is None {
                            assert(""@ =~= Seq::<char>::empty()) by {
                                reveal_strlit("");
                            }
                        }
                    }
                    assert(or_default(ostring(run.head_branch), Seq::empty()) == head@) by {
                        if run.head_branch is None {
                            assert(""@ =~= Seq::<char>::empty()) by {
                                reveal_strlit("");
                            }
                        }
                    }
                }
                if !by_bot && !off_branch && !skipped {
                    let name = str_or(&run.name, "unknown");
                    let nv = chars_of(name);
                    if !latest_has(latest, &nv) {
                        let st = map_run_status(status, conclusion);
                        let ghost before = latest_view(latest@);
                        latest.push((owned(name), (id, st)));
                        assert(latest_view(latest@) =~= before.push((name@, (id, st))));
                    }
                }
            },
        }
        i = i + 1;
    }
    assert(rv.take(i as int) =~= rv);
}

/// The latest runs, as summaries.
pub fn latest_to_summaries(latest: Vec<(String, (u64, BuildStatus))>) -> (r: Vec<WorkflowRunSummary>)
    ensures
        r@.len() == latest@.len(),
        forall|i: int|
            0 <= i < r@.len() ==> r@[i].workflow_name@ == latest@[i].0@ && r@[i].run_id
                == latest@[i].1.0 && r@[i].status == latest@[i].1.1,
{
    let mut r: Vec<WorkflowRunSummary> = Vec::new();
    let mut i: usize = 0;
    while i < latest.len()
        invariant
            i <= latest.len(),
            r@.len() == i,
            forall|k: int|
                0 <= k < i ==> r@[k].workflow_name@ == latest@[k].0@ && r@[k].run_id
                    == latest@[k].1.0 && r@[k].status == latest@[k].1.1,
        decreases latest.len() - i,
    {
        let e = &latest[i];
        r.push(WorkflowRunSummary { workflow_name: e.0.clone(), run_id: e.1.0, status: e.1.1 });
        i = i + 1;
    }
    r
}

/// Listing stops after this page: it was short, it reached the total, the
/// page cap was hit, or it brought no new workflow.
pub open spec fn stop_paging_spec(fetched: u64, page: u32, total_count: u64, prev_count: usize, new_count: usize) -> bool {
    fetched < RUNS_PER_PAGE || page * RUNS_PER_PAGE >= total_count || page >= MAX_PAGES
        || new_count == prev_count
}

/// Whether listing runs stops after page `page`.
pub fn should_stop_paging(fetched: u64, page: u32, total_count: u64, prev_count: usize, new_count: usize) -> (r: bool)
    ensures
        r == stop_paging_spec(fetched, page, total_count, prev_count, new_count),
{
    fetched < RUNS_PER_PAGE || (page as u64) * RUNS_PER_PAGE >= total_count || page >= MAX_PAGES
        || new_count == prev_count
}

/// What `chrono::DateTime::parse_from_rfc3339` gives for `s`, as
/// milliseconds since the UNIX epoch (None when `s` is not RFC 3339).
pub uninterp spec fn spec_rfc3339_millis(s: Seq<char>) -> Option<i64>;

/// `chrono::DateTime::parse_from_rfc3339`, converted to milliseconds since
/// the epoch.  The claim is only that the result is a function of the text,
/// named [`spec_rfc3339_millis`]; the RFC 3339 grammar is not written out.
#[verifier::external_body]
fn rfc3339_to_millis(s: &str) -> (r: Option<i64>)
    ensures
        r == spec_rfc3339_millis(s@),
{
    chrono::DateTime::parse_from_rfc3339(s).ok().map(|dt| dt.timestamp_millis())
}

/// The completion time of a job, from its `completed_at` field.
pub fn parse_job_completed_at(completed_at: Option<&str>) -> (r: Option<i64>)
    ensures
        r == match ostr(completed_at) {
            Some(s) => spec_rfc3339_millis(s),
            None => None,
        },
{
    match completed_at {
        Some(s) => rfc3339_to_millis(s),
        None => None,
    }
}

/// What the standard base64 engine of the `base64` crate decodes `s` to
/// (None when `s` is not valid base64).
pub uninterp spec fn spec_base64_decode(s: Seq<char>) -> Option<Seq<u8>>;

/// `base64::engine::general_purpose::STANDARD.decode`.  The claim is only
/// that the result is a function of the text, named [`spec_base64_decode`].
#[verifier::external_body]
fn base64_decode(s: &str) -> (r: Option<Vec<u8>>)
    ensures
        match r {
            Some(v) => spec_base64_decode(s@) == Some(v@),
            None => spec_base64_decode(s@) is None,
        },
{
    base64::engine::general_purpose::STANDARD.decode(s).ok()
}

/// `String::from_utf8`: the claim is that it succeeds exactly on valid
/// UTF-8 and then holds the decoded characters, as vstd's `valid_utf8` and
/// `decode_utf8` describe UTF-8.
#[verifier::external_body]
fn utf8_string(bytes: Vec<u8>) -> (r: Option<String>)
    ensures
        match r {
            Some(s) => valid_utf8(bytes@) && s@ == decode_utf8(bytes@),
            None => !valid_utf8(bytes@),
        },
{
    String::from_utf8(bytes).ok()
}

/// `s` without its newline characters.
pub open spec fn without_newlines(s: Seq<char>) -> Seq<char> {
    s.filter(|c: char| c != '\n')
}

/// The text of a workflow file as the contents API returns it (base64 with
/// line breaks): None when it is not base64 or not UTF-8.
pub open spec fn decode_content_spec(encoded: Seq<char>) -> Option<Seq<char>> {
    match spec_base64_decode(without_newlines(encoded)) {
        None => None,
        Some(b) => if valid_utf8(b) {
            Some(decode_utf8(b))
        } else {
            None
        },
    }
}

/// Decodes the text of a workflow file from the contents API.
pub fn decode_workflow_content(encoded: &str) -> (r: Option<String>)
    ensures
        ostring(r) == decode_content_spec(encoded@),
{
    let v = chars_of(encoded);
    let mut kept: Vec<char> = Vec::new();
    let mut i: usize = 0;
    while i < v.len()
        invariant
            v@ == encoded@,
            i <= v.len(),
            kept@ == without_newlines(v@.take(i as int)),
        decreases v.len() - i,
    {
        proof {
            assert(v@.take(i + 1) =~= v@.take(i as int).push(v@[i as int]));
            v@.take(i as int).lemma_filter_push(v@[i as int], |c: char| c != '\n');
        }
        if v[i] != '\n' {
            kept.push(v[i]);
        }
        i = i + 1;
    }
    assert(v@.take(i as int) =~= v@);
    let cleaned = string_from_chars(&kept);
    match base64_decode(cleaned.as_str()) {
        None => None,
        Some(bytes) => utf8_string(bytes),
    }
}

/// One entry of a workflow's `jobs:` mapping, as plain values.
#[derive(Debug, Clone)]
pub struct JobDoc {
    /// The job's key (None when the key is not a string).
    pub key: Option<String>,
    /// The job's `name:` when it is a string.
    pub name: Option<String>,
    /// The job's `needs:`: for a sequence, each entry (None when it is not a
    /// string); for a string, that one entry; otherwise nothing.
    pub needs: Vec<Option<String>>,
    /// For each step (when `steps:` is a sequence), its `run:` command when
    /// that is a string.
    pub run_commands: Vec<Option<String>>,
}

/// A parsed workflow file, as plain values.
#[derive(Debug, Clone)]
pub struct WorkflowDoc {
    /// The workflow's `name:` when it is a string.
    pub name: Option<String>,
    /// The entries of `jobs:` in file order (None when `jobs:` is missing
    /// or not a mapping).
    pub jobs: Option<Vec<JobDoc>>,
}

/// A job's S3 information, as plain values: (id, name, uploads, needs).
pub open spec fn job_info_view(j: JobS3Info) -> (Seq<char>, Seq<char>, Seq<(Seq<char>, Seq<char>)>, Seq<Seq<char>>) {
    (j.job_id@, j.job_name@, uploads_view(j.s3_uploads@), j.needs@.map_values(|s: String| s@))
}

/// The views of a sequence of job infos.
pub open spec fn job_infos_view(v: Seq<JobS3Info>) -> Seq<(Seq<char>, Seq<char>, Seq<(Seq<char>, Seq<char>)>, Seq<Seq<char>>)> {
    v.map_values(|j: JobS3Info| job_info_view(j))
}

/// The present entries of a sequence of optional strings.
pub open spec fn present_strings(v: Seq<Option<String>>) -> Seq<Seq<char>>
    decreases v.len(),
{
    if v.len() == 0 {
        Seq::empty()
    } else {
        let before = present_strings(v.drop_last());
        match v.last() {
            Some(s) => before.push(s@),
            None => before,
        }
    }
}

/// The S3 uploads of a job's run commands, in order, without repeats.
pub open spec fn job_uploads_spec(cmds: Seq<Option<String>>) -> Seq<(Seq<char>, Seq<char>)>
    decreases cmds.len(),
{
    if cmds.len() == 0 {
        Seq::empty()
    } else {
        let before = job_uploads_spec(cmds.drop_last());
        match cmds.last() {
            Some(c) => add_all_unique(before, s3_paths_spec(c@)),
            None => before,
        }
    }
}

/// The S3 information of the jobs with string keys, in file order: display
/// name defaults to the key.
pub open spec fn jobs_info_spec(jobs: Seq<JobDoc>) -> Seq<(Seq<char>, Seq<char>, Seq<(Seq<char>, Seq<char>)>, Seq<Seq<char>>)>
    decreases jobs.len(),
{
    if jobs.len() == 0 {
        Seq::empty()
    } else {
        let before = jobs_info_spec(jobs.drop_last());
        let j = jobs.last();
        match j.key {
            Some(k) => before.push(
                (
                    k@,
                    or_default(ostring(j.name), k@),
                    job_uploads_spec(j.run_commands@),
                    present_strings(j.needs@),
                ),
            ),
            None => before,
        }
    }
}

fn push_all_unique(acc: &mut Vec<S3Upload>, new: Vec<S3Upload>)
    ensures
        uploads_view(final(acc)@) == add_all_unique(uploads_view(old(acc)@), uploads_view(new@)),
{
    let ghost start = uploads_view(acc@);
    let ghost nv = uploads_view(new@);
    let mut i: usize = 0;
    while i < new.len()
        invariant
            nv == uploads_view(new@),
            i <= new.len(),
            uploads_view(acc@) == add_all_unique(start, nv.take(i as int)),
        decreases new.len() - i,
    {
        assert(nv.take(i + 1).drop_last() =~= nv.take(i as int));
        assert(nv.take(i + 1).last() == upload_view(new@[i as int]));
        push_unique_upload(acc, new[i].bucket.clone(), new[i].key.clone());
        i = i + 1;
    }
    assert(nv.take(i as int) =~= nv);
}

fn present_of(v: &Vec<Option<String>>) -> (r: Vec<String>)
    ensures
        r@.map_values(|s: String| s@) == present_strings(v@),
{
    let mut r: Vec<String> = Vec::new();
    let mut i: usize = 0;
    while i < v.len()
        invariant
            i <= v.len(),
            r@.map_values(|s: String| s@) == present_strings(v@.take(i as int)),
        decreases v.len() - i,
    {
        assert(v@.take(i + 1).drop_last() =~= v@.take(i as int));
        assert(v@.take(i + 1).last() == v@[i as int]);
        match &v[i] {
            Some(s) => {
                let ghost before = r@;
                r.push(s.clone());
                assert(r@.map_values(|s: String| s@) =~= before.map_values(|s: String| s@).push(s@));
            },
            None => {},
        }
        i = i + 1;
    }
    assert(v@.take(i as int) =~= v@);
    r
}

/// The S3 uploads and dependencies of each job of a parsed workflow.
pub fn extract_jobs_s3_info(doc: &WorkflowDoc) -> (r: Vec<JobS3Info>)
    ensures
        job_infos_view(r@) == match doc.jobs {
            Some(js) => jobs_info_spec(js@),
            None => Seq::empty(),
        },
{
    let mut result: Vec<JobS3Info> = Vec::new();
    assert(job_infos_view(result@) =~= Seq::empty());
    match &doc.jobs {
        None => result,
        Some(jobs) => {
            let mut i: usize = 0;
            while i < jobs.len()
                invariant
                    i <= jobs.len(),
                    job_infos_view(result@) == jobs_info_spec(jobs@.take(i as int)),
                decreases jobs.len() - i,
            {
                assert(jobs@.take(i + 1).drop_last() =~= jobs@.take(i as int));
                assert(jobs@.take(i + 1).last() == jobs@[i as int]);
                let job = &jobs[i];
                match &job.key {
                    None => {},
                    Some(key) => {
                        let job_name = match &job.name {
                            Some(n) => n.clone(),
                            None => key.clone(),
                        };
                        let needs = present_of(&job.needs);
                        let mut uploads: Vec<S3Upload> = Vec::new();
                        assert(uploads_view(uploads@) =~= Seq::empty());
                        let cmds = &job.run_commands;
                        let mut j: usize = 0;
                        while j < cmds.len()
                            invariant
                                j <= cmds.len(),
                                uploads_view(uploads@) == job_uploads_spec(cmds@.take(j as int)),
                            decreases cmds.len() - j,
                        {
                            assert(cmds@.take(j + 1).drop_last() =~= cmds@.take(j as int));
                            assert(cmds@.take(j + 1).last() == cmds@[j as int]);
                            match &cmds[j] {
                                Some(c) => {
                                    let found = extract_s3_paths(c.as_str());
                                    push_all_unique(&mut uploads, found);
                                },
                                None => {},
                            }
                            j = j + 1;
                        }
                        assert(cmds@.take(j as int) =~= cmds@);
                        let info = JobS3Info {
                            job_id: key.clone(),
                            job_name,
                            s3_uploads: uploads,
                            needs,
                        };
                        let ghost before = job_infos_view(result@);
                        result.push(info);
                        assert(job_infos_view(result@) =~= before.push(job_info_view(info)));
                    },
                }
                i = i + 1;
            }
            assert(jobs@.take(i as int) =~= jobs@);
            result
        },
    }
}

/// The workflow file described by a parsed workflow: its `name:` (or the
/// file name), the S3 uploads of the whole text, and the per-job
/// information.
pub fn workflow_file_from_doc(filename: &str, content: &str, doc: &WorkflowDoc) -> (r: WorkflowFile)
    ensures
        r.name@ == or_default(ostring(doc.name), filename@),
        uploads_view(r.s3_uploads@) == s3_paths_spec(content@),
        job_infos_view(r.jobs@) == match doc.jobs {
            Some(js) => jobs_info_spec(js@),
            None => Seq::empty(),
        },
{
    let name = match &doc.name {
        Some(n) => n.clone(),
        None => owned(filename),
    };
    WorkflowFile { name, s3_uploads: extract_s3_paths(content), jobs: extract_jobs_s3_info(doc) }
}

/// A listed file is a workflow file: its name ends in `.yml` or `.yaml`.
pub fn is_workflow_file_name(name: &str) -> (r: bool)
    ensures
        r == (".yml"@.is_suffix_of(name@) || ".yaml"@.is_suffix_of(name@)),
{
    str_ends_with(name, ".yml") || str_ends_with(name, ".yaml")
}

/// The part of `path` after its last `/` (the whole path without one).
pub open spec fn last_segment(path: Seq<char>) -> Seq<char>
    decreases path.len(),
{
    if path.len() == 0 {
        path
    } else if path.last() == '/' {
        Seq::empty()
    } else {
        last_segment(path.drop_last()).push(path.last())
    }
}

/// The file name of a repository path: the part after its last `/`.
pub fn file_name_of(path: &str) -> (r: String)
    ensures
        r@ == last_segment(path@),
{
    let v = chars_of(path);
    let mut start: usize = v.len();
    assert(v@.take(start as int) =~= v@);
    assert(v@ + v@.subrange(start as int, v@.len() as int) =~= v@);
    while start > 0 && v[start - 1] != '/'
        invariant
            start <= v@.len(),
            last_segment(v@) == last_segment(v@.take(start as int)) + v@.subrange(start as int, v@.len() as int),
        decreases start,
    {
        let ghost pre = v@.take(start as int);
        assert(pre.drop_last() =~= v@.take(start - 1));
        assert(last_segment(pre) == last_segment(v@.take(start - 1)).push(v@[start - 1]));
        assert(last_segment(v@.take(start - 1)).push(v@[start - 1]) + v@.subrange(start as int, v@.len() as int)
            =~= last_segment(v@.take(start - 1)) + v@.subrange(start - 1, v@.len() as int));
        start = start - 1;
    }
    if start > 0 {
        assert(last_segment(v@.take(start as int)) =~= Seq::<char>::empty());
    } else {
        assert(v@.take(0) =~= Seq::<char>::empty());
    }
    let mut out: Vec<char> = Vec::new();
    let mut i = start;
    while i < v.len()
        invariant
            start <= i <= v@.len(),
            out@ == v@.subrange(start as int, i as int),
        decreases v.len() - i,
    {
        out.push(v[i]);
        i = i + 1;
        assert(out@ =~= v@.subrange(start as int, i as int));
    }
    assert(last_segment(v@) =~= v@.subrange(start as int, v@.len() as int));
    string_from_chars(&out)
}

/// What `serde_yaml::from_str::<serde_yaml::Value>` makes of a workflow
/// file's text, read down to the fields the library looks at (None when the
/// text is not YAML).
pub uninterp spec fn spec_workflow_doc(content: Seq<char>) -> Option<WorkflowDoc>;

/// `serde_yaml::from_str` into a `serde_yaml::Value`, then its `name:` and
/// the key, `name:`, `needs:` entries and step `run:` commands of each entry
/// of `jobs:`, each a string or else absent.  The claim is only that the
/// result is a function of the text, named [`spec_workflow_doc`]; YAML is
/// not written out.
#[verifier::external_body]
fn parse_workflow_doc(content: &str) -> (r: Option<WorkflowDoc>)
    ensures
        r == spec_workflow_doc(content@),
{
    let s = |x: &Value| x.as_str().map(String::from);
    serde_yaml::from_str(content).ok().map(|v: Value| WorkflowDoc {
        name: s(&v["name"]),
        jobs: v["jobs"].as_mapping().map(|m| m.iter().map(|(k, j)| JobDoc {
            key: s(k),
            name: s(&j["name"]),
            needs: match &j["needs"] {
                Sequence(q) => q.iter().map(s).collect(),
                n @ YamlString(_) => vec![s(n)],
                _ => vec![],
            },
            run_commands: j["steps"].as_sequence().into_iter().flatten().map(|t| s(&t["run"])).collect(),
        }).collect()),
    })
}

/// Parses a workflow file: its name (its `name:`, else `filename`), the S3
/// uploads of its whole text, and each job's uploads and dependencies.
/// None when the text is not YAML.
pub fn parse_workflow_yaml(filename: &str, content: &str) -> (r: Option<WorkflowFile>)
    ensures
        match spec_workflow_doc(content@) {
            None => r is None,
            Some(doc) => match r {
                Some(wf) => {
                    &&& wf.name@ == or_default(ostring(doc.name), filename@)
                    &&& uploads_view(wf.s3_uploads@) == s3_paths_spec(content@)
                    &&& job_infos_view(wf.jobs@) == match doc.jobs {
                        Some(js) => jobs_info_spec(js@),
                        None => Seq::empty(),
                    }
                },
                None => false,
            },
        },
{
    match parse_workflow_doc(content) {
        Some(doc) => Some(workflow_file_from_doc(filename, content, &doc)),
        None => None,
    }
}

/// The workflow file read from `path`, kept for link discovery only when
/// it is YAML and uploads to S3: named by its `name:` or else by its file
/// name.
pub fn discovered_workflow_file(path: &str, content: &str) -> (r: Option<WorkflowFile>)
    ensures
        match spec_workflow_doc(content@) {
            None => r is None,
            Some(doc) => match r {
                Some(wf) => {
                    &&& wf.name@ == or_default(ostring(doc.name), last_segment(path@))
                    &&& uploads_view(wf.s3_uploads@) == s3_paths_spec(content@)
                    &&& s3_paths_spec(content@).len() > 0
                    &&& job_infos_view(wf.jobs@) == match doc.jobs {
                        Some(js) => jobs_info_spec(js@),
                        None => Seq::empty(),
                    }
                },
                None => s3_paths_spec(content@).len() == 0,
            },
        },
{
    let file_name = file_name_of(path);
    match parse_workflow_yaml(file_name.as_str(), content) {
        Some(wf) => if wf.s3_uploads.len() > 0 {
            Some(wf)
        } else {
            None
        },
        None => None,
    }
}

} // verus!
