pub mod assign;
pub mod job_order;

use vstd::prelude::*;

use std::collections::HashSet;

use crate::clock::{elapsed_between, elapsed_ms, now_millis};
use crate::app::App;
use crate::model::{set_status_spec, Bar, BuildStatus, PipelineGroup, WorkflowGroup};
use crate::poller::{
    PipelineDefinition, S3Source, S3Upload, WorkflowFile, clone_bar, empty_pgroup, empty_wgroup, find_wgroup, find_wgroup_from, pgroup_view, pgroups_view,
    wgroup_view, wgroups_view, PipelineGroupView, WorkflowGroupView,
};
use crate::text::{chars_eq, chars_of, chars_start_with, owned, str_eq};



verus! {

/// Correlation window: a pipeline must start within this many milliseconds
/// of a workflow completion to be linked to it at run time.
pub const CORRELATION_WINDOW_MS: u64 = 30000;

/// At most this many recent completions are remembered.
pub const MAX_RECENT_COMPLETIONS: usize = 500;

/// The schema version written into link caches.
pub const LINK_CACHE_SCHEMA_VERSION: u32 = 2;

/// How a link between a workflow and a pipeline was found.
#[derive(Debug, Clone, Copy, PartialEq, Eq, Structural)]
pub enum LinkSource {
    YamlDiscovered,
    RuntimeCorrelated,
}

/// How a cached link was found.
#[derive(Debug, Clone, Copy, PartialEq, Eq, Structural)]
pub enum CachedLinkSource {
    YamlDiscovered,
    RuntimeCorrelated,
}

/// A link from a GitHub workflow to the CodePipeline that its S3 upload
/// feeds.
#[derive(Debug, Clone)]
pub struct PipelineLink {
    pub pipeline_name: String,
    pub workflow_name: String,
    pub s3_bucket: String,
    pub s3_key: String,
    pub source: LinkSource,
    /// Job ids that directly upload to this pipeline's S3 source.
    pub job_ids: Vec<String>,
    /// Upstream dependency job ids (via the `needs:` chain).
    pub dep_job_ids: Vec<String>,
}

/// A link as written to the link cache.
#[derive(Debug, Clone)]
pub struct CachedLink {
    pub pipeline_name: String,
    pub workflow_name: String,
    pub s3_bucket: String,
    pub s3_key: String,
    pub source: CachedLinkSource,
    pub job_ids: Vec<String>,
    pub dep_job_ids: Vec<String>,
}

/// The jobs of linked workflows, split by pipeline.
#[derive(Debug, Clone)]
pub struct JobAssignment {
    /// Jobs that belong to exactly one pipeline: (pipeline name,
    /// (workflow name, job display names in dependency order)).
    pub pipeline_jobs: Vec<(String, (String, Vec<String>))>,
    /// Jobs shared by several pipelines or by none: (workflow name, job
    /// display names in dependency order).
    pub shared_jobs: Vec<(String, Vec<String>)>,
}

/// A link cache of this schema version can be read (versions 1 and 2;
/// version 1 has no job ids and no assignment).
pub fn cache_schema_supported(version: u32) -> (r: bool)
    ensures
        r == (version == 1 || version == 2),
{
    version == 1 || version == 2
}

/// The link cache file's contents.
#[derive(Debug, Clone)]
pub struct LinkCache {
    pub schema_version: u32,
    pub discovered_at: String,
    pub links: Vec<CachedLink>,
    pub job_assignment: Option<JobAssignment>,
}

/// A link, as plain values.
pub struct LinkView {
    pub pipeline: Seq<char>,
    pub workflow: Seq<char>,
    pub bucket: Seq<char>,
    pub key: Seq<char>,
    pub source: LinkSource,
    pub job_ids: Seq<Seq<char>>,
    pub dep_job_ids: Seq<Seq<char>>,
}

/// The characters of each string.
pub open spec fn strings_view(v: Seq<String>) -> Seq<Seq<char>> {
    v.map_values(|s: String| s@)
}

impl View for PipelineLink {
    type V = LinkView;

    open spec fn view(&self) -> LinkView {
        LinkView {
            pipeline: self.pipeline_name@,
            workflow: self.workflow_name@,
            bucket: self.s3_bucket@,
            key: self.s3_key@,
            source: self.source,
            job_ids: strings_view(self.job_ids@),
            dep_job_ids: strings_view(self.dep_job_ids@),
        }
    }
}

/// The link source that a cached source stands for.
pub open spec fn source_from_cached(s: CachedLinkSource) -> LinkSource {
    match s {
        CachedLinkSource::YamlDiscovered => LinkSource::YamlDiscovered,
        CachedLinkSource::RuntimeCorrelated => LinkSource::RuntimeCorrelated,
    }
}

impl View for CachedLink {
    type V = LinkView;

    open spec fn view(&self) -> LinkView {
        LinkView {
            pipeline: self.pipeline_name@,
            workflow: self.workflow_name@,
            bucket: self.s3_bucket@,
            key: self.s3_key@,
            source: source_from_cached(self.source),
            job_ids: strings_view(self.job_ids@),
            dep_job_ids: strings_view(self.dep_job_ids@),
        }
    }
}

/// The views of a sequence of links.
pub open spec fn links_view(v: Seq<PipelineLink>) -> Seq<LinkView> {
    v.map_values(|l: PipelineLink| l@)
}

/// The views of a sequence of cached links.
pub open spec fn cached_links_view(v: Seq<CachedLink>) -> Seq<LinkView> {
    v.map_values(|l: CachedLink| l@)
}

/// A remembered workflow completion: its name and when it was recorded.
pub open spec fn completion_view(c: (String, u64)) -> (Seq<char>, u64) {
    (c.0@, c.1)
}

/// The views of a sequence of completions.
pub open spec fn completions_view(v: Seq<(String, u64)>) -> Seq<(Seq<char>, u64)> {
    v.map_values(|c: (String, u64)| completion_view(c))
}

/// A completion recorded at `at` is still inside the correlation window
/// at `now`.
pub open spec fn is_live(at: u64, now: u64) -> bool {
    elapsed_ms(at, now) < CORRELATION_WINDOW_MS
}

/// The completions still inside the correlation window at `now`, in order.
pub open spec fn live_completions(cs: Seq<(Seq<char>, u64)>, now: u64) -> Seq<(Seq<char>, u64)> {
    cs.filter(|c: (Seq<char>, u64)| is_live(c.1, now))
}

/// Some completion of `cs` is of workflow `name`.
pub open spec fn has_completion_named(cs: Seq<(Seq<char>, u64)>, name: Seq<char>) -> bool {
    exists|i: int| 0 <= i < cs.len() && cs[i].0 == name
}

/// Some completion of workflow `name` in `cs` is inside the correlation
/// window at `now`.
pub open spec fn has_live_completion(cs: Seq<(Seq<char>, u64)>, name: Seq<char>, now: u64) -> bool {
    exists|i: int| 0 <= i < cs.len() && cs[i].0 == name && is_live(cs[i].1, now)
}

/// The first link at or after `start` whose pipeline is `name`.
pub open spec fn find_pipeline_from(links: Seq<LinkView>, name: Seq<char>, start: int) -> Option<int>
    decreases links.len() - start,
{
    if start < 0 || start >= links.len() {
        None
    } else if links[start].pipeline == name {
        Some(start)
    } else {
        find_pipeline_from(links, name, start + 1)
    }
}

/// A found link lies at or after the start and inside the sequence, and
/// names the pipeline.
pub proof fn lemma_find_pipeline_from_found(links: Seq<LinkView>, name: Seq<char>, start: int)
    ensures
        match find_pipeline_from(links, name, start) {
            Some(i) => start <= i < links.len() && links[i].pipeline == name,
            None => true,
        },
    decreases links.len() - start,
{
    if start < 0 || start >= links.len() {
    } else if links[start].pipeline == name {
    } else {
        lemma_find_pipeline_from_found(links, name, start + 1);
    }
}

/// The first link whose pipeline is `name`.
pub open spec fn find_pipeline(links: Seq<LinkView>, name: Seq<char>) -> Option<int> {
    find_pipeline_from(links, name, 0)
}

/// The workflow linked to pipeline `name` (by the first link naming it).
pub open spec fn workflow_of(links: Seq<LinkView>, name: Seq<char>) -> Option<Seq<char>> {
    match find_pipeline(links, name) {
        Some(i) => Some(links[i].workflow),
        None => None,
    }
}

/// Some link joins `pipeline` and `workflow`.
pub open spec fn has_link_pair(links: Seq<LinkView>, pipeline: Seq<char>, workflow: Seq<char>) -> bool {
    exists|i: int| 0 <= i < links.len() && links[i].pipeline == pipeline && links[i].workflow == workflow
}

/// A link with no bucket, key or jobs, of the given source.
pub open spec fn bare_link(
    pipeline: Seq<char>,
    workflow: Seq<char>,
    bucket: Seq<char>,
    key: Seq<char>,
    source: LinkSource,
) -> LinkView {
    LinkView {
        pipeline,
        workflow,
        bucket,
        key,
        source,
        job_ids: Seq::empty(),
        dep_job_ids: Seq::empty(),
    }
}

/// The link map, as plain values.
#[verifier::ext_equal]
pub struct LinkMapView {
    pub links: Seq<LinkView>,
    pub completions: Seq<(Seq<char>, u64)>,
    pub recorded_run_ids: Set<u64>,
}

/// The links between workflows and pipelines, with the recent workflow
/// completions that drive run-time correlation.
pub struct LinkMap {
    links: Vec<PipelineLink>,
    recent_completions: Vec<(String, u64)>,
    recorded_run_ids: HashSet<u64>,
}

impl View for LinkMap {
    type V = LinkMapView;

    closed spec fn view(&self) -> LinkMapView {
        LinkMapView {
            links: links_view(self.links@),
            completions: completions_view(self.recent_completions@),
            recorded_run_ids: self.recorded_run_ids@,
        }
    }
}

/// The completions that recording `name` at `now` leaves: the live ones,
/// `name` appended unless already there, the oldest dropped beyond the cap.
pub open spec fn record_spec(cs: Seq<(Seq<char>, u64)>, name: Seq<char>, now: u64) -> Seq<(Seq<char>, u64)> {
    let pruned = live_completions(cs, now);
    let added = if has_completion_named(pruned, name) {
        pruned
    } else {
        pruned.push((name, now))
    };
    if added.len() > MAX_RECENT_COMPLETIONS {
        added.subrange(added.len() - MAX_RECENT_COMPLETIONS, added.len() as int)
    } else {
        added
    }
}

/// What correlating pipeline `pipeline` at `now` makes of the link map,
/// and the workflow it reports.  The completions that left the window are
/// dropped.  A pipeline that already has a link is confirmed when its
/// workflow completed recently; one without a link is linked to the most
/// recent completion, if there is one.
pub open spec fn correlate_spec(m: LinkMapView, pipeline: Seq<char>, now: u64) -> (LinkMapView, Option<Seq<char>>) {
    let pruned = live_completions(m.completions, now);
    let kept = LinkMapView { completions: pruned, ..m };
    match find_pipeline(m.links, pipeline) {
        Some(i) => (
            kept,
            if has_completion_named(pruned, m.links[i].workflow) {
                Some(m.links[i].workflow)
            } else {
                None
            },
        ),
        None => if pruned.len() > 0 {
            (
                LinkMapView {
                    links: m.links.push(
                        bare_link(
                            pipeline,
                            pruned.last().0,
                            Seq::empty(),
                            Seq::empty(),
                            LinkSource::RuntimeCorrelated,
                        ),
                    ),
                    ..kept
                },
                Some(pruned.last().0),
            )
        } else {
            (kept, None)
        },
    }
}

/// Correlating `pipeline` at `now` took the link map from `before` to
/// `after` and reported `r`.
pub open spec fn correlated(
    before: LinkMapView,
    after: LinkMapView,
    pipeline: Seq<char>,
    r: Option<Seq<char>>,
    now: u64,
) -> bool {
    after == correlate_spec(before, pipeline, now).0 && r == correlate_spec(before, pipeline, now).1
}

/// A discovered link: (pipeline, workflow, bucket, key).
pub type LinkCandidate = (Seq<char>, Seq<char>, Seq<char>, Seq<char>);

/// The links after adding a discovered link, unless its pipeline and
/// workflow are already linked.
pub open spec fn add_link_spec(links: Seq<LinkView>, c: LinkCandidate) -> Seq<LinkView> {
    if has_link_pair(links, c.0, c.1) {
        links
    } else {
        links.push(bare_link(c.0, c.1, c.2, c.3, LinkSource::YamlDiscovered))
    }
}

/// The links after adding each candidate in turn.
pub open spec fn add_links_spec(links: Seq<LinkView>, cs: Seq<LinkCandidate>) -> Seq<LinkView>
    decreases cs.len(),
{
    if cs.len() == 0 {
        links
    } else {
        add_link_spec(add_links_spec(links, cs.drop_last()), cs.last())
    }
}

/// Adding two runs of candidates is adding the first, then the second.
pub proof fn lemma_add_links_append(links: Seq<LinkView>, a: Seq<LinkCandidate>, b: Seq<LinkCandidate>)
    ensures
        add_links_spec(links, a + b) == add_links_spec(add_links_spec(links, a), b),
    decreases b.len(),
{
    if b.len() == 0 {
        assert(a + b =~= a);
    } else {
        assert((a + b).drop_last() =~= a + b.drop_last());
        lemma_add_links_append(links, a, b.drop_last());
    }
}

/// The characters of an optional string.
pub open spec fn opt_string_view(o: Option<String>) -> Option<Seq<char>> {
    match o {
        Some(s) => Some(s@),
        None => None,
    }
}

/// A copy of each string.
pub fn clone_strings(v: &Vec<String>) -> (r: Vec<String>)
    ensures
        r@ == v@,
        strings_view(r@) == strings_view(v@),
{
    let mut r: Vec<String> = Vec::new();
    let mut i: usize = 0;
    while i < v.len()
        invariant
            i <= v.len(),
            r@ == v@.subrange(0, i as int),
        decreases v.len() - i,
    {
        r.push(v[i].clone());
        i = i + 1;
        assert(r@ =~= v@.subrange(0, i as int));
    }
    assert(r@ =~= v@);
    r
}

impl LinkMap {
    /// An empty link map.
    pub fn new() -> (m: Self)
        ensures
            m@.links == Seq::<LinkView>::empty(),
            m@.completions == Seq::<(Seq<char>, u64)>::empty(),
            m@.recorded_run_ids == Set::<u64>::empty(),
    {
        let m = LinkMap { links: Vec::new(), recent_completions: Vec::new(), recorded_run_ids: HashSet::new() };
        assert(m@.links =~= Seq::<LinkView>::empty());
        assert(m@.completions =~= Seq::<(Seq<char>, u64)>::empty());
        m
    }

    /// Index of the first link of pipeline `name`.
    fn pipeline_position(&self, name: &str) -> (r: Option<usize>)
        ensures
            match r {
                Some(i) => find_pipeline(self@.links, name@) == Some(i as int) && i
                    < self.links.len() && self@.links[i as int].pipeline == name@,
                None => find_pipeline(self@.links, name@) is None,
            },
    {
        let ghost links = self@.links;
        let target = chars_of(name);
        let mut i: usize = 0;
        while i < self.links.len()
            invariant
                links == self@.links,
                links == links_view(self.links@),
                target@ == name@,
                i <= self.links.len(),
                find_pipeline_from(links, name@, 0) == find_pipeline_from(links, name@, i as int),
            decreases self.links.len() - i,
        {
            let p = chars_of(self.links[i].pipeline_name.as_str());
            assert(links[i as int].pipeline == self.links@[i as int].pipeline_name@);
            if chars_eq(&p, &target) {
                assert(find_pipeline_from(links, name@, i as int) == Some(i as int));
                return Some(i);
            }
            assert(find_pipeline_from(links, name@, i as int) == find_pipeline_from(
                links,
                name@,
                i + 1,
            ));
            i = i + 1;
        }
        assert(find_pipeline_from(links, name@, i as int) is None);
        None
    }

    /// Adds a link found in the workflow files, unless the same pipeline
    /// and workflow are already linked.
    pub fn add_discovered(&mut self, pipeline: String, workflow: String, bucket: String, key: String)
        ensures
            final(self)@.links == add_link_spec(old(self)@.links, (pipeline@, workflow@, bucket@, key@)),
            final(self)@.completions == old(self)@.completions,
            final(self)@.recorded_run_ids == old(self)@.recorded_run_ids,
    {
        let ghost links = self@.links;
        let pv = chars_of(pipeline.as_str());
        let wv = chars_of(workflow.as_str());
        let mut i: usize = 0;
        while i < self.links.len()
            invariant
                links == self@.links,
                links == links_view(self.links@),
                pv@ == pipeline@,
                wv@ == workflow@,
                i <= self.links.len(),
                forall|k: int|
                    0 <= k < i ==> !(links[k].pipeline == pipeline@ && links[k].workflow
                        == workflow@),
            decreases self.links.len() - i,
        {
            let lp = chars_of(self.links[i].pipeline_name.as_str());
            let lw = chars_of(self.links[i].workflow_name.as_str());
            assert(links[i as int] == self.links@[i as int]@);
            if chars_eq(&lp, &pv) && chars_eq(&lw, &wv) {
                assert(has_link_pair(links, pipeline@, workflow@));
                return;
            }
            i = i + 1;
        }
        let link = PipelineLink {
            pipeline_name: pipeline,
            workflow_name: workflow,
            s3_bucket: bucket,
            s3_key: key,
            source: LinkSource::YamlDiscovered,
            job_ids: Vec::new(),
            dep_job_ids: Vec::new(),
        };
        assert(strings_view(link.job_ids@) =~= Seq::<Seq<char>>::empty());
        self.links.push(link);
        assert(self@.links =~= links.push(
            bare_link(pipeline@, workflow@, bucket@, key@, LinkSource::YamlDiscovered),
        ));
    }

    /// The workflow linked to pipeline `pipeline_name`.
    pub fn workflow_for_pipeline(&self, pipeline_name: &str) -> (r: Option<&str>)
        ensures
            match r {
                Some(w) => workflow_of(self@.links, pipeline_name@) == Some(w@),
                None => workflow_of(self@.links, pipeline_name@) is None,
            },
    {
        match self.pipeline_position(pipeline_name) {
            Some(i) => Some(self.links[i].workflow_name.as_str()),
            None => None,
        }
    }

    /// Drops the completions that left the correlation window at `now`.
    fn prune_expired_at(&mut self, now: u64)
        ensures
            final(self)@.completions == live_completions(old(self)@.completions, now),
            final(self)@.links == old(self)@.links,
            final(self)@.recorded_run_ids == old(self)@.recorded_run_ids,
    {
        let ghost cs = self@.completions;
        let mut kept: Vec<(String, u64)> = Vec::new();
        let mut i: usize = 0;
        while i < self.recent_completions.len()
            invariant
                cs == completions_view(self.recent_completions@),
                i <= self.recent_completions.len(),
                completions_view(kept@) == live_completions(cs.take(i as int), now),
            decreases self.recent_completions.len() - i,
        {
            let ghost before = kept@;
            let entry = &self.recent_completions[i];
            proof {
                assert(cs.take(i + 1) =~= cs.take(i as int).push(cs[i as int]));
                cs.take(i as int).lemma_filter_push(
                    cs[i as int],
                    |c: (Seq<char>, u64)| is_live(c.1, now),
                );
            }
            if elapsed_between(entry.1, now) < CORRELATION_WINDOW_MS {
                kept.push((entry.0.clone(), entry.1));
                assert(completions_view(kept@) =~= completions_view(before).push(cs[i as int]));
            }
            i = i + 1;
        }
        assert(cs.take(i as int) =~= cs);
        self.recent_completions = kept;
    }

    /// Some remembered completion is of workflow `name`.
    fn has_completion(&self, name: &Vec<char>) -> (r: bool)
        ensures
            r == has_completion_named(self@.completions, name@),
    {
        let ghost cs = self@.completions;
        let mut i: usize = 0;
        while i < self.recent_completions.len()
            invariant
                cs == completions_view(self.recent_completions@),
                i <= self.recent_completions.len(),
                forall|k: int| 0 <= k < i ==> cs[k].0 != name@,
            decreases self.recent_completions.len() - i,
        {
            let n = chars_of(self.recent_completions[i].0.as_str());
            if chars_eq(&n, name) {
                assert(cs[i as int].0 == name@);
                return true;
            }
            i = i + 1;
        }
        false
    }

    /// Records, at time `now`, that workflow `workflow_name` completed.
    pub fn record_workflow_completion_at(&mut self, workflow_name: &str, now: u64)
        ensures
            final(self)@.completions == record_spec(old(self)@.completions, workflow_name@, now),
            final(self)@.links == old(self)@.links,
            final(self)@.recorded_run_ids == old(self)@.recorded_run_ids,
    {
        self.prune_expired_at(now);
        let name = chars_of(workflow_name);
        let already = self.has_completion(&name);
        if !already {
            let ghost before = self@.completions;
            self.recent_completions.push((owned(workflow_name), now));
            assert(self@.completions =~= before.push((workflow_name@, now)));
        }
        let len = self.recent_completions.len();
        if len > MAX_RECENT_COMPLETIONS {
            let ghost before = self@.completions;
            let tail = self.recent_completions.split_off(len - MAX_RECENT_COMPLETIONS);
            self.recent_completions = tail;
            assert(self@.completions =~= before.subrange(
                before.len() - MAX_RECENT_COMPLETIONS,
                before.len() as int,
            ));
        }
    }

    /// Records that workflow `workflow_name` completed just now.
    pub fn record_workflow_completion(&mut self, workflow_name: &str)
        ensures
            exists|now: u64|
                final(self)@.completions == record_spec(old(self)@.completions, workflow_name@, now),
            final(self)@.links == old(self)@.links,
    {
        let now = now_millis();
        self.record_workflow_completion_at(workflow_name, now);
    }

    /// Some completion of workflow `workflow_name` lies inside the
    /// correlation window at `now`.
    pub fn has_recent_completion_at(&self, workflow_name: &str, now: u64) -> (r: bool)
        ensures
            r == has_live_completion(self@.completions, workflow_name@, now),
    {
        let ghost cs = self@.completions;
        let name = chars_of(workflow_name);
        let mut i: usize = 0;
        while i < self.recent_completions.len()
            invariant
                cs == completions_view(self.recent_completions@),
                name@ == workflow_name@,
                i <= self.recent_completions.len(),
                forall|k: int| 0 <= k < i ==> !(cs[k].0 == workflow_name@ && is_live(cs[k].1, now)),
            decreases self.recent_completions.len() - i,
        {
            let n = chars_of(self.recent_completions[i].0.as_str());
            if chars_eq(&n, &name) && elapsed_between(self.recent_completions[i].1, now)
                < CORRELATION_WINDOW_MS {
                assert(cs[i as int].0 == workflow_name@);
                return true;
            }
            i = i + 1;
        }
        false
    }

    /// Some completion of workflow `workflow_name` lies inside the
    /// correlation window now.
    pub fn has_recent_completion(&self, workflow_name: &str) -> (r: bool)
        ensures
            exists|now: u64| r == has_live_completion(self@.completions, workflow_name@, now),
    {
        let now = now_millis();
        self.has_recent_completion_at(workflow_name, now)
    }

    /// Tries, at time `now`, to link a pipeline that just started to a
    /// recently completed workflow.  A pipeline that already has a link is
    /// confirmed when its workflow completed recently; one without a link is
    /// linked to the most recent completion.
    pub fn try_correlate_at(&mut self, pipeline_name: &str, now: u64) -> (r: Option<String>)
        ensures
            final(self)@ == correlate_spec(old(self)@, pipeline_name@, now).0,
            opt_string_view(r) == correlate_spec(old(self)@, pipeline_name@, now).1,
    {
        self.prune_expired_at(now);
        match self.pipeline_position(pipeline_name) {
            Some(i) => {
                let wf = chars_of(self.links[i].workflow_name.as_str());
                if self.has_completion(&wf) {
                    Some(self.links[i].workflow_name.clone())
                } else {
                    None
                }
            },
            None => {
                let n = self.recent_completions.len();
                if n > 0 {
                    let ghost before = self@.links;
                    let wf_name = self.recent_completions[n - 1].0.clone();
                    let link = PipelineLink {
                        pipeline_name: owned(pipeline_name),
                        workflow_name: wf_name.clone(),
                        s3_bucket: String::new(),
                        s3_key: String::new(),
                        source: LinkSource::RuntimeCorrelated,
                        job_ids: Vec::new(),
                        dep_job_ids: Vec::new(),
                    };
                    assert(strings_view(link.job_ids@) =~= Seq::<Seq<char>>::empty());
                    self.links.push(link);
                    assert(self@.links =~= before.push(
                        bare_link(
                            pipeline_name@,
                            wf_name@,
                            Seq::empty(),
                            Seq::empty(),
                            LinkSource::RuntimeCorrelated,
                        ),
                    ));
                    Some(wf_name)
                } else {
                    None
                }
            },
        }
    }

    /// Tries to link a pipeline that just started to a recently completed
    /// workflow, timed now.
    pub fn try_correlate(&mut self, pipeline_name: &str) -> (r: Option<String>)
        ensures
            exists|now: u64| #[trigger] correlated(old(self)@, final(self)@, pipeline_name@, opt_string_view(r), now),
    {
        let ghost before = self@;
        let now = now_millis();
        let r = self.try_correlate_at(pipeline_name, now);
        assert(correlated(before, self@, pipeline_name@, opt_string_view(r), now));
        r
    }

    /// The remembered workflow completions: name and time recorded, oldest
    /// first.
    pub fn recent_completions(&self) -> (r: &[(String, u64)])
        ensures
            completions_view(r@) == self@.completions,
    {
        self.recent_completions.as_slice()
    }

    /// All current links.
    pub fn links(&self) -> (r: &[PipelineLink])
        ensures
            links_view(r@) == self@.links,
    {
        self.links.as_slice()
    }

    /// Replaces the links by those of a loaded cache.
    pub fn load_from_cache(&mut self, cache: LinkCache)
        ensures
            final(self)@.links == cached_links_view(cache.links@),
            final(self)@.completions == old(self)@.completions,
            final(self)@.recorded_run_ids == old(self)@.recorded_run_ids,
    {
        let mut links: Vec<PipelineLink> = Vec::new();
        let cached = cache.links;
        let ghost cv = cached_links_view(cached@);
        let mut i: usize = 0;
        while i < cached.len()
            invariant
                cv == cached_links_view(cached@),
                i <= cached.len(),
                links_view(links@) == cv.take(i as int),
            decreases cached.len() - i,
        {
            let cl = &cached[i];
            let source = match cl.source {
                CachedLinkSource::YamlDiscovered => LinkSource::YamlDiscovered,
                CachedLinkSource::RuntimeCorrelated => LinkSource::RuntimeCorrelated,
            };
            let link = PipelineLink {
                pipeline_name: cl.pipeline_name.clone(),
                workflow_name: cl.workflow_name.clone(),
                s3_bucket: cl.s3_bucket.clone(),
                s3_key: cl.s3_key.clone(),
                source,
                job_ids: clone_strings(&cl.job_ids),
                dep_job_ids: clone_strings(&cl.dep_job_ids),
            };
            let ghost before = links@;
            links.push(link);
            assert(links_view(links@) =~= links_view(before).push(cv[i as int]));
            assert(cv.take(i + 1) =~= cv.take(i as int).push(cv[i as int]));
            i = i + 1;
        }
        assert(cv.take(i as int) =~= cv);
        self.links = links;
    }

    /// The cache that holds the current links.
    pub fn to_cache(&self, discovered_at: &str, job_assignment: Option<JobAssignment>) -> (c: LinkCache)
        ensures
            c.schema_version == LINK_CACHE_SCHEMA_VERSION,
            c.discovered_at@ == discovered_at@,
            cached_links_view(c.links@) == self@.links,
            c.job_assignment == job_assignment,
    {
        let ghost lv = self@.links;
        let mut links: Vec<CachedLink> = Vec::new();
        let mut i: usize = 0;
        while i < self.links.len()
            invariant
                lv == links_view(self.links@),
                i <= self.links.len(),
                cached_links_view(links@) == lv.take(i as int),
            decreases self.links.len() - i,
        {
            let l = &self.links[i];
            let source = match l.source {
                LinkSource::YamlDiscovered => CachedLinkSource::YamlDiscovered,
                LinkSource::RuntimeCorrelated => CachedLinkSource::RuntimeCorrelated,
            };
            let cl = CachedLink {
                pipeline_name: l.pipeline_name.clone(),
                workflow_name: l.workflow_name.clone(),
                s3_bucket: l.s3_bucket.clone(),
                s3_key: l.s3_key.clone(),
                source,
                job_ids: clone_strings(&l.job_ids),
                dep_job_ids: clone_strings(&l.dep_job_ids),
            };
            let ghost before = links@;
            links.push(cl);
            assert(cached_links_view(links@) =~= cached_links_view(before).push(lv[i as int]));
            assert(lv.take(i + 1) =~= lv.take(i as int).push(lv[i as int]));
            i = i + 1;
        }
        assert(lv.take(i as int) =~= lv);
        LinkCache {
            schema_version: LINK_CACHE_SCHEMA_VERSION,
            discovered_at: owned(discovered_at),
            links,
            job_assignment,
        }
    }

    /// Removes all links and recent completions (before re-discovery).
    pub fn clear(&mut self)
        ensures
            final(self)@.links == Seq::<LinkView>::empty(),
            final(self)@.completions == Seq::<(Seq<char>, u64)>::empty(),
            final(self)@.recorded_run_ids == old(self)@.recorded_run_ids,
    {
        self.links.clear();
        self.recent_completions.clear();
        assert(self@.links =~= Seq::<LinkView>::empty());
        assert(self@.completions =~= Seq::<(Seq<char>, u64)>::empty());
    }

    /// The run `run_id` has already been recorded as completed.
    pub fn run_recorded(&self, run_id: u64) -> (r: bool)
        ensures
            r == self@.recorded_run_ids.contains(run_id),
    {
        broadcast use vstd::std_specs::hash::group_hash_axioms;

        self.recorded_run_ids.contains(&run_id)
    }

    /// Remembers that the run `run_id` has been recorded as completed.
    pub fn mark_run_recorded(&mut self, run_id: u64)
        ensures
            final(self)@.recorded_run_ids == old(self)@.recorded_run_ids.insert(run_id),
            final(self)@.links == old(self)@.links,
            final(self)@.completions == old(self)@.completions,
    {
        broadcast use vstd::std_specs::hash::group_hash_axioms;

        self.recorded_run_ids.insert(run_id);
    }
}

/// `s` without its leading slashes.
pub open spec fn strip_leading_slashes(s: Seq<char>) -> Seq<char>
    decreases s.len(),
{
    if s.len() > 0 && s[0] == '/' {
        strip_leading_slashes(s.drop_first())
    } else {
        s
    }
}

/// An S3 key of a pipeline source and one of a workflow upload designate
/// the same artifact: after dropping leading slashes both are non-empty
/// and one is a prefix of the other (or they are equal).
pub open spec fn s3_keys_match_spec(cp_key: Seq<char>, gh_key: Seq<char>) -> bool {
    let cp = strip_leading_slashes(cp_key);
    let gh = strip_leading_slashes(gh_key);
    cp.len() > 0 && gh.len() > 0 && (cp == gh || cp.is_prefix_of(gh) || gh.is_prefix_of(cp))
}

/// The characters of `v` without its leading slashes.
fn strip_slashes(v: &Vec<char>) -> (r: Vec<char>)
    ensures
        r@ == strip_leading_slashes(v@),
{
    let mut i: usize = 0;
    assert(v@.skip(0) =~= v@);
    while i < v.len() && v[i] == '/'
        invariant
            i <= v.len(),
            strip_leading_slashes(v@) == strip_leading_slashes(v@.skip(i as int)),
        decreases v.len() - i,
    {
        assert(v@.skip(i as int).drop_first() =~= v@.skip(i + 1));
        i = i + 1;
    }
    let mut r: Vec<char> = Vec::new();
    let start = i;
    while i < v.len()
        invariant
            start <= i <= v.len(),
            r@ == v@.subrange(start as int, i as int),
        decreases v.len() - i,
    {
        r.push(v[i]);
        i = i + 1;
        assert(r@ =~= v@.subrange(start as int, i as int));
    }
    assert(r@ =~= v@.skip(start as int));
    r
}

/// Matches S3 keys: equal, or one a prefix of the other, ignoring leading
/// slashes; empty keys never match.
pub fn s3_keys_match(cp_key: &str, gh_key: &str) -> (r: bool)
    ensures
        r == s3_keys_match_spec(cp_key@, gh_key@),
{
    let cp = strip_slashes(&chars_of(cp_key));
    let gh = strip_slashes(&chars_of(gh_key));
    if cp.len() == 0 || gh.len() == 0 {
        return false;
    }
    chars_eq(&cp, &gh) || chars_start_with(&gh, &cp) || chars_start_with(&cp, &gh)
}

// ---------------------------------------------------------------------
// Applying links after a poll
// ---------------------------------------------------------------------

/// A finished group (succeeded or failed) whose run has not been recorded
/// in `m` yet.
pub open spec fn records_run(m: LinkMapView, g: WorkflowGroupView) -> bool {
    &&& (g.summary_status == BuildStatus::Succeeded || g.summary_status == BuildStatus::Failed)
    &&& g.run_id is Some
    &&& !m.recorded_run_ids.contains(g.run_id.unwrap())
}

/// The link map after recording, in group order, each finished run once:
/// its id is remembered and its workflow's completion recorded at `now`.
pub open spec fn record_runs_spec(m: LinkMapView, gs: Seq<WorkflowGroupView>, now: u64) -> LinkMapView
    decreases gs.len(),
{
    if gs.len() == 0 {
        m
    } else {
        let m1 = record_runs_spec(m, gs.drop_last(), now);
        let g = gs.last();
        if records_run(m1, g) {
            LinkMapView {
                completions: record_spec(m1.completions, g.name, now),
                recorded_run_ids: m1.recorded_run_ids.insert(g.run_id.unwrap()),
                ..m1
            }
        } else {
            m1
        }
    }
}

/// The workflows linked to the running pipelines, in pipeline order.
pub open spec fn linked_running_workflows(links: Seq<LinkView>, pgs: Seq<PipelineGroupView>) -> Seq<Seq<char>>
    decreases pgs.len(),
{
    if pgs.len() == 0 {
        Seq::empty()
    } else {
        let r = linked_running_workflows(links, pgs.drop_last());
        let g = pgs.last();
        if g.summary_status == BuildStatus::Running && workflow_of(links, g.name) is Some {
            r.push(workflow_of(links, g.name).unwrap())
        } else {
            r
        }
    }
}

/// The running pipelines without a link, in order.
pub open spec fn unlinked_running_pipelines(links: Seq<LinkView>, pgs: Seq<PipelineGroupView>) -> Seq<Seq<char>>
    decreases pgs.len(),
{
    if pgs.len() == 0 {
        Seq::empty()
    } else {
        let r = unlinked_running_pipelines(links, pgs.drop_last());
        let g = pgs.last();
        if g.summary_status == BuildStatus::Running && workflow_of(links, g.name) is None {
            r.push(g.name)
        } else {
            r
        }
    }
}

/// Some group of pipeline `name` is running.
pub open spec fn pipeline_running(pgs: Seq<PipelineGroupView>, name: Seq<char>) -> bool {
    exists|j: int|
        0 <= j < pgs.len() && #[trigger] pgs[j].name == name && pgs[j].summary_status
            == BuildStatus::Running
}

/// The workflows of the links whose pipeline is not running, in link
/// order.
pub open spec fn idle_link_workflows(links: Seq<LinkView>, pgs: Seq<PipelineGroupView>) -> Seq<Seq<char>>
    decreases links.len(),
{
    if links.len() == 0 {
        Seq::empty()
    } else {
        let r = idle_link_workflows(links.drop_last(), pgs);
        if !pipeline_running(pgs, links.last().pipeline) {
            r.push(links.last().workflow)
        } else {
            r
        }
    }
}

/// The suppressed runs, as plain values: (workflow name, run id).
pub open spec fn stopped_view(v: Seq<(String, u64)>) -> Seq<(Seq<char>, u64)> {
    v.map_values(|e: (String, u64)| (e.0@, e.1))
}

/// The suppressed runs without those of the `idle` workflows.
pub open spec fn clear_stopped(stopped: Seq<(Seq<char>, u64)>, idle: Seq<Seq<char>>) -> Seq<(Seq<char>, u64)> {
    stopped.filter(|e: (Seq<char>, u64)| !idle.contains(e.0))
}

/// Correlating each of `names` in turn at `now`: the final link map and
/// the workflows reported, in order.
pub open spec fn correlate_all_spec(m: LinkMapView, names: Seq<Seq<char>>, now: u64) -> (LinkMapView, Seq<Seq<char>>)
    decreases names.len(),
{
    if names.len() == 0 {
        (m, Seq::empty())
    } else {
        let prev = correlate_all_spec(m, names.drop_last(), now);
        let step = correlate_spec(prev.0, names.last(), now);
        (
            step.0,
            match step.1 {
                Some(w) => prev.1.push(w),
                None => prev.1,
            },
        )
    }
}

/// A run of workflow `wf` has already been suppressed.
pub open spec fn has_stopped(stopped: Seq<(Seq<char>, u64)>, wf: Seq<char>) -> bool {
    exists|k: int| 0 <= k < stopped.len() && #[trigger] stopped[k].0 == wf
}

/// A running job shown as succeeded; any other job unchanged.
pub open spec fn succeed_running(b: Bar) -> Bar {
    if b.status == BuildStatus::Running {
        set_status_spec(b, BuildStatus::Succeeded)
    } else {
        b
    }
}

/// A workflow group shown as succeeded, with its running jobs.
pub open spec fn mark_succeeded(g: WorkflowGroupView) -> WorkflowGroupView {
    WorkflowGroupView {
        summary_status: BuildStatus::Succeeded,
        jobs: g.jobs.map_values(|b: Bar| succeed_running(b)),
        ..g
    }
}

/// Suppressing workflow `wf` while its pipeline runs: its first group, if
/// running, is shown as succeeded, unless a run of it was suppressed
/// already (the same run, or a new one started while the pipeline still
/// runs); the suppressed run is remembered.
pub open spec fn suppress_spec(
    gs: Seq<WorkflowGroupView>,
    stopped: Seq<(Seq<char>, u64)>,
    wf: Seq<char>,
) -> (Seq<WorkflowGroupView>, Seq<(Seq<char>, u64)>) {
    match find_wgroup_from(gs, wf, 0) {
        Some(i) => if gs[i].summary_status != BuildStatus::Running {
            (gs, stopped)
        } else {
            match gs[i].run_id {
                Some(id) => if has_stopped(stopped, wf) {
                    (gs, stopped)
                } else {
                    (gs.update(i, mark_succeeded(gs[i])), stopped.push((wf, id)))
                },
                None => (gs.update(i, mark_succeeded(gs[i])), stopped),
            }
        },
        None => (gs, stopped),
    }
}

/// Suppressing each of `wfs` in turn.
pub open spec fn suppress_all(
    gs: Seq<WorkflowGroupView>,
    stopped: Seq<(Seq<char>, u64)>,
    wfs: Seq<Seq<char>>,
) -> (Seq<WorkflowGroupView>, Seq<(Seq<char>, u64)>)
    decreases wfs.len(),
{
    if wfs.len() == 0 {
        (gs, stopped)
    } else {
        let prev = suppress_all(gs, stopped, wfs.drop_last());
        suppress_spec(prev.0, prev.1, wfs.last())
    }
}

/// Some group of workflow `name` is running.
pub open spec fn workflow_running(wgs: Seq<WorkflowGroupView>, name: Seq<char>) -> bool {
    exists|j: int|
        0 <= j < wgs.len() && #[trigger] wgs[j].name == name && wgs[j].summary_status
            == BuildStatus::Running
}

/// A pipeline waits on its linked workflow: the workflow runs or
/// completed inside the correlation window, and the pipeline itself does
/// not run yet.
pub open spec fn pending_for(g: PipelineGroupView, wgs: Seq<WorkflowGroupView>, m: LinkMapView, now: u64) -> bool {
    match workflow_of(m.links, g.name) {
        Some(w) => (workflow_running(wgs, w) || has_live_completion(m.completions, w, now))
            && g.summary_status != BuildStatus::Running,
        None => false,
    }
}

/// The pipeline groups with their pending-link flags set.
pub open spec fn pending_spec(
    pgs: Seq<PipelineGroupView>,
    wgs: Seq<WorkflowGroupView>,
    m: LinkMapView,
    now: u64,
) -> Seq<PipelineGroupView> {
    pgs.map_values(
        |g: PipelineGroupView| PipelineGroupView { pending_link: pending_for(g, wgs, m, now), ..g },
    )
}

/// Applying the links at `now` took the app from `a0` to `a1`, the link
/// map from `m0` to `m1` and the suppressed runs from `s0` to `s1`:
/// finished runs are recorded; suppressed runs of workflows whose pipeline
/// no longer runs are forgotten; running pipelines without a link are
/// correlated; the workflows linked to running pipelines are suppressed;
/// the pending-link flags are set.  Nothing else changes.
pub open spec fn links_applied(
    a0: App,
    a1: App,
    m0: LinkMapView,
    m1: LinkMapView,
    s0: Seq<(Seq<char>, u64)>,
    s1: Seq<(Seq<char>, u64)>,
    now: u64,
) -> bool {
    let pgs = pgroups_view(a0.pipeline_groups@);
    let recorded = record_runs_spec(m0, wgroups_view(a0.workflow_groups@), now);
    let linked = linked_running_workflows(recorded.links, pgs);
    let unlinked = unlinked_running_pipelines(recorded.links, pgs);
    let cleared = clear_stopped(s0, idle_link_workflows(recorded.links, pgs));
    let corr = correlate_all_spec(recorded, unlinked, now);
    let sup = suppress_all(wgroups_view(a0.workflow_groups@), cleared, linked + corr.1);
    &&& m1 == corr.0
    &&& s1 == sup.1
    &&& wgroups_view(a1.workflow_groups@) == sup.0
    &&& pgroups_view(a1.pipeline_groups@) == pending_spec(pgs, sup.0, corr.0, now)
    &&& a1 == (App {
        pipeline_groups: a1.pipeline_groups,
        workflow_groups: a1.workflow_groups,
        ..a0
    })
}


/// Records each finished run of `groups` once (see [`record_runs_spec`]).
fn record_finished_runs(groups: &Vec<WorkflowGroup>, link_map: &mut LinkMap, now: u64)
    ensures
        final(link_map)@ == record_runs_spec(old(link_map)@, wgroups_view(groups@), now),
{
    let ghost gv = wgroups_view(groups@);
    let ghost m0 = link_map@;
    let mut i: usize = 0;
    while i < groups.len()
        invariant
            gv == wgroups_view(groups@),
            i <= groups.len(),
            link_map@ == record_runs_spec(m0, gv.take(i as int), now),
        decreases groups.len() - i,
    {
        let ghost m1 = link_map@;
        proof {
            assert(gv.take(i + 1).drop_last() =~= gv.take(i as int));
            assert(gv.take(i + 1).last() == wgroup_view(groups@[i as int]));
        }
        let g = &groups[i];
        let finished = g.summary_status == BuildStatus::Succeeded || g.summary_status
            == BuildStatus::Failed;
        if finished {
            if let Some(id) = g.run_id {
                if !link_map.run_recorded(id) {
                    link_map.mark_run_recorded(id);
                    link_map.record_workflow_completion_at(g.name.as_str(), now);
                    assert(link_map@ =~= LinkMapView {
                        completions: record_spec(m1.completions, g.name@, now),
                        recorded_run_ids: m1.recorded_run_ids.insert(id),
                        ..m1
                    });
                }
            }
        }
        i = i + 1;
    }
    assert(gv.take(i as int) =~= gv);
}

/// The workflows linked to the running pipelines, and the running
/// pipelines without a link, each in pipeline order.
fn split_running(pgs: &Vec<PipelineGroup>, link_map: &LinkMap) -> (r: (Vec<String>, Vec<String>))
    ensures
        strings_view(r.0@) == linked_running_workflows(link_map@.links, pgroups_view(pgs@)),
        strings_view(r.1@) == unlinked_running_pipelines(link_map@.links, pgroups_view(pgs@)),
{
    let ghost pv = pgroups_view(pgs@);
    let ghost links = link_map@.links;
    let mut linked: Vec<String> = Vec::new();
    let mut unlinked: Vec<String> = Vec::new();
    let mut i: usize = 0;
    while i < pgs.len()
        invariant
            pv == pgroups_view(pgs@),
            links == link_map@.links,
            i <= pgs.len(),
            strings_view(linked@) == linked_running_workflows(links, pv.take(i as int)),
            strings_view(unlinked@) == unlinked_running_pipelines(links, pv.take(i as int)),
        decreases pgs.len() - i,
    {
        proof {
            assert(pv.take(i + 1).drop_last() =~= pv.take(i as int));
            assert(pv.take(i + 1).last() == pgroup_view(pgs@[i as int]));
        }
        let g = &pgs[i];
        if g.summary_status == BuildStatus::Running {
            match link_map.workflow_for_pipeline(g.name.as_str()) {
                Some(w) => {
                    let ghost before = linked@;
                    linked.push(owned(w));
                    assert(strings_view(linked@) =~= strings_view(before).push(w@));
                },
                None => {
                    let ghost before = unlinked@;
                    unlinked.push(g.name.clone());
                    assert(strings_view(unlinked@) =~= strings_view(before).push(g.name@));
                },
            }
        }
        i = i + 1;
    }
    assert(pv.take(i as int) =~= pv);
    (linked, unlinked)
}

/// Some group of pipeline `name` is running.
fn pipeline_is_running(pgs: &Vec<PipelineGroup>, name: &str) -> (r: bool)
    ensures
        r == pipeline_running(pgroups_view(pgs@), name@),
{
    let ghost pv = pgroups_view(pgs@);
    let mut i: usize = 0;
    while i < pgs.len()
        invariant
            pv == pgroups_view(pgs@),
            i <= pgs.len(),
            forall|j: int|
                0 <= j < i ==> !(#[trigger] pv[j].name == name@ && pv[j].summary_status
                    == BuildStatus::Running),
        decreases pgs.len() - i,
    {
        assert(pv[i as int] == pgroup_view(pgs@[i as int]));
        if pgs[i].summary_status == BuildStatus::Running && str_eq(pgs[i].name.as_str(), name) {
            assert(pv[i as int].name == name@);
            return true;
        }
        i = i + 1;
    }
    false
}

/// The workflows of the links whose pipeline is not running.
fn idle_workflows(pgs: &Vec<PipelineGroup>, link_map: &LinkMap) -> (r: Vec<String>)
    ensures
        strings_view(r@) == idle_link_workflows(link_map@.links, pgroups_view(pgs@)),
{
    let ghost links = link_map@.links;
    let mut r: Vec<String> = Vec::new();
    let mut i: usize = 0;
    while i < link_map.links.len()
        invariant
            links == link_map@.links,
            links == links_view(link_map.links@),
            i <= link_map.links.len(),
            strings_view(r@) == idle_link_workflows(links.take(i as int), pgroups_view(pgs@)),
        decreases link_map.links.len() - i,
    {
        proof {
            assert(links.take(i + 1).drop_last() =~= links.take(i as int));
            assert(links.take(i + 1).last() == link_map.links@[i as int]@);
        }
        let l = &link_map.links[i];
        if !pipeline_is_running(pgs, l.pipeline_name.as_str()) {
            let ghost before = r@;
            r.push(l.workflow_name.clone());
            assert(strings_view(r@) =~= strings_view(before).push(l.workflow_name@));
        }
        i = i + 1;
    }
    assert(links.take(i as int) =~= links);
    r
}

/// `names` holds `name`.
pub(crate) fn strings_contain(names: &Vec<String>, name: &str) -> (r: bool)
    ensures
        r == strings_view(names@).contains(name@),
{
    let ghost nv = strings_view(names@);
    let mut i: usize = 0;
    while i < names.len()
        invariant
            nv == strings_view(names@),
            i <= names.len(),
            forall|j: int| 0 <= j < i ==> nv[j] != name@,
        decreases names.len() - i,
    {
        if str_eq(names[i].as_str(), name) {
            assert(nv[i as int] == name@);
            return true;
        }
        i = i + 1;
    }
    false
}

/// Forgets the suppressed runs of the `idle` workflows.
fn clear_stopped_runs(stopped: &mut Vec<(String, u64)>, idle: &Vec<String>)
    ensures
        stopped_view(final(stopped)@) == clear_stopped(stopped_view(old(stopped)@), strings_view(idle@)),
{
    let ghost sv = stopped_view(stopped@);
    let ghost iv = strings_view(idle@);
    let mut kept: Vec<(String, u64)> = Vec::new();
    let mut i: usize = 0;
    while i < stopped.len()
        invariant
            sv == stopped_view(stopped@),
            iv == strings_view(idle@),
            i <= stopped.len(),
            stopped_view(kept@) == clear_stopped(sv.take(i as int), iv),
        decreases stopped.len() - i,
    {
        proof {
            assert(sv.take(i + 1) =~= sv.take(i as int).push(sv[i as int]));
            sv.take(i as int).lemma_filter_push(
                sv[i as int],
                |e: (Seq<char>, u64)| !iv.contains(e.0),
            );
        }
        let e = &stopped[i];
        if !strings_contain(idle, e.0.as_str()) {
            let ghost before = kept@;
            kept.push((e.0.clone(), e.1));
            assert(stopped_view(kept@) =~= stopped_view(before).push(sv[i as int]));
        }
        i = i + 1;
    }
    assert(sv.take(i as int) =~= sv);
    *stopped = kept;
}

/// A run of workflow `wf` has already been suppressed.
fn stopped_has(stopped: &Vec<(String, u64)>, wf: &str) -> (r: bool)
    ensures
        r == has_stopped(stopped_view(stopped@), wf@),
{
    let ghost sv = stopped_view(stopped@);
    let mut i: usize = 0;
    while i < stopped.len()
        invariant
            sv == stopped_view(stopped@),
            i <= stopped.len(),
            forall|k: int| 0 <= k < i ==> #[trigger] sv[k].0 != wf@,
        decreases stopped.len() - i,
    {
        if str_eq(stopped[i].0.as_str(), wf) {
            assert(sv[i as int].0 == wf@);
            return true;
        }
        i = i + 1;
    }
    false
}

/// Shows group `i` as succeeded, with its running jobs.
fn mark_group_succeeded(groups: &mut Vec<WorkflowGroup>, i: usize)
    requires
        i < old(groups).len(),
    ensures
        wgroups_view(final(groups)@) == wgroups_view(old(groups)@).update(
            i as int,
            mark_succeeded(wgroup_view(old(groups)@[i as int])),
        ),
{
    let ghost prev = groups@;
    let mut g = empty_wgroup();
    groups.set_and_swap(i, &mut g);
    let ghost g0 = g;
    assert(g0 == prev[i as int]);
    let mut jobs: Vec<Bar> = Vec::new();
    let mut j: usize = 0;
    while j < g.jobs.len()
        invariant
            g == g0,
            j <= g.jobs.len(),
            jobs@ == g0.jobs@.take(j as int).map_values(|b: Bar| succeed_running(b)),
        decreases g.jobs.len() - j,
    {
        let mut b = clone_bar(&g.jobs[j]);
        if b.status == BuildStatus::Running {
            b.set_status(BuildStatus::Succeeded);
        }
        let ghost before = jobs@;
        jobs.push(b);
        assert(g0.jobs@.take(j + 1) =~= g0.jobs@.take(j as int).push(g0.jobs@[j as int]));
        assert(jobs@ =~= g0.jobs@.take(j + 1).map_values(|b: Bar| succeed_running(b)));
        j = j + 1;
    }
    assert(g0.jobs@.take(j as int) =~= g0.jobs@);
    g.jobs = jobs;
    g.summary_status = BuildStatus::Succeeded;
    let ghost gm = g;
    groups.set_and_swap(i, &mut g);
    assert(groups@ == prev.update(i as int, gm));
    assert(wgroup_view(gm) == mark_succeeded(wgroup_view(g0)));
    assert(wgroups_view(groups@) =~= wgroups_view(prev).update(i as int, wgroup_view(gm)));
}

/// Suppresses workflow `wf` (see [`suppress_spec`]).
fn suppress_workflow(groups: &mut Vec<WorkflowGroup>, stopped: &mut Vec<(String, u64)>, wf: &str)
    ensures
        (wgroups_view(final(groups)@), stopped_view(final(stopped)@)) == suppress_spec(
            wgroups_view(old(groups)@),
            stopped_view(old(stopped)@),
            wf@,
        ),
{
    let n = chars_of(wf);
    match find_wgroup(groups, &n) {
        None => {},
        Some(i) => {
            assert(wgroups_view(groups@)[i as int] == wgroup_view(groups@[i as int]));
            if groups[i].summary_status == BuildStatus::Running {
                match groups[i].run_id {
                    Some(id) => {
                        if !stopped_has(stopped, wf) {
                            let ghost before = stopped@;
                            stopped.push((owned(wf), id));
                            assert(stopped_view(stopped@) =~= stopped_view(before).push((wf@, id)));
                            mark_group_succeeded(groups, i);
                        }
                    },
                    None => {
                        mark_group_succeeded(groups, i);
                    },
                }
            }
        },
    }
}

/// Some group of workflow `name` is running.
fn workflow_is_running(wgs: &Vec<WorkflowGroup>, name: &str) -> (r: bool)
    ensures
        r == workflow_running(wgroups_view(wgs@), name@),
{
    let ghost wv = wgroups_view(wgs@);
    let mut i: usize = 0;
    while i < wgs.len()
        invariant
            wv == wgroups_view(wgs@),
            i <= wgs.len(),
            forall|j: int|
                0 <= j < i ==> !(#[trigger] wv[j].name == name@ && wv[j].summary_status
                    == BuildStatus::Running),
        decreases wgs.len() - i,
    {
        assert(wv[i as int] == wgroup_view(wgs@[i as int]));
        if wgs[i].summary_status == BuildStatus::Running && str_eq(wgs[i].name.as_str(), name) {
            assert(wv[i as int].name == name@);
            return true;
        }
        i = i + 1;
    }
    false
}

/// Sets each pipeline group's pending-link flag at `now` (see
/// [`pending_for`]).
fn set_pending_links_at(app: &mut App, link_map: &LinkMap, now: u64)
    ensures
        pgroups_view(final(app).pipeline_groups@) == pending_spec(
            pgroups_view(old(app).pipeline_groups@),
            wgroups_view(old(app).workflow_groups@),
            link_map@,
            now,
        ),
        *final(app) == (App { pipeline_groups: final(app).pipeline_groups, ..*old(app) }),
{
    let ghost pv0 = pgroups_view(app.pipeline_groups@);
    let ghost wv = wgroups_view(app.workflow_groups@);
    let ghost target = pending_spec(pv0, wv, link_map@, now);
    let mut i: usize = 0;
    while i < app.pipeline_groups.len()
        invariant
            pv0.len() == app.pipeline_groups@.len(),
            target == pending_spec(pv0, wv, link_map@, now),
            wv == wgroups_view(app.workflow_groups@),
            i <= app.pipeline_groups.len(),
            forall|k: int| 0 <= k < i ==> #[trigger] pgroups_view(app.pipeline_groups@)[k] == target[k],
            forall|k: int|
                i <= k < pv0.len() ==> #[trigger] pgroups_view(app.pipeline_groups@)[k] == pv0[k],
            *app == (App { pipeline_groups: app.pipeline_groups, ..*old(app) }),
        decreases app.pipeline_groups.len() - i,
    {
        let ghost prev = app.pipeline_groups@;
        assert(pgroups_view(prev)[i as int] == pv0[i as int]);
        let pending = match link_map.workflow_for_pipeline(app.pipeline_groups[i].name.as_str()) {
            Some(w) => (workflow_is_running(&app.workflow_groups, w) || link_map.has_recent_completion_at(
                w,
                now,
            )) && app.pipeline_groups[i].summary_status != BuildStatus::Running,
            None => false,
        };
        assert(pending == pending_for(pv0[i as int], wv, link_map@, now));
        let mut g = empty_pgroup();
        app.pipeline_groups.set_and_swap(i, &mut g);
        g.pending_link = pending;
        let ghost gm = g;
        app.pipeline_groups.set_and_swap(i, &mut g);
        assert(app.pipeline_groups@ == prev.update(i as int, gm));
        assert(pgroups_view(app.pipeline_groups@) =~= pgroups_view(prev).update(i as int, pgroup_view(gm)));
        assert(pgroup_view(gm) == target[i as int]);
        i = i + 1;
    }
    assert(pgroups_view(app.pipeline_groups@) =~= target);
}

/// No workflow has two suppressed runs.
pub open spec fn stopped_keys_unique(s: Seq<(Seq<char>, u64)>) -> bool {
    forall|i: int, j: int| 0 <= i < s.len() && 0 <= j < s.len() && i != j ==> #[trigger] s[i].0 != #[trigger] s[j].0
}

proof fn lemma_clear_keeps_keys_unique(s: Seq<(Seq<char>, u64)>, idle: Seq<Seq<char>>)
    requires
        stopped_keys_unique(s),
    ensures
        stopped_keys_unique(clear_stopped(s, idle)),
        forall|e: (Seq<char>, u64)| clear_stopped(s, idle).contains(e) ==> s.contains(e),
    decreases s.len(),
{
    let p = |e: (Seq<char>, u64)| !idle.contains(e.0);
    if s.len() > 0 {
        let d = s.drop_last();
        assert(stopped_keys_unique(d));
        lemma_clear_keeps_keys_unique(d, idle);
        assert(s.filter(p) == if p(s.last()) { d.filter(p).push(s.last()) } else { d.filter(p) }) by {
            reveal_with_fuel(Seq::filter, 1);
            assert(s.drop_last() == d);
        }
        let f = d.filter(p);
        if p(s.last()) {
            assert forall|i: int| 0 <= i < f.len() implies #[trigger] f[i].0 != s.last().0 by {
                assert(f.contains(f[i]));
                assert(d.contains(f[i]));
                let k = choose|k: int| 0 <= k < d.len() && d[k] == f[i];
                assert(s[k] == d[k]);
                assert(s[s.len() - 1] == s.last());
            }
            assert forall|e: (Seq<char>, u64)| f.push(s.last()).contains(e) implies s.contains(e) by {
                let k = choose|k: int| 0 <= k < f.push(s.last()).len() && f.push(s.last())[k] == e;
                if k < f.len() {
                    assert(f.contains(e));
                    assert(d.contains(e));
                    let m = choose|m: int| 0 <= m < d.len() && d[m] == e;
                    assert(s[m] == e);
                } else {
                    assert(s[s.len() - 1] == e);
                }
            }
        } else {
            assert forall|e: (Seq<char>, u64)| f.contains(e) implies s.contains(e) by {
                assert(d.contains(e));
                let m = choose|m: int| 0 <= m < d.len() && d[m] == e;
                assert(s[m] == e);
            }
        }
    }
}

proof fn lemma_suppress_keeps_keys_unique(
    gs: Seq<WorkflowGroupView>,
    stopped: Seq<(Seq<char>, u64)>,
    wfs: Seq<Seq<char>>,
)
    requires
        stopped_keys_unique(stopped),
    ensures
        stopped_keys_unique(suppress_all(gs, stopped, wfs).1),
    decreases wfs.len(),
{
    if wfs.len() > 0 {
        lemma_suppress_keeps_keys_unique(gs, stopped, wfs.drop_last());
        let prev = suppress_all(gs, stopped, wfs.drop_last());
        let wf = wfs.last();
        if !has_stopped(prev.1, wf) {
            let t = prev.1;
            assert forall|i: int| 0 <= i < t.len() implies #[trigger] t[i].0 != wf by {}
        }
    }
}

/// Applying the links never leaves a workflow with two suppressed runs:
/// a run is remembered only for a workflow without one, as a map keyed
/// by workflow would hold them.
pub proof fn lemma_links_keep_stopped_unique(
    a0: App,
    a1: App,
    m0: LinkMapView,
    m1: LinkMapView,
    s0: Seq<(Seq<char>, u64)>,
    s1: Seq<(Seq<char>, u64)>,
    now: u64,
)
    requires
        links_applied(a0, a1, m0, m1, s0, s1, now),
        stopped_keys_unique(s0),
    ensures
        stopped_keys_unique(s1),
{
    let pgs = pgroups_view(a0.pipeline_groups@);
    let recorded = record_runs_spec(m0, wgroups_view(a0.workflow_groups@), now);
    let linked = linked_running_workflows(recorded.links, pgs);
    let unlinked = unlinked_running_pipelines(recorded.links, pgs);
    let idle = idle_link_workflows(recorded.links, pgs);
    lemma_clear_keeps_keys_unique(s0, idle);
    let corr = correlate_all_spec(recorded, unlinked, now);
    lemma_suppress_keeps_keys_unique(wgroups_view(a0.workflow_groups@), clear_stopped(s0, idle), linked + corr.1);
}

/// Applies the links at time `now` (see [`links_applied`]): records
/// finished runs; forgets suppressed runs of workflows whose pipeline no
/// longer runs; correlates running pipelines without a link; shows the
/// workflows linked to running pipelines as succeeded, once per run; sets
/// the pending-link flags.
pub fn apply_links_at(app: &mut App, link_map: &mut LinkMap, stopped_runs: &mut Vec<(String, u64)>, now: u64)
    ensures
        links_applied(
            *old(app),
            *final(app),
            old(link_map)@,
            final(link_map)@,
            stopped_view(old(stopped_runs)@),
            stopped_view(final(stopped_runs)@),
            now,
        ),
        stopped_keys_unique(stopped_view(old(stopped_runs)@)) ==> stopped_keys_unique(
            stopped_view(final(stopped_runs)@),
        ),
{
    let ghost a0 = *app;
    let ghost m0 = link_map@;
    let ghost s0 = stopped_view(stopped_runs@);
    let ghost pgs = pgroups_view(app.pipeline_groups@);
    record_finished_runs(&app.workflow_groups, link_map, now);
    let ghost recorded = link_map@;
    let (mut all, unlinked) = split_running(&app.pipeline_groups, link_map);
    let ghost linked = strings_view(all@);
    let idle = idle_workflows(&app.pipeline_groups, link_map);
    clear_stopped_runs(stopped_runs, &idle);
    let ghost uv = strings_view(unlinked@);
    let mut k: usize = 0;
    while k < unlinked.len()
        invariant
            uv == strings_view(unlinked@),
            k <= unlinked.len(),
            link_map@ == correlate_all_spec(recorded, uv.take(k as int), now).0,
            strings_view(all@) == linked + correlate_all_spec(recorded, uv.take(k as int), now).1,
        decreases unlinked.len() - k,
    {
        proof {
            assert(uv.take(k + 1).drop_last() =~= uv.take(k as int));
        }
        let ghost before = all@;
        let r = link_map.try_correlate_at(unlinked[k].as_str(), now);
        if let Some(w) = r {
            all.push(w);
            assert(strings_view(all@) =~= strings_view(before).push(w@));
        }
        k = k + 1;
    }
    assert(uv.take(k as int) =~= uv);
    let ghost wfs = strings_view(all@);
    let ghost cleared = stopped_view(stopped_runs@);
    let ghost wv0 = wgroups_view(app.workflow_groups@);
    let mut j: usize = 0;
    while j < all.len()
        invariant
            wfs == strings_view(all@),
            j <= all.len(),
            (wgroups_view(app.workflow_groups@), stopped_view(stopped_runs@)) == suppress_all(
                wv0,
                cleared,
                wfs.take(j as int),
            ),
            app.pipeline_groups == a0.pipeline_groups,
            *app == (App { workflow_groups: app.workflow_groups, ..a0 }),
        decreases all.len() - j,
    {
        proof {
            assert(wfs.take(j + 1).drop_last() =~= wfs.take(j as int));
        }
        suppress_workflow(&mut app.workflow_groups, stopped_runs, all[j].as_str());
        j = j + 1;
    }
    assert(wfs.take(j as int) =~= wfs);
    set_pending_links_at(app, link_map, now);
    proof {
        if stopped_keys_unique(s0) {
            lemma_links_keep_stopped_unique(a0, *app, m0, link_map@, s0, stopped_view(stopped_runs@), now);
        }
    }
}

/// Applies the links now (see [`apply_links_at`]).
pub fn apply_links(app: &mut App, link_map: &mut LinkMap, stopped_runs: &mut Vec<(String, u64)>)
    ensures
        exists|now: u64|
            #[trigger] links_applied(
                *old(app),
                *final(app),
                old(link_map)@,
                final(link_map)@,
                stopped_view(old(stopped_runs)@),
                stopped_view(final(stopped_runs)@),
                now,
            ),
        stopped_keys_unique(stopped_view(old(stopped_runs)@)) ==> stopped_keys_unique(
            stopped_view(final(stopped_runs)@),
        ),
{
    let ghost a0 = *app;
    let ghost m0 = link_map@;
    let ghost s0 = stopped_view(stopped_runs@);
    let now = now_millis();
    apply_links_at(app, link_map, stopped_runs, now);
    assert(links_applied(a0, *app, m0, link_map@, s0, stopped_view(stopped_runs@), now));
}

/// The first link at or after `start` whose workflow is `name`.
pub open spec fn find_workflow_from(links: Seq<LinkView>, name: Seq<char>, start: int) -> Option<int>
    decreases links.len() - start,
{
    if start < 0 || start >= links.len() {
        None
    } else if links[start].workflow == name {
        Some(start)
    } else {
        find_workflow_from(links, name, start + 1)
    }
}

/// The pipeline linked to workflow `name` (by the first link naming it).
pub open spec fn pipeline_of(links: Seq<LinkView>, name: Seq<char>) -> Option<Seq<char>> {
    match find_workflow_from(links, name, 0) {
        Some(i) => Some(links[i].pipeline),
        None => None,
    }
}

impl LinkMap {
    /// The pipeline linked to workflow `workflow_name`.
    pub fn pipeline_for_workflow(&self, workflow_name: &str) -> (r: Option<&str>)
        ensures
            opt_str_view(r) == pipeline_of(self@.links, workflow_name@),
    {
        let ghost links = self@.links;
        let target = chars_of(workflow_name);
        let mut i: usize = 0;
        while i < self.links.len()
            invariant
                links == self@.links,
                links == links_view(self.links@),
                target@ == workflow_name@,
                i <= self.links.len(),
                find_workflow_from(links, workflow_name@, 0) == find_workflow_from(
                    links,
                    workflow_name@,
                    i as int,
                ),
            decreases self.links.len() - i,
        {
            let w = chars_of(self.links[i].workflow_name.as_str());
            assert(links[i as int].workflow == self.links@[i as int].workflow_name@);
            if chars_eq(&w, &target) {
                assert(find_workflow_from(links, workflow_name@, i as int) == Some(i as int));
                return Some(self.links[i].pipeline_name.as_str());
            }
            assert(find_workflow_from(links, workflow_name@, i as int) == find_workflow_from(
                links,
                workflow_name@,
                i + 1,
            ));
            i = i + 1;
        }
        None
    }
}

/// The characters of an optional string slice.
pub open spec fn opt_str_view(o: Option<&str>) -> Option<Seq<char>> {
    match o {
        Some(s) => Some(s@),
        None => None,
    }
}

/// Sets each workflow group's linked pipeline from the link map.
pub fn sync_linked_pipelines(app: &mut App, link_map: &LinkMap)
    ensures
        wgroups_view(final(app).workflow_groups@) == wgroups_view(old(app).workflow_groups@).map_values(
            |g: WorkflowGroupView|
                WorkflowGroupView { linked_pipeline: pipeline_of(link_map@.links, g.name), ..g },
        ),
        *final(app) == (App { workflow_groups: final(app).workflow_groups, ..*old(app) }),
{
    let ghost wv0 = wgroups_view(app.workflow_groups@);
    let ghost target = wv0.map_values(
        |g: WorkflowGroupView|
            WorkflowGroupView { linked_pipeline: pipeline_of(link_map@.links, g.name), ..g },
    );
    let mut i: usize = 0;
    while i < app.workflow_groups.len()
        invariant
            wv0.len() == app.workflow_groups@.len(),
            target == wv0.map_values(
                |g: WorkflowGroupView|
                    WorkflowGroupView { linked_pipeline: pipeline_of(link_map@.links, g.name), ..g },
            ),
            i <= app.workflow_groups.len(),
            forall|k: int| 0 <= k < i ==> #[trigger] wgroups_view(app.workflow_groups@)[k] == target[k],
            forall|k: int|
                i <= k < wv0.len() ==> #[trigger] wgroups_view(app.workflow_groups@)[k] == wv0[k],
            *app == (App { workflow_groups: app.workflow_groups, ..*old(app) }),
        decreases app.workflow_groups.len() - i,
    {
        let ghost prev = app.workflow_groups@;
        assert(wgroups_view(prev)[i as int] == wv0[i as int]);
        let linked = match link_map.pipeline_for_workflow(app.workflow_groups[i].name.as_str()) {
            Some(p) => Some(owned(p)),
            None => None,
        };
        let mut g = empty_wgroup();
        app.workflow_groups.set_and_swap(i, &mut g);
        g.linked_pipeline = linked;
        let ghost gm = g;
        app.workflow_groups.set_and_swap(i, &mut g);
        assert(app.workflow_groups@ == prev.update(i as int, gm));
        assert(wgroups_view(app.workflow_groups@) =~= wgroups_view(prev).update(i as int, wgroup_view(gm)));
        assert(wgroup_view(gm) == target[i as int]);
        i = i + 1;
    }
    assert(wgroups_view(app.workflow_groups@) =~= target);
}

// ---------------------------------------------------------------------
// Link discovery
// ---------------------------------------------------------------------

/// The links that a pipeline source yields against the uploads of one
/// workflow file: one per matching upload, in upload order.
pub open spec fn upload_candidates(def_name: Seq<char>, src: S3Source, wf_name: Seq<char>, uploads: Seq<S3Upload>) -> Seq<LinkCandidate>
    decreases uploads.len(),
{
    if uploads.len() == 0 {
        Seq::empty()
    } else {
        let r = upload_candidates(def_name, src, wf_name, uploads.drop_last());
        if s3_keys_match_spec(src.object_key@, uploads.last().key@) {
            r.push((def_name, wf_name, src.bucket@, src.object_key@))
        } else {
            r
        }
    }
}

/// The links that a pipeline source yields against the workflow files, in
/// file order.
pub open spec fn file_candidates(def_name: Seq<char>, src: S3Source, files: Seq<WorkflowFile>) -> Seq<LinkCandidate>
    decreases files.len(),
{
    if files.len() == 0 {
        Seq::empty()
    } else {
        file_candidates(def_name, src, files.drop_last()) + upload_candidates(
            def_name,
            src,
            files.last().name@,
            files.last().s3_uploads@,
        )
    }
}

/// The links that the pipeline definitions yield against the workflow
/// files, in definition order; a pipeline without an S3 source yields
/// none.
pub open spec fn discovery_candidates(defs: Seq<PipelineDefinition>, files: Seq<WorkflowFile>) -> Seq<LinkCandidate>
    decreases defs.len(),
{
    if defs.len() == 0 {
        Seq::empty()
    } else {
        discovery_candidates(defs.drop_last(), files) + match defs.last().source_s3 {
            Some(src) => file_candidates(defs.last().name@, src, files),
            None => Seq::empty(),
        }
    }
}

/// Discovers the links between pipelines and workflows: a pipeline whose
/// S3 source key matches (see [`s3_keys_match`]) a key that a workflow
/// uploads to is linked to that workflow, once per pair.
pub fn discover_links(definitions: &[PipelineDefinition], workflow_files: &[WorkflowFile]) -> (m: LinkMap)
    ensures
        m@.links == add_links_spec(Seq::empty(), discovery_candidates(definitions@, workflow_files@)),
        m@.completions == Seq::<(Seq<char>, u64)>::empty(),
        m@.recorded_run_ids == Set::<u64>::empty(),
{
    let mut m = LinkMap::new();
    let ghost defs = definitions@;
    let ghost files = workflow_files@;
    let mut i: usize = 0;
    while i < definitions.len()
        invariant
            defs == definitions@,
            files == workflow_files@,
            i <= definitions.len(),
            m@.links == add_links_spec(Seq::empty(), discovery_candidates(defs.take(i as int), files)),
            m@.completions == Seq::<(Seq<char>, u64)>::empty(),
            m@.recorded_run_ids == Set::<u64>::empty(),
        decreases definitions.len() - i,
    {
        proof {
            assert(defs.take(i + 1).drop_last() =~= defs.take(i as int));
        }
        let ghost before = discovery_candidates(defs.take(i as int), files);
        let def = &definitions[i];
        match &def.source_s3 {
            None => {
                assert(discovery_candidates(defs.take(i + 1), files) =~= before);
            },
            Some(src) => {
                let ghost start = m@.links;
                let mut j: usize = 0;
                while j < workflow_files.len()
                    invariant
                        files == workflow_files@,
                        j <= workflow_files.len(),
                        m@.links == add_links_spec(start, file_candidates(def.name@, *src, files.take(j as int))),
                        m@.completions == Seq::<(Seq<char>, u64)>::empty(),
                        m@.recorded_run_ids == Set::<u64>::empty(),
                    decreases workflow_files.len() - j,
                {
                    proof {
                        assert(files.take(j + 1).drop_last() =~= files.take(j as int));
                    }
                    let wf = &workflow_files[j];
                    let ghost mid = m@.links;
                    let mut k: usize = 0;
                    while k < wf.s3_uploads.len()
                        invariant
                            k <= wf.s3_uploads.len(),
                            m@.links == add_links_spec(
                                mid,
                                upload_candidates(def.name@, *src, wf.name@, wf.s3_uploads@.take(k as int)),
                            ),
                            m@.completions == Seq::<(Seq<char>, u64)>::empty(),
                            m@.recorded_run_ids == Set::<u64>::empty(),
                        decreases wf.s3_uploads.len() - k,
                    {
                        proof {
                            assert(wf.s3_uploads@.take(k + 1).drop_last() =~= wf.s3_uploads@.take(k as int));
                        }
                        let ghost prev_c = upload_candidates(
                            def.name@,
                            *src,
                            wf.name@,
                            wf.s3_uploads@.take(k as int),
                        );
                        let ghost cand = (def.name@, wf.name@, src.bucket@, src.object_key@);
                        assert(prev_c.push(cand).drop_last() =~= prev_c);
                        if s3_keys_match(src.object_key.as_str(), wf.s3_uploads[k].key.as_str()) {
                            m.add_discovered(
                                def.name.clone(),
                                wf.name.clone(),
                                src.bucket.clone(),
                                src.object_key.clone(),
                            );
                        }
                        k = k + 1;
                    }
                    assert(wf.s3_uploads@.take(k as int) =~= wf.s3_uploads@);
                    proof {
                        lemma_add_links_append(
                            start,
                            file_candidates(def.name@, *src, files.take(j as int)),
                            upload_candidates(def.name@, *src, wf.name@, wf.s3_uploads@),
                        );
                    }
                    j = j + 1;
                }
                assert(files.take(j as int) =~= files);
                proof {
                    lemma_add_links_append(Seq::empty(), before, file_candidates(def.name@, *src, files));
                }
            },
        }
        i = i + 1;
    }
    assert(defs.take(i as int) =~= defs);
    m
}

proof fn lemma_add_links_keeps_and_adds(links: Seq<LinkView>, cs: Seq<LinkCandidate>)
    ensures
        forall|p: Seq<char>, w: Seq<char>|
            has_link_pair(links, p, w) ==> #[trigger] has_link_pair(add_links_spec(links, cs), p, w),
        forall|c: LinkCandidate| cs.contains(c) ==> has_link_pair(add_links_spec(links, cs), c.0, c.1),
    decreases cs.len(),
{
    if cs.len() > 0 {
        let prev = add_links_spec(links, cs.drop_last());
        lemma_add_links_keeps_and_adds(links, cs.drop_last());
        let c = cs.last();
        let r = add_link_spec(prev, c);
        assert forall|p: Seq<char>, w: Seq<char>| has_link_pair(prev, p, w) implies #[trigger] has_link_pair(r, p, w) by {
            if !has_link_pair(prev, c.0, c.1) {
                let i = choose|i: int| 0 <= i < prev.len() && prev[i].pipeline == p && prev[i].workflow == w;
                assert(r[i] == prev[i]);
            }
        }
        if !has_link_pair(prev, c.0, c.1) {
            assert(r[prev.len() as int].pipeline == c.0 && r[prev.len() as int].workflow == c.1);
        }
        assert forall|x: LinkCandidate| cs.contains(x) implies has_link_pair(r, x.0, x.1) by {
            let k = choose|k: int| 0 <= k < cs.len() && cs[k] == x;
            if k < cs.len() - 1 {
                assert(cs.drop_last()[k] == x);
                assert(cs.drop_last().contains(x));
            }
        }
    }
}

proof fn lemma_upload_candidate(def_name: Seq<char>, src: S3Source, wf_name: Seq<char>, uploads: Seq<S3Upload>, u: int)
    requires
        0 <= u < uploads.len(),
        s3_keys_match_spec(src.object_key@, uploads[u].key@),
    ensures
        upload_candidates(def_name, src, wf_name, uploads).contains((def_name, wf_name, src.bucket@, src.object_key@)),
    decreases uploads.len(),
{
    let c = (def_name, wf_name, src.bucket@, src.object_key@);
    let r = upload_candidates(def_name, src, wf_name, uploads.drop_last());
    if u == uploads.len() - 1 {
        assert(upload_candidates(def_name, src, wf_name, uploads) == r.push(c));
        assert(r.push(c)[r.len() as int] == c);
    } else {
        assert(uploads.drop_last()[u] == uploads[u]);
        lemma_upload_candidate(def_name, src, wf_name, uploads.drop_last(), u);
        let k = choose|k: int| 0 <= k < r.len() && r[k] == c;
        if s3_keys_match_spec(src.object_key@, uploads.last().key@) {
            assert(r.push((def_name, wf_name, src.bucket@, src.object_key@))[k] == c);
        }
    }
}

proof fn lemma_file_candidate(def_name: Seq<char>, src: S3Source, files: Seq<WorkflowFile>, f: int, u: int)
    requires
        0 <= f < files.len(),
        0 <= u < files[f].s3_uploads@.len(),
        s3_keys_match_spec(src.object_key@, files[f].s3_uploads@[u].key@),
    ensures
        file_candidates(def_name, src, files).contains((def_name, files[f].name@, src.bucket@, src.object_key@)),
    decreases files.len(),
{
    let c = (def_name, files[f].name@, src.bucket@, src.object_key@);
    let a = file_candidates(def_name, src, files.drop_last());
    let b = upload_candidates(def_name, src, files.last().name@, files.last().s3_uploads@);
    assert(file_candidates(def_name, src, files) == a + b);
    if f == files.len() - 1 {
        lemma_upload_candidate(def_name, src, files.last().name@, files.last().s3_uploads@, u);
        let k = choose|k: int| 0 <= k < b.len() && b[k] == c;
        assert((a + b)[a.len() + k] == c);
    } else {
        assert(files.drop_last()[f] == files[f]);
        lemma_file_candidate(def_name, src, files.drop_last(), f, u);
        let k = choose|k: int| 0 <= k < a.len() && a[k] == c;
        assert((a + b)[k] == c);
    }
}

proof fn lemma_discovery_candidate(defs: Seq<PipelineDefinition>, files: Seq<WorkflowFile>, d: int, f: int, u: int)
    requires
        0 <= d < defs.len(),
        defs[d].source_s3 is Some,
        0 <= f < files.len(),
        0 <= u < files[f].s3_uploads@.len(),
        s3_keys_match_spec(defs[d].source_s3->0.object_key@, files[f].s3_uploads@[u].key@),
    ensures
        ({
            let src = defs[d].source_s3->0;
            discovery_candidates(defs, files).contains((defs[d].name@, files[f].name@, src.bucket@, src.object_key@))
        }),
    decreases defs.len(),
{
    let src = defs[d].source_s3->0;
    let c = (defs[d].name@, files[f].name@, src.bucket@, src.object_key@);
    let a = discovery_candidates(defs.drop_last(), files);
    let b = match defs.last().source_s3 {
        Some(s) => file_candidates(defs.last().name@, s, files),
        None => Seq::empty(),
    };
    assert(discovery_candidates(defs, files) == a + b);
    if d == defs.len() - 1 {
        lemma_file_candidate(defs[d].name@, src, files, f, u);
        let k = choose|k: int| 0 <= k < b.len() && b[k] == c;
        assert((a + b)[a.len() + k] == c);
    } else {
        assert(defs.drop_last()[d] == defs[d]);
        lemma_discovery_candidate(defs.drop_last(), files, d, f, u);
        let k = choose|k: int| 0 <= k < a.len() && a[k] == c;
        assert((a + b)[k] == c);
    }
}

/// Discovery misses no match: for every pipeline definition with an S3
/// source, every workflow file and every upload of that file whose key
/// matches the source's key, the discovered links join that pipeline and
/// that workflow.
pub proof fn lemma_discovery_finds_every_match(defs: Seq<PipelineDefinition>, files: Seq<WorkflowFile>, d: int, f: int, u: int)
    requires
        0 <= d < defs.len(),
        defs[d].source_s3 is Some,
        0 <= f < files.len(),
        0 <= u < files[f].s3_uploads@.len(),
        s3_keys_match_spec(defs[d].source_s3->0.object_key@, files[f].s3_uploads@[u].key@),
    ensures
        exists|k: int|
            0 <= k < add_links_spec(Seq::empty(), discovery_candidates(defs, files)).len()
                && #[trigger] add_links_spec(Seq::empty(), discovery_candidates(defs, files))[k].pipeline
                == defs[d].name@ && add_links_spec(Seq::empty(), discovery_candidates(defs, files))[k].workflow
                == files[f].name@,
{
    lemma_discovery_candidate(defs, files, d, f, u);
    lemma_add_links_keeps_and_adds(Seq::empty(), discovery_candidates(defs, files));
    let src = defs[d].source_s3->0;
    let c = (defs[d].name@, files[f].name@, src.bucket@, src.object_key@);
    assert(has_link_pair(add_links_spec(Seq::empty(), discovery_candidates(defs, files)), c.0, c.1));
}

/// Link `l` joins a pipeline whose S3 source matches an upload of a
/// workflow file to that workflow, with the source's bucket and key.
pub open spec fn link_has_match(defs: Seq<PipelineDefinition>, files: Seq<WorkflowFile>, l: LinkView) -> bool {
    exists|d: int, f: int, u: int|
        #![trigger defs[d], files[f].s3_uploads@[u]]
        {
            &&& 0 <= d < defs.len()
            &&& 0 <= f < files.len()
            &&& 0 <= u < files[f].s3_uploads@.len()
            &&& defs[d].source_s3 matches Some(src)
            &&& l.pipeline == defs[d].name@
            &&& l.workflow == files[f].name@
            &&& l.bucket == src.bucket@
            &&& l.key == src.object_key@
            &&& s3_keys_match_spec(src.object_key@, files[f].s3_uploads@[u].key@)
        }
}

/// Candidate `c` comes from a matching source and upload.
spec fn candidate_has_match(defs: Seq<PipelineDefinition>, files: Seq<WorkflowFile>, c: LinkCandidate) -> bool {
    link_has_match(defs, files, bare_link(c.0, c.1, c.2, c.3, LinkSource::YamlDiscovered))
}

/// Link `l` is the one added for some candidate of `cs`.
spec fn added_for(cs: Seq<LinkCandidate>, l: LinkView) -> bool {
    exists|c: LinkCandidate| #[trigger] cs.contains(c) && l == bare_link(c.0, c.1, c.2, c.3, LinkSource::YamlDiscovered)
}

proof fn lemma_add_links_sound(cs: Seq<LinkCandidate>)
    ensures
        forall|k: int|
            0 <= k < add_links_spec(Seq::empty(), cs).len() ==> added_for(cs, #[trigger] add_links_spec(Seq::empty(), cs)[k]),
        forall|a: int, b: int|
            0 <= a < b < add_links_spec(Seq::empty(), cs).len() ==> !(#[trigger] add_links_spec(Seq::empty(), cs)[a].pipeline
                == #[trigger] add_links_spec(Seq::empty(), cs)[b].pipeline && add_links_spec(Seq::empty(), cs)[a].workflow
                == add_links_spec(Seq::empty(), cs)[b].workflow),
    decreases cs.len(),
{
    if cs.len() > 0 {
        let d = cs.drop_last();
        lemma_add_links_sound(d);
        let prev = add_links_spec(Seq::empty(), d);
        let c = cs.last();
        let r = add_links_spec(Seq::empty(), cs);
        assert(r == add_link_spec(prev, c));
        assert forall|k: int| 0 <= k < r.len() implies added_for(cs, #[trigger] r[k]) by {
            if k < prev.len() {
                assert(r[k] == prev[k]);
                assert(added_for(d, prev[k]));
                let x = choose|x: LinkCandidate|
                    #[trigger] d.contains(x) && prev[k] == bare_link(x.0, x.1, x.2, x.3, LinkSource::YamlDiscovered);
                let m = choose|m: int| 0 <= m < d.len() && d[m] == x;
                assert(cs[m] == x);
                assert(cs.contains(x));
            } else {
                assert(cs[cs.len() - 1] == c);
                assert(cs.contains(c));
            }
        }
        assert forall|a: int, b: int| 0 <= a < b < r.len() implies !(#[trigger] r[a].pipeline == #[trigger] r[b].pipeline
            && r[a].workflow == r[b].workflow) by {
            if b < prev.len() {
                assert(r[a] == prev[a] && r[b] == prev[b]);
            } else {
                assert(r[a] == prev[a]);
                assert(!has_link_pair(prev, c.0, c.1));
            }
        }
    }
}

proof fn lemma_upload_candidates_sound(defs: Seq<PipelineDefinition>, files: Seq<WorkflowFile>, d: int, f: int, n: int)
    requires
        0 <= d < defs.len(),
        defs[d].source_s3 is Some,
        0 <= f < files.len(),
        0 <= n <= files[f].s3_uploads@.len(),
    ensures
        forall|c: LinkCandidate|
            upload_candidates(defs[d].name@, defs[d].source_s3->0, files[f].name@, files[f].s3_uploads@.take(n)).contains(c)
                ==> candidate_has_match(defs, files, c),
    decreases n,
{
    let src = defs[d].source_s3->0;
    let ups = files[f].s3_uploads@.take(n);
    if n > 0 {
        lemma_upload_candidates_sound(defs, files, d, f, n - 1);
        assert(ups.drop_last() =~= files[f].s3_uploads@.take(n - 1));
        let r = upload_candidates(defs[d].name@, src, files[f].name@, ups.drop_last());
        assert forall|c: LinkCandidate|
            upload_candidates(defs[d].name@, src, files[f].name@, ups).contains(c) implies candidate_has_match(defs, files, c) by {
            if s3_keys_match_spec(src.object_key@, ups.last().key@) {
                let k = choose|k: int| 0 <= k < r.len() + 1 && r.push((defs[d].name@, files[f].name@, src.bucket@, src.object_key@))[k] == c;
                if k < r.len() {
                    assert(r[k] == c);
                    assert(r.contains(c));
                } else {
                    let u = n - 1;
                    assert(files[f].s3_uploads@[u] == ups.last());
                    let l = bare_link(c.0, c.1, c.2, c.3, LinkSource::YamlDiscovered);
                    assert(defs[d].source_s3 matches Some(s) && l.pipeline == defs[d].name@ && l.workflow == files[f].name@
                        && l.bucket == s.bucket@ && l.key == s.object_key@ && s3_keys_match_spec(
                        s.object_key@,
                        files[f].s3_uploads@[u].key@,
                    ));
                }
            }
        }
    }
}

proof fn lemma_file_candidates_sound(defs: Seq<PipelineDefinition>, files: Seq<WorkflowFile>, d: int, n: int)
    requires
        0 <= d < defs.len(),
        defs[d].source_s3 is Some,
        0 <= n <= files.len(),
    ensures
        forall|c: LinkCandidate|
            file_candidates(defs[d].name@, defs[d].source_s3->0, files.take(n)).contains(c) ==> candidate_has_match(
                defs,
                files,
                c,
            ),
    decreases n,
{
    let src = defs[d].source_s3->0;
    if n > 0 {
        lemma_file_candidates_sound(defs, files, d, n - 1);
        let fs = files.take(n);
        assert(fs.drop_last() =~= files.take(n - 1));
        assert(fs.last() == files[n - 1]);
        lemma_upload_candidates_sound(defs, files, d, n - 1, files[n - 1].s3_uploads@.len() as int);
        assert(files[n - 1].s3_uploads@.take(files[n - 1].s3_uploads@.len() as int) =~= files[n - 1].s3_uploads@);
        let a = file_candidates(defs[d].name@, src, files.take(n - 1));
        let b = upload_candidates(defs[d].name@, src, files[n - 1].name@, files[n - 1].s3_uploads@);
        assert(file_candidates(defs[d].name@, src, fs) == a + b);
        assert forall|c: LinkCandidate| (a + b).contains(c) implies candidate_has_match(defs, files, c) by {
            let k = choose|k: int| 0 <= k < (a + b).len() && (a + b)[k] == c;
            if k < a.len() {
                assert(a[k] == c);
                assert(a.contains(c));
            } else {
                assert(b[k - a.len()] == c);
                assert(b.contains(c));
            }
        }
    }
}

proof fn lemma_discovery_candidates_sound(defs: Seq<PipelineDefinition>, files: Seq<WorkflowFile>, n: int)
    requires
        0 <= n <= defs.len(),
    ensures
        forall|c: LinkCandidate| discovery_candidates(defs.take(n), files).contains(c) ==> candidate_has_match(defs, files, c),
    decreases n,
{
    if n > 0 {
        lemma_discovery_candidates_sound(defs, files, n - 1);
        let ds = defs.take(n);
        assert(ds.drop_last() =~= defs.take(n - 1));
        assert(ds.last() == defs[n - 1]);
        let a = discovery_candidates(defs.take(n - 1), files);
        let b = match defs[n - 1].source_s3 {
            Some(src) => file_candidates(defs[n - 1].name@, src, files),
            None => Seq::empty(),
        };
        assert(discovery_candidates(ds, files) == a + b);
        if defs[n - 1].source_s3 is Some {
            lemma_file_candidates_sound(defs, files, n - 1, files.len() as int);
            assert(files.take(files.len() as int) =~= files);
        }
        assert forall|c: LinkCandidate| (a + b).contains(c) implies candidate_has_match(defs, files, c) by {
            let k = choose|k: int| 0 <= k < (a + b).len() && (a + b)[k] == c;
            if k < a.len() {
                assert(a[k] == c);
                assert(a.contains(c));
            } else {
                assert(b[k - a.len()] == c);
                assert(b.contains(c));
            }
        }
    }
}

/// Discovery finds nothing spurious: every discovered link joins a
/// pipeline whose S3 source matches an upload of a workflow file to that
/// workflow, carries the source's bucket and key, is marked as found in
/// the workflow files with no jobs yet, and no two links join the same
/// pipeline and workflow.
pub proof fn lemma_discovery_links_are_matches(defs: Seq<PipelineDefinition>, files: Seq<WorkflowFile>)
    ensures
        forall|k: int| 0 <= k < add_links_spec(Seq::empty(), discovery_candidates(defs, files)).len() ==> link_has_match(
            defs,
            files,
            #[trigger] add_links_spec(Seq::empty(), discovery_candidates(defs, files))[k],
        ) && add_links_spec(Seq::empty(), discovery_candidates(defs, files))[k].source == LinkSource::YamlDiscovered
            && add_links_spec(Seq::empty(), discovery_candidates(defs, files))[k].job_ids.len() == 0
            && add_links_spec(Seq::empty(), discovery_candidates(defs, files))[k].dep_job_ids.len() == 0,
        forall|a: int, b: int|
            0 <= a < b < add_links_spec(Seq::empty(), discovery_candidates(defs, files)).len() ==> !(
            #[trigger] add_links_spec(Seq::empty(), discovery_candidates(defs, files))[a].pipeline
                == #[trigger] add_links_spec(Seq::empty(), discovery_candidates(defs, files))[b].pipeline
                && add_links_spec(Seq::empty(), discovery_candidates(defs, files))[a].workflow == add_links_spec(
                Seq::empty(),
                discovery_candidates(defs, files),
            )[b].workflow),
{
    let cs = discovery_candidates(defs, files);
    lemma_discovery_candidates_sound(defs, files, defs.len() as int);
    assert(defs.take(defs.len() as int) =~= defs);
    lemma_add_links_sound(cs);
    let r = add_links_spec(Seq::empty(), cs);
    assert forall|k: int| 0 <= k < r.len() implies link_has_match(defs, files, #[trigger] r[k])
        && r[k].source == LinkSource::YamlDiscovered && r[k].job_ids.len() == 0 && r[k].dep_job_ids.len() == 0 by {
        assert(added_for(cs, r[k]));
        let c = choose|c: LinkCandidate| #[trigger] cs.contains(c) && r[k] == bare_link(c.0, c.1, c.2, c.3, LinkSource::YamlDiscovered);
        assert(candidate_has_match(defs, files, c));
    }
}

// ---------------------------------------------------------------------
// Laws
// ---------------------------------------------------------------------

/// Saving the links to a cache and loading that cache gives the same
/// links back: `to_cache` writes `cached_links_view(c.links@) == m.links`
/// and `load_from_cache` sets the links to `cached_links_view(c.links@)`.
pub proof fn lemma_cache_round_trip(saved: LinkMapView, cache: LinkCache, loaded: LinkMapView)
    requires
        cached_links_view(cache.links@) == saved.links,
        loaded.links == cached_links_view(cache.links@),
    ensures
        loaded.links == saved.links,
{
}

/// No two links join the same pipeline and workflow.
pub open spec fn link_pairs_unique(links: Seq<LinkView>) -> bool {
    forall|i: int, j: int|
        0 <= i < j < links.len() ==> !(#[trigger] links[i].pipeline == #[trigger] links[j].pipeline
            && links[i].workflow == links[j].workflow)
}

/// Adding discovered links never joins the same pipeline and workflow
/// twice.
pub proof fn lemma_add_discovered_keeps_pairs_unique(links: Seq<LinkView>, cs: Seq<LinkCandidate>)
    requires
        link_pairs_unique(links),
    ensures
        link_pairs_unique(add_links_spec(links, cs)),
    decreases cs.len(),
{
    if cs.len() > 0 {
        lemma_add_discovered_keeps_pairs_unique(links, cs.drop_last());
        let prev = add_links_spec(links, cs.drop_last());
        let c = cs.last();
        if !has_link_pair(prev, c.0, c.1) {
            let next = prev.push(bare_link(c.0, c.1, c.2, c.3, LinkSource::YamlDiscovered));
            assert forall|i: int, j: int|
                0 <= i < j < next.len() implies !(#[trigger] next[i].pipeline == #[trigger] next[j].pipeline
                && next[i].workflow == next[j].workflow) by {
                if j == prev.len() && next[i].pipeline == next[j].pipeline && next[i].workflow
                    == next[j].workflow {
                    assert(prev[i].pipeline == c.0 && prev[i].workflow == c.1);
                }
            }
        }
    }
}

/// After a link of a pipeline without links is added, the pipeline's
/// workflow is the link's.
pub proof fn lemma_added_link_found(links: Seq<LinkView>, c: LinkCandidate)
    requires
        workflow_of(links, c.0) is None,
    ensures
        workflow_of(add_link_spec(links, c), c.0) == Some(c.1),
{
    lemma_find_pipeline_absent(links, c.0, 0);
    assert(!has_link_pair(links, c.0, c.1));
    let next = links.push(bare_link(c.0, c.1, c.2, c.3, LinkSource::YamlDiscovered));
    lemma_find_pipeline_pushed(links, next, c.0, 0);
}

/// No link of `name` lies at or after `start` when the search finds none.
proof fn lemma_find_pipeline_absent(links: Seq<LinkView>, name: Seq<char>, start: int)
    requires
        0 <= start,
        find_pipeline_from(links, name, start) is None,
    ensures
        forall|i: int| start <= i < links.len() ==> #[trigger] links[i].pipeline != name,
    decreases links.len() - start,
{
    if start < links.len() {
        lemma_find_pipeline_absent(links, name, start + 1);
    }
}

/// Pushing a link of `name` onto links without one makes the search find
/// it.
proof fn lemma_find_pipeline_pushed(links: Seq<LinkView>, next: Seq<LinkView>, name: Seq<char>, start: int)
    requires
        0 <= start <= links.len(),
        next.len() == links.len() + 1,
        forall|i: int| 0 <= i < links.len() ==> next[i] == links[i],
        next[links.len() as int].pipeline == name,
        forall|i: int| start <= i < links.len() ==> #[trigger] links[i].pipeline != name,
    ensures
        find_pipeline_from(next, name, start) == Some(links.len() as int),
    decreases links.len() - start,
{
    if start < links.len() {
        assert(next[start].pipeline != name);
        lemma_find_pipeline_pushed(links, next, name, start + 1);
    }
}

/// Recording a completion at `now` leaves a live completion of that
/// workflow, and at most the cap of completions (given at most the cap
/// before).
pub proof fn lemma_recorded_completion_is_live(cs: Seq<(Seq<char>, u64)>, name: Seq<char>, now: u64)
    requires
        cs.len() <= MAX_RECENT_COMPLETIONS,
    ensures
        has_live_completion(record_spec(cs, name, now), name, now),
        record_spec(cs, name, now).len() <= MAX_RECENT_COMPLETIONS,
{
    let pruned = live_completions(cs, now);
    cs.lemma_filter_len(|c: (Seq<char>, u64)| is_live(c.1, now));
    if has_completion_named(pruned, name) {
        let i = choose|i: int| 0 <= i < pruned.len() && pruned[i].0 == name;
        broadcast use vstd::seq_lib::group_filter_ensures;
        assert(is_live(pruned[i].1, now));
    } else {
        let added = pruned.push((name, now));
        if added.len() > MAX_RECENT_COMPLETIONS {
            let kept = added.subrange(added.len() - MAX_RECENT_COMPLETIONS, added.len() as int);
            assert(kept[kept.len() - 1] == (name, now));
        } else {
            assert(added[added.len() - 1] == (name, now));
        }
    }
}

/// Correlating keeps only completions inside the window.
pub proof fn lemma_correlation_keeps_live_completions(m: LinkMapView, pipeline: Seq<char>, now: u64)
    ensures
        forall|i: int|
            0 <= i < correlate_spec(m, pipeline, now).0.completions.len() ==> is_live(
                #[trigger] correlate_spec(m, pipeline, now).0.completions[i].1,
                now,
            ),
{
    broadcast use vstd::seq_lib::group_filter_ensures;
}

/// A workflow whose run was already suppressed is left alone: neither
/// the same run nor a newer one started while its pipeline still runs is
/// suppressed again.  (A group without a run id is shown as succeeded
/// each time.)
pub proof fn lemma_suppressed_at_most_once(
    gs: Seq<WorkflowGroupView>,
    stopped: Seq<(Seq<char>, u64)>,
    wf: Seq<char>,
)
    requires
        has_stopped(stopped, wf),
        match find_wgroup_from(gs, wf, 0) {
            Some(i) => gs[i].run_id is Some,
            None => true,
        },
    ensures
        suppress_spec(gs, stopped, wf) == (gs, stopped),
{
}

/// A pipeline waits on its link only while it does not run itself, and
/// only when it has a link.
pub proof fn lemma_pending_only_when_linked_and_idle(
    pgs: Seq<PipelineGroupView>,
    wgs: Seq<WorkflowGroupView>,
    m: LinkMapView,
    now: u64,
)
    ensures
        forall|k: int|
            0 <= k < pgs.len() && (#[trigger] pending_spec(pgs, wgs, m, now)[k]).pending_link ==> {
                &&& pgs[k].summary_status != BuildStatus::Running
                &&& workflow_of(m.links, pgs[k].name) is Some
            },
{
}

} // verus!
