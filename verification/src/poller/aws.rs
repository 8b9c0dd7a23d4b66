use vstd::prelude::*;

use crate::model::BuildStatus;
use crate::poller::{PipelineDefinition, S3Source};
use crate::text::str_eq;

verus! {

/// The optional status string, as characters.
pub open spec fn opt_str_view(o: Option<&str>) -> Option<Seq<char>> {
    match o {
        Some(s) => Some(s@),
        None => None,
    }
}

/// A stage status that counts as a failure: Failed, Stopped or Superseded.
pub open spec fn is_failed_status(s: Seq<char>) -> bool {
    s == "Failed"@ || s == "Stopped"@ || s == "Superseded"@
}

/// The build status of an AWS pipeline execution status.
pub open spec fn pipeline_status_spec(status: Option<Seq<char>>) -> BuildStatus {
    match status {
        Some(s) => if s == "InProgress"@ {
            BuildStatus::Running
        } else if s == "Succeeded"@ {
            BuildStatus::Succeeded
        } else if is_failed_status(s) {
            BuildStatus::Failed
        } else {
            BuildStatus::Idle
        },
        None => BuildStatus::Idle,
    }
}

fn is_failed(s: &str) -> (r: bool)
    ensures
        r == is_failed_status(s@),
{
    str_eq(s, "Failed") || str_eq(s, "Stopped") || str_eq(s, "Superseded")
}

/// Maps an AWS pipeline execution status to a build status.
pub fn map_pipeline_status(status: Option<&str>) -> (r: BuildStatus)
    ensures
        r == pipeline_status_spec(opt_str_view(status)),
{
    match status {
        Some(s) => {
            if str_eq(s, "InProgress") {
                BuildStatus::Running
            } else if str_eq(s, "Succeeded") {
                BuildStatus::Succeeded
            } else if is_failed(s) {
                BuildStatus::Failed
            } else {
                BuildStatus::Idle
            }
        },
        None => BuildStatus::Idle,
    }
}

/// Some stage status satisfies `p`.
pub open spec fn any_stage(statuses: Seq<Option<Seq<char>>>, p: spec_fn(Seq<char>) -> bool) -> bool {
    exists|i: int| 0 <= i < statuses.len() && (#[trigger] statuses[i] matches Some(s) && p(s))
}

/// The pipeline status aggregated over its stages, by priority Running,
/// then Failed, then Succeeded, then Idle.
pub open spec fn aggregate_spec(statuses: Seq<Option<Seq<char>>>) -> BuildStatus {
    if any_stage(statuses, |s: Seq<char>| s == "InProgress"@) {
        BuildStatus::Running
    } else if any_stage(statuses, |s: Seq<char>| is_failed_status(s)) {
        BuildStatus::Failed
    } else if any_stage(statuses, |s: Seq<char>| s == "Succeeded"@) {
        BuildStatus::Succeeded
    } else {
        BuildStatus::Idle
    }
}

/// The views of the stage statuses.
pub open spec fn statuses_view(v: Seq<Option<&str>>) -> Seq<Option<Seq<char>>> {
    v.map_values(|o: Option<&str>| opt_str_view(o))
}

/// Aggregates the latest execution statuses of a pipeline's stages.
pub fn aggregate_stage_statuses(stage_statuses: &[Option<&str>]) -> (r: BuildStatus)
    ensures
        r == aggregate_spec(statuses_view(stage_statuses@)),
{
    let ghost sv = statuses_view(stage_statuses@);
    let mut has_in_progress = false;
    let mut has_failed = false;
    let mut has_succeeded = false;
    let mut i: usize = 0;
    while i < stage_statuses.len()
        invariant
            sv == statuses_view(stage_statuses@),
            i <= stage_statuses.len(),
            has_in_progress == any_stage(sv.take(i as int), |s: Seq<char>| s == "InProgress"@),
            has_failed == any_stage(sv.take(i as int), |s: Seq<char>| is_failed_status(s)),
            has_succeeded == any_stage(sv.take(i as int), |s: Seq<char>| s == "Succeeded"@),
        decreases stage_statuses.len() - i,
    {
        let ghost prev = sv.take(i as int);
        let ghost next = sv.take(i + 1);
        assert(next =~= prev.push(sv[i as int]));
        assert(sv[i as int] == opt_str_view(stage_statuses@[i as int]));
        match stage_statuses[i] {
            Some(s) => {
                if str_eq(s, "InProgress") {
                    has_in_progress = true;
                }
                if is_failed(s) {
                    has_failed = true;
                }
                if str_eq(s, "Succeeded") {
                    has_succeeded = true;
                }
            },
            None => {},
        }
        proof {
            assert forall|p: spec_fn(Seq<char>) -> bool|
                any_stage(next, p) == (any_stage(prev, p) || (sv[i as int] matches Some(s) && p(
                    s,
                ))) by {
                if any_stage(next, p) {
                    let k = choose|k: int|
                        0 <= k < next.len() && (#[trigger] next[k] matches Some(s) && p(s));
                    if k < prev.len() {
                        assert(prev[k] == next[k]);
                    }
                }
                if any_stage(prev, p) {
                    let k = choose|k: int|
                        0 <= k < prev.len() && (#[trigger] prev[k] matches Some(s) && p(s));
                    assert(next[k] == prev[k]);
                }
                if sv[i as int] matches Some(s) && p(s) {
                    assert(next[prev.len() as int] == sv[i as int]);
                }
            }
        }
        i = i + 1;
    }
    assert(sv.take(i as int) =~= sv);
    if has_in_progress {
        BuildStatus::Running
    } else if has_failed {
        BuildStatus::Failed
    } else if has_succeeded {
        BuildStatus::Succeeded
    } else {
        BuildStatus::Idle
    }
}


/// Some stage's status is `s`.
pub open spec fn some_stage_is(statuses: Seq<Option<Seq<char>>>, s: Seq<char>) -> bool {
    exists|i: int| 0 <= i < statuses.len() && #[trigger] statuses[i] == Some(s)
}

proof fn lemma_any_stage_witness(statuses: Seq<Option<Seq<char>>>, p: spec_fn(Seq<char>) -> bool, s: Seq<char>)
    requires
        some_stage_is(statuses, s),
        p(s),
    ensures
        any_stage(statuses, p),
{
    let i = choose|i: int| 0 <= i < statuses.len() && #[trigger] statuses[i] == Some(s);
    assert(statuses[i] matches Some(x) && p(x));
}

/// The pipeline status by priority over its stages: any stage in progress
/// makes it Running; otherwise any Failed, Stopped or Superseded stage
/// makes it Failed, whatever the other stages say; otherwise any
/// Succeeded stage makes it Succeeded; otherwise it is Idle.
pub proof fn lemma_aggregate_priorities(statuses: Seq<Option<Seq<char>>>)
    ensures
        some_stage_is(statuses, "InProgress"@) ==> aggregate_spec(statuses) == BuildStatus::Running,
        !some_stage_is(statuses, "InProgress"@) && (some_stage_is(statuses, "Failed"@) || some_stage_is(
            statuses,
            "Stopped"@,
        ) || some_stage_is(statuses, "Superseded"@)) ==> aggregate_spec(statuses) == BuildStatus::Failed,
        !some_stage_is(statuses, "InProgress"@) && !some_stage_is(statuses, "Failed"@) && !some_stage_is(
            statuses,
            "Stopped"@,
        ) && !some_stage_is(statuses, "Superseded"@) && some_stage_is(statuses, "Succeeded"@)
            ==> aggregate_spec(statuses) == BuildStatus::Succeeded,
        !some_stage_is(statuses, "InProgress"@) && !some_stage_is(statuses, "Failed"@) && !some_stage_is(
            statuses,
            "Stopped"@,
        ) && !some_stage_is(statuses, "Superseded"@) && !some_stage_is(statuses, "Succeeded"@)
            ==> aggregate_spec(statuses) == BuildStatus::Idle,
{
    let running = |s: Seq<char>| s == "InProgress"@;
    let failed = |s: Seq<char>| is_failed_status(s);
    let succeeded = |s: Seq<char>| s == "Succeeded"@;
    if some_stage_is(statuses, "InProgress"@) {
        lemma_any_stage_witness(statuses, running, "InProgress"@);
    }
    if some_stage_is(statuses, "Failed"@) {
        lemma_any_stage_witness(statuses, failed, "Failed"@);
    }
    if some_stage_is(statuses, "Stopped"@) {
        lemma_any_stage_witness(statuses, failed, "Stopped"@);
    }
    if some_stage_is(statuses, "Superseded"@) {
        lemma_any_stage_witness(statuses, failed, "Superseded"@);
    }
    if some_stage_is(statuses, "Succeeded"@) {
        lemma_any_stage_witness(statuses, succeeded, "Succeeded"@);
    }
    if any_stage(statuses, running) {
        let i = choose|i: int| 0 <= i < statuses.len() && (#[trigger] statuses[i] matches Some(s) && running(s));
        assert(statuses[i] == Some("InProgress"@));
    }
    if any_stage(statuses, failed) {
        let i = choose|i: int| 0 <= i < statuses.len() && (#[trigger] statuses[i] matches Some(s) && failed(s));
        assert(statuses[i] == Some("Failed"@) || statuses[i] == Some("Stopped"@) || statuses[i] == Some(
            "Superseded"@,
        ));
    }
    if any_stage(statuses, succeeded) {
        let i = choose|i: int| 0 <= i < statuses.len() && (#[trigger] statuses[i] matches Some(s) && succeeded(s));
        assert(statuses[i] == Some("Succeeded"@));
    }
}

proof fn lemma_any_stage_reordered(a: Seq<Option<Seq<char>>>, b: Seq<Option<Seq<char>>>, p: spec_fn(Seq<char>) -> bool)
    requires
        a.to_multiset() == b.to_multiset(),
        any_stage(a, p),
    ensures
        any_stage(b, p),
{
    let i = choose|i: int| 0 <= i < a.len() && (#[trigger] a[i] matches Some(s) && p(s));
    assert(a.contains(a[i]));
    vstd::seq_lib::to_multiset_contains(a, a[i]);
    vstd::seq_lib::to_multiset_contains(b, a[i]);
    let k = choose|k: int| 0 <= k < b.len() && b[k] == a[i];
    assert(b[k] matches Some(s) && p(s));
}

/// The pipeline status does not depend on the order in which its stages
/// are listed.
pub proof fn lemma_aggregate_ignores_stage_order(a: Seq<Option<Seq<char>>>, b: Seq<Option<Seq<char>>>)
    requires
        a.to_multiset() == b.to_multiset(),
    ensures
        aggregate_spec(a) == aggregate_spec(b),
{
    let ps = seq![
        |s: Seq<char>| s == "InProgress"@,
        |s: Seq<char>| is_failed_status(s),
        |s: Seq<char>| s == "Succeeded"@,
    ];
    assert forall|k: int| 0 <= k < 3 implies any_stage(a, #[trigger] ps[k]) == any_stage(b, ps[k]) by {
        if any_stage(a, ps[k]) {
            lemma_any_stage_reordered(a, b, ps[k]);
        }
        if any_stage(b, ps[k]) {
            lemma_any_stage_reordered(b, a, ps[k]);
        }
    }
    assert(any_stage(a, ps[0]) == any_stage(b, ps[0]));
    assert(any_stage(a, ps[1]) == any_stage(b, ps[1]));
    assert(any_stage(a, ps[2]) == any_stage(b, ps[2]));
}

/// One action of a pipeline's declaration, as plain values: its provider,
/// and its `S3Bucket` and `S3ObjectKey` configuration entries.
pub struct SourceAction {
    pub provider: String,
    pub bucket: Option<String>,
    pub object_key: Option<String>,
}

/// The S3 source among `acts[start..]`: the first action whose provider is
/// `S3` and that names both a bucket and an object key.
pub open spec fn s3_source_from(acts: Seq<SourceAction>, start: int) -> Option<(Seq<char>, Seq<char>)>
    decreases acts.len() - start,
{
    if start < 0 || start >= acts.len() {
        None
    } else {
        let a = acts[start];
        if a.provider@ == "S3"@ && a.bucket is Some && a.object_key is Some {
            Some((a.bucket->0@, a.object_key->0@))
        } else {
            s3_source_from(acts, start + 1)
        }
    }
}

/// A pipeline's source configuration, from the actions of its declaration
/// in order (see [`s3_source_from`]).
pub fn pipeline_definition(name: String, actions: &[SourceAction]) -> (d: PipelineDefinition)
    ensures
        d.name == name,
        match d.source_s3 {
            Some(s) => s3_source_from(actions@, 0) == Some((s.bucket@, s.object_key@)),
            None => s3_source_from(actions@, 0) is None,
        },
{
    let mut i: usize = 0;
    while i < actions.len()
        invariant
            i <= actions.len(),
            s3_source_from(actions@, 0) == s3_source_from(actions@, i as int),
        decreases actions.len() - i,
    {
        let a = &actions[i];
        if str_eq(a.provider.as_str(), "S3") {
            match (&a.bucket, &a.object_key) {
                (Some(b), Some(k)) => {
                    let source = S3Source { bucket: b.clone(), object_key: k.clone() };
                    return PipelineDefinition { name, source_s3: Some(source) };
                },
                _ => {},
            }
        }
        i = i + 1;
    }
    PipelineDefinition { name, source_s3: None }
}

} // verus!
