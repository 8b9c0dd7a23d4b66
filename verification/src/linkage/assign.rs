//! Splitting the jobs of linked workflows between their pipelines.

use vstd::prelude::*;

use crate::linkage::{
    links_view, s3_keys_match, s3_keys_match_spec, strings_contain, strings_view, JobAssignment, LinkMap,
    LinkView, PipelineLink,
};
use crate::poller::{JobS3Info, WorkflowFile};
use crate::text::{chars_lt, chars_of, lemma_seq_lt_asymmetric, lemma_seq_lt_total, lemma_seq_lt_transitive, seq_lt, str_eq};

verus! {

broadcast use vstd::seq_lib::group_seq_properties;

/// The jobs of the last workflow file named `name` that lists jobs.
pub open spec fn jobs_of(files: Seq<WorkflowFile>, name: Seq<char>) -> Option<Seq<JobS3Info>>
    decreases files.len(),
{
    if files.len() == 0 {
        None
    } else if files.last().name@ == name && files.last().jobs@.len() > 0 {
        Some(files.last().jobs@)
    } else {
        jobs_of(files.drop_last(), name)
    }
}

/// The index of the first job at or after `start` whose id is `id`.
pub open spec fn first_job_from(jobs: Seq<JobS3Info>, id: Seq<char>, start: int) -> Option<int>
    decreases jobs.len() - start,
{
    if start < 0 || start >= jobs.len() {
        None
    } else if jobs[start].job_id@ == id {
        Some(start)
    } else {
        first_job_from(jobs, id, start + 1)
    }
}

/// The `needs:` of the first job whose id is `id` (none without such a
/// job).
pub open spec fn needs_of(jobs: Seq<JobS3Info>, id: Seq<char>) -> Seq<Seq<char>> {
    match first_job_from(jobs, id, 0) {
        Some(i) => strings_view(jobs[i].needs@),
        None => Seq::empty(),
    }
}

/// The job uploads to an S3 key that matches `key`.
pub open spec fn uploads_to(job: JobS3Info, key: Seq<char>) -> bool {
    exists|u: int| 0 <= u < job.s3_uploads@.len() && s3_keys_match_spec(key, #[trigger] job.s3_uploads@[u].key@)
}

/// Some job with id `id` uploads to `key`.
pub open spec fn uploads_matched(jobs: Seq<JobS3Info>, key: Seq<char>, id: Seq<char>) -> bool {
    exists|j: int| 0 <= j < jobs.len() && #[trigger] jobs[j].job_id@ == id && uploads_to(jobs[j], key)
}

/// The set holds every job id that uploads to `key`.
pub open spec fn holds_matched(jobs: Seq<JobS3Info>, key: Seq<char>, s: Set<Seq<char>>) -> bool {
    forall|x: Seq<char>| #[trigger] uploads_matched(jobs, key, x) ==> s.contains(x)
}

/// The set holds the `needs:` of each of its ids (those of the first job
/// with that id).
pub open spec fn needs_closed(jobs: Seq<JobS3Info>, s: Set<Seq<char>>) -> bool {
    forall|x: Seq<char>, y: Seq<char>|
        s.contains(x) && #[trigger] needs_of(jobs, x).contains(y) ==> s.contains(y)
}

/// `id` lies in the least set that holds the jobs uploading to `key` and
/// the `needs:` of its members: a job that uploads to `key`, or one that
/// such a job needs, directly or through other jobs.
pub open spec fn in_closure(jobs: Seq<JobS3Info>, key: Seq<char>, id: Seq<char>) -> bool {
    forall|s: Set<Seq<char>>|
        holds_matched(jobs, key, s) && needs_closed(jobs, s) ==> #[trigger] s.contains(id)
}

/// Link `l` claims job `id`: its workflow lists jobs and `id` is in the
/// closure of its S3 key.
pub open spec fn covers(files: Seq<WorkflowFile>, l: LinkView, id: Seq<char>) -> bool {
    match jobs_of(files, l.workflow) {
        Some(js) => in_closure(js, l.key, id),
        None => false,
    }
}

/// Link number `a` claims job `id`.
pub open spec fn link_claims(files: Seq<WorkflowFile>, links: Seq<LinkView>, a: int, id: Seq<char>) -> bool {
    0 <= a < links.len() && covers(files, links[a], id)
}

/// Job `id` of workflow `wf` is claimed by links of two different
/// pipelines.
pub open spec fn is_shared(files: Seq<WorkflowFile>, links: Seq<LinkView>, wf: Seq<char>, id: Seq<char>) -> bool {
    exists|a: int, b: int|
        #[trigger] link_claims(files, links, a, id) && #[trigger] link_claims(files, links, b, id)
            && links[a].workflow == wf && links[b].workflow == wf && links[a].pipeline
            != links[b].pipeline
}

/// Job `id` of workflow `wf` is claimed by some link.
pub open spec fn is_assigned(files: Seq<WorkflowFile>, links: Seq<LinkView>, wf: Seq<char>, id: Seq<char>) -> bool {
    exists|a: int| #[trigger] link_claims(files, links, a, id) && links[a].workflow == wf
}

/// Some link of pipeline `p` claims `id`.
pub open spec fn pipeline_claims(files: Seq<WorkflowFile>, links: Seq<LinkView>, p: Seq<char>, id: Seq<char>) -> bool {
    exists|a: int| #[trigger] link_claims(files, links, a, id) && links[a].pipeline == p
}

/// The job ids shown under link `l`'s pipeline: those that the
/// pipeline's links claim, but not those of `l`'s workflow that are
/// shared.
pub open spec fn unique_ids(files: Seq<WorkflowFile>, links: Seq<LinkView>, l: LinkView) -> Set<Seq<char>> {
    Set::new(
        |id: Seq<char>|
            pipeline_claims(files, links, l.pipeline, id) && !is_shared(files, links, l.workflow, id),
    )
}

/// Workflow `wf` has a job with id `id` that no link claims.
pub open spec fn is_orphan(files: Seq<WorkflowFile>, links: Seq<LinkView>, wf: Seq<char>, js: Seq<JobS3Info>, id: Seq<char>) -> bool {
    (exists|j: int| 0 <= j < js.len() && #[trigger] js[j].job_id@ == id) && !is_assigned(
        files,
        links,
        wf,
        id,
    )
}

/// The job ids of workflow `wf` (whose jobs are `js`) shown apart from
/// any pipeline: the shared ones and the orphans.
pub open spec fn shared_ids(files: Seq<WorkflowFile>, links: Seq<LinkView>, wf: Seq<char>, js: Seq<JobS3Info>) -> Set<Seq<char>> {
    Set::new(
        |id: Seq<char>| is_shared(files, links, wf, id) || is_orphan(files, links, wf, js, id),
    )
}

/// Every job with id `id` has all of its `needs:` that lie in `ids` among
/// `done`.
pub open spec fn deps_done(ids: Set<Seq<char>>, jobs: Seq<JobS3Info>, done: Seq<Seq<char>>, id: Seq<char>) -> bool {
    forall|j: int, d: int|
        0 <= j < jobs.len() && jobs[j].job_id@ == id && 0 <= d < jobs[j].needs@.len() && ids.contains(
            #[trigger] jobs[j].needs@[d]@,
        ) ==> done.contains(jobs[j].needs@[d]@)
}

/// `x` may come next after `done`: it is in `ids`, not yet placed, and
/// its dependencies are placed.
pub open spec fn is_ready(ids: Set<Seq<char>>, jobs: Seq<JobS3Info>, done: Seq<Seq<char>>, x: Seq<char>) -> bool {
    ids.contains(x) && !done.contains(x) && deps_done(ids, jobs, done, x)
}

/// `x` comes next after `done`: the greatest of the ready ids.
pub open spec fn is_next(ids: Set<Seq<char>>, jobs: Seq<JobS3Info>, done: Seq<Seq<char>>, x: Seq<char>) -> bool {
    is_ready(ids, jobs, done, x) && forall|y: Seq<char>|
        #[trigger] is_ready(ids, jobs, done, y) ==> y == x || seq_lt(y, x)
}

/// `done` followed by up to `fuel` ids, each the next one.
pub open spec fn topo_from(ids: Set<Seq<char>>, jobs: Seq<JobS3Info>, done: Seq<Seq<char>>, fuel: nat) -> Seq<Seq<char>>
    decreases fuel,
{
    if fuel == 0 {
        done
    } else if exists|x: Seq<char>| is_next(ids, jobs, done, x) {
        topo_from(ids, jobs, done.push(choose|x: Seq<char>| is_next(ids, jobs, done, x)), (fuel - 1) as nat)
    } else {
        done
    }
}

/// The ids in dependency order: repeatedly the greatest id whose
/// dependencies (among `ids`) are placed.  Ids on a dependency cycle are
/// left out.
pub open spec fn topo_order(ids: Set<Seq<char>>, jobs: Seq<JobS3Info>) -> Seq<Seq<char>> {
    topo_from(ids, jobs, Seq::empty(), ids.len())
}

/// The display names of the jobs of `order` (the first job of each id),
/// skipping ids without a job.
pub open spec fn job_names(order: Seq<Seq<char>>, jobs: Seq<JobS3Info>) -> Seq<Seq<char>>
    decreases order.len(),
{
    if order.len() == 0 {
        Seq::empty()
    } else {
        let r = job_names(order.drop_last(), jobs);
        match first_job_from(jobs, order.last(), 0) {
            Some(i) => r.push(jobs[i].job_name@),
            None => r,
        }
    }
}

/// A pipeline's entry, as plain values: (pipeline, (workflow, job names)).
pub type PipelineEntry = (Seq<char>, (Seq<char>, Seq<Seq<char>>));

/// The pipeline entries, as plain values.
pub open spec fn pipeline_jobs_view(v: Seq<(String, (String, Vec<String>))>) -> Seq<PipelineEntry> {
    v.map_values(|e: (String, (String, Vec<String>))| (e.0@, (e.1.0@, strings_view(e.1.1@))))
}

/// The shared entries, as plain values: (workflow, job names).
pub open spec fn shared_jobs_view(v: Seq<(String, Vec<String>)>) -> Seq<(Seq<char>, Seq<Seq<char>>)> {
    v.map_values(|e: (String, Vec<String>)| (e.0@, strings_view(e.1@)))
}

/// The index of the entry of pipeline `p`, at or after `start`.
pub open spec fn find_entry_from(es: Seq<PipelineEntry>, p: Seq<char>, start: int) -> Option<int>
    decreases es.len() - start,
{
    if start < 0 || start >= es.len() {
        None
    } else if es[start].0 == p {
        Some(start)
    } else {
        find_entry_from(es, p, start + 1)
    }
}

/// The entries with pipeline `p`'s entry replaced, or added at the end.
pub open spec fn upsert_entry(es: Seq<PipelineEntry>, p: Seq<char>, v: (Seq<char>, Seq<Seq<char>>)) -> Seq<PipelineEntry> {
    match find_entry_from(es, p, 0) {
        Some(i) => es.update(i, (p, v)),
        None => es.push((p, v)),
    }
}

/// The pipeline entries after the first `upto` links: each link whose
/// workflow lists jobs sets its pipeline's entry to its workflow and the
/// names of the pipeline's unique jobs in dependency order (a later link
/// of the same pipeline replaces the entry).
pub open spec fn pipeline_entries(files: Seq<WorkflowFile>, links: Seq<LinkView>, upto: int) -> Seq<PipelineEntry>
    decreases upto,
{
    if upto <= 0 || upto > links.len() {
        Seq::empty()
    } else {
        let prev = pipeline_entries(files, links, upto - 1);
        let l = links[upto - 1];
        match jobs_of(files, l.workflow) {
            Some(js) => upsert_entry(
                prev,
                l.pipeline,
                (l.workflow, job_names(topo_order(unique_ids(files, links, l), js), js)),
            ),
            None => prev,
        }
    }
}

/// Link `a` is the first link of its workflow.
pub open spec fn first_of_workflow(links: Seq<LinkView>, a: int) -> bool {
    forall|b: int| 0 <= b < a ==> #[trigger] links[b].workflow != links[a].workflow
}

/// The shared entries after the first `upto` links: each linked workflow
/// that lists jobs and has shared or orphan jobs gets one entry, at its
/// first link, with their names in dependency order.
pub open spec fn shared_entries(files: Seq<WorkflowFile>, links: Seq<LinkView>, upto: int) -> Seq<(Seq<char>, Seq<Seq<char>>)>
    decreases upto,
{
    if upto <= 0 || upto > links.len() {
        Seq::empty()
    } else {
        let prev = shared_entries(files, links, upto - 1);
        let l = links[upto - 1];
        match jobs_of(files, l.workflow) {
            Some(js) => if first_of_workflow(links, upto - 1) && exists|id: Seq<char>|
                #[trigger] shared_ids(files, links, l.workflow, js).contains(id) {
                prev.push((l.workflow, job_names(topo_order(shared_ids(files, links, l.workflow, js), js), js)))
            } else {
                prev
            },
            None => prev,
        }
    }
}

/// The index of the file whose jobs [`jobs_of`] gives.
fn find_jobs_file(files: &[WorkflowFile], name: &str) -> (r: Option<usize>)
    ensures
        match r {
            Some(i) => i < files@.len() && jobs_of(files@, name@) == Some(files@[i as int].jobs@),
            None => jobs_of(files@, name@) is None,
        },
{
    let mut i: usize = files.len();
    assert(files@.take(i as int) =~= files@);
    while i > 0
        invariant
            i <= files@.len(),
            jobs_of(files@, name@) == jobs_of(files@.take(i as int), name@),
        decreases i,
    {
        i = i - 1;
        assert(files@.take(i + 1).drop_last() =~= files@.take(i as int));
        assert(files@.take(i + 1).last() == files@[i as int]);
        if files[i].jobs.len() > 0 && str_eq(files[i].name.as_str(), name) {
            return Some(i);
        }
    }
    None
}

/// The index of the first job whose id is `id`.
fn first_job(jobs: &Vec<JobS3Info>, id: &str) -> (r: Option<usize>)
    ensures
        match r {
            Some(i) => first_job_from(jobs@, id@, 0) == Some(i as int) && i < jobs@.len(),
            None => first_job_from(jobs@, id@, 0) is None,
        },
{
    let mut i: usize = 0;
    while i < jobs.len()
        invariant
            i <= jobs.len(),
            first_job_from(jobs@, id@, 0) == first_job_from(jobs@, id@, i as int),
        decreases jobs.len() - i,
    {
        if str_eq(jobs[i].job_id.as_str(), id) {
            return Some(i);
        }
        i = i + 1;
    }
    None
}

/// The job uploads to a key that matches `key`.
fn job_uploads_to(job: &JobS3Info, key: &str) -> (r: bool)
    ensures
        r == uploads_to(*job, key@),
{
    let mut u: usize = 0;
    while u < job.s3_uploads.len()
        invariant
            u <= job.s3_uploads.len(),
            forall|k: int| 0 <= k < u ==> !s3_keys_match_spec(key@, #[trigger] job.s3_uploads@[k].key@),
        decreases job.s3_uploads.len() - u,
    {
        if s3_keys_match(key, job.s3_uploads[u].key.as_str()) {
            return true;
        }
        u = u + 1;
    }
    false
}

/// The ids and `needs:` of all the jobs.
spec fn job_strings(jobs: Seq<JobS3Info>) -> Seq<Seq<char>>
    decreases jobs.len(),
{
    if jobs.len() == 0 {
        Seq::empty()
    } else {
        job_strings(jobs.drop_last()).push(jobs.last().job_id@) + strings_view(jobs.last().needs@)
    }
}

/// Every job's id and `needs:` lie in [`job_strings`].
proof fn lemma_job_strings(jobs: Seq<JobS3Info>, j: int)
    requires
        0 <= j < jobs.len(),
    ensures
        job_strings(jobs).contains(jobs[j].job_id@),
        forall|d: int|
            0 <= d < jobs[j].needs@.len() ==> job_strings(jobs).contains(#[trigger] jobs[j].needs@[d]@),
    decreases jobs.len(),
{
    let prev = job_strings(jobs.drop_last());
    let last = jobs.last();
    let all = job_strings(jobs);
    assert(all == prev.push(last.job_id@) + strings_view(last.needs@));
    if j == jobs.len() - 1 {
        assert(all[prev.len() as int] == last.job_id@);
        assert forall|d: int| 0 <= d < last.needs@.len() implies all.contains(
            #[trigger] last.needs@[d]@,
        ) by {
            assert(all[prev.len() + 1 + d] == last.needs@[d]@);
        }
    } else {
        lemma_job_strings(jobs.drop_last(), j);
        assert(jobs.drop_last()[j] == jobs[j]);
        assert forall|x: Seq<char>| prev.contains(x) implies all.contains(x) by {
            let k = choose|k: int| 0 <= k < prev.len() && prev[k] == x;
            assert(all[k] == x);
        }
    }
}

/// A sequence without repeats whose elements all lie in `u` is no longer
/// than `u`.
proof fn lemma_distinct_within<A>(a: Seq<A>, u: Seq<A>)
    requires
        a.no_duplicates(),
        forall|k: int| 0 <= k < a.len() ==> u.contains(#[trigger] a[k]),
    ensures
        a.len() <= u.len(),
{
    broadcast use vstd::seq_lib::seq_to_set_is_finite;

    a.unique_seq_to_set();
    u.lemma_cardinality_of_set();
    assert forall|x: A| a.to_set().contains(x) implies u.to_set().contains(x) by {
        let k = choose|k: int| 0 <= k < a.len() && a[k] == x;
    }
    vstd::set_lib::lemma_len_subset(a.to_set(), u.to_set());
}

/// Every id that the needs of a member below `upto` name is a member.
spec fn closed_under_needs(jobs: Seq<JobS3Info>, av: Seq<Seq<char>>, upto: int) -> bool {
    forall|k: int, x: Seq<char>|
        0 <= k < upto && #[trigger] needs_of(jobs, av[k]).contains(x) ==> av.contains(x)
}

/// The closure of `key` (see [`in_closure`]), without repeats.
fn closure_ids(jobs: &Vec<JobS3Info>, key: &str) -> (r: Vec<String>)
    ensures
        strings_view(r@).no_duplicates(),
        forall|id: Seq<char>| strings_view(r@).contains(id) <==> in_closure(jobs@, key@, id),
{
    let ghost js = jobs@;
    let ghost u = job_strings(js);
    let mut all: Vec<String> = Vec::new();
    let mut j: usize = 0;
    while j < jobs.len()
        invariant
            js == jobs@,
            u == job_strings(js),
            j <= jobs.len(),
            strings_view(all@).no_duplicates(),
            forall|k: int| 0 <= k < all@.len() ==> uploads_matched(js, key@, #[trigger] strings_view(all@)[k]),
            forall|k: int| 0 <= k < all@.len() ==> u.contains(#[trigger] strings_view(all@)[k]),
            forall|jj: int|
                0 <= jj < j && uploads_to(js[jj], key@) ==> strings_view(all@).contains(
                    #[trigger] js[jj].job_id@,
                ),
        decreases jobs.len() - j,
    {
        if job_uploads_to(&jobs[j], key) && !strings_contain(&all, jobs[j].job_id.as_str()) {
            let ghost before = strings_view(all@);
            all.push(jobs[j].job_id.clone());
            proof {
                assert(strings_view(all@) =~= before.push(js[j as int].job_id@));
                lemma_job_strings(js, j as int);
                assert(uploads_matched(js, key@, js[j as int].job_id@));
                assert forall|k: int| 0 <= k < all@.len() implies uploads_matched(
                    js,
                    key@,
                    #[trigger] strings_view(all@)[k],
                ) && u.contains(strings_view(all@)[k]) by {
                    if k < before.len() {
                        assert(strings_view(all@)[k] == before[k]);
                    } else {
                        assert(strings_view(all@)[k] == js[j as int].job_id@);
                    }
                }
            }
        }
        j = j + 1;
    }
    proof {
        assert forall|x: Seq<char>| #[trigger] uploads_matched(js, key@, x) implies strings_view(
            all@,
        ).contains(x) by {
            let jj = choose|jj: int|
                0 <= jj < js.len() && #[trigger] js[jj].job_id@ == x && uploads_to(js[jj], key@);
        }
        assert forall|k: int| 0 <= k < all@.len() implies in_closure(
            js,
            key@,
            #[trigger] strings_view(all@)[k],
        ) && u.contains(strings_view(all@)[k]) by {
            assert(uploads_matched(js, key@, strings_view(all@)[k]));
        }
        lemma_distinct_within(strings_view(all@), u);
    }
    let mut i: usize = 0;
    while i < all.len()
        invariant
            js == jobs@,
            u == job_strings(js),
            i <= all.len(),
            strings_view(all@).no_duplicates(),
            all@.len() <= u.len(),
            forall|k: int|
                0 <= k < all@.len() ==> in_closure(js, key@, #[trigger] strings_view(all@)[k])
                    && u.contains(strings_view(all@)[k]),
            forall|x: Seq<char>| #[trigger] uploads_matched(js, key@, x) ==> strings_view(all@).contains(x),
            closed_under_needs(js, strings_view(all@), i as int),
        decreases u.len() - i,
    {
        let ghost x = strings_view(all@)[i as int];
        match first_job(jobs, all[i].as_str()) {
            None => {
                assert(needs_of(js, x) =~= Seq::<Seq<char>>::empty());
            },
            Some(fj) => {
                let ghost deps = strings_view(jobs@[fj as int].needs@);
                assert(needs_of(js, x) == deps);
                proof {
                    lemma_job_strings(js, fj as int);
                }
                let mut d: usize = 0;
                while d < jobs[fj].needs.len()
                    invariant
                        js == jobs@,
                        u == job_strings(js),
                        fj < jobs@.len(),
                        deps == strings_view(jobs@[fj as int].needs@),
                        needs_of(js, x) == deps,
                        i < all@.len(),
                        x == strings_view(all@)[i as int],
                        d <= jobs@[fj as int].needs@.len(),
                        strings_view(all@).no_duplicates(),
                        all@.len() <= u.len(),
                        forall|k: int|
                            0 <= k < all@.len() ==> in_closure(js, key@, #[trigger] strings_view(all@)[k])
                                && u.contains(strings_view(all@)[k]),
                        forall|y: Seq<char>| #[trigger] uploads_matched(js, key@, y) ==> strings_view(all@).contains(y),
                        closed_under_needs(js, strings_view(all@), i as int),
                        forall|dd: int| 0 <= dd < d ==> strings_view(all@).contains(#[trigger] deps[dd]),
                        forall|dd: int| 0 <= dd < deps.len() ==> u.contains(#[trigger] deps[dd]),
                    decreases jobs@[fj as int].needs@.len() - d,
                {
                    let dep = &jobs[fj].needs[d];
                    assert(deps[d as int] == dep@);
                    if !strings_contain(&all, dep.as_str()) {
                        let ghost before = strings_view(all@);
                        all.push(dep.clone());
                        proof {
                            assert(strings_view(all@) =~= before.push(dep@));
                            assert(in_closure(js, key@, x));
                            assert(needs_of(js, x).contains(dep@));
                            assert forall|s: Set<Seq<char>>|
                                holds_matched(js, key@, s) && needs_closed(js, s) implies #[trigger] s.contains(
                                dep@,
                            ) by {
                                assert(s.contains(x));
                            }
                            assert forall|k: int| 0 <= k < all@.len() implies in_closure(
                                js,
                                key@,
                                #[trigger] strings_view(all@)[k],
                            ) && u.contains(strings_view(all@)[k]) by {
                                if k < before.len() {
                                    assert(strings_view(all@)[k] == before[k]);
                                }
                            }
                            assert forall|k: int, y: Seq<char>|
                                0 <= k < i && #[trigger] needs_of(js, strings_view(all@)[k]).contains(y) implies strings_view(
                                all@,
                            ).contains(y) by {
                                assert(strings_view(all@)[k] == before[k]);
                                assert(before.contains(y));
                            }
                            lemma_distinct_within(strings_view(all@), u);
                        }
                    }
                    d = d + 1;
                }
            },
        }
        proof {
            assert forall|k: int, y: Seq<char>|
                0 <= k < i + 1 && #[trigger] needs_of(js, strings_view(all@)[k]).contains(y) implies strings_view(
                all@,
            ).contains(y) by {
                if k == i {
                    let dd = choose|dd: int| 0 <= dd < needs_of(js, x).len() && needs_of(js, x)[dd] == y;
                }
            }
        }
        i = i + 1;
    }
    proof {
        let a = strings_view(all@).to_set();
        assert(holds_matched(js, key@, a));
        assert forall|x: Seq<char>, y: Seq<char>|
            a.contains(x) && #[trigger] needs_of(js, x).contains(y) implies a.contains(y) by {
            let k = choose|k: int| 0 <= k < all@.len() && strings_view(all@)[k] == x;
            assert(needs_of(js, strings_view(all@)[k]).contains(y));
        }
        assert(needs_closed(js, a));
        assert forall|id: Seq<char>| in_closure(js, key@, id) implies strings_view(all@).contains(id) by {
            assert(a.contains(id));
        }
        assert forall|id: Seq<char>| strings_view(all@).contains(id) implies in_closure(js, key@, id) by {
            let k = choose|k: int| 0 <= k < all@.len() && strings_view(all@)[k] == id;
        }
    }
    all
}

/// Two next ids are the same.
pub(crate) proof fn lemma_next_unique(ids: Set<Seq<char>>, jobs: Seq<JobS3Info>, done: Seq<Seq<char>>, a: Seq<char>, b: Seq<char>)
    requires
        is_next(ids, jobs, done, a),
        is_next(ids, jobs, done, b),
    ensures
        a == b,
{
    assert(is_ready(ids, jobs, done, a));
    assert(is_ready(ids, jobs, done, b));
    if a != b {
        lemma_seq_lt_asymmetric(a, b);
    }
}

/// Every job with id `x` has its `needs:` among `ids` in `done`.
fn deps_placed(ids: &Vec<String>, jobs: &Vec<JobS3Info>, done: &Vec<String>, x: &str) -> (r: bool)
    ensures
        r == deps_done(strings_view(ids@).to_set(), jobs@, strings_view(done@), x@),
{
    let ghost s = strings_view(ids@).to_set();
    let mut j: usize = 0;
    while j < jobs.len()
        invariant
            s == strings_view(ids@).to_set(),
            j <= jobs.len(),
            forall|jj: int, d: int|
                0 <= jj < j && jobs@[jj].job_id@ == x@ && 0 <= d < jobs@[jj].needs@.len()
                    && s.contains(#[trigger] jobs@[jj].needs@[d]@) ==> strings_view(done@).contains(
                    jobs@[jj].needs@[d]@,
                ),
        decreases jobs.len() - j,
    {
        if str_eq(jobs[j].job_id.as_str(), x) {
            let mut d: usize = 0;
            while d < jobs[j].needs.len()
                invariant
                    s == strings_view(ids@).to_set(),
                    j < jobs.len(),
                    jobs@[j as int].job_id@ == x@,
                    d <= jobs@[j as int].needs@.len(),
                    forall|jj: int, dd: int|
                        0 <= jj < j && jobs@[jj].job_id@ == x@ && 0 <= dd < jobs@[jj].needs@.len()
                            && s.contains(#[trigger] jobs@[jj].needs@[dd]@) ==> strings_view(done@).contains(
                            jobs@[jj].needs@[dd]@,
                        ),
                    forall|dd: int|
                        0 <= dd < d && s.contains(#[trigger] jobs@[j as int].needs@[dd]@) ==> strings_view(
                            done@,
                        ).contains(jobs@[j as int].needs@[dd]@),
                decreases jobs@[j as int].needs@.len() - d,
            {
                let dep = jobs[j].needs[d].as_str();
                if strings_contain(ids, dep) && !strings_contain(done, dep) {
                    assert(s.contains(jobs@[j as int].needs@[d as int]@));
                    return false;
                }
                d = d + 1;
            }
        }
        j = j + 1;
    }
    true
}

/// The ids in dependency order (see [`topo_order`]).
fn topo_sort(ids: &Vec<String>, jobs: &Vec<JobS3Info>) -> (r: Vec<String>)
    requires
        strings_view(ids@).no_duplicates(),
    ensures
        strings_view(r@) == topo_order(strings_view(ids@).to_set(), jobs@),
{
    let ghost iv = strings_view(ids@);
    let ghost s = iv.to_set();
    proof {
        iv.unique_seq_to_set();
    }
    let mut out: Vec<String> = Vec::new();
    let mut finished = false;
    while !finished
        invariant
            iv == strings_view(ids@),
            s == iv.to_set(),
            iv.no_duplicates(),
            s.len() == ids@.len(),
            strings_view(out@).no_duplicates(),
            forall|k: int| 0 <= k < out@.len() ==> iv.contains(#[trigger] strings_view(out@)[k]),
            out@.len() <= ids@.len(),
            topo_order(s, jobs@) == topo_from(s, jobs@, strings_view(out@), (ids@.len() - out@.len()) as nat),
            finished ==> topo_order(s, jobs@) == strings_view(out@),
        decreases ids@.len() - out@.len() + (if finished { 0int } else { 1int }),
    {
        let ghost ov = strings_view(out@);
        let mut best: Option<usize> = None;
        let mut k: usize = 0;
        while k < ids.len()
            invariant
                iv == strings_view(ids@),
                s == iv.to_set(),
                ov == strings_view(out@),
                k <= ids.len(),
                match best {
                    Some(b) => b < k && is_ready(s, jobs@, ov, iv[b as int]) && forall|kk: int|
                        0 <= kk < k && is_ready(s, jobs@, ov, #[trigger] iv[kk]) ==> iv[kk] == iv[b as int]
                            || seq_lt(iv[kk], iv[b as int]),
                    None => forall|kk: int| 0 <= kk < k ==> !is_ready(s, jobs@, ov, #[trigger] iv[kk]),
                },
            decreases ids.len() - k,
        {
            let cand = ids[k].as_str();
            assert(s.contains(iv[k as int]));
            if !strings_contain(&out, cand) && deps_placed(ids, jobs, &out, cand) {
                assert(is_ready(s, jobs@, ov, iv[k as int]));
                match best {
                    None => {
                        best = Some(k);
                    },
                    Some(b) => {
                        let cb = chars_of(ids[b].as_str());
                        let ck = chars_of(cand);
                        if chars_lt(&cb, &ck) {
                            proof {
                                assert forall|kk: int|
                                    0 <= kk < k + 1 && is_ready(s, jobs@, ov, #[trigger] iv[kk]) implies iv[kk]
                                    == iv[k as int] || seq_lt(iv[kk], iv[k as int]) by {
                                    if kk < k && iv[kk] != iv[b as int] {
                                        lemma_seq_lt_transitive(iv[kk], iv[b as int], iv[k as int]);
                                    }
                                }
                            }
                            best = Some(k);
                        } else {
                            proof {
                                if iv[k as int] != iv[b as int] {
                                    lemma_seq_lt_total(iv[k as int], iv[b as int]);
                                }
                            }
                        }
                    },
                }
            }
            k = k + 1;
        }
        match best {
            None => {
                proof {
                    assert forall|x: Seq<char>| !is_next(s, jobs@, ov, x) by {
                        if is_next(s, jobs@, ov, x) {
                            let kk = choose|kk: int| 0 <= kk < iv.len() && iv[kk] == x;
                            assert(!is_ready(s, jobs@, ov, iv[kk]));
                        }
                    }
                }
                finished = true;
            },
            Some(b) => {
                let ghost x = iv[b as int];
                proof {
                    assert forall|y: Seq<char>| #[trigger] is_ready(s, jobs@, ov, y) implies y == x || seq_lt(y, x) by {
                        let kk = choose|kk: int| 0 <= kk < iv.len() && iv[kk] == y;
                        assert(is_ready(s, jobs@, ov, iv[kk]));
                    }
                    assert(is_next(s, jobs@, ov, x));
                    let c = choose|c: Seq<char>| is_next(s, jobs@, ov, c);
                    lemma_next_unique(s, jobs@, ov, c, x);
                    lemma_distinct_within(ov.push(x), iv);
                }
                out.push(ids[b].clone());
                assert(strings_view(out@) =~= ov.push(x));
            },
        }
    }
    out
}

/// The display names of the jobs of `order` (see [`job_names`]).
fn names_of(order: &Vec<String>, jobs: &Vec<JobS3Info>) -> (r: Vec<String>)
    ensures
        strings_view(r@) == job_names(strings_view(order@), jobs@),
{
    let ghost ov = strings_view(order@);
    let mut r: Vec<String> = Vec::new();
    let mut i: usize = 0;
    while i < order.len()
        invariant
            ov == strings_view(order@),
            i <= order.len(),
            strings_view(r@) == job_names(ov.take(i as int), jobs@),
        decreases order.len() - i,
    {
        assert(ov.take(i + 1).drop_last() =~= ov.take(i as int));
        match first_job(jobs, order[i].as_str()) {
            Some(fj) => {
                let ghost before = strings_view(r@);
                r.push(jobs[fj].job_name.clone());
                assert(strings_view(r@) =~= before.push(jobs@[fj as int].job_name@));
            },
            None => {},
        }
        i = i + 1;
    }
    assert(ov.take(i as int) =~= ov);
    r
}

/// The closure computed for a link: present exactly when its workflow
/// lists jobs, and then the ids that the link claims, without repeats.
spec fn closure_ok(files: Seq<WorkflowFile>, l: LinkView, c: Option<Vec<String>>) -> bool {
    match c {
        Some(v) => jobs_of(files, l.workflow) is Some && strings_view(v@).no_duplicates() && forall|id: Seq<char>|
            #[trigger] strings_view(v@).contains(id) <==> covers(files, l, id),
        None => jobs_of(files, l.workflow) is None,
    }
}

/// The closures of all links are computed.
spec fn closures_ok(files: Seq<WorkflowFile>, links: Seq<LinkView>, cl: Seq<Option<Vec<String>>>) -> bool {
    cl.len() == links.len() && forall|a: int| 0 <= a < links.len() ==> #[trigger] closure_ok(files, links[a], cl[a])
}

/// The closure of each link.
fn link_closures(files: &[WorkflowFile], links: &[PipelineLink]) -> (r: Vec<Option<Vec<String>>>)
    ensures
        closures_ok(files@, links_view(links@), r@),
{
    let ghost lv = links_view(links@);
    let mut r: Vec<Option<Vec<String>>> = Vec::new();
    let mut a: usize = 0;
    while a < links.len()
        invariant
            lv == links_view(links@),
            a <= links.len(),
            r@.len() == a,
            forall|b: int| 0 <= b < a ==> #[trigger] closure_ok(files@, lv[b], r@[b]),
        decreases links.len() - a,
    {
        let l = &links[a];
        assert(lv[a as int] == l@);
        let c = match find_jobs_file(files, l.workflow_name.as_str()) {
            Some(fi) => {
                let ids = closure_ids(&files[fi].jobs, l.s3_key.as_str());
                assert forall|id: Seq<char>| #[trigger] strings_view(ids@).contains(id) <==> covers(files@, lv[a as int], id) by {}
                Some(ids)
            },
            None => None,
        };
        assert(closure_ok(files@, lv[a as int], c));
        r.push(c);
        a = a + 1;
    }
    r
}

/// The computed closure holds `id`.
fn closure_has(c: &Option<Vec<String>>, id: &str) -> (r: bool)
    ensures
        r == match c {
            Some(v) => strings_view(v@).contains(id@),
            None => false,
        },
{
    match c {
        Some(v) => strings_contain(v, id),
        None => false,
    }
}

/// Job `id` of workflow `wf` is shared (see [`is_shared`]).
fn shared_check(
    Ghost(files): Ghost<Seq<WorkflowFile>>,
    links: &[PipelineLink],
    cl: &Vec<Option<Vec<String>>>,
    wf: &str,
    id: &str,
) -> (r: bool)
    requires
        closures_ok(files, links_view(links@), cl@),
    ensures
        r == is_shared(files, links_view(links@), wf@, id@),
{
    let ghost lv = links_view(links@);
    let mut a: usize = 0;
    while a < links.len()
        invariant
            lv == links_view(links@),
            closures_ok(files, lv, cl@),
            a <= links.len(),
            forall|a2: int, b2: int|
                0 <= a2 < a && #[trigger] link_claims(files, lv, a2, id@) && #[trigger] link_claims(files, lv, b2, id@) ==> !(lv[a2].workflow == wf@
                    && lv[b2].workflow == wf@ && lv[a2].pipeline != lv[b2].pipeline),
        decreases links.len() - a,
    {
        assert(lv[a as int] == links@[a as int]@);
        assert(closure_ok(files, lv[a as int], cl@[a as int]));
        if str_eq(links[a].workflow_name.as_str(), wf) && closure_has(&cl[a], id) {
            assert(link_claims(files, lv, a as int, id@));
            let mut b: usize = 0;
            while b < links.len()
                invariant
                    lv == links_view(links@),
                    closures_ok(files, lv, cl@),
                    a < links.len(),
                    b <= links.len(),
                    lv[a as int].workflow == wf@,
                    lv[a as int] == links@[a as int]@,
                    link_claims(files, lv, a as int, id@),
                    forall|a2: int, b2: int|
                        0 <= a2 < a && #[trigger] link_claims(files, lv, a2, id@) && #[trigger] link_claims(files, lv, b2, id@) ==> !(lv[a2].workflow == wf@
                            && lv[b2].workflow == wf@ && lv[a2].pipeline != lv[b2].pipeline),
                    forall|b2: int|
                        0 <= b2 < b && #[trigger] link_claims(files, lv, b2, id@) ==> !(lv[a as int].workflow == wf@
                            && lv[b2].workflow == wf@ && lv[a as int].pipeline != lv[b2].pipeline),
                decreases links.len() - b,
            {
                assert(lv[b as int] == links@[b as int]@);
                assert(closure_ok(files, lv[b as int], cl@[b as int]));
                if str_eq(links[b].workflow_name.as_str(), wf) && closure_has(&cl[b], id) && !str_eq(
                    links[b].pipeline_name.as_str(),
                    links[a].pipeline_name.as_str(),
                ) {
                    assert(link_claims(files, lv, b as int, id@));
                    assert(lv[a as int].pipeline != lv[b as int].pipeline);
                    assert(link_claims(files, lv, a as int, id@) && link_claims(files, lv, b as int, id@)
                        && lv[a as int].workflow == wf@ && lv[b as int].workflow == wf@
                        && lv[a as int].pipeline != lv[b as int].pipeline);
                    return true;
                }
                b = b + 1;
            }
        }
        a = a + 1;
    }
    false
}

/// Job `id` of workflow `wf` is claimed by some link (see
/// [`is_assigned`]).
fn assigned_check(
    Ghost(files): Ghost<Seq<WorkflowFile>>,
    links: &[PipelineLink],
    cl: &Vec<Option<Vec<String>>>,
    wf: &str,
    id: &str,
) -> (r: bool)
    requires
        closures_ok(files, links_view(links@), cl@),
    ensures
        r == is_assigned(files, links_view(links@), wf@, id@),
{
    let ghost lv = links_view(links@);
    let mut a: usize = 0;
    while a < links.len()
        invariant
            lv == links_view(links@),
            closures_ok(files, lv, cl@),
            a <= links.len(),
            forall|a2: int| 0 <= a2 < a && #[trigger] link_claims(files, lv, a2, id@) ==> lv[a2].workflow != wf@,
        decreases links.len() - a,
    {
        assert(lv[a as int] == links@[a as int]@);
        assert(closure_ok(files, lv[a as int], cl@[a as int]));
        if str_eq(links[a].workflow_name.as_str(), wf) && closure_has(&cl[a], id) {
            assert(link_claims(files, lv, a as int, id@));
            return true;
        }
        a = a + 1;
    }
    false
}

/// One of the first `upto` links is of pipeline `p` and claims `id`.
spec fn claimed_before(files: Seq<WorkflowFile>, links: Seq<LinkView>, p: Seq<char>, id: Seq<char>, upto: int) -> bool {
    exists|a: int| 0 <= a < upto && #[trigger] link_claims(files, links, a, id) && links[a].pipeline == p
}

proof fn lemma_claimed_step(files: Seq<WorkflowFile>, links: Seq<LinkView>, p: Seq<char>, id: Seq<char>, a: int)
    requires
        0 <= a,
    ensures
        claimed_before(files, links, p, id, a + 1) == (claimed_before(files, links, p, id, a) || (
        link_claims(files, links, a, id) && links[a].pipeline == p)),
{
    if claimed_before(files, links, p, id, a + 1) {
        let a2 = choose|a2: int|
            0 <= a2 < a + 1 && #[trigger] link_claims(files, links, a2, id) && links[a2].pipeline == p;
        if a2 < a {
            assert(claimed_before(files, links, p, id, a));
        }
    }
    if link_claims(files, links, a, id) && links[a].pipeline == p {
        assert(claimed_before(files, links, p, id, a + 1));
    }
    if claimed_before(files, links, p, id, a) {
        let a2 = choose|a2: int|
            0 <= a2 < a && #[trigger] link_claims(files, links, a2, id) && links[a2].pipeline == p;
        assert(claimed_before(files, links, p, id, a + 1));
    }
}

/// The ids shown under link `l`'s pipeline (see [`unique_ids`]).
fn unique_job_ids(
    Ghost(files): Ghost<Seq<WorkflowFile>>,
    links: &[PipelineLink],
    cl: &Vec<Option<Vec<String>>>,
    l: usize,
) -> (r: Vec<String>)
    requires
        closures_ok(files, links_view(links@), cl@),
        l < links@.len(),
    ensures
        strings_view(r@).no_duplicates(),
        forall|id: Seq<char>|
            #[trigger] strings_view(r@).contains(id) <==> unique_ids(
                files,
                links_view(links@),
                links_view(links@)[l as int],
            ).contains(id),
{
    let ghost lv = links_view(links@);
    let ghost p = lv[l as int].pipeline;
    let ghost wf = lv[l as int].workflow;
    assert(lv[l as int] == links@[l as int]@);
    let mut ids: Vec<String> = Vec::new();
    let mut a: usize = 0;
    while a < links.len()
        invariant
            lv == links_view(links@),
            closures_ok(files, lv, cl@),
            l < links@.len(),
            p == lv[l as int].pipeline,
            wf == lv[l as int].workflow,
            lv[l as int] == links@[l as int]@,
            a <= links.len(),
            strings_view(ids@).no_duplicates(),
            forall|id: Seq<char>|
                #[trigger] strings_view(ids@).contains(id) <==> (claimed_before(files, lv, p, id, a as int)
                    && !is_shared(files, lv, wf, id)),
        decreases links.len() - a,
    {
        assert(lv[a as int] == links@[a as int]@);
        assert(closure_ok(files, lv[a as int], cl@[a as int]));
        proof {
            assert forall|id: Seq<char>|
                claimed_before(files, lv, p, id, a + 1) == (claimed_before(files, lv, p, id, a as int) || (
                #[trigger] link_claims(files, lv, a as int, id) && lv[a as int].pipeline == p)) by {
                lemma_claimed_step(files, lv, p, id, a as int);
            }
        }
        if str_eq(links[a].pipeline_name.as_str(), links[l].pipeline_name.as_str()) {
            match &cl[a] {
                Some(c) => {
                    let ghost cv = strings_view(c@);
                    let mut k: usize = 0;
                    while k < c.len()
                        invariant
                            lv == links_view(links@),
                            closures_ok(files, lv, cl@),
                            cv == strings_view(c@),
                            k <= c.len(),
                            l < links@.len(),
                            wf == links@[l as int].workflow_name@,
                            strings_view(ids@).no_duplicates(),
                            forall|id: Seq<char>|
                                #[trigger] strings_view(ids@).contains(id) <==> ((claimed_before(
                                    files,
                                    lv,
                                    p,
                                    id,
                                    a as int,
                                ) || cv.take(k as int).contains(id)) && !is_shared(files, lv, wf, id)),
                        decreases c.len() - k,
                    {
                        let id = c[k].as_str();
                        assert(cv.take(k + 1) =~= cv.take(k as int).push(id@));
                        let shared = shared_check(
                            Ghost(files),
                            links,
                            cl,
                            links[l].workflow_name.as_str(),
                            id,
                        );
                        if !shared && !strings_contain(&ids, id) {
                            let ghost before = strings_view(ids@);
                            ids.push(c[k].clone());
                            assert(strings_view(ids@) =~= before.push(id@));
                        }
                        k = k + 1;
                    }
                    assert(cv.take(k as int) =~= cv);
                    assert(cl@[a as int] == Some(*c));
                    assert forall|id: Seq<char>| #[trigger] cv.contains(id) == link_claims(files, lv, a as int, id) by {
                        assert(strings_view(c@).contains(id) == covers(files, lv[a as int], id));
                    }
                    assert(lv[a as int].pipeline == p);
                },
                None => {
                    assert(cl@[a as int] is None);
                    assert forall|id: Seq<char>| !#[trigger] link_claims(files, lv, a as int, id) by {}
                },
            }
        }
        a = a + 1;
    }
    proof {
        assert forall|id: Seq<char>|
            claimed_before(files, lv, p, id, lv.len() as int) == #[trigger] pipeline_claims(files, lv, p, id) by {
            if pipeline_claims(files, lv, p, id) {
                let a2 = choose|a2: int| #[trigger] link_claims(files, lv, a2, id) && lv[a2].pipeline == p;
                assert(claimed_before(files, lv, p, id, lv.len() as int));
            }
        }
    }
    ids
}

/// One of the first `upto` links is of workflow `wf`, claims `id`, and
/// `id` is shared.
spec fn shared_before(files: Seq<WorkflowFile>, links: Seq<LinkView>, wf: Seq<char>, id: Seq<char>, upto: int) -> bool {
    is_shared(files, links, wf, id) && exists|a: int|
        0 <= a < upto && #[trigger] link_claims(files, links, a, id) && links[a].workflow == wf
}

proof fn lemma_shared_step(files: Seq<WorkflowFile>, links: Seq<LinkView>, wf: Seq<char>, id: Seq<char>, a: int)
    requires
        0 <= a,
    ensures
        shared_before(files, links, wf, id, a + 1) == (shared_before(files, links, wf, id, a) || (
        is_shared(files, links, wf, id) && link_claims(files, links, a, id) && links[a].workflow == wf)),
{
    if shared_before(files, links, wf, id, a + 1) {
        let a2 = choose|a2: int|
            0 <= a2 < a + 1 && #[trigger] link_claims(files, links, a2, id) && links[a2].workflow == wf;
        if a2 < a {
            assert(shared_before(files, links, wf, id, a));
        }
    }
    if is_shared(files, links, wf, id) && link_claims(files, links, a, id) && links[a].workflow == wf {
        assert(shared_before(files, links, wf, id, a + 1));
    }
    if shared_before(files, links, wf, id, a) {
        let a2 = choose|a2: int|
            0 <= a2 < a && #[trigger] link_claims(files, links, a2, id) && links[a2].workflow == wf;
        assert(shared_before(files, links, wf, id, a + 1));
    }
}

/// One of the first `upto` jobs has id `x`.
spec fn job_before(js: Seq<JobS3Info>, x: Seq<char>, upto: int) -> bool {
    exists|j: int| 0 <= j < upto && #[trigger] js[j].job_id@ == x
}

/// The shared and orphan ids of workflow `wf`, whose jobs are `jobs` (see
/// [`shared_ids`]).
fn shared_job_ids(
    Ghost(files): Ghost<Seq<WorkflowFile>>,
    links: &[PipelineLink],
    cl: &Vec<Option<Vec<String>>>,
    wf: &str,
    jobs: &Vec<JobS3Info>,
) -> (r: Vec<String>)
    requires
        closures_ok(files, links_view(links@), cl@),
    ensures
        strings_view(r@).no_duplicates(),
        forall|id: Seq<char>|
            #[trigger] strings_view(r@).contains(id) <==> shared_ids(files, links_view(links@), wf@, jobs@).contains(id),
{
    let ghost lv = links_view(links@);
    let mut ids: Vec<String> = Vec::new();
    let mut a: usize = 0;
    while a < links.len()
        invariant
            lv == links_view(links@),
            closures_ok(files, lv, cl@),
            a <= links.len(),
            strings_view(ids@).no_duplicates(),
            forall|id: Seq<char>|
                #[trigger] strings_view(ids@).contains(id) <==> shared_before(files, lv, wf@, id, a as int),
        decreases links.len() - a,
    {
        assert(lv[a as int] == links@[a as int]@);
        assert(closure_ok(files, lv[a as int], cl@[a as int]));
        proof {
            assert forall|id: Seq<char>|
                shared_before(files, lv, wf@, id, a + 1) == (shared_before(files, lv, wf@, id, a as int) || (
                is_shared(files, lv, wf@, id) && #[trigger] link_claims(files, lv, a as int, id)
                    && lv[a as int].workflow == wf@)) by {
                lemma_shared_step(files, lv, wf@, id, a as int);
            }
        }
        if str_eq(links[a].workflow_name.as_str(), wf) {
            match &cl[a] {
                Some(c) => {
                    let ghost cv = strings_view(c@);
                    let mut k: usize = 0;
                    while k < c.len()
                        invariant
                            lv == links_view(links@),
                            closures_ok(files, lv, cl@),
                            cv == strings_view(c@),
                            k <= c.len(),
                            strings_view(ids@).no_duplicates(),
                            forall|id: Seq<char>|
                                #[trigger] strings_view(ids@).contains(id) <==> (shared_before(
                                    files,
                                    lv,
                                    wf@,
                                    id,
                                    a as int,
                                ) || (cv.take(k as int).contains(id) && is_shared(files, lv, wf@, id))),
                        decreases c.len() - k,
                    {
                        let id = c[k].as_str();
                        assert(cv.take(k + 1) =~= cv.take(k as int).push(id@));
                        if shared_check(Ghost(files), links, cl, wf, id) && !strings_contain(&ids, id) {
                            let ghost before = strings_view(ids@);
                            ids.push(c[k].clone());
                            assert(strings_view(ids@) =~= before.push(id@));
                        }
                        k = k + 1;
                    }
                    assert(cv.take(k as int) =~= cv);
                    assert(cl@[a as int] == Some(*c));
                    assert forall|id: Seq<char>| #[trigger] cv.contains(id) == link_claims(files, lv, a as int, id) by {
                        assert(strings_view(c@).contains(id) == covers(files, lv[a as int], id));
                    }
                    assert(lv[a as int].workflow == wf@);
                },
                None => {
                    assert(cl@[a as int] is None);
                    assert forall|id: Seq<char>| !#[trigger] link_claims(files, lv, a as int, id) by {}
                },
            }
        }
        a = a + 1;
    }
    proof {
        assert forall|id: Seq<char>|
            shared_before(files, lv, wf@, id, lv.len() as int) == #[trigger] is_shared(files, lv, wf@, id) by {
            if is_shared(files, lv, wf@, id) {
                let (a2, b2) = choose|a2: int, b2: int|
                    #[trigger] link_claims(files, lv, a2, id) && #[trigger] link_claims(files, lv, b2, id)
                        && lv[a2].workflow == wf@ && lv[b2].workflow == wf@ && lv[a2].pipeline
                        != lv[b2].pipeline;
                assert(shared_before(files, lv, wf@, id, lv.len() as int));
            }
        }
    }
    let ghost js = jobs@;
    let mut j: usize = 0;
    while j < jobs.len()
        invariant
            lv == links_view(links@),
            closures_ok(files, lv, cl@),
            js == jobs@,
            j <= jobs.len(),
            strings_view(ids@).no_duplicates(),
            forall|id: Seq<char>|
                #[trigger] strings_view(ids@).contains(id) <==> (is_shared(files, lv, wf@, id) || (
                job_before(js, id, j as int) && !is_assigned(files, lv, wf@, id))),
        decreases jobs.len() - j,
    {
        let id = jobs[j].job_id.as_str();
        proof {
            assert forall|x: Seq<char>|
                job_before(js, x, j + 1) == (job_before(js, x, j as int) || js[j as int].job_id@ == x) by {
                if job_before(js, x, j + 1) {
                    let j2 = choose|j2: int| 0 <= j2 < j + 1 && #[trigger] js[j2].job_id@ == x;
                    if j2 < j {
                        assert(job_before(js, x, j as int));
                    }
                }
                if js[j as int].job_id@ == x {
                    assert(job_before(js, x, j + 1));
                }
                if job_before(js, x, j as int) {
                    let j2 = choose|j2: int| 0 <= j2 < j && #[trigger] js[j2].job_id@ == x;
                    assert(job_before(js, x, j + 1));
                }
            }
        }
        if !assigned_check(Ghost(files), links, cl, wf, id) && !strings_contain(&ids, id) {
            let ghost before = strings_view(ids@);
            ids.push(jobs[j].job_id.clone());
            assert(strings_view(ids@) =~= before.push(id@));
        }
        j = j + 1;
    }
    proof {
        assert forall|id: Seq<char>|
            job_before(js, id, js.len() as int) == (exists|jj: int| 0 <= jj < js.len() && #[trigger] js[jj].job_id@ == id) by {}
    }
    ids
}

/// The index of pipeline `p`'s entry.
fn find_entry(es: &Vec<(String, (String, Vec<String>))>, p: &str) -> (r: Option<usize>)
    ensures
        match r {
            Some(i) => find_entry_from(pipeline_jobs_view(es@), p@, 0) == Some(i as int) && i < es@.len(),
            None => find_entry_from(pipeline_jobs_view(es@), p@, 0) is None,
        },
{
    let ghost ev = pipeline_jobs_view(es@);
    let mut i: usize = 0;
    while i < es.len()
        invariant
            ev == pipeline_jobs_view(es@),
            i <= es.len(),
            find_entry_from(ev, p@, 0) == find_entry_from(ev, p@, i as int),
        decreases es.len() - i,
    {
        assert(ev[i as int].0 == es@[i as int].0@);
        if str_eq(es[i].0.as_str(), p) {
            return Some(i);
        }
        i = i + 1;
    }
    None
}

/// Link `l` is the first link of its workflow.
fn is_first_of_workflow(links: &[PipelineLink], l: usize) -> (r: bool)
    requires
        l < links@.len(),
    ensures
        r == first_of_workflow(links_view(links@), l as int),
{
    let ghost lv = links_view(links@);
    let mut b: usize = 0;
    while b < l
        invariant
            lv == links_view(links@),
            l < links@.len(),
            b <= l,
            forall|b2: int| 0 <= b2 < b ==> #[trigger] lv[b2].workflow != lv[l as int].workflow,
        decreases l - b,
    {
        assert(lv[b as int] == links@[b as int]@);
        assert(lv[l as int] == links@[l as int]@);
        if str_eq(links[b].workflow_name.as_str(), links[l].workflow_name.as_str()) {
            assert(lv[b as int].workflow == lv[l as int].workflow);
            return false;
        }
        b = b + 1;
    }
    true
}

/// Splits the jobs of the linked workflows between their pipelines.  For
/// each link whose workflow lists jobs, the jobs that upload to the link's
/// S3 key and those they need (following `needs:`) belong to the link's
/// pipeline.  A job that belongs to two pipelines is shared, and so is a
/// job of a linked workflow that belongs to none.  Each pipeline gets the
/// workflow and the names of its own jobs, in dependency order; each
/// workflow with shared jobs gets their names, in dependency order.
pub fn assign_jobs_to_pipelines(workflow_files: &[WorkflowFile], link_map: &LinkMap) -> (r: JobAssignment)
    ensures
        pipeline_jobs_view(r.pipeline_jobs@) == pipeline_entries(
            workflow_files@,
            link_map@.links,
            link_map@.links.len() as int,
        ),
        shared_jobs_view(r.shared_jobs@) == shared_entries(
            workflow_files@,
            link_map@.links,
            link_map@.links.len() as int,
        ),
{
    let links = link_map.links();
    let ghost lv = links_view(links@);
    let ghost files = workflow_files@;
    let cl = link_closures(workflow_files, links);
    let mut pipeline_jobs: Vec<(String, (String, Vec<String>))> = Vec::new();
    let mut l: usize = 0;
    while l < links.len()
        invariant
            lv == links_view(links@),
            files == workflow_files@,
            closures_ok(files, lv, cl@),
            l <= links.len(),
            pipeline_jobs_view(pipeline_jobs@) == pipeline_entries(files, lv, l as int),
        decreases links.len() - l,
    {
        let link = &links[l];
        assert(lv[l as int] == link@);
        match find_jobs_file(workflow_files, link.workflow_name.as_str()) {
            Some(fi) => {
                let jobs = &workflow_files[fi].jobs;
                let ids = unique_job_ids(Ghost(files), links, &cl, l);
                proof {
                    assert(strings_view(ids@).to_set() =~= unique_ids(files, lv, lv[l as int]));
                }
                let order = topo_sort(&ids, jobs);
                let names = names_of(&order, jobs);
                let ghost prev = pipeline_jobs_view(pipeline_jobs@);
                let ghost entry = (link.pipeline_name@, (link.workflow_name@, strings_view(names@)));
                match find_entry(&pipeline_jobs, link.pipeline_name.as_str()) {
                    Some(i) => {
                        pipeline_jobs.set(
                            i,
                            (link.pipeline_name.clone(), (link.workflow_name.clone(), names)),
                        );
                        assert(pipeline_jobs_view(pipeline_jobs@) =~= prev.update(i as int, entry));
                    },
                    None => {
                        pipeline_jobs.push(
                            (link.pipeline_name.clone(), (link.workflow_name.clone(), names)),
                        );
                        assert(pipeline_jobs_view(pipeline_jobs@) =~= prev.push(entry));
                    },
                }
            },
            None => {},
        }
        l = l + 1;
    }
    let mut shared_jobs: Vec<(String, Vec<String>)> = Vec::new();
    let mut l: usize = 0;
    while l < links.len()
        invariant
            lv == links_view(links@),
            files == workflow_files@,
            closures_ok(files, lv, cl@),
            l <= links.len(),
            shared_jobs_view(shared_jobs@) == shared_entries(files, lv, l as int),
        decreases links.len() - l,
    {
        let link = &links[l];
        assert(lv[l as int] == link@);
        match find_jobs_file(workflow_files, link.workflow_name.as_str()) {
            Some(fi) => {
                if is_first_of_workflow(links, l) {
                    let jobs = &workflow_files[fi].jobs;
                    let ids = shared_job_ids(
                        Ghost(files),
                        links,
                        &cl,
                        link.workflow_name.as_str(),
                        jobs,
                    );
                    let ghost sids = shared_ids(files, lv, link.workflow_name@, jobs@);
                    if ids.len() > 0 {
                        proof {
                            assert(strings_view(ids@).contains(strings_view(ids@)[0]));
                            assert(sids.contains(strings_view(ids@)[0]));
                            assert(strings_view(ids@).to_set() =~= sids);
                        }
                        let order = topo_sort(&ids, jobs);
                        let names = names_of(&order, jobs);
                        let ghost prev = shared_jobs_view(shared_jobs@);
                        shared_jobs.push((link.workflow_name.clone(), names));
                        assert(shared_jobs_view(shared_jobs@) =~= prev.push(
                            (link.workflow_name@, strings_view(names@)),
                        ));
                    } else {
                        proof {
                            assert forall|id: Seq<char>| !#[trigger] sids.contains(id) by {
                                assert(!strings_view(ids@).contains(id));
                            }
                        }
                    }
                }
            },
            None => {},
        }
        l = l + 1;
    }
    JobAssignment { pipeline_jobs, shared_jobs }
}

/// Some pipeline or shared entry names a job.
pub open spec fn entries_have_jobs(pe: Seq<PipelineEntry>, se: Seq<(Seq<char>, Seq<Seq<char>>)>) -> bool {
    (exists|i: int| 0 <= i < pe.len() && #[trigger] pe[i].1.1.len() > 0) || (exists|i: int|
        0 <= i < se.len() && #[trigger] se[i].1.len() > 0)
}

/// Some pipeline or shared entry of the assignment names a job.
pub open spec fn has_jobs_spec(a: JobAssignment) -> bool {
    entries_have_jobs(pipeline_jobs_view(a.pipeline_jobs@), shared_jobs_view(a.shared_jobs@))
}

impl JobAssignment {
    /// The entry of pipeline `pipeline`: its workflow and job names.
    pub fn jobs_for_pipeline(&self, pipeline: &str) -> (r: Option<&(String, Vec<String>)>)
        ensures
            match find_entry_from(pipeline_jobs_view(self.pipeline_jobs@), pipeline@, 0) {
                Some(i) => r == Some(&self.pipeline_jobs@[i].1),
                None => r is None,
            },
    {
        match find_entry(&self.pipeline_jobs, pipeline) {
            Some(i) => Some(&self.pipeline_jobs[i].1),
            None => None,
        }
    }

    /// Some pipeline or shared entry names a job.
    pub fn has_jobs(&self) -> (r: bool)
        ensures
            r == has_jobs_spec(*self),
    {
        let mut i: usize = 0;
        while i < self.pipeline_jobs.len()
            invariant
                i <= self.pipeline_jobs.len(),
                forall|k: int| 0 <= k < i ==> #[trigger] self.pipeline_jobs@[k].1.1@.len() == 0,
            decreases self.pipeline_jobs.len() - i,
        {
            if self.pipeline_jobs[i].1.1.len() > 0 {
                assert(pipeline_jobs_view(self.pipeline_jobs@)[i as int].1.1.len() > 0);
                return true;
            }
            i = i + 1;
        }
        let mut j: usize = 0;
        while j < self.shared_jobs.len()
            invariant
                j <= self.shared_jobs.len(),
                forall|k: int| 0 <= k < self.pipeline_jobs@.len() ==> #[trigger] self.pipeline_jobs@[k].1.1@.len() == 0,
                forall|k: int| 0 <= k < j ==> #[trigger] self.shared_jobs@[k].1@.len() == 0,
            decreases self.shared_jobs.len() - j,
        {
            if self.shared_jobs[j].1.len() > 0 {
                assert(shared_jobs_view(self.shared_jobs@)[j as int].1.len() > 0);
                return true;
            }
            j = j + 1;
        }
        assert forall|k: int| 0 <= k < self.pipeline_jobs@.len() implies #[trigger] pipeline_jobs_view(
            self.pipeline_jobs@,
        )[k].1.1.len() == 0 by {
            assert(self.pipeline_jobs@[k].1.1@.len() == 0);
        }
        assert forall|k: int| 0 <= k < self.shared_jobs@.len() implies #[trigger] shared_jobs_view(
            self.shared_jobs@,
        )[k].1.len() == 0 by {
            assert(self.shared_jobs@[k].1@.len() == 0);
        }
        false
    }
}

/// The job assignment kept after discovery: computed when some link was
/// found, and kept when it names a job.
pub fn discovered_assignment(workflow_files: &[WorkflowFile], link_map: &LinkMap) -> (r: Option<JobAssignment>)
    ensures
        link_map@.links.len() == 0 ==> r is None,
        link_map@.links.len() > 0 ==> match r {
            Some(a) => {
                &&& pipeline_jobs_view(a.pipeline_jobs@) == pipeline_entries(
                    workflow_files@,
                    link_map@.links,
                    link_map@.links.len() as int,
                )
                &&& shared_jobs_view(a.shared_jobs@) == shared_entries(
                    workflow_files@,
                    link_map@.links,
                    link_map@.links.len() as int,
                )
                &&& has_jobs_spec(a)
            },
            None => !entries_have_jobs(
                pipeline_entries(workflow_files@, link_map@.links, link_map@.links.len() as int),
                shared_entries(workflow_files@, link_map@.links, link_map@.links.len() as int),
            ),
        },
{
    if link_map.links().len() == 0 {
        return None;
    }
    let a = assign_jobs_to_pipelines(workflow_files, link_map);
    if a.has_jobs() {
        Some(a)
    } else {
        None
    }
}

/// An order that lists ids of `ids` once each, each after those of its
/// needs that lie in `ids`.
pub open spec fn order_sound(ids: Set<Seq<char>>, jobs: Seq<JobS3Info>, order: Seq<Seq<char>>) -> bool {
    &&& order.no_duplicates()
    &&& forall|k: int| 0 <= k < order.len() ==> ids.contains(#[trigger] order[k])
    &&& forall|k: int| 0 <= k < order.len() ==> deps_done(ids, jobs, order.take(k), #[trigger] order[k])
}

proof fn lemma_topo_from_sound(ids: Set<Seq<char>>, jobs: Seq<JobS3Info>, done: Seq<Seq<char>>, fuel: nat)
    requires
        order_sound(ids, jobs, done),
    ensures
        order_sound(ids, jobs, topo_from(ids, jobs, done, fuel)),
    decreases fuel,
{
    if fuel > 0 && exists|x: Seq<char>| is_next(ids, jobs, done, x) {
        let x = choose|x: Seq<char>| is_next(ids, jobs, done, x);
        let next = done.push(x);
        assert forall|k: int| 0 <= k < next.len() implies deps_done(
            ids,
            jobs,
            next.take(k),
            #[trigger] next[k],
        ) by {
            if k < done.len() {
                assert(next.take(k) =~= done.take(k));
            } else {
                assert(next.take(k) =~= done);
            }
        }
        lemma_topo_from_sound(ids, jobs, next, (fuel - 1) as nat);
    }
}

/// The dependency order lists each of its ids once, only ids of the set,
/// and each after every one of its needs that lies in the set.
pub proof fn lemma_topo_order_sound(ids: Set<Seq<char>>, jobs: Seq<JobS3Info>)
    ensures
        order_sound(ids, jobs, topo_order(ids, jobs)),
{
    lemma_topo_from_sound(ids, jobs, Seq::empty(), ids.len());
}

/// No two entries name the same pipeline.
pub open spec fn entry_keys_unique(es: Seq<PipelineEntry>) -> bool {
    forall|i: int, j: int| 0 <= i < j < es.len() ==> #[trigger] es[i].0 != #[trigger] es[j].0
}

proof fn lemma_find_entry(es: Seq<PipelineEntry>, p: Seq<char>, start: int)
    requires
        0 <= start,
    ensures
        match find_entry_from(es, p, start) {
            Some(i) => start <= i < es.len() && es[i].0 == p,
            None => forall|i: int| start <= i < es.len() ==> #[trigger] es[i].0 != p,
        },
    decreases es.len() - start,
{
    if start < es.len() && es[start].0 != p {
        lemma_find_entry(es, p, start + 1);
    }
}

/// Each pipeline has at most one entry.
pub proof fn lemma_pipeline_entries_unique(files: Seq<WorkflowFile>, links: Seq<LinkView>, upto: int)
    ensures
        entry_keys_unique(pipeline_entries(files, links, upto)),
    decreases upto,
{
    if upto > 0 && upto <= links.len() {
        lemma_pipeline_entries_unique(files, links, upto - 1);
        let prev = pipeline_entries(files, links, upto - 1);
        let l = links[upto - 1];
        lemma_find_entry(prev, l.pipeline, 0);
    }
}

} // verus!
