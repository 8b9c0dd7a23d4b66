//! The split of jobs between pipelines does not depend on the order in
//! which a workflow lists its jobs.

use vstd::prelude::*;

use crate::linkage::assign::{
    covers, deps_done, first_job_from, holds_matched, in_closure, is_assigned, is_next, is_orphan,
    is_ready, is_shared, job_names, jobs_of, lemma_next_unique, link_claims, needs_closed, needs_of,
    pipeline_claims, pipeline_entries, shared_entries, shared_ids, topo_from, topo_order, unique_ids,
    uploads_matched, uploads_to,
};
use crate::linkage::LinkView;
use crate::poller::{JobS3Info, WorkflowFile};

verus! {

broadcast use vstd::seq_lib::group_seq_properties;

/// No two jobs of the list share an id.
pub open spec fn distinct_ids(js: Seq<JobS3Info>) -> bool {
    forall|i: int, j: int|
        0 <= i < js.len() && 0 <= j < js.len() && i != j ==> #[trigger] js[i].job_id@ != #[trigger] js[j].job_id@
}

/// The two lists are the same, or hold the same jobs in some order, each
/// with distinct ids.
spec fn jobs_match(a: Seq<JobS3Info>, b: Seq<JobS3Info>) -> bool {
    a == b || {
        &&& forall|x: JobS3Info| #![trigger a.contains(x)] #![trigger b.contains(x)] a.contains(x) <==> b.contains(x)
        &&& distinct_ids(a)
        &&& distinct_ids(b)
    }
}

/// The first job with id `id`.
spec fn job_with(js: Seq<JobS3Info>, id: Seq<char>) -> Option<JobS3Info> {
    match first_job_from(js, id, 0) {
        Some(i) => Some(js[i]),
        None => None,
    }
}

proof fn lemma_first_job(js: Seq<JobS3Info>, id: Seq<char>, start: int)
    requires
        0 <= start,
    ensures
        match first_job_from(js, id, start) {
            Some(i) => start <= i < js.len() && js[i].job_id@ == id,
            None => forall|j: int| start <= j < js.len() ==> #[trigger] js[j].job_id@ != id,
        },
    decreases js.len() - start,
{
    if start < js.len() && js[start].job_id@ != id {
        lemma_first_job(js, id, start + 1);
    }
}

proof fn lemma_job_with(a: Seq<JobS3Info>, b: Seq<JobS3Info>, id: Seq<char>)
    requires
        jobs_match(a, b),
    ensures
        job_with(a, id) == job_with(b, id),
        needs_of(a, id) == needs_of(b, id),
{
    if a != b {
        lemma_first_job(a, id, 0);
        lemma_first_job(b, id, 0);
        match first_job_from(a, id, 0) {
            Some(i) => {
                assert(a.contains(a[i]));
                let k = choose|k: int| 0 <= k < b.len() && b[k] == a[i];
                assert(b[k].job_id@ == id);
                match first_job_from(b, id, 0) {
                    Some(m) => {
                        if m != k {
                            assert(b[m].job_id@ != b[k].job_id@);
                        }
                    },
                    None => {
                        assert(b[k].job_id@ != id);
                    },
                }
            },
            None => {
                if let Some(m) = first_job_from(b, id, 0) {
                    assert(b.contains(b[m]));
                    let k = choose|k: int| 0 <= k < a.len() && a[k] == b[m];
                    assert(a[k].job_id@ != id);
                }
            },
        }
    }
}

proof fn lemma_job_names(order: Seq<Seq<char>>, a: Seq<JobS3Info>, b: Seq<JobS3Info>)
    requires
        jobs_match(a, b),
    ensures
        job_names(order, a) == job_names(order, b),
    decreases order.len(),
{
    if order.len() > 0 {
        lemma_job_names(order.drop_last(), a, b);
        lemma_job_with(a, b, order.last());
    }
}

proof fn lemma_uploads_matched(a: Seq<JobS3Info>, b: Seq<JobS3Info>, key: Seq<char>, x: Seq<char>)
    requires
        jobs_match(a, b),
        uploads_matched(a, key, x),
    ensures
        uploads_matched(b, key, x),
{
    if a != b {
        let j = choose|j: int| 0 <= j < a.len() && #[trigger] a[j].job_id@ == x && uploads_to(a[j], key);
        assert(a.contains(a[j]));
        let k = choose|k: int| 0 <= k < b.len() && b[k] == a[j];
        assert(b[k].job_id@ == x);
    }
}

proof fn lemma_deps_done(ids: Set<Seq<char>>, a: Seq<JobS3Info>, b: Seq<JobS3Info>, done: Seq<Seq<char>>, x: Seq<char>)
    requires
        jobs_match(a, b),
        deps_done(ids, a, done, x),
    ensures
        deps_done(ids, b, done, x),
{
    if a != b {
        assert forall|j: int, d: int|
            0 <= j < b.len() && b[j].job_id@ == x && 0 <= d < b[j].needs@.len() && ids.contains(
                #[trigger] b[j].needs@[d]@,
            ) implies done.contains(b[j].needs@[d]@) by {
            assert(b.contains(b[j]));
            let k = choose|k: int| 0 <= k < a.len() && a[k] == b[j];
            assert(a[k].needs@[d]@ == b[j].needs@[d]@);
        }
    }
}

proof fn lemma_is_next(ids: Set<Seq<char>>, a: Seq<JobS3Info>, b: Seq<JobS3Info>, done: Seq<Seq<char>>)
    requires
        jobs_match(a, b),
    ensures
        forall|x: Seq<char>|
            #![trigger is_ready(ids, a, done, x)]
            #![trigger is_ready(ids, b, done, x)]
            is_ready(ids, a, done, x) == is_ready(ids, b, done, x),
        forall|x: Seq<char>|
            #![trigger is_next(ids, a, done, x)]
            #![trigger is_next(ids, b, done, x)]
            is_next(ids, a, done, x) == is_next(ids, b, done, x),
{
    assert forall|x: Seq<char>|
        #![trigger is_ready(ids, a, done, x)]
        #![trigger is_ready(ids, b, done, x)]
        is_ready(ids, a, done, x) == is_ready(ids, b, done, x) by {
        if deps_done(ids, a, done, x) {
            lemma_deps_done(ids, a, b, done, x);
        }
        if deps_done(ids, b, done, x) {
            lemma_deps_done(ids, b, a, done, x);
        }
    }
}

/// The dependency order does not depend on the order of the jobs.
proof fn lemma_topo_from(ids: Set<Seq<char>>, a: Seq<JobS3Info>, b: Seq<JobS3Info>, done: Seq<Seq<char>>, fuel: nat)
    requires
        jobs_match(a, b),
    ensures
        topo_from(ids, a, done, fuel) == topo_from(ids, b, done, fuel),
    decreases fuel,
{
    if fuel > 0 {
        lemma_is_next(ids, a, b, done);
        if exists|x: Seq<char>| is_next(ids, a, done, x) {
            let xa = choose|x: Seq<char>| is_next(ids, a, done, x);
            assert(is_next(ids, b, done, xa));
            let xb = choose|x: Seq<char>| is_next(ids, b, done, x);
            assert(is_next(ids, a, done, xb));
            lemma_next_unique(ids, a, done, xa, xb);
            lemma_topo_from(ids, a, b, done.push(xa), (fuel - 1) as nat);
        } else {
            assert(!exists|x: Seq<char>| is_next(ids, b, done, x)) by {
                if exists|x: Seq<char>| is_next(ids, b, done, x) {
                    let xb = choose|x: Seq<char>| is_next(ids, b, done, x);
                    assert(is_next(ids, a, done, xb));
                }
            }
        }
    }
}

/// Membership in an S3 key's closure does not depend on the order of the
/// jobs.
proof fn lemma_in_closure(a: Seq<JobS3Info>, b: Seq<JobS3Info>, key: Seq<char>, id: Seq<char>)
    requires
        jobs_match(a, b),
    ensures
        in_closure(a, key, id) == in_closure(b, key, id),
{
    assert forall|x: Seq<char>|
        #![trigger uploads_matched(a, key, x)]
        #![trigger uploads_matched(b, key, x)]
        uploads_matched(a, key, x) == uploads_matched(b, key, x) by {
        if uploads_matched(a, key, x) {
            lemma_uploads_matched(a, b, key, x);
        }
        if uploads_matched(b, key, x) {
            lemma_uploads_matched(b, a, key, x);
        }
    }
    assert forall|x: Seq<char>| #![trigger needs_of(a, x)] #![trigger needs_of(b, x)] needs_of(a, x) == needs_of(b, x) by {
        lemma_job_with(a, b, x);
    }
    assert forall|s: Set<Seq<char>>| #[trigger] holds_matched(a, key, s) == holds_matched(b, key, s) by {}
    assert forall|s: Set<Seq<char>>| #[trigger] needs_closed(a, s) == needs_closed(b, s) by {}
}

/// The two file lists agree but for the order in which files list their
/// jobs.
spec fn files_match(f1: Seq<WorkflowFile>, f2: Seq<WorkflowFile>) -> bool {
    &&& f1.len() == f2.len()
    &&& forall|i: int|
        0 <= i < f1.len() ==> #[trigger] f1[i].name@ == f2[i].name@ && jobs_match(f1[i].jobs@, f2[i].jobs@)
}

proof fn lemma_nonempty(a: Seq<JobS3Info>, b: Seq<JobS3Info>)
    requires
        jobs_match(a, b),
    ensures
        (a.len() > 0) == (b.len() > 0),
{
    if a != b {
        if a.len() > 0 {
            assert(a.contains(a[0]));
        }
        if b.len() > 0 {
            assert(b.contains(b[0]));
        }
    }
}

proof fn lemma_jobs_of(f1: Seq<WorkflowFile>, f2: Seq<WorkflowFile>, name: Seq<char>)
    requires
        files_match(f1, f2),
    ensures
        match (jobs_of(f1, name), jobs_of(f2, name)) {
            (None, None) => true,
            (Some(x), Some(y)) => jobs_match(x, y),
            _ => false,
        },
    decreases f1.len(),
{
    if f1.len() > 0 {
        let n = (f1.len() - 1) as int;
        assert(f1[n].name@ == f2[n].name@);
        lemma_nonempty(f1[n].jobs@, f2[n].jobs@);
        assert(files_match(f1.drop_last(), f2.drop_last())) by {
            assert forall|i: int| 0 <= i < f1.drop_last().len() implies #[trigger] f1.drop_last()[i].name@
                == f2.drop_last()[i].name@ && jobs_match(f1.drop_last()[i].jobs@, f2.drop_last()[i].jobs@) by {
                assert(f1[i].name@ == f2[i].name@);
            }
        }
        lemma_jobs_of(f1.drop_last(), f2.drop_last(), name);
    }
}

proof fn lemma_link_claims(f1: Seq<WorkflowFile>, f2: Seq<WorkflowFile>, links: Seq<LinkView>)
    requires
        files_match(f1, f2),
    ensures
        forall|a: int, id: Seq<char>|
            #![trigger link_claims(f1, links, a, id)]
            #![trigger link_claims(f2, links, a, id)]
            link_claims(f1, links, a, id) == link_claims(f2, links, a, id),
{
    assert forall|a: int, id: Seq<char>|
        #![trigger link_claims(f1, links, a, id)]
        #![trigger link_claims(f2, links, a, id)]
        link_claims(f1, links, a, id) == link_claims(f2, links, a, id) by {
        if 0 <= a < links.len() {
            lemma_jobs_of(f1, f2, links[a].workflow);
            match (jobs_of(f1, links[a].workflow), jobs_of(f2, links[a].workflow)) {
                (Some(x), Some(y)) => lemma_in_closure(x, y, links[a].key, id),
                _ => {},
            }
        }
    }
}

proof fn lemma_claims(f1: Seq<WorkflowFile>, f2: Seq<WorkflowFile>, links: Seq<LinkView>)
    requires
        files_match(f1, f2),
    ensures
        forall|wf: Seq<char>, id: Seq<char>|
            #![trigger is_shared(f1, links, wf, id)]
            #![trigger is_shared(f2, links, wf, id)]
            is_shared(f1, links, wf, id) == is_shared(f2, links, wf, id),
        forall|wf: Seq<char>, id: Seq<char>|
            #![trigger is_assigned(f1, links, wf, id)]
            #![trigger is_assigned(f2, links, wf, id)]
            is_assigned(f1, links, wf, id) == is_assigned(f2, links, wf, id),
        forall|l: LinkView| #![trigger unique_ids(f1, links, l)] unique_ids(f1, links, l) == unique_ids(f2, links, l),
{
    lemma_link_claims(f1, f2, links);
    assert forall|wf: Seq<char>, id: Seq<char>|
        #![trigger is_shared(f1, links, wf, id)]
        #![trigger is_shared(f2, links, wf, id)]
        is_shared(f1, links, wf, id) == is_shared(f2, links, wf, id) by {}
    assert forall|wf: Seq<char>, id: Seq<char>|
        #![trigger is_assigned(f1, links, wf, id)]
        #![trigger is_assigned(f2, links, wf, id)]
        is_assigned(f1, links, wf, id) == is_assigned(f2, links, wf, id) by {}
    assert forall|p: Seq<char>, id: Seq<char>|
        #![trigger pipeline_claims(f1, links, p, id)]
        #![trigger pipeline_claims(f2, links, p, id)]
        pipeline_claims(f1, links, p, id) == pipeline_claims(f2, links, p, id) by {}
    assert forall|l: LinkView| #![trigger unique_ids(f1, links, l)] unique_ids(f1, links, l) == unique_ids(f2, links, l) by {
        assert(unique_ids(f1, links, l) =~= unique_ids(f2, links, l));
    }
}

proof fn lemma_shared_ids(
    f1: Seq<WorkflowFile>,
    f2: Seq<WorkflowFile>,
    links: Seq<LinkView>,
    wf: Seq<char>,
    a: Seq<JobS3Info>,
    b: Seq<JobS3Info>,
)
    requires
        files_match(f1, f2),
        jobs_match(a, b),
    ensures
        shared_ids(f1, links, wf, a) == shared_ids(f2, links, wf, b),
{
    lemma_claims(f1, f2, links);
    assert forall|id: Seq<char>| #[trigger] is_orphan(f1, links, wf, a, id) == is_orphan(f2, links, wf, b, id) by {
        if a != b {
            if exists|j: int| 0 <= j < a.len() && #[trigger] a[j].job_id@ == id {
                let j = choose|j: int| 0 <= j < a.len() && #[trigger] a[j].job_id@ == id;
                assert(a.contains(a[j]));
                let k = choose|k: int| 0 <= k < b.len() && b[k] == a[j];
                assert(b[k].job_id@ == id);
            }
            if exists|j: int| 0 <= j < b.len() && #[trigger] b[j].job_id@ == id {
                let j = choose|j: int| 0 <= j < b.len() && #[trigger] b[j].job_id@ == id;
                assert(b.contains(b[j]));
                let k = choose|k: int| 0 <= k < a.len() && a[k] == b[j];
                assert(a[k].job_id@ == id);
            }
        }
    }
    assert(shared_ids(f1, links, wf, a) =~= shared_ids(f2, links, wf, b));
}

proof fn lemma_pipeline_entries(f1: Seq<WorkflowFile>, f2: Seq<WorkflowFile>, links: Seq<LinkView>, upto: int)
    requires
        files_match(f1, f2),
    ensures
        pipeline_entries(f1, links, upto) == pipeline_entries(f2, links, upto),
    decreases upto,
{
    if 0 < upto <= links.len() {
        lemma_pipeline_entries(f1, f2, links, upto - 1);
        let l = links[upto - 1];
        lemma_jobs_of(f1, f2, l.workflow);
        if let (Some(x), Some(y)) = (jobs_of(f1, l.workflow), jobs_of(f2, l.workflow)) {
            lemma_claims(f1, f2, links);
            let ids = unique_ids(f1, links, l);
            assert(unique_ids(f2, links, l) == ids);
            lemma_topo_from(ids, x, y, Seq::empty(), ids.len());
            lemma_job_names(topo_order(ids, x), x, y);
        }
    }
}

proof fn lemma_shared_entries(f1: Seq<WorkflowFile>, f2: Seq<WorkflowFile>, links: Seq<LinkView>, upto: int)
    requires
        files_match(f1, f2),
    ensures
        shared_entries(f1, links, upto) == shared_entries(f2, links, upto),
    decreases upto,
{
    if 0 < upto <= links.len() {
        lemma_shared_entries(f1, f2, links, upto - 1);
        let l = links[upto - 1];
        lemma_jobs_of(f1, f2, l.workflow);
        if let (Some(x), Some(y)) = (jobs_of(f1, l.workflow), jobs_of(f2, l.workflow)) {
            lemma_shared_ids(f1, f2, links, l.workflow, x, y);
            let ids = shared_ids(f1, links, l.workflow, x);
            lemma_topo_from(ids, x, y, Seq::empty(), ids.len());
            lemma_job_names(topo_order(ids, x), x, y);
        }
    }
}

/// A reordering of a list of jobs with distinct ids matches it.
proof fn lemma_reordered_jobs_match(a: Seq<JobS3Info>, b: Seq<JobS3Info>)
    requires
        b.to_multiset() == a.to_multiset(),
        distinct_ids(a),
    ensures
        jobs_match(a, b),
{
    broadcast use vstd::seq_lib::group_to_multiset_ensures;

    assert forall|x: JobS3Info| #![trigger a.contains(x)] #![trigger b.contains(x)] a.contains(x) <==> b.contains(x) by {
        vstd::seq_lib::to_multiset_contains(a, x);
        vstd::seq_lib::to_multiset_contains(b, x);
    }
    assert(a.no_duplicates()) by {
        assert forall|i: int, j: int| 0 <= i < a.len() && 0 <= j < a.len() && i != j implies a[i] != a[j] by {
            assert(a[i].job_id@ != a[j].job_id@);
        }
    }
    a.lemma_multiset_has_no_duplicates();
    b.lemma_multiset_has_no_duplicates_conv();
    assert forall|i: int, j: int| 0 <= i < b.len() && 0 <= j < b.len() && i != j implies #[trigger] b[i].job_id@
        != #[trigger] b[j].job_id@ by {
        assert(b[i] != b[j]);
        assert(b.contains(b[i]));
        assert(b.contains(b[j]));
        let p = choose|p: int| 0 <= p < a.len() && a[p] == b[i];
        let q = choose|q: int| 0 <= q < a.len() && a[q] == b[j];
        if b[i].job_id@ == b[j].job_id@ {
            assert(a[p].job_id@ == a[q].job_id@);
        }
    }
}

/// The split of jobs between pipelines does not depend on the order in
/// which a workflow file lists its jobs, as long as their ids are
/// distinct: with the jobs of file `k` reordered and all else the same,
/// the pipeline entries and the shared entries are the same.
pub proof fn lemma_assignment_ignores_job_order(
    files: Seq<WorkflowFile>,
    reordered: Seq<WorkflowFile>,
    links: Seq<LinkView>,
    k: int,
)
    requires
        0 <= k < files.len(),
        reordered.len() == files.len(),
        forall|i: int| 0 <= i < files.len() && i != k ==> #[trigger] reordered[i] == files[i],
        reordered[k].name@ == files[k].name@,
        reordered[k].jobs@.to_multiset() == files[k].jobs@.to_multiset(),
        distinct_ids(files[k].jobs@),
    ensures
        pipeline_entries(reordered, links, links.len() as int) == pipeline_entries(files, links, links.len() as int),
        shared_entries(reordered, links, links.len() as int) == shared_entries(files, links, links.len() as int),
{
    lemma_reordered_jobs_match(files[k].jobs@, reordered[k].jobs@);
    assert(files_match(files, reordered)) by {
        assert forall|i: int| 0 <= i < files.len() implies #[trigger] files[i].name@ == reordered[i].name@
            && jobs_match(files[i].jobs@, reordered[i].jobs@) by {
            if i != k {
                assert(reordered[i] == files[i]);
            }
        }
    }
    lemma_pipeline_entries(files, reordered, links, links.len() as int);
    lemma_shared_entries(files, reordered, links, links.len() as int);
}

} // verus!
