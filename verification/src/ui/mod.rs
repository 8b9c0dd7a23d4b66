//! What the terminal UI shows: the order of the groups, the widths of
//! the name columns and the heights of the sections.

pub mod animate;
pub mod bar;
pub mod header;
pub mod rows;
pub mod statusbar;
pub mod theme;

use vstd::prelude::*;

use crate::app::App;
use crate::ui::bar::{bar_lens, fold_bar_lens, seq_max, widest, MAX_NAME_WIDTH};
use crate::model::{Bar, BuildStatus, PipelineGroup, WorkflowCategory, WorkflowGroup};
use crate::text::{chars_lt, chars_of, lemma_seq_lt_asymmetric, lemma_seq_lt_transitive, seq_lt, str_eq};

verus! {

/// A sort key: a rank (lower first), whether something runs (running
/// first), and a name (in `String` order).
pub type SortKey = (int, bool, Seq<char>);

/// `a` sorts strictly before `b`.
pub open spec fn key_lt(a: SortKey, b: SortKey) -> bool {
    ||| a.0 < b.0
    ||| (a.0 == b.0 && a.1 && !b.1)
    ||| (a.0 == b.0 && a.1 == b.1 && seq_lt(a.2, b.2))
}

proof fn lemma_key_lt_transitive(a: SortKey, b: SortKey, c: SortKey)
    requires
        key_lt(a, b),
        key_lt(b, c),
    ensures
        key_lt(a, c),
{
    if a.0 == b.0 && b.0 == c.0 && a.1 == b.1 && b.1 == c.1 {
        lemma_seq_lt_transitive(a.2, b.2, c.2);
    }
}

proof fn lemma_key_lt_asymmetric(a: SortKey, b: SortKey)
    requires
        key_lt(a, b),
    ensures
        !key_lt(b, a),
{
    if a.0 == b.0 && a.1 == b.1 {
        lemma_seq_lt_asymmetric(a.2, b.2);
    }
}

/// `order` lists each index below `ks.len()` once, sorted by key, and
/// indices with equal keys in increasing order (a stable sort).
pub open spec fn stable_sorted(ks: Seq<SortKey>, order: Seq<usize>) -> bool {
    &&& order.len() == ks.len()
    &&& order.no_duplicates()
    &&& forall|k: int| 0 <= k < order.len() ==> #[trigger] order[k] < ks.len()
    &&& forall|k: int, l: int|
        0 <= k < l < order.len() ==> !key_lt(ks[#[trigger] order[l] as int], ks[#[trigger] order[k] as int])
    &&& forall|k: int, l: int|
        0 <= k < l < order.len() && ks[#[trigger] order[k] as int] == ks[#[trigger] order[l] as int] ==> order[k]
            < order[l]
}

/// The executable form of a sort key: rank, running, name.
pub type ExecKey = (u8, bool, Vec<char>);

/// The sort keys, as plain values.
pub open spec fn keys_view(v: Seq<ExecKey>) -> Seq<SortKey> {
    v.map_values(|k: ExecKey| (k.0 as int, k.1, k.2@))
}

/// `a` sorts strictly before `b`.
fn exec_key_lt(a: &ExecKey, b: &ExecKey) -> (r: bool)
    ensures
        r == key_lt((a.0 as int, a.1, a.2@), (b.0 as int, b.1, b.2@)),
{
    if a.0 != b.0 {
        a.0 < b.0
    } else if a.1 != b.1 {
        a.1
    } else {
        chars_lt(&a.2, &b.2)
    }
}

/// The indices of `keys` in stable sorted order (see [`stable_sorted`]).
fn stable_sort_order(keys: &Vec<ExecKey>) -> (order: Vec<usize>)
    ensures
        stable_sorted(keys_view(keys@), order@),
{
    let ghost kv = keys_view(keys@);
    let mut order: Vec<usize> = Vec::new();
    let mut i: usize = 0;
    while i < keys.len()
        invariant
            kv == keys_view(keys@),
            i <= keys.len(),
            stable_sorted(kv.take(i as int), order@),
        decreases keys.len() - i,
    {
        let ghost ki = kv[i as int];
        let mut pos: usize = 0;
        while pos < order.len() && !exec_key_lt(&keys[i], &keys[order[pos]])
            invariant
                kv == keys_view(keys@),
                i < keys.len(),
                ki == kv[i as int],
                stable_sorted(kv.take(i as int), order@),
                pos <= order.len(),
                forall|k: int| 0 <= k < pos ==> !key_lt(ki, kv[#[trigger] order@[k] as int]),
            decreases order.len() - pos,
        {
            assert(order@[pos as int] < i);
            assert(kv[order@[pos as int] as int] == (
                keys@[order@[pos as int] as int].0 as int,
                keys@[order@[pos as int] as int].1,
                keys@[order@[pos as int] as int].2@,
            ));
            pos = pos + 1;
        }
        let ghost old_order = order@;
        let ghost prev = kv.take(i as int);
        let ghost next = kv.take(i + 1);
        proof {
            if pos < old_order.len() {
                assert(old_order[pos as int] < i);
                assert(key_lt(ki, kv[old_order[pos as int] as int]));
            }
        }
        order.insert(pos, i);
        proof {
            let o = order@;
            assert(o == old_order.insert(pos as int, i));
            assert forall|k: int| 0 <= k < old_order.len() implies #[trigger] old_order[k] < i by {
                assert(old_order[k] < prev.len());
            }
            assert forall|k: int| 0 <= k < o.len() implies #[trigger] o[k] < next.len() by {
                if k < pos {
                    assert(o[k] == old_order[k]);
                } else if k > pos {
                    assert(o[k] == old_order[k - 1]);
                }
            }
            assert forall|k: int| 0 <= k < o.len() implies next[#[trigger] o[k] as int] == kv[o[k] as int] by {}
            assert(o.no_duplicates()) by {
                assert forall|k: int, l: int| 0 <= k < o.len() && 0 <= l < o.len() && k != l implies o[k] != o[l] by {
                    if k != pos && l != pos {
                        let k2 = if k < pos { k } else { k - 1 };
                        let l2 = if l < pos { l } else { l - 1 };
                        assert(o[k] == old_order[k2]);
                        assert(o[l] == old_order[l2]);
                    } else if k == pos {
                        let l2 = if l < pos { l } else { l - 1 };
                        assert(o[l] == old_order[l2]);
                    } else {
                        let k2 = if k < pos { k } else { k - 1 };
                        assert(o[k] == old_order[k2]);
                    }
                }
            }
            assert forall|k: int, l: int|
                0 <= k < l < o.len() implies !key_lt(next[#[trigger] o[l] as int], next[#[trigger] o[k] as int]) by {
                if l < pos {
                    assert(o[k] == old_order[k] && o[l] == old_order[l]);
                    assert(prev[old_order[l] as int] == kv[old_order[l] as int]);
                    assert(prev[old_order[k] as int] == kv[old_order[k] as int]);
                } else if l == pos {
                    assert(o[k] == old_order[k]);
                    assert(o[l] == i);
                } else if k == pos {
                    assert(o[l] == old_order[l - 1]);
                    assert(o[k] == i);
                    let a = old_order[pos as int];
                    let b = old_order[l - 1];
                    assert(key_lt(ki, kv[a as int]));
                    if l - 1 > pos {
                        assert(!key_lt(prev[b as int], prev[a as int]));
                        assert(prev[b as int] == kv[b as int]);
                        assert(prev[a as int] == kv[a as int]);
                        if key_lt(kv[b as int], ki) {
                            lemma_key_lt_transitive(kv[b as int], ki, kv[a as int]);
                        }
                    } else {
                        lemma_key_lt_asymmetric(ki, kv[a as int]);
                    }
                } else if k < pos {
                    assert(o[k] == old_order[k]);
                    assert(o[l] == old_order[l - 1]);
                    assert(prev[old_order[l - 1] as int] == kv[old_order[l - 1] as int]);
                    assert(prev[old_order[k] as int] == kv[old_order[k] as int]);
                } else {
                    assert(o[k] == old_order[k - 1]);
                    assert(o[l] == old_order[l - 1]);
                    assert(prev[old_order[l - 1] as int] == kv[old_order[l - 1] as int]);
                    assert(prev[old_order[k - 1] as int] == kv[old_order[k - 1] as int]);
                }
            }
            assert forall|k: int, l: int|
                0 <= k < l < o.len() && next[#[trigger] o[k] as int] == next[#[trigger] o[l] as int] implies o[k]
                < o[l] by {
                if l < pos {
                    assert(o[k] == old_order[k] && o[l] == old_order[l]);
                    assert(prev[old_order[l] as int] == kv[old_order[l] as int]);
                    assert(prev[old_order[k] as int] == kv[old_order[k] as int]);
                } else if l == pos {
                    assert(o[k] == old_order[k]);
                    assert(o[k] < i);
                } else if k == pos {
                    let a = old_order[pos as int];
                    let b = old_order[l - 1];
                    assert(o[l] == b);
                    assert(key_lt(ki, kv[a as int]));
                    if l - 1 > pos {
                        assert(!key_lt(prev[b as int], prev[a as int]));
                        assert(prev[b as int] == kv[b as int]);
                        assert(prev[a as int] == kv[a as int]);
                        if kv[b as int] == ki {
                            assert(key_lt(kv[b as int], kv[a as int]));
                        }
                    } else {
                        lemma_key_lt_asymmetric(ki, kv[a as int]);
                        if kv[b as int] == ki {
                            lemma_key_lt_asymmetric(ki, ki);
                        }
                    }
                } else if k < pos {
                    assert(o[k] == old_order[k]);
                    assert(o[l] == old_order[l - 1]);
                    assert(prev[old_order[l - 1] as int] == kv[old_order[l - 1] as int]);
                    assert(prev[old_order[k] as int] == kv[old_order[k] as int]);
                } else {
                    assert(o[k] == old_order[k - 1]);
                    assert(o[l] == old_order[l - 1]);
                    assert(prev[old_order[l - 1] as int] == kv[old_order[l - 1] as int]);
                    assert(prev[old_order[k - 1] as int] == kv[old_order[k - 1] as int]);
                }
            }
        }
        i = i + 1;
    }
    assert(kv.take(i as int) =~= kv);
    order
}

/// The rank of a category: CI before Review.
pub open spec fn category_rank(c: WorkflowCategory) -> int {
    match c {
        WorkflowCategory::CI => 0,
        WorkflowCategory::Review => 1,
    }
}

/// Some bar runs.
pub open spec fn any_bar_running(bars: Seq<Bar>) -> bool {
    exists|j: int| 0 <= j < bars.len() && #[trigger] bars[j].status == BuildStatus::Running
}

/// Some bar runs.
fn bars_running(bars: &Vec<Bar>) -> (r: bool)
    ensures
        r == any_bar_running(bars@),
{
    let mut j: usize = 0;
    while j < bars.len()
        invariant
            j <= bars.len(),
            forall|k: int| 0 <= k < j ==> #[trigger] bars@[k].status != BuildStatus::Running,
        decreases bars.len() - j,
    {
        if bars[j].status == BuildStatus::Running {
            assert(bars@[j as int].status == BuildStatus::Running);
            return true;
        }
        j = j + 1;
    }
    false
}

/// A workflow group's sort key: its category, whether a job runs, its
/// name.
pub open spec fn workflow_key(g: WorkflowGroup) -> SortKey {
    (category_rank(g.category), any_bar_running(g.jobs@), g.name@)
}

/// The sort keys of the workflow groups.
pub open spec fn workflow_keys(gs: Seq<WorkflowGroup>) -> Seq<SortKey> {
    gs.map_values(|g: WorkflowGroup| workflow_key(g))
}

/// Some stage of the pipeline group runs.
pub open spec fn has_running_stage(g: PipelineGroup) -> bool {
    exists|s: int| 0 <= s < g.stages@.len() && #[trigger] g.stages@[s].status == BuildStatus::Running
}

/// Some job of the workflow group runs.
pub open spec fn has_running_job(g: WorkflowGroup) -> bool {
    exists|s: int| 0 <= s < g.jobs@.len() && #[trigger] g.jobs@[s].status == BuildStatus::Running
}

/// In the shown pipeline list, every group with a running stage comes
/// before every group without one, and groups alike in that come in name
/// order.
pub proof fn lemma_shown_pipelines_running_first(gs: Seq<PipelineGroup>, order: Seq<usize>, r: Seq<&PipelineGroup>)
    requires
        stable_sorted(pipeline_keys(gs), order),
        listed_in_order(r, gs, order),
    ensures
        forall|i: int, j: int|
            0 <= i < j < r.len() && has_running_stage(*#[trigger] r[j]) ==> has_running_stage(*#[trigger] r[i]),
        forall|i: int, j: int|
            0 <= i < j < r.len() && has_running_stage(*#[trigger] r[i]) == has_running_stage(*#[trigger] r[j])
                ==> !seq_lt(r[j].name@, r[i].name@),
{
    let ks = pipeline_keys(gs);
    assert forall|i: int, j: int| 0 <= i < j < r.len() implies (has_running_stage(*#[trigger] r[j])
        ==> has_running_stage(*#[trigger] r[i])) && (has_running_stage(*r[i]) == has_running_stage(*r[j])
        ==> !seq_lt(r[j].name@, r[i].name@)) by {
        assert(!key_lt(ks[order[j] as int], ks[order[i] as int]));
        assert(*r[i] == gs[order[i] as int] && *r[j] == gs[order[j] as int]);
        assert(ks[order[i] as int] == pipeline_key(*r[i]));
        assert(ks[order[j] as int] == pipeline_key(*r[j]));
        assert(any_bar_running(r[i].stages@) == has_running_stage(*r[i]));
        assert(any_bar_running(r[j].stages@) == has_running_stage(*r[j]));
    }
}

/// In the shown workflow list, CI workflows come before review workflows;
/// within a category, every group with a running job comes before every
/// group without one, and groups alike in that come in name order.
pub proof fn lemma_shown_workflows_ordered(gs: Seq<WorkflowGroup>, order: Seq<usize>, r: Seq<&WorkflowGroup>)
    requires
        stable_sorted(workflow_keys(gs), order),
        listed_in_order(r, gs, order),
    ensures
        forall|i: int, j: int|
            0 <= i < j < r.len() && (#[trigger] r[i]).category == WorkflowCategory::Review ==> (#[trigger] r[j]).category
                == WorkflowCategory::Review,
        forall|i: int, j: int|
            0 <= i < j < r.len() && (#[trigger] r[i]).category == (#[trigger] r[j]).category && has_running_job(*r[j])
                ==> has_running_job(*r[i]),
        forall|i: int, j: int|
            0 <= i < j < r.len() && (#[trigger] r[i]).category == (#[trigger] r[j]).category && has_running_job(*r[i])
                == has_running_job(*r[j]) ==> !seq_lt(r[j].name@, r[i].name@),
{
    let ks = workflow_keys(gs);
    assert forall|i: int, j: int| 0 <= i < j < r.len() implies ((#[trigger] r[i]).category == WorkflowCategory::Review
        ==> (#[trigger] r[j]).category == WorkflowCategory::Review) && (r[i].category == r[j].category
        && has_running_job(*r[j]) ==> has_running_job(*r[i])) && (r[i].category == r[j].category
        && has_running_job(*r[i]) == has_running_job(*r[j]) ==> !seq_lt(r[j].name@, r[i].name@)) by {
        assert(!key_lt(ks[order[j] as int], ks[order[i] as int]));
        assert(*r[i] == gs[order[i] as int] && *r[j] == gs[order[j] as int]);
        assert(ks[order[i] as int] == workflow_key(*r[i]));
        assert(ks[order[j] as int] == workflow_key(*r[j]));
        assert(any_bar_running(r[i].jobs@) == has_running_job(*r[i]));
        assert(any_bar_running(r[j].jobs@) == has_running_job(*r[j]));
    }
}

/// `r` lists the groups of `gs` in the order `order`.
pub open spec fn listed_in_order<T>(r: Seq<&T>, gs: Seq<T>, order: Seq<usize>) -> bool {
    r.len() == order.len() && forall|k: int| 0 <= k < r.len() ==> *#[trigger] r[k] == gs[order[k] as int]
}

/// The workflow groups in display order: CI before Review, then those
/// with a running job, then by name; groups that compare equal keep their
/// order.
pub fn sorted_workflow_groups(groups: &[WorkflowGroup]) -> (r: Vec<&WorkflowGroup>)
    ensures
        exists|order: Seq<usize>|
            #[trigger] stable_sorted(workflow_keys(groups@), order) && listed_in_order(r@, groups@, order),
        forall|i: int, j: int|
            0 <= i < j < r@.len() && (#[trigger] r@[i]).category == WorkflowCategory::Review ==> (
            #[trigger] r@[j]).category == WorkflowCategory::Review,
        forall|i: int, j: int|
            0 <= i < j < r@.len() && (#[trigger] r@[i]).category == (#[trigger] r@[j]).category
                && has_running_job(*r@[j]) ==> has_running_job(*r@[i]),
{
    let mut keys: Vec<ExecKey> = Vec::new();
    let mut i: usize = 0;
    while i < groups.len()
        invariant
            i <= groups.len(),
            keys_view(keys@) == workflow_keys(groups@).take(i as int),
        decreases groups.len() - i,
    {
        let g = &groups[i];
        let rank: u8 = match g.category {
            WorkflowCategory::CI => 0,
            WorkflowCategory::Review => 1,
        };
        assert(rank as int == category_rank(g.category));
        let running = bars_running(&g.jobs);
        let name = chars_of(g.name.as_str());
        let ghost before = keys@;
        keys.push((rank, running, name));
        assert(workflow_keys(groups@).len() == groups@.len());
        assert(workflow_keys(groups@).take(i as int).len() == i);
        assert(keys_view(before).len() == i);
        assert(before.len() == i);
        assert(keys@[i as int] == (rank, running, name));
        assert(keys_view(keys@)[i as int] == (rank as int, running, name@));
        assert(running == any_bar_running(groups@[i as int].jobs@));
        assert(name@ == groups@[i as int].name@);
        assert(keys_view(keys@)[i as int] == workflow_key(groups@[i as int]));
        assert(keys_view(keys@) =~= workflow_keys(groups@).take(i + 1));
        i = i + 1;
    }
    assert(workflow_keys(groups@).take(i as int) =~= workflow_keys(groups@));
    let order = stable_sort_order(&keys);
    let mut r: Vec<&WorkflowGroup> = Vec::new();
    let mut k: usize = 0;
    while k < order.len()
        invariant
            stable_sorted(workflow_keys(groups@), order@),
            k <= order.len(),
            r@.len() == k,
            forall|j: int| 0 <= j < k ==> *#[trigger] r@[j] == groups@[order@[j] as int],
        decreases order.len() - k,
    {
        assert(order@[k as int] < groups@.len());
        r.push(&groups[order[k]]);
        k = k + 1;
    }
    assert(listed_in_order(r@, groups@, order@));
    proof {
        lemma_shown_workflows_ordered(groups@, order@, r@);
    }
    r
}

/// The workflow group links to pipeline `name`.
pub open spec fn links_to(g: WorkflowGroup, name: Seq<char>) -> bool {
    match g.linked_pipeline {
        Some(p) => p@ == name,
        None => false,
    }
}

/// Some workflow group links to pipeline `name`.
pub open spec fn is_linked(wgs: Seq<WorkflowGroup>, name: Seq<char>) -> bool {
    exists|j: int| 0 <= j < wgs.len() && #[trigger] links_to(wgs[j], name)
}

/// A pipeline group's sort key: whether a stage runs, its name.
pub open spec fn pipeline_key(g: PipelineGroup) -> SortKey {
    (0, any_bar_running(g.stages@), g.name@)
}

/// The sort keys of the pipeline groups.
pub open spec fn pipeline_keys(gs: Seq<PipelineGroup>) -> Seq<SortKey> {
    gs.map_values(|g: PipelineGroup| pipeline_key(g))
}

/// The pipeline groups that no workflow group links to, in order.
pub open spec fn unlinked_pipelines(gs: Seq<PipelineGroup>, wgs: Seq<WorkflowGroup>) -> Seq<PipelineGroup> {
    gs.filter(|g: PipelineGroup| !is_linked(wgs, g.name@))
}

/// The shown pipeline list holds only pipeline groups of `groups` that no
/// workflow group links to.
pub proof fn lemma_shown_pipelines_unlinked(
    groups: Seq<PipelineGroup>,
    wgs: Seq<WorkflowGroup>,
    order: Seq<usize>,
    r: Seq<&PipelineGroup>,
)
    requires
        stable_sorted(pipeline_keys(unlinked_pipelines(groups, wgs)), order),
        listed_in_order(r, unlinked_pipelines(groups, wgs), order),
    ensures
        forall|i: int| 0 <= i < r.len() ==> groups.contains(*#[trigger] r[i]),
        forall|i: int, j: int|
            0 <= i < r.len() && 0 <= j < wgs.len() ==> !(#[trigger] wgs[j].linked_pipeline matches Some(p) && p@
                == (#[trigger] r[i]).name@),
{
    broadcast use vstd::seq_lib::group_filter_ensures;

    let pred = |g: PipelineGroup| !is_linked(wgs, g.name@);
    let u = groups.filter(pred);
    assert(u == unlinked_pipelines(groups, wgs));
    assert(pipeline_keys(u).len() == u.len());
    assert forall|i: int| 0 <= i < r.len() implies groups.contains(*#[trigger] r[i]) && !is_linked(wgs, r[i].name@) by {
        let m = order[i] as int;
        assert(0 <= m < u.len());
        assert(*r[i] == u[m]);
        assert(pred(u[m]));
        assert(u.contains(u[m]));
        groups.lemma_filter_contains_rev(pred, u[m]);
    }
    assert forall|i: int, j: int| 0 <= i < r.len() && 0 <= j < wgs.len() implies !(
    #[trigger] wgs[j].linked_pipeline matches Some(p) && p@ == (#[trigger] r[i]).name@) by {
        assert(!is_linked(wgs, r[i].name@));
        if wgs[j].linked_pipeline matches Some(p) && p@ == r[i].name@ {
            assert(links_to(wgs[j], r[i].name@));
        }
    }
}

/// Some workflow group links to pipeline `name`.
fn pipeline_is_linked(wgs: &[WorkflowGroup], name: &str) -> (r: bool)
    ensures
        r == is_linked(wgs@, name@),
{
    let mut j: usize = 0;
    while j < wgs.len()
        invariant
            j <= wgs.len(),
            forall|k: int| 0 <= k < j ==> !#[trigger] links_to(wgs@[k], name@),
        decreases wgs.len() - j,
    {
        match &wgs[j].linked_pipeline {
            Some(p) => {
                if str_eq(p.as_str(), name) {
                    assert(links_to(wgs@[j as int], name@));
                    return true;
                }
            },
            None => {},
        }
        j = j + 1;
    }
    false
}

/// The pipeline groups shown in the pipelines section: those that no
/// workflow group links to (a linked pipeline is shown under its
/// workflow), those with a running stage first, then by name; groups that
/// compare equal keep their order.
pub fn sorted_pipeline_groups<'a>(groups: &'a [PipelineGroup], workflow_groups: &[WorkflowGroup]) -> (r: Vec<&'a PipelineGroup>)
    ensures
        exists|order: Seq<usize>|
            #[trigger] stable_sorted(pipeline_keys(unlinked_pipelines(groups@, workflow_groups@)), order)
                && listed_in_order(r@, unlinked_pipelines(groups@, workflow_groups@), order),
        forall|i: int, j: int|
            0 <= i < j < r@.len() && has_running_stage(*#[trigger] r@[j]) ==> has_running_stage(*#[trigger] r@[i]),
        forall|i: int| 0 <= i < r@.len() ==> groups@.contains(*#[trigger] r@[i]),
{
    let ghost kept_v = unlinked_pipelines(groups@, workflow_groups@);
    let mut kept: Vec<&PipelineGroup> = Vec::new();
    let mut i: usize = 0;
    while i < groups.len()
        invariant
            kept_v == unlinked_pipelines(groups@, workflow_groups@),
            i <= groups.len(),
            kept@.map_values(|g: &PipelineGroup| *g) == groups@.take(i as int).filter(
                |g: PipelineGroup| !is_linked(workflow_groups@, g.name@),
            ),
        decreases groups.len() - i,
    {
        proof {
            assert(groups@.take(i + 1) =~= groups@.take(i as int).push(groups@[i as int]));
            groups@.take(i as int).lemma_filter_push(
                groups@[i as int],
                |g: PipelineGroup| !is_linked(workflow_groups@, g.name@),
            );
        }
        let ghost before = kept@;
        if !pipeline_is_linked(workflow_groups, groups[i].name.as_str()) {
            kept.push(&groups[i]);
            assert(kept@.map_values(|g: &PipelineGroup| *g) =~= before.map_values(|g: &PipelineGroup| *g).push(
                groups@[i as int],
            ));
        }
        i = i + 1;
    }
    assert(groups@.take(i as int) =~= groups@);
    let ghost kv = kept@.map_values(|g: &PipelineGroup| *g);
    assert(kv == kept_v);
    let mut keys: Vec<ExecKey> = Vec::new();
    let mut j: usize = 0;
    while j < kept.len()
        invariant
            kv == kept@.map_values(|g: &PipelineGroup| *g),
            j <= kept.len(),
            keys_view(keys@) == pipeline_keys(kv).take(j as int),
        decreases kept.len() - j,
    {
        let g = kept[j];
        assert(kv[j as int] == *g);
        let running = bars_running(&g.stages);
        let name = chars_of(g.name.as_str());
        let ghost before = keys@;
        keys.push((0u8, running, name));
        assert(pipeline_keys(kv).len() == kv.len());
        assert(pipeline_keys(kv).take(j as int).len() == j);
        assert(keys_view(before).len() == j);
        assert(before.len() == j);
        assert(keys@[j as int] == (0u8, running, name));
        assert(keys_view(keys@)[j as int] == (0int, running, name@));
        assert(keys_view(keys@)[j as int] == pipeline_key(kv[j as int]));
        assert(keys_view(keys@) =~= pipeline_keys(kv).take(j + 1));
        j = j + 1;
    }
    assert(pipeline_keys(kv).take(j as int) =~= pipeline_keys(kv));
    let order = stable_sort_order(&keys);
    let mut r: Vec<&PipelineGroup> = Vec::new();
    let mut k: usize = 0;
    while k < order.len()
        invariant
            kv == kept@.map_values(|g: &PipelineGroup| *g),
            stable_sorted(pipeline_keys(kv), order@),
            k <= order.len(),
            r@.len() == k,
            forall|m: int| 0 <= m < k ==> *#[trigger] r@[m] == kv[order@[m] as int],
        decreases order.len() - k,
    {
        assert(order@[k as int] < kv.len());
        r.push(kept[order[k]]);
        k = k + 1;
    }
    assert(listed_in_order(r@, kv, order@));
    proof {
        lemma_shown_pipelines_running_first(kv, order@, r@);
        lemma_shown_pipelines_unlinked(groups@, workflow_groups@, order@, r@);
    }
    r
}

/// The name lengths of the visible (not gone) bars of all groups, group
/// by group.
pub open spec fn visible_lens(bar_groups: Seq<Seq<Bar>>) -> Seq<nat>
    decreases bar_groups.len(),
{
    if bar_groups.len() == 0 {
        Seq::empty()
    } else {
        visible_lens(bar_groups.drop_last()) + bar_lens(bar_groups.last(), true)
    }
}

/// The jobs of each workflow group.
pub open spec fn job_lists(gs: Seq<WorkflowGroup>) -> Seq<Seq<Bar>> {
    gs.map_values(|g: WorkflowGroup| g.jobs@)
}

/// The stages of each pipeline group.
pub open spec fn stage_lists(gs: Seq<PipelineGroup>) -> Seq<Seq<Bar>> {
    gs.map_values(|g: PipelineGroup| g.stages@)
}

/// A name column of names up to `m` long plus `indent`, at most
/// [`MAX_NAME_WIDTH`].
pub open spec fn cap_width(m: nat, indent: nat) -> nat {
    if m + indent < MAX_NAME_WIDTH {
        m + indent
    } else {
        MAX_NAME_WIDTH as nat
    }
}

/// The width of a name column: the longest name (10 for none) plus the
/// indent, at most [`MAX_NAME_WIDTH`].
pub open spec fn column_width(lens: Seq<nat>, indent: nat) -> nat {
    cap_width(widest(lens, 10), indent)
}

/// The column width for names up to `best` long (10 without names) plus
/// `indent`.
fn capped_width(found: bool, best: usize, indent: usize) -> (r: usize)
    requires
        indent < MAX_NAME_WIDTH,
    ensures
        r == cap_width(if found { best as nat } else { 10 }, indent as nat),
{
    let m = if found {
        best
    } else {
        10
    };
    if m < MAX_NAME_WIDTH - indent {
        m + indent
    } else {
        MAX_NAME_WIDTH
    }
}

/// The name column width of the jobs: the longest visible job name (10
/// for none) plus 2 for the indent, at most [`MAX_NAME_WIDTH`].
pub fn all_jobs_name_width(groups: &[WorkflowGroup]) -> (r: usize)
    ensures
        r == column_width(visible_lens(job_lists(groups@)), 2),
{
    let ghost lists = job_lists(groups@);
    let mut found = false;
    let mut best: usize = 0;
    let mut i: usize = 0;
    while i < groups.len()
        invariant
            lists == job_lists(groups@),
            i <= groups.len(),
            found == (visible_lens(lists.take(i as int)).len() > 0),
            best == seq_max(visible_lens(lists.take(i as int))),
        decreases groups.len() - i,
    {
        assert(lists.take(i + 1).drop_last() =~= lists.take(i as int));
        assert(lists.take(i + 1).last() == groups@[i as int].jobs@);
        let r = fold_bar_lens(
            groups[i].jobs.as_slice(),
            true,
            Ghost(visible_lens(lists.take(i as int))),
            found,
            best,
        );
        found = r.0;
        best = r.1;
        i = i + 1;
    }
    assert(lists.take(i as int) =~= lists);
    capped_width(found, best, 2)
}

/// The name column width of the stages: the longest visible stage name
/// (10 for none) plus 4 for the indent, at most [`MAX_NAME_WIDTH`].
pub fn all_pipeline_stages_name_width(groups: &[PipelineGroup]) -> (r: usize)
    ensures
        r == column_width(visible_lens(stage_lists(groups@)), 4),
{
    let ghost lists = stage_lists(groups@);
    let mut found = false;
    let mut best: usize = 0;
    let mut i: usize = 0;
    while i < groups.len()
        invariant
            lists == stage_lists(groups@),
            i <= groups.len(),
            found == (visible_lens(lists.take(i as int)).len() > 0),
            best == seq_max(visible_lens(lists.take(i as int))),
        decreases groups.len() - i,
    {
        assert(lists.take(i + 1).drop_last() =~= lists.take(i as int));
        assert(lists.take(i + 1).last() == groups@[i as int].stages@);
        let r = fold_bar_lens(
            groups[i].stages.as_slice(),
            true,
            Ghost(visible_lens(lists.take(i as int))),
            found,
            best,
        );
        found = r.0;
        best = r.1;
        i = i + 1;
    }
    assert(lists.take(i as int) =~= lists);
    capped_width(found, best, 4)
}

/// The height of the actions or pipelines section: its borders and one
/// row per line when expanded with content, else borders and one line.
pub fn section_height(has_content: bool, expanded: bool, content_rows: usize) -> (r: u16)
    requires
        content_rows <= usize::MAX - 2,
    ensures
        r == if !has_content || !expanded {
            3
        } else {
            (2 + content_rows) as u16
        },
{
    if !has_content || !expanded {
        3
    } else {
        #[verifier::truncate]
        ((2 + content_rows) as u16)
    }
}

/// The height of one band of the screen.
#[derive(Debug, Clone, Copy, PartialEq, Eq, Structural)]
pub enum Section {
    /// Exactly this many rows.
    Length(u16),
    /// A share of the rows left over.
    Fill(u16),
}

/// The bands of the screen from top to bottom: the header (3 rows), the
/// actions and pipelines sections at their heights, the remaining space,
/// and the status bar (3 rows).
pub fn compute_layout_constraints(actions_height: u16, pipelines_height: u16) -> (r: Vec<Section>)
    ensures
        r@ == seq![
            Section::Length(3),
            Section::Length(actions_height),
            Section::Length(pipelines_height),
            Section::Fill(1),
            Section::Length(3),
        ],
{
    let r = vec![
        Section::Length(3),
        Section::Length(actions_height),
        Section::Length(pipelines_height),
        Section::Fill(1),
        Section::Length(3),
    ];
    assert(r@ =~= seq![
        Section::Length(3),
        Section::Length(actions_height),
        Section::Length(pipelines_height),
        Section::Fill(1),
        Section::Length(3),
    ]);
    r
}

/// Expands or collapses both sections, following the actions section.
pub fn toggle_expand(app: &mut App)
    ensures
        final(app).actions_expanded == !old(app).actions_expanded,
        final(app).pipelines_expanded == !old(app).actions_expanded,
        *final(app) == (App {
            actions_expanded: final(app).actions_expanded,
            pipelines_expanded: final(app).pipelines_expanded,
            ..*old(app)
        }),
{
    let expanded = !app.actions_expanded;
    app.actions_expanded = expanded;
    app.pipelines_expanded = expanded;
}

/// The number of visible (not gone) bars.
pub open spec fn visible_count(bars: Seq<Bar>) -> nat {
    bar_lens(bars, true).len()
}

/// The number of visible bars.
fn count_visible(bars: &[Bar]) -> (r: usize)
    ensures
        r == visible_count(bars@),
{
    let mut n: usize = 0;
    let mut j: usize = 0;
    while j < bars.len()
        invariant
            j <= bars.len(),
            n == visible_count(bars@.take(j as int)),
            n <= j,
        decreases bars.len() - j,
    {
        assert(bars@.take(j + 1).drop_last() =~= bars@.take(j as int));
        if !bars[j].gone {
            n = n + 1;
        }
        j = j + 1;
    }
    assert(bars@.take(j as int) =~= bars@);
    n
}

/// The index of the first pipeline group named `name`.
pub open spec fn first_pipeline_named(pgs: Seq<PipelineGroup>, name: Seq<char>, start: int) -> Option<int>
    decreases pgs.len() - start,
{
    if start < 0 || start >= pgs.len() {
        None
    } else if pgs[start].name@ == name {
        Some(start)
    } else {
        first_pipeline_named(pgs, name, start + 1)
    }
}

/// The rows that a workflow group's linked pipeline takes under it: its
/// header and its visible stages (none without such a pipeline group).
pub open spec fn linked_rows(g: WorkflowGroup, pgs: Seq<PipelineGroup>) -> nat {
    match g.linked_pipeline {
        Some(p) => match first_pipeline_named(pgs, p@, 0) {
            Some(i) => 1 + visible_count(pgs[i].stages@),
            None => 0,
        },
        None => 0,
    }
}

/// The rows of the CI groups: their visible jobs and linked pipelines.
pub open spec fn ci_rows(gs: Seq<&WorkflowGroup>, pgs: Seq<PipelineGroup>) -> nat
    decreases gs.len(),
{
    if gs.len() == 0 {
        0
    } else {
        ci_rows(gs.drop_last(), pgs) + if gs.last().category == WorkflowCategory::CI {
            visible_count(gs.last().jobs@) + linked_rows(*gs.last(), pgs)
        } else {
            0
        }
    }
}

/// The rows of the review groups: their visible jobs.
pub open spec fn review_rows(gs: Seq<&WorkflowGroup>) -> nat
    decreases gs.len(),
{
    if gs.len() == 0 {
        0
    } else {
        review_rows(gs.drop_last()) + if gs.last().category == WorkflowCategory::Review {
            visible_count(gs.last().jobs@)
        } else {
            0
        }
    }
}

/// The rows of the expanded actions section: the CI rows, a separator
/// when reviews follow, and the review rows.
pub open spec fn action_rows_spec(gs: Seq<&WorkflowGroup>, pgs: Seq<PipelineGroup>) -> nat {
    ci_rows(gs, pgs) + (if review_rows(gs) > 0 { 1nat } else { 0nat }) + review_rows(gs)
}

/// A count, held at `usize::MAX` when it does not fit.
pub open spec fn saturated(n: nat) -> nat {
    if n <= usize::MAX {
        n
    } else {
        usize::MAX as nat
    }
}

/// The rows of a workflow group's linked pipeline (see [`linked_rows`]),
/// saturated.
fn count_linked_rows(g: &WorkflowGroup, pgs: &[PipelineGroup]) -> (r: usize)
    ensures
        r == saturated(linked_rows(*g, pgs@)),
{
    match &g.linked_pipeline {
        None => 0,
        Some(p) => {
            let mut i: usize = 0;
            while i < pgs.len()
                invariant
                    i <= pgs.len(),
                    g.linked_pipeline == Some(*p),
                    first_pipeline_named(pgs@, p@, 0) == first_pipeline_named(pgs@, p@, i as int),
                decreases pgs.len() - i,
            {
                if str_eq(pgs[i].name.as_str(), p.as_str()) {
                    let n = count_visible(pgs[i].stages.as_slice());
                    assert(first_pipeline_named(pgs@, p@, i as int) == Some(i as int));
                    return n.saturating_add(1);
                }
                i = i + 1;
            }
            0
        },
    }
}

/// There are no more visible bars than bars.
pub proof fn lemma_visible_count_bound(bars: Seq<Bar>)
    ensures
        visible_count(bars) <= bars.len(),
    decreases bars.len(),
{
    if bars.len() > 0 {
        lemma_visible_count_bound(bars.drop_last());
    }
}

/// The rows of the expanded actions section: each CI group's visible jobs
/// and, under it, its linked pipeline's header and visible stages; then,
/// when review groups have visible jobs, a separator and those jobs (held
/// at `usize::MAX` should the count not fit).
pub fn action_rows(groups: &[&WorkflowGroup], pipeline_groups: &[PipelineGroup]) -> (r: usize)
    ensures
        r == saturated(action_rows_spec(groups@, pipeline_groups@)),
{
    let mut ci: usize = 0;
    let mut review: usize = 0;
    let mut i: usize = 0;
    while i < groups.len()
        invariant
            i <= groups.len(),
            ci == saturated(ci_rows(groups@.take(i as int), pipeline_groups@)),
            review == saturated(review_rows(groups@.take(i as int))),
            review_rows(groups@.take(i as int)) > 0 ==> review > 0,
        decreases groups.len() - i,
    {
        assert(groups@.take(i + 1).drop_last() =~= groups@.take(i as int));
        let g = groups[i];
        let jobs = count_visible(g.jobs.as_slice());
        match g.category {
            WorkflowCategory::CI => {
                let linked = count_linked_rows(g, pipeline_groups);
                ci = ci.saturating_add(jobs).saturating_add(linked);
            },
            WorkflowCategory::Review => {
                review = review.saturating_add(jobs);
            },
        }
        i = i + 1;
    }
    assert(groups@.take(i as int) =~= groups@);
    let sep: usize = if review > 0 {
        1
    } else {
        0
    };
    ci.saturating_add(sep).saturating_add(review)
}

/// The rows of the pipeline groups with visible stages: a header and the
/// stages each.
pub open spec fn pipe_base_rows(gs: Seq<&PipelineGroup>) -> nat
    decreases gs.len(),
{
    if gs.len() == 0 {
        0
    } else {
        pipe_base_rows(gs.drop_last()) + if visible_count(gs.last().stages@) > 0 {
            1 + visible_count(gs.last().stages@)
        } else {
            0
        }
    }
}

/// The number of pipeline groups with visible stages.
pub open spec fn groups_with_stages(gs: Seq<&PipelineGroup>) -> nat
    decreases gs.len(),
{
    if gs.len() == 0 {
        0
    } else {
        groups_with_stages(gs.drop_last()) + if visible_count(gs.last().stages@) > 0 {
            1nat
        } else {
            0nat
        }
    }
}

/// The rows of the expanded pipelines section: a header and the visible
/// stages of each group that has some, and a spacer between such groups.
pub open spec fn pipe_rows_spec(gs: Seq<&PipelineGroup>) -> nat {
    pipe_base_rows(gs) + if groups_with_stages(gs) > 0 {
        (groups_with_stages(gs) - 1) as nat
    } else {
        0
    }
}

/// The rows of the expanded pipelines section (see [`pipe_rows_spec`]),
/// held at `usize::MAX` should the count not fit.
pub fn pipe_rows(groups: &[&PipelineGroup]) -> (r: usize)
    ensures
        r == saturated(pipe_rows_spec(groups@)),
{
    let mut base: usize = 0;
    let mut with_stages: usize = 0;
    let mut i: usize = 0;
    while i < groups.len()
        invariant
            i <= groups.len(),
            base == saturated(pipe_base_rows(groups@.take(i as int))),
            with_stages == groups_with_stages(groups@.take(i as int)),
            groups_with_stages(groups@.take(i as int)) <= i,
            groups_with_stages(groups@.take(i as int)) <= pipe_base_rows(groups@.take(i as int)),
        decreases groups.len() - i,
    {
        assert(groups@.take(i + 1).drop_last() =~= groups@.take(i as int));
        let n = count_visible(groups[i].stages.as_slice());
        if n > 0 {
            base = base.saturating_add(n).saturating_add(1);
            with_stages = with_stages + 1;
        }
        i = i + 1;
    }
    assert(groups@.take(i as int) =~= groups@);
    let spacers: usize = if with_stages > 0 {
        with_stages - 1
    } else {
        0
    };
    base.saturating_add(spacers)
}

} // verus!
