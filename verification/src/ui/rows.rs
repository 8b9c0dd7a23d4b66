//! The rows of the expanded sections, in drawing order, with what each
//! row shows.  Their number is the height that the section reserves for
//! them (see the laws at the end).

use vstd::prelude::*;

use crate::model::{status_color, Bar, BuildStatus, PipelineGroup, WorkflowCategory, WorkflowGroup};
use crate::text::str_eq;
use crate::ui::bar::{bar_lens, pipeline_dot, DotTone};
use crate::ui::{
    action_rows_spec, ci_rows, first_pipeline_named, groups_with_stages, linked_rows, pipe_base_rows,
    pipe_rows_spec, review_rows, visible_count,
};

verus! {

/// One row of the expanded actions section.
#[derive(Debug, Clone, Copy, PartialEq, Eq, Structural)]
pub enum ActionRow {
    /// The bar of job `job` of workflow group `group` (indices into the
    /// groups as given and into the group's jobs), dimmed or not, after a
    /// status dot.
    Job { group: usize, job: usize, dim: bool, dot: DotTone },
    /// The header of the pipeline group `pipeline` (an index into the
    /// pipeline groups) linked to the workflow above it.
    LinkedPipeline { pipeline: usize, tone: DotTone },
    /// The bar of stage `stage` of the linked pipeline group `pipeline`,
    /// indented.
    LinkedStage { pipeline: usize, stage: usize, dim: bool },
    /// The line between the CI and the review workflows.
    ReviewSeparator,
}

/// One row of the expanded pipelines section.
#[derive(Debug, Clone, Copy, PartialEq, Eq, Structural)]
pub enum PipelineRow {
    /// The line between two pipeline groups.
    Spacer,
    /// The header of pipeline group `group` (an index into the groups as
    /// given).
    Header { group: usize, tone: DotTone },
    /// The bar of stage `stage` of pipeline group `group`.
    Stage { group: usize, stage: usize, dim: bool },
}

/// The job rows of the visible jobs among `jobs`, in order: bars dimmed
/// when `dim`, dots dimmed when `dim_dot`, else in the job's color.
pub open spec fn job_rows(jobs: Seq<Bar>, group: usize, dim: bool, dim_dot: bool) -> Seq<ActionRow>
    decreases jobs.len(),
{
    if jobs.len() == 0 {
        Seq::empty()
    } else {
        let r = job_rows(jobs.drop_last(), group, dim, dim_dot);
        if jobs.last().gone {
            r
        } else {
            r.push(
                ActionRow::Job {
                    group,
                    job: (jobs.len() - 1) as usize,
                    dim,
                    dot: if dim_dot {
                        DotTone::Dim
                    } else {
                        DotTone::Status(status_color(jobs.last().status))
                    },
                },
            )
        }
    }
}

/// The rows of the visible stages among `stages` of a linked pipeline.
pub open spec fn linked_stage_rows(stages: Seq<Bar>, pipeline: usize, dim: bool) -> Seq<ActionRow>
    decreases stages.len(),
{
    if stages.len() == 0 {
        Seq::empty()
    } else {
        let r = linked_stage_rows(stages.drop_last(), pipeline, dim);
        if stages.last().gone {
            r
        } else {
            r.push(ActionRow::LinkedStage { pipeline, stage: (stages.len() - 1) as usize, dim })
        }
    }
}

/// The rows of the pipeline linked to a workflow group: its header and
/// its visible stages, dimmed with the section or when the pipeline is
/// gone or waits on its link (none without such a pipeline group).
pub open spec fn linked_row_list(g: WorkflowGroup, pgs: Seq<PipelineGroup>, dim: bool) -> Seq<ActionRow> {
    match g.linked_pipeline {
        Some(p) => match first_pipeline_named(pgs, p@, 0) {
            Some(i) => seq![ActionRow::LinkedPipeline { pipeline: i as usize, tone: pipeline_dot(pgs[i]) }]
                + linked_stage_rows(pgs[i].stages@, i as usize, dim || pgs[i].gone || pgs[i].pending_link),
            None => Seq::empty(),
        },
        None => Seq::empty(),
    }
}

/// The rows of the CI groups in order: each group's jobs (dimmed with the
/// section or a gone group, dots dimmed for a gone group), then its linked
/// pipeline.
pub open spec fn ci_row_list(gs: Seq<&WorkflowGroup>, pgs: Seq<PipelineGroup>, dim: bool) -> Seq<ActionRow>
    decreases gs.len(),
{
    if gs.len() == 0 {
        Seq::empty()
    } else {
        let g = *gs.last();
        ci_row_list(gs.drop_last(), pgs, dim) + if g.category == WorkflowCategory::CI {
            job_rows(g.jobs@, (gs.len() - 1) as usize, dim || g.gone, g.gone) + linked_row_list(g, pgs, dim)
        } else {
            Seq::empty()
        }
    }
}

/// The rows of the review groups in order: their jobs, always dimmed.
pub open spec fn review_row_list(gs: Seq<&WorkflowGroup>) -> Seq<ActionRow>
    decreases gs.len(),
{
    if gs.len() == 0 {
        Seq::empty()
    } else {
        let g = *gs.last();
        review_row_list(gs.drop_last()) + if g.category == WorkflowCategory::Review {
            job_rows(g.jobs@, (gs.len() - 1) as usize, true, true)
        } else {
            Seq::empty()
        }
    }
}

/// The rows of the expanded actions section: the CI rows, then, when
/// review groups have visible jobs, a separator and the review rows.
pub open spec fn action_row_list(gs: Seq<&WorkflowGroup>, pgs: Seq<PipelineGroup>, dim: bool) -> Seq<ActionRow> {
    let review = review_row_list(gs);
    ci_row_list(gs, pgs, dim) + (if review.len() > 0 {
        seq![ActionRow::ReviewSeparator]
    } else {
        Seq::empty()
    }) + review
}

/// The rows of the visible stages among `stages` of pipeline group
/// `group`.
pub open spec fn stage_rows(stages: Seq<Bar>, group: usize, dim: bool) -> Seq<PipelineRow>
    decreases stages.len(),
{
    if stages.len() == 0 {
        Seq::empty()
    } else {
        let r = stage_rows(stages.drop_last(), group, dim);
        if stages.last().gone {
            r
        } else {
            r.push(PipelineRow::Stage { group, stage: (stages.len() - 1) as usize, dim })
        }
    }
}

/// The rows of the expanded pipelines section: for each group with
/// visible stages, a spacer when such a group came before, its header and
/// its stages (dimmed with the section, or when the group is gone or waits
/// on its link).
pub open spec fn pipeline_row_list(gs: Seq<&PipelineGroup>, dim: bool) -> Seq<PipelineRow>
    decreases gs.len(),
{
    if gs.len() == 0 {
        Seq::empty()
    } else {
        let g = *gs.last();
        let prev = gs.drop_last();
        pipeline_row_list(prev, dim) + if visible_count(g.stages@) > 0 {
            (if groups_with_stages(prev) > 0 {
                seq![PipelineRow::Spacer]
            } else {
                Seq::empty()
            }) + seq![PipelineRow::Header { group: (gs.len() - 1) as usize, tone: pipeline_dot(g) }] + stage_rows(
                g.stages@,
                (gs.len() - 1) as usize,
                dim || g.gone || g.pending_link,
            )
        } else {
            Seq::empty()
        }
    }
}

/// Appends the job rows of `jobs` to `out`.
fn push_job_rows(out: &mut Vec<ActionRow>, jobs: &[Bar], group: usize, dim: bool, dim_dot: bool)
    ensures
        final(out)@ == old(out)@ + job_rows(jobs@, group, dim, dim_dot),
{
    let ghost start = out@;
    let mut j: usize = 0;
    while j < jobs.len()
        invariant
            j <= jobs.len(),
            out@ == start + job_rows(jobs@.take(j as int), group, dim, dim_dot),
        decreases jobs.len() - j,
    {
        assert(jobs@.take(j + 1).drop_last() =~= jobs@.take(j as int));
        let b = &jobs[j];
        if !b.gone {
            let dot = if dim_dot {
                DotTone::Dim
            } else {
                DotTone::Status(b.status.color())
            };
            out.push(ActionRow::Job { group, job: j, dim, dot });
            assert(out@ =~= start + job_rows(jobs@.take(j + 1), group, dim, dim_dot));
        }
        j = j + 1;
    }
    assert(jobs@.take(j as int) =~= jobs@);
}

/// Appends the rows of the linked pipeline's stages to `out`.
fn push_linked_stage_rows(out: &mut Vec<ActionRow>, stages: &[Bar], pipeline: usize, dim: bool)
    ensures
        final(out)@ == old(out)@ + linked_stage_rows(stages@, pipeline, dim),
{
    let ghost start = out@;
    let mut j: usize = 0;
    while j < stages.len()
        invariant
            j <= stages.len(),
            out@ == start + linked_stage_rows(stages@.take(j as int), pipeline, dim),
        decreases stages.len() - j,
    {
        assert(stages@.take(j + 1).drop_last() =~= stages@.take(j as int));
        if !stages[j].gone {
            out.push(ActionRow::LinkedStage { pipeline, stage: j, dim });
            assert(out@ =~= start + linked_stage_rows(stages@.take(j + 1), pipeline, dim));
        }
        j = j + 1;
    }
    assert(stages@.take(j as int) =~= stages@);
}

/// Appends the rows of the pipeline linked to `g` to `out`.
fn push_linked_rows(out: &mut Vec<ActionRow>, g: &WorkflowGroup, pgs: &[PipelineGroup], dim: bool)
    ensures
        final(out)@ == old(out)@ + linked_row_list(*g, pgs@, dim),
{
    match &g.linked_pipeline {
        None => {
            assert(old(out)@ + Seq::<ActionRow>::empty() =~= old(out)@);
        },
        Some(p) => {
            let mut i: usize = 0;
            while i < pgs.len()
                invariant
                    i <= pgs.len(),
                    g.linked_pipeline == Some(*p),
                    out@ == old(out)@,
                    first_pipeline_named(pgs@, p@, 0) == first_pipeline_named(pgs@, p@, i as int),
                decreases pgs.len() - i,
            {
                if str_eq(pgs[i].name.as_str(), p.as_str()) {
                    assert(first_pipeline_named(pgs@, p@, i as int) == Some(i as int));
                    let pg = &pgs[i];
                    let tone = if pg.gone || pg.pending_link {
                        DotTone::Dim
                    } else {
                        DotTone::Status(pg.summary_status.color())
                    };
                    let ghost before = out@;
                    out.push(ActionRow::LinkedPipeline { pipeline: i, tone });
                    push_linked_stage_rows(out, pg.stages.as_slice(), i, dim || pg.gone || pg.pending_link);
                    assert(out@ =~= before + linked_row_list(*g, pgs@, dim));
                    return;
                }
                i = i + 1;
            }
            assert(old(out)@ + Seq::<ActionRow>::empty() =~= old(out)@);
        },
    }
}

/// The rows of the expanded actions section, for the workflow groups in
/// display order (see [`action_row_list`]).
pub fn action_row_list_of(groups: &[&WorkflowGroup], pipeline_groups: &[PipelineGroup], dim: bool) -> (r: Vec<ActionRow>)
    ensures
        r@ == action_row_list(groups@, pipeline_groups@, dim),
{
    let mut ci: Vec<ActionRow> = Vec::new();
    let mut review: Vec<ActionRow> = Vec::new();
    let mut i: usize = 0;
    while i < groups.len()
        invariant
            i <= groups.len(),
            ci@ == ci_row_list(groups@.take(i as int), pipeline_groups@, dim),
            review@ == review_row_list(groups@.take(i as int)),
        decreases groups.len() - i,
    {
        assert(groups@.take(i + 1).drop_last() =~= groups@.take(i as int));
        let g = groups[i];
        let ghost ci0 = ci@;
        let ghost rv0 = review@;
        match g.category {
            WorkflowCategory::CI => {
                push_job_rows(&mut ci, g.jobs.as_slice(), i, dim || g.gone, g.gone);
                push_linked_rows(&mut ci, g, pipeline_groups, dim);
                assert(ci@ =~= ci0 + (job_rows(g.jobs@, i, dim || g.gone, g.gone) + linked_row_list(
                    *g,
                    pipeline_groups@,
                    dim,
                )));
                assert(review@ =~= rv0 + Seq::<ActionRow>::empty());
            },
            WorkflowCategory::Review => {
                push_job_rows(&mut review, g.jobs.as_slice(), i, true, true);
                assert(ci@ =~= ci0 + Seq::<ActionRow>::empty());
            },
        }
        i = i + 1;
    }
    assert(groups@.take(i as int) =~= groups@);
    let ghost ci_v = ci@;
    let has_review = review.len() > 0;
    let mut r = ci;
    if has_review {
        r.push(ActionRow::ReviewSeparator);
    }
    let ghost mid = r@;
    let mut k: usize = 0;
    while k < review.len()
        invariant
            k <= review.len(),
            r@ == mid + review@.take(k as int),
        decreases review.len() - k,
    {
        r.push(review[k]);
        k = k + 1;
        assert(r@ =~= mid + review@.take(k as int));
    }
    assert(review@.take(k as int) =~= review@);
    assert(r@ =~= action_row_list(groups@, pipeline_groups@, dim));
    r
}

/// Appends the rows of the stages of pipeline group `group` to `out`.
fn push_stage_rows(out: &mut Vec<PipelineRow>, stages: &[Bar], group: usize, dim: bool)
    ensures
        final(out)@ == old(out)@ + stage_rows(stages@, group, dim),
{
    let ghost start = out@;
    let mut j: usize = 0;
    while j < stages.len()
        invariant
            j <= stages.len(),
            out@ == start + stage_rows(stages@.take(j as int), group, dim),
        decreases stages.len() - j,
    {
        assert(stages@.take(j + 1).drop_last() =~= stages@.take(j as int));
        if !stages[j].gone {
            out.push(PipelineRow::Stage { group, stage: j, dim });
            assert(out@ =~= start + stage_rows(stages@.take(j + 1), group, dim));
        }
        j = j + 1;
    }
    assert(stages@.take(j as int) =~= stages@);
}

/// Whether a bar list has a visible bar.
fn any_visible(bars: &[Bar]) -> (r: bool)
    ensures
        r == (visible_count(bars@) > 0),
{
    let mut j: usize = 0;
    while j < bars.len()
        invariant
            j <= bars.len(),
            visible_count(bars@.take(j as int)) == 0,
        decreases bars.len() - j,
    {
        assert(bars@.take(j + 1).drop_last() =~= bars@.take(j as int));
        if !bars[j].gone {
            assert(bar_lens(bars@.take(j + 1), true).len() > 0);
            proof {
                lemma_visible_prefix(bars@, j + 1);
            }
            return true;
        }
        j = j + 1;
    }
    assert(bars@.take(j as int) =~= bars@);
    false
}

/// A prefix has no more visible bars than the whole.
proof fn lemma_visible_prefix(bars: Seq<Bar>, n: int)
    requires
        0 <= n <= bars.len(),
    ensures
        visible_count(bars.take(n)) <= visible_count(bars),
    decreases bars.len(),
{
    if n < bars.len() {
        assert(bars.drop_last().take(n) =~= bars.take(n));
        lemma_visible_prefix(bars.drop_last(), n);
    } else {
        assert(bars.take(n) =~= bars);
    }
}

/// The rows of the expanded pipelines section, for the pipeline groups in
/// display order (see [`pipeline_row_list`]).
pub fn pipeline_row_list_of(groups: &[&PipelineGroup], dim: bool) -> (r: Vec<PipelineRow>)
    ensures
        r@ == pipeline_row_list(groups@, dim),
{
    let mut r: Vec<PipelineRow> = Vec::new();
    let mut shown = false;
    let mut i: usize = 0;
    while i < groups.len()
        invariant
            i <= groups.len(),
            r@ == pipeline_row_list(groups@.take(i as int), dim),
            shown == (groups_with_stages(groups@.take(i as int)) > 0),
        decreases groups.len() - i,
    {
        assert(groups@.take(i + 1).drop_last() =~= groups@.take(i as int));
        let g = groups[i];
        let ghost r0 = r@;
        if any_visible(g.stages.as_slice()) {
            if shown {
                r.push(PipelineRow::Spacer);
            }
            let tone = if g.gone || g.pending_link {
                DotTone::Dim
            } else {
                DotTone::Status(g.summary_status.color())
            };
            r.push(PipelineRow::Header { group: i, tone });
            push_stage_rows(&mut r, g.stages.as_slice(), i, dim || g.gone || g.pending_link);
            assert(r@ =~= pipeline_row_list(groups@.take(i + 1), dim));
            shown = true;
        } else {
            assert(r@ =~= r0 + Seq::<PipelineRow>::empty());
        }
        i = i + 1;
    }
    assert(groups@.take(i as int) =~= groups@);
    r
}

proof fn lemma_job_rows_len(jobs: Seq<Bar>, group: usize, dim: bool, dim_dot: bool)
    ensures
        job_rows(jobs, group, dim, dim_dot).len() == visible_count(jobs),
    decreases jobs.len(),
{
    if jobs.len() > 0 {
        lemma_job_rows_len(jobs.drop_last(), group, dim, dim_dot);
    }
}

proof fn lemma_linked_stage_rows_len(stages: Seq<Bar>, pipeline: usize, dim: bool)
    ensures
        linked_stage_rows(stages, pipeline, dim).len() == visible_count(stages),
    decreases stages.len(),
{
    if stages.len() > 0 {
        lemma_linked_stage_rows_len(stages.drop_last(), pipeline, dim);
    }
}

proof fn lemma_stage_rows_len(stages: Seq<Bar>, group: usize, dim: bool)
    ensures
        stage_rows(stages, group, dim).len() == visible_count(stages),
    decreases stages.len(),
{
    if stages.len() > 0 {
        lemma_stage_rows_len(stages.drop_last(), group, dim);
    }
}

proof fn lemma_ci_row_list_len(gs: Seq<&WorkflowGroup>, pgs: Seq<PipelineGroup>, dim: bool)
    ensures
        ci_row_list(gs, pgs, dim).len() == ci_rows(gs, pgs),
    decreases gs.len(),
{
    if gs.len() > 0 {
        lemma_ci_row_list_len(gs.drop_last(), pgs, dim);
        let g = *gs.last();
        lemma_job_rows_len(g.jobs@, (gs.len() - 1) as usize, dim || g.gone, g.gone);
        if let Some(p) = g.linked_pipeline {
            if let Some(i) = first_pipeline_named(pgs, p@, 0) {
                lemma_linked_stage_rows_len(pgs[i].stages@, i as usize, dim || pgs[i].gone || pgs[i].pending_link);
            }
        }
    }
}

proof fn lemma_review_row_list_len(gs: Seq<&WorkflowGroup>)
    ensures
        review_row_list(gs).len() == review_rows(gs),
    decreases gs.len(),
{
    if gs.len() > 0 {
        lemma_review_row_list_len(gs.drop_last());
        lemma_job_rows_len(gs.last().jobs@, (gs.len() - 1) as usize, true, true);
    }
}

proof fn lemma_pipeline_row_list_len(gs: Seq<&PipelineGroup>, dim: bool)
    ensures
        pipeline_row_list(gs, dim).len() == pipe_base_rows(gs) + if groups_with_stages(gs) > 0 {
            (groups_with_stages(gs) - 1) as nat
        } else {
            0nat
        },
    decreases gs.len(),
{
    if gs.len() > 0 {
        lemma_pipeline_row_list_len(gs.drop_last(), dim);
        let g = *gs.last();
        lemma_stage_rows_len(g.stages@, (gs.len() - 1) as usize, dim || g.gone || g.pending_link);
        lemma_groups_with_stages_bound(gs.drop_last());
    }
}

proof fn lemma_groups_with_stages_bound(gs: Seq<&PipelineGroup>)
    ensures
        groups_with_stages(gs) <= pipe_base_rows(gs),
    decreases gs.len(),
{
    if gs.len() > 0 {
        lemma_groups_with_stages_bound(gs.drop_last());
    }
}

/// The actions section draws exactly as many rows as its height reserves
/// for them ([`action_rows_spec`]), whatever the dimming.
pub proof fn lemma_action_rows_fill_the_section(gs: Seq<&WorkflowGroup>, pgs: Seq<PipelineGroup>, dim: bool)
    ensures
        action_row_list(gs, pgs, dim).len() == action_rows_spec(gs, pgs),
{
    lemma_ci_row_list_len(gs, pgs, dim);
    lemma_review_row_list_len(gs);
}

/// The pipelines section draws exactly as many rows as its height
/// reserves for them ([`pipe_rows_spec`]), whatever the dimming.
pub proof fn lemma_pipeline_rows_fill_the_section(gs: Seq<&PipelineGroup>, dim: bool)
    ensures
        pipeline_row_list(gs, dim).len() == pipe_rows_spec(gs),
{
    lemma_pipeline_row_list_len(gs, dim);
}

} // verus!
