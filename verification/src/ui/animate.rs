//! The animation step: once a second every running bar moves one cell
//! along a lap as wide as its row leaves for it.

use vstd::prelude::*;

use crate::app::App;
use crate::model::{can_tick, tick_spec, Bar, PipelineGroup, WorkflowGroup};
use crate::ui::bar::MAX_NAME_WIDTH;
use crate::ui::{all_jobs_name_width, all_pipeline_stages_name_width, column_width, job_lists, stage_lists, visible_lens};

verus! {

/// The cells of a lap in a terminal `area_width` wide with a name column
/// `name_width` wide: what remains after the name column, the indent and
/// spacing, the time stamp and the borders (13 cells), or none.
pub open spec fn lap_width(area_width: nat, name_width: nat) -> nat {
    if area_width >= name_width + 13 {
        (area_width - (name_width + 13)) as nat
    } else {
        0
    }
}

/// A bar after one animation step on a lap of `width` cells (a bar whose
/// counters would overflow stays as it is).
pub open spec fn step_bar(b: Bar, width: nat) -> Bar {
    if can_tick(b, width) {
        tick_spec(b, width)
    } else {
        b
    }
}

/// Each bar after one animation step.
pub open spec fn step_bars(bars: Seq<Bar>, width: nat) -> Seq<Bar> {
    bars.map_values(|b: Bar| step_bar(b, width))
}

/// The bars after one animation step.
fn step_bar_list(bars: Vec<Bar>, width: usize) -> (r: Vec<Bar>)
    ensures
        r@ == step_bars(bars@, width as nat),
{
    let ghost all = bars@;
    let mut rest = bars;
    let mut out: Vec<Bar> = Vec::new();
    while rest.len() > 0
        invariant
            out.len() + rest.len() == all.len(),
            rest@ == all.skip(out.len() as int),
            out@ == step_bars(all.take(out.len() as int), width as nat),
        decreases rest.len(),
    {
        let ghost k = out.len() as int;
        let mut b = rest.remove(0);
        assert(b == all[k]);
        if b.can_tick_now(width) {
            b.tick(width);
        }
        out.push(b);
        assert(all.take(k + 1) =~= all.take(k).push(all[k]));
        assert(out@ =~= step_bars(all.take(k + 1), width as nat));
        assert(rest@ =~= all.skip(k + 1));
    }
    assert(all.take(out.len() as int) =~= all);
    out
}

/// One animation step of every stage and job bar, on laps as wide as the
/// terminal leaves them beside their name columns.
pub fn animate_bars(app: &mut App)
    ensures
        final(app).pipeline_groups@.len() == old(app).pipeline_groups@.len(),
        forall|i: int|
            0 <= i < old(app).pipeline_groups@.len() ==> #[trigger] final(app).pipeline_groups@[i] == (
            PipelineGroup {
                stages: final(app).pipeline_groups@[i].stages,
                ..old(app).pipeline_groups@[i]
            }) && final(app).pipeline_groups@[i].stages@ == step_bars(
                old(app).pipeline_groups@[i].stages@,
                lap_width(
                    old(app).terminal_width as nat,
                    column_width(visible_lens(stage_lists(old(app).pipeline_groups@)), 4),
                ),
            ),
        final(app).workflow_groups@.len() == old(app).workflow_groups@.len(),
        forall|i: int|
            0 <= i < old(app).workflow_groups@.len() ==> #[trigger] final(app).workflow_groups@[i] == (
            WorkflowGroup {
                jobs: final(app).workflow_groups@[i].jobs,
                ..old(app).workflow_groups@[i]
            }) && final(app).workflow_groups@[i].jobs@ == step_bars(
                old(app).workflow_groups@[i].jobs@,
                lap_width(
                    old(app).terminal_width as nat,
                    column_width(visible_lens(job_lists(old(app).workflow_groups@)), 2),
                ),
            ),
        *final(app) == (App {
            pipeline_groups: final(app).pipeline_groups,
            workflow_groups: final(app).workflow_groups,
            ..*old(app)
        }),
{
    let width = app.terminal_width as usize;
    let stage_width = all_pipeline_stages_name_width(app.pipeline_groups.as_slice());
    let job_width = all_jobs_name_width(app.workflow_groups.as_slice());
    proof {
        lemma_column_width_capped(visible_lens(stage_lists(app.pipeline_groups@)), 4);
        lemma_column_width_capped(visible_lens(job_lists(app.workflow_groups@)), 2);
    }
    let pipe_lap: usize = if width >= stage_width + 13 {
        width - (stage_width + 13)
    } else {
        0
    };
    let job_lap: usize = if width >= job_width + 13 {
        width - (job_width + 13)
    } else {
        0
    };

    let mut pgs: Vec<PipelineGroup> = Vec::new();
    std::mem::swap(&mut pgs, &mut app.pipeline_groups);
    let ghost old_pgs = pgs@;
    let mut new_pgs: Vec<PipelineGroup> = Vec::new();
    while pgs.len() > 0
        invariant
            new_pgs.len() + pgs.len() == old_pgs.len(),
            pgs@ == old_pgs.skip(new_pgs.len() as int),
            forall|i: int|
                0 <= i < new_pgs.len() ==> #[trigger] new_pgs@[i] == (PipelineGroup {
                    stages: new_pgs@[i].stages,
                    ..old_pgs[i]
                }) && new_pgs@[i].stages@ == step_bars(old_pgs[i].stages@, pipe_lap as nat),
        decreases pgs.len(),
    {
        let ghost k = new_pgs.len() as int;
        let g = pgs.remove(0);
        assert(g == old_pgs[k]);
        let PipelineGroup { name, stages, gone, summary_status, pending_link } = g;
        let stepped = step_bar_list(stages, pipe_lap);
        new_pgs.push(PipelineGroup { name, stages: stepped, gone, summary_status, pending_link });
        assert(pgs@ =~= old_pgs.skip(k + 1));
    }
    app.pipeline_groups = new_pgs;

    let mut wgs: Vec<WorkflowGroup> = Vec::new();
    std::mem::swap(&mut wgs, &mut app.workflow_groups);
    let ghost old_wgs = wgs@;
    let mut new_wgs: Vec<WorkflowGroup> = Vec::new();
    while wgs.len() > 0
        invariant
            new_wgs.len() + wgs.len() == old_wgs.len(),
            wgs@ == old_wgs.skip(new_wgs.len() as int),
            forall|i: int|
                0 <= i < new_wgs.len() ==> #[trigger] new_wgs@[i] == (WorkflowGroup {
                    jobs: new_wgs@[i].jobs,
                    ..old_wgs[i]
                }) && new_wgs@[i].jobs@ == step_bars(old_wgs[i].jobs@, job_lap as nat),
        decreases wgs.len(),
    {
        let ghost k = new_wgs.len() as int;
        let g = wgs.remove(0);
        assert(g == old_wgs[k]);
        let WorkflowGroup { name, jobs, gone, summary_status, run_id, category, linked_pipeline } = g;
        let stepped = step_bar_list(jobs, job_lap);
        new_wgs.push(WorkflowGroup { name, jobs: stepped, gone, summary_status, run_id, category, linked_pipeline });
        assert(wgs@ =~= old_wgs.skip(k + 1));
    }
    app.workflow_groups = new_wgs;
}

/// A name column is never wider than [`MAX_NAME_WIDTH`].
proof fn lemma_column_width_capped(lens: Seq<nat>, indent: nat)
    ensures
        column_width(lens, indent) <= MAX_NAME_WIDTH,
{
}

} // verus!
