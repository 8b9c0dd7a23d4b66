//! The name column of bar rows, and the titles with their status dots.

use vstd::prelude::*;

use crate::model::{Bar, BuildStatus, PipelineGroup, StatusColor, WorkflowCategory, WorkflowGroup, status_color};
use crate::text::{chars_of, concat2, decimal, push_char, u64_to_decimal};

verus! {

/// The widest name column, in bytes.
pub const MAX_NAME_WIDTH: usize = 30;

/// The column width of a name: its length in bytes (UTF-8), as
/// `str::len` counts it.
pub open spec fn name_len(name: Seq<char>) -> nat {
    (vstd::utf8::encode_utf8(name).len() as usize) as nat
}

/// The name lengths of the bars, in order, leaving out gone bars when
/// `skip_gone`.
pub open spec fn bar_lens(bars: Seq<Bar>, skip_gone: bool) -> Seq<nat>
    decreases bars.len(),
{
    if bars.len() == 0 {
        Seq::empty()
    } else {
        let r = bar_lens(bars.drop_last(), skip_gone);
        if skip_gone && bars.last().gone {
            r
        } else {
            r.push(name_len(bars.last().name@))
        }
    }
}

/// The greatest of the lengths (0 for none).
pub open spec fn seq_max(s: Seq<nat>) -> nat
    decreases s.len(),
{
    if s.len() == 0 {
        0
    } else {
        let m = seq_max(s.drop_last());
        if s.last() > m {
            s.last()
        } else {
            m
        }
    }
}

/// The greatest of the lengths, or `default` for none.
pub open spec fn widest(s: Seq<nat>, default: nat) -> nat {
    if s.len() == 0 {
        default
    } else {
        seq_max(s)
    }
}

/// Folds the name lengths of `bars` into a running maximum over `prior`.
pub(crate) fn fold_bar_lens(
    bars: &[Bar],
    skip_gone: bool,
    Ghost(prior): Ghost<Seq<nat>>,
    found: bool,
    best: usize,
) -> (r: (bool, usize))
    requires
        found == (prior.len() > 0),
        best == seq_max(prior),
    ensures
        r.0 == ((prior + bar_lens(bars@, skip_gone)).len() > 0),
        r.1 == seq_max(prior + bar_lens(bars@, skip_gone)),
{
    let mut found = found;
    let mut best = best;
    let mut j: usize = 0;
    while j < bars.len()
        invariant
            j <= bars.len(),
            found == ((prior + bar_lens(bars@.take(j as int), skip_gone)).len() > 0),
            best == seq_max(prior + bar_lens(bars@.take(j as int), skip_gone)),
        decreases bars.len() - j,
    {
        let ghost before = prior + bar_lens(bars@.take(j as int), skip_gone);
        assert(bars@.take(j + 1).drop_last() =~= bars@.take(j as int));
        let b = &bars[j];
        if !(skip_gone && b.gone) {
            let len = b.name.as_str().len();
            assert(len == name_len(b.name@));
            assert(prior + bar_lens(bars@.take(j + 1), skip_gone) =~= before.push(len as nat));
            assert(before.push(len as nat).drop_last() =~= before);
            if !found || len > best {
                best = len;
            }
            found = true;
        } else {
            assert(prior + bar_lens(bars@.take(j + 1), skip_gone) =~= before);
        }
        j = j + 1;
    }
    assert(bars@.take(j as int) =~= bars@);
    (found, best)
}

/// The name column width for a set of bars: the longest name (10 for
/// none), at most [`MAX_NAME_WIDTH`].
pub fn compute_name_width(bars: &[Bar]) -> (r: usize)
    ensures
        r == if widest(bar_lens(bars@, false), 10) < MAX_NAME_WIDTH {
            widest(bar_lens(bars@, false), 10)
        } else {
            MAX_NAME_WIDTH as nat
        },
{
    assert(Seq::<nat>::empty() + bar_lens(bars@, false) =~= bar_lens(bars@, false));
    let (found, best) = fold_bar_lens(bars, false, Ghost(Seq::empty()), false, 0);
    let m = if found {
        best
    } else {
        10
    };
    if m < MAX_NAME_WIDTH {
        m
    } else {
        MAX_NAME_WIDTH
    }
}

/// The tone of a status dot or bar: dimmed, or a status's color.
#[derive(Debug, Clone, Copy, PartialEq, Eq, Structural)]
pub enum DotTone {
    Dim,
    Status(StatusColor),
}

/// The dots of a workflow group when its section is collapsed: one per
/// visible job (or one for the group without visible jobs), dimmed for a
/// gone or review group, else in the status's color.
pub open spec fn group_dots(g: WorkflowGroup) -> Seq<DotTone> {
    let dim = g.gone || g.category == WorkflowCategory::Review;
    if bar_lens(g.jobs@, true).len() == 0 {
        seq![if dim { DotTone::Dim } else { DotTone::Status(status_color(g.summary_status)) }]
    } else {
        job_dots(g.jobs@, dim)
    }
}

/// The dots of the visible jobs, in order.
pub open spec fn job_dots(jobs: Seq<Bar>, dim: bool) -> Seq<DotTone>
    decreases jobs.len(),
{
    if jobs.len() == 0 {
        Seq::empty()
    } else {
        let r = job_dots(jobs.drop_last(), dim);
        if jobs.last().gone {
            r
        } else {
            r.push(if dim { DotTone::Dim } else { DotTone::Status(status_color(jobs.last().status)) })
        }
    }
}

/// The dots of the workflow groups, in order.
pub open spec fn workflow_dots(gs: Seq<&WorkflowGroup>) -> Seq<DotTone>
    decreases gs.len(),
{
    if gs.len() == 0 {
        Seq::empty()
    } else {
        workflow_dots(gs.drop_last()) + group_dots(*gs.last())
    }
}

/// The dot of a pipeline group: dimmed when gone or waiting on its link.
pub open spec fn pipeline_dot(g: PipelineGroup) -> DotTone {
    if g.gone || g.pending_link {
        DotTone::Dim
    } else {
        DotTone::Status(status_color(g.summary_status))
    }
}

/// The title of the actions section.
pub struct ActionsTitle<'a> {
    pub groups: &'a [&'a WorkflowGroup],
    pub expanded: bool,
}

impl<'a> ActionsTitle<'a> {
    pub fn new(groups: &'a [&'a WorkflowGroup], expanded: bool) -> (t: Self)
        ensures
            t.groups == groups,
            t.expanded == expanded,
    {
        ActionsTitle { groups, expanded }
    }

    /// The dots after the title: none when expanded, else the dots of the
    /// groups (see [`group_dots`]).
    pub fn dots(&self) -> (r: Vec<DotTone>)
        ensures
            r@ == if self.expanded {
                Seq::empty()
            } else {
                workflow_dots(self.groups@)
            },
    {
        if self.expanded {
            return Vec::new();
        }
        collapsed_action_dots(self.groups)
    }
}

/// The dots of collapsed workflow groups (see [`group_dots`]).
pub fn collapsed_action_dots(groups: &[&WorkflowGroup]) -> (r: Vec<DotTone>)
    ensures
        r@ == workflow_dots(groups@),
{
    let mut r: Vec<DotTone> = Vec::new();
    let mut i: usize = 0;
    while i < groups.len()
        invariant
            i <= groups.len(),
            r@ == workflow_dots(groups@.take(i as int)),
        decreases groups.len() - i,
    {
        assert(groups@.take(i + 1).drop_last() =~= groups@.take(i as int));
        let g = groups[i];
        let dim = g.gone || g.category == WorkflowCategory::Review;
        let ghost start = r@;
        let mut any = false;
        let mut j: usize = 0;
        while j < g.jobs.len()
            invariant
                j <= g.jobs.len(),
                r@ == start + job_dots(g.jobs@.take(j as int), dim),
                any == (bar_lens(g.jobs@.take(j as int), true).len() > 0),
            decreases g.jobs.len() - j,
        {
            assert(g.jobs@.take(j + 1).drop_last() =~= g.jobs@.take(j as int));
            let b = &g.jobs[j];
            if !b.gone {
                let ghost before = r@;
                let tone = if dim {
                    DotTone::Dim
                } else {
                    DotTone::Status(b.status.color())
                };
                r.push(tone);
                assert(r@ =~= start + job_dots(g.jobs@.take(j + 1), dim));
                any = true;
            }
            j = j + 1;
        }
        assert(g.jobs@.take(j as int) =~= g.jobs@);
        if !any {
            let tone = if dim {
                DotTone::Dim
            } else {
                DotTone::Status(g.summary_status.color())
            };
            proof {
                lemma_job_dots_empty(g.jobs@, dim);
            }
            r.push(tone);
            assert(r@ =~= start + group_dots(*g));
        } else {
            assert(r@ =~= start + group_dots(*g));
        }
        i = i + 1;
    }
    assert(groups@.take(i as int) =~= groups@);
    r
}

/// Without visible jobs there are no job dots.
proof fn lemma_job_dots_empty(jobs: Seq<Bar>, dim: bool)
    requires
        bar_lens(jobs, true).len() == 0,
    ensures
        job_dots(jobs, dim) == Seq::<DotTone>::empty(),
    decreases jobs.len(),
{
    if jobs.len() > 0 {
        lemma_job_dots_empty(jobs.drop_last(), dim);
    }
}

/// The title of the pipelines section.
pub struct PipelinesTitle<'a> {
    pub groups: &'a [&'a PipelineGroup],
    pub expanded: bool,
}

impl<'a> PipelinesTitle<'a> {
    pub fn new(groups: &'a [&'a PipelineGroup], expanded: bool) -> (t: Self)
        ensures
            t.groups == groups,
            t.expanded == expanded,
    {
        PipelinesTitle { groups, expanded }
    }

    /// The dots after the title: none when expanded, else one per group
    /// (see [`pipeline_dot`]).
    pub fn dots(&self) -> (r: Vec<DotTone>)
        ensures
            r@ == if self.expanded {
                Seq::empty()
            } else {
                self.groups@.map_values(|g: &PipelineGroup| pipeline_dot(*g))
            },
    {
        if self.expanded {
            return Vec::new();
        }
        collapsed_pipeline_dots(self.groups)
    }
}

/// The dots of collapsed pipeline groups, one per group.
pub fn collapsed_pipeline_dots(groups: &[&PipelineGroup]) -> (r: Vec<DotTone>)
    ensures
        r@ == groups@.map_values(|g: &PipelineGroup| pipeline_dot(*g)),
{
    let mut r: Vec<DotTone> = Vec::new();
    let mut i: usize = 0;
    while i < groups.len()
        invariant
            i <= groups.len(),
            r@ == groups@.take(i as int).map_values(|g: &PipelineGroup| pipeline_dot(*g)),
        decreases groups.len() - i,
    {
        let g = groups[i];
        let tone = if g.gone || g.pending_link {
            DotTone::Dim
        } else {
            DotTone::Status(g.summary_status.color())
        };
        r.push(tone);
        assert(r@ =~= groups@.take(i + 1).map_values(|g: &PipelineGroup| pipeline_dot(*g)));
        i = i + 1;
    }
    assert(groups@.take(i as int) =~= groups@);
    r
}

/// The count after the dots of the collapsed actions section.
pub fn collapsed_actions_label(count: usize) -> (r: String)
    ensures
        r@ == " ("@ + decimal(count as nat) + " jobs)"@,
{
    let a = concat2(" (", u64_to_decimal(count as u64).as_str());
    concat2(a.as_str(), " jobs)")
}

/// The count after the dots of the collapsed pipelines section.
pub fn collapsed_pipelines_label(count: usize) -> (r: String)
    ensures
        r@ == " ("@ + decimal(count as nat) + if count == 1 {
            " pipeline)"@
        } else {
            " pipelines)"@
        },
{
    let a = concat2(" (", u64_to_decimal(count as u64).as_str());
    if count == 1 {
        concat2(a.as_str(), " pipeline)")
    } else {
        concat2(a.as_str(), " pipelines)")
    }
}

/// `s` padded with spaces on the right to `w` characters (as `{:<w$}`
/// formats; a longer string is kept whole).
pub open spec fn pad_right(s: Seq<char>, w: nat) -> Seq<char> {
    if s.len() >= w {
        s
    } else {
        s + Seq::new((w - s.len()) as nat, |i: int| ' ')
    }
}

/// The name column of a bar: its name padded to `w`, with a trailing `*`
/// for a gone bar.
pub open spec fn name_display(b: Bar, w: nat) -> Seq<char> {
    if b.gone {
        pad_right(b.name@, (w - 1) as nat) + "*"@
    } else {
        pad_right(b.name@, w)
    }
}

/// The cells of a bar row, as plain values: (name cell, main cells, tip
/// cells, empty cells, tone).
pub type BarLayoutView = (Seq<char>, nat, nat, nat, DotTone);

/// How a bar is drawn in a row `area_width` cells wide: the name column
/// (at most [`MAX_NAME_WIDTH`] wide) and two spaces, the filled cells,
/// the empty cells, and room for a time stamp (and for a dot).  A running
/// bar that is not dimmed shows its last two filled cells as a tip.  A
/// row too narrow for all that shows nothing.
pub open spec fn bar_layout_spec(b: Bar, name_width: nat, dim: bool, dot: bool, area_width: nat) -> Option<BarLayoutView> {
    let w = if name_width < MAX_NAME_WIDTH { name_width } else { MAX_NAME_WIDTH as nat };
    let overhead = (if dot { 2nat } else { 0nat }) + w + 2 + 7;
    if area_width < 10 || area_width <= overhead {
        None
    } else {
        let fill_width = (area_width - overhead) as nat;
        let filled = if b.fill < fill_width { b.fill as nat } else { fill_width };
        let tip = if !dim && b.status == BuildStatus::Running && filled > 0 {
            if filled < 2 { filled } else { 2nat }
        } else {
            0nat
        };
        Some(
            (
                name_display(b, w) + "  "@,
                (filled - tip) as nat,
                tip,
                (fill_width - filled) as nat,
                if dim { DotTone::Dim } else { DotTone::Status(status_color(b.status)) },
            ),
        )
    }
}

/// The cells of a bar row.
pub struct BarLayout {
    /// The name column and two spaces.
    pub name_cell: String,
    /// Filled cells in the bar's tone.
    pub main: usize,
    /// Filled cells in the running tip's tone.
    pub tip: usize,
    /// Empty cells.
    pub empty: usize,
    /// The bar's tone.
    pub tone: DotTone,
}

/// The layout, as plain values.
pub open spec fn layout_view(l: BarLayout) -> BarLayoutView {
    (l.name_cell@, l.main as nat, l.tip as nat, l.empty as nat, l.tone)
}

/// `s` padded with spaces to `w` characters.
fn pad(s: &String, w: usize) -> (r: String)
    ensures
        r@ == pad_right(s@, w as nat),
{
    let mut r = s.clone();
    let n = chars_of(s.as_str()).len();
    let mut k = n;
    while k < w
        invariant
            n == s@.len(),
            n <= k,
            k <= w || n >= w,
            n >= w ==> k == n,
            r@ == s@ + Seq::new((k - n) as nat, |i: int| ' '),
        decreases w - k,
    {
        push_char(&mut r, ' ');
        assert(r@ =~= s@ + Seq::new((k + 1 - n) as nat, |i: int| ' '));
        k = k + 1;
    }
    if n >= w {
        assert(r@ =~= s@);
    }
    r
}

/// The cells of bar `b` in a row `area_width` wide (see
/// [`bar_layout_spec`]).
pub fn bar_layout(b: &Bar, name_width: usize, dim: bool, dot: bool, area_width: usize) -> (r: Option<BarLayout>)
    requires
        !(b.gone && name_width == 0) || area_width < 10 || area_width <= (if dot {
            2nat
        } else {
            0nat
        }) + 9,
    ensures
        match r {
            Some(l) => bar_layout_spec(*b, name_width as nat, dim, dot, area_width as nat) == Some(layout_view(l)),
            None => bar_layout_spec(*b, name_width as nat, dim, dot, area_width as nat) is None,
        },
{
    let w = if name_width < MAX_NAME_WIDTH {
        name_width
    } else {
        MAX_NAME_WIDTH
    };
    let dot_len: usize = if dot {
        2
    } else {
        0
    };
    let overhead = dot_len + w + 2 + 7;
    if area_width < 10 || area_width <= overhead {
        return None;
    }
    let fill_width = area_width - overhead;
    let filled = if b.fill < fill_width {
        b.fill
    } else {
        fill_width
    };
    let tip: usize = if !dim && b.status == BuildStatus::Running && filled > 0 {
        if filled < 2 {
            filled
        } else {
            2
        }
    } else {
        0
    };
    let name = if b.gone {
        let p = pad(&b.name, w - 1);
        concat2(p.as_str(), "*")
    } else {
        pad(&b.name, w)
    };
    let tone = if dim {
        DotTone::Dim
    } else {
        DotTone::Status(b.status.color())
    };
    let l = BarLayout {
        name_cell: concat2(name.as_str(), "  "),
        main: filled - tip,
        tip,
        empty: fill_width - filled,
        tone,
    };
    assert(layout_view(l).0 =~= name_display(*b, w as nat) + "  "@);
    Some(l)
}

} // verus!
