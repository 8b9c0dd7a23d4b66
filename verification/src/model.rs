use vstd::prelude::*;

verus! {

/// The state of one build, job, stage or workflow.
#[derive(Debug, Clone, Copy, PartialEq, Eq, Structural)]
pub enum BuildStatus {
    Running,
    Succeeded,
    Failed,
    Idle,
}

/// The colour in which a status is drawn: yellow while running, green on
/// success, red on failure, dark grey when idle.
#[derive(Debug, Clone, Copy, PartialEq, Eq, Structural)]
pub enum StatusColor {
    Yellow,
    Green,
    Red,
    DarkGray,
}

/// The colour that belongs to a status.
pub open spec fn status_color(s: BuildStatus) -> StatusColor {
    match s {
        BuildStatus::Running => StatusColor::Yellow,
        BuildStatus::Succeeded => StatusColor::Green,
        BuildStatus::Failed => StatusColor::Red,
        BuildStatus::Idle => StatusColor::DarkGray,
    }
}

impl BuildStatus {
    /// The colour in which this status is drawn.
    pub fn color(&self) -> (c: StatusColor)
        ensures
            c == status_color(*self),
    {
        match self {
            BuildStatus::Running => StatusColor::Yellow,
            BuildStatus::Succeeded => StatusColor::Green,
            BuildStatus::Failed => StatusColor::Red,
            BuildStatus::Idle => StatusColor::DarkGray,
        }
    }
}

/// Whether a workflow is part of the build (CI) or a review-style helper
/// workflow (reviews, dependabot, labelers, stale-issue bots).
#[derive(Debug, Clone, Copy, PartialEq, Eq, Structural)]
pub enum WorkflowCategory {
    CI,
    Review,
}

impl Default for WorkflowCategory {
    fn default() -> (c: Self)
        ensures
            c == WorkflowCategory::CI,
    {
        WorkflowCategory::CI
    }
}

/// The state of a watched pull request.
#[derive(Debug, Clone, Copy, PartialEq, Eq, Structural)]
pub enum WatchedPrState {
    Open,
    Merged,
    ClosedUnmerged,
    Unknown,
}

/// A pull request watched after one of its runs was seen: while it is
/// open (for at most a capped time) the scheduler keeps polling, so that
/// the build that follows its merge is seen.
#[derive(Debug, Clone, Copy)]
pub struct WatchedPr {
    pub number: u64,
    pub state: WatchedPrState,
    /// When the pull request was first seen (milliseconds since the epoch).
    pub first_seen: u64,
    /// When its state was last fetched.
    pub last_checked: Option<u64>,
}

/// One animated progress bar: a pipeline stage or a workflow job.
#[derive(Debug, Clone)]
pub struct Bar {
    pub name: String,
    pub status: BuildStatus,
    /// Number of filled cells in the current lap.
    pub fill: usize,
    /// Current insertion index (resets on wrap).
    pub write_pos: usize,
    /// The pipeline stage or job disappeared from the API.
    pub gone: bool,
    /// When the last finished execution ended, in milliseconds since the
    /// UNIX epoch.
    pub last_finished: Option<i64>,
}

/// The bar that `set_status(status)` leaves behind.
pub open spec fn set_status_spec(b: Bar, status: BuildStatus) -> Bar {
    match status {
        BuildStatus::Running => if b.status != BuildStatus::Running {
            Bar { status: BuildStatus::Running, fill: 0, write_pos: 0, ..b }
        } else {
            b
        },
        BuildStatus::Succeeded | BuildStatus::Failed => Bar { status: status, ..b },
        BuildStatus::Idle => b,
    }
}

/// The bar that one animation step leaves behind on a lap of `width` cells.
pub open spec fn advance_spec(b: Bar, width: nat) -> Bar {
    if b.write_pos + 1 >= width {
        Bar { write_pos: 0, fill: 1, ..b }
    } else {
        Bar { write_pos: (b.write_pos + 1) as usize, fill: (b.fill + 1) as usize, ..b }
    }
}

/// The bar that `tick(width)` leaves behind: only running bars on a
/// non-empty lap move.
pub open spec fn tick_spec(b: Bar, width: nat) -> Bar {
    if b.status != BuildStatus::Running || width == 0 {
        b
    } else {
        advance_spec(b, width)
    }
}

/// A tick on `width` cells can be taken without overflow.
pub open spec fn can_tick(b: Bar, width: nat) -> bool {
    b.status == BuildStatus::Running && width > 0 ==> {
        &&& b.write_pos < usize::MAX
        &&& (b.write_pos + 1 < width ==> b.fill < usize::MAX)
    }
}

impl Bar {
    /// A fresh idle bar.
    pub fn new(name: String) -> (b: Self)
        ensures
            b.name == name,
            b.status == BuildStatus::Idle,
            b.fill == 0,
            b.write_pos == 0,
            !b.gone,
            b.last_finished.is_none(),
    {
        Bar { name, status: BuildStatus::Idle, fill: 0, write_pos: 0, gone: false, last_finished: None }
    }

    /// Updates the bar from a poll result.  Entering `Running` (a new
    /// execution) restarts the animation; `Idle` leaves the bar unchanged.
    pub fn set_status(&mut self, status: BuildStatus)
        ensures
            *final(self) == set_status_spec(*old(self), status),
    {
        match status {
            BuildStatus::Running => {
                if self.status != BuildStatus::Running {
                    self.fill = 0;
                    self.write_pos = 0;
                }
                self.status = BuildStatus::Running;
            },
            BuildStatus::Succeeded | BuildStatus::Failed => {
                self.status = status;
            },
            BuildStatus::Idle => {},
        }
    }

    /// Whether [`Bar::tick`] can be taken on a lap of `tick_area_width`
    /// cells (its counters would not overflow).
    pub fn can_tick_now(&self, tick_area_width: usize) -> (r: bool)
        ensures
            r == can_tick(*self, tick_area_width as nat),
    {
        if self.status != BuildStatus::Running || tick_area_width == 0 {
            return true;
        }
        self.write_pos < usize::MAX && (self.write_pos + 1 >= tick_area_width || self.fill < usize::MAX)
    }

    /// Advances the animation of a running bar by one cell on a lap of
    /// `tick_area_width` cells.
    pub fn tick(&mut self, tick_area_width: usize)
        requires
            can_tick(*old(self), tick_area_width as nat),
        ensures
            *final(self) == tick_spec(*old(self), tick_area_width as nat),
    {
        if self.status != BuildStatus::Running || tick_area_width == 0 {
            return;
        }
        self.advance_fill(tick_area_width);
    }

    /// One animation step: move the insertion point, wrapping to the left
    /// edge (and an empty lap) at the end of the lap.
    pub fn advance_fill(&mut self, tick_area_width: usize)
        requires
            old(self).write_pos < usize::MAX,
            old(self).write_pos + 1 < tick_area_width ==> old(self).fill < usize::MAX,
        ensures
            *final(self) == advance_spec(*old(self), tick_area_width as nat),
    {
        self.write_pos += 1;
        if self.write_pos >= tick_area_width {
            self.write_pos = 0;
            self.fill = 0;
        }
        self.fill += 1;
    }
}

/// A GitHub Actions workflow and its jobs.
#[derive(Debug, Clone)]
pub struct WorkflowGroup {
    pub name: String,
    pub jobs: Vec<Bar>,
    pub gone: bool,
    /// Workflow-level status from the runs API; shown before the jobs load.
    pub summary_status: BuildStatus,
    /// The run whose status is shown.
    pub run_id: Option<u64>,
    pub category: WorkflowCategory,
    /// The CodePipeline that this workflow feeds, when one is linked.
    pub linked_pipeline: Option<String>,
}

/// A CodePipeline and its stages.
#[derive(Debug, Clone)]
pub struct PipelineGroup {
    pub name: String,
    pub stages: Vec<Bar>,
    pub gone: bool,
    pub summary_status: BuildStatus,
    /// The linked workflow is running or just finished while this pipeline
    /// has not started yet.
    pub pending_link: bool,
}

/// A pipeline stage and its actions.
#[derive(Debug, Clone)]
pub struct StageInfo {
    pub name: String,
    pub actions: Vec<Bar>,
}

/// The bar's write position lies inside a tick area of `width` cells, and
/// its fill reaches no further than one past the write position.
pub open spec fn bar_in_area(b: Bar, width: nat) -> bool {
    b.write_pos < width && b.fill <= b.write_pos + 1
}

/// Ticking keeps a bar inside its tick area: the write position wraps to
/// the start (with a fill of one) when it reaches the area's end.
pub proof fn lemma_tick_stays_in_area(b: Bar, width: nat)
    requires
        bar_in_area(b, width),
        can_tick(b, width),
    ensures
        bar_in_area(tick_spec(b, width), width),
        b.status == BuildStatus::Running && b.write_pos + 1 >= width ==> tick_spec(b, width).write_pos
            == 0 && tick_spec(b, width).fill == 1,
{
}

/// A status update keeps a bar inside its tick area, and entering Running
/// from another status starts the bar over.
pub proof fn lemma_set_status_stays_in_area(b: Bar, width: nat, status: BuildStatus)
    requires
        bar_in_area(b, width),
    ensures
        bar_in_area(set_status_spec(b, status), width),
        status == BuildStatus::Running && b.status != BuildStatus::Running ==> set_status_spec(
            b,
            status,
        ).fill == 0 && set_status_spec(b, status).write_pos == 0,
{
}

} // verus!
