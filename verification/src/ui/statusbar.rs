//! The status bar: the poll state, the keys, the hook and link state and
//! the warnings, as text segments with their tones.

use vstd::prelude::*;

use crate::clock::{elapsed_between, elapsed_ms, now_millis};
use crate::config::{HookLocation, HookStatus};
use crate::poll_scheduler::{PollState, PollingPhase, COOLDOWN_DURATION_MS};
use crate::text::{concat2, decimal, owned, push_char, u64_to_decimal};

verus! {

/// How long the boost key stays highlighted, in milliseconds.
pub const BOOST_FLASH_MS: u64 = 750;

/// How long a push signal is shown, in milliseconds.
pub const PUSH_SIGNAL_MS: u64 = 1500;

/// How long each spinner frame shows, in milliseconds.
pub const SPINNER_FRAME_MS: u64 = 250;

/// The spinner's frames, in order.
pub open spec fn spinner_frames() -> Seq<char> {
    seq!['⠋', '⠙', '⠹', '⠸', '⠼', '⠴', '⠦', '⠧', '⠇', '⠏']
}

/// The spinner frame shown at `ms` milliseconds since the epoch.
pub open spec fn spinner_spec(ms: u64) -> char {
    spinner_frames()[((ms / SPINNER_FRAME_MS) % 10) as int]
}

/// The spinner frame shown at `ms` milliseconds since the epoch.
pub fn spinner_at(ms: u64) -> (c: char)
    ensures
        c == spinner_spec(ms),
{
    let i = (ms / SPINNER_FRAME_MS) % 10;
    if i == 0 {
        '⠋'
    } else if i == 1 {
        '⠙'
    } else if i == 2 {
        '⠹'
    } else if i == 3 {
        '⠸'
    } else if i == 4 {
        '⠼'
    } else if i == 5 {
        '⠴'
    } else if i == 6 {
        '⠦'
    } else if i == 7 {
        '⠧'
    } else if i == 8 {
        '⠇'
    } else {
        '⠏'
    }
}

/// The spinner frame of the current time.
pub fn spinner_frame() -> (c: char)
    ensures
        spinner_frames().contains(c),
{
    let c = spinner_at(now_millis());
    proof {
        let ms = choose|ms: u64| c == spinner_spec(ms);
    }
    c
}

/// How a segment is drawn.
#[derive(Debug, Clone, Copy, PartialEq, Eq, Structural)]
pub enum Tone {
    /// The sleep label.
    Sleep,
    /// The cooldown label.
    Cool,
    /// The polling label.
    Fast,
    /// A separator.
    Separator,
    /// Plain text.
    Plain,
    /// The highlighted boost key.
    BoostFlash,
    /// A push or a relink in progress.
    Scan,
    /// An installed hook.
    Success,
    /// A hint or a warning.
    Warn,
    /// Dimmed text.
    Dim,
    /// A failure (expired credentials).
    Failed,
}

/// A piece of the status line.
pub struct Segment {
    pub text: String,
    pub tone: Tone,
}

/// A segment, as plain values.
pub open spec fn segment_view(s: Segment) -> (Seq<char>, Tone) {
    (s.text@, s.tone)
}

/// The segments, as plain values.
pub open spec fn segments_view(v: Seq<Segment>) -> Seq<(Seq<char>, Tone)> {
    v.map_values(|s: Segment| segment_view(s))
}

/// The whole seconds of cooldown left at `now`, for a cooldown that began
/// at `since`.
pub open spec fn cooldown_secs(since: u64, now: u64) -> nat {
    if elapsed_ms(since, now) >= COOLDOWN_DURATION_MS {
        0
    } else {
        ((COOLDOWN_DURATION_MS - elapsed_ms(since, now)) / 1000) as nat
    }
}

/// The poll state's label.
pub open spec fn state_label(state: PollState, now: u64, spinner: char) -> (Seq<char>, Tone) {
    match state {
        PollState::Sleep => ("☾ Sleep"@, Tone::Sleep),
        PollState::Polling { phase: PollingPhase::Cooldown, since } => (
            "Cooldown "@ + decimal(cooldown_secs(since, now)) + "s"@,
            Tone::Cool,
        ),
        PollState::Polling { .. } => (seq![spinner] + " Polling"@, Tone::Fast),
    }
}

/// The separator between segments.
pub open spec fn separator() -> (Seq<char>, Tone) {
    (" \u{2502} "@, Tone::Separator)
}

/// A time stamp less than `window` milliseconds old at `now`.
pub open spec fn recent(at: Option<u64>, window: u64, now: u64) -> bool {
    at matches Some(t) && elapsed_ms(t, now) < window
}

/// The hook's segment, if it shows one.
pub open spec fn hook_segment(hook: HookStatus, has_global_hooks_path: bool) -> Option<(Seq<char>, Tone)> {
    match hook {
        HookStatus::Installed(HookLocation::Local) => Some(("\u{2713}hook"@, Tone::Success)),
        HookStatus::Installed(HookLocation::Global) => Some(("\u{2713}g-hook"@, Tone::Success)),
        HookStatus::Shadowed => Some(("\u{26A0}hook:override g=fix"@, Tone::Warn)),
        HookStatus::Missing | HookStatus::Incomplete => Some(
            (
                if has_global_hooks_path {
                    "p=local g=global hook"@
                } else {
                    "p=install hook"@
                },
                Tone::Warn,
            ),
        ),
        HookStatus::NoGitDir => None,
    }
}

/// The link state's segment.
pub open spec fn linkage_segment(broken: bool, discovering: bool) -> (Seq<char>, Tone) {
    if discovering {
        ("\u{27F3} relinking..."@, Tone::Scan)
    } else if broken {
        ("l=relink \u{26A0}"@, Tone::Warn)
    } else {
        ("l=relink"@, Tone::Dim)
    }
}

/// The warnings joined by "; ".
pub open spec fn join_warnings(ws: Seq<Seq<char>>) -> Seq<char>
    decreases ws.len(),
{
    if ws.len() == 0 {
        Seq::empty()
    } else if ws.len() == 1 {
        ws[0]
    } else {
        join_warnings(ws.drop_last()) + "; "@ + ws.last()
    }
}

/// The status bar's state.
pub struct StatusBar<'a> {
    pub poll_state: &'a PollState,
    pub warnings: &'a [String],
    pub hook_status: &'a HookStatus,
    pub has_global_hooks_path: bool,
    /// When the boost key was pressed (milliseconds since the epoch).
    pub boost_pressed_at: Option<u64>,
    /// When a push signal arrived (milliseconds since the epoch).
    pub push_signal_at: Option<u64>,
    pub linkage_broken: bool,
    pub linkage_discovering: bool,
}

/// The status line at `now` with spinner frame `spinner`: the poll state's
/// label; the keys, with the boost key highlighted for a moment after a
/// press; a push notice for a moment after a push signal, or else the
/// hook's state; the link state; the warnings, when there are any.
pub open spec fn status_line(b: StatusBar, now: u64, spinner: char) -> Seq<(Seq<char>, Tone)> {
    let head = seq![
        state_label(*b.poll_state, now, spinner),
        separator(),
        ("e=expand "@, Tone::Plain),
        (
            "b=boost"@,
            if recent(b.boost_pressed_at, BOOST_FLASH_MS, now) {
                Tone::BoostFlash
            } else {
                Tone::Plain
            },
        ),
        (" q=quit"@, Tone::Plain),
    ];
    let hook = if recent(b.push_signal_at, PUSH_SIGNAL_MS, now) {
        seq![separator(), ("\u{2B06} pushed!"@, Tone::Scan)]
    } else {
        match hook_segment(*b.hook_status, b.has_global_hooks_path) {
            Some(s) => seq![separator(), s],
            None => Seq::empty(),
        }
    };
    let link = seq![separator(), linkage_segment(b.linkage_broken, b.linkage_discovering)];
    let warn = if b.warnings@.len() > 0 {
        seq![separator(), (join_warnings(b.warnings@.map_values(|w: String| w@)), Tone::Warn)]
    } else {
        Seq::empty()
    };
    head + hook + link + warn
}

/// `r` is the status line at `now`.
pub open spec fn shown_at(r: Seq<Segment>, b: StatusBar, now: u64) -> bool {
    segments_view(r) == status_line(b, now, spinner_spec(now))
}

fn seg(text: &str, tone: Tone) -> (s: Segment)
    ensures
        segment_view(s) == (text@, tone),
{
    Segment { text: owned(text), tone }
}

fn sep() -> (s: Segment)
    ensures
        segment_view(s) == separator(),
{
    seg(" \u{2502} ", Tone::Separator)
}

/// A time stamp less than `window` milliseconds old at `now`.
fn is_recent(at: Option<u64>, window: u64, now: u64) -> (r: bool)
    ensures
        r == recent(at, window, now),
{
    match at {
        Some(t) => elapsed_between(t, now) < window,
        None => false,
    }
}

/// The warnings joined by "; ".
fn join(ws: &[String]) -> (r: String)
    ensures
        r@ == join_warnings(ws@.map_values(|w: String| w@)),
{
    let ghost wv = ws@.map_values(|w: String| w@);
    let mut r = String::new();
    let mut i: usize = 0;
    while i < ws.len()
        invariant
            wv == ws@.map_values(|w: String| w@),
            i <= ws.len(),
            r@ == join_warnings(wv.take(i as int)),
        decreases ws.len() - i,
    {
        assert(wv.take(i + 1).drop_last() =~= wv.take(i as int));
        if i == 0 {
            r = ws[0].clone();
            assert(wv.take(1) =~= seq![wv[0]]);
        } else {
            let a = concat2(r.as_str(), "; ");
            r = concat2(a.as_str(), ws[i].as_str());
        }
        i = i + 1;
    }
    assert(wv.take(i as int) =~= wv);
    r
}

impl<'a> StatusBar<'a> {
    /// The status line at `now` (see [`status_line`]).
    pub fn segments_at(&self, now: u64, spinner: char) -> (r: Vec<Segment>)
        ensures
            segments_view(r@) == status_line(*self, now, spinner),
    {
        let mut v: Vec<Segment> = Vec::new();
        let label = match self.poll_state {
            PollState::Sleep => seg("☾ Sleep", Tone::Sleep),
            PollState::Polling { phase: PollingPhase::Cooldown, since } => {
                let el = elapsed_between(*since, now);
                let secs: u64 = if el >= COOLDOWN_DURATION_MS {
                    0
                } else {
                    (COOLDOWN_DURATION_MS - el) / 1000
                };
                let a = concat2("Cooldown ", u64_to_decimal(secs).as_str());
                Segment { text: concat2(a.as_str(), "s"), tone: Tone::Cool }
            },
            PollState::Polling { .. } => {
                let mut t = String::new();
                push_char(&mut t, spinner);
                Segment { text: concat2(t.as_str(), " Polling"), tone: Tone::Fast }
            },
        };
        v.push(label);
        v.push(sep());
        v.push(seg("e=expand ", Tone::Plain));
        let boost_tone = if is_recent(self.boost_pressed_at, BOOST_FLASH_MS, now) {
            Tone::BoostFlash
        } else {
            Tone::Plain
        };
        v.push(seg("b=boost", boost_tone));
        v.push(seg(" q=quit", Tone::Plain));
        let ghost head = segments_view(v@);
        if is_recent(self.push_signal_at, PUSH_SIGNAL_MS, now) {
            v.push(sep());
            v.push(seg("\u{2B06} pushed!", Tone::Scan));
        } else {
            match self.hook_status {
                HookStatus::Installed(HookLocation::Local) => {
                    v.push(sep());
                    v.push(seg("\u{2713}hook", Tone::Success));
                },
                HookStatus::Installed(HookLocation::Global) => {
                    v.push(sep());
                    v.push(seg("\u{2713}g-hook", Tone::Success));
                },
                HookStatus::Shadowed => {
                    v.push(sep());
                    v.push(seg("\u{26A0}hook:override g=fix", Tone::Warn));
                },
                HookStatus::Missing | HookStatus::Incomplete => {
                    v.push(sep());
                    if self.has_global_hooks_path {
                        v.push(seg("p=local g=global hook", Tone::Warn));
                    } else {
                        v.push(seg("p=install hook", Tone::Warn));
                    }
                },
                HookStatus::NoGitDir => {},
            }
        }
        v.push(sep());
        if self.linkage_discovering {
            v.push(seg("\u{27F3} relinking...", Tone::Scan));
        } else if self.linkage_broken {
            v.push(seg("l=relink \u{26A0}", Tone::Warn));
        } else {
            v.push(seg("l=relink", Tone::Dim));
        }
        if self.warnings.len() > 0 {
            v.push(sep());
            v.push(Segment { text: join(self.warnings), tone: Tone::Warn });
        }
        assert(segments_view(v@) =~= status_line(*self, now, spinner));
        v
    }

    /// The status line now, with the current spinner frame.
    pub fn segments(&self) -> (r: Vec<Segment>)
        ensures
            exists|now: u64| #[trigger] shown_at(r@, *self, now),
    {
        let now = now_millis();
        let spinner = spinner_at(now);
        let r = self.segments_at(now, spinner);
        assert(shown_at(r@, *self, now));
        r
    }
}

} // verus!
