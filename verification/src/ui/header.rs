//! The header line: the AWS profile with the health of its credentials,
//! the region, the repository and the time.

use vstd::prelude::*;

use crate::app::SourceHealth;
use crate::text::owned;
use crate::ui::statusbar::{segments_view, separator, Segment, Tone};

verus! {

/// What the header shows.
pub struct Header<'a> {
    pub profile: &'a str,
    pub region: &'a str,
    pub repo: &'a str,
    pub aws_health: &'a SourceHealth,
}

/// The header line with the time `time`: the profile, red with an "SSO
/// expired" warning when the credentials failed, else followed by a check
/// mark (green when healthy, dim when not yet known); then the region, the
/// repository and the time, each after a separator.
pub open spec fn header_line(h: Header, time: Seq<char>) -> Seq<(Seq<char>, Tone)> {
    let profile = match *h.aws_health {
        SourceHealth::AuthFailed { .. } => seq![
            (h.profile@, Tone::Failed),
            (" \u{26A0} SSO expired"@, Tone::Failed),
        ],
        SourceHealth::Healthy => seq![(h.profile@, Tone::Plain), (" \u{2713}"@, Tone::Success)],
        SourceHealth::Unknown => seq![(h.profile@, Tone::Plain), (" \u{2713}"@, Tone::Dim)],
    };
    profile + seq![
        separator(),
        (h.region@, Tone::Plain),
        separator(),
        (h.repo@, Tone::Plain),
        separator(),
        (time, Tone::Dim),
    ]
}

fn seg(text: &str, tone: Tone) -> (s: Segment)
    ensures
        s.text@ == text@,
        s.tone == tone,
{
    Segment { text: owned(text), tone }
}

impl<'a> Header<'a> {
    /// The header line with the time `time` (see [`header_line`]).
    pub fn segments(&self, time: &str) -> (r: Vec<Segment>)
        ensures
            segments_view(r@) == header_line(*self, time@),
    {
        let mut v: Vec<Segment> = Vec::new();
        match self.aws_health {
            SourceHealth::AuthFailed { .. } => {
                v.push(seg(self.profile, Tone::Failed));
                v.push(seg(" \u{26A0} SSO expired", Tone::Failed));
            },
            SourceHealth::Healthy => {
                v.push(seg(self.profile, Tone::Plain));
                v.push(seg(" \u{2713}", Tone::Success));
            },
            SourceHealth::Unknown => {
                v.push(seg(self.profile, Tone::Plain));
                v.push(seg(" \u{2713}", Tone::Dim));
            },
        }
        v.push(seg(" \u{2502} ", Tone::Separator));
        v.push(seg(self.region, Tone::Plain));
        v.push(seg(" \u{2502} ", Tone::Separator));
        v.push(seg(self.repo, Tone::Plain));
        v.push(seg(" \u{2502} ", Tone::Separator));
        v.push(seg(time, Tone::Dim));
        assert(segments_view(v@) =~= header_line(*self, time@));
        v
    }
}

} // verus!
