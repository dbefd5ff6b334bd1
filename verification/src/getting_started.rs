//! First-run Getting started state. The checklist's state is plain marker
//! files. Two of the steps need no stored state at all: agent connection is
//! read live from the resolved command, and the tour completes through its own
//! done marker.

use vstd::prelude::*;
use crate::text::own;

verus! {

/// The introductory guide, opened with the system browser.
pub const GUIDE_PATH: &'static str = "guide/index.html";

/// The customize page: themes, text size, and the keys worth knowing.
pub const CUSTOMIZE_PATH: &'static str = "guide/customize.md";

/// The Welcome Tour ritual.
pub const WELCOME_TOUR_SKILL_PATH: &'static str = "skills/thock/welcome-tour.md";

/// The id of the tour's done marker.
pub const WELCOME_TOUR_MARKER_ID: &'static str = "welcome-tour";

/// A marker file of the checklist.
#[derive(Debug, Clone, Copy, PartialEq, Eq, Structural)]
pub enum Marker {
    /// The checklist is on.
    Active,
    /// The guide was opened.
    Introduction,
    /// The customize page was opened.
    Customize,
    /// The tour is done.
    Tour,
}

impl Marker {
    /// The marker's vault-relative path.
    pub fn path(self) -> (path: &'static str)
        ensures
            path@ == (match self {
                Marker::Active => ".thock/state/getting-started/active"@,
                Marker::Introduction => ".thock/state/getting-started/introduction"@,
                Marker::Customize => ".thock/state/getting-started/customize"@,
                Marker::Tour => ".thock/state/onboarded/welcome-tour"@,
            }),
    {
        match self {
            Marker::Active => ".thock/state/getting-started/active",
            Marker::Introduction => ".thock/state/getting-started/introduction",
            Marker::Customize => ".thock/state/getting-started/customize",
            Marker::Tour => ".thock/state/onboarded/welcome-tour",
        }
    }
}

/// Which of the marker files exist.
#[derive(Debug, Clone, Copy, PartialEq, Eq, Structural)]
pub struct Markers {
    pub active: bool,
    pub introduction: bool,
    pub customize: bool,
    pub tour: bool,
}

/// The four steps, each derived from evidence rather than a click: the guide
/// was opened, the customize page was opened, a launch command resolves, the
/// tour wrote its done marker.
#[derive(Debug, Clone, Copy, PartialEq, Eq, Structural)]
pub struct Steps {
    pub introduction: bool,
    pub customize: bool,
    pub agent: bool,
    pub tour: bool,
}

impl Default for Steps {
    fn default() -> (steps: Self)
        ensures
            steps == (Steps { introduction: false, customize: false, agent: false, tour: false }),
    {
        Steps { introduction: false, customize: false, agent: false, tour: false }
    }
}

impl Steps {
    /// Whether nothing is left to do.
    pub fn all_done(self) -> (done: bool)
        ensures
            done == (self.introduction && self.customize && self.agent && self.tour),
    {
        self.introduction && self.customize && self.agent && self.tour
    }
}

/// Turns the checklist on. Called only when a scaffold creates the vault: an
/// existing vault never gains the marker, so it never sees the section.
pub fn activate(markers: Markers) -> (next: Markers)
    ensures
        next == (Markers { active: true, ..markers }),
{
    Markers { active: true, ..markers }
}

/// The checklist that the markers give.
pub open spec fn checklist(markers: Markers, agent_connected: bool) -> Option<Steps> {
    if markers.active {
        Some(
            Steps {
                introduction: markers.introduction,
                customize: markers.customize,
                agent: agent_connected,
                tour: markers.tour,
            },
        )
    } else {
        None
    }
}

/// The checklist to render, or `None` while inactive.
pub fn state(markers: Markers, agent_connected: bool) -> (steps: Option<Steps>)
    ensures
        steps == checklist(markers, agent_connected),
{
    if !markers.active {
        return None;
    }
    Some(
        Steps {
            introduction: markers.introduction,
            customize: markers.customize,
            agent: agent_connected,
            tour: markers.tour,
        },
    )
}

/// Records that the guide was opened from the checklist.
pub fn mark_introduction_read(markers: Markers) -> (next: Markers)
    ensures
        next == (Markers { introduction: true, ..markers }),
{
    Markers { introduction: true, ..markers }
}

/// Records that the customize page was opened from the checklist.
pub fn mark_customize_read(markers: Markers) -> (next: Markers)
    ensures
        next == (Markers { customize: true, ..markers }),
{
    Markers { customize: true, ..markers }
}

/// Removes the checklist: all steps done, or the user hid it. The step markers
/// stay; only `active` gates rendering.
pub fn dismiss(markers: Markers) -> (next: Markers)
    ensures
        next == (Markers { active: false, ..markers }),
{
    Markers { active: false, ..markers }
}

/// Dismissing twice is the same as once, and a checklist turned on again comes
/// back with its steps checked as they were.
pub proof fn dismissal_keeps_the_steps(markers: Markers, agent_connected: bool)
    ensures
        ({
            let gone = Markers { active: false, ..markers };
            let back = Markers { active: true, ..gone };
            &&& checklist(gone, agent_connected) is None
            &&& (Markers { active: false, ..gone }) == gone
            &&& checklist(back, agent_connected) == checklist(
                Markers { active: true, ..markers },
                agent_connected,
            )
        }),
{
}

/// One entry for a marker that exists.
pub open spec fn entry(present: bool, name: Seq<char>) -> Seq<(Seq<char>, Seq<char>)> {
    if present {
        seq![(name, Seq::empty())]
    } else {
        Seq::empty()
    }
}

/// The entries for the markers that exist, in order.
pub open spec fn entries(markers: Markers) -> Seq<(Seq<char>, Seq<char>)> {
    entry(markers.active, "getting-started:active"@) + entry(
        markers.introduction,
        "getting-started:introduction"@,
    ) + entry(markers.customize, "getting-started:customize"@) + entry(
        markers.tour,
        "getting-started:tour"@,
    )
}

/// The texts of pairs of strings.
pub open spec fn pairs(v: Seq<(String, String)>) -> Seq<(Seq<char>, Seq<char>)> {
    v.map_values(|p: (String, String)| (p.0@, p.1@))
}

fn push_entry(out: &mut Vec<(String, String)>, present: bool, name: &str)
    ensures
        pairs(final(out)@) == pairs(old(out)@) + entry(present, name@),
{
    if present {
        proof {
            reveal_strlit("");
            assert(""@ =~= Seq::<char>::empty());
        }
        out.push((own(name), own("")));
    }
    assert(pairs(out@) =~= pairs(old(out)@) + entry(present, name@));
}

/// The marker files as the panel's refresh snapshot folds them in, so that a
/// change re-renders without polling.
pub fn fingerprint(markers: Markers) -> (out: Vec<(String, String)>)
    ensures
        pairs(out@) == entries(markers),
{
    let mut out: Vec<(String, String)> = Vec::new();
    push_entry(&mut out, markers.active, "getting-started:active");
    push_entry(&mut out, markers.introduction, "getting-started:introduction");
    push_entry(&mut out, markers.customize, "getting-started:customize");
    push_entry(&mut out, markers.tour, "getting-started:tour");
    assert(pairs(out@) =~= entries(markers));
    out
}

proof fn lemma_entry_of(markers: Markers)
    ensures
        ({
            let e = entries(markers);
            let none = Seq::<char>::empty();
            &&& e.contains(("getting-started:active"@, none)) == markers.active
            &&& e.contains(("getting-started:introduction"@, none)) == markers.introduction
            &&& e.contains(("getting-started:customize"@, none)) == markers.customize
            &&& e.contains(("getting-started:tour"@, none)) == markers.tour
        }),
{
    reveal_strlit("getting-started:active");
    reveal_strlit("getting-started:introduction");
    reveal_strlit("getting-started:customize");
    reveal_strlit("getting-started:tour");
    let e = entries(markers);
    let none = Seq::<char>::empty();
    let a = if markers.active { 1int } else { 0 };
    let b = if markers.introduction { 1int } else { 0 };
    let c = if markers.customize { 1int } else { 0 };
    if markers.active {
        assert(e[0] == ("getting-started:active"@, none));
    }
    if markers.introduction {
        assert(e[a] == ("getting-started:introduction"@, none));
    }
    if markers.customize {
        assert(e[a + b] == ("getting-started:customize"@, none));
    }
    if markers.tour {
        assert(e[a + b + c] == ("getting-started:tour"@, none));
    }
    assert("getting-started:active"@.len() == 22);
    assert("getting-started:introduction"@.len() == 28);
    assert("getting-started:customize"@.len() == 25);
    assert("getting-started:tour"@.len() == 20);
}

/// The fingerprint changes with each marker.
pub proof fn fingerprint_tells_the_markers(a: Markers, b: Markers)
    ensures
        entries(a) == entries(b) <==> a == b,
{
    lemma_entry_of(a);
    lemma_entry_of(b);
}

} // verus!
