//! Replaying a recorded session, and the rules that hold whatever the
//! applications and the window server do.
//!
//! 1. No frame is written to a window while the user is dragging it, from the
//!    moment the button goes down. That is judged when it comes up, once the
//!    windows that the user was moving are known.
//! 2. No empty frame is written.
//! 3. A window is in at most one place: in one tree, or floating.
//! 4. A window is not bounced between displays without a button release or a
//!    command in between.
//! 5. A floating window is written a frame only on a command's behalf.

use vstd::prelude::*;

use crate::events::MouseState;
use crate::ids::{SpaceId, WindowId};
use crate::lists::{among, keep_listed, IdSet};
use crate::reconcile::same_list;
use crate::table::Table;

verus! {

/// Ends the name of a request.
pub open spec fn ends_word(c: char) -> bool {
    c == '(' || c == ' ' || c == '{'
}

/// Where the first word of a text ends.
pub open spec fn word_end(text: Seq<char>) -> int
    decreases text.len(),
{
    if text.len() == 0 || ends_word(text[0]) {
        0
    } else {
        1 + word_end(text.skip(1))
    }
}

proof fn lemma_word_end(text: Seq<char>, at: int)
    requires
        0 <= at <= text.len(),
        forall|i: int| 0 <= i < at ==> !ends_word(#[trigger] text[i]),
        at < text.len() ==> ends_word(text[at]),
    ensures
        word_end(text) == at,
    decreases at,
{
    if at > 0 {
        let rest = text.skip(1);
        assert forall|i: int| 0 <= i < at - 1 implies !ends_word(#[trigger] rest[i]) by {
            assert(rest[i] == text[i + 1]);
        }
        assert(!ends_word(text[0]));
        lemma_word_end(rest, at - 1);
    }
}

/// The first word of a text.
pub fn first_word(text: &str) -> (word: String)
    ensures
        word@ == text@.take(word_end(text@)),
{
    let len = text.unicode_len();
    let mut at: usize = 0;
    while at < len && !matches!(text.get_char(at), '(' | ' ' | '{')
        invariant
            len == text@.len(),
            at <= len,
            forall|i: int| 0 <= i < at ==> !ends_word(#[trigger] text@[i]),
        decreases len - at,
    {
        at = at + 1;
    }
    proof {
        lemma_word_end(text@, at as int);
    }
    assert(text@.subrange(0, at as int) =~= text@.take(at as int));
    text.substring_char(0, at).to_owned()
}

/// A request to an application that writes frames, or another one. `F` is a
/// frame, `P` a position.
#[derive(Debug)]
pub enum FrameRequest<F, P> {
    SetWindowFrame(WindowId, F),
    SetWindowPos(WindowId, P),
    SetBatchWindowFrame(Vec<(WindowId, F)>),
    AnimationFrame(WindowId, F),
    Other,
}

/// What is written to a window.
#[derive(Clone, Copy, Debug)]
pub enum Written<F, P> {
    Frame(F),
    /// Where it goes, and its size stays.
    Position(P),
}

/// The frames that a request writes.
pub open spec fn written<F, P>(request: FrameRequest<F, P>) -> Seq<(WindowId, Written<F, P>)> {
    match request {
        FrameRequest::SetWindowFrame(window, frame) => seq![(window, Written::Frame(frame))],
        FrameRequest::SetWindowPos(window, position) => seq![(window, Written::Position(position))],
        FrameRequest::SetBatchWindowFrame(frames) => frames@.map_values(
            |entry: (WindowId, F)| (entry.0, Written::Frame(entry.1)),
        ),
        FrameRequest::AnimationFrame(window, frame) => seq![(window, Written::Frame(frame))],
        FrameRequest::Other => Seq::empty(),
    }
}

/// The frames that a request writes.
pub fn frames_in_request<F: Copy, P: Copy>(request: &FrameRequest<F, P>) -> (frames: Vec<
    (WindowId, Written<F, P>),
>)
    ensures
        frames@ == written(*request),
{
    let mut frames: Vec<(WindowId, Written<F, P>)> = Vec::new();
    match request {
        FrameRequest::SetWindowFrame(window, frame) => {
            frames.push((*window, Written::Frame(*frame)));
        },
        FrameRequest::SetWindowPos(window, position) => {
            frames.push((*window, Written::Position(*position)));
        },
        FrameRequest::SetBatchWindowFrame(batch) => {
            let ghost all = written(*request);
            let mut i: usize = 0;
            while i < batch.len()
                invariant
                    i <= batch@.len(),
                    all.len() == batch@.len(),
                    forall|k: int|
                        0 <= k < all.len() ==> #[trigger] all[k] == (
                            batch@[k].0,
                            Written::<F, P>::Frame(batch@[k].1),
                        ),
                    frames@ == all.take(i as int),
                decreases batch@.len() - i,
            {
                frames.push((batch[i].0, Written::Frame(batch[i].1)));
                assert(frames@ =~= all.take(i + 1));
                i = i + 1;
            }
            assert(all.take(i as int) =~= all);
        },
        FrameRequest::AnimationFrame(window, frame) => {
            frames.push((*window, Written::Frame(*frame)));
        },
        FrameRequest::Other => {},
    }
    assert(frames@ =~= written(*request));
    frames
}

/// A frame that was written to a window during a replay.
#[derive(Clone, Copy, Debug)]
pub struct ReplayWrite<F> {
    pub ms: u64,
    pub window: WindowId,
    pub frame: F,
    /// The line of the trace that caused it.
    pub event_index: usize,
}

/// A rule that was broken, and on which line of the trace.
#[derive(Debug)]
pub enum Violation<F> {
    /// A frame was written to the window in the user's hand, which the reactor
    /// took `in_drag` to be.
    WhileDragging { line: usize, window: WindowId, frame: F, in_drag: Option<WindowId> },
    /// A frame was written with the button down on a window that turned out to
    /// be in the user's hand.
    ButtonDown { line: usize, window: WindowId, frame: F },
    EmptyFrame { line: usize, window: WindowId, frame: F },
    /// A floating window was moved that had reported itself elsewhere.
    FloatMoved { line: usize, window: WindowId, frame: F, reported: F },
    Bounced { line: usize, window: WindowId, from: usize, to: usize, since: u64, ms: u64 },
    /// A window is in the trees of these desktops.
    TwoTrees { line: usize, window: WindowId, tiled: Vec<SpaceId> },
    /// A floating window is in the trees of these desktops.
    FloatingAndTiled { line: usize, window: WindowId, tiled: Vec<SpaceId> },
}

/// What a violation says.
pub enum ViolationText<F> {
    WhileDragging { line: usize, window: WindowId, frame: F, in_drag: Option<WindowId> },
    ButtonDown { line: usize, window: WindowId, frame: F },
    EmptyFrame { line: usize, window: WindowId, frame: F },
    FloatMoved { line: usize, window: WindowId, frame: F, reported: F },
    Bounced { line: usize, window: WindowId, from: usize, to: usize, since: u64, ms: u64 },
    TwoTrees { line: usize, window: WindowId, tiled: Seq<SpaceId> },
    FloatingAndTiled { line: usize, window: WindowId, tiled: Seq<SpaceId> },
}

impl<F> Violation<F> {
    pub open spec fn says(self) -> ViolationText<F> {
        match self {
            Violation::WhileDragging { line, window, frame, in_drag } => {
                ViolationText::WhileDragging { line, window, frame, in_drag }
            },
            Violation::ButtonDown { line, window, frame } => {
                ViolationText::ButtonDown { line, window, frame }
            },
            Violation::EmptyFrame { line, window, frame } => {
                ViolationText::EmptyFrame { line, window, frame }
            },
            Violation::FloatMoved { line, window, frame, reported } => {
                ViolationText::FloatMoved { line, window, frame, reported }
            },
            Violation::Bounced { line, window, from, to, since, ms } => {
                ViolationText::Bounced { line, window, from, to, since, ms }
            },
            Violation::TwoTrees { line, window, tiled } => {
                ViolationText::TwoTrees { line, window, tiled: tiled@ }
            },
            Violation::FloatingAndTiled { line, window, tiled } => {
                ViolationText::FloatingAndTiled { line, window, tiled: tiled@ }
            },
        }
    }
}

/// What the violations say.
pub open spec fn breaches<F>(violations: Seq<Violation<F>>) -> Seq<ViolationText<F>> {
    violations.map_values(|violation: Violation<F>| violation.says())
}

/// Where a replay stopped reproducing the recording.
#[derive(Clone, Copy, Debug)]
pub enum Divergence<F> {
    /// The replay wrote what was not written live. The first write to the window
    /// at about that time, if there is one, is named by its place.
    OnlyReplay { line: usize, ms: u64, window: WindowId, frame: F, near: Option<usize> },
    /// An application acknowledged a write that the replay did not make.
    Acknowledged { line: usize, ms: u64, window: WindowId, frame: F, sent: Option<F> },
    /// What was written live at this place the replay did not write.
    OnlyLive { line: usize, ms: u64, live: usize },
}

/// The drag that a release of the button finds.
#[derive(Clone, Copy, Debug, PartialEq, Eq, Structural)]
pub struct DropSession {
    pub window: WindowId,
    pub origin: Option<SpaceId>,
    pub settled: Option<SpaceId>,
}

/// What a release of the button finds, and on which line of the trace.
#[derive(Clone, Copy, Debug, PartialEq, Eq, Structural)]
pub struct DropNote {
    pub line: usize,
    /// The window in the user's hand.
    pub in_drag: Option<WindowId>,
    /// The drag, while it is over no window.
    pub session: Option<DropSession>,
}

/// A change of a window's place, or a drop.
#[derive(Debug)]
pub enum StateChange {
    Moved { line: usize, window: WindowId, floating: bool, tiled: Vec<SpaceId> },
    Dropped(DropNote),
}

/// A window when a replay ends.
#[derive(Debug)]
pub struct FinalWindow {
    pub window: WindowId,
    /// The beginning of its title.
    pub title: String,
    pub admitted: bool,
    pub floating: bool,
    /// The active desktops in whose trees it is.
    pub tiled: Vec<SpaceId>,
}

/// How much of a title is kept.
pub const TITLE_CHARS: usize = 20;

/// What there is when a replay ends: the active desktops, whether each has an
/// active workspace, the number of screens, and the windows with their whole
/// titles and every tree they are in.
#[derive(Debug)]
pub struct ReplayEnd {
    pub spaces: Vec<SpaceId>,
    pub workspaces: Vec<bool>,
    pub screens: usize,
    pub windows: Vec<FinalWindow>,
}

/// What a replay did, and where it broke the rules.
#[derive(Debug)]
pub struct ReplayReport<F> {
    pub events: usize,
    pub requests: usize,
    /// How many requests there were of each kind.
    pub request_kinds: Table<String, usize>,
    pub writes: Vec<ReplayWrite<F>>,
    pub violations: Vec<Violation<F>>,
    /// Questions that the recording has no answer for.
    pub misses: Vec<String>,
    /// Questions answered by the next answer of the same kind.
    pub drifts: Vec<String>,
    pub state_changes: Vec<StateChange>,
    /// The active desktops when the replay ended, and whether each had an active
    /// workspace.
    pub final_spaces: Vec<SpaceId>,
    pub final_workspaces: Vec<bool>,
    pub final_screens: usize,
    pub final_windows: Vec<FinalWindow>,
    /// From here on the recording answers a run that no longer exists.
    pub diverged: Option<Divergence<F>>,
    /// Violations from there on, which are no verdict.
    pub after_divergence: Vec<Violation<F>>,
}

/// How many requests there were of all kinds together.
pub open spec fn counted(kinds: Seq<(String, usize)>) -> int
    decreases kinds.len(),
{
    if kinds.len() == 0 {
        0
    } else {
        counted(kinds.drop_last()) + kinds.last().1
    }
}

/// No kind has more requests than all kinds together.
pub proof fn no_kind_outnumbers_all(kinds: Seq<(String, usize)>, i: int)
    requires
        0 <= i < kinds.len(),
    ensures
        kinds[i].1 <= counted(kinds),
    decreases kinds.len(),
{
    lemma_counted_positive(kinds.drop_last());
    if i < kinds.len() - 1 {
        no_kind_outnumbers_all(kinds.drop_last(), i);
    }
}

proof fn lemma_counted_positive(kinds: Seq<(String, usize)>)
    ensures
        counted(kinds) >= 0,
    decreases kinds.len(),
{
    if kinds.len() > 0 {
        lemma_counted_positive(kinds.drop_last());
    }
}

/// Counting one kind differently changes the sum by as much.
proof fn lemma_counted_change(before: Seq<(String, usize)>, after: Seq<(String, usize)>, i: int)
    requires
        before.len() == after.len(),
        0 <= i < before.len(),
        forall|j: int|
            0 <= j < before.len() && j != i ==> (#[trigger] before[j]).1 == after[j].1,
    ensures
        counted(after) == counted(before) - before[i].1 + after[i].1,
    decreases before.len(),
{
    let (front, behind) = (before.drop_last(), after.drop_last());
    if i < before.len() - 1 {
        assert(before[before.len() - 1].1 == after[before.len() - 1].1);
        lemma_counted_change(front, behind, i);
    } else {
        lemma_counted_same(front, behind);
    }
}

proof fn lemma_counted_same(before: Seq<(String, usize)>, after: Seq<(String, usize)>)
    requires
        before.len() == after.len(),
        forall|j: int| 0 <= j < before.len() ==> (#[trigger] before[j]).1 == after[j].1,
    ensures
        counted(after) == counted(before),
    decreases before.len(),
{
    if before.len() > 0 {
        assert(before[before.len() - 1].1 == after[before.len() - 1].1);
        lemma_counted_same(before.drop_last(), after.drop_last());
    }
}

impl<F> ReplayReport<F> {
    pub fn new() -> (report: ReplayReport<F>)
        ensures
            report.events == 0,
            report.requests == 0,
            report.counts_kinds(),
            report.request_kinds@ == Map::<Seq<char>, usize>::empty(),
            report.writes@ == Seq::<ReplayWrite<F>>::empty(),
            report.violations@ == Seq::<Violation<F>>::empty(),
            report.misses@ == Seq::<String>::empty(),
            report.drifts@ == Seq::<String>::empty(),
            report.state_changes@ == Seq::<StateChange>::empty(),
            report.final_spaces@ == Seq::<SpaceId>::empty(),
            report.final_workspaces@ == Seq::<bool>::empty(),
            report.final_screens == 0,
            report.final_windows@ == Seq::<FinalWindow>::empty(),
            report.diverged is None,
            report.after_divergence@ == Seq::<Violation<F>>::empty(),
    {
        ReplayReport {
            events: 0,
            requests: 0,
            request_kinds: Table::new(),
            writes: Vec::new(),
            violations: Vec::new(),
            misses: Vec::new(),
            drifts: Vec::new(),
            state_changes: Vec::new(),
            final_spaces: Vec::new(),
            final_workspaces: Vec::new(),
            final_screens: 0,
            final_windows: Vec::new(),
            diverged: None,
            after_divergence: Vec::new(),
        }
    }

    /// Every request was counted once, under its kind: the counts add up to the
    /// number of requests.
    pub open spec fn counts_kinds(&self) -> bool {
        &&& self.request_kinds.wf()
        &&& counted(self.request_kinds.entries@) == self.requests
    }

    /// How many requests of a kind there were.
    pub open spec fn count_of(&self, kind: Seq<char>) -> int {
        match self.request_kinds.at(kind) {
            Some(count) => count as int,
            None => 0,
        }
    }

    /// Counts a request. `debug` is how it is written out, of which the first
    /// word is its kind.
    pub fn count_request(&mut self, debug: &str)
        requires
            old(self).counts_kinds(),
            old(self).requests < usize::MAX,
        ensures
            final(self).counts_kinds(),
            final(self).requests == old(self).requests + 1,
            final(self).request_kinds@ == old(self).request_kinds@.insert(
                debug@.take(word_end(debug@)),
                (old(self).count_of(debug@.take(word_end(debug@))) + 1) as usize,
            ),
            *final(self) == (ReplayReport {
                requests: final(self).requests,
                request_kinds: final(self).request_kinds,
                ..*old(self)
            }),
    {
        let kind = first_word(debug);
        let ghost before = self.request_kinds;
        let ghost at = before.index_of(kind@);
        let count = match self.request_kinds.get(&kind) {
            Some(count) => *count,
            None => 0,
        };
        proof {
            if before@.contains_key(kind@) {
                assert(before.has_at(at, kind@));
                before.lemma_at(at);
                no_kind_outnumbers_all(before.entries@, at);
            }
        }
        self.requests = self.requests + 1;
        self.request_kinds.insert(kind, count + 1);
        proof {
            let after = self.request_kinds;
            if before@.contains_key(kind@) {
                assert forall|j: int| 0 <= j < before.entries@.len() && j != at implies (
                #[trigger] before.entries@[j]).1 == after.entries@[j].1 by {
                    before.lemma_at(j);
                    after.lemma_at(j);
                    assert(after.entries@[j].0@ == before.entries@[j].0@);
                    if j < at {
                        assert(before.entries@[j].0@ != before.entries@[at].0@);
                    } else {
                        assert(before.entries@[at].0@ != before.entries@[j].0@);
                    }
                }
                assert(after.entries@[at].0@ == before.entries@[at].0@);
                after.lemma_at(at);
                lemma_counted_change(before.entries@, after.entries@, at);
            } else {
                assert(after.entries@.drop_last() =~= before.entries@);
            }
        }
    }

    /// No rule was broken, and every question was answered, unless the replay
    /// left the recording.
    pub open spec fn clean(&self) -> bool {
        self.violations@.len() == 0 && (self.misses@.len() == 0 || self.diverged is Some)
    }

    /// Whether no rule was broken, and every question was answered, unless the
    /// replay left the recording.
    pub fn is_clean(&self) -> (clean: bool)
        ensures
            clean == self.clean(),
    {
        self.violations.len() == 0 && (self.misses.len() == 0 || self.diverged.is_some())
    }

    /// `after` is this with the violations entered, apart from those once the
    /// replay has left the recording.
    pub open spec fn with_violations(
        &self,
        after: ReplayReport<F>,
        violations: Seq<ViolationText<F>>,
    ) -> bool {
        &&& if self.diverged is Some {
            &&& after.violations@ == self.violations@
            &&& breaches(after.after_divergence@) == breaches(self.after_divergence@) + violations
        } else {
            &&& breaches(after.violations@) == breaches(self.violations@) + violations
            &&& after.after_divergence@ == self.after_divergence@
        }
        &&& after == (ReplayReport {
            violations: after.violations,
            after_divergence: after.after_divergence,
            ..*self
        })
    }

    /// Enters a violation.
    pub fn violation(&mut self, violation: Violation<F>)
        ensures
            old(self).with_violations(*final(self), seq![violation.says()]),
    {
        let ghost entered = violation.says();
        if self.diverged.is_some() {
            self.after_divergence.push(violation);
            assert(breaches(self.after_divergence@) =~= breaches(old(self).after_divergence@)
                + seq![entered]);
        } else {
            self.violations.push(violation);
            assert(breaches(self.violations@) =~= breaches(old(self).violations@) + seq![entered]);
        }
    }
}

/// Entering violations one by one or together comes to the same.
proof fn lemma_violations_add<F>(
    a: ReplayReport<F>,
    b: ReplayReport<F>,
    c: ReplayReport<F>,
    first: Seq<ViolationText<F>>,
    second: Seq<ViolationText<F>>,
)
    requires
        a.with_violations(b, first),
        b.with_violations(c, second),
    ensures
        a.with_violations(c, first + second),
{
    let (ended, late) = (breaches(a.violations@), breaches(a.after_divergence@));
    assert(ended + first + second =~= ended + (first + second));
    assert(late + first + second =~= late + (first + second));
}

proof fn lemma_no_violations<F>(a: ReplayReport<F>)
    ensures
        a.with_violations(a, Seq::empty()),
{
    let (ended, late) = (breaches(a.violations@), breaches(a.after_divergence@));
    assert(ended + Seq::<ViolationText<F>>::empty() =~= ended);
    assert(late + Seq::<ViolationText<F>>::empty() =~= late);
}

/// A frame that was written live.
#[derive(Clone, Copy, Debug, PartialEq, Eq, Structural)]
pub struct LiveWrite {
    pub ms: u64,
    pub window: WindowId,
    /// The replay has reproduced it.
    pub matched: bool,
}

/// How far apart in time a write of the replay and its counterpart may be: the
/// replay writes at the event's time, live it was when the application got to
/// it.
pub const SLACK_MS: u64 = 500;

/// How far two times are apart.
pub open spec fn apart(a: u64, b: u64) -> u64 {
    if a < b {
        (b - a) as u64
    } else {
        (a - b) as u64
    }
}

fn time_between(a: u64, b: u64) -> (between: u64)
    ensures
        between == apart(a, b),
{
    if a < b {
        b - a
    } else {
        a - b
    }
}

/// Matches what a replay writes against what was written live.
#[derive(Debug)]
pub struct LiveWrites<F> {
    pub writes: Vec<LiveWrite>,
    /// The frame last written to each window by the replay.
    pub last_replay: Table<WindowId, F>,
    /// The frame each window was last reported at.
    pub reported: Table<WindowId, F>,
}

/// What is known of a write of the replay.
#[derive(Debug)]
pub struct WriteMatch {
    /// It moves the window and leaves its size.
    pub position_only: bool,
    /// The window was last reported in that very frame.
    pub stays: bool,
    /// For each live write, whether its frame is the same but for rounding.
    pub close: Vec<bool>,
}

/// A live write to the same window, at about the same time, and not reproduced.
pub open spec fn near<F>(live: LiveWrite, write: ReplayWrite<F>) -> bool {
    !live.matched && live.window == write.window && apart(live.ms, write.ms) <= SLACK_MS
}

/// The live write at `i` may be the one that `write` reproduces.
pub open spec fn candidate<F>(
    writes: Seq<LiveWrite>,
    write: ReplayWrite<F>,
    close: Seq<bool>,
    i: int,
) -> bool {
    0 <= i < writes.len() && near(writes[i], write) && close[i]
}

/// The live write at `i` is the one that `write` reproduces: the nearest in
/// time, and the first of those as near.
pub open spec fn reproduced<F>(
    writes: Seq<LiveWrite>,
    write: ReplayWrite<F>,
    close: Seq<bool>,
    i: int,
) -> bool {
    candidate(writes, write, close, i) && forall|j: int| #[trigger]
        candidate(writes, write, close, j) ==> apart(writes[i].ms, write.ms) < apart(
            writes[j].ms,
            write.ms,
        ) || (apart(writes[i].ms, write.ms) == apart(writes[j].ms, write.ms) && i <= j)
}

/// The first live write near `write`.
pub open spec fn first_near<F>(writes: Seq<LiveWrite>, write: ReplayWrite<F>, at: Option<usize>) -> bool {
    match at {
        Some(at) => at < writes.len() && near(writes[at as int], write) && forall|i: int|
            0 <= i < at ==> !near(#[trigger] writes[i], write),
        None => forall|i: int| 0 <= i < writes.len() ==> !near(#[trigger] writes[i], write),
    }
}

/// What the replay should have written by `ms`.
pub open spec fn overdue(live: LiveWrite, ms: u64) -> bool {
    !live.matched && live.ms + SLACK_MS < ms
}

/// The first live write, from a place on, that the replay should have written.
pub open spec fn first_overdue(writes: Seq<LiveWrite>, ms: u64, from: int) -> Option<int>
    decreases writes.len() - from,
{
    if from < 0 || from >= writes.len() {
        None
    } else if overdue(writes[from], ms) {
        Some(from)
    } else {
        first_overdue(writes, ms, from + 1)
    }
}

/// The report once time has passed: a live write that is overdue by now parts
/// the runs.
pub open spec fn time_passed<F>(
    report: ReplayReport<F>,
    writes: Seq<LiveWrite>,
    ms: u64,
    line: usize,
) -> ReplayReport<F> {
    match first_overdue(writes, ms, 0) {
        Some(live) => if report.diverged is Some {
            report
        } else {
            ReplayReport {
                diverged: Some(Divergence::OnlyLive { line, ms, live: live as usize }),
                ..report
            }
        },
        None => report,
    }
}

/// The report once a window reported its frame: one that acknowledges what the
/// replay did not write parts the runs.
pub open spec fn acknowledged<F>(
    report: ReplayReport<F>,
    sent: Option<F>,
    line: usize,
    ms: u64,
    window: WindowId,
    frame: F,
    requested: bool,
    echoes: bool,
) -> ReplayReport<F> {
    if report.diverged is Some || !requested || (sent is Some && echoes) {
        report
    } else {
        ReplayReport {
            diverged: Some(Divergence::Acknowledged { line, ms, window, frame, sent }),
            ..report
        }
    }
}

impl<F: Copy> LiveWrites<F> {
    pub open spec fn wf(&self) -> bool {
        self.last_replay.wf() && self.reported.wf()
    }

    /// What was written live, and where the windows are to begin with.
    pub fn new(writes: Vec<LiveWrite>, reported: Table<WindowId, F>) -> (live: LiveWrites<F>)
        requires
            reported.wf(),
        ensures
            live.wf(),
            live.writes == writes,
            live.reported == reported,
            live.last_replay@ == Map::<WindowId, F>::empty(),
    {
        LiveWrites { writes, last_replay: Table::new(), reported }
    }

    /// The write changes nothing for anyone: the window is there.
    pub open spec fn idle(&self, write: ReplayWrite<F>, found: WriteMatch) -> bool {
        self.reported@.contains_key(write.window) && found.stays
    }

    /// The replay wrote a frame, which makes this `after` and the report `report`:
    /// the live write that it reproduces is matched off, or the runs have parted.
    pub open spec fn matched_off(
        &self,
        after: LiveWrites<F>,
        write: ReplayWrite<F>,
        found: WriteMatch,
        before: ReplayReport<F>,
        report: ReplayReport<F>,
    ) -> bool {
        &&& after.reported == self.reported
        &&& after.last_replay@ == if found.position_only {
            self.last_replay@
        } else {
            self.last_replay@.insert(write.window, write.frame)
        }
        &&& if before.diverged is Some || self.idle(write, found) {
            after.writes@ == self.writes@ && report == before
        } else if exists|i: int| candidate(self.writes@, write, found.close@, i) {
            &&& report == before
            &&& exists|i: int| #[trigger]
                reproduced(self.writes@, write, found.close@, i) && after.writes@
                    == self.writes@.update(i, LiveWrite { matched: true, ..self.writes@[i] })
        } else {
            &&& after.writes@ == self.writes@
            &&& report.diverged matches Some(Divergence::OnlyReplay {
                line,
                ms,
                window,
                frame,
                near,
            }) && line == write.event_index && ms == write.ms && window == write.window && frame
                == write.frame && first_near(self.writes@, write, near)
            &&& report == (ReplayReport { diverged: report.diverged, ..before })
        }
    }

    /// The replay wrote a frame: the live write that it reproduces is matched
    /// off, or the two runs have parted.
    pub fn on_replay_write(
        &mut self,
        write: &ReplayWrite<F>,
        found: &WriteMatch,
        report: &mut ReplayReport<F>,
    )
        requires
            old(self).wf(),
            found.close@.len() == old(self).writes@.len(),
        ensures
            final(self).wf(),
            old(self).matched_off(*final(self), *write, *found, *old(report), *final(report)),
    {
        if !found.position_only {
            self.last_replay.insert(write.window, write.frame);
        }
        if report.diverged.is_some() {
            return;
        }
        if found.stays && self.reported.contains_key(&write.window) {
            return;
        }
        let ghost writes = self.writes@;
        let ghost close = found.close@;
        let mut best: Option<usize> = None;
        let mut first: Option<usize> = None;
        let mut i: usize = 0;
        while i < self.writes.len()
            invariant
                writes == self.writes@,
                close == found.close@,
                close.len() == writes.len(),
                i <= writes.len(),
                match best {
                    Some(at) => at < i && candidate(writes, *write, close, at as int) && forall|
                        j: int,
                    |
                        0 <= j < i && #[trigger] candidate(writes, *write, close, j) ==> apart(
                            writes[at as int].ms,
                            write.ms,
                        ) < apart(writes[j].ms, write.ms) || (apart(writes[at as int].ms, write.ms)
                            == apart(writes[j].ms, write.ms) && at <= j),
                    None => forall|j: int|
                        0 <= j < i ==> !#[trigger] candidate(writes, *write, close, j),
                },
                match first {
                    Some(at) => at < i && near(writes[at as int], *write) && forall|j: int|
                        0 <= j < at ==> !near(#[trigger] writes[j], *write),
                    None => forall|j: int| 0 <= j < i ==> !near(#[trigger] writes[j], *write),
                },
            decreases writes.len() - i,
        {
            let live = self.writes[i];
            if !live.matched && live.window == write.window && time_between(live.ms, write.ms)
                <= SLACK_MS {
                if first.is_none() {
                    first = Some(i);
                }
                if found.close[i] {
                    assert(candidate(writes, *write, close, i as int));
                    let nearer = match best {
                        Some(at) => time_between(live.ms, write.ms) < time_between(
                            self.writes[at].ms,
                            write.ms,
                        ),
                        None => true,
                    };
                    if nearer {
                        best = Some(i);
                    }
                }
            }
            i = i + 1;
        }
        match best {
            Some(at) => {
                let live = self.writes[at];
                self.writes.set(at, LiveWrite { matched: true, ..live });
                assert(reproduced(writes, *write, close, at as int));
            },
            None => {
                report.diverged = Some(
                    Divergence::OnlyReplay {
                        line: write.event_index,
                        ms: write.ms,
                        window: write.window,
                        frame: write.frame,
                        near: first,
                    },
                );
            },
        }
    }

    /// A window reported its frame. One that acknowledges a write which the
    /// replay did not make answers a run that this is not. `echoes` is whether
    /// the frame is one that the last write asked for.
    pub fn on_report(
        &mut self,
        line: usize,
        ms: u64,
        window: WindowId,
        frame: F,
        requested: bool,
        echoes: bool,
        report: &mut ReplayReport<F>,
    )
        requires
            old(self).wf(),
        ensures
            final(self).wf(),
            final(self).writes == old(self).writes,
            final(self).last_replay == old(self).last_replay,
            final(self).reported@ == old(self).reported@.insert(window, frame),
            *final(report) == acknowledged(
                *old(report),
                old(self).last_replay.at(window),
                line,
                ms,
                window,
                frame,
                requested,
                echoes,
            ),
    {
        self.reported.insert(window, frame);
        if report.diverged.is_some() || !requested {
            return;
        }
        match self.last_replay.get(&window) {
            Some(sent) => {
                if !echoes {
                    report.diverged = Some(
                        Divergence::Acknowledged { line, ms, window, frame, sent: Some(*sent) },
                    );
                }
            },
            None => {
                report.diverged = Some(
                    Divergence::Acknowledged { line, ms, window, frame, sent: None },
                );
            },
        }
    }

    /// Time has passed: a live write that the replay has not reproduced by now
    /// it is not going to.
    pub fn at(&self, ms: u64, line: usize, report: &mut ReplayReport<F>)
        ensures
            *final(report) == time_passed(*old(report), self.writes@, ms, line),
    {
        if report.diverged.is_some() {
            return;
        }
        let mut i: usize = 0;
        while i < self.writes.len()
            invariant
                i <= self.writes@.len(),
                first_overdue(self.writes@, ms, 0) == first_overdue(self.writes@, ms, i as int),
                *report == *old(report),
                report.diverged is None,
            decreases self.writes@.len() - i,
        {
            let live = self.writes[i];
            if !live.matched && ms > SLACK_MS && live.ms < ms - SLACK_MS {
                assert(overdue(self.writes@[i as int], ms));
                report.diverged = Some(Divergence::OnlyLive { line, ms, live: i });
                return;
            }
            i = i + 1;
        }
    }
}

/// Once a replay has left the recording it stays diverged where it did, and
/// enters no more violations against the verdict.
pub proof fn a_divergence_is_final<F>(
    before: ReplayReport<F>,
    after: ReplayReport<F>,
    violations: Seq<ViolationText<F>>,
)
    requires
        before.diverged is Some,
        before.with_violations(after, violations),
    ensures
        after.diverged == before.diverged,
        after.violations@ == before.violations@,
        after.clean() == before.clean(),
{
}

/// The place of a window.
#[derive(Debug)]
pub struct WindowPlaces {
    pub floating: bool,
    /// The desktops in whose trees it is.
    pub tiled: Vec<SpaceId>,
}

/// A window and its place after an event.
#[derive(Debug)]
pub struct PlaceReport {
    pub window: WindowId,
    pub floating: bool,
    pub tiled: Vec<SpaceId>,
}

/// The last write to a window, and the display that it put it on.
#[derive(Clone, Copy, Debug, PartialEq, Eq, Structural)]
pub struct LastWrite {
    pub ms: u64,
    pub display: usize,
    pub epoch: usize,
}

/// The windows that a drop released, and when.
#[derive(Debug)]
pub struct RecentDrop {
    pub windows: IdSet<WindowId>,
    pub index: usize,
}

/// Holds a replay to the rules.
#[derive(Debug)]
pub struct Checker<F> {
    /// Where each window was last seen.
    pub places: Table<WindowId, WindowPlaces>,
    /// The frame each window last reported itself at.
    pub reported: Table<WindowId, F>,
    /// The line of the last command.
    pub last_command: Option<usize>,
    pub index: usize,
    /// The window the user is dragging: from its first report with the button
    /// down until that comes up.
    pub dragging: Option<WindowId>,
    /// What was written since the button went down.
    pub button_down_writes: Option<Vec<ReplayWrite<F>>>,
    /// The windows that reported to move with the button down.
    pub moved_by_user: IdSet<WindowId>,
    pub last_write: Table<WindowId, LastWrite>,
    /// Goes up with every release of the button and every command: nothing else
    /// may put a window on another display.
    pub epoch: usize,
    /// A drop may write the window once: one across displays is finished onto
    /// one of them.
    pub recent_drop: Option<RecentDrop>,
}

/// What an event means for the rules.
#[derive(Clone, Copy, Debug)]
pub enum CheckedEvent<F> {
    Report { window: WindowId, frame: F, mouse: Option<MouseState> },
    /// The pointer moved with the button down.
    Dragged,
    /// The button came up, or the pointer moved without it.
    Released,
    Command,
    Other,
}

/// The violations of what was written with the button down, now that it is known
/// which windows the user was moving.
pub open spec fn under_the_hand<F>(moved: Set<WindowId>) -> spec_fn(ReplayWrite<F>) -> Option<
    ViolationText<F>,
> {
    |write: ReplayWrite<F>|
        if moved.contains(write.window) {
            Some(
                ViolationText::ButtonDown {
                    line: write.event_index,
                    window: write.window,
                    frame: write.frame,
                },
            )
        } else {
            None
        }
}

/// The windows that the user was moving when the button came up.
pub open spec fn moved_windows<F>(checker: Checker<F>, in_drag: Option<WindowId>) -> Set<WindowId> {
    match in_drag {
        Some(window) => checker.moved_by_user@.insert(window),
        None => checker.moved_by_user@,
    }
}

/// What is known of a frame that was written.
#[derive(Clone, Copy, Debug, PartialEq, Eq, Structural)]
pub struct WriteFacts {
    /// The window that the reactor takes to be in the user's hand.
    pub in_drag: Option<WindowId>,
    /// It has no width or no height.
    pub empty: bool,
    /// It moves the window and leaves its size.
    pub position_only: bool,
    pub floating: bool,
    /// It finishes the drop of the window onto one display.
    pub finishes_drop: bool,
    /// The window was last reported in another frame.
    pub differs: bool,
    /// The display that its middle is on.
    pub display: Option<usize>,
}

/// For how long two writes to different displays are a bounce.
pub const BOUNCE_MS: u64 = 1500;

impl<F: Copy> Checker<F> {
    pub open spec fn wf(&self) -> bool {
        &&& self.places.wf()
        &&& self.reported.wf()
        &&& self.moved_by_user.wf()
        &&& self.last_write.wf()
        &&& self.recent_drop matches Some(drop) ==> drop.windows.wf()
    }

    pub fn new() -> (checker: Checker<F>)
        ensures
            checker.wf(),
            checker.places@ == Map::<WindowId, WindowPlaces>::empty(),
            checker.reported@ == Map::<WindowId, F>::empty(),
            checker.last_command is None,
            checker.index == 0,
            checker.dragging is None,
            checker.button_down_writes is None,
            checker.moved_by_user@ == Set::<WindowId>::empty(),
            checker.last_write@ == Map::<WindowId, LastWrite>::empty(),
            checker.epoch == 0,
            checker.recent_drop is None,
    {
        Checker {
            places: Table::new(),
            reported: Table::new(),
            last_command: None,
            index: 0,
            dragging: None,
            button_down_writes: None,
            moved_by_user: IdSet::new(),
            last_write: Table::new(),
            epoch: 0,
            recent_drop: None,
        }
    }

    /// The button came up, which makes this `after` and the report `report`: what
    /// was written to the windows that the user was moving is judged.
    pub open spec fn released(
        &self,
        after: Checker<F>,
        in_drag: Option<WindowId>,
        before: ReplayReport<F>,
        report: ReplayReport<F>,
    ) -> bool {
        match self.button_down_writes {
            None => after == (Checker { dragging: None, ..*self }) && report == before,
            Some(writes) => {
                let moved = moved_windows(*self, in_drag);
                &&& before.with_violations(report, writes@.filter_map(under_the_hand(moved)))
                &&& after.moved_by_user@ == Set::<WindowId>::empty()
                &&& after.recent_drop matches Some(drop) && drop.windows@ == moved && drop.index
                    == self.index
                &&& after == (Checker {
                    dragging: None,
                    button_down_writes: None,
                    moved_by_user: after.moved_by_user,
                    epoch: (self.epoch + 1) as usize,
                    recent_drop: after.recent_drop,
                    ..*self
                })
            },
        }
    }

    /// What was written since the button went down; nothing yet, if it is up.
    pub open spec fn written_since_down(&self) -> Seq<ReplayWrite<F>> {
        match self.button_down_writes {
            Some(writes) => writes@,
            None => Seq::empty(),
        }
    }

    /// An event was taken in, which makes this `after` and the report `report`.
    pub open spec fn noted(
        &self,
        after: Checker<F>,
        event: CheckedEvent<F>,
        in_drag: Option<WindowId>,
        before: ReplayReport<F>,
        report: ReplayReport<F>,
    ) -> bool {
        match event {
            CheckedEvent::Report { window, frame, mouse } => {
                &&& report == before
                &&& after.reported@ == self.reported@.insert(window, frame)
                &&& if mouse == Some(MouseState::Down) {
                    &&& after.dragging == Some(window)
                    &&& after.moved_by_user@ == self.moved_by_user@.insert(window)
                    &&& after.button_down_writes is Some
                    &&& after.button_down_writes->0@ == self.written_since_down()
                    &&& after == (Checker {
                        reported: after.reported,
                        dragging: after.dragging,
                        moved_by_user: after.moved_by_user,
                        button_down_writes: after.button_down_writes,
                        ..*self
                    })
                } else {
                    after == (Checker { reported: after.reported, ..*self })
                }
            },
            CheckedEvent::Dragged => {
                &&& report == before
                &&& after.button_down_writes is Some
                &&& after.button_down_writes->0@ == self.written_since_down()
                &&& after == (Checker { button_down_writes: after.button_down_writes, ..*self })
            },
            CheckedEvent::Released => self.released(after, in_drag, before, report),
            CheckedEvent::Command => report == before && after == (Checker {
                last_command: Some(self.index),
                epoch: (self.epoch + 1) as usize,
                ..*self
            }),
            CheckedEvent::Other => report == before && after == *self,
        }
    }

    fn begin_button_down(&mut self)
        ensures
            final(self).button_down_writes is Some,
            old(self).button_down_writes is Some ==> final(self).button_down_writes
                == old(self).button_down_writes,
            old(self).button_down_writes is None ==> final(self).button_down_writes->0@ == Seq::<
                ReplayWrite<F>,
            >::empty(),
            *final(self) == (Checker {
                button_down_writes: final(self).button_down_writes,
                ..*old(self)
            }),
    {
        if self.button_down_writes.is_none() {
            self.button_down_writes = Some(Vec::new());
        }
    }

    /// The button came up, or is up: what was written to the windows that the
    /// user was moving is judged.
    pub fn button_released(&mut self, in_drag: Option<WindowId>, report: &mut ReplayReport<F>)
        requires
            old(self).wf(),
            old(self).epoch < usize::MAX,
        ensures
            final(self).wf(),
            old(self).released(*final(self), in_drag, *old(report), *final(report)),
    {
        self.dragging = None;
        match self.button_down_writes.take() {
            Some(writes) => {
                self.epoch = self.epoch + 1;
                let mut moved: IdSet<WindowId> = IdSet::new();
                core::mem::swap(&mut moved, &mut self.moved_by_user);
                match in_drag {
                    Some(window) => {
                        let _ = moved.insert(window);
                    },
                    None => {},
                }
                Self::judge(&writes, &moved, report);
                self.recent_drop = Some(RecentDrop { windows: moved, index: self.index });
            },
            None => {},
        }
    }

    fn judge(writes: &[ReplayWrite<F>], moved: &IdSet<WindowId>, report: &mut ReplayReport<F>)
        requires
            moved.wf(),
        ensures
            old(report).with_violations(
                *final(report),
                writes@.filter_map(under_the_hand(moved@)),
            ),
    {
        let ghost f = under_the_hand::<F>(moved@);
        let ghost begun = *report;
        let mut i: usize = 0;
        proof {
            lemma_no_violations(begun);
            assert(writes@.take(0).filter_map(f) =~= Seq::<ViolationText<F>>::empty());
        }
        while i < writes.len()
            invariant
                moved.wf(),
                f == under_the_hand::<F>(moved@),
                i <= writes@.len(),
                begun.with_violations(*report, writes@.take(i as int).filter_map(f)),
            decreases writes@.len() - i,
        {
            let write = writes[i];
            proof {
                writes@.lemma_filter_map_take_succ(f, i as int);
            }
            if moved.contains(write.window) {
                let ghost before = *report;
                let violation = Violation::ButtonDown {
                    line: write.event_index,
                    window: write.window,
                    frame: write.frame,
                };
                let ghost entered = violation.says();
                report.violation(violation);
                proof {
                    lemma_violations_add(
                        begun,
                        before,
                        *report,
                        writes@.take(i as int).filter_map(f),
                        seq![entered],
                    );
                    assert(f(writes@[i as int]) == Some(entered));
                }
            }
            i = i + 1;
        }
        assert(writes@.take(i as int) =~= writes@);
    }

    /// Takes in an event before the reactor does.
    pub fn before(
        &mut self,
        event: CheckedEvent<F>,
        in_drag: Option<WindowId>,
        report: &mut ReplayReport<F>,
    )
        requires
            old(self).wf(),
            old(self).epoch < usize::MAX,
        ensures
            final(self).wf(),
            old(self).noted(*final(self), event, in_drag, *old(report), *final(report)),
    {
        match event {
            CheckedEvent::Report { window, frame, mouse } => {
                self.reported.insert(window, frame);
                let down = match mouse {
                    Some(state) => state == MouseState::Down,
                    None => false,
                };
                if down {
                    self.dragging = Some(window);
                    let _ = self.moved_by_user.insert(window);
                    self.begin_button_down();
                }
            },
            CheckedEvent::Dragged => {
                self.begin_button_down();
            },
            CheckedEvent::Released => {
                self.button_released(in_drag, report);
            },
            CheckedEvent::Command => {
                self.last_command = Some(self.index);
                self.epoch = self.epoch + 1;
            },
            CheckedEvent::Other => {},
        }
    }

    /// The write comes right after a command.
    pub open spec fn commanded(&self, write: ReplayWrite<F>) -> bool {
        self.last_command matches Some(at) && write.event_index <= at + 2
    }

    /// The write comes right after a drop of its window, or finishes it.
    pub open spec fn dropped(&self, write: ReplayWrite<F>, facts: WriteFacts) -> bool {
        ||| facts.finishes_drop
        ||| self.recent_drop matches Some(drop) && drop.windows@.contains(write.window)
            && write.event_index <= drop.index + 2
    }

    /// The violation of the first rule by a write.
    pub open spec fn drag_violation(&self, write: ReplayWrite<F>, facts: WriteFacts) -> Seq<
        ViolationText<F>,
    > {
        if self.dragging == Some(write.window) {
            seq![
                ViolationText::WhileDragging {
                    line: write.event_index,
                    window: write.window,
                    frame: write.frame,
                    in_drag: facts.in_drag,
                },
            ]
        } else {
            Seq::empty()
        }
    }

    /// The violation of the second rule by a write.
    pub open spec fn empty_violation(&self, write: ReplayWrite<F>, facts: WriteFacts) -> Seq<
        ViolationText<F>,
    > {
        if facts.empty {
            seq![
                ViolationText::EmptyFrame {
                    line: write.event_index,
                    window: write.window,
                    frame: write.frame,
                },
            ]
        } else {
            Seq::empty()
        }
    }

    /// The violation of the fifth rule by a write.
    pub open spec fn float_violation(&self, write: ReplayWrite<F>, facts: WriteFacts) -> Seq<
        ViolationText<F>,
    > {
        if !facts.position_only && facts.floating && !self.commanded(write) && !self.dropped(
            write,
            facts,
        ) && self.reported@.contains_key(write.window) && facts.differs {
            seq![
                ViolationText::FloatMoved {
                    line: write.event_index,
                    window: write.window,
                    frame: write.frame,
                    reported: self.reported@[write.window],
                },
            ]
        } else {
            Seq::empty()
        }
    }

    /// The last write put the window on another display, a moment ago and with
    /// nothing in between that may.
    pub open spec fn bounces(&self, write: ReplayWrite<F>, display: usize) -> bool {
        self.last_write.at(write.window) matches Some(last) && last.epoch == self.epoch
            && last.display != display && write.ms <= last.ms + BOUNCE_MS
    }

    /// The violation of the fourth rule by a write.
    pub open spec fn bounce_violation(&self, write: ReplayWrite<F>, facts: WriteFacts) -> Seq<
        ViolationText<F>,
    > {
        if !facts.position_only && facts.display is Some && self.bounces(write, facts.display->0) {
            let last = self.last_write.at(write.window)->0;
            seq![
                ViolationText::Bounced {
                    line: write.event_index,
                    window: write.window,
                    from: last.display,
                    to: facts.display->0,
                    since: last.ms,
                    ms: write.ms,
                },
            ]
        } else {
            Seq::empty()
        }
    }

    /// The violations by a write.
    pub open spec fn write_violations(&self, write: ReplayWrite<F>, facts: WriteFacts) -> Seq<
        ViolationText<F>,
    > {
        self.drag_violation(write, facts) + self.empty_violation(write, facts) + self.float_violation(
            write,
            facts,
        ) + self.bounce_violation(write, facts)
    }

    /// A frame that was written is entered, which makes this `after`.
    pub open spec fn entered(
        &self,
        after: Checker<F>,
        write: ReplayWrite<F>,
        facts: WriteFacts,
    ) -> bool {
        &&& match self.button_down_writes {
            Some(writes) => after.button_down_writes is Some && after.button_down_writes->0@
                == if self.dragging == Some(write.window) {
                writes@
            } else {
                writes@.push(write)
            },
            None => after.button_down_writes is None,
        }
        &&& after.last_write@ == if !facts.position_only && facts.display is Some {
            self.last_write@.insert(
                write.window,
                LastWrite { ms: write.ms, display: facts.display->0, epoch: self.epoch },
            )
        } else {
            self.last_write@
        }
        &&& after == (Checker {
            button_down_writes: after.button_down_writes,
            last_write: after.last_write,
            ..*self
        })
    }

    /// A frame was written: holds it to the rules.
    pub fn on_write(
        &mut self,
        write: &ReplayWrite<F>,
        facts: WriteFacts,
        report: &mut ReplayReport<F>,
    )
        requires
            old(self).wf(),
        ensures
            final(self).wf(),
            old(report).with_violations(
                *final(report),
                old(self).write_violations(*write, facts),
            ),
            old(self).entered(*final(self), *write, facts),
    {
        let ghost begun = *report;
        let dragged = match self.dragging {
            Some(window) => window == write.window,
            None => false,
        };
        let ghost drag = self.drag_violation(*write, facts);
        let ghost empty = self.empty_violation(*write, facts);
        let ghost float = self.float_violation(*write, facts);
        let ghost bounce = self.bounce_violation(*write, facts);
        let mut writes = self.button_down_writes.take();
        if dragged {
            report.violation(
                Violation::WhileDragging {
                    line: write.event_index,
                    window: write.window,
                    frame: write.frame,
                    in_drag: facts.in_drag,
                },
            );
        } else {
            writes = match writes {
                Some(list) => {
                    let mut list = list;
                    list.push(*write);
                    Some(list)
                },
                None => None,
            };
        }
        self.button_down_writes = writes;
        proof {
            if !dragged {
                lemma_no_violations(begun);
            }
            assert(begun.with_violations(*report, drag));
        }
        let ghost first = *report;
        if facts.empty {
            report.violation(
                Violation::EmptyFrame {
                    line: write.event_index,
                    window: write.window,
                    frame: write.frame,
                },
            );
        }
        proof {
            if !facts.empty {
                lemma_no_violations(first);
            }
            lemma_violations_add(begun, first, *report, drag, empty);
        }
        if facts.position_only {
            assert(drag + empty + float + bounce =~= drag + empty);
            return;
        }
        let commanded = match self.last_command {
            Some(at) => write.event_index <= at || write.event_index - at <= 2,
            None => false,
        };
        let dropped = facts.finishes_drop || match &self.recent_drop {
            Some(drop) => drop.windows.contains(write.window) && (write.event_index <= drop.index
                || write.event_index - drop.index <= 2),
            None => false,
        };
        let ghost second = *report;
        let mut moved = false;
        if facts.floating && !commanded && !dropped && facts.differs {
            match self.reported.get(&write.window) {
                Some(reported) => {
                    moved = true;
                    report.violation(
                        Violation::FloatMoved {
                            line: write.event_index,
                            window: write.window,
                            frame: write.frame,
                            reported: *reported,
                        },
                    );
                },
                None => {},
            }
        }
        proof {
            if !moved {
                lemma_no_violations(second);
            }
            lemma_violations_add(begun, second, *report, drag + empty, float);
        }
        let ghost third = *report;
        match facts.display {
            Some(display) => {
                let mut bounced = false;
                match self.last_write.get(&write.window) {
                    Some(last) => {
                        if last.epoch == self.epoch && last.display != display && (write.ms
                            <= last.ms || write.ms - last.ms <= BOUNCE_MS) {
                            bounced = true;
                            report.violation(
                                Violation::Bounced {
                                    line: write.event_index,
                                    window: write.window,
                                    from: last.display,
                                    to: display,
                                    since: last.ms,
                                    ms: write.ms,
                                },
                            );
                        }
                    },
                    None => {},
                }
                proof {
                    if !bounced {
                        lemma_no_violations(third);
                    }
                    lemma_violations_add(begun, third, *report, drag + empty + float, bounce);
                }
                self.last_write.insert(
                    write.window,
                    LastWrite { ms: write.ms, display, epoch: self.epoch },
                );
            },
            None => {
                assert(drag + empty + float + bounce =~= drag + empty + float);
            },
        }
    }
}

/// What a change of a window's place says, or a drop.
pub enum ChangeText {
    Moved { line: usize, window: WindowId, floating: bool, tiled: Seq<SpaceId> },
    Dropped(DropNote),
}

impl StateChange {
    pub open spec fn says(self) -> ChangeText {
        match self {
            StateChange::Moved { line, window, floating, tiled } => ChangeText::Moved {
                line,
                window,
                floating,
                tiled: tiled@,
            },
            StateChange::Dropped(note) => ChangeText::Dropped(note),
        }
    }
}

/// What the changes say.
pub open spec fn said(changes: Seq<StateChange>) -> Seq<ChangeText> {
    changes.map_values(|change: StateChange| change.says())
}

/// The window was last seen in this place.
pub open spec fn seen_at(places: Table<WindowId, WindowPlaces>, report: PlaceReport) -> bool {
    places.at(report.window) matches Some(place) && place.floating == report.floating
        && place.tiled@ == report.tiled@
}

/// The change of a window's place since it was last seen.
pub open spec fn place_change(places: Table<WindowId, WindowPlaces>, line: usize) -> spec_fn(
    PlaceReport,
) -> Option<ChangeText> {
    |report: PlaceReport|
        if seen_at(places, report) {
            None
        } else {
            Some(
                ChangeText::Moved {
                    line,
                    window: report.window,
                    floating: report.floating,
                    tiled: report.tiled@,
                },
            )
        }
}

/// The violations of the third rule by where a window is.
pub open spec fn place_violation<F>(report: PlaceReport, line: usize) -> Seq<ViolationText<F>> {
    (if report.tiled@.len() > 1 {
        seq![ViolationText::TwoTrees { line, window: report.window, tiled: report.tiled@ }]
    } else {
        Seq::empty()
    }) + (if report.floating && report.tiled@.len() > 0 {
        seq![ViolationText::FloatingAndTiled { line, window: report.window, tiled: report.tiled@ }]
    } else {
        Seq::empty()
    })
}

/// The violations of the third rule by where the windows are.
pub open spec fn place_violations<F>(reports: Seq<PlaceReport>, line: usize) -> Seq<
    ViolationText<F>,
>
    decreases reports.len(),
{
    if reports.len() == 0 {
        Seq::empty()
    } else {
        place_violations::<F>(reports.drop_last(), line) + place_violation(reports.last(), line)
    }
}

/// No window is reported twice.
pub open spec fn windows_once(reports: Seq<PlaceReport>) -> bool {
    forall|i: int, j: int|
        0 <= i < j < reports.len() ==> (#[trigger] reports[i]).window != (
        #[trigger] reports[j]).window
}

/// `reports` speaks of the window.
pub open spec fn reports_on(reports: Seq<PlaceReport>, window: WindowId) -> bool {
    exists|i: int| 0 <= i < reports.len() && (#[trigger] reports[i]).window == window
}

fn was_seen_at(places: &Table<WindowId, WindowPlaces>, report: &PlaceReport) -> (seen: bool)
    requires
        places.wf(),
    ensures
        seen == seen_at(*places, *report),
{
    match places.get(&report.window) {
        Some(place) => place.floating == report.floating && same_list(&place.tiled, &report.tiled),
        None => false,
    }
}

impl<F: Copy> Checker<F> {
    /// The windows are in these places after an event, which makes this `after`
    /// and the report `report`.
    pub open spec fn looked_at(
        &self,
        after: Checker<F>,
        line: usize,
        places: Seq<PlaceReport>,
        before: ReplayReport<F>,
        report: ReplayReport<F>,
    ) -> bool {
        &&& forall|i: int|
            0 <= i < places.len() ==> seen_at(after.places, #[trigger] places[i])
        &&& forall|window: WindowId|
            !reports_on(places, window) ==> #[trigger] after.places.at(window) == self.places.at(
                window,
            )
        &&& after == (Checker { index: line, places: after.places, ..*self })
        &&& said(report.state_changes@) == said(before.state_changes@) + places.filter_map(
            place_change(self.places, line),
        )
        &&& (ReplayReport { state_changes: report.state_changes, ..before }).with_violations(
            report,
            place_violations(places, line),
        )
    }

    /// The reactor has dealt with an event: notes where the windows are, and
    /// holds that to the rules.
    pub fn after_event(&mut self, line: usize, places: &[PlaceReport], report: &mut ReplayReport<F>)
        requires
            old(self).wf(),
            windows_once(places@),
        ensures
            final(self).wf(),
            old(self).looked_at(
                *final(self),
                line,
                places@,
                *old(report),
                *final(report),
            ),
    {
        self.index = line;
        let ghost begun = *report;
        let ghost held = self.places;
        let ghost f = place_change(held, line);
        let mut i: usize = 0;
        proof {
            lemma_no_violations(begun);
            assert(places@.take(0).filter_map(f) =~= Seq::<ChangeText>::empty());
            assert(said(begun.state_changes@) + Seq::<ChangeText>::empty() =~= said(
                begun.state_changes@,
            ));
        }
        while i < places.len()
            invariant
                self.wf(),
                windows_once(places@),
                begun == *old(report),
                held == old(self).places,
                f == place_change(held, line),
                i <= places@.len(),
                *self == (Checker { index: line, places: self.places, ..*old(self) }),
                forall|k: int| 0 <= k < i ==> seen_at(self.places, #[trigger] places@[k]),
                forall|window: WindowId|
                    !reports_on(places@.take(i as int), window) ==> #[trigger] self.places.at(
                        window,
                    ) == held.at(window),
                said(report.state_changes@) == said(begun.state_changes@) + places@.take(
                    i as int,
                ).filter_map(f),
                (ReplayReport { state_changes: report.state_changes, ..begun }).with_violations(
                    *report,
                    place_violations(places@.take(i as int), line),
                ),
            decreases places@.len() - i,
        {
            let place = &places[i];
            let ghost done = places@.take(i as int);
            let ghost next = places@.take(i + 1);
            let ghost table = self.places;
            let ghost entered = *report;
            proof {
                places@.lemma_filter_map_take_succ(f, i as int);
                assert(next.drop_last() =~= done);
                assert(next.last() == *place);
                assert(!reports_on(done, place.window)) by {
                    if reports_on(done, place.window) {
                        let k = choose|k: int|
                            0 <= k < done.len() && (#[trigger] done[k]).window == place.window;
                        assert(places@[k].window == places@[i as int].window);
                    }
                }
                assert(table.at(place.window) == held.at(place.window));
                assert(seen_at(table, *place) == seen_at(held, *place));
            }
            if !was_seen_at(&self.places, place) {
                let change = StateChange::Moved {
                    line,
                    window: place.window,
                    floating: place.floating,
                    tiled: crate::lists::copy_list(&place.tiled),
                };
                report.state_changes.push(change);
                proof {
                    assert(said(report.state_changes@) =~= said(entered.state_changes@).push(
                        change.says(),
                    ));
                    assert(f(places@[i as int]) == Some(change.says()));
                }
                self.places.insert(
                    place.window,
                    WindowPlaces {
                        floating: place.floating,
                        tiled: crate::lists::copy_list(&place.tiled),
                    },
                );
            }
            assert(said(report.state_changes@) =~= said(begun.state_changes@) + next.filter_map(f));
            let ghost base = ReplayReport { state_changes: report.state_changes, ..begun };
            let ghost noted = *report;
            assert(base.with_violations(noted, place_violations(done, line)));
            if place.tiled.len() > 1 {
                let tiled = crate::lists::copy_list(&place.tiled);
                report.violation(Violation::TwoTrees { line, window: place.window, tiled });
            }
            let ghost one = if place.tiled@.len() > 1 {
                seq![
                    ViolationText::<F>::TwoTrees {
                        line,
                        window: place.window,
                        tiled: place.tiled@,
                    },
                ]
            } else {
                Seq::empty()
            };
            let ghost middle = *report;
            proof {
                if place.tiled@.len() <= 1 {
                    lemma_no_violations(noted);
                }
                lemma_violations_add(base, noted, middle, place_violations(done, line), one);
            }
            if place.floating && place.tiled.len() > 0 {
                let tiled = crate::lists::copy_list(&place.tiled);
                report.violation(Violation::FloatingAndTiled { line, window: place.window, tiled });
            }
            let ghost two = if place.floating && place.tiled@.len() > 0 {
                seq![
                    ViolationText::<F>::FloatingAndTiled {
                        line,
                        window: place.window,
                        tiled: place.tiled@,
                    },
                ]
            } else {
                Seq::empty()
            };
            proof {
                if !(place.floating && place.tiled@.len() > 0) {
                    lemma_no_violations(middle);
                }
                lemma_violations_add(
                    base,
                    middle,
                    *report,
                    place_violations(done, line) + one,
                    two,
                );
                assert(place_violations::<F>(done, line) + one + two =~= place_violations::<F>(
                    next,
                    line,
                ));
                assert forall|k: int| 0 <= k < i + 1 implies seen_at(
                    self.places,
                    #[trigger] places@[k],
                ) by {
                    if k < i {
                        assert(seen_at(table, places@[k]));
                        assert(places@[k].window != places@[i as int].window);
                    }
                }
                assert forall|window: WindowId| !reports_on(next, window) implies #[trigger]
                    self.places.at(window) == held.at(window) by {
                    assert(!reports_on(done, window)) by {
                        if reports_on(done, window) {
                            let k = choose|k: int|
                                0 <= k < done.len() && (#[trigger] done[k]).window == window;
                            assert(next[k] == done[k]);
                        }
                    }
                    assert(table.at(window) == held.at(window));
                    assert(next[i as int] == *place);
                }
            }
            i = i + 1;
        }
        assert(places@.take(i as int) =~= places@);
    }
}

/// A write to the window in the user's hand is a violation, whatever else holds.
pub proof fn no_write_under_the_hand<F: Copy>(
    checker: Checker<F>,
    write: ReplayWrite<F>,
    facts: WriteFacts,
)
    requires
        checker.dragging == Some(write.window),
    ensures
        checker.write_violations(write, facts).contains(
            ViolationText::WhileDragging {
                line: write.event_index,
                window: write.window,
                frame: write.frame,
                in_drag: facts.in_drag,
            },
        ),
{
    let all = checker.write_violations(write, facts);
    assert(all[0] == checker.drag_violation(write, facts)[0]);
}

/// A write with the button down to a window that turns out to be in the user's
/// hand is a violation once the button is up.
pub proof fn a_late_report_still_judges<F>(
    writes: Seq<ReplayWrite<F>>,
    moved: Set<WindowId>,
    i: int,
)
    requires
        0 <= i < writes.len(),
        moved.contains(writes[i].window),
    ensures
        writes.filter_map(under_the_hand(moved)).contains(
            ViolationText::ButtonDown {
                line: writes[i].event_index,
                window: writes[i].window,
                frame: writes[i].frame,
            },
        ),
    decreases writes.len(),
{
    let f = under_the_hand::<F>(moved);
    let violation = ViolationText::ButtonDown {
        line: writes[i].event_index,
        window: writes[i].window,
        frame: writes[i].frame,
    };
    let n = writes.len() - 1;
    let rest = writes.take(n as int);
    writes.lemma_filter_map_take_succ(f, n as int);
    assert(writes.take(n + 1) =~= writes);
    let before = rest.filter_map(f);
    let all = writes.filter_map(f);
    assert(f(writes[i]) == Some(violation));
    if i == n {
        assert(all.last() == violation);
    } else {
        a_late_report_still_judges(rest, moved, i);
        let k = before.index_of(violation);
        assert(all[k] == violation);
    }
}

/// No empty frame passes.
pub proof fn no_empty_frame<F: Copy>(checker: Checker<F>, write: ReplayWrite<F>, facts: WriteFacts)
    requires
        facts.empty,
    ensures
        checker.write_violations(write, facts).contains(
            ViolationText::EmptyFrame {
                line: write.event_index,
                window: write.window,
                frame: write.frame,
            },
        ),
{
    let all = checker.write_violations(write, facts);
    assert(all[checker.drag_violation(write, facts).len() as int] == checker.empty_violation(
        write,
        facts,
    )[0]);
}

/// A window in two trees, or floating and in one, does not pass: without a
/// violation every window is in at most one place.
pub proof fn a_window_is_in_one_place<F>(reports: Seq<PlaceReport>, line: usize, i: int)
    requires
        0 <= i < reports.len(),
        place_violations::<F>(reports, line).len() == 0,
    ensures
        reports[i].tiled@.len() <= 1,
        reports[i].floating ==> reports[i].tiled@.len() == 0,
    decreases reports.len(),
{
    if i < reports.len() - 1 {
        a_window_is_in_one_place::<F>(reports.drop_last(), line, i);
    }
}

/// A command or a release of the button between two writes makes a change of
/// display no bounce.
pub proof fn a_new_epoch_allows_a_move<F: Copy>(
    checker: Checker<F>,
    write: ReplayWrite<F>,
    display: usize,
)
    requires
        checker.last_write.at(write.window) matches Some(last) ==> last.epoch < checker.epoch,
    ensures
        !checker.bounces(write, display),
{
}

/// Without a violation against the verdict none was ever entered: what was held
/// to the rules kept them.
pub proof fn a_clean_report_broke_no_rule<F>(
    before: ReplayReport<F>,
    after: ReplayReport<F>,
    violations: Seq<ViolationText<F>>,
)
    requires
        before.with_violations(after, violations),
        after.violations@.len() == 0,
        after.diverged is None,
    ensures
        violations.len() == 0,
        before.violations@.len() == 0,
        before.diverged is None,
{
    assert(breaches(after.violations@).len() == 0);
    assert(breaches(before.violations@).len() == before.violations@.len());
}

/// The beginning of a title.
pub open spec fn title_start(title: Seq<char>) -> Seq<char> {
    if title.len() <= TITLE_CHARS {
        title
    } else {
        title.take(TITLE_CHARS as int)
    }
}

/// How a window is entered when a replay ends.
pub open spec fn ends_as(entered: FinalWindow, window: FinalWindow, spaces: Seq<SpaceId>) -> bool {
    &&& entered.window == window.window
    &&& entered.title@ == title_start(window.title@)
    &&& entered.admitted == window.admitted
    &&& entered.floating == window.floating
    &&& entered.tiled@ == spaces.filter(among(window.tiled@))
}

/// A window as it is entered when a replay ends.
pub fn final_window(window: &FinalWindow, spaces: &[SpaceId]) -> (entered: FinalWindow)
    ensures
        ends_as(entered, *window, spaces@),
{
    let title = window.title.as_str();
    let len = title.unicode_len();
    let start = if len <= TITLE_CHARS {
        len
    } else {
        TITLE_CHARS
    };
    assert(title@.subrange(0, start as int) =~= title_start(title@));
    FinalWindow {
        window: window.window,
        title: title.substring_char(0, start).to_owned(),
        admitted: window.admitted,
        floating: window.floating,
        tiled: keep_listed(spaces, &window.tiled),
    }
}

/// A replay in progress.
#[derive(Debug)]
pub struct Replay<F> {
    pub live: LiveWrites<F>,
    pub checker: Checker<F>,
    pub report: ReplayReport<F>,
}

/// An event of a trace, as a replay looks at it.
#[derive(Clone, Copy, Debug)]
pub struct ReplayEvent<F> {
    /// The line of the trace, and the time.
    pub line: usize,
    pub ms: u64,
    pub event: CheckedEvent<F>,
    /// A frame report acknowledges a write.
    pub requested: bool,
    /// Its frame is one that the last write asked for.
    pub echoes: bool,
    /// The window in the user's hand, before the event.
    pub in_drag: Option<WindowId>,
}

impl<F: Copy> Replay<F> {
    pub open spec fn wf(&self) -> bool {
        self.live.wf() && self.checker.wf() && self.report.counts_kinds()
    }

    /// Begins a replay of what was written live, with the windows where they are
    /// to begin with.
    pub fn new(writes: Vec<LiveWrite>, reported: Table<WindowId, F>) -> (replay: Replay<F>)
        requires
            reported.wf(),
        ensures
            replay.wf(),
            replay.live.writes == writes,
            replay.live.reported == reported,
            replay.live.last_replay@ == Map::<WindowId, F>::empty(),
            replay.checker.places@ == Map::<WindowId, WindowPlaces>::empty(),
            replay.checker.reported@ == Map::<WindowId, F>::empty(),
            replay.checker.last_command is None,
            replay.checker.index == 0,
            replay.checker.dragging is None,
            replay.checker.button_down_writes is None,
            replay.checker.moved_by_user@ == Set::<WindowId>::empty(),
            replay.checker.last_write@ == Map::<WindowId, LastWrite>::empty(),
            replay.checker.epoch == 0,
            replay.checker.recent_drop is None,
            replay.report.events == 0,
            replay.report.requests == 0,
            replay.report.request_kinds@ == Map::<Seq<char>, usize>::empty(),
            replay.report.writes@ == Seq::<ReplayWrite<F>>::empty(),
            replay.report.violations@ == Seq::<Violation<F>>::empty(),
            replay.report.misses@ == Seq::<String>::empty(),
            replay.report.drifts@ == Seq::<String>::empty(),
            replay.report.state_changes@ == Seq::<StateChange>::empty(),
            replay.report.final_spaces@ == Seq::<SpaceId>::empty(),
            replay.report.final_workspaces@ == Seq::<bool>::empty(),
            replay.report.final_screens == 0,
            replay.report.final_windows@ == Seq::<FinalWindow>::empty(),
            replay.report.diverged is None,
            replay.report.after_divergence@ == Seq::<Violation<F>>::empty(),
            replay.report.clean(),
    {
        Replay {
            live: LiveWrites::new(writes, reported),
            checker: Checker::new(),
            report: ReplayReport::new(),
        }
    }

    /// The report before the checker looks at an event: time has passed, and a
    /// window may have acknowledged a write.
    pub open spec fn told(&self, step: ReplayEvent<F>) -> ReplayReport<F> {
        let passed = time_passed(self.report, self.live.writes@, step.ms, step.line);
        match step.event {
            CheckedEvent::Report { window, frame, .. } => acknowledged(
                passed,
                self.live.last_replay.at(window),
                step.line,
                step.ms,
                window,
                frame,
                step.requested,
                step.echoes,
            ),
            _ => passed,
        }
    }

    /// An event of the trace comes up, before the reactor is given it.
    pub fn begin_event(&mut self, step: ReplayEvent<F>)
        requires
            old(self).wf(),
            old(self).checker.epoch < usize::MAX,
            old(self).report.events < usize::MAX,
        ensures
            final(self).wf(),
            final(self).report.events == old(self).report.events + 1,
            (Checker { index: step.line, ..old(self).checker }).noted(
                final(self).checker,
                step.event,
                step.in_drag,
                old(self).told(step),
                (ReplayReport { events: old(self).report.events, ..final(self).report }),
            ),
            final(self).live.writes == old(self).live.writes,
            final(self).live.last_replay == old(self).live.last_replay,
            final(self).live.reported@ == match step.event {
                CheckedEvent::Report { window, frame, .. } => old(self).live.reported@.insert(
                    window,
                    frame,
                ),
                _ => old(self).live.reported@,
            },
    {
        self.live.at(step.ms, step.line, &mut self.report);
        match step.event {
            CheckedEvent::Report { window, frame, .. } => {
                self.live.on_report(
                    step.line,
                    step.ms,
                    window,
                    frame,
                    step.requested,
                    step.echoes,
                    &mut self.report,
                );
            },
            _ => {},
        }
        self.checker.index = step.line;
        self.checker.before(step.event, step.in_drag, &mut self.report);
        self.report.events = self.report.events + 1;
    }

    /// The reactor asked something of an application.
    pub fn on_request(&mut self, debug: &str)
        requires
            old(self).wf(),
            old(self).report.requests < usize::MAX,
        ensures
            final(self).wf(),
            final(self).report.requests == old(self).report.requests + 1,
            final(self).report.request_kinds@ == old(self).report.request_kinds@.insert(
                debug@.take(word_end(debug@)),
                (old(self).report.count_of(debug@.take(word_end(debug@))) + 1) as usize,
            ),
            *final(self) == (Replay {
                report: ReplayReport {
                    requests: final(self).report.requests,
                    request_kinds: final(self).report.request_kinds,
                    ..old(self).report
                },
                ..*old(self)
            }),
    {
        self.report.count_request(debug);
    }

    /// The reactor wrote a frame.
    pub fn on_write(&mut self, write: ReplayWrite<F>, found: &WriteMatch, facts: WriteFacts)
        requires
            old(self).wf(),
            found.close@.len() == old(self).live.writes@.len(),
        ensures
            final(self).wf(),
            ({
                let matched = ReplayReport {
                    diverged: final(self).report.diverged,
                    ..old(self).report
                };
                &&& old(self).live.matched_off(
                    final(self).live,
                    write,
                    *found,
                    old(self).report,
                    matched,
                )
                &&& old(self).checker.entered(final(self).checker, write, facts)
                &&& final(self).report.writes@ == old(self).report.writes@.push(write)
                &&& matched.with_violations(
                    ReplayReport { writes: old(self).report.writes, ..final(self).report },
                    old(self).checker.write_violations(write, facts),
                )
            }),
    {
        self.live.on_replay_write(&write, found, &mut self.report);
        self.checker.on_write(&write, facts, &mut self.report);
        self.report.writes.push(write);
    }

    /// The reactor has dealt with an event, and the windows are in these places.
    pub fn end_event(&mut self, line: usize, places: &[PlaceReport])
        requires
            old(self).wf(),
            windows_once(places@),
        ensures
            final(self).wf(),
            final(self).live == old(self).live,
            old(self).checker.looked_at(
                final(self).checker,
                line,
                places@,
                old(self).report,
                final(self).report,
            ),
    {
        self.checker.after_event(line, places, &mut self.report);
    }

    /// The button came up, and the reactor has dealt with it; `note` is what it
    /// found before.
    pub fn note_drop(&mut self, note: DropNote)
        requires
            old(self).wf(),
        ensures
            final(self).wf(),
            final(self).report.state_changes@ == old(self).report.state_changes@.push(
                StateChange::Dropped(note),
            ),
            *final(self) == (Replay {
                report: ReplayReport {
                    state_changes: final(self).report.state_changes,
                    ..old(self).report
                },
                ..*old(self)
            }),
    {
        self.report.state_changes.push(StateChange::Dropped(note));
    }

    /// The trace is over; these questions had no answer, and these another one.
    /// What there is at the end is entered: of each window the beginning of its
    /// title, and the active desktops in whose trees it is.
    pub fn finish(self, misses: Vec<String>, drifts: Vec<String>, end: ReplayEnd) -> (report:
        ReplayReport<F>)
        ensures
            report.final_windows@.len() == end.windows@.len(),
            forall|i: int|
                0 <= i < end.windows@.len() ==> ends_as(
                    #[trigger] report.final_windows@[i],
                    end.windows@[i],
                    end.spaces@,
                ),
            report == (ReplayReport {
                misses,
                drifts,
                final_spaces: end.spaces,
                final_workspaces: end.workspaces,
                final_screens: end.screens,
                final_windows: report.final_windows,
                ..self.report
            }),
            self.wf() ==> report.counts_kinds(),
    {
        let mut report = self.report;
        let mut windows: Vec<FinalWindow> = Vec::new();
        let mut i: usize = 0;
        while i < end.windows.len()
            invariant
                i <= end.windows@.len(),
                windows@.len() == i,
                forall|k: int|
                    0 <= k < i ==> ends_as(
                        #[trigger] windows@[k],
                        end.windows@[k],
                        end.spaces@,
                    ),
            decreases end.windows@.len() - i,
        {
            windows.push(final_window(&end.windows[i], &end.spaces));
            i = i + 1;
        }
        report.misses = misses;
        report.drifts = drifts;
        report.final_spaces = end.spaces;
        report.final_workspaces = end.workspaces;
        report.final_screens = end.screens;
        report.final_windows = windows;
        report
    }
}

/// In a replay that is clean so far and has not left the recording, the frame
/// written last was not written under the user's hand, and was not empty.
pub proof fn a_clean_write_kept_the_rules<F: Copy>(
    checker: Checker<F>,
    write: ReplayWrite<F>,
    facts: WriteFacts,
    before: ReplayReport<F>,
    after: ReplayReport<F>,
)
    requires
        before.with_violations(after, checker.write_violations(write, facts)),
        after.violations@.len() == 0,
        after.diverged is None,
    ensures
        checker.dragging != Some(write.window),
        !facts.empty,
        !facts.position_only && facts.display is Some ==> !checker.bounces(
            write,
            facts.display->0,
        ),
{
    a_clean_report_broke_no_rule(before, after, checker.write_violations(write, facts));
    let all = checker.write_violations(write, facts);
    if checker.dragging == Some(write.window) {
        no_write_under_the_hand(checker, write, facts);
        assert(all.len() > 0);
    }
    if facts.empty {
        no_empty_frame(checker, write, facts);
        assert(all.len() > 0);
    }
    assert(all.len() == checker.drag_violation(write, facts).len() + checker.empty_violation(
        write,
        facts,
    ).len() + checker.float_violation(write, facts).len() + checker.bounce_violation(
        write,
        facts,
    ).len());
}

/// The first word of a text ends at the first bracket, brace or blank, or with the text.
pub proof fn where_the_first_word_ends(text: Seq<char>)
    ensures
        0 <= word_end(text) <= text.len(),
        forall|i: int|
            0 <= i < word_end(text) ==> #[trigger] text[i] != '(' && text[i] != ' ' && text[i] != '{',
        word_end(text) < text.len() ==> text[word_end(text)] == '(' || text[word_end(text)] == ' '
            || text[word_end(text)] == '{',
    decreases text.len(),
{
    if text.len() > 0 && !ends_word(text[0]) {
        let rest = text.skip(1);
        where_the_first_word_ends(rest);
        assert forall|i: int| 0 <= i < word_end(text) implies #[trigger] text[i] != '(' && text[i]
            != ' ' && text[i] != '{' by {
            if i > 0 {
                assert(rest[i - 1] == text[i]);
            }
        }
    }
}

/// A request writes to the windows it names: one frame or position, or a frame for each of
/// a batch in its order; another request writes nothing.
pub proof fn what_a_request_writes<F, P>(
    request: FrameRequest<F, P>,
    window: WindowId,
    frame: F,
    position: P,
    i: int,
)
    ensures
        written::<F, P>(FrameRequest::SetWindowFrame(window, frame)) == seq![
            (window, Written::<F, P>::Frame(frame)),
        ],
        written::<F, P>(FrameRequest::AnimationFrame(window, frame)) == seq![
            (window, Written::<F, P>::Frame(frame)),
        ],
        written::<F, P>(FrameRequest::SetWindowPos(window, position)) == seq![
            (window, Written::<F, P>::Position(position)),
        ],
        written::<F, P>(FrameRequest::Other).len() == 0,
        (request matches FrameRequest::SetBatchWindowFrame(frames) ==> written(request).len()
            == frames@.len() && (0 <= i < frames@.len() ==> written(request)[i] == (
            frames@[i].0,
            Written::<F, P>::Frame(frames@[i].1),
        ))),
{
}

/// What a violation says is what it holds.
pub proof fn what_a_violation_says<F>(
    line: usize,
    window: WindowId,
    frame: F,
    reported: F,
    in_drag: Option<WindowId>,
    from: usize,
    to: usize,
    since: u64,
    ms: u64,
)
    ensures
        (Violation::WhileDragging { line, window, frame, in_drag }).says() == (
        ViolationText::WhileDragging { line, window, frame, in_drag }),
        (Violation::ButtonDown { line, window, frame }).says() == (ViolationText::ButtonDown {
            line,
            window,
            frame,
        }),
        (Violation::EmptyFrame { line, window, frame }).says() == (ViolationText::EmptyFrame {
            line,
            window,
            frame,
        }),
        (Violation::FloatMoved { line, window, frame, reported }).says() == (
        ViolationText::FloatMoved { line, window, frame, reported }),
        (Violation::<F>::Bounced { line, window, from, to, since, ms }).says() == (
        ViolationText::<F>::Bounced { line, window, from, to, since, ms }),
{
}

/// A replay is clean without violations, and with every question answered unless it left
/// the recording.
pub proof fn when_a_replay_is_clean<F>(report: ReplayReport<F>)
    ensures
        report.violations@.len() > 0 ==> !report.clean(),
        report.violations@.len() == 0 && report.misses@.len() == 0 ==> report.clean(),
        report.violations@.len() == 0 && report.diverged is Some ==> report.clean(),
        report.misses@.len() > 0 && report.diverged is None ==> !report.clean(),
{
}

/// Violations go behind those before them: against the verdict while the replay follows
/// the recording, and apart once it has left it. Nothing else changes.
pub proof fn where_violations_go<F>(
    before: ReplayReport<F>,
    after: ReplayReport<F>,
    violations: Seq<ViolationText<F>>,
    i: int,
)
    requires
        before.with_violations(after, violations),
        0 <= i < violations.len(),
    ensures
        before.diverged is None ==> after.violations@.len() == before.violations@.len()
            + violations.len() && after.violations@[before.violations@.len() + i].says()
            == violations[i] && after.after_divergence@ == before.after_divergence@,
        before.diverged is Some ==> after.after_divergence@.len() == before.after_divergence@.len()
            + violations.len() && after.after_divergence@[before.after_divergence@.len() + i].says()
            == violations[i] && after.violations@ == before.violations@,
        after.events == before.events && after.requests == before.requests && after.writes
            == before.writes && after.misses == before.misses && after.diverged == before.diverged
            && after.state_changes == before.state_changes,
{
    if before.diverged is None {
        let said = breaches(after.violations@);
        assert(said == breaches(before.violations@) + violations);
        assert(said.len() == after.violations@.len());
        assert(said[before.violations@.len() + i] == violations[i]);
    } else {
        let said = breaches(after.after_divergence@);
        assert(said == breaches(before.after_divergence@) + violations);
        assert(said.len() == after.after_divergence@.len());
        assert(said[before.after_divergence@.len() + i] == violations[i]);
    }
}

/// Two times are as far apart as the later is after the earlier, either way round.
pub proof fn how_far_times_are_apart(a: u64, b: u64)
    ensures
        apart(a, b) == apart(b, a),
        a <= b ==> a + apart(a, b) == b,
{
}

/// A live write may be the counterpart of one to the same window within half a second, if
/// none has been found for it and the frames are as good as the same.
pub proof fn what_may_be_the_counterpart<F>(
    writes: Seq<LiveWrite>,
    write: ReplayWrite<F>,
    close: Seq<bool>,
    i: int,
)
    requires
        0 <= i < writes.len(),
    ensures
        candidate(writes, write, close, i) <==> close[i] && writes[i].window == write.window
            && !writes[i].matched && writes[i].ms <= write.ms + 500 && write.ms <= writes[i].ms
            + 500,
{
}

/// No other live write that may be the counterpart is nearer in time, nor as near and
/// earlier in the trace.
pub proof fn the_nearest_is_the_counterpart<F>(
    writes: Seq<LiveWrite>,
    write: ReplayWrite<F>,
    close: Seq<bool>,
    i: int,
    j: int,
)
    requires
        reproduced(writes, write, close, i),
        0 <= j < writes.len(),
        close[j] && writes[j].window == write.window && !writes[j].matched && apart(
            writes[j].ms,
            write.ms,
        ) <= 500,
    ensures
        0 <= i < writes.len(),
        close[i] && writes[i].window == write.window && !writes[i].matched,
        apart(writes[i].ms, write.ms) <= apart(writes[j].ms, write.ms),
        j < i ==> apart(writes[i].ms, write.ms) < apart(writes[j].ms, write.ms),
{
    assert(candidate(writes, write, close, j));
}

/// A live write that is named as near is to the same window, within half a second and not
/// reproduced, and none before it is.
pub proof fn what_is_named_as_near<F>(
    writes: Seq<LiveWrite>,
    write: ReplayWrite<F>,
    at: usize,
    i: int,
)
    requires
        0 <= i < writes.len(),
    ensures
        first_near(writes, write, Some(at)) ==> at < writes.len() && !writes[at as int].matched
            && writes[at as int].window == write.window && apart(writes[at as int].ms, write.ms)
            <= 500,
        first_near(writes, write, Some(at)) && i < at ==> writes[i].matched || writes[i].window
            != write.window || apart(writes[i].ms, write.ms) > 500,
        first_near(writes, write, None) ==> writes[i].matched || writes[i].window != write.window
            || apart(writes[i].ms, write.ms) > 500,
{
}

proof fn lemma_first_overdue(writes: Seq<LiveWrite>, ms: u64, from: int, at: int)
    requires
        0 <= from <= at <= writes.len(),
        at < writes.len() ==> overdue(writes[at], ms),
        forall|i: int| from <= i < at ==> !overdue(#[trigger] writes[i], ms),
    ensures
        at < writes.len() ==> first_overdue(writes, ms, from) == Some(at),
        at == writes.len() ==> first_overdue(writes, ms, from) is None,
    decreases writes.len() - from,
{
    if from < at {
        assert(!overdue(writes[from], ms));
        lemma_first_overdue(writes, ms, from + 1, at);
    }
}

/// The first live write that was due more than half a second ago and has no counterpart
/// parts the runs, unless they have parted; without one nothing changes.
pub proof fn when_time_parts_the_runs<F>(
    report: ReplayReport<F>,
    writes: Seq<LiveWrite>,
    ms: u64,
    line: usize,
    at: int,
)
    requires
        0 <= at <= writes.len(),
        at < writes.len() ==> !writes[at].matched && writes[at].ms + 500 < ms,
        forall|i: int|
            0 <= i < at ==> (#[trigger] writes[i]).matched || writes[i].ms + 500 >= ms,
    ensures
        ({
            let after = time_passed(report, writes, ms, line);
            &&& at == writes.len() || report.diverged is Some ==> after == report
            &&& at < writes.len() && report.diverged is None ==> after.diverged == Some(
                Divergence::<F>::OnlyLive { line, ms, live: at as usize },
            )
            &&& after.violations == report.violations && after.writes == report.writes
                && after.events == report.events
        }),
{
    assert forall|i: int| 0 <= i < at implies !overdue(#[trigger] writes[i], ms) by {
        assert(writes[i].matched || writes[i].ms + 500 >= ms);
    }
    lemma_first_overdue(writes, ms, 0, at);
}

/// A report of a frame parts the runs if it acknowledges a write and the replay made none,
/// or another one; unless they have parted.
pub proof fn when_an_acknowledgement_parts_the_runs<F>(
    report: ReplayReport<F>,
    sent: Option<F>,
    line: usize,
    ms: u64,
    window: WindowId,
    frame: F,
    echoes: bool,
    requested: bool,
)
    ensures
        acknowledged(report, sent, line, ms, window, frame, false, echoes) == report,
        report.diverged is Some ==> acknowledged(
            report,
            sent,
            line,
            ms,
            window,
            frame,
            requested,
            echoes,
        ) == report,
        sent is Some ==> acknowledged(report, sent, line, ms, window, frame, true, true) == report,
        report.diverged is None ==> acknowledged(
            report,
            sent,
            line,
            ms,
            window,
            frame,
            true,
            false,
        ).diverged == Some(Divergence::Acknowledged { line, ms, window, frame, sent }),
        report.diverged is None ==> acknowledged(
            report,
            None,
            line,
            ms,
            window,
            frame,
            true,
            echoes,
        ).diverged == Some(
            Divergence::Acknowledged { line, ms, window, frame, sent: None::<F> },
        ),
{
}

/// A write of the replay is remembered, unless it only moves its window. Where the window
/// is there, or the runs have parted, no more comes of it; where it has a counterpart that
/// one is matched off and no other; where it has none the runs part.
pub proof fn what_comes_of_a_write<F: Copy>(
    live: LiveWrites<F>,
    after: LiveWrites<F>,
    write: ReplayWrite<F>,
    found: WriteMatch,
    before: ReplayReport<F>,
    report: ReplayReport<F>,
    i: int,
    k: int,
)
    requires
        live.matched_off(after, write, found, before, report),
        0 <= k < live.writes@.len(),
    ensures
        found.position_only ==> after.last_replay@ == live.last_replay@,
        !found.position_only ==> after.last_replay@.contains_key(write.window)
            && after.last_replay@[write.window] == write.frame,
        after.reported == live.reported,
        after.writes@.len() == live.writes@.len(),
        before.diverged is Some || (live.reported@.contains_key(write.window) && found.stays)
            ==> after.writes@ == live.writes@ && report == before,
        ({
            let counts = before.diverged is None && !(live.reported@.contains_key(write.window)
                && found.stays);
            let may = candidate(live.writes@, write, found.close@, i);
            &&& counts && may ==> report == before
            &&& counts && reproduced(live.writes@, write, found.close@, i)
                ==> after.writes@[i].matched && (k != i ==> after.writes@[k] == live.writes@[k])
            &&& counts && (forall|j: int| !candidate(live.writes@, write, found.close@, j))
                ==> after.writes@ == live.writes@ && report.diverged is Some
                && report.diverged->0 is OnlyReplay && report.violations == before.violations
        }),
{
    let counts = before.diverged is None && !(live.reported@.contains_key(write.window)
        && found.stays);
    if counts && exists|j: int| candidate(live.writes@, write, found.close@, j) {
        let j = choose|j: int| #[trigger]
            reproduced(live.writes@, write, found.close@, j) && after.writes@
                == live.writes@.update(j, LiveWrite { matched: true, ..live.writes@[j] });
        assert(reproduced(live.writes@, write, found.close@, j));
        if reproduced(live.writes@, write, found.close@, i) {
            assert(candidate(live.writes@, write, found.close@, i));
            assert(candidate(live.writes@, write, found.close@, j));
        }
    }
}

/// The windows the user was moving are those that moved with the button down and the one
/// in the hand.
pub proof fn who_was_moved<F>(checker: Checker<F>, in_drag: Option<WindowId>, window: WindowId)
    ensures
        moved_windows(checker, in_drag).contains(window) <==> checker.moved_by_user@.contains(window)
            || in_drag == Some(window),
{
}

/// One more write with the button down is a violation if its window was in the hand, and
/// none if it was not.
pub proof fn which_writes_are_judged<F>(
    writes: Seq<ReplayWrite<F>>,
    write: ReplayWrite<F>,
    moved: Set<WindowId>,
)
    ensures
        moved.contains(write.window) ==> writes.push(write).filter_map(under_the_hand(moved))
            == writes.filter_map(under_the_hand(moved)).push(
            ViolationText::ButtonDown {
                line: write.event_index,
                window: write.window,
                frame: write.frame,
            },
        ),
        !moved.contains(write.window) ==> writes.push(write).filter_map(under_the_hand(moved))
            == writes.filter_map(under_the_hand(moved)),
{
    crate::lists::lemma_filter_map_push(writes, write, under_the_hand(moved));
}

/// A release ends the drag. One of a button that was down begins a new epoch, forgets who
/// moved and what was written, and keeps the windows that were dropped, with the line.
pub proof fn what_a_release_does<F: Copy>(
    checker: Checker<F>,
    after: Checker<F>,
    in_drag: Option<WindowId>,
    before: ReplayReport<F>,
    report: ReplayReport<F>,
    window: WindowId,
)
    requires
        checker.released(after, in_drag, before, report),
        checker.epoch < usize::MAX,
    ensures
        after.dragging is None,
        after.button_down_writes is None,
        after.last_write == checker.last_write,
        after.reported == checker.reported,
        after.last_command == checker.last_command,
        checker.button_down_writes is None ==> report == before && after.epoch == checker.epoch
            && after.recent_drop == checker.recent_drop,
        checker.button_down_writes is Some ==> {
            &&& after.epoch == checker.epoch + 1
            &&& !after.moved_by_user@.contains(window)
            &&& after.recent_drop is Some
            &&& after.recent_drop->0.index == checker.index
            &&& after.recent_drop->0.windows@.contains(window) <==> (
            checker.moved_by_user@.contains(window) || in_drag == Some(window))
            &&& before.with_violations(
                report,
                checker.button_down_writes->0@.filter_map(
                    under_the_hand(moved_windows(checker, in_drag)),
                ),
            )
        },
{
}

/// A report of a frame is noted; with the button down its window is in the hand, and what
/// is written from the first of them on is kept. A drag keeps it too. A command begins a
/// new epoch and is noted with its line. Nothing else is.
pub proof fn what_is_noted<F: Copy>(
    checker: Checker<F>,
    after: Checker<F>,
    event: CheckedEvent<F>,
    in_drag: Option<WindowId>,
    before: ReplayReport<F>,
    report: ReplayReport<F>,
    other: WindowId,
)
    requires
        checker.noted(after, event, in_drag, before, report),
        checker.epoch < usize::MAX,
        !(event is Released),
    ensures
        report == before,
        after.last_write == checker.last_write,
        after.recent_drop == checker.recent_drop,
        (event matches CheckedEvent::Report { window, frame, mouse } ==> {
            &&& after.reported@.contains_key(window) && after.reported@[window] == frame
            &&& other != window && checker.reported@.contains_key(other)
                ==> after.reported@.contains_key(other) && after.reported@[other]
                == checker.reported@[other]
            &&& after.epoch == checker.epoch
            &&& mouse == Some(MouseState::Down) ==> after.dragging == Some(window)
                && after.moved_by_user@ == checker.moved_by_user@.insert(window)
                && after.button_down_writes is Some
            &&& mouse != Some(MouseState::Down) ==> after.dragging == checker.dragging
                && after.moved_by_user == checker.moved_by_user && after.button_down_writes
                == checker.button_down_writes
        }),
        event is Dragged ==> after.button_down_writes is Some && after.dragging == checker.dragging
            && after.epoch == checker.epoch && after.reported == checker.reported,
        after.button_down_writes is Some && checker.button_down_writes is Some
            ==> after.button_down_writes->0@ == checker.button_down_writes->0@,
        after.button_down_writes is Some && checker.button_down_writes is None
            ==> after.button_down_writes->0@.len() == 0,
        event is Command ==> after.epoch == checker.epoch + 1 && after.last_command == Some(
            checker.index,
        ) && after.dragging == checker.dragging && after.reported == checker.reported
            && after.button_down_writes == checker.button_down_writes,
        !(event is Command) ==> after.last_command == checker.last_command,
        event is Other ==> after == checker,
{
}

/// A write is on a command's behalf up to two lines after it, and part of a drop if it
/// finishes one or comes up to two lines after one of its window.
pub proof fn what_excuses_a_write<F: Copy>(
    checker: Checker<F>,
    write: ReplayWrite<F>,
    facts: WriteFacts,
)
    ensures
        checker.last_command is None ==> !checker.commanded(write),
        checker.last_command is Some ==> checker.commanded(write) == (write.event_index
            <= checker.last_command->0 + 2),
        facts.finishes_drop ==> checker.dropped(write, facts),
        !facts.finishes_drop && checker.recent_drop is None ==> !checker.dropped(write, facts),
        !facts.finishes_drop && checker.recent_drop is Some ==> checker.dropped(write, facts) == (
        checker.recent_drop->0.windows@.contains(write.window) && write.event_index
            <= checker.recent_drop->0.index + 2),
{
}

/// Each rule has at most one violation by a write, and it comes just where the rule is
/// broken: a frame under the hand; an empty frame; another frame for a float, unasked; and
/// another display within a second and a half in the same epoch.
pub proof fn which_rules_a_write_breaks<F: Copy>(
    checker: Checker<F>,
    write: ReplayWrite<F>,
    facts: WriteFacts,
)
    ensures
        checker.dragging == Some(write.window) ==> checker.drag_violation(write, facts) == seq![
            ViolationText::WhileDragging {
                line: write.event_index,
                window: write.window,
                frame: write.frame,
                in_drag: facts.in_drag,
            },
        ],
        checker.dragging != Some(write.window) ==> checker.drag_violation(write, facts).len() == 0,
        facts.empty ==> checker.empty_violation(write, facts) == seq![
            ViolationText::EmptyFrame {
                line: write.event_index,
                window: write.window,
                frame: write.frame,
            },
        ],
        !facts.empty ==> checker.empty_violation(write, facts).len() == 0,
        ({
            let moved = facts.floating && facts.differs && checker.reported@.contains_key(
                write.window,
            ) && !facts.position_only;
            let excused = checker.commanded(write) || checker.dropped(write, facts);
            &&& moved && !excused ==> checker.float_violation(write, facts) == seq![
                ViolationText::FloatMoved {
                    line: write.event_index,
                    window: write.window,
                    frame: write.frame,
                    reported: checker.reported@[write.window],
                },
            ]
            &&& !moved || excused ==> checker.float_violation(write, facts).len() == 0
        }),
        ({
            let last = checker.last_write.at(write.window);
            let bounced = !facts.position_only && facts.display is Some && last is Some
                && last->0.epoch == checker.epoch && last->0.display != facts.display->0 && write.ms
                <= last->0.ms + 1500;
            &&& bounced ==> checker.bounce_violation(write, facts) == seq![
                ViolationText::<F>::Bounced {
                    line: write.event_index,
                    window: write.window,
                    from: last->0.display,
                    to: facts.display->0,
                    since: last->0.ms,
                    ms: write.ms,
                },
            ]
            &&& !bounced ==> checker.bounce_violation(write, facts).len() == 0
        }),
        checker.write_violations(write, facts) == checker.drag_violation(write, facts)
            + checker.empty_violation(write, facts) + checker.float_violation(write, facts)
            + checker.bounce_violation(write, facts),
{
}

/// A write is kept with those since the button went down, unless it was judged at once;
/// and where it puts its window on a display that is noted, with the time and the epoch.
pub proof fn what_is_kept_of_a_write<F: Copy>(
    checker: Checker<F>,
    after: Checker<F>,
    write: ReplayWrite<F>,
    facts: WriteFacts,
)
    requires
        checker.entered(after, write, facts),
        checker.wf(),
        after.wf(),
    ensures
        checker.button_down_writes is None ==> after.button_down_writes is None,
        checker.button_down_writes is Some && checker.dragging == Some(write.window)
            ==> after.button_down_writes is Some && after.button_down_writes->0@
            == checker.button_down_writes->0@,
        checker.button_down_writes is Some && checker.dragging != Some(write.window)
            ==> after.button_down_writes is Some && after.button_down_writes->0@
            == checker.button_down_writes->0@.push(write),
        facts.position_only || facts.display is None ==> after.last_write@ == checker.last_write@,
        !facts.position_only && facts.display is Some ==> after.last_write@ == checker.last_write@.insert(
            write.window,
            LastWrite { ms: write.ms, display: facts.display->0, epoch: checker.epoch },
        ),
        after.epoch == checker.epoch && after.dragging == checker.dragging && after.reported
            == checker.reported && after.recent_drop == checker.recent_drop && after.last_command
            == checker.last_command && after.places == checker.places,
{
}

/// A window is seen where it was if it was seen before, floating or not as it is now and in
/// the same trees; and one more window adds a change if it was not.
pub proof fn which_changes_are_noted(
    places: Table<WindowId, WindowPlaces>,
    line: usize,
    reports: Seq<PlaceReport>,
    report: PlaceReport,
)
    ensures
        ({
            let before = places.at(report.window);
            let stays = before is Some && before->0.floating == report.floating
                && before->0.tiled@ == report.tiled@;
            &&& stays ==> reports.push(report).filter_map(place_change(places, line))
                == reports.filter_map(place_change(places, line))
            &&& !stays ==> reports.push(report).filter_map(place_change(places, line))
                == reports.filter_map(place_change(places, line)).push(
                ChangeText::Moved {
                    line,
                    window: report.window,
                    floating: report.floating,
                    tiled: report.tiled@,
                },
            )
        }),
{
    crate::lists::lemma_filter_map_push(reports, report, place_change(places, line));
}

/// One more window adds a violation if it is in two trees, and one if it floats in a tree.
pub proof fn which_places_break_the_rule<F>(
    reports: Seq<PlaceReport>,
    report: PlaceReport,
    line: usize,
)
    ensures
        place_violations::<F>(Seq::empty(), line).len() == 0,
        ({
            let before = place_violations::<F>(reports, line);
            let after = place_violations::<F>(reports.push(report), line);
            let tiled = report.tiled@;
            let window = report.window;
            let two = ViolationText::<F>::TwoTrees { line, window, tiled };
            let both = ViolationText::<F>::FloatingAndTiled { line, window, tiled };
            &&& tiled.len() == 0 ==> after == before
            &&& tiled.len() == 1 && !report.floating ==> after == before
            &&& tiled.len() == 1 && report.floating ==> after == before.push(both)
            &&& tiled.len() > 1 && !report.floating ==> after == before.push(two)
            &&& tiled.len() > 1 && report.floating ==> after == before.push(two).push(both)
        }),
{
    assert(reports.push(report).drop_last() =~= reports);
}

/// After an event every window that was reported is remembered where it is, every other
/// where it was, with the line; and what was written is left as it is.
pub proof fn what_is_remembered_of_places<F: Copy>(
    checker: Checker<F>,
    after: Checker<F>,
    line: usize,
    places: Seq<PlaceReport>,
    before: ReplayReport<F>,
    report: ReplayReport<F>,
    i: int,
    other: WindowId,
)
    requires
        checker.looked_at(after, line, places, before, report),
        0 <= i < places.len(),
        forall|k: int| 0 <= k < places.len() ==> (#[trigger] places[k]).window != other,
    ensures
        after.index == line,
        after.places.at(places[i].window) is Some,
        after.places.at(places[i].window)->0.floating == places[i].floating,
        after.places.at(places[i].window)->0.tiled@ == places[i].tiled@,
        after.places.at(other) == checker.places.at(other),
        after.epoch == checker.epoch && after.dragging == checker.dragging && after.last_write
            == checker.last_write && after.last_command == checker.last_command,
        report.writes == before.writes && report.diverged == before.diverged,
{
    assert(seen_at(after.places, places[i]));
    assert(!reports_on(places, other));
}

/// A title is kept up to its twentieth character.
pub proof fn how_much_of_a_title_is_kept(title: Seq<char>)
    ensures
        title.len() <= 20 ==> title_start(title) == title,
        title.len() > 20 ==> title_start(title).len() == 20,
        forall|i: int|
            0 <= i < title_start(title).len() ==> title_start(title)[i] == #[trigger] title[i],
{
}

/// A window is entered at the end as it is, with those of its trees that are of active
/// desktops.
pub proof fn how_a_window_is_entered(
    entered: FinalWindow,
    window: FinalWindow,
    spaces: Seq<SpaceId>,
    space: SpaceId,
)
    requires
        ends_as(entered, window, spaces),
    ensures
        entered.window == window.window,
        entered.admitted == window.admitted,
        entered.floating == window.floating,
        entered.title@.len() <= 20,
        entered.tiled@.contains(space) <==> spaces.contains(space) && window.tiled@.contains(space),
{
    crate::lists::lemma_filter_holds(spaces, among(window.tiled@), space);
}

/// Before an event is judged, time may have parted the runs; and where they had not parted
/// a report of a frame may.
pub proof fn what_is_told_before_an_event<F: Copy>(
    replay: Replay<F>,
    step: ReplayEvent<F>,
    window: WindowId,
    frame: F,
    mouse: Option<MouseState>,
)
    ensures
        ({
            let passed = time_passed(replay.report, replay.live.writes@, step.ms, step.line);
            &&& !(step.event is Report) ==> replay.told(step) == passed
            &&& step.event is Report && passed.diverged is Some ==> replay.told(step) == passed
            &&& step.event is Report && !step.requested ==> replay.told(step) == passed
            &&& step.event == (CheckedEvent::Report { window, frame, mouse }) && step.requested
                && passed.diverged is None && !(step.echoes && replay.live.last_replay.at(window)
                is Some) ==> replay.told(step).diverged == Some(
                Divergence::Acknowledged {
                    line: step.line,
                    ms: step.ms,
                    window,
                    frame,
                    sent: replay.live.last_replay.at(window),
                },
            )
        }),
{
}

/// Requests of a kind count as often as was entered, and not at all where nothing was; and
/// all kinds together make the number of requests.
pub proof fn how_requests_are_counted<F>(
    report: ReplayReport<F>,
    kind: Seq<char>,
    kinds: Seq<(String, usize)>,
    one: (String, usize),
)
    ensures
        report.request_kinds.at(kind) is None ==> report.count_of(kind) == 0,
        report.request_kinds.at(kind) is Some ==> report.count_of(kind) == report.request_kinds.at(
            kind,
        )->0,
        counted(Seq::empty()) == 0,
        counted(kinds.push(one)) == counted(kinds) + one.1,
        report.counts_kinds() ==> counted(report.request_kinds.entries@) == report.requests,
{
    assert(kinds.push(one).drop_last() =~= kinds);
}

} // verus!
