//! Keeps a display's layout while the display is away.
//!
//! When a display departs, its layout is kept together with the windows that
//! were on it. What happens to those windows meanwhile is a setting. When a
//! display with the same UUID reappears, the windows are sent home and the
//! layout is put back (see `homing`).

use vstd::prelude::*;

use crate::clock::{earlier, elapsed, Nanos};
use crate::departure::{display_views, DisplayView, LayoutSnapshot};
use crate::display_record::{DepartureSnapshot, DisplayRecord, RecordedDisplay};
use crate::ids::{SpaceId, WindowId, WindowServerId};
use crate::lists::{append_list, copy_list, drop_listed, holds, not_among};
use crate::screens::{
    all_listed, all_of, desktops_on, is_on_screen, listed_under, on_screen, Listing, Screen,
};
use crate::table::Table;
use crate::text::{begins, starts_with};

verus! {

/// How long to wait for exiled windows to arrive on the returned display
/// before restoring the layout with whatever has landed.
pub const HOMING_DEADLINE: Nanos = 3_000_000_000;

/// How long a pre-churn snapshot stays usable.
pub const PRE_CHURN_TTL: Nanos = 10_000_000_000;

/// What becomes of a departed display's windows.
#[derive(Clone, Copy, Debug, PartialEq, Eq, Structural)]
pub enum DisplacedWindows {
    /// They stay on their own desktops.
    Spaces,
    /// They go onto the survivor's own desktop as floats.
    Float,
    /// They are clustered into the survivor's tree.
    Tile,
}

#[derive(Debug)]
pub struct DisplayArchive {
    pub entries: Table<String, ArchivedDisplay>,
    /// The layout as it was just before the window server started moving
    /// windows between desktops on its own.
    pub pre_churn: Option<PreChurn>,
    /// Where everything was at departure, reconciled at return.
    pub record: Option<DisplayRecord>,
    /// Made desktops that could not be destroyed yet because a display was
    /// still showing them, with when they were first tried.
    pub retiring: Vec<(SpaceId, Nanos)>,
    /// The last record's layout, kept after its return.
    pub last_departure: Option<DepartureSnapshot>,
    /// The displays as the window server last reported them whole.
    pub whole_displays: Option<Vec<RecordedDisplay>>,
    /// The system has woken since the record was last settled.
    pub recheck_after_wake: bool,
}

/// A snapshot from before the window server started moving windows.
#[derive(Debug)]
pub struct PreChurn {
    pub snapshot: LayoutSnapshot,
    pub taken: Nanos,
    /// Kept past its time: the displays have not been reported whole since.
    pub pinned: bool,
}

#[derive(Debug)]
pub struct ArchivedDisplay {
    /// The desktop the display showed when it departed.
    pub space: SpaceId,
    /// The layout at departure, before any window was touched.
    pub snapshot: String,
    /// The windows that were on the display, in layout order.
    pub windows: Vec<ExiledWindow>,
    /// Whether the displaced windows have been arranged on the survivor.
    pub settled: bool,
    /// Where the windows were sent when another display took over the desktop.
    pub parked_on: Option<SpaceId>,
    /// The display whose return this one waits for.
    pub waiting_for: Option<String>,
    /// The display's desktops when it departed.
    pub desktops: Vec<SpaceId>,
    pub homing: Option<Homing>,
}

#[derive(Clone, Copy, Debug, PartialEq, Eq, Structural)]
pub struct ExiledWindow {
    pub wid: WindowId,
    pub wsid: Option<WindowServerId>,
    /// The user's own choice before it was overridden to float.
    pub user_floating: Option<bool>,
    pub was_tiled: bool,
}

#[derive(Debug)]
pub struct Homing {
    pub space: SpaceId,
    /// The desktop the snapshot has the layout under.
    pub from: SpaceId,
    /// Windows asked to move home that have not been seen there, with the
    /// desktop each was sent to.
    pub waiting: Table<WindowId, SpaceId>,
    pub started: Nanos,
}

impl ArchivedDisplay {
    pub open spec fn wf(&self) -> bool {
        self.homing matches Some(homing) ==> homing.waiting.wf()
    }

    /// The archive holds `wid` for this display.
    pub open spec fn exiles(&self, wid: WindowId) -> bool {
        exiled(self.windows@, wid)
    }
}

/// `wid` is one of `windows`.
pub open spec fn exiled(windows: Seq<ExiledWindow>, wid: WindowId) -> bool {
    exists|i: int| 0 <= i < windows.len() && (#[trigger] windows[i]).wid == wid
}

/// Whether `wid` is one of `windows`.
pub fn is_exiled(windows: &Vec<ExiledWindow>, wid: WindowId) -> (there: bool)
    ensures
        there == exiled(windows@, wid),
{
    let mut i: usize = 0;
    while i < windows.len()
        invariant
            i <= windows@.len(),
            forall|j: int| 0 <= j < i ==> (#[trigger] windows@[j]).wid != wid,
        decreases windows@.len() - i,
    {
        if windows[i].wid == wid {
            assert(windows@[i as int].wid == wid);
            return true;
        }
        i = i + 1;
    }
    false
}

/// Being another window than `wid`.
pub open spec fn other_window(wid: WindowId) -> spec_fn(ExiledWindow) -> bool {
    |window: ExiledWindow| window.wid != wid
}

fn without_window(windows: &Vec<ExiledWindow>, wid: WindowId) -> (rest: Vec<ExiledWindow>)
    ensures
        rest@ == windows@.filter(other_window(wid)),
{
    let mut rest: Vec<ExiledWindow> = Vec::new();
    let mut i: usize = 0;
    while i < windows.len()
        invariant
            i <= windows@.len(),
            rest@ == windows@.take(i as int).filter(other_window(wid)),
        decreases windows@.len() - i,
    {
        proof {
            assert(windows@.take(i + 1) =~= windows@.take(i as int).push(windows@[i as int]));
            windows@.take(i as int).lemma_filter_push(windows@[i as int], other_window(wid));
        }
        if windows[i].wid != wid {
            rest.push(windows[i]);
        }
        i = i + 1;
    }
    assert(windows@.take(i as int) =~= windows@);
    rest
}

/// Fallback ids are not identities: the number in one is given out again on
/// every reconnect.
pub open spec fn stable_uuid(uuid: Seq<char>) -> bool {
    !begins(uuid, "cgdisplay-"@)
}

/// Whether a layout filed under `uuid` can be found again.
pub fn is_stable_display_uuid(uuid: &str) -> (stable: bool)
    ensures
        stable == stable_uuid(uuid@),
{
    !starts_with(uuid, "cgdisplay-")
}

/// Of the departed displays, those with an id that lasts.
pub open spec fn stable_names(names: Seq<String>) -> Seq<Seq<char>>
    decreases names.len(),
{
    if names.len() == 0 {
        seq![]
    } else if stable_uuid(names.last()@) {
        stable_names(names.drop_last()).push(names.last()@)
    } else {
        stable_names(names.drop_last())
    }
}

/// What the strings read.
pub open spec fn texts(names: Seq<String>) -> Seq<Seq<char>> {
    names.map_values(|name: String| name@)
}

/// Of the departed displays, those with an id that lasts.
pub fn stable_departed(departed: &[String]) -> (stable: Vec<String>)
    ensures
        texts(stable@) == stable_names(departed@),
{
    let mut stable: Vec<String> = Vec::new();
    let mut i: usize = 0;
    assert(texts(stable@) =~= stable_names(departed@.take(0)));
    while i < departed.len()
        invariant
            i <= departed@.len(),
            texts(stable@) == stable_names(departed@.take(i as int)),
        decreases departed@.len() - i,
    {
        proof {
            assert(departed@.take(i + 1).drop_last() =~= departed@.take(i as int));
            assert(departed@.take(i + 1).last() == departed@[i as int]);
        }
        if is_stable_display_uuid(departed[i].as_str()) {
            let ghost before = stable@;
            stable.push(departed[i].clone());
            assert(texts(stable@) =~= texts(before).push(departed@[i as int]@));
        }
        i = i + 1;
    }
    assert(departed@.take(i as int) =~= departed@);
    stable
}

impl PreChurn {
    /// Still usable: pinned, or young enough.
    pub open spec fn fresh(&self, now: Nanos) -> bool {
        self.pinned || elapsed(now, self.taken) < PRE_CHURN_TTL
    }
}

impl DisplayArchive {
    pub open spec fn wf(&self) -> bool {
        &&& self.entries.wf()
        &&& forall|uuid: Seq<char>|
            (#[trigger] self.entries.at(uuid)) matches Some(entry) ==> entry.wf()
        &&& self.pre_churn matches Some(pre) ==> pre.snapshot.wf()
        &&& self.record matches Some(record) ==> record.wf()
        &&& self.last_departure matches Some(kept) ==> kept.ids.wf()
    }

    /// The pre-churn snapshot, while it is usable.
    pub open spec fn fresh(&self, now: Nanos) -> Option<PreChurn> {
        match self.pre_churn {
            Some(pre) if pre.fresh(now) => Some(pre),
            _ => None,
        }
    }

    pub fn new() -> (archive: DisplayArchive)
        ensures
            archive.wf(),
            archive.entries@ == Map::<Seq<char>, ArchivedDisplay>::empty(),
            archive.pre_churn is None,
            archive.record is None,
            archive.retiring@.len() == 0,
            archive.last_departure is None,
            archive.whole_displays is None,
            !archive.recheck_after_wake,
    {
        DisplayArchive {
            entries: Table::new(),
            pre_churn: None,
            record: None,
            retiring: Vec::new(),
            last_departure: None,
            whole_displays: None,
            recheck_after_wake: false,
        }
    }

    /// Whether nothing is kept for a return.
    pub fn is_empty(&self) -> (empty: bool)
        requires
            self.wf(),
        ensures
            empty == (self.record is None && forall|uuid: Seq<char>|
                (#[trigger] self.entries.at(uuid)) is None),
    {
        proof {
            if self.entries.entries@.len() > 0 {
                self.entries.lemma_at(0);
                assert(self.entries.at(self.entries.entries@[0].0@) is Some);
            } else {
                assert forall|uuid: Seq<char>| (#[trigger] self.entries.at(uuid)) is None by {
                    if self.entries@.contains_key(uuid) {
                        assert(self.entries.has_at(self.entries.index_of(uuid), uuid));
                    }
                }
            }
        }
        self.entries.entries.len() == 0 && self.record.is_none()
    }

    pub fn has(&self, display_uuid: &String) -> (present: bool)
        requires
            self.wf(),
        ensures
            present == (self.entries.at(display_uuid@) is Some),
    {
        self.entries.contains_key(display_uuid)
    }

    /// The windows kept for a display, in layout order.
    pub fn archived_windows(&self, display_uuid: &String) -> (wids: Vec<WindowId>)
        requires
            self.wf(),
        ensures
            wids@ == match self.entries.at(display_uuid@) {
                Some(entry) => entry.windows@.map_values(|window: ExiledWindow| window.wid),
                None => seq![],
            },
    {
        let mut wids: Vec<WindowId> = Vec::new();
        match self.entries.get(display_uuid) {
            Some(entry) => {
                let ghost all = entry.windows@.map_values(|window: ExiledWindow| window.wid);
                let mut i: usize = 0;
                while i < entry.windows.len()
                    invariant
                        all == entry.windows@.map_values(|window: ExiledWindow| window.wid),
                        i <= entry.windows@.len(),
                        wids@ == all.take(i as int),
                    decreases entry.windows@.len() - i,
                {
                    wids.push(entry.windows[i].wid);
                    assert(wids@ =~= all.take(i + 1));
                    i = i + 1;
                }
                assert(all.take(i as int) =~= all);
            },
            None => {},
        }
        wids
    }

    pub fn is_homing(&self, display_uuid: &String) -> (homing: bool)
        requires
            self.wf(),
        ensures
            homing == (self.entries.at(display_uuid@) matches Some(entry) && entry.homing is Some),
    {
        match self.entries.get(display_uuid) {
            Some(entry) => entry.homing.is_some(),
            None => false,
        }
    }

    /// Whether a display's layout can be put back: one that waits for another
    /// display's return only once that one is on screen.
    pub fn is_ready(&self, display_uuid: &String, screens: &[Screen]) -> (ready: bool)
        requires
            self.wf(),
        ensures
            ready == match self.entries.at(display_uuid@) {
                Some(entry) => match entry.waiting_for {
                    Some(waited) => on_screen(screens@, waited@),
                    None => true,
                },
                None => true,
            },
    {
        match self.entries.get(display_uuid) {
            Some(entry) => match &entry.waiting_for {
                Some(waited) => is_on_screen(screens, waited),
                None => true,
            },
            None => true,
        }
    }

    /// The pre-churn snapshot, while it is usable.
    pub fn fresh_pre_churn(&self, now: Nanos) -> (pre: Option<&PreChurn>)
        ensures
            match pre {
                Some(pre) => self.fresh(now) == Some(*pre),
                None => self.fresh(now) is None,
            },
    {
        match &self.pre_churn {
            Some(pre) => if pre.pinned || elapsed(now, pre.taken) < PRE_CHURN_TTL {
                Some(pre)
            } else {
                None
            },
            None => None,
        }
    }

    /// `kept` is the layout to keep of a desktop that is going away, `current`
    /// being the layout as it is now: the one from before the churn, while it
    /// is usable, else `current`.
    pub open spec fn keeps_layout(
        &self,
        now: Nanos,
        current: Option<String>,
        kept: Option<String>,
    ) -> bool {
        match self.fresh(now) {
            Some(pre) => kept matches Some(kept) && kept@ == pre.snapshot.layout@,
            None => kept == current,
        }
    }

    /// The layout to keep of a desktop that is going away: the one from before
    /// the churn, while it is usable, else the one of now.
    pub fn layout_for_departure(&self, now: Nanos, current: Option<String>) -> (kept: Option<
        String,
    >)
        ensures
            self.keeps_layout(now, current, kept),
    {
        match self.fresh_pre_churn(now) {
            Some(pre) => Some(pre.snapshot.layout.clone()),
            None => current,
        }
    }

    /// The layouts to keep when a display goes away: those from before the
    /// churn, while they are usable, else those of now.
    pub fn snapshot_for_departure(&self, now: Nanos, current: Option<LayoutSnapshot>) -> (kept:
        Option<LayoutSnapshot>)
        requires
            self.wf(),
        ensures
            match self.fresh(now) {
                Some(pre) => kept matches Some(kept) && kept.wf() && kept.same_as(pre.snapshot),
                None => kept == current,
            },
    {
        match self.fresh_pre_churn(now) {
            Some(pre) => Some(pre.snapshot.copy()),
            None => current,
        }
    }

    /// Makes the pre-churn snapshot older than it is.
    pub fn backdate_pre_churn(&mut self, by: Nanos)
        ensures
            final(self).pre_churn == match old(self).pre_churn {
                Some(pre) => Some(PreChurn { taken: earlier(pre.taken, by), ..pre }),
                None => None,
            },
            *final(self) == (DisplayArchive { pre_churn: final(self).pre_churn, ..*old(self) }),
    {
        let mut pre: Option<PreChurn> = None;
        std::mem::swap(&mut pre, &mut self.pre_churn);
        match pre {
            Some(pre) => {
                let taken = earlier(pre.taken, by);
                self.pre_churn = Some(
                    PreChurn { snapshot: pre.snapshot, taken, pinned: pre.pinned },
                );
            },
            None => {},
        }
    }

    /// Whether any display is on its way home.
    pub fn any_homing(&self) -> (any: bool)
        requires
            self.wf(),
        ensures
            any == exists|uuid: Seq<char>|
                (#[trigger] self.entries.at(uuid)) matches Some(entry) && entry.homing is Some,
    {
        let mut i: usize = 0;
        while i < self.entries.entries.len()
            invariant
                self.wf(),
                i <= self.entries.entries@.len(),
                forall|j: int|
                    0 <= j < i ==> (#[trigger] self.entries.entries@[j]).1.homing is None,
            decreases self.entries.entries@.len() - i,
        {
            if self.entries.entries[i].1.homing.is_some() {
                proof {
                    self.entries.lemma_at(i as int);
                    assert(self.entries.at(self.entries.entries@[i as int].0@) is Some);
                }
                return true;
            }
            i = i + 1;
        }
        proof {
            assert forall|uuid: Seq<char>| !((#[trigger] self.entries.at(uuid)) matches Some(entry)
                && entry.homing is Some) by {
                if self.entries@.contains_key(uuid) {
                    let x = self.entries.index_of(uuid);
                    assert(self.entries.has_at(x, uuid));
                    assert(self.entries.entries@[x].1.homing is None);
                }
            }
        }
        false
    }

    pub fn record(&self) -> (record: Option<&DisplayRecord>)
        ensures
            match record {
                Some(record) => self.record == Some(*record),
                None => self.record is None,
            },
    {
        self.record.as_ref()
    }
}

/// The first of the displays on their way home that waits for `wid`, by the
/// desktop the window was sent to.
pub open spec fn homing_to(entries: Seq<(String, ArchivedDisplay)>, wid: WindowId) -> Option<SpaceId>
    decreases entries.len(),
{
    if entries.len() == 0 {
        None
    } else {
        let sent = match entries[0].1.homing {
            Some(homing) => homing.waiting.at(wid),
            None => None,
        };
        if sent is Some {
            sent
        } else {
            homing_to(entries.skip(1), wid)
        }
    }
}

impl DisplayArchive {
    /// The desktop `wid` has been sent home to and not yet seen on.
    pub open spec fn sent_home_to(&self, wid: WindowId) -> Option<SpaceId> {
        match homing_to(self.entries.entries@, wid) {
            Some(space) => Some(space),
            None => match self.record {
                Some(record) => match record.pass {
                    Some(pass) => pass.waiting.at(wid),
                    None => None,
                },
                None => None,
            },
        }
    }

    /// The desktop `wid` has been sent home to and not yet seen on, if it is
    /// one of the windows a returned display is waiting for.
    pub fn homing_destination(&self, wid: WindowId) -> (space: Option<SpaceId>)
        requires
            self.wf(),
        ensures
            space == self.sent_home_to(wid),
    {
        let mut i: usize = 0;
        let ghost entries = self.entries.entries@;
        assert(entries.skip(0) =~= entries);
        while i < self.entries.entries.len()
            invariant
                self.wf(),
                entries == self.entries.entries@,
                i <= entries.len(),
                homing_to(entries, wid) == homing_to(entries.skip(i as int), wid),
            decreases entries.len() - i,
        {
            proof {
                self.entries.lemma_at(i as int);
                assert(self.entries.at(entries[i as int].0@) is Some);
                assert(entries.skip(i as int).skip(1) =~= entries.skip(i + 1));
            }
            match &self.entries.entries[i].1.homing {
                Some(homing) => match homing.waiting.get(&wid) {
                    Some(space) => {
                        return Some(*space);
                    },
                    None => {},
                },
                None => {},
            }
            i = i + 1;
        }
        match &self.record {
            Some(record) => record.destination(wid),
            None => None,
        }
    }
}

/// The first display that is not on its way home and holds `wid`.
pub open spec fn first_holder(entries: Seq<(String, ArchivedDisplay)>, wid: WindowId, at: int) -> bool {
    &&& 0 <= at < entries.len()
    &&& entries[at].1.homing is None && entries[at].1.exiles(wid)
    &&& forall|i: int|
        0 <= i < at ==> !((#[trigger] entries[i]).1.homing is None && entries[i].1.exiles(wid))
}

/// The window `wid`, held by the display at `at`, is claimed by another.
pub open spec fn claims(
    archive: DisplayArchive,
    wid: WindowId,
    window: Option<ExiledWindow>,
    shown_on: Option<String>,
    at: int,
) -> bool {
    first_holder(archive.entries.entries@, wid, at) && window is Some && !(shown_on matches Some(uuid)
        && uuid@ == archive.entries.entries@[at].0@)
}

/// `after` is `before` once `window` has gone from the display `from` to the
/// one it is shown on.
pub open spec fn adopts(
    before: DisplayArchive,
    after: DisplayArchive,
    wid: WindowId,
    window: ExiledWindow,
    shown_on: Option<String>,
    from: Seq<char>,
) -> bool {
    &&& forall|uuid: Seq<char>|
        match (before.entries.at(uuid), #[trigger] after.entries.at(uuid)) {
            (Some(entry), Some(now)) => {
                &&& only_windows_changed(entry, now)
                &&& now.windows@ == if uuid == from {
                    entry.windows@.filter(other_window(wid))
                } else if shown_on matches Some(shown) && shown@ == uuid {
                    entry.windows@.filter(other_window(wid)).push(window)
                } else {
                    entry.windows@
                }
            },
            (None, None) => true,
            _ => false,
        }
    &&& after == (DisplayArchive { entries: after.entries, ..before })
}

/// `after` is `before` with other windows.
pub open spec fn only_windows_changed(before: ArchivedDisplay, after: ArchivedDisplay) -> bool {
    after == (ArchivedDisplay { windows: after.windows, ..before })
}

impl DisplayArchive {
    fn find_holder(&self, wid: WindowId) -> (holder: Option<usize>)
        ensures
            match holder {
                Some(at) => first_holder(self.entries.entries@, wid, at as int),
                None => forall|at: int| !first_holder(self.entries.entries@, wid, at),
            },
    {
        let mut i: usize = 0;
        while i < self.entries.entries.len()
            invariant
                i <= self.entries.entries@.len(),
                forall|j: int|
                    0 <= j < i ==> !((#[trigger] self.entries.entries@[j]).1.homing is None
                        && self.entries.entries@[j].1.exiles(wid)),
            decreases self.entries.entries@.len() - i,
        {
            if self.entries.entries[i].1.homing.is_none() && is_exiled(
                &self.entries.entries[i].1.windows,
                wid,
            ) {
                return Some(i);
            }
            i = i + 1;
        }
        None
    }

    /// Puts `windows` in the place of those the display at `at` had.
    fn set_windows(&mut self, at: usize, windows: Vec<ExiledWindow>)
        requires
            old(self).wf(),
            at < old(self).entries.entries@.len(),
        ensures
            final(self).wf(),
            final(self).entries@ == old(self).entries@.insert(
                old(self).entries.entries@[at as int].0@,
                (ArchivedDisplay { windows, ..old(self).entries.entries@[at as int].1 }),
            ),
            *final(self) == (DisplayArchive { entries: final(self).entries, ..*old(self) }),
    {
        let ghost before = self.entries;
        proof {
            self.entries.lemma_at(at as int);
            assert(self.entries.at(self.entries.entries@[at as int].0@) is Some);
        }
        let (uuid, mut entry) = self.entries.entries.remove(at);
        entry.windows = windows;
        let ghost now = entry;
        self.entries.entries.insert(at, (uuid, entry));
        proof {
            crate::table::lemma_set_value(before, self.entries, at as int, now);
            assert forall|uuid: Seq<char>|
                (#[trigger] self.entries.at(uuid)) matches Some(entry) ==> entry.wf() by {
                assert(before.at(uuid) == before.at(uuid));
            }
        }
    }

    /// An explicit command or drop on a displaced window while its display is
    /// away claims it for the display it is shown on: it is no longer sent
    /// back, and a display that is archived itself takes it along. `window` is
    /// what is known of it, and nothing happens when that is nothing.
    pub fn adopt_displaced_window(
        &mut self,
        wid: WindowId,
        window: Option<ExiledWindow>,
        shown_on: &Option<String>,
    )
        requires
            old(self).wf(),
        ensures
            final(self).wf(),
            (forall|at: int| !claims(*old(self), wid, window, *shown_on, at)) ==> *final(self)
                == *old(self),
            forall|at: int|
                claims(*old(self), wid, window, *shown_on, at) ==> adopts(
                    *old(self),
                    *final(self),
                    wid,
                    window->0,
                    *shown_on,
                    old(self).entries.entries@[at].0@,
                ),
    {
        let ghost begun = *self;
        let at = match self.find_holder(wid) {
            Some(at) => at,
            None => {
                return;
            },
        };
        proof {
            assert forall|other: int| #[trigger]
                first_holder(begun.entries.entries@, wid, other) implies other == at by {
                if other < at {
                    assert(!(begun.entries.entries@[other].1.homing is None
                        && begun.entries.entries@[other].1.exiles(wid)));
                } else if at < other {
                    assert(!(begun.entries.entries@[at as int].1.homing is None
                        && begun.entries.entries@[at as int].1.exiles(wid)));
                }
            }
        }
        let own = match shown_on {
            Some(uuid) => *uuid == self.entries.entries[at].0,
            None => false,
        };
        if own {
            return;
        }
        let adopted = match window {
            Some(window) => window,
            None => {
                return;
            },
        };
        assert(claims(begun, wid, window, *shown_on, at as int));
        proof {
            self.entries.lemma_at(at as int);
        }
        let rest = without_window(&self.entries.entries[at].1.windows, wid);
        self.set_windows(at, rest);
        let ghost middle = *self;
        let ghost from = begun.entries.entries@[at as int].0@;
        match shown_on {
            Some(uuid) => match self.entries.find(uuid) {
                Some(to) => {
                    let mut windows = without_window(&self.entries.entries[to].1.windows, wid);
                    windows.push(adopted);
                    self.set_windows(to, windows);
                    proof {
                        assert forall|u: Seq<char>|
                            match (begun.entries.at(u), #[trigger] self.entries.at(u)) {
                                (Some(before), Some(after)) => {
                                    &&& only_windows_changed(before, after)
                                    &&& after.windows@ == if u == from {
                                        before.windows@.filter(other_window(wid))
                                    } else if u == uuid@ {
                                        before.windows@.filter(other_window(wid)).push(adopted)
                                    } else {
                                        before.windows@
                                    }
                                },
                                (None, None) => true,
                                _ => false,
                            } by {
                            assert(middle.entries.at(u) == middle.entries.at(u));
                        }
                    }
                },
                None => {
                    proof {
                        assert forall|u: Seq<char>|
                            match (begun.entries.at(u), #[trigger] self.entries.at(u)) {
                                (Some(before), Some(after)) => {
                                    &&& only_windows_changed(before, after)
                                    &&& u == from ==> after.windows@ == before.windows@.filter(
                                        other_window(wid),
                                    )
                                    &&& u != from ==> after == before && u != uuid@
                                },
                                (None, None) => true,
                                _ => false,
                            } by {}
                    }
                },
            },
            None => {},
        }
    }

    /// Whether a layout snapshot is to be taken now: just before a window
    /// leaves its tree for another desktop without a drag, unless a usable one
    /// is at hand.
    pub fn wants_pre_churn(&self, enabled: bool, dragging: bool, now: Nanos) -> (wants: bool)
        ensures
            wants == (enabled && !dragging && self.fresh(now) is None),
    {
        enabled && !dragging && self.fresh_pre_churn(now).is_none()
    }

    /// Keeps `snapshot` from before a churn, if one is to be taken now.
    pub fn capture_pre_churn_layout(
        &mut self,
        enabled: bool,
        dragging: bool,
        snapshot: Option<LayoutSnapshot>,
        now: Nanos,
    )
        requires
            old(self).wf(),
            snapshot matches Some(snapshot) ==> snapshot.wf(),
        ensures
            final(self).wf(),
            final(self).pre_churn == if snapshot is Some && enabled && !dragging && old(self).fresh(
                now,
            ) is None {
                Some(PreChurn { snapshot: snapshot->0, taken: now, pinned: false })
            } else {
                old(self).pre_churn
            },
            *final(self) == (DisplayArchive { pre_churn: final(self).pre_churn, ..*old(self) }),
    {
        if !self.wants_pre_churn(enabled, dragging, now) {
            return;
        }
        match snapshot {
            Some(snapshot) => {
                self.pre_churn = Some(PreChurn { snapshot, taken: now, pinned: false });
            },
            None => {},
        }
    }
}

/// The snapshot has `wid` on another desktop than `space`.
pub open spec fn member_elsewhere(
    members: Seq<(SpaceId, Vec<WindowId>)>,
    space: SpaceId,
    wid: WindowId,
) -> bool {
    exists|i: int|
        0 <= i < members.len() && (#[trigger] members[i]).0 != space && members[i].1@.contains(wid)
}

/// Not being a window that the churn brought to `space`.
pub open spec fn not_brought(members: Seq<(SpaceId, Vec<WindowId>)>, space: SpaceId) -> spec_fn(
    WindowId,
) -> bool {
    |wid: WindowId| !member_elsewhere(members, space, wid)
}

/// The windows of `space`: those in its tree now, without those that the churn
/// brought there, then those that the churn has already moved away.
pub open spec fn members_of(
    tree: Seq<WindowId>,
    members: Table<SpaceId, Vec<WindowId>>,
    space: SpaceId,
) -> Seq<WindowId> {
    let own = tree.filter(not_brought(members.entries@, space));
    match members.at(space) {
        Some(then) => own + then@.filter(not_among(own)),
        None => own,
    }
}

/// What is known of a window, if it is known.
pub open spec fn known_window(states: Table<WindowId, ExiledWindow>) -> spec_fn(WindowId) -> Option<
    ExiledWindow,
> {
    |wid: WindowId| states.at(wid)
}

fn is_member_elsewhere(
    members: &Table<SpaceId, Vec<WindowId>>,
    space: SpaceId,
    wid: WindowId,
) -> (elsewhere: bool)
    ensures
        elsewhere == member_elsewhere(members.entries@, space, wid),
{
    let mut i: usize = 0;
    while i < members.entries.len()
        invariant
            i <= members.entries@.len(),
            forall|j: int|
                0 <= j < i ==> !((#[trigger] members.entries@[j]).0 != space
                    && members.entries@[j].1@.contains(wid)),
        decreases members.entries@.len() - i,
    {
        if members.entries[i].0 != space && holds(members.entries[i].1.as_slice(), wid) {
            assert(members.entries@[i as int].0 != space);
            return true;
        }
        i = i + 1;
    }
    false
}

impl DisplayArchive {
    /// The windows on `space`: those in its trees and floats now (`tree`), plus
    /// any that a snapshot from before the churn has there, and without those
    /// that the churn brought there. Tree order first.
    pub fn windows_belonging_to_space(
        &self,
        space: SpaceId,
        tree: &[WindowId],
        states: &Table<WindowId, ExiledWindow>,
        now: Nanos,
    ) -> (windows: Vec<ExiledWindow>)
        requires
            self.wf(),
            states.wf(),
        ensures
            windows@ == match self.fresh(now) {
                Some(pre) => members_of(tree@, pre.snapshot.members, space),
                None => tree@,
            }.filter_map(known_window(*states)),
    {
        let wids: Vec<WindowId> = match self.fresh_pre_churn(now) {
            Some(pre) => {
                let ghost p = not_brought(pre.snapshot.members.entries@, space);
                let mut own: Vec<WindowId> = Vec::new();
                let mut i: usize = 0;
                while i < tree.len()
                    invariant
                        p == not_brought(pre.snapshot.members.entries@, space),
                        i <= tree@.len(),
                        own@ == tree@.take(i as int).filter(p),
                    decreases tree@.len() - i,
                {
                    proof {
                        assert(tree@.take(i + 1) =~= tree@.take(i as int).push(tree@[i as int]));
                        tree@.take(i as int).lemma_filter_push(tree@[i as int], p);
                    }
                    if !is_member_elsewhere(&pre.snapshot.members, space, tree[i]) {
                        own.push(tree[i]);
                    }
                    i = i + 1;
                }
                assert(tree@.take(i as int) =~= tree@);
                match pre.snapshot.members.get(&space) {
                    Some(then) => {
                        let carried = drop_listed(then.as_slice(), own.as_slice());
                        append_list(&mut own, carried.as_slice());
                    },
                    None => {},
                }
                own
            },
            None => copy_list(tree),
        };
        let ghost f = known_window(*states);
        let mut windows: Vec<ExiledWindow> = Vec::new();
        let mut i: usize = 0;
        while i < wids.len()
            invariant
                states.wf(),
                f == known_window(*states),
                i <= wids@.len(),
                windows@ == wids@.take(i as int).filter_map(f),
            decreases wids@.len() - i,
        {
            proof {
                wids@.lemma_filter_map_take_succ(f, i as int);
            }
            match states.get(&wids[i]) {
                Some(state) => {
                    windows.push(*state);
                },
                None => {},
            }
            assert(windows@ =~= wids@.take(i + 1).filter_map(f));
            i = i + 1;
        }
        assert(wids@.take(i as int) =~= wids@);
        windows
    }
}

/// The displays are reported whole: there are screens, each shows a desktop,
/// and every listed display is one of them.
pub open spec fn whole(screens: Seq<Screen>, listing: Listing) -> bool {
    &&& screens.len() > 0
    &&& forall|i: int| 0 <= i < screens.len() ==> (#[trigger] screens[i]).space is Some
    &&& forall|i: int|
        0 <= i < listing.entries@.len() ==> on_screen(
            screens,
            (#[trigger] listing.entries@[i]).0@,
        )
}

/// Whether the displays are reported whole.
pub fn is_whole(screens: &[Screen], listing: &Listing) -> (is: bool)
    ensures
        is == whole(screens@, *listing),
{
    if screens.len() == 0 {
        return false;
    }
    let mut i: usize = 0;
    while i < screens.len()
        invariant
            i <= screens@.len(),
            forall|j: int| 0 <= j < i ==> (#[trigger] screens@[j]).space is Some,
        decreases screens@.len() - i,
    {
        if screens[i].space.is_none() {
            assert(screens@[i as int].space is None);
            return false;
        }
        i = i + 1;
    }
    let mut i: usize = 0;
    while i < listing.entries.len()
        invariant
            i <= listing.entries@.len(),
            forall|j: int|
                0 <= j < i ==> on_screen(screens@, (#[trigger] listing.entries@[j]).0@),
        decreases listing.entries@.len() - i,
    {
        if !is_on_screen(screens, &listing.entries[i].0) {
            assert(!on_screen(screens@, listing.entries@[i as int].0@));
            return false;
        }
        i = i + 1;
    }
    true
}

/// What a whole report says of the displays: each screen's, with the desktops
/// listed for it, or the one it shows.
pub open spec fn whole_views(screens: Seq<Screen>, listing: Listing) -> Seq<DisplayView> {
    Seq::new(
        screens.len(),
        |i: int|
            DisplayView {
                uuid: screens[i].display_uuid@,
                desktops: match listing.at(screens[i].display_uuid@) {
                    Some(desktops) => desktops@,
                    None => match screens[i].space {
                        Some(space) => seq![space],
                        None => seq![],
                    },
                },
                shown: screens[i].space,
            },
    )
}

fn whole_displays(screens: &[Screen], listing: &Listing) -> (displays: Vec<RecordedDisplay>)
    requires
        listing.wf(),
    ensures
        display_views(displays@) == whole_views(screens@, *listing),
{
    let mut displays: Vec<RecordedDisplay> = Vec::new();
    let mut i: usize = 0;
    while i < screens.len()
        invariant
            listing.wf(),
            i <= screens@.len(),
            displays@.len() == i,
            forall|j: int|
                0 <= j < i ==> (#[trigger] displays@[j])@ == whole_views(screens@, *listing)[j],
        decreases screens@.len() - i,
    {
        let desktops = match listing.get(&screens[i].display_uuid) {
            Some(desktops) => copy_list(desktops.as_slice()),
            None => {
                let mut one: Vec<SpaceId> = Vec::new();
                match screens[i].space {
                    Some(space) => {
                        one.push(space);
                    },
                    None => {},
                }
                one
            },
        };
        displays.push(
            RecordedDisplay {
                uuid: screens[i].display_uuid.clone(),
                desktops,
                shown: screens[i].space,
            },
        );
        assert(displays@[i as int]@.desktops =~= whole_views(screens@, *listing)[i as int].desktops);
        i = i + 1;
    }
    assert(display_views(displays@) =~= whole_views(screens@, *listing));
    displays
}

/// The same displays are on screen as were reported last.
pub open spec fn same_displays(previous: Seq<RecordedDisplay>, screens: Seq<Screen>) -> bool {
    previous.len() == screens.len() && forall|i: int|
        0 <= i < previous.len() ==> on_screen(screens, (#[trigger] previous[i]).uuid@)
}

/// A chain of records, each the one before once it has forgotten a desktop.
pub open spec fn forgets_each(states: Seq<DisplayRecord>, gone: Seq<SpaceId>) -> bool {
    states.len() == gone.len() + 1 && forall|i: int|
        0 <= i < gone.len() ==> crate::display_record::forgets(
            states[i],
            #[trigger] gone[i],
            states[i + 1],
        )
}

/// `after` is the record `before` once it has forgotten every one of `gone`, in
/// order.
pub open spec fn forgets_all(
    before: DisplayRecord,
    gone: Seq<SpaceId>,
    after: DisplayRecord,
) -> bool {
    exists|states: Seq<DisplayRecord>| #[trigger]
        forgets_each(states, gone) && states.first() == before && states.last() == after
}

/// The desktops destroyed while a display is away, for good: in the last whole
/// report and not in this one, with the same displays and no churn.
pub open spec fn destroyed_since(
    previous: Option<Seq<RecordedDisplay>>,
    screens: Seq<Screen>,
    listing: Listing,
    churn: bool,
) -> Seq<SpaceId> {
    match previous {
        Some(previous) => if !churn && same_displays(previous, screens) {
            crate::departure::recorded_desktops(display_views(previous)).filter(
                not_among(all_of(listing)),
            )
        } else {
            seq![]
        },
        None => seq![],
    }
}

/// The previous report, as a sequence.
pub open spec fn reported(whole: Option<Vec<RecordedDisplay>>) -> Option<Seq<RecordedDisplay>> {
    match whole {
        Some(displays) => Some(displays@),
        None => None,
    }
}

impl DisplayArchive {
    fn find_destroyed(&self, screens: &[Screen], listing: &Listing, churn: bool) -> (gone: Vec<SpaceId>)
        ensures
            gone@ == destroyed_since(reported(self.whole_displays), screens@, *listing, churn),
    {
        if churn {
            return Vec::new();
        }
        let previous = match &self.whole_displays {
            Some(previous) => previous,
            None => {
                return Vec::new();
            },
        };
        if previous.len() != screens.len() {
            return Vec::new();
        }
        let mut i: usize = 0;
        while i < previous.len()
            invariant
                reported(self.whole_displays) == Some(previous@),
                i <= previous@.len(),
                forall|j: int|
                    0 <= j < i ==> on_screen(screens@, (#[trigger] previous@[j]).uuid@),
            decreases previous@.len() - i,
        {
            if !is_on_screen(screens, &previous[i].uuid) {
                assert(!on_screen(screens@, previous@[i as int].uuid@));
                assert(!same_displays(previous@, screens@));
                return Vec::new();
            }
            i = i + 1;
        }
        let recorded = crate::departure::all_recorded(previous);
        let listed = all_listed(listing);
        drop_listed(recorded.as_slice(), listed.as_slice())
    }

    /// A desktop in the last whole report and not in this one, with the same
    /// displays on screen and no churn under way, is gone for good: the record
    /// forgets it, unless a pass is in flight.
    pub fn forget_desktops_destroyed_while_away(
        &mut self,
        screens: &[Screen],
        listing: &Listing,
        churn: bool,
    )
        requires
            old(self).wf(),
        ensures
            final(self).wf(),
            match old(self).record {
                Some(before) if before.pass is None => final(self).record matches Some(after)
                    && forgets_all(
                    before,
                    destroyed_since(reported(old(self).whole_displays), screens@, *listing, churn),
                    after,
                ),
                _ => final(self).record == old(self).record,
            },
            *final(self) == (DisplayArchive { record: final(self).record, ..*old(self) }),
    {
        let gone = self.find_destroyed(screens, listing, churn);
        let mut record: Option<DisplayRecord> = None;
        std::mem::swap(&mut record, &mut self.record);
        let mut record = match record {
            Some(record) => record,
            None => {
                return;
            },
        };
        if !record.destination_free() {
            self.record = Some(record);
            return;
        }
        let ghost before = record;
        let ghost mut states: Seq<DisplayRecord> = seq![record];
        let mut i: usize = 0;
        assert(gone@.take(0) =~= Seq::<SpaceId>::empty());
        while i < gone.len()
            invariant
                i <= gone@.len(),
                record.wf(),
                forgets_each(states, gone@.take(i as int)),
                states.first() == before,
                states.last() == record,
            decreases gone@.len() - i,
        {
            let ghost last = record;
            let _ = record.forget_destroyed_desktop(gone[i]);
            proof {
                let next = states.push(record);
                let list = gone@.take(i + 1);
                assert forall|k: int| 0 <= k < list.len() implies crate::display_record::forgets(
                    next[k],
                    #[trigger] list[k],
                    next[k + 1],
                ) by {
                    if k < i {
                        assert(gone@.take(i as int)[k] == list[k]);
                        assert(next[k] == states[k]);
                        assert(next[k + 1] == states[k + 1]);
                    } else {
                        assert(next[k] == states.last());
                    }
                }
                states = next;
            }
            i = i + 1;
        }
        assert(gone@.take(i as int) =~= gone@);
        assert(forgets_all(before, gone@, record));
        self.record = Some(record);
    }

    /// Takes in a report of the displays. A whole one is remembered as the
    /// state a record can be taken from, and ends what was pinned; the first
    /// one after a wake asks for the survivor to be settled again, which is
    /// returned. One that is not whole is the window server in the middle of a
    /// reshuffle: the snapshot at hand (or `snapshot`, taken now) is pinned
    /// until the displays are whole again.
    pub fn note_display_set(
        &mut self,
        screens: &[Screen],
        listing: &Listing,
        churn: bool,
        enabled: bool,
        dragging: bool,
        snapshot: Option<LayoutSnapshot>,
        now: Nanos,
    ) -> (resettle: bool)
        requires
            old(self).wf(),
            listing.wf(),
            snapshot matches Some(snapshot) ==> snapshot.wf(),
        ensures
            final(self).wf(),
            if whole(screens@, *listing) {
                &&& match old(self).record {
                    Some(before) if before.pass is None => final(self).record matches Some(after)
                        && forgets_all(
                        before,
                        destroyed_since(
                            reported(old(self).whole_displays),
                            screens@,
                            *listing,
                            churn,
                        ),
                        after,
                    ),
                    _ => final(self).record == old(self).record,
                }
                &&& final(self).whole_displays matches Some(displays) && display_views(displays@)
                    == whole_views(screens@, *listing)
                &&& final(self).pre_churn == match old(self).pre_churn {
                    Some(pre) => Some(PreChurn { pinned: false, ..pre }),
                    None => None,
                }
                &&& resettle == (old(self).recheck_after_wake && (old(self).record matches Some(
                    record,
                ) && record.pass is None))
                &&& final(self).recheck_after_wake == (old(self).recheck_after_wake && !resettle)
            } else {
                &&& !resettle
                &&& final(self).record == old(self).record
                &&& final(self).whole_displays == old(self).whole_displays
                &&& final(self).recheck_after_wake == old(self).recheck_after_wake
                &&& final(self).pre_churn == match old(self).fresh(now) {
                    Some(pre) => Some(PreChurn { pinned: true, ..pre }),
                    None => if snapshot is Some && enabled && !dragging {
                        Some(PreChurn { snapshot: snapshot->0, taken: now, pinned: true })
                    } else {
                        match old(self).pre_churn {
                            Some(pre) => Some(PreChurn { pinned: true, ..pre }),
                            None => None,
                        }
                    },
                }
            },
            *final(self) == (DisplayArchive {
                record: final(self).record,
                whole_displays: final(self).whole_displays,
                pre_churn: final(self).pre_churn,
                recheck_after_wake: final(self).recheck_after_wake,
                ..*old(self)
            }),
    {
        if is_whole(screens, listing) {
            let free = match &self.record {
                Some(record) => record.destination_free(),
                None => false,
            };
            self.forget_desktops_destroyed_while_away(screens, listing, churn);
            self.whole_displays = Some(whole_displays(screens, listing));
            self.pin(false);
            if self.recheck_after_wake && free {
                self.recheck_after_wake = false;
                return true;
            }
            return false;
        }
        self.capture_pre_churn_layout(enabled, dragging, snapshot, now);
        self.pin(true);
        false
    }

    fn pin(&mut self, pinned: bool)
        requires
            old(self).wf(),
        ensures
            final(self).wf(),
            final(self).pre_churn == match old(self).pre_churn {
                Some(pre) => Some(PreChurn { pinned, ..pre }),
                None => None,
            },
            *final(self) == (DisplayArchive { pre_churn: final(self).pre_churn, ..*old(self) }),
    {
        let mut pre: Option<PreChurn> = None;
        std::mem::swap(&mut pre, &mut self.pre_churn);
        match pre {
            Some(pre) => {
                self.pre_churn = Some(
                    PreChurn { snapshot: pre.snapshot, taken: pre.taken, pinned },
                );
            },
            None => {},
        }
    }
}

/// Another display than `uuid` holds `wid`.
pub open spec fn held_by_other(archive: DisplayArchive, uuid: Seq<char>, wid: WindowId) -> bool {
    exists|other: Seq<char>|
        other != uuid && ((#[trigger] archive.entries.at(other)) matches Some(entry)
            && entry.exiles(wid))
}

/// Being held by no other display than `uuid`.
pub open spec fn free_for(archive: DisplayArchive, uuid: Seq<char>) -> spec_fn(ExiledWindow) -> bool {
    |window: ExiledWindow| !held_by_other(archive, uuid, window.wid)
}

/// `known`, then those of `more` that are not there yet, by window.
pub open spec fn joined(known: Seq<ExiledWindow>, more: Seq<ExiledWindow>) -> Seq<ExiledWindow>
    decreases more.len(),
{
    if more.len() == 0 {
        known
    } else {
        let front = joined(known, more.drop_last());
        if exiled(front, more.last().wid) {
            front
        } else {
            front.push(more.last())
        }
    }
}

/// What is kept of a display that departs for the first time.
pub open spec fn archived_anew(
    entry: ArchivedDisplay,
    space: SpaceId,
    snapshot: Seq<char>,
    windows: Seq<ExiledWindow>,
    desktops: Seq<SpaceId>,
) -> bool {
    &&& entry.space == space
    &&& entry.snapshot@ == snapshot
    &&& entry.windows@ == windows
    &&& !entry.settled
    &&& entry.parked_on is None
    &&& entry.waiting_for is None
    &&& entry.desktops@ == desktops
    &&& entry.homing is None
}

/// What is kept of a display that left again before its return was over: the
/// layout of its first departure, and the windows that made it home beside
/// those that had not.
pub open spec fn archived_again(
    before: ArchivedDisplay,
    entry: ArchivedDisplay,
    space: SpaceId,
    windows: Seq<ExiledWindow>,
    desktops: Seq<SpaceId>,
) -> bool {
    archived_anew(entry, space, before.snapshot@, joined(before.windows@, windows), desktops)
}

impl DisplayArchive {
    fn is_held_by_other(&self, uuid: &String, wid: WindowId) -> (held: bool)
        requires
            self.wf(),
        ensures
            held == held_by_other(*self, uuid@, wid),
    {
        let mut i: usize = 0;
        while i < self.entries.entries.len()
            invariant
                self.wf(),
                i <= self.entries.entries@.len(),
                forall|j: int|
                    0 <= j < i ==> !((#[trigger] self.entries.entries@[j]).0@ != uuid@
                        && self.entries.entries@[j].1.exiles(wid)),
            decreases self.entries.entries@.len() - i,
        {
            if self.entries.entries[i].0 != *uuid && is_exiled(
                &self.entries.entries[i].1.windows,
                wid,
            ) {
                proof {
                    self.entries.lemma_at(i as int);
                    let other = self.entries.entries@[i as int].0@;
                    assert(other != uuid@ && (self.entries.at(other) matches Some(entry)
                        && entry.exiles(wid)));
                }
                return true;
            }
            i = i + 1;
        }
        proof {
            assert forall|other: Seq<char>| !(other != uuid@ && ((#[trigger] self.entries.at(
                other,
            )) matches Some(entry) && entry.exiles(wid))) by {
                if self.entries@.contains_key(other) {
                    let x = self.entries.index_of(other);
                    assert(self.entries.has_at(x, other));
                    assert(self.entries.entries@[x].0@ == other);
                }
            }
        }
        false
    }

    /// Keeps the layout of a departed display: its windows are `windows`
    /// without those another display holds already. A display that left again
    /// before its return was over keeps the layout of its first departure;
    /// otherwise nothing is kept when there is no `snapshot`. Whether something
    /// is kept is returned.
    pub fn archive_display(
        &mut self,
        uuid: &String,
        space: SpaceId,
        windows: &Vec<ExiledWindow>,
        desktops: Vec<SpaceId>,
        snapshot: Option<String>,
    ) -> (kept: bool)
        requires
            old(self).wf(),
        ensures
            final(self).wf(),
            ({
                let own = windows@.filter(free_for(*old(self), uuid@));
                let before = old(self).entries.at(uuid@);
                &&& kept == (before is Some || snapshot is Some)
                &&& !kept ==> *final(self) == *old(self)
                &&& kept ==> (final(self).entries.at(uuid@) matches Some(entry) && match before {
                    Some(before) => archived_again(before, entry, space, own, desktops@),
                    None => archived_anew(entry, space, snapshot->0@, own, desktops@),
                })
                &&& forall|other: Seq<char>|
                    other != uuid@ ==> #[trigger] final(self).entries.at(other)
                        == old(self).entries.at(other)
                &&& *final(self) == (DisplayArchive { entries: final(self).entries, ..*old(self) })
            }),
    {
        let ghost begun = *self;
        let mut own: Vec<ExiledWindow> = Vec::new();
        let ghost p = free_for(*self, uuid@);
        let mut i: usize = 0;
        while i < windows.len()
            invariant
                *self == begun,
                self.wf(),
                p == free_for(*self, uuid@),
                i <= windows@.len(),
                own@ == windows@.take(i as int).filter(p),
            decreases windows@.len() - i,
        {
            proof {
                assert(windows@.take(i + 1) =~= windows@.take(i as int).push(windows@[i as int]));
                windows@.take(i as int).lemma_filter_push(windows@[i as int], p);
            }
            if !self.is_held_by_other(uuid, windows[i].wid) {
                own.push(windows[i]);
            }
            i = i + 1;
        }
        assert(windows@.take(i as int) =~= windows@);
        let entry = match self.entries.remove(uuid) {
            Some(before) => {
                let mut all = before.windows;
                let ghost known = all@;
                let mut i: usize = 0;
                while i < own.len()
                    invariant
                        i <= own@.len(),
                        all@ == joined(known, own@.take(i as int)),
                    decreases own@.len() - i,
                {
                    proof {
                        assert(own@.take(i + 1).drop_last() =~= own@.take(i as int));
                        assert(own@.take(i + 1).last() == own@[i as int]);
                    }
                    if !is_exiled(&all, own[i].wid) {
                        all.push(own[i]);
                    }
                    i = i + 1;
                }
                assert(own@.take(i as int) =~= own@);
                ArchivedDisplay {
                    space,
                    snapshot: before.snapshot,
                    windows: all,
                    settled: false,
                    parked_on: None,
                    waiting_for: None,
                    desktops,
                    homing: None,
                }
            },
            None => match snapshot {
                Some(snapshot) => ArchivedDisplay {
                    space,
                    snapshot,
                    windows: own,
                    settled: false,
                    parked_on: None,
                    waiting_for: None,
                    desktops,
                    homing: None,
                },
                None => {
                    return false;
                },
            },
        };
        let ghost removed = self.entries;
        self.entries.insert(uuid.clone(), entry);
        proof {
            assert forall|other: Seq<char>|
                other != uuid@ implies #[trigger] self.entries.at(other) == begun.entries.at(
                other,
            ) by {
                assert(removed.at(other) == begun.entries.at(other));
            }
            assert forall|other: Seq<char>|
                (#[trigger] self.entries.at(other)) matches Some(entry) ==> entry.wf() by {
                assert(begun.entries.at(other) == begun.entries.at(other));
            }
        }
        true
    }

    /// Keeps the layout of a survivor whose desktop `lost` was destroyed when
    /// it inherited the departed display's, until that display is back. Nothing
    /// changes when the survivor is kept already.
    pub fn archive_survivor(
        &mut self,
        survivor: &String,
        departed: &String,
        lost: SpaceId,
        windows: Vec<ExiledWindow>,
        desktops: Vec<SpaceId>,
        snapshot: String,
    ) -> (kept: bool)
        requires
            old(self).wf(),
        ensures
            final(self).wf(),
            kept == (old(self).entries.at(survivor@) is None),
            !kept ==> *final(self) == *old(self),
            kept ==> (final(self).entries.at(survivor@) matches Some(entry) && {
                &&& entry.space == lost
                &&& entry.snapshot@ == snapshot@
                &&& entry.windows@ == windows@
                &&& entry.settled
                &&& entry.parked_on is None
                &&& entry.waiting_for matches Some(waited) && waited@ == departed@
                &&& entry.desktops@ == desktops@
                &&& entry.homing is None
            }),
            forall|other: Seq<char>|
                other != survivor@ ==> #[trigger] final(self).entries.at(other)
                    == old(self).entries.at(other),
            *final(self) == (DisplayArchive { entries: final(self).entries, ..*old(self) }),
    {
        let ghost begun = *self;
        if self.entries.contains_key(survivor) {
            return false;
        }
        self.entries.insert(
            survivor.clone(),
            ArchivedDisplay {
                space: lost,
                snapshot,
                windows,
                settled: true,
                parked_on: None,
                waiting_for: Some(departed.clone()),
                desktops,
                homing: None,
            },
        );
        proof {
            assert forall|other: Seq<char>|
                (#[trigger] self.entries.at(other)) matches Some(entry) ==> entry.wf() by {
                assert(begun.entries.at(other) == begun.entries.at(other));
            }
        }
        true
    }
}

/// The desktop that a survivor lost in a takeover: the one it showed, if that
/// is listed no longer, else the first of its desktops that is not.
pub open spec fn lost_to_takeover(
    shown: Option<SpaceId>,
    desktops: Seq<SpaceId>,
    listed: Seq<SpaceId>,
) -> Option<SpaceId> {
    let gone = desktops.filter(not_among(listed));
    if shown matches Some(space) && !listed.contains(space) {
        shown
    } else if gone.len() > 0 {
        Some(gone.first())
    } else {
        None
    }
}

/// The desktop that a survivor lost in a takeover, if it did: `shown` and
/// `desktops` are what it had, `listing` is what is listed now.
pub fn survivors_lost_space(
    shown: Option<SpaceId>,
    desktops: &[SpaceId],
    listing: &Listing,
) -> (lost: Option<SpaceId>)
    ensures
        lost == lost_to_takeover(shown, desktops@, all_of(*listing)),
{
    let listed = all_listed(listing);
    match shown {
        Some(space) => {
            if !holds(listed.as_slice(), space) {
                return Some(space);
            }
        },
        None => {},
    }
    let gone = drop_listed(desktops, listed.as_slice());
    if gone.len() > 0 {
        Some(gone[0])
    } else {
        None
    }
}

/// Being the survivor's own: not the desktop taken over, nor any other of the
/// departed display.
pub open spec fn survivors_own(taken_over: SpaceId, departed: Seq<SpaceId>) -> spec_fn(
    SpaceId,
) -> bool {
    |space: SpaceId| space != taken_over && !departed.contains(space)
}

/// The desktop a survivor goes back to when it was handed a departed display's:
/// the one it had last, if that is its own, else the first that is.
pub open spec fn parking_space(
    listed: Option<Seq<SpaceId>>,
    departed: Seq<SpaceId>,
    taken_over: SpaceId,
    last_user_space: Option<SpaceId>,
) -> Option<SpaceId> {
    match listed {
        Some(listed) => {
            let own = listed.filter(survivors_own(taken_over, departed));
            if last_user_space matches Some(space) && own.contains(space) {
                last_user_space
            } else if own.len() > 0 {
                Some(own.first())
            } else {
                None
            }
        },
        None => None,
    }
}

/// The desktop a survivor goes back to when it was handed a departed display's:
/// one of its own, never one that came along. `before` is what was listed
/// before the departure, `listing` what is now.
pub fn takeover_parking_space(
    survivor: &String,
    departed: &String,
    taken_over: SpaceId,
    last_user_space: Option<SpaceId>,
    before: &Listing,
    listing: &Listing,
) -> (parking: Option<SpaceId>)
    requires
        before.wf(),
        listing.wf(),
    ensures
        parking == parking_space(
            match listing.at(survivor@) {
                Some(listed) => Some(listed@),
                None => None,
            },
            listed_under(*before, departed@),
            taken_over,
            last_user_space,
        ),
{
    let theirs = desktops_on(before, departed);
    let listed = match listing.get(survivor) {
        Some(listed) => listed,
        None => {
            return None;
        },
    };
    let ghost p = survivors_own(taken_over, theirs@);
    let mut own: Vec<SpaceId> = Vec::new();
    let mut i: usize = 0;
    while i < listed.len()
        invariant
            p == survivors_own(taken_over, theirs@),
            i <= listed@.len(),
            own@ == listed@.take(i as int).filter(p),
        decreases listed@.len() - i,
    {
        proof {
            assert(listed@.take(i + 1) =~= listed@.take(i as int).push(listed@[i as int]));
            listed@.take(i as int).lemma_filter_push(listed@[i as int], p);
        }
        if listed[i] != taken_over && !holds(theirs.as_slice(), listed[i]) {
            own.push(listed[i]);
        }
        i = i + 1;
    }
    assert(listed@.take(i as int) =~= listed@);
    match last_user_space {
        Some(space) => {
            if holds(own.as_slice(), space) {
                return Some(space);
            }
        },
        None => {},
    }
    if own.len() > 0 {
        Some(own[0])
    } else {
        None
    }
}

/// A window the window server knows, by its number there.
pub open spec fn server_number() -> spec_fn(ExiledWindow) -> Option<WindowServerId> {
    |window: ExiledWindow| window.wsid
}

/// A window that was tiled.
pub open spec fn tiled_window() -> spec_fn(ExiledWindow) -> Option<WindowId> {
    |window: ExiledWindow|
        if window.was_tiled {
            Some(window.wid)
        } else {
            None
        }
}

impl DisplayArchive {
    /// Notes that a departed display's windows are parked on `parking`, when
    /// another display has inherited its desktop and displaced windows float.
    /// The windows to send there are returned; the other modes leave the
    /// takeover as it is.
    pub fn evict_from_taken_over_space(
        &mut self,
        uuid: &String,
        mode: DisplacedWindows,
        parking: Option<SpaceId>,
        addition: bool,
    ) -> (evicted: Option<(SpaceId, Vec<WindowServerId>)>)
        requires
            old(self).wf(),
        ensures
            final(self).wf(),
            match (old(self).entries.at(uuid@), parking) {
                (Some(entry), Some(parking)) if mode == DisplacedWindows::Float && addition => {
                    &&& evicted matches Some((to, windows)) && to == parking && windows@
                        == entry.windows@.filter_map(server_number())
                    &&& final(self).entries@ == old(self).entries@.insert(
                        uuid@,
                        (ArchivedDisplay { parked_on: Some(parking), ..entry }),
                    )
                    &&& *final(self) == (DisplayArchive {
                        entries: final(self).entries,
                        ..*old(self)
                    })
                },
                _ => evicted is None && *final(self) == *old(self),
            },
    {
        if mode != DisplacedWindows::Float || !addition {
            return None;
        }
        let parking = match parking {
            Some(parking) => parking,
            None => {
                return None;
            },
        };
        let at = match self.entries.find(uuid) {
            Some(at) => at,
            None => {
                return None;
            },
        };
        let ghost before = self.entries;
        let ghost windows = before.entries@[at as int].1.windows@;
        let ghost f = server_number();
        let mut sent: Vec<WindowServerId> = Vec::new();
        let mut i: usize = 0;
        while i < self.entries.entries[at].1.windows.len()
            invariant
                *self == *old(self),
                at < self.entries.entries@.len(),
                windows == self.entries.entries@[at as int].1.windows@,
                f == server_number(),
                i <= windows.len(),
                sent@ == windows.take(i as int).filter_map(f),
            decreases windows.len() - i,
        {
            proof {
                windows.lemma_filter_map_take_succ(f, i as int);
            }
            match self.entries.entries[at].1.windows[i].wsid {
                Some(wsid) => {
                    sent.push(wsid);
                },
                None => {},
            }
            assert(sent@ =~= windows.take(i + 1).filter_map(f));
            i = i + 1;
        }
        assert(windows.take(i as int) =~= windows);
        let (name, mut entry) = self.entries.entries.remove(at);
        entry.parked_on = Some(parking);
        let ghost now = entry;
        self.entries.entries.insert(at, (name, entry));
        proof {
            crate::table::lemma_set_value(before, self.entries, at as int, now);
            assert forall|other: Seq<char>|
                (#[trigger] self.entries.at(other)) matches Some(entry) ==> entry.wf() by {
                assert(before.at(other) == before.at(other));
            }
        }
        Some((parking, sent))
    }

    /// The windows of a departed display to be made floating before they are
    /// reassigned: the tiled ones, when displaced windows float.
    pub fn displace_archived_windows(&self, uuid: &String, mode: DisplacedWindows) -> (wids: Vec<
        WindowId,
    >)
        requires
            self.wf(),
        ensures
            wids@ == match self.entries.at(uuid@) {
                Some(entry) if mode == DisplacedWindows::Float => entry.windows@.filter_map(
                    tiled_window(),
                ),
                _ => seq![],
            },
    {
        let mut wids: Vec<WindowId> = Vec::new();
        if mode != DisplacedWindows::Float {
            return wids;
        }
        match self.entries.get(uuid) {
            Some(entry) => {
                let ghost f = tiled_window();
                let mut i: usize = 0;
                while i < entry.windows.len()
                    invariant
                        f == tiled_window(),
                        i <= entry.windows@.len(),
                        wids@ == entry.windows@.take(i as int).filter_map(f),
                    decreases entry.windows@.len() - i,
                {
                    proof {
                        entry.windows@.lemma_filter_map_take_succ(f, i as int);
                    }
                    if entry.windows[i].was_tiled {
                        wids.push(entry.windows[i].wid);
                    }
                    assert(wids@ =~= entry.windows@.take(i + 1).filter_map(f));
                    i = i + 1;
                }
                assert(entry.windows@.take(i as int) =~= entry.windows@);
            },
            None => {},
        }
        wids
    }
}

/// A display that departed, and the display that has inherited its desktop.
#[derive(Debug)]
pub struct Departed {
    pub uuid: String,
    pub space: SpaceId,
    pub taken_over_by: Option<String>,
}

/// What a departed display says.
pub struct DepartedText {
    pub uuid: Seq<char>,
    pub space: SpaceId,
    pub taken_over_by: Option<Seq<char>>,
}

impl Departed {
    pub open spec fn says(self) -> DepartedText {
        DepartedText {
            uuid: self.uuid@,
            space: self.space,
            taken_over_by: match self.taken_over_by {
                Some(uuid) => Some(uuid@),
                None => None,
            },
        }
    }
}

/// What becomes of displays that departed.
#[derive(Debug)]
pub enum Departures {
    /// Nothing is kept of displays.
    Ignore,
    /// A record is taken, if it has any of these, and the display that stayed is
    /// settled.
    Record(Vec<String>),
    /// Each is archived.
    Archive(Vec<Departed>),
}

/// The display whose screen shows `space`, the first if several do.
pub open spec fn inherits(screens: Seq<Screen>, space: SpaceId) -> Option<Seq<char>>
    decreases screens.len(),
{
    if screens.len() == 0 {
        None
    } else if screens[0].space == Some(space) {
        Some(screens[0].display_uuid@)
    } else {
        inherits(screens.skip(1), space)
    }
}

/// The departed displays whose ids last, with what has inherited their desktops.
pub open spec fn departed_texts(departed: Seq<(String, SpaceId)>, screens: Seq<Screen>) -> Seq<
    DepartedText,
>
    decreases departed.len(),
{
    if departed.len() == 0 {
        seq![]
    } else {
        let front = departed_texts(departed.drop_last(), screens);
        let (uuid, space) = departed.last();
        if stable_uuid(uuid@) {
            front.push(
                DepartedText { uuid: uuid@, space, taken_over_by: inherits(screens, space) },
            )
        } else {
            front
        }
    }
}

/// The ids of the departed displays that last.
pub open spec fn departed_names(departed: Seq<(String, SpaceId)>) -> Seq<Seq<char>>
    decreases departed.len(),
{
    if departed.len() == 0 {
        seq![]
    } else if stable_uuid(departed.last().0@) {
        departed_names(departed.drop_last()).push(departed.last().0@)
    } else {
        departed_names(departed.drop_last())
    }
}

fn find_heir(screens: &[Screen], space: SpaceId) -> (heir: Option<String>)
    ensures
        match heir {
            Some(uuid) => inherits(screens@, space) == Some(uuid@),
            None => inherits(screens@, space) is None,
        },
{
    let mut i: usize = 0;
    assert(screens@.skip(0) =~= screens@);
    while i < screens.len()
        invariant
            i <= screens@.len(),
            inherits(screens@, space) == inherits(screens@.skip(i as int), space),
        decreases screens@.len() - i,
    {
        let shows = match screens[i].space {
            Some(shown) => shown == space,
            None => false,
        };
        if shows {
            return Some(screens[i].display_uuid.clone());
        }
        assert(screens@.skip(i as int).skip(1) =~= screens@.skip(i + 1));
        i = i + 1;
    }
    None
}

fn list_departed(departed: &[(String, SpaceId)], screens: &[Screen]) -> (list: Vec<Departed>)
    ensures
        list@.map_values(|entry: Departed| entry.says()) == departed_texts(departed@, screens@),
{
    let ghost says = |entry: Departed| entry.says();
    let mut list: Vec<Departed> = Vec::new();
    let mut i: usize = 0;
    assert(list@.map_values(says) =~= Seq::<DepartedText>::empty());
    while i < departed.len()
        invariant
            says == (|entry: Departed| entry.says()),
            i <= departed@.len(),
            list@.map_values(says) == departed_texts(departed@.take(i as int), screens@),
        decreases departed@.len() - i,
    {
        let ghost before = list@;
        let ghost next = departed@.take(i + 1);
        assert(next.drop_last() =~= departed@.take(i as int));
        if is_stable_display_uuid(departed[i].0.as_str()) {
            let entry = Departed {
                uuid: departed[i].0.clone(),
                space: departed[i].1,
                taken_over_by: find_heir(screens, departed[i].1),
            };
            list.push(entry);
            assert(list@.map_values(says) =~= before.map_values(says).push(says(entry)));
        }
        i = i + 1;
    }
    assert(departed@.take(i as int) =~= departed@);
    list
}

fn list_names(departed: &[(String, SpaceId)]) -> (list: Vec<String>)
    ensures
        texts(list@) == departed_names(departed@),
{
    let mut list: Vec<String> = Vec::new();
    let mut i: usize = 0;
    assert(texts(list@) =~= Seq::<Seq<char>>::empty());
    while i < departed.len()
        invariant
            i <= departed@.len(),
            texts(list@) == departed_names(departed@.take(i as int)),
        decreases departed@.len() - i,
    {
        let ghost before = list@;
        let ghost next = departed@.take(i + 1);
        assert(next.drop_last() =~= departed@.take(i as int));
        if is_stable_display_uuid(departed[i].0.as_str()) {
            let name = departed[i].0.clone();
            list.push(name);
            assert(texts(list@) =~= texts(before).push(name@));
        }
        i = i + 1;
    }
    assert(departed@.take(i as int) =~= departed@);
    list
}

impl DisplayArchive {
    /// What becomes of displays that departed: where windows keep to their
    /// desktops one record is taken of them all, otherwise each is archived. What
    /// was captured of the layout has served its purpose, and is for the caller
    /// to drop once that is done.
    pub fn archive_departed_displays(
        &self,
        enabled: bool,
        mode: DisplacedWindows,
        departed: &[(String, SpaceId)],
        screens: &[Screen],
    ) -> (what: Departures)
        ensures
            if !enabled {
                what is Ignore
            } else if mode == DisplacedWindows::Spaces {
                what matches Departures::Record(names) && texts(names@) == departed_names(departed@)
            } else {
                what matches Departures::Archive(list) && list@.map_values(
                    |entry: Departed| entry.says(),
                ) == departed_texts(departed@, screens@)
            },
    {
        if !enabled {
            return Departures::Ignore;
        }
        if mode == DisplacedWindows::Spaces {
            Departures::Record(list_names(departed))
        } else {
            Departures::Archive(list_departed(departed, screens))
        }
    }

    /// The snapshot from before the churn has served its purpose.
    pub fn drop_pre_churn(&mut self)
        ensures
            *final(self) == (DisplayArchive { pre_churn: None, ..*old(self) }),
    {
        self.pre_churn = None;
    }
}

/// A display is known again by its id unless that begins as fallback ids do.
pub proof fn which_ids_last(uuid: Seq<char>)
    ensures
        stable_uuid("cgdisplay-"@ + uuid) == false,
        (forall|rest: Seq<char>| uuid != "cgdisplay-"@ + rest) ==> stable_uuid(uuid),
{
    let head = "cgdisplay-"@;
    assert((head + uuid).take(head.len() as int) =~= head);
    if begins(uuid, head) {
        assert(uuid =~= head + uuid.skip(head.len() as int));
    }
}

/// One more departed display is kept if its id lasts, with the display that shows
/// its desktop now.
pub proof fn which_departed_displays_are_kept(
    departed: Seq<(String, SpaceId)>,
    one: (String, SpaceId),
    screens: Seq<Screen>,
)
    ensures
        departed_texts(Seq::empty(), screens).len() == 0,
        departed_names(Seq::empty()).len() == 0,
        stable_uuid(one.0@) ==> departed_texts(departed.push(one), screens) == departed_texts(
            departed,
            screens,
        ).push(
            DepartedText {
                uuid: one.0@,
                space: one.1,
                taken_over_by: inherits(screens, one.1),
            },
        ),
        stable_uuid(one.0@) ==> departed_names(departed.push(one)) == departed_names(departed).push(
            one.0@,
        ),
        !stable_uuid(one.0@) ==> departed_texts(departed.push(one), screens) == departed_texts(
            departed,
            screens,
        ),
        !stable_uuid(one.0@) ==> departed_names(departed.push(one)) == departed_names(departed),
{
    assert(departed.push(one).drop_last() =~= departed);
}

/// Of the names of displays, those whose ids last are kept, in order.
pub proof fn which_names_are_kept(names: Seq<String>, one: String)
    ensures
        stable_names(Seq::empty()).len() == 0,
        stable_uuid(one@) ==> stable_names(names.push(one)) == stable_names(names).push(one@),
        !stable_uuid(one@) ==> stable_names(names.push(one)) == stable_names(names),
{
    assert(names.push(one).drop_last() =~= names);
}

/// A desktop is inherited by the display of the first screen that shows it, and by
/// none if none does.
pub proof fn who_inherits_a_desktop(screens: Seq<Screen>, space: SpaceId, at: int)
    requires
        0 <= at <= screens.len(),
        at < screens.len() ==> screens[at].space == Some(space),
        forall|i: int| 0 <= i < at ==> (#[trigger] screens[i]).space != Some(space),
    ensures
        at < screens.len() ==> inherits(screens, space) == Some(screens[at].display_uuid@),
        at == screens.len() ==> inherits(screens, space) is None,
    decreases screens.len(),
{
    if at > 0 {
        let rest = screens.skip(1);
        assert(screens[0].space != Some(space));
        assert forall|i: int| 0 <= i < at - 1 implies (#[trigger] rest[i]).space != Some(space) by {
            assert(rest[i] == screens[i + 1]);
        }
        who_inherits_a_desktop(rest, space, at - 1);
    }
}

/// What was captured before a churn serves for ten seconds, and while it is pinned
/// for as long as that lasts.
pub proof fn how_long_a_capture_serves(archive: DisplayArchive, now: Nanos)
    ensures
        archive.pre_churn is None ==> archive.fresh(now) is None,
        archive.pre_churn is Some && archive.pre_churn->0.pinned ==> archive.fresh(now)
            == archive.pre_churn,
        archive.pre_churn is Some && !archive.pre_churn->0.pinned && now
            - archive.pre_churn->0.taken < 10 * crate::clock::SECOND ==> archive.fresh(now)
            == archive.pre_churn,
        archive.pre_churn is Some && !archive.pre_churn->0.pinned && now
            - archive.pre_churn->0.taken >= 10 * crate::clock::SECOND ==> archive.fresh(now) is None,
        HOMING_DEADLINE == 3 * crate::clock::SECOND,
{
}

/// The layout that is kept is the one from before the churn while there is one, and
/// the one of now otherwise.
pub proof fn which_layout_is_kept(
    archive: DisplayArchive,
    now: Nanos,
    current: Option<String>,
    kept: Option<String>,
)
    requires
        archive.keeps_layout(now, current, kept),
    ensures
        archive.pre_churn is Some && (archive.pre_churn->0.pinned || now
            - archive.pre_churn->0.taken < 10 * crate::clock::SECOND) ==> (kept matches Some(kept)
            && kept@ == archive.pre_churn->0.snapshot.layout@),
        archive.pre_churn is None || (!archive.pre_churn->0.pinned && now
            - archive.pre_churn->0.taken >= 10 * crate::clock::SECOND) ==> kept == current,
{
}

proof fn lemma_homing_to(entries: Seq<(String, ArchivedDisplay)>, wid: WindowId, at: int)
    requires
        0 <= at <= entries.len(),
        at < entries.len() ==> (entries[at].1.homing matches Some(homing) && homing.waiting.at(
            wid,
        ) is Some),
        forall|i: int|
            0 <= i < at ==> ((#[trigger] entries[i]).1.homing matches Some(homing)
                ==> homing.waiting.at(wid) is None),
    ensures
        at < entries.len() ==> homing_to(entries, wid) == entries[at].1.homing->0.waiting.at(wid),
        at == entries.len() ==> homing_to(entries, wid) is None,
    decreases entries.len(),
{
    if at > 0 {
        let rest = entries.skip(1);
        assert(entries[0].1.homing matches Some(homing) ==> homing.waiting.at(wid) is None);
        assert forall|i: int| 0 <= i < at - 1 implies ((#[trigger] rest[i]).1.homing matches Some(
            homing,
        ) ==> homing.waiting.at(wid) is None) by {
            assert(rest[i] == entries[i + 1]);
        }
        lemma_homing_to(rest, wid, at - 1);
    }
}

/// A window is on its way to where the first display that waits for it sent it; else
/// to where the pass of the record sent it; and nowhere if neither did.
pub proof fn where_a_window_is_on_its_way_to(archive: DisplayArchive, wid: WindowId, at: int)
    requires
        0 <= at <= archive.entries.entries@.len(),
        at < archive.entries.entries@.len() ==> (
        archive.entries.entries@[at].1.homing matches Some(homing) && homing.waiting.at(wid) is Some),
        forall|i: int|
            0 <= i < at ==> ((#[trigger] archive.entries.entries@[i]).1.homing matches Some(homing)
                ==> homing.waiting.at(wid) is None),
    ensures
        at < archive.entries.entries@.len() ==> archive.sent_home_to(wid)
            == archive.entries.entries@[at].1.homing->0.waiting.at(wid),
        at == archive.entries.entries@.len() && archive.record is Some
            && archive.record->0.pass is Some ==> archive.sent_home_to(wid)
            == archive.record->0.pass->0.waiting.at(wid),
        at == archive.entries.entries@.len() && (archive.record is None
            || archive.record->0.pass is None) ==> archive.sent_home_to(wid) is None,
{
    lemma_homing_to(archive.entries.entries@, wid, at);
}

/// A window that is adopted leaves the display that held it, joins the display it is
/// shown on if that is archived too, and nothing else changes of any.
pub proof fn an_adopted_window_changes_hands(
    before: DisplayArchive,
    after: DisplayArchive,
    wid: WindowId,
    window: ExiledWindow,
    shown_on: Option<String>,
    from: Seq<char>,
    uuid: Seq<char>,
    other: ExiledWindow,
)
    requires
        adopts(before, after, wid, window, shown_on, from),
        before.entries.at(uuid) is Some,
        window.wid == wid,
        other.wid != wid,
        shown_on matches Some(shown) ==> shown@ != from,
    ensures
        after.entries.at(uuid) is Some,
        ({
            let entry = before.entries.at(uuid)->0;
            let now = after.entries.at(uuid)->0;
            &&& uuid == from ==> !now.exiles(wid)
            &&& (shown_on matches Some(shown) && shown@ == uuid) ==> now.windows@.last() == window
            &&& uuid != from && !(shown_on matches Some(shown) && shown@ == uuid) ==> now.windows@
                == entry.windows@
            &&& now.windows@.contains(other) <==> entry.windows@.contains(other)
            &&& now.space == entry.space && now.snapshot == entry.snapshot && now.settled
                == entry.settled && now.homing == entry.homing && now.desktops == entry.desktops
        }),
{
    assert(after.entries.at(uuid) == after.entries.at(uuid));
    let entry = before.entries.at(uuid)->0;
    let now = after.entries.at(uuid)->0;
    let rest = entry.windows@.filter(other_window(wid));
    crate::lists::lemma_filter_holds(entry.windows@, other_window(wid), other);
    assert forall|i: int| 0 <= i < rest.len() implies (#[trigger] rest[i]).wid != wid by {
        crate::lists::lemma_filter_holds(entry.windows@, other_window(wid), rest[i]);
        assert(rest.contains(rest[i]));
    }
    if shown_on matches Some(shown) && shown@ == uuid {
        if rest.contains(other) {
            let i = rest.index_of(other);
            assert(rest.push(window)[i] == other);
        }
        if rest.push(window).contains(other) {
            let i = rest.push(window).index_of(other);
            assert(i < rest.len());
            assert(rest[i] == other);
        }
    }
}

/// The windows of a desktop that goes away: those in its tree that were nowhere else
/// before the churn, in the order of the tree, then those that the churn took from
/// it.
pub proof fn whose_windows_are_kept(
    tree: Seq<WindowId>,
    members: Table<SpaceId, Vec<WindowId>>,
    space: SpaceId,
    wid: WindowId,
)
    ensures
        ({
            let elsewhere = exists|i: int|
                0 <= i < members.entries@.len() && (#[trigger] members.entries@[i]).0 != space
                    && members.entries@[i].1@.contains(wid);
            members_of(tree, members, space).contains(wid) <==> (tree.contains(wid) && !elsewhere)
                || (members.at(space) matches Some(was) && was@.contains(wid))
        }),
{
    let own = tree.filter(not_brought(members.entries@, space));
    crate::lists::lemma_filter_holds(tree, not_brought(members.entries@, space), wid);
    if members.at(space) is Some {
        let was = (members.at(space)->0)@;
        crate::lists::lemma_filter_holds(was, not_among(own), wid);
        crate::screens::lemma_concat_contains(own, was.filter(not_among(own)), wid);
    }
}

/// The windows that stayed in the tree come first, in the order of the tree.
pub proof fn the_tree_comes_first(
    tree: Seq<WindowId>,
    members: Table<SpaceId, Vec<WindowId>>,
    space: SpaceId,
)
    ensures
        members.at(space) is None && (forall|wid: WindowId| #[trigger]
            tree.contains(wid) ==> !member_elsewhere(members.entries@, space, wid)) ==> members_of(
            tree,
            members,
            space,
        ) == tree,
        (forall|wid: WindowId| #[trigger]
            tree.contains(wid) ==> !member_elsewhere(members.entries@, space, wid))
            ==> members_of(tree, members, space).take(tree.len() as int) == tree,
{
    let p = not_brought(members.entries@, space);
    if forall|wid: WindowId| #[trigger]
        tree.contains(wid) ==> !member_elsewhere(members.entries@, space, wid) {
        lemma_filter_all(tree, p);
        assert(members_of(tree, members, space).take(tree.len() as int) =~= tree);
    }
}

proof fn lemma_filter_all(list: Seq<WindowId>, p: spec_fn(WindowId) -> bool)
    requires
        forall|wid: WindowId| #[trigger] list.contains(wid) ==> p(wid),
    ensures
        list.filter(p) == list,
    decreases list.len(),
{
    reveal(Seq::filter);
    if list.len() > 0 {
        let front = list.drop_last();
        assert forall|wid: WindowId| #[trigger] front.contains(wid) implies p(wid) by {
            let i = front.index_of(wid);
            assert(list[i] == wid);
            assert(list.contains(wid));
        }
        lemma_filter_all(front, p);
        assert(list.contains(list[list.len() - 1]));
        assert(front.push(list.last()) =~= list);
    }
}

/// The displays are whole if and only if there are any, each shows a desktop, and no
/// display is listed that is not on screen.
pub proof fn when_displays_are_whole(screens: Seq<Screen>, listing: Listing, i: int)
    requires
        whole(screens, listing),
    ensures
        screens.len() > 0,
        0 <= i < screens.len() ==> screens[i].space is Some,
        0 <= i < listing.entries@.len() ==> exists|k: int|
            0 <= k < screens.len() && (#[trigger] screens[k]).display_uuid@
                == listing.entries@[i].0@,
{
    if 0 <= i < listing.entries@.len() {
        assert(on_screen(screens, listing.entries@[i].0@));
    }
}

/// Displays that are not whole fall short in one of these.
pub proof fn when_displays_are_not_whole(screens: Seq<Screen>, listing: Listing)
    requires
        !whole(screens, listing),
    ensures
        screens.len() == 0 || (exists|i: int|
            0 <= i < screens.len() && (#[trigger] screens[i]).space is None) || (exists|i: int|
            0 <= i < listing.entries@.len() && forall|k: int|
                0 <= k < screens.len() ==> (#[trigger] screens[k]).display_uuid@ != (
                #[trigger] listing.entries@[i]).0@),
{
    if screens.len() > 0 && (forall|i: int|
        0 <= i < screens.len() ==> (#[trigger] screens[i]).space is Some) {
        let i = choose|i: int|
            0 <= i < listing.entries@.len() && !on_screen(
                screens,
                (#[trigger] listing.entries@[i]).0@,
            );
        assert(!on_screen(screens, listing.entries@[i].0@));
        assert forall|k: int| 0 <= k < screens.len() implies (#[trigger] screens[k]).display_uuid@
            != listing.entries@[i].0@ by {}
    }
}

/// A whole report has each screen's display in order, with the desktops listed for
/// it, or else the one it shows.
pub proof fn what_a_whole_report_says(screens: Seq<Screen>, listing: Listing, i: int)
    requires
        0 <= i < screens.len(),
    ensures
        whole_views(screens, listing).len() == screens.len(),
        whole_views(screens, listing)[i].uuid == screens[i].display_uuid@,
        whole_views(screens, listing)[i].shown == screens[i].space,
        listing.at(screens[i].display_uuid@) is Some ==> whole_views(screens, listing)[i].desktops
            == (listing.at(screens[i].display_uuid@)->0)@,
        listing.at(screens[i].display_uuid@) is None && screens[i].space is Some ==> whole_views(
            screens,
            listing,
        )[i].desktops == seq![screens[i].space->0],
        listing.at(screens[i].display_uuid@) is None && screens[i].space is None ==> whole_views(
            screens,
            listing,
        )[i].desktops.len() == 0,
{
}

/// A desktop is gone for good if the last whole report had it and this one does not,
/// with the same displays and outside a churn; and only then.
pub proof fn which_desktops_are_gone_for_good(
    previous: Seq<RecordedDisplay>,
    screens: Seq<Screen>,
    listing: Listing,
    churn: bool,
    space: SpaceId,
)
    ensures
        destroyed_since(None, screens, listing, churn).len() == 0,
        destroyed_since(Some(previous), screens, listing, churn).contains(space) <==> {
            &&& !churn
            &&& previous.len() == screens.len()
            &&& forall|i: int|
                0 <= i < previous.len() ==> exists|k: int|
                    0 <= k < screens.len() && (#[trigger] screens[k]).display_uuid@ == (
                    #[trigger] previous[i]).uuid@
            &&& exists|i: int|
                0 <= i < previous.len() && (#[trigger] previous[i]).desktops@.contains(space)
            &&& forall|k: int|
                0 <= k < listing.entries@.len() ==> !(
                #[trigger] listing.entries@[k]).1@.contains(space)
        },
{
    crate::reconcile::lemma_recorded(previous, space);
    crate::screens::lemma_desktops_of(listing.entries@, space);
    let all = crate::departure::recorded_desktops(display_views(previous));
    crate::lists::lemma_filter_holds(all, not_among(all_of(listing)), space);
    if same_displays(previous, screens) {
        assert forall|i: int| 0 <= i < previous.len() implies exists|k: int|
            0 <= k < screens.len() && (#[trigger] screens[k]).display_uuid@ == (
            #[trigger] previous[i]).uuid@ by {
            assert(on_screen(screens, previous[i].uuid@));
        }
    }
    if previous.len() == screens.len() && (forall|i: int|
        0 <= i < previous.len() ==> exists|k: int|
            0 <= k < screens.len() && (#[trigger] screens[k]).display_uuid@ == (
            #[trigger] previous[i]).uuid@) {
        assert forall|i: int| 0 <= i < previous.len() implies on_screen(
            screens,
            (#[trigger] previous[i]).uuid@,
        ) by {
            let k = choose|k: int|
                0 <= k < screens.len() && (#[trigger] screens[k]).display_uuid@ == previous[i].uuid@;
            assert(screens[k].display_uuid@ == previous[i].uuid@);
        }
        assert(same_displays(previous, screens));
    }
}

/// Of the windows on a display that departs, it keeps those that no other display
/// holds.
pub proof fn which_windows_a_display_keeps(
    archive: DisplayArchive,
    uuid: Seq<char>,
    windows: Seq<ExiledWindow>,
    window: ExiledWindow,
)
    ensures
        windows.filter(free_for(archive, uuid)).contains(window) <==> windows.contains(window)
            && forall|other: Seq<char>, i: int|
            #![trigger archive.entries.at(other), archive.entries.at(other)->0.windows@[i]]
            other != uuid && archive.entries.at(other) is Some && 0 <= i
                < archive.entries.at(other)->0.windows@.len() ==> archive.entries.at(
                other,
            )->0.windows@[i].wid != window.wid,
{
    crate::lists::lemma_filter_holds(windows, free_for(archive, uuid), window);
    if held_by_other(archive, uuid, window.wid) {
        let other = choose|other: Seq<char>|
            other != uuid && ((#[trigger] archive.entries.at(other)) matches Some(entry)
                && entry.exiles(window.wid));
        let held = archive.entries.at(other)->0.windows@;
        let i = choose|i: int| 0 <= i < held.len() && (#[trigger] held[i]).wid == window.wid;
        assert(archive.entries.at(other)->0.windows@[i].wid == window.wid);
    } else {
        assert forall|other: Seq<char>, i: int|
            #![trigger archive.entries.at(other), archive.entries.at(other)->0.windows@[i]]
            other != uuid && archive.entries.at(other) is Some && 0 <= i
                < archive.entries.at(other)->0.windows@.len() implies archive.entries.at(
            other,
        )->0.windows@[i].wid != window.wid by {
            let held = archive.entries.at(other)->0;
            if held.windows@[i].wid == window.wid {
                assert(held.exiles(window.wid));
            }
        }
    }
}

/// A display that leaves again keeps the windows it had in their order, and adds each
/// window that it did not have.
pub proof fn windows_join_those_that_are_kept(
    known: Seq<ExiledWindow>,
    more: Seq<ExiledWindow>,
    wid: WindowId,
)
    ensures
        joined(known, more).take(known.len() as int) == known,
        joined(known, more).len() >= known.len(),
        exiled(joined(known, more), wid) <==> exiled(known, wid) || exiled(more, wid),
        (forall|i: int| 0 <= i < more.len() ==> exiled(known, (#[trigger] more[i]).wid)) ==> joined(
            known,
            more,
        ) == known,
    decreases more.len(),
{
    if more.len() == 0 {
        assert(known.take(known.len() as int) =~= known);
    } else {
        let front = more.drop_last();
        let before = joined(known, front);
        let after = joined(known, more);
        let last = more.last();
        windows_join_those_that_are_kept(known, front, wid);
        windows_join_those_that_are_kept(known, front, last.wid);
        assert(after.take(known.len() as int) =~= before.take(known.len() as int));
        assert(more[more.len() - 1] == last);
        if exiled(before, wid) {
            let i = choose|i: int| 0 <= i < before.len() && (#[trigger] before[i]).wid == wid;
            assert(after[i].wid == wid);
        }
        if exiled(front, wid) {
            let i = choose|i: int| 0 <= i < front.len() && (#[trigger] front[i]).wid == wid;
            assert(more[i].wid == wid);
        }
        if exiled(more, wid) {
            let i = choose|i: int| 0 <= i < more.len() && (#[trigger] more[i]).wid == wid;
            if i < front.len() {
                assert(front[i].wid == wid);
            } else if !exiled(before, wid) {
                assert(after[before.len() as int].wid == wid);
            }
        }
        if exiled(after, wid) && !exiled(before, wid) {
            let i = choose|i: int| 0 <= i < after.len() && (#[trigger] after[i]).wid == wid;
            if i < before.len() {
                assert(before[i].wid == wid);
            }
        }
        if forall|i: int| 0 <= i < more.len() ==> exiled(known, (#[trigger] more[i]).wid) {
            assert forall|i: int| 0 <= i < front.len() implies exiled(
                known,
                (#[trigger] front[i]).wid,
            ) by {
                assert(more[i] == front[i]);
            }
            assert(exiled(known, more[more.len() - 1].wid));
        }
    }
}

/// The desktop that a survivor lost: the one it showed if that is listed no longer;
/// else the first of its desktops that is not; none if all are.
pub proof fn what_a_survivor_lost(
    shown: Option<SpaceId>,
    desktops: Seq<SpaceId>,
    listed: Seq<SpaceId>,
    at: int,
)
    requires
        0 <= at <= desktops.len(),
        at < desktops.len() ==> !listed.contains(desktops[at]),
        forall|i: int| 0 <= i < at ==> listed.contains(#[trigger] desktops[i]),
    ensures
        shown is Some && !listed.contains(shown->0) ==> lost_to_takeover(shown, desktops, listed)
            == shown,
        (shown is None || listed.contains(shown->0)) && at < desktops.len() ==> lost_to_takeover(
            shown,
            desktops,
            listed,
        ) == Some(desktops[at]),
        (shown is None || listed.contains(shown->0)) && at == desktops.len() ==> lost_to_takeover(
            shown,
            desktops,
            listed,
        ) is None,
{
    lemma_first_filtered(desktops, not_among(listed), at);
}

pub proof fn lemma_first_filtered(list: Seq<SpaceId>, p: spec_fn(SpaceId) -> bool, at: int)
    requires
        0 <= at <= list.len(),
        at < list.len() ==> p(list[at]),
        forall|i: int| 0 <= i < at ==> !p(#[trigger] list[i]),
    ensures
        at < list.len() ==> list.filter(p).len() > 0 && list.filter(p).first() == list[at],
        at == list.len() ==> list.filter(p).len() == 0,
{
    if list.filter(p).len() > 0 {
        let k = crate::lists::lemma_filter_from(list, p, 0);
        if at < list.len() && at < k {
            crate::lists::lemma_filter_at(list, p, at);
            crate::lists::lemma_filter_at(list.take(k), p, at);
        }
        assert(!(k < at)) by {
            if k < at {
                assert(!p(list[k]));
            }
        }
    }
    if at < list.len() {
        crate::lists::lemma_filter_at(list, p, at);
    }
}

/// A survivor goes back to the desktop it had last if it still lists it as its own;
/// else to the first of its own; never to one that came along with the departed
/// display; and nowhere if it has none of its own.
pub proof fn where_a_survivor_goes_back_to(
    listed: Seq<SpaceId>,
    departed: Seq<SpaceId>,
    taken_over: SpaceId,
    last: Option<SpaceId>,
    at: int,
)
    requires
        0 <= at <= listed.len(),
        at < listed.len() ==> listed[at] != taken_over && !departed.contains(listed[at]),
        forall|i: int|
            0 <= i < at ==> #[trigger] listed[i] == taken_over || departed.contains(listed[i]),
    ensures
        parking_space(None, departed, taken_over, last) is None,
        ({
            let parking = parking_space(Some(listed), departed, taken_over, last);
            let own_last = last is Some && listed.contains(last->0) && last->0 != taken_over
                && !departed.contains(last->0);
            &&& own_last ==> parking == last
            &&& !own_last && at < listed.len() ==> parking == Some(listed[at])
            &&& !own_last && at == listed.len() ==> parking is None
        }),
{
    let p = survivors_own(taken_over, departed);
    lemma_first_filtered(listed, p, at);
    if last is Some {
        crate::lists::lemma_filter_holds(listed, p, last->0);
    }
}

/// One more window is sent off if the window server knows it, and made to float if it
/// was tiled.
pub proof fn which_windows_are_evicted(windows: Seq<ExiledWindow>, one: ExiledWindow)
    ensures
        Seq::<ExiledWindow>::empty().filter_map(server_number()) == Seq::<WindowServerId>::empty(),
        Seq::<ExiledWindow>::empty().filter_map(tiled_window()) == Seq::<WindowId>::empty(),
        one.wsid is Some ==> windows.push(one).filter_map(server_number()) == windows.filter_map(
            server_number(),
        ).push(one.wsid->0),
        one.wsid is None ==> windows.push(one).filter_map(server_number()) == windows.filter_map(
            server_number(),
        ),
        one.was_tiled ==> windows.push(one).filter_map(tiled_window()) == windows.filter_map(
            tiled_window(),
        ).push(one.wid),
        !one.was_tiled ==> windows.push(one).filter_map(tiled_window()) == windows.filter_map(
            tiled_window(),
        ),
{
    crate::lists::lemma_filter_map_push(windows, one, server_number());
    crate::lists::lemma_filter_map_push(windows, one, tiled_window());
}

/// A window is found in what is kept if it is known, with what is known of it.
pub proof fn what_is_known_of_a_window(
    windows: Seq<WindowId>,
    wid: WindowId,
    states: Table<WindowId, ExiledWindow>,
)
    ensures
        states.at(wid) is Some ==> windows.push(wid).filter_map(known_window(states))
            == windows.filter_map(known_window(states)).push(states.at(wid)->0),
        states.at(wid) is None ==> windows.push(wid).filter_map(known_window(states))
            == windows.filter_map(known_window(states)),
{
    crate::lists::lemma_filter_map_push(windows, wid, known_window(states));
}

/// What is kept of a display that departs is what it had then; of one that leaves
/// again before its return was over, the layout of its first departure.
pub proof fn what_is_kept_of_a_display(
    before: ArchivedDisplay,
    entry: ArchivedDisplay,
    space: SpaceId,
    windows: Seq<ExiledWindow>,
    desktops: Seq<SpaceId>,
    wid: WindowId,
)
    requires
        archived_again(before, entry, space, windows, desktops),
    ensures
        entry.snapshot@ == before.snapshot@,
        entry.space == space,
        entry.desktops@ == desktops,
        entry.exiles(wid) <==> before.exiles(wid) || exiled(windows, wid),
        !entry.settled && entry.parked_on is None && entry.waiting_for is None
            && entry.homing is None,
{
    windows_join_those_that_are_kept(before.windows@, windows, wid);
}

/// A window is claimed from the first display that holds it and is not on its way home, if
/// the window is known and not shown on that display; and from no other.
pub proof fn who_a_window_is_claimed_from(
    archive: DisplayArchive,
    wid: WindowId,
    window: ExiledWindow,
    shown_on: Option<String>,
    at: int,
    other: int,
)
    requires
        0 <= at < archive.entries.entries@.len(),
    ensures
        !claims(archive, wid, None, shown_on, at),
        archive.entries.entries@[at].1.homing is Some ==> !claims(
            archive,
            wid,
            Some(window),
            shown_on,
            at,
        ),
        !archive.entries.entries@[at].1.exiles(wid) ==> !claims(
            archive,
            wid,
            Some(window),
            shown_on,
            at,
        ),
        shown_on is Some && shown_on->0@ == archive.entries.entries@[at].0@ ==> !claims(
            archive,
            wid,
            Some(window),
            shown_on,
            at,
        ),
        0 <= other < at && archive.entries.entries@[other].1.homing is None
            && archive.entries.entries@[other].1.exiles(wid) ==> !claims(
            archive,
            wid,
            Some(window),
            shown_on,
            at,
        ),
        first_holder(archive.entries.entries@, wid, at) && (shown_on is None || shown_on->0@
            != archive.entries.entries@[at].0@) ==> claims(
            archive,
            wid,
            Some(window),
            shown_on,
            at,
        ),
{
}

/// With no desktop to forget a record stays as it is, and with one more it forgets that one
/// too, last.
pub proof fn what_a_record_forgets_in_turn(
    before: DisplayRecord,
    gone: Seq<SpaceId>,
    space: SpaceId,
    between: DisplayRecord,
    after: DisplayRecord,
)
    ensures
        forgets_all(before, Seq::empty(), after) ==> after == before,
        forgets_all(before, Seq::empty(), before),
        forgets_all(before, gone, between) && crate::display_record::forgets(between, space, after)
            ==> forgets_all(before, gone.push(space), after),
        forgets_all(before, gone.push(space), after) ==> exists|held: DisplayRecord| #[trigger]
            forgets_all(before, gone, held) && crate::display_record::forgets(held, space, after),
{
    assert(forgets_each(seq![before], Seq::empty()));
    if forgets_all(before, gone, between) && crate::display_record::forgets(between, space, after) {
        let states = choose|states: Seq<DisplayRecord>| #[trigger]
            forgets_each(states, gone) && states.first() == before && states.last() == between;
        let more = states.push(after);
        assert forall|i: int| 0 <= i < gone.push(space).len() implies crate::display_record::forgets(
            more[i],
            #[trigger] gone.push(space)[i],
            more[i + 1],
        ) by {
            if i < gone.len() {
                assert(gone.push(space)[i] == gone[i]);
            }
        }
        assert(forgets_each(more, gone.push(space)));
    }
    if forgets_all(before, gone.push(space), after) {
        let all = gone.push(space);
        let states = choose|states: Seq<DisplayRecord>| #[trigger]
            forgets_each(states, all) && states.first() == before && states.last() == after;
        let less = states.drop_last();
        assert forall|i: int| 0 <= i < gone.len() implies crate::display_record::forgets(
            less[i],
            #[trigger] gone[i],
            less[i + 1],
        ) by {
            assert(all[i] == gone[i]);
        }
        assert(forgets_each(less, gone));
        assert(all[gone.len() as int] == space);
        assert(forgets_all(before, gone, less.last()));
    }
}

/// The display that a window is shown on gets it last, behind the others in their order; the
/// one it is taken from has the others in their order.
pub proof fn an_adopted_window_goes_last(
    before: DisplayArchive,
    after: DisplayArchive,
    wid: WindowId,
    window: ExiledWindow,
    shown_on: Option<String>,
    from: Seq<char>,
    uuid: Seq<char>,
)
    requires
        adopts(before, after, wid, window, shown_on, from),
    ensures
        before.entries.at(uuid) is None <==> after.entries.at(uuid) is None,
        before.entries.at(uuid) is Some && uuid == from ==> after.entries.at(uuid)->0.windows@
            == before.entries.at(uuid)->0.windows@.filter(|held: ExiledWindow| held.wid != wid),
        before.entries.at(uuid) is Some && uuid != from && shown_on is Some && shown_on->0@ == uuid
            ==> after.entries.at(uuid)->0.windows@ == before.entries.at(uuid)->0.windows@.filter(
            |held: ExiledWindow| held.wid != wid,
        ).push(window),
        before.entries.at(uuid) is Some ==> after.entries.at(uuid)->0.waiting_for
            == before.entries.at(uuid)->0.waiting_for && after.entries.at(uuid)->0.parked_on
            == before.entries.at(uuid)->0.parked_on,
{
    assert(other_window(wid) =~= |held: ExiledWindow| held.wid != wid);
    let same = match (before.entries.at(uuid), after.entries.at(uuid)) {
        (Some(entry), Some(now)) => only_windows_changed(entry, now),
        (None, None) => true,
        _ => false,
    };
    assert(same);
}

/// A display that is archived is kept with what it showed, its layout, windows and desktops;
/// nothing has been arranged for it, it waits for none, and is not on its way home.
pub proof fn how_a_display_is_archived(
    entry: ArchivedDisplay,
    space: SpaceId,
    snapshot: Seq<char>,
    windows: Seq<ExiledWindow>,
    desktops: Seq<SpaceId>,
)
    requires
        archived_anew(entry, space, snapshot, windows, desktops),
    ensures
        entry.space == space,
        entry.snapshot@ == snapshot,
        entry.windows@ == windows,
        entry.desktops@ == desktops,
        !entry.settled,
        entry.homing is None,
        entry.waiting_for is None,
        entry.parked_on is None,
{
}

/// One more window joins, behind the others, if none of them is it.
pub proof fn windows_join_in_order(
    known: Seq<ExiledWindow>,
    more: Seq<ExiledWindow>,
    one: ExiledWindow,
)
    ensures
        joined(known, Seq::empty()) == known,
        (exists|i: int| 0 <= i < joined(known, more).len() && (#[trigger] joined(known, more)[i]).wid == one.wid)
            ==> joined(known, more.push(one)) == joined(known, more),
        (forall|i: int| 0 <= i < joined(known, more).len() ==> (#[trigger] joined(known, more)[i]).wid != one.wid)
            ==> joined(known, more.push(one)) == joined(known, more).push(one),
{
    assert(more.push(one).drop_last() =~= more);
}

/// The windows of a desktop are those of its tree that no other desktop had before, in the
/// order of the tree, and behind them the others that it had, in the order they had.
pub proof fn in_which_order_windows_are_kept(
    tree: Seq<WindowId>,
    members: Table<SpaceId, Vec<WindowId>>,
    space: SpaceId,
)
    ensures
        ({
            let own = tree.filter(
                |wid: WindowId|
                    !exists|i: int|
                        0 <= i < members.entries@.len() && (#[trigger] members.entries@[i]).0 != space
                            && members.entries@[i].1@.contains(wid),
            );
            &&& members.at(space) is None ==> members_of(tree, members, space) == own
            &&& members.at(space) is Some ==> members_of(tree, members, space) == own + members.at(
                space,
            )->0@.filter(|wid: WindowId| !own.contains(wid))
        }),
{
    let p = |wid: WindowId|
        !exists|i: int|
            0 <= i < members.entries@.len() && (#[trigger] members.entries@[i]).0 != space
                && members.entries@[i].1@.contains(wid);
    assert(not_brought(members.entries@, space) =~= p);
    let own = tree.filter(p);
    assert(not_among(own) =~= |wid: WindowId| !own.contains(wid));
}

/// Desktops that are gone for good come in the order in which they were reported.
pub proof fn gone_desktops_keep_their_order(
    previous: Seq<RecordedDisplay>,
    screens: Seq<Screen>,
    listing: Listing,
)
    requires
        previous.len() == screens.len(),
        forall|i: int|
            0 <= i < previous.len() ==> on_screen(screens, (#[trigger] previous[i]).uuid@),
    ensures
        destroyed_since(Some(previous), screens, listing, false)
            == crate::departure::recorded_desktops(display_views(previous)).filter(
            |space: SpaceId| !all_of(listing).contains(space),
        ),
{
    assert(not_among(all_of(listing)) =~= |space: SpaceId| !all_of(listing).contains(space));
}

} // verus!
