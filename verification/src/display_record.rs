//! Where everything was when a display departed, reconciled against where
//! everything is once the display is back.
//!
//! One record is taken at departure: every window's desktop, every display's
//! desktops in order and the one it shows, and every desktop's tree.
//! Everything after that is a difference against it. Right after the
//! departure the display that stayed is settled; once every display of the
//! record is back, the differences are put right.

use vstd::prelude::*;

use crate::clock::{earlier, Nanos};
use crate::ids::{SpaceId, WindowId};
use crate::layout::LayoutMode;
use crate::lists::{drop_listed, holds, not_among, IdSet};
use crate::table::Table;

verus! {

/// How long after a reshuffle a window's appearance on another desktop is
/// still the window server's doing and not the user's.
pub const CHURN_SETTLE: Nanos = 10_000_000_000;

/// How long a made desktop that a display keeps showing is retried before it
/// is left alone.
pub const RETIRE_GIVE_UP: Nanos = 30_000_000_000;

#[derive(Debug)]
pub struct DisplayRecord {
    pub taken: Nanos,
    /// Every desktop's tree at departure, keyed by the desktop ids of then.
    pub layout: String,
    /// Every desktop's windows at departure, in layout order.
    pub members: Table<SpaceId, Vec<WindowId>>,
    /// Every desktop's workspaces' layout modes at departure.
    pub modes: Table<SpaceId, Vec<LayoutMode>>,
    /// Where every window belongs.
    pub windows: Table<WindowId, SpaceId>,
    /// Where the user put a window while a display was away, and when it was
    /// seen there.
    pub placed: Table<WindowId, (SpaceId, Nanos)>,
    pub displays: Vec<RecordedDisplay>,
    /// The display that stayed.
    pub survivor: String,
    /// Every desktop the window server has listed since the record was taken.
    pub seen: IdSet<SpaceId>,
    /// When the window server was last seen reshuffling.
    pub churn_seen: Nanos,
    pub settled: bool,
    /// Desktops made at departure for the windows of a destroyed one:
    /// `(made, destroyed)`.
    pub stopgaps: Vec<(SpaceId, SpaceId)>,
    /// Windows sent somewhere by the manager itself.
    pub own_moves: IdSet<WindowId>,
    pub pass: Option<Pass>,
}

#[derive(Debug)]
pub struct RecordedDisplay {
    pub uuid: String,
    /// The display's desktops in order.
    pub desktops: Vec<SpaceId>,
    pub shown: Option<SpaceId>,
}

/// The layout from the last departure, kept after the return.
#[derive(Debug)]
pub struct DepartureSnapshot {
    pub layout: String,
    /// Each desktop's id now, to its id in the layout.
    pub ids: Table<SpaceId, SpaceId>,
}

/// A pass in flight: windows sent somewhere, trees to restore once they have
/// arrived or the deadline has passed.
#[derive(Debug)]
pub struct Pass {
    pub stage: Stage,
    /// Each desktop's id now, to its id in the record's layout.
    pub ids: Table<SpaceId, SpaceId>,
    /// Windows sent (or found already sent) to a desktop and not yet assigned
    /// there.
    pub waiting: Table<WindowId, SpaceId>,
    /// (desktop id in the record, desktop id now) for every desktop whose tree
    /// is put back.
    pub restores: Vec<(SpaceId, SpaceId)>,
    /// Made desktops whose windows the pass sends elsewhere.
    pub retire: Vec<SpaceId>,
    pub started: Nanos,
}

#[derive(Clone, Copy, PartialEq, Eq, Debug, Structural)]
pub enum Stage {
    /// Settling the survivor after departure; the record lives on.
    Away,
    /// Putting everything back after return; the record is done.
    Back,
}

/// No destroyed desktop has two made for it.
pub open spec fn stand_ins_once(stopgaps: Seq<(SpaceId, SpaceId)>) -> bool {
    forall|i: int, j: int|
        0 <= i < j < stopgaps.len() ==> (#[trigger] stopgaps[i]).1 != (#[trigger] stopgaps[j]).1
}

/// The desktop made to stand in for `lost`, if one was.
pub open spec fn stands_in(stopgaps: Seq<(SpaceId, SpaceId)>, lost: SpaceId) -> Option<SpaceId>
    decreases stopgaps.len(),
{
    if stopgaps.len() == 0 {
        None
    } else if stopgaps[0].1 == lost {
        Some(stopgaps[0].0)
    } else {
        stands_in(stopgaps.skip(1), lost)
    }
}

/// What `stands_in` finds is an entry of the list, the first for `lost`.
pub proof fn lemma_stands_in(stopgaps: Seq<(SpaceId, SpaceId)>, lost: SpaceId)
    ensures
        match stands_in(stopgaps, lost) {
            Some(made) => exists|i: int|
                0 <= i < stopgaps.len() && #[trigger] stopgaps[i] == (made, lost) && (forall|j: int|
                    0 <= j < i ==> (#[trigger] stopgaps[j]).1 != lost),
            None => forall|i: int| 0 <= i < stopgaps.len() ==> (#[trigger] stopgaps[i]).1 != lost,
        },
    decreases stopgaps.len(),
{
    if stopgaps.len() > 0 && stopgaps[0].1 != lost {
        let rest = stopgaps.skip(1);
        lemma_stands_in(rest, lost);
        match stands_in(rest, lost) {
            Some(made) => {
                let i = choose|i: int|
                    0 <= i < rest.len() && #[trigger] rest[i] == (made, lost) && (forall|j: int|
                        0 <= j < i ==> (#[trigger] rest[j]).1 != lost);
                assert(stopgaps[i + 1] == (made, lost));
                assert forall|j: int| 0 <= j < i + 1 implies (#[trigger] stopgaps[j]).1 != lost by {
                    if j > 0 {
                        assert(rest[j - 1] == stopgaps[j]);
                    }
                }
            },
            None => {
                assert forall|i: int| 0 <= i < stopgaps.len() implies (#[trigger] stopgaps[i]).1
                    != lost by {
                    if i > 0 {
                        assert(rest[i - 1] == stopgaps[i]);
                    }
                }
            },
        }
    } else if stopgaps.len() > 0 {
        assert(stopgaps[0] == (stopgaps[0].0, lost));
    }
}

impl Pass {
    pub open spec fn wf(&self) -> bool {
        self.ids.wf() && self.waiting.wf()
    }
}

/// Where a record wants a window: where the user put it while away, else where
/// it was at departure.
pub open spec fn wanted_at(
    windows: Table<WindowId, SpaceId>,
    placed: Table<WindowId, (SpaceId, Nanos)>,
    wid: WindowId,
) -> Option<SpaceId> {
    match placed.at(wid) {
        Some((space, _)) => Some(space),
        None => windows.at(wid),
    }
}

/// The order of windows: by process, then by number.
pub open spec fn window_before(a: WindowId, b: WindowId) -> bool {
    a.pid < b.pid || a.pid == b.pid && a.idx < b.idx
}

/// In order, each once.
pub open spec fn in_window_order(wids: Seq<WindowId>) -> bool {
    forall|i: int, j: int|
        0 <= i < j < wids.len() ==> window_before(#[trigger] wids[i], #[trigger] wids[j])
}

/// Puts `wid` where it belongs in an ordered list, unless it is there.
fn insert_in_window_order(wids: &mut Vec<WindowId>, wid: WindowId)
    requires
        in_window_order(old(wids)@),
    ensures
        in_window_order(final(wids)@),
        final(wids)@.to_set() == old(wids)@.to_set().insert(wid),
{
    let mut at: usize = wids.len();
    while at > 0 && (wid.pid < wids[at - 1].pid || (wid.pid == wids[at - 1].pid && wid.idx < wids[at
        - 1].idx))
        invariant
            at <= wids@.len(),
            forall|x: int| at <= x < wids@.len() ==> window_before(wid, #[trigger] wids@[x]),
        decreases at,
    {
        at = at - 1;
    }
    let ghost before = wids@;
    if at > 0 && wids[at - 1].pid == wid.pid && wids[at - 1].idx == wid.idx {
        assert(before[at - 1] == wid);
        assert(before.to_set().insert(wid) =~= before.to_set());
        return;
    }
    wids.insert(at, wid);
    proof {
        let after = wids@;
        assert forall|x: int| 0 <= x < at implies window_before(#[trigger] before[x], wid) by {
            if x < at - 1 {
                assert(window_before(before[x], before[at - 1]));
            }
        }
        assert forall|x: int, y: int| 0 <= x < y < after.len() implies window_before(
            #[trigger] after[x],
            #[trigger] after[y],
        ) by {
            let fx = if x < at { x } else { x - 1 };
            let fy = if y < at { y } else { y - 1 };
            if x != at {
                assert(after[x] == before[fx]);
            }
            if y != at {
                assert(after[y] == before[fy]);
            }
        }
        assert forall|w: WindowId| #[trigger] after.to_set().contains(w) == before.to_set().insert(
            wid,
        ).contains(w) by {
            if before.contains(w) {
                let i = choose|i: int| 0 <= i < before.len() && before[i] == w;
                let to = if i < at { i } else { i + 1 };
                assert(after[to] == w);
            }
            if w == wid {
                assert(after[at as int] == w);
            }
            if after.contains(w) {
                let i = choose|i: int| 0 <= i < after.len() && after[i] == w;
                if i != at {
                    let from = if i < at { i } else { i - 1 };
                    assert(before[from] == w);
                }
            }
        }
        assert(after.to_set() =~= before.to_set().insert(wid));
    }
}

/// Not being filed on one of the desktops `gone`.
pub open spec fn filed_elsewhere(gone: Seq<SpaceId>) -> spec_fn(WindowId, SpaceId) -> bool {
    |wid: WindowId, space: SpaceId| !gone.contains(space)
}

/// Not having been put on one of the desktops `gone`.
pub open spec fn placed_elsewhere(gone: Seq<SpaceId>) -> spec_fn(
    WindowId,
    (SpaceId, Nanos),
) -> bool {
    |wid: WindowId, place: (SpaceId, Nanos)| !gone.contains(place.0)
}

impl DisplayRecord {
    pub open spec fn wf(&self) -> bool {
        &&& self.members.wf()
        &&& self.modes.wf()
        &&& self.windows.wf()
        &&& self.placed.wf()
        &&& self.seen.wf()
        &&& self.own_moves.wf()
        &&& stand_ins_once(self.stopgaps@)
        &&& self.pass matches Some(pass) ==> pass.wf()
    }

    /// Where the record wants `wid`.
    pub open spec fn wants(&self, wid: WindowId) -> Option<SpaceId> {
        wanted_at(self.windows, self.placed, wid)
    }

    /// A display of the record has `space` among its desktops.
    pub open spec fn records_desktop(&self, space: SpaceId) -> bool {
        exists|i: int|
            0 <= i < self.displays@.len() && (#[trigger] self.displays@[i]).desktops@.contains(
                space,
            )
    }

    /// The desktop `wid` has been sent to and not yet assigned on, if it is one
    /// of the windows a pass waits for.
    pub fn destination(&self, wid: WindowId) -> (space: Option<SpaceId>)
        requires
            self.wf(),
        ensures
            space == match self.pass {
                Some(pass) => pass.waiting.at(wid),
                None => None,
            },
    {
        match &self.pass {
            Some(pass) => match pass.waiting.get(&wid) {
                Some(space) => Some(*space),
                None => None,
            },
            None => None,
        }
    }

    /// Whether no pass is in flight, so a settle can run.
    pub fn destination_free(&self) -> (free: bool)
        ensures
            free == (self.pass is None),
    {
        self.pass.is_none()
    }

    /// Where the record wants `wid`: where the user put it while away, else
    /// where it was at departure.
    pub fn desired(&self, wid: WindowId) -> (space: Option<SpaceId>)
        requires
            self.wf(),
        ensures
            space == self.wants(wid),
    {
        match self.placed.get(&wid) {
            Some(place) => Some(place.0),
            None => match self.windows.get(&wid) {
                Some(space) => Some(*space),
                None => None,
            },
        }
    }

    /// The desktop made to stand in for `lost`, if one was.
    pub fn stopgap_for(&self, lost: SpaceId) -> (made: Option<SpaceId>)
        ensures
            made == stands_in(self.stopgaps@, lost),
    {
        let mut i: usize = 0;
        assert(self.stopgaps@.skip(0) =~= self.stopgaps@);
        while i < self.stopgaps.len()
            invariant
                i <= self.stopgaps@.len(),
                stands_in(self.stopgaps@, lost) == stands_in(self.stopgaps@.skip(i as int), lost),
            decreases self.stopgaps@.len() - i,
        {
            if self.stopgaps[i].1 == lost {
                return Some(self.stopgaps[i].0);
            }
            assert(self.stopgaps@.skip(i as int).skip(1) =~= self.stopgaps@.skip(i + 1));
            i = i + 1;
        }
        None
    }

    /// Every window the record wants on `space`, in order.
    pub fn windows_desired_on(&self, space: SpaceId) -> (wids: Vec<WindowId>)
        requires
            self.wf(),
        ensures
            in_window_order(wids@),
            forall|wid: WindowId| #[trigger]
                wids@.contains(wid) <==> self.wants(wid) == Some(space),
    {
        let mut wids: Vec<WindowId> = Vec::new();
        let mut i: usize = 0;
        while i < self.windows.entries.len()
            invariant
                self.wf(),
                i <= self.windows.entries@.len(),
                in_window_order(wids@),
                forall|wid: WindowId| #[trigger]
                    wids@.to_set().contains(wid) <==> self.wants(wid) == Some(space) && exists|
                        x: int,
                    | 0 <= x < i && self.windows.has_at(x, wid),
            decreases self.windows.entries@.len() - i,
        {
            let wid = self.windows.entries[i].0;
            let ghost before = wids@.to_set();
            match self.desired(wid) {
                Some(there) => {
                    if there == space {
                        insert_in_window_order(&mut wids, wid);
                    }
                },
                None => {},
            }
            proof {
                assert(self.windows.has_at(i as int, wid));
                assert forall|w: WindowId| #[trigger]
                    wids@.to_set().contains(w) <==> self.wants(w) == Some(space) && exists|x: int|
                        0 <= x < i + 1 && self.windows.has_at(x, w) by {
                    assert(wids@.to_set().contains(w) <==> before.contains(w) || (w == wid
                        && self.wants(wid) == Some(space)));
                    if self.wants(w) == Some(space) && exists|x: int|
                        0 <= x < i + 1 && self.windows.has_at(x, w) {
                        let x = choose|x: int| 0 <= x < i + 1 && self.windows.has_at(x, w);
                        if x == i {
                            assert(w == wid);
                        } else {
                            assert(0 <= x < i && self.windows.has_at(x, w));
                        }
                    }
                }
            }
            i = i + 1;
        }
        let mut j: usize = 0;
        while j < self.placed.entries.len()
            invariant
                self.wf(),
                i == self.windows.entries@.len(),
                j <= self.placed.entries@.len(),
                in_window_order(wids@),
                forall|wid: WindowId| #[trigger]
                    wids@.to_set().contains(wid) <==> self.wants(wid) == Some(space) && ((exists|
                        x: int,
                    | 0 <= x < i && self.windows.has_at(x, wid)) || exists|x: int|
                        0 <= x < j && self.placed.has_at(x, wid)),
            decreases self.placed.entries@.len() - j,
        {
            let wid = self.placed.entries[j].0;
            let ghost before = wids@.to_set();
            match self.desired(wid) {
                Some(there) => {
                    if there == space {
                        insert_in_window_order(&mut wids, wid);
                    }
                },
                None => {},
            }
            proof {
                assert(self.placed.has_at(j as int, wid));
                assert forall|w: WindowId| #[trigger]
                    wids@.to_set().contains(w) <==> self.wants(w) == Some(space) && ((exists|
                        x: int,
                    | 0 <= x < i && self.windows.has_at(x, w)) || exists|x: int|
                        0 <= x < j + 1 && self.placed.has_at(x, w)) by {
                    assert(wids@.to_set().contains(w) <==> before.contains(w) || (w == wid
                        && self.wants(wid) == Some(space)));
                    if exists|x: int| 0 <= x < j + 1 && self.placed.has_at(x, w) {
                        let x = choose|x: int| 0 <= x < j + 1 && self.placed.has_at(x, w);
                        if x == j {
                            assert(w == wid);
                        } else {
                            assert(0 <= x < j && self.placed.has_at(x, w));
                        }
                    }
                }
            }
            j = j + 1;
        }
        proof {
            assert forall|wid: WindowId| #[trigger]
                wids@.contains(wid) <==> self.wants(wid) == Some(space) by {
                assert(wids@.to_set().contains(wid) == wids@.contains(wid));
                if self.wants(wid) == Some(space) {
                    if self.placed@.contains_key(wid) {
                        let x = self.placed.index_of(wid);
                        assert(self.placed.has_at(x, wid));
                    } else {
                        assert(self.windows@.contains_key(wid));
                        let x = self.windows.index_of(wid);
                        assert(self.windows.has_at(x, wid));
                    }
                }
            }
        }
        wids
    }

    /// Makes the record older than it is.
    pub fn backdate(&mut self, by: Nanos)
        ensures
            *final(self) == (DisplayRecord {
                taken: earlier(old(self).taken, by),
                churn_seen: earlier(old(self).churn_seen, by),
                ..*old(self)
            }),
    {
        self.taken = earlier(self.taken, by);
        self.churn_seen = earlier(self.churn_seen, by);
    }

    pub fn recorded_desktop(&self, wid: WindowId) -> (space: Option<SpaceId>)
        requires
            self.wf(),
        ensures
            space == self.wants(wid),
    {
        self.desired(wid)
    }
}

/// The first desktop of `stopgaps` that is `made` stands at `at`.
pub open spec fn made_at(stopgaps: Seq<(SpaceId, SpaceId)>, made: SpaceId, at: int) -> bool {
    &&& 0 <= at < stopgaps.len()
    &&& stopgaps[at].0 == made
    &&& forall|j: int| 0 <= j < at ==> (#[trigger] stopgaps[j]).0 != made
}

/// The desktop that the made desktop `made` stands in for, if it is one.
pub open spec fn stood_in_for(stopgaps: Seq<(SpaceId, SpaceId)>, made: SpaceId) -> Option<SpaceId> {
    if exists|at: int| made_at(stopgaps, made, at) {
        Some(stopgaps[choose|at: int| made_at(stopgaps, made, at)].1)
    } else {
        None
    }
}

/// `stopgaps` without the made desktop `made`.
pub open spec fn without_made(stopgaps: Seq<(SpaceId, SpaceId)>, made: SpaceId) -> Seq<
    (SpaceId, SpaceId),
> {
    if exists|at: int| made_at(stopgaps, made, at) {
        stopgaps.remove(choose|at: int| made_at(stopgaps, made, at))
    } else {
        stopgaps
    }
}

/// The display without the desktops `gone`.
pub open spec fn display_without(
    before: RecordedDisplay,
    after: RecordedDisplay,
    gone: Seq<SpaceId>,
) -> bool {
    &&& after.uuid@ == before.uuid@
    &&& after.desktops@ == before.desktops@.filter(not_among(gone))
    &&& after.shown == match before.shown {
        Some(shown) => if gone.contains(shown) {
            None
        } else {
            Some(shown)
        },
        None => None,
    }
}

/// `wid` is filed on one of the desktops `gone`, by the departure or by the
/// user.
pub open spec fn filed_on(
    windows: Table<WindowId, SpaceId>,
    placed: Table<WindowId, (SpaceId, Nanos)>,
    gone: Seq<SpaceId>,
    wid: WindowId,
) -> bool {
    ||| windows.at(wid) matches Some(space) && gone.contains(space)
    ||| placed.at(wid) matches Some(place) && gone.contains(place.0)
}

impl DisplayRecord {
    /// The desktops to forget when `space` is destroyed: a made desktop goes
    /// with the one it stood in for.
    pub open spec fn forgotten_with(&self, space: SpaceId) -> Seq<SpaceId> {
        match stood_in_for(self.stopgaps@, space) {
            Some(lost) => seq![space, lost],
            None => seq![space],
        }
    }

    /// The record has to do with `space`: it is one of its desktops, or a
    /// window is filed on it.
    pub open spec fn concerns(&self, space: SpaceId) -> bool {
        ||| stood_in_for(self.stopgaps@, space) is Some
        ||| self.records_desktop(space)
        ||| exists|wid: WindowId| #[trigger] self.windows.at(wid) == Some(space)
        ||| exists|wid: WindowId|
            (#[trigger] self.placed.at(wid)) matches Some(place) && place.0 == space
    }

    fn find_made(&self, made: SpaceId) -> (at: Option<usize>)
        ensures
            match at {
                Some(at) => made_at(self.stopgaps@, made, at as int) && stood_in_for(
                    self.stopgaps@,
                    made,
                ) == Some(self.stopgaps@[at as int].1) && without_made(self.stopgaps@, made)
                    == self.stopgaps@.remove(at as int),
                None => stood_in_for(self.stopgaps@, made) is None && without_made(
                    self.stopgaps@,
                    made,
                ) == self.stopgaps@,
            },
    {
        let mut i: usize = 0;
        while i < self.stopgaps.len()
            invariant
                i <= self.stopgaps@.len(),
                forall|j: int| 0 <= j < i ==> (#[trigger] self.stopgaps@[j]).0 != made,
            decreases self.stopgaps@.len() - i,
        {
            if self.stopgaps[i].0 == made {
                proof {
                    assert(made_at(self.stopgaps@, made, i as int));
                    let at = choose|at: int| made_at(self.stopgaps@, made, at);
                    assert(made_at(self.stopgaps@, made, at));
                    if at < i {
                        assert(self.stopgaps@[at].0 != made);
                    } else if at > i {
                        assert(self.stopgaps@[i as int].0 != made);
                    }
                }
                return Some(i);
            }
            i = i + 1;
        }
        None
    }

    fn is_concerned(&self, space: SpaceId) -> (known: bool)
        requires
            self.wf(),
        ensures
            known == (self.records_desktop(space) || (exists|wid: WindowId| #[trigger]
                self.windows.at(wid) == Some(space)) || exists|wid: WindowId|
                (#[trigger] self.placed.at(wid)) matches Some(place) && place.0 == space),
    {
        let mut i: usize = 0;
        while i < self.displays.len()
            invariant
                i <= self.displays@.len(),
                forall|j: int|
                    0 <= j < i ==> !(#[trigger] self.displays@[j]).desktops@.contains(space),
            decreases self.displays@.len() - i,
        {
            if holds(self.displays[i].desktops.as_slice(), space) {
                assert(self.displays@[i as int].desktops@.contains(space));
                return true;
            }
            i = i + 1;
        }
        let mut i: usize = 0;
        while i < self.windows.entries.len()
            invariant
                self.wf(),
                i <= self.windows.entries@.len(),
                forall|j: int| 0 <= j < i ==> (#[trigger] self.windows.entries@[j]).1 != space,
            decreases self.windows.entries@.len() - i,
        {
            if self.windows.entries[i].1 == space {
                proof {
                    self.windows.lemma_at(i as int);
                    assert(self.windows.at(self.windows.entries@[i as int].0) == Some(space));
                }
                return true;
            }
            i = i + 1;
        }
        let mut i: usize = 0;
        while i < self.placed.entries.len()
            invariant
                self.wf(),
                i <= self.placed.entries@.len(),
                forall|j: int| 0 <= j < i ==> (#[trigger] self.placed.entries@[j]).1.0 != space,
            decreases self.placed.entries@.len() - i,
        {
            if self.placed.entries[i].1.0 == space {
                proof {
                    self.placed.lemma_at(i as int);
                    assert(self.placed.at(self.placed.entries@[i as int].0) matches Some(place)
                        && place.0 == space);
                }
                return true;
            }
            i = i + 1;
        }
        proof {
            assert forall|wid: WindowId| #[trigger] self.windows.at(wid) != Some(space) by {
                if self.windows@.contains_key(wid) {
                    let x = self.windows.index_of(wid);
                    assert(self.windows.has_at(x, wid));
                    assert(self.windows.entries@[x].1 != space);
                }
            }
            assert forall|wid: WindowId| !((#[trigger] self.placed.at(wid)) matches Some(place)
                && place.0 == space) by {
                if self.placed@.contains_key(wid) {
                    let x = self.placed.index_of(wid);
                    assert(self.placed.has_at(x, wid));
                    assert(self.placed.entries@[x].1.0 != space);
                }
            }
        }
        false
    }

    /// Takes the desktops `gone` out of every display.
    fn forget_desktops(&mut self, gone: &Vec<SpaceId>)
        ensures
            final(self).displays@.len() == old(self).displays@.len(),
            forall|i: int|
                0 <= i < old(self).displays@.len() ==> display_without(
                    old(self).displays@[i],
                    #[trigger] final(self).displays@[i],
                    gone@,
                ),
            *final(self) == (DisplayRecord { displays: final(self).displays, ..*old(self) }),
    {
        let ghost before = self.displays@;
        let mut i: usize = 0;
        while i < self.displays.len()
            invariant
                i <= self.displays@.len(),
                self.displays@.len() == before.len(),
                before == old(self).displays@,
                *self == (DisplayRecord { displays: self.displays, ..*old(self) }),
                forall|j: int|
                    0 <= j < i ==> display_without(before[j], #[trigger] self.displays@[j], gone@),
                forall|j: int| i <= j < before.len() ==> #[trigger] self.displays@[j] == before[j],
            decreases self.displays@.len() - i,
        {
            let desktops = drop_listed(self.displays[i].desktops.as_slice(), gone.as_slice());
            let shown = match self.displays[i].shown {
                Some(shown) => if holds(gone.as_slice(), shown) {
                    None
                } else {
                    Some(shown)
                },
                None => None,
            };
            let uuid = self.displays[i].uuid.clone();
            self.displays.set(i, RecordedDisplay { uuid, desktops, shown });
            i = i + 1;
        }
    }

    /// A desktop the window server listed after the record was taken and lists
    /// no longer, with the displays as they were: nothing brings it back. The
    /// record forgets it (a made desktop together with the one it stood in
    /// for) and every window filed on it. Returns the desktops forgotten and
    /// the windows let go.
    pub fn forget_destroyed_desktop(&mut self, space: SpaceId) -> (forgotten: (
        Vec<SpaceId>,
        Vec<WindowId>,
    ))
        requires
            old(self).wf(),
        ensures
            final(self).wf(),
            forgets(*old(self), space, *final(self)),
            !old(self).concerns(space) ==> forgotten.0@.len() == 0 && forgotten.1@.len() == 0,
            old(self).concerns(space) ==> {
                let gone = old(self).forgotten_with(space);
                &&& forgotten.0@ == gone
                &&& forgotten.1@.no_duplicates()
                &&& forall|wid: WindowId| #[trigger]
                    forgotten.1@.contains(wid) <==> filed_on(
                        old(self).windows,
                        old(self).placed,
                        gone,
                        wid,
                    )
            },
    {
        let ghost before = *self;
        let made = self.find_made(space);
        let concerned = self.is_concerned(space);
        if made.is_none() && !concerned {
            return (Vec::new(), Vec::new());
        }
        let mut forgotten: Vec<SpaceId> = Vec::new();
        forgotten.push(space);
        match made {
            Some(at) => {
                let (_, lost) = self.stopgaps.remove(at);
                forgotten.push(lost);
                assert(stand_ins_once(self.stopgaps@)) by {
                    let after = self.stopgaps@;
                    assert forall|i: int, j: int| 0 <= i < j < after.len() implies (
                    #[trigger] after[i]).1 != (#[trigger] after[j]).1 by {
                        let fi = if i < at { i } else { i + 1 };
                        let fj = if j < at { j } else { j + 1 };
                        assert(after[i] == before.stopgaps@[fi]);
                        assert(after[j] == before.stopgaps@[fj]);
                    }
                }
            },
            None => {},
        }
        let ghost gone = before.forgotten_with(space);
        assert(forgotten@ =~= gone);
        self.forget_desktops(&forgotten);
        let keep_filed = |wid: &WindowId, filed: &SpaceId| -> (keep: bool)
            ensures
                keep == !forgotten@.contains(*filed),
        {
            let gone = holds(forgotten.as_slice(), *filed);
            !gone
        };
        let filed = self.windows.retain(keep_filed, Ghost(filed_elsewhere(gone)));
        let keep_placed = |wid: &WindowId, place: &(SpaceId, Nanos)| -> (keep: bool)
            ensures
                keep == !forgotten@.contains(place.0),
        {
            let gone = holds(forgotten.as_slice(), place.0);
            !gone
        };
        let placed = self.placed.retain(keep_placed, Ghost(placed_elsewhere(gone)));
        let mut windows: IdSet<WindowId> = IdSet::new();
        let mut i: usize = 0;
        while i < filed.len()
            invariant
                i <= filed@.len(),
                windows.wf(),
                forall|wid: WindowId| #[trigger]
                    windows@.contains(wid) <==> exists|x: int|
                        0 <= x < i && (#[trigger] filed@[x]).0 == wid,
            decreases filed@.len() - i,
        {
            let ghost so_far = windows@;
            let _ = windows.insert(filed[i].0);
            proof {
                assert forall|wid: WindowId| #[trigger]
                    windows@.contains(wid) <==> exists|x: int|
                        0 <= x < i + 1 && (#[trigger] filed@[x]).0 == wid by {
                    if so_far.contains(wid) {
                        let x = choose|x: int| 0 <= x < i && (#[trigger] filed@[x]).0 == wid;
                        assert(0 <= x < i + 1 && filed@[x].0 == wid);
                    }
                    if wid == filed@[i as int].0 {
                        assert(0 <= i < i + 1 && filed@[i as int].0 == wid);
                    }
                }
            }
            i = i + 1;
        }
        let mut j: usize = 0;
        while j < placed.len()
            invariant
                j <= placed@.len(),
                windows.wf(),
                forall|wid: WindowId| #[trigger]
                    windows@.contains(wid) <==> (exists|x: int|
                        0 <= x < filed@.len() && (#[trigger] filed@[x]).0 == wid) || (exists|x: int|
                        0 <= x < j && (#[trigger] placed@[x]).0 == wid),
            decreases placed@.len() - j,
        {
            let ghost so_far = windows@;
            let _ = windows.insert(placed[j].0);
            proof {
                assert forall|wid: WindowId| #[trigger]
                    windows@.contains(wid) <==> (exists|x: int|
                        0 <= x < filed@.len() && (#[trigger] filed@[x]).0 == wid) || (exists|x: int|
                        0 <= x < j + 1 && (#[trigger] placed@[x]).0 == wid) by {
                    if exists|x: int| 0 <= x < j && (#[trigger] placed@[x]).0 == wid {
                        let x = choose|x: int| 0 <= x < j && (#[trigger] placed@[x]).0 == wid;
                        assert(0 <= x < j + 1 && placed@[x].0 == wid);
                    }
                    if wid == placed@[j as int].0 {
                        assert(0 <= j < j + 1 && placed@[j as int].0 == wid);
                    }
                }
            }
            j = j + 1;
        }
        let mut k: usize = 0;
        assert(self.own_moves@.difference(windows.items@.take(0).to_set()) =~= self.own_moves@);
        while k < windows.items.len()
            invariant
                k <= windows.items@.len(),
                self.own_moves.wf(),
                self.own_moves@ == before.own_moves@.difference(
                    windows.items@.take(k as int).to_set(),
                ),
                self.stopgaps@ == without_made(before.stopgaps@, space),
                *self == (DisplayRecord {
                    stopgaps: self.stopgaps,
                    displays: self.displays,
                    windows: self.windows,
                    placed: self.placed,
                    own_moves: self.own_moves,
                    ..before
                }),
                self.windows.wf(),
                self.placed.wf(),
                stand_ins_once(self.stopgaps@),
                self.displays@.len() == before.displays@.len(),
                forall|i: int|
                    0 <= i < before.displays@.len() ==> display_without(
                        before.displays@[i],
                        #[trigger] self.displays@[i],
                        gone,
                    ),
                forall|wid: WindowId| #[trigger]
                    self.windows.at(wid) == crate::table::kept_at(
                        before.windows.at(wid),
                        wid,
                        filed_elsewhere(gone),
                    ),
                forall|wid: WindowId| #[trigger]
                    self.placed.at(wid) == crate::table::kept_at(
                        before.placed.at(wid),
                        wid,
                        placed_elsewhere(gone),
                    ),
            decreases windows.items@.len() - k,
        {
            let wid = windows.items[k];
            proof {
                let so_far = windows.items@.take(k as int);
                assert(windows.items@.take(k + 1) =~= so_far.push(wid));
                so_far.lemma_push_to_set_commute(wid);
                assert(before.own_moves@.difference(so_far.to_set()).remove(wid)
                    =~= before.own_moves@.difference(so_far.to_set().insert(wid)));
            }
            let _ = self.own_moves.remove(wid);
            k = k + 1;
        }
        proof {
            assert(windows.items@.take(k as int) =~= windows.items@);
            assert forall|wid: WindowId| #[trigger]
                windows.items@.contains(wid) <==> filed_on(
                    before.windows,
                    before.placed,
                    gone,
                    wid,
                ) by {
                assert(windows@.contains(wid) == windows.items@.contains(wid));
                lemma_removed_windows(before.windows, gone, filed@, wid);
                lemma_removed_placed(before.placed, gone, placed@, wid);
            }
        }
        (forgotten, windows.items)
    }
}

/// `after` is the record `before` once it has forgotten the destroyed desktop
/// `space`.
pub open spec fn forgets(before: DisplayRecord, space: SpaceId, after: DisplayRecord) -> bool {
    if !before.concerns(space) {
        after == before
    } else {
        let gone = before.forgotten_with(space);
        &&& after.stopgaps@ == without_made(before.stopgaps@, space)
        &&& after.displays@.len() == before.displays@.len()
        &&& forall|i: int|
            0 <= i < before.displays@.len() ==> display_without(
                before.displays@[i],
                #[trigger] after.displays@[i],
                gone,
            )
        &&& forall|wid: WindowId| #[trigger]
            after.windows.at(wid) == crate::table::kept_at(
                before.windows.at(wid),
                wid,
                filed_elsewhere(gone),
            )
        &&& forall|wid: WindowId| #[trigger]
            after.placed.at(wid) == crate::table::kept_at(
                before.placed.at(wid),
                wid,
                placed_elsewhere(gone),
            )
        &&& forall|wid: WindowId| #[trigger]
            after.own_moves@.contains(wid) == (before.own_moves@.contains(wid) && !filed_on(
                before.windows,
                before.placed,
                gone,
                wid,
            ))
        &&& after == (DisplayRecord {
            stopgaps: after.stopgaps,
            displays: after.displays,
            windows: after.windows,
            placed: after.placed,
            own_moves: after.own_moves,
            ..before
        })
    }
}

/// Once a destroyed desktop is forgotten the record has nothing to do with it:
/// no display has it, no window is filed on it, and nothing stands in for it. It
/// was made to stand in for another at most once.
pub proof fn a_forgotten_desktop_stays_forgotten(
    before: DisplayRecord,
    space: SpaceId,
    after: DisplayRecord,
)
    requires
        forgets(before, space, after),
        forall|i: int, j: int|
            0 <= i < j < before.stopgaps@.len() && (#[trigger] before.stopgaps@[i]).0 == space ==> (
            #[trigger] before.stopgaps@[j]).0 != space,
    ensures
        !after.concerns(space),
{
    if before.concerns(space) {
        let gone = before.forgotten_with(space);
        assert(gone.contains(space)) by {
            assert(gone[0] == space);
        }
        if after.records_desktop(space) {
            let i = choose|i: int|
                0 <= i < after.displays@.len() && (#[trigger] after.displays@[i]).desktops@.contains(
                    space,
                );
            assert(display_without(before.displays@[i], after.displays@[i], gone));
            let list = before.displays@[i].desktops@;
            let places = crate::table::lemma_filter_places(list, not_among(gone));
            let x = choose|x: int|
                0 <= x < after.displays@[i].desktops@.len() && after.displays@[i].desktops@[x]
                    == space;
            assert(places[x] == places[x]);
        }
        if stood_in_for(after.stopgaps@, space) is Some {
            let at = choose|at: int| made_at(after.stopgaps@, space, at);
            assert(made_at(after.stopgaps@, space, at));
            if exists|x: int| made_at(before.stopgaps@, space, x) {
                let x = choose|x: int| made_at(before.stopgaps@, space, x);
                assert(made_at(before.stopgaps@, space, x));
                let from = if at < x { at } else { at + 1 };
                assert(after.stopgaps@[at] == before.stopgaps@[from]);
                if from < x {
                    assert(before.stopgaps@[from].0 == space ==> before.stopgaps@[x].0 != space);
                } else {
                    assert(before.stopgaps@[x].0 == space ==> before.stopgaps@[from].0 != space);
                }
            } else {
                assert(made_at(before.stopgaps@, space, at));
            }
        }
        if exists|wid: WindowId| #[trigger] after.windows.at(wid) == Some(space) {
            let wid = choose|wid: WindowId| #[trigger] after.windows.at(wid) == Some(space);
            assert(after.windows.at(wid) == crate::table::kept_at(
                before.windows.at(wid),
                wid,
                filed_elsewhere(gone),
            ));
        }
        if exists|wid: WindowId|
            (#[trigger] after.placed.at(wid)) matches Some(place) && place.0 == space {
            let wid = choose|wid: WindowId|
                (#[trigger] after.placed.at(wid)) matches Some(place) && place.0 == space;
            assert(after.placed.at(wid) == crate::table::kept_at(
                before.placed.at(wid),
                wid,
                placed_elsewhere(gone),
            ));
        }
    }
}

/// The windows taken out are those filed on the desktops `gone`.
proof fn lemma_removed_windows(
    windows: Table<WindowId, SpaceId>,
    gone: Seq<SpaceId>,
    removed: Seq<(WindowId, SpaceId)>,
    wid: WindowId,
)
    requires
        windows.wf(),
        removed == windows.entries@.filter(crate::table::entry_not(filed_elsewhere(gone))),
    ensures
        (exists|x: int| 0 <= x < removed.len() && (#[trigger] removed[x]).0 == wid) <==> (
        windows.at(wid) matches Some(space) && gone.contains(space)),
{
    let p = crate::table::entry_not::<WindowId, SpaceId>(filed_elsewhere(gone));
    let places = crate::table::lemma_filter_places(windows.entries@, p);
    if exists|x: int| 0 <= x < removed.len() && (#[trigger] removed[x]).0 == wid {
        let x = choose|x: int| 0 <= x < removed.len() && (#[trigger] removed[x]).0 == wid;
        assert(places[x] == places[x]);
        windows.lemma_at(places[x]);
    }
    if windows.at(wid) matches Some(space) && gone.contains(space) {
        let i = windows.index_of(wid);
        assert(windows.has_at(i, wid));
        windows.lemma_at(i);
        assert(p(windows.entries@[i]));
        let x = choose|x: int| 0 <= x < places.len() && places[x] == i;
        assert(removed[x].0 == wid);
    }
}

proof fn lemma_removed_placed(
    placed: Table<WindowId, (SpaceId, Nanos)>,
    gone: Seq<SpaceId>,
    removed: Seq<(WindowId, (SpaceId, Nanos))>,
    wid: WindowId,
)
    requires
        placed.wf(),
        removed == placed.entries@.filter(crate::table::entry_not(placed_elsewhere(gone))),
    ensures
        (exists|x: int| 0 <= x < removed.len() && (#[trigger] removed[x]).0 == wid) <==> (
        placed.at(wid) matches Some(place) && gone.contains(place.0)),
{
    let p = crate::table::entry_not::<WindowId, (SpaceId, Nanos)>(placed_elsewhere(gone));
    let places = crate::table::lemma_filter_places(placed.entries@, p);
    if exists|x: int| 0 <= x < removed.len() && (#[trigger] removed[x]).0 == wid {
        let x = choose|x: int| 0 <= x < removed.len() && (#[trigger] removed[x]).0 == wid;
        assert(places[x] == places[x]);
        placed.lemma_at(places[x]);
    }
    if placed.at(wid) matches Some(place) && gone.contains(place.0) {
        let i = placed.index_of(wid);
        assert(placed.has_at(i, wid));
        placed.lemma_at(i);
        assert(p(placed.entries@[i]));
        let x = choose|x: int| 0 <= x < places.len() && places[x] == i;
        assert(removed[x].0 == wid);
    }
}

/// A window belongs where the user put it while a display was away, and else where
/// it was at departure; one that is in neither belongs nowhere.
pub proof fn where_a_window_belongs(record: DisplayRecord, wid: WindowId)
    ensures
        record.placed.at(wid) is Some ==> record.wants(wid) == Some((record.placed.at(wid)->0).0),
        record.placed.at(wid) is None ==> record.wants(wid) == record.windows.at(wid),
{
}

/// How long a reshuffle is taken to last, and how long a made desktop is retried.
pub proof fn the_times_of_a_record()
    ensures
        CHURN_SETTLE == 10 * crate::clock::SECOND,
        RETIRE_GIVE_UP == 30 * crate::clock::SECOND,
{
}

/// Windows are ordered by process, then by number, and two different ones always are.
pub proof fn windows_have_an_order(a: WindowId, b: WindowId)
    ensures
        a.pid < b.pid ==> window_before(a, b) && !window_before(b, a),
        a.pid == b.pid && a.idx < b.idx ==> window_before(a, b) && !window_before(b, a),
        !window_before(a, a),
        a != b ==> window_before(a, b) || window_before(b, a),
{
}

/// The desktop that a destroyed one takes with it: none but the one it stood in for.
pub proof fn what_goes_with_a_destroyed_desktop(record: DisplayRecord, space: SpaceId, at: int)
    ensures
        0 <= at < record.stopgaps@.len() && record.stopgaps@[at].0 == space && (forall|j: int|
            0 <= j < at ==> (#[trigger] record.stopgaps@[j]).0 != space) ==> record.forgotten_with(
            space,
        ) == seq![space, record.stopgaps@[at].1],
        (forall|j: int| 0 <= j < record.stopgaps@.len() ==> (#[trigger] record.stopgaps@[j]).0 != space)
            ==> record.forgotten_with(space) == seq![space],
{
    let stopgaps = record.stopgaps@;
    if 0 <= at < stopgaps.len() && stopgaps[at].0 == space && (forall|j: int|
        0 <= j < at ==> (#[trigger] stopgaps[j]).0 != space) {
        assert(made_at(stopgaps, space, at));
        let k = choose|k: int| made_at(stopgaps, space, k);
        if k < at {
            assert(stopgaps[k].0 != space);
        } else if at < k {
            assert(stopgaps[at].0 != space);
        }
    }
}

/// What forgetting a destroyed desktop lets go of, and what it leaves: a window is
/// let go that was filed there or put there, and every other is left; a display
/// loses the desktop and keeps the rest.
pub proof fn what_is_forgotten(
    before: DisplayRecord,
    space: SpaceId,
    after: DisplayRecord,
    wid: WindowId,
    d: int,
    other: SpaceId,
)
    requires
        forgets(before, space, after),
        before.concerns(space),
        0 <= d < before.displays@.len(),
    ensures
        ({
            let gone = before.forgotten_with(space);
            &&& before.windows.at(wid) is Some && gone.contains(before.windows.at(wid)->0)
                ==> after.windows.at(wid) is None && !after.own_moves@.contains(wid)
            &&& before.windows.at(wid) is Some && !gone.contains(before.windows.at(wid)->0)
                ==> after.windows.at(wid) == before.windows.at(wid)
            &&& before.placed.at(wid) is Some && gone.contains((before.placed.at(wid)->0).0)
                ==> after.placed.at(wid) is None && !after.own_moves@.contains(wid)
            &&& before.placed.at(wid) is Some && !gone.contains((before.placed.at(wid)->0).0)
                ==> after.placed.at(wid) == before.placed.at(wid)
            &&& before.windows.at(wid) is None ==> after.windows.at(wid) is None
            &&& before.placed.at(wid) is None ==> after.placed.at(wid) is None
            &&& after.displays@.len() == before.displays@.len()
            &&& after.displays@[d].uuid@ == before.displays@[d].uuid@
            &&& after.displays@[d].desktops@.contains(other) <==> before.displays@[d].desktops@.contains(
                other,
            ) && !gone.contains(other)
            &&& after.displays@[d].shown == Some(other) <==> before.displays@[d].shown == Some(other)
                && !gone.contains(other)
            &&& after.stopgaps@.len() <= before.stopgaps@.len()
            &&& after.pass == before.pass && after.settled == before.settled && after.layout
                == before.layout && after.survivor == before.survivor
        }),
{
    let gone = before.forgotten_with(space);
    assert(display_without(before.displays@[d], after.displays@[d], gone));
    crate::lists::lemma_filter_holds(before.displays@[d].desktops@, not_among(gone), other);
    assert(after.windows.at(wid) == after.windows.at(wid));
    assert(after.placed.at(wid) == after.placed.at(wid));
    assert(after.own_moves@.contains(wid) == after.own_moves@.contains(wid));
}

/// A window is filed on one of the desktops if the departure filed it there or the user put
/// it there.
pub proof fn when_a_window_is_filed(
    windows: Table<WindowId, SpaceId>,
    placed: Table<WindowId, (SpaceId, Nanos)>,
    gone: Seq<SpaceId>,
    wid: WindowId,
    space: SpaceId,
    since: Nanos,
)
    ensures
        windows.at(wid) == Some(space) && gone.contains(space) ==> filed_on(
            windows,
            placed,
            gone,
            wid,
        ),
        placed.at(wid) == Some((space, since)) && gone.contains(space) ==> filed_on(
            windows,
            placed,
            gone,
            wid,
        ),
        (windows.at(wid) is None || !gone.contains(windows.at(wid)->0)) && (placed.at(wid) is None
            || !gone.contains((placed.at(wid)->0).0)) ==> !filed_on(windows, placed, gone, wid),
{
}

/// Windows in order go by process and by number among those of one, and none is there
/// twice.
pub proof fn what_order_windows_have(wids: Seq<WindowId>, i: int, j: int)
    requires
        in_window_order(wids),
        0 <= i < j < wids.len(),
    ensures
        wids[i].pid <= wids[j].pid,
        wids[i].pid == wids[j].pid ==> wids[i].idx < wids[j].idx,
        wids[i] != wids[j],
{
    assert(window_before(wids[i], wids[j]));
}

/// A record that forgets a desktop takes out the made desktop that it was, where it first
/// stands, and leaves the others in their order. Windows that were moved and are not filed
/// on what is gone stay noted. What was seen, and the layout of the departure, stays.
pub proof fn what_forgetting_leaves(
    before: DisplayRecord,
    space: SpaceId,
    after: DisplayRecord,
    at: int,
    wid: WindowId,
)
    requires
        forgets(before, space, after),
        0 <= at <= before.stopgaps@.len(),
        at < before.stopgaps@.len() ==> before.stopgaps@[at].0 == space,
        forall|i: int| 0 <= i < at ==> (#[trigger] before.stopgaps@[i]).0 != space,
    ensures
        !before.concerns(space) ==> after == before,
        before.concerns(space) && at < before.stopgaps@.len() ==> after.stopgaps@
            == before.stopgaps@.remove(at),
        before.concerns(space) && at == before.stopgaps@.len() ==> after.stopgaps@
            == before.stopgaps@,
        before.concerns(space) && before.own_moves@.contains(wid) && !filed_on(
            before.windows,
            before.placed,
            before.forgotten_with(space),
            wid,
        ) ==> after.own_moves@.contains(wid),
        !before.own_moves@.contains(wid) ==> !after.own_moves@.contains(wid),
        after.taken == before.taken && after.churn_seen == before.churn_seen && after.seen
            == before.seen && after.members == before.members && after.modes == before.modes
            && after.layout == before.layout,
{
    if at < before.stopgaps@.len() {
        assert(made_at(before.stopgaps@, space, at));
        let k = choose|k: int| made_at(before.stopgaps@, space, k);
        if k < at {
            assert(before.stopgaps@[k].0 != space);
        } else if at < k {
            assert(before.stopgaps@[at].0 != space);
        }
    } else if exists|k: int| made_at(before.stopgaps@, space, k) {
        let k = choose|k: int| made_at(before.stopgaps@, space, k);
        assert(before.stopgaps@[k].0 != space);
    }
    if before.concerns(space) {
        assert(after.own_moves@.contains(wid) == (before.own_moves@.contains(wid) && !filed_on(
            before.windows,
            before.placed,
            before.forgotten_with(space),
            wid,
        )));
    }
}

/// A desktop concerns a record if it was made at departure, a display of the record had it,
/// or a window is filed there or was put there; and in no other case.
pub proof fn which_desktops_concern_a_record(
    record: DisplayRecord,
    space: SpaceId,
    i: int,
    wid: WindowId,
)
    ensures
        0 <= i < record.stopgaps@.len() && record.stopgaps@[i].0 == space ==> record.concerns(space),
        0 <= i < record.displays@.len() && record.displays@[i].desktops@.contains(space)
            ==> record.concerns(space),
        record.windows.at(wid) == Some(space) ==> record.concerns(space),
        record.placed.at(wid) is Some && (record.placed.at(wid)->0).0 == space ==> record.concerns(
            space,
        ),
        (forall|k: int| 0 <= k < record.stopgaps@.len() ==> (#[trigger] record.stopgaps@[k]).0 != space)
            && (forall|k: int|
            0 <= k < record.displays@.len() ==> !(#[trigger] record.displays@[k]).desktops@.contains(
                space,
            )) && (forall|other: WindowId| #[trigger] record.windows.at(other) != Some(space)) && (
        forall|other: WindowId|
            (#[trigger] record.placed.at(other)) is Some ==> (record.placed.at(other)->0).0 != space)
            ==> !record.concerns(space),
{
    if 0 <= i < record.stopgaps@.len() && record.stopgaps@[i].0 == space {
        lemma_one_made_first(record.stopgaps@, space, i);
    }
}

proof fn lemma_one_made_first(stopgaps: Seq<(SpaceId, SpaceId)>, made: SpaceId, i: int)
    requires
        0 <= i < stopgaps.len(),
        stopgaps[i].0 == made,
    ensures
        exists|at: int| made_at(stopgaps, made, at),
    decreases i,
{
    if exists|k: int| 0 <= k < i && (#[trigger] stopgaps[k]).0 == made {
        let k = choose|k: int| 0 <= k < i && (#[trigger] stopgaps[k]).0 == made;
        lemma_one_made_first(stopgaps, made, k);
    } else {
        assert(made_at(stopgaps, made, i));
    }
}

} // verus!
