//! Puts a window back where it was after native fullscreen.
//!
//! The window's slot is remembered on the way out, with the layout as it was
//! while the window was still in its tree, and reinstated on the way back. `A`
//! is what the layout engine needs to put a window beside an old neighbour.

use vstd::prelude::*;

use crate::clock::Nanos;
use crate::display_archive::DisplayArchive;
use crate::ids::{SpaceId, WindowId, WindowServerId};
use crate::lists::{among, holds};
use crate::screens::{Listing, Screen};
use crate::table::{Key, Table};

verus! {

/// How long after the window server last moved windows for a display change a
/// window found on another display's desktop than its slot's was carried there
/// by that change, rather than moved by the user.
pub const SLOT_SEND_BACK_AFTER_CHURN: Nanos = 10_000_000_000;

#[derive(Debug)]
pub struct FullscreenSlots<A> {
    pub slots: Table<WindowId, FullscreenSlot<A>>,
}

#[derive(Debug)]
pub struct FullscreenSlot<A> {
    pub space: SpaceId,
    /// The layout as it was with the window still in its tree.
    pub snapshot: String,
    /// The old neighbour, and how the window stood to it.
    pub anchor: Option<(WindowId, A)>,
    pub taken: Nanos,
}

/// What became of a window leaving its tree.
#[derive(Clone, Copy, Debug, PartialEq, Eq, Structural)]
pub enum SlotRecorded {
    /// It was in no tree.
    NotTiled,
    /// Its slot on the same desktop is there already.
    Kept,
    /// A display change is settling: the slot from before it is kept.
    KeptInChurn,
    /// The window is on its way to the slot's own desktop: that is kept.
    KeptGoingHome,
    /// A float comes back as a float.
    Floating,
    /// The layout could not be had.
    NoSnapshot,
    /// Its slot on this desktop was recorded.
    Recorded(SpaceId),
}

/// What is known of a window leaving its tree.
#[derive(Debug)]
pub struct Leaving<A> {
    /// The desktop whose tree holds the window.
    pub tiled_on: Option<SpaceId>,
    /// When the display change that is settling began, if one is.
    pub churn_began: Option<Nanos>,
    /// The desktop the window is being sent home to.
    pub going_to: Option<SpaceId>,
    pub floating: bool,
    /// The layout to keep.
    pub snapshot: Option<String>,
    pub anchor: Option<(WindowId, A)>,
}

/// What becomes of a window leaving its tree, given the slot it has.
pub open spec fn slot_outcome<A>(
    existing: Option<FullscreenSlot<A>>,
    leaving: Leaving<A>,
) -> SlotRecorded {
    match leaving.tiled_on {
        None => SlotRecorded::NotTiled,
        Some(space) => if existing matches Some(slot) && slot.space == space {
            SlotRecorded::Kept
        } else if existing matches Some(slot) && (leaving.churn_began matches Some(began)
            && slot.taken < began) {
            SlotRecorded::KeptInChurn
        } else if existing matches Some(slot) && leaving.going_to == Some(slot.space) {
            SlotRecorded::KeptGoingHome
        } else if leaving.floating {
            SlotRecorded::Floating
        } else if leaving.snapshot is None {
            SlotRecorded::NoSnapshot
        } else {
            SlotRecorded::Recorded(space)
        },
    }
}

/// The slot of a window that leaves the tree on `space` at `taken`.
pub open spec fn slot_left<A>(leaving: Leaving<A>, space: SpaceId, taken: Nanos) -> FullscreenSlot<
    A,
> {
    FullscreenSlot { space, snapshot: leaving.snapshot->0, anchor: leaving.anchor, taken }
}

/// What is to be done for a window that is back in the tree on `space`, given
/// the slot it had.
pub open spec fn reinstate_outcome<A>(
    slot: Option<FullscreenSlot<A>>,
    window: WindowId,
    space: SpaceId,
    commanded: Option<Nanos>,
) -> Reinstate<A> {
    match slot {
        None => Reinstate::NoSlot,
        Some(slot) => if slot.space != space {
            Reinstate::Elsewhere
        } else if commanded matches Some(at) && at > slot.taken {
            Reinstate::Anchor(other_anchor(slot.anchor, window))
        } else {
            Reinstate::Layout(slot)
        },
    }
}

/// The slot, moved to the desktop `new` if it was on `old`.
pub open spec fn slot_moved<A>(
    slot: FullscreenSlot<A>,
    old_space: SpaceId,
    new_space: SpaceId,
) -> FullscreenSlot<A> {
    FullscreenSlot {
        space: if slot.space == old_space {
            new_space
        } else {
            slot.space
        },
        ..slot
    }
}

/// Not being in the tree of the desktop that the slot is on.
pub open spec fn awaits<A>(tiled: Seq<(WindowId, SpaceId)>) -> spec_fn(
    (WindowId, FullscreenSlot<A>),
) -> Option<(WindowId, SpaceId)> {
    |entry: (WindowId, FullscreenSlot<A>)|
        if tiled.contains((entry.0, entry.1.space)) {
            None
        } else {
            Some((entry.0, entry.1.space))
        }
}

fn holds_tiled(tiled: &[(WindowId, SpaceId)], window: WindowId, space: SpaceId) -> (held: bool)
    ensures
        held == tiled@.contains((window, space)),
{
    let mut i: usize = 0;
    while i < tiled.len()
        invariant
            i <= tiled@.len(),
            forall|j: int| 0 <= j < i ==> tiled@[j] != (window, space),
        decreases tiled@.len() - i,
    {
        if tiled[i].0 == window && tiled[i].1 == space {
            assert(tiled@[i as int] == (window, space));
            return true;
        }
        i = i + 1;
    }
    false
}

/// What is to be done for a window that is back in a tree.
#[derive(Debug)]
pub enum Reinstate<A> {
    /// It has no slot.
    NoSlot,
    /// It landed on another desktop than its slot's, which is dropped.
    Elsewhere,
    /// The snapshot is older than the user's last layout command, which it
    /// would undo: only the window is put back, beside its old neighbour.
    Anchor(Option<(WindowId, A)>),
    /// The layout is put back as it was.
    Layout(FullscreenSlot<A>),
}

/// What is to be done once the layout was put back.
#[derive(Debug)]
pub enum Reinstated<A> {
    /// The others were put back and not this window: its slot is kept for when
    /// it arrives.
    Kept,
    /// The layout is as it was.
    Restored,
    /// Nothing was matched: the window is put beside its old neighbour.
    Anchor(Option<(WindowId, A)>),
}

/// The neighbour to put `window` beside: another window.
pub open spec fn other_anchor<A>(anchor: Option<(WindowId, A)>, window: WindowId) -> Option<
    (WindowId, A),
> {
    match anchor {
        Some((neighbour, how)) => if neighbour != window {
            Some((neighbour, how))
        } else {
            None
        },
        None => None,
    }
}

fn take_anchor<A>(anchor: Option<(WindowId, A)>, window: WindowId) -> (other: Option<(WindowId, A)>)
    ensures
        other == other_anchor(anchor, window),
{
    match anchor {
        Some((neighbour, how)) => if neighbour != window {
            Some((neighbour, how))
        } else {
            None
        },
        None => None,
    }
}

impl<A> FullscreenSlots<A> {
    pub open spec fn wf(&self) -> bool {
        self.slots.wf()
    }

    pub fn new() -> (slots: FullscreenSlots<A>)
        ensures
            slots.wf(),
            slots.slots@ == Map::<WindowId, FullscreenSlot<A>>::empty(),
    {
        FullscreenSlots { slots: Table::new() }
    }

    pub fn forget(&mut self, window: WindowId)
        requires
            old(self).wf(),
        ensures
            final(self).wf(),
            final(self).slots@ == old(self).slots@.remove(window),
    {
        let _ = self.slots.remove(&window);
    }

    /// A desktop came back under a new id: slots on the old one wait on it.
    pub fn remap_space(&mut self, old_space: SpaceId, new_space: SpaceId)
        requires
            old(self).wf(),
        ensures
            final(self).wf(),
            forall|window: WindowId| #[trigger]
                final(self).slots.at(window) == match old(self).slots.at(window) {
                    Some(slot) => Some(slot_moved(slot, old_space, new_space)),
                    None => None,
                },
    {
        let ghost begun = self.slots;
        let ghost all = self.slots.entries@;
        let mut i: usize = 0;
        while i < self.slots.entries.len()
            invariant
                begun.wf(),
                all == begun.entries@,
                self.slots.entries@.len() == all.len(),
                i <= all.len(),
                forall|k: int|
                    0 <= k < i ==> (#[trigger] self.slots.entries@[k]).0 == all[k].0
                        && self.slots.entries@[k].1 == slot_moved(all[k].1, old_space, new_space),
                forall|k: int| i <= k < all.len() ==> #[trigger] self.slots.entries@[k] == all[k],
            decreases all.len() - i,
        {
            if self.slots.entries[i].1.space == old_space {
                let (window, mut slot) = self.slots.entries.remove(i);
                slot.space = new_space;
                self.slots.entries.insert(i, (window, slot));
            }
            i = i + 1;
        }
        proof {
            let after = self.slots;
            assert forall|a: int, b: int| 0 <= a < b < after.entries@.len() implies (
            #[trigger] after.entries@[a]).0.model() != (#[trigger] after.entries@[b]).0.model() by {
                assert(begun.entries@[a].0.model() != begun.entries@[b].0.model());
            }
            assert forall|window: WindowId| #[trigger]
                after.at(window) == match begun.at(window) {
                    Some(slot) => Some(slot_moved(slot, old_space, new_space)),
                    None => None,
                } by {
                if begun@.contains_key(window) {
                    let k = begun.index_of(window);
                    assert(begun.has_at(k, window));
                    begun.lemma_at(k);
                    assert(after.entries@[k].0 == window);
                    after.lemma_at(k);
                } else if after@.contains_key(window) {
                    let k = after.index_of(window);
                    assert(after.has_at(k, window));
                    assert(begun.has_at(k, window));
                }
            }
        }
    }

    /// A window is about to leave its tree: its slot there is recorded. The
    /// first removal is the only truthful one, so a slot on the same desktop
    /// stays; one on another desktop is a leftover, unless a display change is
    /// settling or the window is on its way there.
    pub fn record_fullscreen_slot(&mut self, window: WindowId, leaving: Leaving<A>, now: Nanos) -> (
    outcome: SlotRecorded)
        requires
            old(self).wf(),
        ensures
            final(self).wf(),
            outcome == slot_outcome(old(self).slots.at(window), leaving),
            match outcome {
                SlotRecorded::Recorded(space) => final(self).slots@ == old(self).slots@.insert(
                    window,
                    slot_left(leaving, space, now),
                ),
                SlotRecorded::Floating | SlotRecorded::NoSnapshot => final(self).slots@
                    == old(self).slots@.remove(window),
                _ => *final(self) == *old(self),
            },
    {
        let space = match leaving.tiled_on {
            Some(space) => space,
            None => {
                return SlotRecorded::NotTiled;
            },
        };
        match self.slots.get(&window) {
            Some(existing) => {
                if existing.space == space {
                    return SlotRecorded::Kept;
                }
                match leaving.churn_began {
                    Some(began) => {
                        if existing.taken < began {
                            return SlotRecorded::KeptInChurn;
                        }
                    },
                    None => {},
                }
                match leaving.going_to {
                    Some(home) => {
                        if home == existing.space {
                            return SlotRecorded::KeptGoingHome;
                        }
                    },
                    None => {},
                }
            },
            None => {},
        }
        let ghost begun = self.slots@;
        let _ = self.slots.remove(&window);
        if leaving.floating {
            return SlotRecorded::Floating;
        }
        match leaving.snapshot {
            Some(snapshot) => {
                self.slots.insert(
                    window,
                    FullscreenSlot { space, snapshot, anchor: leaving.anchor, taken: now },
                );
                proof {
                    let slot = FullscreenSlot { space, snapshot, anchor: leaving.anchor, taken: now };
                    assert(begun.remove(window).insert(window, slot) =~= begun.insert(
                        window,
                        slot,
                    ));
                }
                SlotRecorded::Recorded(space)
            },
            None => SlotRecorded::NoSnapshot,
        }
    }

    /// A window is about to leave its tree, `leaving` having the layout of now:
    /// its slot there is recorded. While a display change is settling, the tree
    /// that is left is already the wrong one, so the layout from before the
    /// churn goes into the slot, the same for every window.
    pub fn record_slot_before_churn(
        &mut self,
        archive: &DisplayArchive,
        window: WindowId,
        leaving: Leaving<A>,
        now: Nanos,
    ) -> (outcome: SlotRecorded)
        requires
            old(self).wf(),
        ensures
            final(self).wf(),
            exists|kept: Option<String>| #[trigger]
                archive.keeps_layout(now, leaving.snapshot, kept) && {
                    let leaving = Leaving { snapshot: kept, ..leaving };
                    &&& outcome == slot_outcome(old(self).slots.at(window), leaving)
                    &&& match outcome {
                        SlotRecorded::Recorded(space) => final(self).slots@
                            == old(self).slots@.insert(window, slot_left(leaving, space, now)),
                        SlotRecorded::Floating | SlotRecorded::NoSnapshot => final(self).slots@
                            == old(self).slots@.remove(window),
                        _ => *final(self) == *old(self),
                    }
                },
    {
        let snapshot = archive.layout_for_departure(now, leaving.snapshot);
        let leaving = Leaving {
            tiled_on: leaving.tiled_on,
            churn_began: leaving.churn_began,
            going_to: leaving.going_to,
            floating: leaving.floating,
            snapshot,
            anchor: leaving.anchor,
        };
        self.record_fullscreen_slot(window, leaving, now)
    }

    /// The slots whose window is not in its tree, `tiled` being the windows that
    /// are and the desktops of the trees.
    pub fn fullscreen_slots_awaiting_insertion(&self, tiled: &[(WindowId, SpaceId)]) -> (waiting: Vec<
        (WindowId, SpaceId),
    >)
        ensures
            waiting@ == self.slots.entries@.filter_map(awaits(tiled@)),
    {
        let ghost f = awaits::<A>(tiled@);
        let mut waiting: Vec<(WindowId, SpaceId)> = Vec::new();
        let mut i: usize = 0;
        while i < self.slots.entries.len()
            invariant
                f == awaits::<A>(tiled@),
                i <= self.slots.entries@.len(),
                waiting@ == self.slots.entries@.take(i as int).filter_map(f),
            decreases self.slots.entries@.len() - i,
        {
            proof {
                self.slots.entries@.lemma_filter_map_take_succ(f, i as int);
            }
            let window = self.slots.entries[i].0;
            let space = self.slots.entries[i].1.space;
            if !holds_tiled(tiled, window, space) {
                waiting.push((window, space));
            }
            assert(waiting@ =~= self.slots.entries@.take(i + 1).filter_map(f));
            i = i + 1;
        }
        assert(self.slots.entries@.take(i as int) =~= self.slots.entries@);
        waiting
    }

    /// A window has been added back to the tree on `space`: takes its slot, and
    /// says what is to be done with it. `commanded` is when the user last gave a
    /// layout command.
    pub fn reinstate_fullscreen_slot(
        &mut self,
        window: WindowId,
        space: SpaceId,
        commanded: Option<Nanos>,
    ) -> (what: Reinstate<A>)
        requires
            old(self).wf(),
        ensures
            final(self).wf(),
            final(self).slots@ == old(self).slots@.remove(window),
            what == reinstate_outcome(old(self).slots.at(window), window, space, commanded),
    {
        let slot = match self.slots.remove(&window) {
            Some(slot) => slot,
            None => {
                return Reinstate::NoSlot;
            },
        };
        if slot.space != space {
            return Reinstate::Elsewhere;
        }
        let older = match commanded {
            Some(at) => at > slot.taken,
            None => false,
        };
        if older {
            return Reinstate::Anchor(take_anchor(slot.anchor, window));
        }
        Reinstate::Layout(slot)
    }

    /// The layout of `slot` was put back, or could not be: `matched` is how many
    /// windows it found, and `tiled` whether `window` is in its tree now.
    pub fn reinstated(
        &mut self,
        window: WindowId,
        slot: FullscreenSlot<A>,
        matched: Option<usize>,
        tiled: bool,
    ) -> (what: Reinstated<A>)
        requires
            old(self).wf(),
        ensures
            final(self).wf(),
            ({
                let found = matched matches Some(matched) && matched > 0;
                &&& what == if found && !tiled {
                    Reinstated::Kept
                } else if found {
                    Reinstated::Restored
                } else {
                    Reinstated::Anchor(other_anchor(slot.anchor, window))
                }
                &&& final(self).slots@ == if found && !tiled {
                    old(self).slots@.insert(window, slot)
                } else {
                    old(self).slots@
                }
            }),
    {
        let found = match matched {
            Some(matched) => matched > 0,
            None => false,
        };
        if found && !tiled {
            self.slots.insert(window, slot);
            Reinstated::Kept
        } else if found {
            Reinstated::Restored
        } else {
            Reinstated::Anchor(take_anchor(slot.anchor, window))
        }
    }
}

/// The first of the desktops, in order, whose tree holds the window.
pub open spec fn first_tiled(spaces: Seq<SpaceId>, tiled: Seq<SpaceId>) -> Option<SpaceId> {
    let holding = spaces.filter(among(tiled));
    if holding.len() > 0 {
        Some(holding.first())
    } else {
        None
    }
}

/// Which desktop's tree is holding a window: the one it is assigned to, if that
/// tree does, else the first of all that does. `tiled` are the desktops whose
/// trees hold it.
pub fn space_of_tiled_window(
    assigned: Option<SpaceId>,
    spaces: &[SpaceId],
    tiled: &[SpaceId],
) -> (space: Option<SpaceId>)
    ensures
        space == if assigned matches Some(space) && tiled@.contains(space) {
            assigned
        } else {
            first_tiled(spaces@, tiled@)
        },
{
    match assigned {
        Some(space) => {
            if holds(tiled, space) {
                return Some(space);
            }
        },
        None => {},
    }
    let holding = crate::lists::keep_listed(spaces, tiled);
    if holding.len() > 0 {
        Some(holding[0])
    } else {
        None
    }
}

/// The first screen that shows `space`.
pub open spec fn shown_on_display(screens: Seq<Screen>, space: SpaceId) -> Option<Seq<char>>
    decreases screens.len(),
{
    if screens.len() == 0 {
        None
    } else if screens[0].space == Some(space) {
        Some(screens[0].display_uuid@)
    } else {
        shown_on_display(screens.skip(1), space)
    }
}

/// The first display that lists `space`.
pub open spec fn listed_on_display(entries: Seq<(String, Vec<SpaceId>)>, space: SpaceId) -> Option<
    Seq<char>,
>
    decreases entries.len(),
{
    if entries.len() == 0 {
        None
    } else if entries[0].1@.contains(space) {
        Some(entries[0].0@)
    } else {
        listed_on_display(entries.skip(1), space)
    }
}

/// The display a desktop is on: the screen showing it, else the display it is
/// listed under.
pub open spec fn display_with(
    screens: Seq<Screen>,
    listing: Listing,
    space: SpaceId,
) -> Option<Seq<char>> {
    match shown_on_display(screens, space) {
        Some(uuid) => Some(uuid),
        None => listed_on_display(listing.entries@, space),
    }
}

/// The display a desktop is on: the screen showing it, else the display it is
/// listed under.
pub fn display_of_space(screens: &[Screen], listing: &Listing, space: SpaceId) -> (display: Option<
    String,
>)
    ensures
        match display {
            Some(uuid) => display_with(screens@, *listing, space) == Some(uuid@),
            None => display_with(screens@, *listing, space) is None,
        },
{
    let mut i: usize = 0;
    assert(screens@.skip(0) =~= screens@);
    while i < screens.len()
        invariant
            i <= screens@.len(),
            shown_on_display(screens@, space) == shown_on_display(screens@.skip(i as int), space),
        decreases screens@.len() - i,
    {
        let shows = match screens[i].space {
            Some(shown) => shown == space,
            None => false,
        };
        if shows {
            return Some(screens[i].display_uuid.clone());
        }
        assert(screens@.skip(i as int).skip(1) =~= screens@.skip(i + 1));
        i = i + 1;
    }
    let ghost entries = listing.entries@;
    let mut i: usize = 0;
    assert(entries.skip(0) =~= entries);
    while i < listing.entries.len()
        invariant
            shown_on_display(screens@, space) is None,
            entries == listing.entries@,
            i <= entries.len(),
            listed_on_display(entries, space) == listed_on_display(entries.skip(i as int), space),
        decreases entries.len() - i,
    {
        if holds(listing.entries[i].1.as_slice(), space) {
            return Some(listing.entries[i].0.clone());
        }
        assert(entries.skip(i as int).skip(1) =~= entries.skip(i + 1));
        i = i + 1;
    }
    None
}

/// What is known of a window whose slot waits on a desktop.
#[derive(Clone, Copy, Debug, PartialEq, Eq, Structural)]
pub struct Strayed {
    /// How long ago the window server last moved windows for a display change.
    pub since_churn: Option<Nanos>,
    /// How long ago the user last did something.
    pub since_input: Option<Nanos>,
    /// A record's pass, or a departure's record, owns the windows.
    pub record_stands: bool,
    /// The window is being sent home.
    pub going_home: bool,
    pub sys_id: Option<WindowServerId>,
    /// Where the window server has it.
    pub now_on: Option<SpaceId>,
    /// The means to move windows are there.
    pub addition: bool,
}

/// A display change carried the window to another display's desktop than its
/// slot's, and nothing else accounts for its being there.
pub open spec fn carried_off(
    window: Strayed,
    space: SpaceId,
    screens: Seq<Screen>,
    listing: Listing,
) -> bool {
    &&& window.since_churn matches Some(churn) && churn < SLOT_SEND_BACK_AFTER_CHURN && !(
    window.since_input matches Some(input) && input < churn)
    &&& !window.record_stands && !window.going_home && window.addition
    &&& window.sys_id is Some
    &&& window.now_on matches Some(now) && now != space && {
        let here = display_with(screens, listing, space);
        let there = display_with(screens, listing, now);
        here is Some && there is Some && here != there
    }
}

/// The window to send back to `space`, where its slot waits, if a display change
/// carried it off.
pub fn send_back_to_slot_display(
    window: Strayed,
    space: SpaceId,
    screens: &[Screen],
    listing: &Listing,
) -> (sent: Option<WindowServerId>)
    ensures
        sent == if carried_off(window, space, screens@, *listing) {
            window.sys_id
        } else {
            None
        },
{
    let churn = match window.since_churn {
        Some(churn) => churn,
        None => {
            return None;
        },
    };
    if churn >= SLOT_SEND_BACK_AFTER_CHURN {
        return None;
    }
    match window.since_input {
        Some(input) => {
            if input < churn {
                return None;
            }
        },
        None => {},
    }
    if window.record_stands || window.going_home || !window.addition {
        return None;
    }
    let now = match window.now_on {
        Some(now) => now,
        None => {
            return None;
        },
    };
    if now == space {
        return None;
    }
    let here = display_of_space(screens, listing, space);
    let there = display_of_space(screens, listing, now);
    match (here, there) {
        (Some(here), Some(there)) => if here != there {
            window.sys_id
        } else {
            None
        },
        _ => None,
    }
}

/// What is to be done for a window that was ordered in.
#[derive(Clone, Copy, Debug, PartialEq, Eq, Structural)]
pub enum OrderedIn {
    /// No slot waits for it, or on a desktop that is not active.
    Nothing,
    /// It is on another desktop; its slot waits on.
    Elsewhere,
    /// It lives on another desktop; its slot is left over from a move, and is
    /// dropped.
    DropSlot,
    /// It is put back in the tree of this desktop.
    Restore(SpaceId),
}

/// Where a window that was ordered in is.
#[derive(Clone, Copy, Debug, PartialEq, Eq, Structural)]
pub struct OrderedWindow {
    /// The desktop its slot waits on, if it is not in the tree there.
    pub waiting_on: Option<SpaceId>,
    /// Whether that desktop is active.
    pub active: bool,
    /// The user desktop the window server has it on.
    pub now_on: Option<SpaceId>,
    /// Whether it is in the tree of that one.
    pub tiled_there: bool,
    /// The desktop it is being sent home to.
    pub going_to: Option<SpaceId>,
}

/// What is to be done for a window that was ordered in.
pub fn restore_ordered_in_window_after_fullscreen(window: OrderedWindow) -> (what: OrderedIn)
    ensures
        what == match window.waiting_on {
            Some(space) => if !window.active {
                OrderedIn::Nothing
            } else if window.now_on matches Some(now) && now != space {
                if window.tiled_there && window.going_to != Some(space) {
                    OrderedIn::DropSlot
                } else {
                    OrderedIn::Elsewhere
                }
            } else {
                OrderedIn::Restore(space)
            },
            None => OrderedIn::Nothing,
        },
{
    let space = match window.waiting_on {
        Some(space) => space,
        None => {
            return OrderedIn::Nothing;
        },
    };
    if !window.active {
        return OrderedIn::Nothing;
    }
    match window.now_on {
        Some(now) => {
            if now != space {
                let going_home = match window.going_to {
                    Some(home) => home == space,
                    None => false,
                };
                return if window.tiled_there && !going_home {
                    OrderedIn::DropSlot
                } else {
                    OrderedIn::Elsewhere
                };
            }
        },
        None => {},
    }
    OrderedIn::Restore(space)
}

/// How a window leaves its tree.
#[derive(Clone, Copy, Debug, PartialEq, Eq, Structural)]
pub enum Removal {
    /// For a while, keeping whether it floats.
    PreservingFloat,
    Plain,
}

/// What a removal means for the slot of its window.
#[derive(Clone, Copy, Debug, PartialEq, Eq, Structural)]
pub enum SlotLifecycle {
    Record,
    Forget,
    Leave,
}

/// What a removal means for the slot of its window: a plain one of a window
/// that is gone ends it, and one of a window in the user's hand says nothing.
pub fn note_fullscreen_slot_lifecycle(removal: Removal, known: bool, in_drag: bool) -> (what:
    SlotLifecycle)
    ensures
        what == match removal {
            Removal::PreservingFloat => SlotLifecycle::Record,
            Removal::Plain => if !known {
                SlotLifecycle::Forget
            } else if in_drag {
                SlotLifecycle::Leave
            } else {
                SlotLifecycle::Record
            },
        },
{
    match removal {
        Removal::PreservingFloat => SlotLifecycle::Record,
        Removal::Plain => if !known {
            SlotLifecycle::Forget
        } else if in_drag {
            SlotLifecycle::Leave
        } else {
            SlotLifecycle::Record
        },
    }
}

/// The first removal is the truthful one: a second removal from the same tree
/// leaves the slot as it is.
pub proof fn a_slot_is_recorded_once<A>(slot: FullscreenSlot<A>, leaving: Leaving<A>)
    requires
        leaving.tiled_on == Some(slot.space),
    ensures
        slot_outcome(Some(slot), leaving) == SlotRecorded::Kept,
{
}

/// What is recorded on the way out is what comes back: a window that is put in
/// the tree it left, with no layout command since, gets the layout that was
/// kept for it.
pub proof fn a_recorded_slot_is_reinstated<A>(
    leaving: Leaving<A>,
    window: WindowId,
    space: SpaceId,
    taken: Nanos,
    commanded: Option<Nanos>,
)
    requires
        slot_outcome(None, leaving) == SlotRecorded::Recorded(space),
        commanded matches Some(at) ==> at <= taken,
    ensures
        reinstate_outcome(Some(slot_left(leaving, space, taken)), window, space, commanded)
            == Reinstate::Layout(slot_left(leaving, space, taken)),
{
}

/// What becomes of a window that leaves its tree: nothing where it is in none; a slot on
/// the same desktop stays, one from before a display change that is settling stays, and one
/// on the desktop the window is sent to stays; a float gets none; without a layout there is
/// none; else its slot is recorded on the desktop it leaves.
pub proof fn what_becomes_of_a_window_that_leaves<A>(
    slot: FullscreenSlot<A>,
    leaving: Leaving<A>,
    space: SpaceId,
)
    ensures
        leaving.tiled_on is None ==> slot_outcome(Some(slot), leaving) == SlotRecorded::NotTiled
            && slot_outcome(None, leaving) == SlotRecorded::NotTiled,
        leaving.tiled_on == Some(space) && slot.space != space && (
        leaving.churn_began matches Some(began) && slot.taken < began) ==> slot_outcome(
            Some(slot),
            leaving,
        ) == SlotRecorded::KeptInChurn,
        leaving.tiled_on == Some(space) && slot.space != space && (leaving.churn_began is None
            || slot.taken >= leaving.churn_began->0) && leaving.going_to == Some(slot.space)
            ==> slot_outcome(Some(slot), leaving) == SlotRecorded::KeptGoingHome,
        ({
            let leftover = leaving.tiled_on == Some(space) && slot.space != space && (
            leaving.churn_began is None || slot.taken >= leaving.churn_began->0) && leaving.going_to
                != Some(slot.space);
            &&& leftover && leaving.floating ==> slot_outcome(Some(slot), leaving)
                == SlotRecorded::Floating
            &&& leftover && !leaving.floating && leaving.snapshot is None ==> slot_outcome(
                Some(slot),
                leaving,
            ) == SlotRecorded::NoSnapshot
            &&& leftover && !leaving.floating && leaving.snapshot is Some ==> slot_outcome(
                Some(slot),
                leaving,
            ) == SlotRecorded::Recorded(space)
        }),
        leaving.tiled_on == Some(space) && leaving.floating ==> slot_outcome(None, leaving)
            == SlotRecorded::Floating,
        leaving.tiled_on == Some(space) && !leaving.floating && leaving.snapshot is None
            ==> slot_outcome(None, leaving) == SlotRecorded::NoSnapshot,
        leaving.tiled_on == Some(space) && !leaving.floating && leaving.snapshot is Some
            ==> slot_outcome(None, leaving) == SlotRecorded::Recorded(space),
{
}

/// A slot has the desktop that was left, the layout that was kept and the old neighbour.
pub proof fn what_a_slot_holds<A>(leaving: Leaving<A>, space: SpaceId, taken: Nanos)
    requires
        leaving.snapshot is Some,
    ensures
        slot_left(leaving, space, taken).space == space,
        slot_left(leaving, space, taken).snapshot == leaving.snapshot->0,
        slot_left(leaving, space, taken).anchor == leaving.anchor,
        slot_left(leaving, space, taken).taken == taken,
{
}

/// What is done for a window that is back: nothing without a slot; the slot is dropped on
/// another desktop; after a layout command only its neighbour counts, and never itself;
/// else the layout is put back.
pub proof fn what_is_done_for_a_window_that_is_back<A>(
    slot: FullscreenSlot<A>,
    window: WindowId,
    space: SpaceId,
    commanded: Option<Nanos>,
)
    ensures
        reinstate_outcome::<A>(None, window, space, commanded) is NoSlot,
        slot.space != space ==> reinstate_outcome(Some(slot), window, space, commanded) is Elsewhere,
        slot.space == space && (commanded matches Some(at) && at > slot.taken) && (
        slot.anchor matches Some(anchor) && anchor.0 != window) ==> reinstate_outcome(
            Some(slot),
            window,
            space,
            commanded,
        ) == Reinstate::Anchor(slot.anchor),
        slot.space == space && (commanded matches Some(at) && at > slot.taken) && (
        slot.anchor is None || (slot.anchor->0).0 == window) ==> reinstate_outcome(
            Some(slot),
            window,
            space,
            commanded,
        ) == Reinstate::Anchor(None::<(WindowId, A)>),
        slot.space == space && (commanded is None || commanded->0 <= slot.taken)
            ==> reinstate_outcome(Some(slot), window, space, commanded) == Reinstate::Layout(slot),
{
}

/// A slot moves with its desktop, and else stays.
pub proof fn a_slot_moves_with_its_desktop<A>(
    slot: FullscreenSlot<A>,
    old_space: SpaceId,
    new_space: SpaceId,
)
    ensures
        slot.space == old_space ==> slot_moved(slot, old_space, new_space).space == new_space,
        slot.space != old_space ==> slot_moved(slot, old_space, new_space) == slot,
        slot_moved(slot, old_space, new_space).snapshot == slot.snapshot,
        slot_moved(slot, old_space, new_space).anchor == slot.anchor,
        slot_moved(slot, old_space, new_space).taken == slot.taken,
{
}

/// One more slot waits if its window is not in the tree of the desktop it is on.
pub proof fn which_slots_wait<A>(
    entries: Seq<(WindowId, FullscreenSlot<A>)>,
    one: (WindowId, FullscreenSlot<A>),
    tiled: Seq<(WindowId, SpaceId)>,
)
    ensures
        !tiled.contains((one.0, one.1.space)) ==> entries.push(one).filter_map(awaits(tiled))
            == entries.filter_map(awaits(tiled)).push((one.0, one.1.space)),
        tiled.contains((one.0, one.1.space)) ==> entries.push(one).filter_map(awaits(tiled))
            == entries.filter_map(awaits(tiled)),
{
    crate::lists::lemma_filter_map_push(entries, one, awaits(tiled));
}

/// A window is held by the first desktop whose tree has it.
pub proof fn which_tree_holds_a_window(spaces: Seq<SpaceId>, tiled: Seq<SpaceId>, at: int)
    requires
        0 <= at <= spaces.len(),
        at < spaces.len() ==> tiled.contains(spaces[at]),
        forall|i: int| 0 <= i < at ==> !tiled.contains(#[trigger] spaces[i]),
    ensures
        at < spaces.len() ==> first_tiled(spaces, tiled) == Some(spaces[at]),
        at == spaces.len() ==> first_tiled(spaces, tiled) is None,
{
    crate::display_archive::lemma_first_filtered(spaces, among(tiled), at);
}

proof fn lemma_shown_on_display(screens: Seq<Screen>, space: SpaceId, at: int)
    requires
        0 <= at <= screens.len(),
        at < screens.len() ==> screens[at].space == Some(space),
        forall|i: int| 0 <= i < at ==> (#[trigger] screens[i]).space != Some(space),
    ensures
        at < screens.len() ==> shown_on_display(screens, space) == Some(screens[at].display_uuid@),
        at == screens.len() ==> shown_on_display(screens, space) is None,
    decreases screens.len(),
{
    if at > 0 {
        let rest = screens.skip(1);
        assert(screens[0].space != Some(space));
        assert forall|i: int| 0 <= i < at - 1 implies (#[trigger] rest[i]).space != Some(space) by {
            assert(rest[i] == screens[i + 1]);
        }
        lemma_shown_on_display(rest, space, at - 1);
    }
}

proof fn lemma_listed_on_display(entries: Seq<(String, Vec<SpaceId>)>, space: SpaceId, at: int)
    requires
        0 <= at <= entries.len(),
        at < entries.len() ==> entries[at].1@.contains(space),
        forall|i: int| 0 <= i < at ==> !(#[trigger] entries[i]).1@.contains(space),
    ensures
        at < entries.len() ==> listed_on_display(entries, space) == Some(entries[at].0@),
        at == entries.len() ==> listed_on_display(entries, space) is None,
    decreases entries.len(),
{
    if at > 0 {
        let rest = entries.skip(1);
        assert(!entries[0].1@.contains(space));
        assert forall|i: int| 0 <= i < at - 1 implies !(#[trigger] rest[i]).1@.contains(space) by {
            assert(rest[i] == entries[i + 1]);
        }
        lemma_listed_on_display(rest, space, at - 1);
    }
}

/// A desktop is on the display of the first screen that shows it, else on the first that
/// lists it, else on none.
pub proof fn which_display_a_desktop_is_on(
    screens: Seq<Screen>,
    listing: Listing,
    space: SpaceId,
    shown: int,
    at: int,
)
    requires
        0 <= shown <= screens.len(),
        shown < screens.len() ==> screens[shown].space == Some(space),
        forall|i: int| 0 <= i < shown ==> (#[trigger] screens[i]).space != Some(space),
        0 <= at <= listing.entries@.len(),
        at < listing.entries@.len() ==> listing.entries@[at].1@.contains(space),
        forall|i: int| 0 <= i < at ==> !(#[trigger] listing.entries@[i]).1@.contains(space),
    ensures
        shown < screens.len() ==> display_with(screens, listing, space) == Some(
            screens[shown].display_uuid@,
        ),
        shown == screens.len() && at < listing.entries@.len() ==> display_with(
            screens,
            listing,
            space,
        ) == Some(listing.entries@[at].0@),
        shown == screens.len() && at == listing.entries@.len() ==> display_with(
            screens,
            listing,
            space,
        ) is None,
{
    lemma_shown_on_display(screens, space, shown);
    lemma_listed_on_display(listing.entries@, space, at);
}

/// A window was carried off by a display change, and is sent back, if that was within ten
/// seconds and nothing the user did came after it, nothing else moves its windows, it can
/// be moved, and it is on another display than its slot; and in no other case.
pub proof fn when_a_window_was_carried_off(
    window: Strayed,
    space: SpaceId,
    screens: Seq<Screen>,
    listing: Listing,
)
    ensures
        carried_off(window, space, screens, listing) <==> {
            &&& window.since_churn is Some
            &&& window.since_churn->0 < 10 * crate::clock::SECOND
            &&& window.since_input is None || window.since_input->0 >= window.since_churn->0
            &&& !window.record_stands
            &&& !window.going_home
            &&& window.addition
            &&& window.sys_id is Some
            &&& window.now_on is Some
            &&& window.now_on != Some(space)
            &&& display_with(screens, listing, space) is Some
            &&& display_with(screens, listing, window.now_on->0) is Some
            &&& display_with(screens, listing, space) != display_with(
                screens,
                listing,
                window.now_on->0,
            )
        },
{
}

} // verus!
