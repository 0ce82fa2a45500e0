//! The displays and desktops as they are reported, and what a new report means.

use vstd::prelude::*;

use crate::ids::{SpaceId, WindowServerId};
use crate::lists::{holds, Id, IdSet};
use crate::screens::{Listing, Screen};
use crate::table::Table;

verus! {

/// The displays and desktops, as last reported.
#[derive(Debug)]
pub struct SpaceState {
    pub screens: Vec<Screen>,
    /// The desktops that the report calls active.
    pub active_spaces: Vec<SpaceId>,
    pub fullscreen_spaces: Vec<SpaceId>,
    pub menu_bar_space: Option<SpaceId>,
    /// The desktop that commands are for.
    pub command_space: Option<SpaceId>,
    pub display_space_ids: Listing,
    pub last_user_space_by_display: Table<String, SpaceId>,
    /// Where the window server has the windows of the active desktops.
    pub active_window_spaces: Table<WindowServerId, SpaceId>,
    pub has_seen_display_set: bool,
}

/// A screen shows `space`.
pub open spec fn shown(screens: Seq<Screen>, space: SpaceId) -> bool {
    exists|i: int| 0 <= i < screens.len() && (#[trigger] screens[i]).space == Some(space)
}

/// The first desktop, in the order of the screens, that is among `spaces`.
pub open spec fn first_shown_among(screens: Seq<Screen>, spaces: Seq<SpaceId>) -> Option<SpaceId>
    decreases screens.len(),
{
    if screens.len() == 0 {
        None
    } else if screens[0].space matches Some(space) && spaces.contains(space) {
        screens[0].space
    } else {
        first_shown_among(screens.skip(1), spaces)
    }
}

/// A desktop that a screen shows, if the report calls it active.
pub open spec fn active_on_screen(active: Seq<SpaceId>) -> spec_fn(Screen) -> Option<SpaceId> {
    |screen: Screen|
        match screen.space {
            Some(space) => if active.contains(space) {
                Some(space)
            } else {
                None
            },
            None => None,
        }
}

impl SpaceState {
    pub open spec fn wf(&self) -> bool {
        self.display_space_ids.wf() && self.last_user_space_by_display.wf()
            && self.active_window_spaces.wf()
    }

    pub fn new() -> (state: SpaceState)
        ensures
            state.wf(),
            state.screens@.len() == 0,
            state.active_spaces@.len() == 0,
            state.fullscreen_spaces@.len() == 0,
            state.menu_bar_space is None,
            state.command_space is None,
            state.display_space_ids@ == Map::<Seq<char>, Vec<SpaceId>>::empty(),
            state.last_user_space_by_display@ == Map::<Seq<char>, SpaceId>::empty(),
            state.active_window_spaces@ == Map::<WindowServerId, SpaceId>::empty(),
            !state.has_seen_display_set,
    {
        SpaceState {
            screens: Vec::new(),
            active_spaces: Vec::new(),
            fullscreen_spaces: Vec::new(),
            menu_bar_space: None,
            command_space: None,
            display_space_ids: Table::new(),
            last_user_space_by_display: Table::new(),
            active_window_spaces: Table::new(),
            has_seen_display_set: false,
        }
    }

    /// The screen that shows `space`, the first if several do.
    pub fn screen_by_space(&self, space: SpaceId) -> (at: Option<usize>)
        ensures
            match at {
                Some(at) => at < self.screens@.len() && self.screens@[at as int].space == Some(
                    space,
                ) && forall|i: int| 0 <= i < at ==> (#[trigger] self.screens@[i]).space != Some(
                    space,
                ),
                None => !shown(self.screens@, space),
            },
    {
        let mut i: usize = 0;
        while i < self.screens.len()
            invariant
                i <= self.screens@.len(),
                forall|j: int| 0 <= j < i ==> (#[trigger] self.screens@[j]).space != Some(space),
            decreases self.screens@.len() - i,
        {
            let shows = match self.screens[i].space {
                Some(shown) => shown == space,
                None => false,
            };
            if shows {
                return Some(i);
            }
            i = i + 1;
        }
        None
    }

    pub fn is_fullscreen_space(&self, space: SpaceId) -> (fullscreen: bool)
        ensures
            fullscreen == self.fullscreen_spaces@.contains(space),
    {
        holds(self.fullscreen_spaces.as_slice(), space)
    }

    /// Whether commands are for a desktop that is not a fullscreen one.
    pub fn has_user_space_context(&self) -> (has: bool)
        ensures
            has == (self.command_space matches Some(space) && !self.fullscreen_spaces@.contains(
                space,
            )),
    {
        match self.command_space {
            Some(space) => !self.is_fullscreen_space(space),
            None => false,
        }
    }

    /// The active desktop that commands are for: the reported one if it is
    /// active and shown, else the first that is.
    pub open spec fn active_display(&self) -> Option<SpaceId> {
        match self.command_space {
            Some(space) => if self.active_spaces@.contains(space) && shown(self.screens@, space) {
                Some(space)
            } else {
                first_shown_among(self.screens@, self.active_spaces@)
            },
            None => first_shown_among(self.screens@, self.active_spaces@),
        }
    }

    /// The active desktop that commands are for.
    pub fn active_display_space(&self) -> (space: Option<SpaceId>)
        ensures
            space == self.active_display(),
    {
        match self.command_space {
            Some(space) => {
                if holds(self.active_spaces.as_slice(), space) {
                    match self.screen_by_space(space) {
                        Some(at) => {
                            assert(self.screens@[at as int].space == Some(space));
                            return Some(space);
                        },
                        None => {},
                    }
                }
            },
            None => {},
        }
        let mut i: usize = 0;
        assert(self.screens@.skip(0) =~= self.screens@);
        while i < self.screens.len()
            invariant
                i <= self.screens@.len(),
                first_shown_among(self.screens@, self.active_spaces@) == first_shown_among(
                    self.screens@.skip(i as int),
                    self.active_spaces@,
                ),
                self.active_display() == first_shown_among(self.screens@, self.active_spaces@),
            decreases self.screens@.len() - i,
        {
            match self.screens[i].space {
                Some(space) => {
                    if holds(self.active_spaces.as_slice(), space) {
                        return Some(space);
                    }
                },
                None => {},
            }
            assert(self.screens@.skip(i as int).skip(1) =~= self.screens@.skip(i + 1));
            i = i + 1;
        }
        None
    }

    /// The desktop that workspace commands are for: the active one, if the
    /// manager is active on it.
    pub fn workspace_command_space(&self, managed: &IdSet<SpaceId>) -> (space: Option<SpaceId>)
        ensures
            space == match self.active_display() {
                Some(space) => if managed@.contains(space) {
                    Some(space)
                } else {
                    None
                },
                None => None,
            },
    {
        match self.active_display_space() {
            Some(space) => if managed.contains(space) {
                Some(space)
            } else {
                None
            },
            None => None,
        }
    }

    /// What each screen shows, if the report calls it active.
    pub fn authoritative_spaces_for_current_screens(&self) -> (spaces: Vec<Option<SpaceId>>)
        ensures
            spaces@ == self.screens@.map_values(active_on_screen(self.active_spaces@)),
    {
        let ghost f = active_on_screen(self.active_spaces@);
        let mut spaces: Vec<Option<SpaceId>> = Vec::new();
        let mut i: usize = 0;
        while i < self.screens.len()
            invariant
                f == active_on_screen(self.active_spaces@),
                i <= self.screens@.len(),
                spaces@ == self.screens@.map_values(f).take(i as int),
            decreases self.screens@.len() - i,
        {
            let space = match self.screens[i].space {
                Some(space) => if holds(self.active_spaces.as_slice(), space) {
                    Some(space)
                } else {
                    None
                },
                None => None,
            };
            spaces.push(space);
            assert(spaces@ =~= self.screens@.map_values(f).take(i + 1));
            i = i + 1;
        }
        assert(self.screens@.map_values(f).take(i as int) =~= self.screens@.map_values(f));
        spaces
    }
}

/// The desktops among `spaces`.
pub open spec fn present(spaces: Seq<Option<SpaceId>>) -> Set<SpaceId> {
    Set::new(|space: SpaceId| spaces.contains(Some(space)))
}

/// The desktops the manager is active on.
pub fn active_set(spaces: &[Option<SpaceId>]) -> (active: IdSet<SpaceId>)
    ensures
        active.wf(),
        active@ == present(spaces@),
{
    let mut active: IdSet<SpaceId> = IdSet::new();
    let mut i: usize = 0;
    assert(active@ =~= present(spaces@.take(0)));
    while i < spaces.len()
        invariant
            i <= spaces@.len(),
            active.wf(),
            active@ == present(spaces@.take(i as int)),
        decreases spaces@.len() - i,
    {
        let ghost before = active@;
        match spaces[i] {
            Some(space) => {
                let _ = active.insert(space);
            },
            None => {},
        }
        proof {
            let so_far = spaces@.take(i as int);
            let next = spaces@.take(i + 1);
            assert(next[i as int] == spaces@[i as int]);
            assert forall|space: SpaceId| #[trigger]
                active@.contains(space) == present(next).contains(space) by {
                if so_far.contains(Some(space)) {
                    let k = choose|k: int| 0 <= k < so_far.len() && so_far[k] == Some(space);
                    assert(next[k] == Some(space));
                }
                if next.contains(Some(space)) {
                    let k = choose|k: int| 0 <= k < next.len() && next[k] == Some(space);
                    if k < i {
                        assert(so_far[k] == Some(space));
                    }
                }
                assert(before.contains(space) == so_far.contains(Some(space)));
            }
            assert(active@ =~= present(next));
        }
        i = i + 1;
    }
    assert(spaces@.take(i as int) =~= spaces@);
    active
}

/// What of `these` is not in `those`.
pub fn missing_from<T: Id>(these: &IdSet<T>, those: &IdSet<T>) -> (missing: Vec<T>)
    ensures
        missing@.to_set() == these@.difference(those@),
        these.wf() ==> missing@.no_duplicates(),
{
    let missing = crate::lists::drop_listed(these.items.as_slice(), those.items.as_slice());
    proof {
        let p = crate::lists::not_among(those.items@);
        let places = crate::table::lemma_filter_places(these.items@, p);
        assert forall|item: T| #[trigger]
            missing@.to_set().contains(item) == these@.difference(those@).contains(item) by {
            if missing@.contains(item) {
                let i = choose|i: int| 0 <= i < missing@.len() && missing@[i] == item;
                assert(0 <= places[i] < these.items@.len());
                assert(these.items@[places[i]] == item);
            }
            if these.items@.contains(item) && !those.items@.contains(item) {
                let x = choose|x: int| 0 <= x < these.items@.len() && these.items@[x] == item;
                assert(p(these.items@[x]));
                let i = choose|i: int| 0 <= i < places.len() && places[i] == x;
                assert(missing@[i] == item);
            }
        }
        assert(missing@.to_set() =~= these@.difference(those@));
        if these.wf() {
            assert forall|i: int, j: int|
                0 <= i < missing@.len() && 0 <= j < missing@.len() && i != j implies missing@[i]
                != missing@[j] by {
                assert(these.items@[places[i]] == missing@[i]);
                assert(these.items@[places[j]] == missing@[j]);
                if i < j {
                    assert(places[i] < places[j]);
                } else {
                    assert(places[j] < places[i]);
                }
            }
        }
    }
    missing
}

/// What a change of the active desktops asks for: the desktops to lay out, and
/// whether windows are to be looked at anew.
#[derive(Debug)]
pub struct ActiveChange {
    pub activated: Vec<SpaceId>,
    pub refresh: bool,
}

/// What a change of the active desktops asks for: each desktop that was not
/// active is laid out once. A desktop that is merely deactivated keeps its
/// windows.
pub fn handle_active_space_change(previous: &IdSet<SpaceId>, now: &IdSet<SpaceId>) -> (change:
    ActiveChange)
    ensures
        change.activated@.to_set() == now@.difference(previous@),
        now.wf() ==> change.activated@.no_duplicates(),
        change.refresh == (previous@ != now@),
{
    let activated = missing_from(now, previous);
    let deactivated = missing_from(previous, now);
    let refresh = activated.len() > 0 || deactivated.len() > 0;
    proof {
        if previous@ == now@ {
            if activated@.len() > 0 {
                assert(activated@.to_set().contains(activated@[0]));
            }
            if deactivated@.len() > 0 {
                assert(deactivated@.to_set().contains(deactivated@[0]));
            }
        } else if !refresh {
            assert(activated@.to_set() =~= Set::empty());
            assert(deactivated@.to_set() =~= Set::empty());
            assert forall|space: SpaceId| #[trigger]
                previous@.contains(space) == now@.contains(space) by {
                assert(!now@.difference(previous@).contains(space));
                assert(!previous@.difference(now@).contains(space));
            }
            assert(previous@ =~= now@);
        }
    }
    ActiveChange { activated, refresh }
}

/// Two listings list the same desktops in the same order under the same
/// displays.
pub open spec fn same_listing(a: Listing, b: Listing) -> bool {
    forall|uuid: Seq<char>|
        match (#[trigger] a.at(uuid), b.at(uuid)) {
            (Some(a), Some(b)) => a@ == b@,
            (None, None) => true,
            _ => false,
        }
}

fn listing_within(a: &Listing, b: &Listing) -> (within: bool)
    requires
        a.wf(),
        b.wf(),
    ensures
        within == forall|uuid: Seq<char>|
            (#[trigger] a.at(uuid)) matches Some(a) ==> (b.at(uuid) matches Some(b) && a@ == b@),
{
    let mut i: usize = 0;
    while i < a.entries.len()
        invariant
            a.wf(),
            b.wf(),
            i <= a.entries@.len(),
            forall|j: int|
                0 <= j < i ==> (b.at((#[trigger] a.entries@[j]).0@) matches Some(there)
                    && a.entries@[j].1@ == there@),
        decreases a.entries@.len() - i,
    {
        proof {
            a.lemma_at(i as int);
            assert(a.at(a.entries@[i as int].0@) is Some);
        }
        match b.get(&a.entries[i].0) {
            Some(there) => {
                if !crate::reconcile::same_list(a.entries[i].1.as_slice(), there.as_slice()) {
                    return false;
                }
            },
            None => {
                return false;
            },
        }
        i = i + 1;
    }
    proof {
        assert forall|uuid: Seq<char>|
            (#[trigger] a.at(uuid)) matches Some(here) ==> (b.at(uuid) matches Some(there) && here@
                == there@) by {
            if a@.contains_key(uuid) {
                let j = a.index_of(uuid);
                assert(a.has_at(j, uuid));
                assert(a.entries@[j].0@ == uuid);
            }
        }
    }
    true
}

/// Whether two listings list the same.
pub fn is_same_listing(a: &Listing, b: &Listing) -> (same: bool)
    requires
        a.wf(),
        b.wf(),
    ensures
        same == same_listing(*a, *b),
{
    let there = listing_within(a, b);
    let back = listing_within(b, a);
    proof {
        if there && back {
            assert forall|uuid: Seq<char>|
                match (#[trigger] a.at(uuid), b.at(uuid)) {
                    (Some(a), Some(b)) => a@ == b@,
                    (None, None) => true,
                    _ => false,
                } by {
                if b.at(uuid) is Some {
                    assert(a.at(uuid) is Some);
                }
            }
        }
        if same_listing(*a, *b) {
            assert forall|uuid: Seq<char>|
                (#[trigger] b.at(uuid)) matches Some(here) ==> (a.at(uuid) matches Some(there)
                    && here@ == there@) by {
                assert(a.at(uuid) == a.at(uuid));
            }
        }
    }
    there && back
}

fn table_within(a: &Table<WindowServerId, SpaceId>, b: &Table<WindowServerId, SpaceId>) -> (within:
    bool)
    requires
        a.wf(),
        b.wf(),
    ensures
        within == forall|window: WindowServerId|
            (#[trigger] a.at(window)) is Some ==> b.at(window) == a.at(window),
{
    let mut i: usize = 0;
    while i < a.entries.len()
        invariant
            a.wf(),
            b.wf(),
            i <= a.entries@.len(),
            forall|j: int|
                0 <= j < i ==> b.at((#[trigger] a.entries@[j]).0) == Some(a.entries@[j].1),
        decreases a.entries@.len() - i,
    {
        proof {
            a.lemma_at(i as int);
            assert(a.at(a.entries@[i as int].0) is Some);
        }
        let same = match b.get(&a.entries[i].0) {
            Some(there) => *there == a.entries[i].1,
            None => false,
        };
        if !same {
            return false;
        }
        i = i + 1;
    }
    proof {
        assert forall|window: WindowServerId|
            (#[trigger] a.at(window)) is Some implies b.at(window) == a.at(window) by {
            let j = a.index_of(window);
            assert(a.has_at(j, window));
            a.lemma_at(j);
            assert(a.entries@[j].0 == window);
        }
    }
    true
}

/// Two screens say the same, but for their frames.
pub open spec fn same_screen(a: Screen, b: Screen) -> bool {
    a.display_uuid@ == b.display_uuid@ && a.space == b.space && a.has_area == b.has_area
}

/// The screens are the same, in the same order, but for their frames.
pub open spec fn same_screens(a: Seq<Screen>, b: Seq<Screen>) -> bool {
    a.len() == b.len() && forall|i: int|
        0 <= i < a.len() ==> same_screen(#[trigger] a[i], b[i])
}

fn is_same_screens(a: &Vec<Screen>, b: &Vec<Screen>) -> (same: bool)
    ensures
        same == same_screens(a@, b@),
{
    if a.len() != b.len() {
        return false;
    }
    let mut i: usize = 0;
    while i < a.len()
        invariant
            a@.len() == b@.len(),
            i <= a@.len(),
            forall|j: int| 0 <= j < i ==> same_screen(#[trigger] a@[j], b@[j]),
        decreases a@.len() - i,
    {
        let spaces = match (a[i].space, b[i].space) {
            (Some(a), Some(b)) => a == b,
            (None, None) => true,
            _ => false,
        };
        if !(a[i].display_uuid == b[i].display_uuid && spaces && a[i].has_area == b[i].has_area) {
            assert(!same_screen(a@[i as int], b@[i as int]));
            return false;
        }
        i = i + 1;
    }
    true
}

/// Two lists hold the same.
pub open spec fn same_members(a: Seq<SpaceId>, b: Seq<SpaceId>) -> bool {
    a.to_set() == b.to_set()
}

fn members_within(a: &[SpaceId], b: &[SpaceId]) -> (within: bool)
    ensures
        within == forall|space: SpaceId| #[trigger] a@.contains(space) ==> b@.contains(space),
{
    let mut i: usize = 0;
    while i < a.len()
        invariant
            i <= a@.len(),
            forall|j: int| 0 <= j < i ==> b@.contains(#[trigger] a@[j]),
        decreases a@.len() - i,
    {
        if !holds(b, a[i]) {
            assert(a@.contains(a@[i as int]));
            return false;
        }
        i = i + 1;
    }
    true
}

impl SpaceState {
    /// The incoming report is of another topology: other screens, active
    /// desktops, listed desktops or windows on them.
    pub open spec fn differs(&self, incoming: &SpaceState, frames_differ: bool) -> bool {
        ||| frames_differ
        ||| !same_screens(self.screens@, incoming.screens@)
        ||| !same_members(self.active_spaces@, incoming.active_spaces@)
        ||| !same_listing(self.display_space_ids, incoming.display_space_ids)
        ||| exists|window: WindowServerId| #[trigger]
            self.active_window_spaces.at(window) != incoming.active_window_spaces.at(window)
    }

    /// Whether the incoming report is of another topology, `frames_differ`
    /// saying whether a screen has another frame.
    pub fn topology_changed(&self, incoming: &SpaceState, frames_differ: bool) -> (changed: bool)
        requires
            self.wf(),
            incoming.wf(),
        ensures
            changed == self.differs(incoming, frames_differ),
    {
        if frames_differ || !is_same_screens(&self.screens, &incoming.screens) {
            return true;
        }
        let there = members_within(self.active_spaces.as_slice(), incoming.active_spaces.as_slice());
        let back = members_within(incoming.active_spaces.as_slice(), self.active_spaces.as_slice());
        proof {
            let a = self.active_spaces@;
            let b = incoming.active_spaces@;
            assert((there && back) == same_members(a, b)) by {
                if there && back {
                    assert forall|space: SpaceId| #[trigger]
                        a.to_set().contains(space) == b.to_set().contains(space) by {
                        assert(a.contains(space) == a.contains(space));
                        assert(b.contains(space) == b.contains(space));
                    }
                    assert(a.to_set() =~= b.to_set());
                }
                if same_members(a, b) {
                    assert forall|space: SpaceId| #[trigger]
                        a.contains(space) implies b.contains(space) by {
                        assert(a.to_set().contains(space));
                    }
                    assert forall|space: SpaceId| #[trigger]
                        b.contains(space) implies a.contains(space) by {
                        assert(b.to_set().contains(space));
                    }
                }
            }
        }
        if !there || !back || !is_same_listing(
            &self.display_space_ids,
            &incoming.display_space_ids,
        ) {
            return true;
        }
        let there = table_within(&self.active_window_spaces, &incoming.active_window_spaces);
        let back = table_within(&incoming.active_window_spaces, &self.active_window_spaces);
        proof {
            let a = self.active_window_spaces;
            let b = incoming.active_window_spaces;
            if there && back {
                assert forall|window: WindowServerId| #[trigger] a.at(window) == b.at(window) by {
                    if a.at(window) is None && b.at(window) is Some {
                        assert(a.at(window) == b.at(window));
                    }
                }
            }
            if !there {
                let window = choose|window: WindowServerId|
                    (#[trigger] a.at(window)) is Some && b.at(window) != a.at(window);
                assert(a.at(window) != b.at(window));
            }
            if !back {
                let window = choose|window: WindowServerId|
                    (#[trigger] b.at(window)) is Some && a.at(window) != b.at(window);
                assert(a.at(window) != b.at(window));
            }
        }
        !there || !back
    }
}

proof fn lemma_first_shown(screens: Seq<Screen>, spaces: Seq<SpaceId>, at: int)
    requires
        0 <= at <= screens.len(),
        at < screens.len() ==> screens[at].space is Some && spaces.contains(screens[at].space->0),
        forall|i: int|
            0 <= i < at ==> (#[trigger] screens[i]).space is None || !spaces.contains(
                screens[i].space->0,
            ),
    ensures
        at < screens.len() ==> first_shown_among(screens, spaces) == screens[at].space,
        at == screens.len() ==> first_shown_among(screens, spaces) is None,
    decreases screens.len(),
{
    if at > 0 {
        let rest = screens.skip(1);
        assert(screens[0].space is None || !spaces.contains(screens[0].space->0));
        assert forall|i: int| 0 <= i < at - 1 implies (#[trigger] rest[i]).space is None
            || !spaces.contains(rest[i].space->0) by {
            assert(rest[i] == screens[i + 1]);
        }
        lemma_first_shown(rest, spaces, at - 1);
    }
}

/// Commands are for the reported desktop if it is active and shown; else for the
/// first active one, in the order of the screens; and for none if none is shown.
pub proof fn which_desktop_commands_are_for(state: SpaceState, at: int)
    requires
        0 <= at <= state.screens@.len(),
        at < state.screens@.len() ==> state.screens@[at].space is Some
            && state.active_spaces@.contains(state.screens@[at].space->0),
        forall|i: int|
            0 <= i < at ==> (#[trigger] state.screens@[i]).space is None
                || !state.active_spaces@.contains(state.screens@[i].space->0),
    ensures
        ({
            let named = state.command_space is Some && state.active_spaces@.contains(
                state.command_space->0,
            ) && exists|i: int|
                0 <= i < state.screens@.len() && (#[trigger] state.screens@[i]).space
                    == state.command_space;
            &&& named ==> state.active_display() == state.command_space
            &&& !named && at < state.screens@.len() ==> state.active_display()
                == state.screens@[at].space
            &&& !named && at == state.screens@.len() ==> state.active_display() is None
        }),
{
    lemma_first_shown(state.screens@, state.active_spaces@, at);
}

/// A screen counts as showing a desktop that the report calls active, and no other.
pub proof fn what_a_screen_counts_for(active: Seq<SpaceId>, screen: Screen, space: SpaceId)
    ensures
        active_on_screen(active)(screen) == Some(space) <==> screen.space == Some(space)
            && active.contains(space),
{
}

/// A report is of another topology if a screen came, went, moved or shows another
/// desktop, if another desktop is active, if a display lists others or in another
/// order, or if a window is on another desktop; and otherwise it is not.
pub proof fn what_makes_another_topology(
    state: SpaceState,
    incoming: SpaceState,
    frames_differ: bool,
    i: int,
    space: SpaceId,
    uuid: Seq<char>,
    window: WindowServerId,
)
    ensures
        frames_differ ==> state.differs(&incoming, frames_differ),
        state.screens@.len() != incoming.screens@.len() ==> state.differs(&incoming, frames_differ),
        0 <= i < state.screens@.len() && i < incoming.screens@.len() && (
        state.screens@[i].display_uuid@ != incoming.screens@[i].display_uuid@
            || state.screens@[i].space != incoming.screens@[i].space || state.screens@[i].has_area
            != incoming.screens@[i].has_area) ==> state.differs(&incoming, frames_differ),
        state.active_spaces@.contains(space) != incoming.active_spaces@.contains(space)
            ==> state.differs(&incoming, frames_differ),
        state.display_space_ids.at(uuid) is Some && incoming.display_space_ids.at(uuid) is Some
            && (state.display_space_ids.at(uuid)->0)@ != (incoming.display_space_ids.at(uuid)->0)@
            ==> state.differs(&incoming, frames_differ),
        state.display_space_ids.at(uuid) is Some != incoming.display_space_ids.at(uuid) is Some
            ==> state.differs(&incoming, frames_differ),
        state.active_window_spaces.at(window) != incoming.active_window_spaces.at(window)
            ==> state.differs(&incoming, frames_differ),
{
    if state.active_spaces@.contains(space) != incoming.active_spaces@.contains(space) {
        assert(state.active_spaces@.to_set().contains(space)
            != incoming.active_spaces@.to_set().contains(space));
    }
    if 0 <= i < state.screens@.len() && i < incoming.screens@.len() && (
    state.screens@[i].display_uuid@ != incoming.screens@[i].display_uuid@ || state.screens@[i].space
        != incoming.screens@[i].space || state.screens@[i].has_area != incoming.screens@[i].has_area) {
        assert(!same_screen(state.screens@[i], incoming.screens@[i]));
    }
}

/// A report that says the same is of the same topology, whatever else it says.
pub proof fn the_same_report_is_the_same_topology(state: SpaceState, incoming: SpaceState)
    requires
        state.screens@ == incoming.screens@,
        state.active_spaces@ == incoming.active_spaces@,
        state.display_space_ids == incoming.display_space_ids,
        state.active_window_spaces == incoming.active_window_spaces,
    ensures
        !state.differs(&incoming, false),
{
}

/// Listings are the same if each display lists the same desktops in the same order in both,
/// or in neither.
pub proof fn when_listings_are_the_same(a: Listing, b: Listing, uuid: Seq<char>)
    ensures
        same_listing(a, a),
        same_listing(a, b) ==> same_listing(b, a),
        a.at(uuid) is Some && b.at(uuid) is None ==> !same_listing(a, b),
        a.at(uuid) is None && b.at(uuid) is Some ==> !same_listing(a, b),
        a.at(uuid) is Some && b.at(uuid) is Some && a.at(uuid)->0@ != b.at(uuid)->0@
            ==> !same_listing(a, b),
{
    if same_listing(a, b) {
        assert forall|other: Seq<char>|
            match (#[trigger] b.at(other), a.at(other)) {
                (Some(a), Some(b)) => a@ == b@,
                (None, None) => true,
                _ => false,
            } by {
            assert(a.at(other) is Some == b.at(other) is Some);
        }
    }
}

/// A desktop is present if one of the places has it.
pub proof fn which_desktops_are_present(spaces: Seq<Option<SpaceId>>, space: SpaceId)
    ensures
        present(spaces).contains(space) <==> exists|i: int|
            0 <= i < spaces.len() && (#[trigger] spaces[i]) == Some(space),
{
}

} // verus!
