//! Taking the record when a display departs.

use vstd::prelude::*;

use crate::clock::Nanos;
use crate::display_record::{DisplayRecord, RecordedDisplay};
use crate::ids::{SpaceId, WindowId};
use crate::layout::LayoutMode;
use crate::lists::{append_list, copy_list, holds, Id, IdSet};
use crate::screens::{holds_name, named, shown_by, shown_on, Listing, Screen};
use crate::table::{Key, Table};

verus! {

/// Every desktop's tree, windows and layout modes at one moment.
#[derive(Debug)]
pub struct LayoutSnapshot {
    pub layout: String,
    /// Every desktop's windows, in layout order.
    pub members: Table<SpaceId, Vec<WindowId>>,
    /// Every desktop's workspaces' layout modes.
    pub modes: Table<SpaceId, Vec<LayoutMode>>,
}

/// The same lists under the same desktops, in the same order.
pub open spec fn same_lists<T>(a: Table<SpaceId, Vec<T>>, b: Table<SpaceId, Vec<T>>) -> bool {
    &&& a.entries@.len() == b.entries@.len()
    &&& forall|i: int|
        0 <= i < a.entries@.len() ==> (#[trigger] a.entries@[i]).0 == b.entries@[i].0
            && a.entries@[i].1@ == b.entries@[i].1@
}

fn copy_lists<T: Id>(table: &Table<SpaceId, Vec<T>>) -> (copy: Table<SpaceId, Vec<T>>)
    requires
        table.wf(),
    ensures
        copy.wf(),
        same_lists(copy, *table),
{
    let mut entries: Vec<(SpaceId, Vec<T>)> = Vec::new();
    let mut i: usize = 0;
    while i < table.entries.len()
        invariant
            i <= table.entries@.len(),
            entries@.len() == i,
            forall|j: int|
                0 <= j < i ==> (#[trigger] entries@[j]).0 == table.entries@[j].0 && entries@[j].1@
                    == table.entries@[j].1@,
        decreases table.entries@.len() - i,
    {
        entries.push((table.entries[i].0, copy_list(table.entries[i].1.as_slice())));
        i = i + 1;
    }
    let copy = Table { entries };
    assert(copy.wf()) by {
        assert forall|i: int, j: int| 0 <= i < j < copy.entries@.len() implies (
        #[trigger] copy.entries@[i]).0.model() != (#[trigger] copy.entries@[j]).0.model() by {
            assert(table.entries@[i].0.model() != table.entries@[j].0.model());
        }
    }
    copy
}

impl LayoutSnapshot {
    pub open spec fn wf(&self) -> bool {
        self.members.wf() && self.modes.wf()
    }

    /// The other says the same.
    pub open spec fn same_as(&self, other: LayoutSnapshot) -> bool {
        &&& self.layout@ == other.layout@
        &&& same_lists(self.members, other.members)
        &&& same_lists(self.modes, other.modes)
    }

    pub fn copy(&self) -> (copy: LayoutSnapshot)
        requires
            self.wf(),
        ensures
            copy.wf(),
            copy.same_as(*self),
    {
        LayoutSnapshot {
            layout: self.layout.clone(),
            members: copy_lists(&self.members),
            modes: copy_lists(&self.modes),
        }
    }
}

/// What a recorded display says.
pub struct DisplayView {
    pub uuid: Seq<char>,
    pub desktops: Seq<SpaceId>,
    pub shown: Option<SpaceId>,
}

impl RecordedDisplay {
    pub open spec fn view(&self) -> DisplayView {
        DisplayView { uuid: self.uuid@, desktops: self.desktops@, shown: self.shown }
    }

    pub fn copy(&self) -> (copy: RecordedDisplay)
        ensures
            copy@ == self@,
    {
        RecordedDisplay {
            uuid: self.uuid.clone(),
            desktops: copy_list(self.desktops.as_slice()),
            shown: self.shown,
        }
    }
}

/// What a list of recorded displays says.
pub open spec fn display_views(displays: Seq<RecordedDisplay>) -> Seq<DisplayView> {
    displays.map_values(|display: RecordedDisplay| display@)
}

/// What is listed and shown, as displays to record.
pub open spec fn displays_listed(listing: Listing, screens: Seq<Screen>) -> Seq<DisplayView> {
    Seq::new(
        listing.entries@.len(),
        |i: int|
            DisplayView {
                uuid: listing.entries@[i].0@,
                desktops: listing.entries@[i].1@,
                shown: shown_by(screens, listing.entries@[i].0@),
            },
    )
}

/// The displays a record is about: the last whole set the window server
/// reported, else what it lists now.
pub open spec fn displays_to_record(
    whole: Option<Seq<DisplayView>>,
    listing: Listing,
    screens: Seq<Screen>,
) -> Seq<DisplayView> {
    match whole {
        Some(whole) => whole,
        None => displays_listed(listing, screens),
    }
}

fn copy_displays(displays: &Vec<RecordedDisplay>) -> (copy: Vec<RecordedDisplay>)
    ensures
        display_views(copy@) == display_views(displays@),
{
    let mut copy: Vec<RecordedDisplay> = Vec::new();
    let mut i: usize = 0;
    while i < displays.len()
        invariant
            i <= displays@.len(),
            display_views(copy@) == display_views(displays@.take(i as int)),
        decreases displays@.len() - i,
    {
        let ghost before = copy@;
        copy.push(displays[i].copy());
        proof {
            assert(display_views(copy@) =~= display_views(before).push(displays@[i as int]@));
            assert(display_views(displays@.take(i + 1)) =~= display_views(
                displays@.take(i as int),
            ).push(displays@[i as int]@));
        }
        i = i + 1;
    }
    assert(displays@.take(i as int) =~= displays@);
    copy
}

fn displays_now(listing: &Listing, screens: &[Screen]) -> (displays: Vec<RecordedDisplay>)
    ensures
        display_views(displays@) == displays_listed(*listing, screens@),
{
    let mut displays: Vec<RecordedDisplay> = Vec::new();
    let mut i: usize = 0;
    while i < listing.entries.len()
        invariant
            i <= listing.entries@.len(),
            displays@.len() == i,
            forall|j: int|
                0 <= j < i ==> (#[trigger] displays@[j])@ == displays_listed(*listing, screens@)[j],
        decreases listing.entries@.len() - i,
    {
        let uuid = listing.entries[i].0.clone();
        let shown = shown_on(screens, &uuid);
        displays.push(
            RecordedDisplay { uuid, desktops: copy_list(listing.entries[i].1.as_slice()), shown },
        );
        i = i + 1;
    }
    assert(display_views(displays@) =~= displays_listed(*listing, screens@));
    displays
}

/// `display` stayed: it is active, and not among the departed.
pub open spec fn stayed(display: DisplayView, departed: Seq<String>, active: Seq<String>) -> bool {
    named(active, display.uuid) && !named(departed, display.uuid)
}

/// The first of the displays that stayed.
pub open spec fn first_stayed(
    displays: Seq<DisplayView>,
    departed: Seq<String>,
    active: Seq<String>,
    at: int,
) -> bool {
    &&& 0 <= at < displays.len()
    &&& stayed(displays[at], departed, active)
    &&& forall|i: int| 0 <= i < at ==> !stayed(#[trigger] displays[i], departed, active)
}

/// One of `displays` departed.
pub open spec fn departs(displays: Seq<DisplayView>, departed: Seq<String>) -> bool {
    exists|i: int| 0 <= i < displays.len() && named(departed, (#[trigger] displays[i]).uuid)
}

fn find_survivor(
    displays: &Vec<RecordedDisplay>,
    departed: &[String],
    active: &[String],
) -> (survivor: Option<usize>)
    ensures
        match survivor {
            Some(at) => first_stayed(display_views(displays@), departed@, active@, at as int),
            None => forall|i: int|
                0 <= i < displays@.len() ==> !stayed(
                    #[trigger] display_views(displays@)[i],
                    departed@,
                    active@,
                ),
        },
{
    let mut i: usize = 0;
    while i < displays.len()
        invariant
            i <= displays@.len(),
            forall|j: int|
                0 <= j < i ==> !stayed(
                    #[trigger] display_views(displays@)[j],
                    departed@,
                    active@,
                ),
        decreases displays@.len() - i,
    {
        assert(display_views(displays@)[i as int] == displays@[i as int]@);
        if holds_name(active, &displays[i].uuid) && !holds_name(departed, &displays[i].uuid) {
            return Some(i);
        }
        i = i + 1;
    }
    None
}

fn any_departs(displays: &Vec<RecordedDisplay>, departed: &[String]) -> (any: bool)
    ensures
        any == departs(display_views(displays@), departed@),
{
    let mut i: usize = 0;
    while i < displays.len()
        invariant
            i <= displays@.len(),
            forall|j: int|
                0 <= j < i ==> !named(departed@, (#[trigger] display_views(displays@)[j]).uuid),
        decreases displays@.len() - i,
    {
        assert(display_views(displays@)[i as int] == displays@[i as int]@);
        if holds_name(departed, &displays[i].uuid) {
            return true;
        }
        i = i + 1;
    }
    false
}

/// The desktop under which `wid` is listed last.
pub open spec fn home_of(members: Seq<(SpaceId, Vec<WindowId>)>, wid: WindowId) -> Option<SpaceId>
    decreases members.len(),
{
    if members.len() == 0 {
        None
    } else if members.last().1@.contains(wid) {
        Some(members.last().0)
    } else {
        home_of(members.drop_last(), wid)
    }
}

/// Where each of the windows that are still known belongs.
fn file_windows(members: &Table<SpaceId, Vec<WindowId>>, known: &[WindowId]) -> (windows: Table<
    WindowId,
    SpaceId,
>)
    ensures
        windows.wf(),
        forall|wid: WindowId| #[trigger]
            windows.at(wid) == if known@.contains(wid) {
                home_of(members.entries@, wid)
            } else {
                None
            },
{
    let mut windows: Table<WindowId, SpaceId> = Table::new();
    let mut i: usize = 0;
    while i < members.entries.len()
        invariant
            i <= members.entries@.len(),
            windows.wf(),
            forall|wid: WindowId| #[trigger]
                windows.at(wid) == if known@.contains(wid) {
                    home_of(members.entries@.take(i as int), wid)
                } else {
                    None
                },
        decreases members.entries@.len() - i,
    {
        let space = members.entries[i].0;
        let ghost before = windows;
        let ghost listed = members.entries@[i as int].1@;
        let mut j: usize = 0;
        while j < members.entries[i].1.len()
            invariant
                i < members.entries@.len(),
                listed == members.entries@[i as int].1@,
                space == members.entries@[i as int].0,
                j <= listed.len(),
                windows.wf(),
                forall|wid: WindowId| #[trigger]
                    windows.at(wid) == if known@.contains(wid) && listed.take(j as int).contains(
                        wid,
                    ) {
                        Some(space)
                    } else {
                        before.at(wid)
                    },
            decreases listed.len() - j,
        {
            let wid = members.entries[i].1[j];
            let ghost so_far = windows;
            if holds(known, wid) {
                windows.insert(wid, space);
            }
            proof {
                assert(listed.take(j + 1) =~= listed.take(j as int).push(wid));
                assert forall|w: WindowId| #[trigger]
                    windows.at(w) == if known@.contains(w) && listed.take(j + 1).contains(w) {
                        Some(space)
                    } else {
                        before.at(w)
                    } by {
                    crate::screens::lemma_concat_contains(listed.take(j as int), seq![wid], w);
                    assert(listed.take(j as int) + seq![wid] =~= listed.take(j + 1));
                    assert(so_far.at(w) == so_far.at(w));
                    if seq![wid].contains(w) {
                        assert(w == wid);
                    }
                    if w == wid {
                        assert(seq![wid][0] == w);
                    }
                }
            }
            j = j + 1;
        }
        proof {
            assert(listed.take(j as int) =~= listed);
            let next = members.entries@.take(i + 1);
            assert(next.drop_last() =~= members.entries@.take(i as int));
            assert(next.last() == members.entries@[i as int]);
            assert forall|w: WindowId| #[trigger]
                windows.at(w) == if known@.contains(w) {
                    home_of(next, w)
                } else {
                    None
                } by {
                assert(before.at(w) == before.at(w));
            }
        }
        i = i + 1;
    }
    assert(members.entries@.take(i as int) =~= members.entries@);
    windows
}

/// Every desktop of the recorded displays.
pub open spec fn recorded_desktops(displays: Seq<DisplayView>) -> Seq<SpaceId>
    decreases displays.len(),
{
    if displays.len() == 0 {
        seq![]
    } else {
        recorded_desktops(displays.drop_last()) + displays.last().desktops
    }
}

/// Every desktop of the recorded displays.
pub fn all_recorded(displays: &Vec<RecordedDisplay>) -> (spaces: Vec<SpaceId>)
    ensures
        spaces@ == recorded_desktops(display_views(displays@)),
{
    let mut spaces: Vec<SpaceId> = Vec::new();
    let mut i: usize = 0;
    while i < displays.len()
        invariant
            i <= displays@.len(),
            spaces@ == recorded_desktops(display_views(displays@).take(i as int)),
        decreases displays@.len() - i,
    {
        append_list(&mut spaces, displays[i].desktops.as_slice());
        proof {
            let next = display_views(displays@).take(i + 1);
            assert(next.drop_last() =~= display_views(displays@).take(i as int));
            assert(next.last() == displays@[i as int]@);
        }
        i = i + 1;
    }
    assert(display_views(displays@).take(i as int) =~= display_views(displays@));
    spaces
}

/// A record can be taken of `displays`: one of them departed, and one stayed.
pub open spec fn can_record(
    displays: Seq<DisplayView>,
    departed: Seq<String>,
    active: Seq<String>,
) -> bool {
    departs(displays, departed) && exists|at: int| first_stayed(displays, departed, active, at)
}

/// `record` is what is taken of `displays` at `now`.
pub open spec fn is_record_of(
    record: DisplayRecord,
    displays: Seq<DisplayView>,
    departed: Seq<String>,
    active: Seq<String>,
    snapshot: LayoutSnapshot,
    known: Seq<WindowId>,
    now: Nanos,
) -> bool {
    &&& record.taken == now
    &&& record.churn_seen == now
    &&& record.layout == snapshot.layout
    &&& record.members == snapshot.members
    &&& record.modes == snapshot.modes
    &&& display_views(record.displays@) == displays
    &&& exists|at: int|
        first_stayed(displays, departed, active, at) && record.survivor@ == displays[at].uuid
    &&& record.seen@ == recorded_desktops(displays).to_set()
    &&& forall|wid: WindowId| #[trigger]
        record.windows.at(wid) == if known.contains(wid) {
            home_of(snapshot.members.entries@, wid)
        } else {
            None
        }
    &&& record.placed@ == Map::<WindowId, (SpaceId, Nanos)>::empty()
    &&& record.own_moves@ == Set::<WindowId>::empty()
    &&& record.stopgaps@.len() == 0
    &&& !record.settled
    &&& record.pass is None
}

/// Takes the record of a departure, unless one stands already: the state from
/// before the first departure is the one to go back to. Nothing is recorded
/// when none of the displays departed, none stayed, or the layout could not be
/// had.
pub fn record_departure(
    record: &mut Option<DisplayRecord>,
    departed: &[String],
    active: &[String],
    whole: &Option<Vec<RecordedDisplay>>,
    listing: &Listing,
    screens: &[Screen],
    snapshot: Option<LayoutSnapshot>,
    known: &[WindowId],
    now: Nanos,
) -> (taken: bool)
    requires
        snapshot matches Some(snapshot) ==> snapshot.wf(),
        *old(record) matches Some(record) ==> record.wf(),
    ensures
        *final(record) matches Some(record) ==> record.wf(),
        ({
            let displays = displays_to_record(
                match *whole {
                    Some(whole) => Some(display_views(whole@)),
                    None => None,
                },
                *listing,
                screens@,
            );
            &&& taken == (*old(record) is None && snapshot is Some && can_record(
                displays,
                departed@,
                active@,
            ))
            &&& taken ==> (*final(record) matches Some(made) && is_record_of(
                made,
                displays,
                departed@,
                active@,
                snapshot->0,
                known@,
                now,
            ))
        }),
        !taken ==> *final(record) == *old(record),
{
    if record.is_some() {
        return false;
    }
    let displays = match whole {
        Some(whole) => copy_displays(whole),
        None => displays_now(listing, screens),
    };
    if !any_departs(&displays, departed) {
        return false;
    }
    let survivor = match find_survivor(&displays, departed, active) {
        Some(at) => at,
        None => {
            return false;
        },
    };
    let snapshot = match snapshot {
        Some(snapshot) => snapshot,
        None => {
            return false;
        },
    };
    let windows = file_windows(&snapshot.members, known);
    let mut seen: IdSet<SpaceId> = IdSet::new();
    let spaces = all_recorded(&displays);
    seen.extend(spaces.as_slice());
    proof {
        assert(Set::<SpaceId>::empty().union(spaces@.to_set()) =~= spaces@.to_set());
        assert(display_views(displays@)[survivor as int] == displays@[survivor as int]@);
    }
    let survivor = displays[survivor].uuid.clone();
    *record = Some(
        DisplayRecord {
            taken: now,
            layout: snapshot.layout,
            members: snapshot.members,
            modes: snapshot.modes,
            windows,
            placed: Table::new(),
            displays,
            survivor,
            seen,
            churn_seen: now,
            settled: false,
            stopgaps: Vec::new(),
            own_moves: IdSet::new(),
            pass: None,
        },
    );
    true
}

/// A window was on the desktop that lists it last, and on none if none lists it.
pub proof fn where_a_window_was(members: Seq<(SpaceId, Vec<WindowId>)>, wid: WindowId, at: int)
    requires
        0 <= at < members.len(),
        members[at].1@.contains(wid),
        forall|i: int| at < i < members.len() ==> !(#[trigger] members[i]).1@.contains(wid),
    ensures
        home_of(members, wid) == Some(members[at].0),
    decreases members.len(),
{
    let front = members.drop_last();
    if at < front.len() {
        assert(!members[members.len() - 1].1@.contains(wid));
        assert forall|i: int| at < i < front.len() implies !(#[trigger] front[i]).1@.contains(wid) by {
            assert(members[i] == front[i]);
        }
        where_a_window_was(front, wid, at);
    }
}

/// A window that no desktop lists was on none.
pub proof fn an_unlisted_window_was_nowhere(members: Seq<(SpaceId, Vec<WindowId>)>, wid: WindowId)
    requires
        forall|i: int| 0 <= i < members.len() ==> !(#[trigger] members[i]).1@.contains(wid),
    ensures
        home_of(members, wid) is None,
    decreases members.len(),
{
    if members.len() > 0 {
        let front = members.drop_last();
        assert(!members[members.len() - 1].1@.contains(wid));
        assert forall|i: int| 0 <= i < front.len() implies !(#[trigger] front[i]).1@.contains(wid) by {
            assert(members[i] == front[i]);
        }
        an_unlisted_window_was_nowhere(front, wid);
    }
}

/// A record files every known window where the snapshot has it, and no other; it has
/// the displays in their order, with what each had and showed, and nothing has been
/// done under it yet.
pub proof fn what_a_record_says(
    record: DisplayRecord,
    displays: Seq<DisplayView>,
    departed: Seq<String>,
    active: Seq<String>,
    snapshot: LayoutSnapshot,
    known: Seq<WindowId>,
    now: Nanos,
    wid: WindowId,
    at: int,
    i: int,
)
    requires
        is_record_of(record, displays, departed, active, snapshot, known, now),
        0 <= at < snapshot.members.entries@.len(),
        snapshot.members.entries@[at].1@.contains(wid),
        forall|k: int|
            at < k < snapshot.members.entries@.len() ==> !(
            #[trigger] snapshot.members.entries@[k]).1@.contains(wid),
        0 <= i < displays.len(),
    ensures
        known.contains(wid) ==> record.windows.at(wid) == Some(snapshot.members.entries@[at].0),
        !known.contains(wid) ==> record.windows.at(wid) is None,
        record.placed.at(wid) is None,
        record.displays@.len() == displays.len(),
        record.displays@[i].uuid@ == displays[i].uuid,
        record.displays@[i].desktops@ == displays[i].desktops,
        record.displays@[i].shown == displays[i].shown,
        record.taken == now && record.churn_seen == now,
        record.stopgaps@.len() == 0 && !record.settled && record.pass is None,
        exists|x: int|
            #![trigger displays[x]]
            0 <= x < displays.len() && record.survivor@ == displays[x].uuid && (exists|a: int|
                0 <= a < active.len() && (#[trigger] active[a])@ == displays[x].uuid) && (forall|d: int|
                0 <= d < departed.len() ==> (#[trigger] departed[d])@ != displays[x].uuid),
{
    where_a_window_was(snapshot.members.entries@, wid, at);
    assert(record.windows.at(wid) == record.windows.at(wid));
    let views = display_views(record.displays@);
    assert(views[i] == record.displays@[i]@);
    let x = choose|x: int|
        first_stayed(displays, departed, active, x) && record.survivor@ == displays[x].uuid;
    assert(stayed(displays[x], departed, active));
}

/// A record is of the last whole report, and of what is listed now where there is
/// none: each display in its order, with its desktops and the one it shows.
pub proof fn what_a_record_is_of(
    whole: Option<Seq<DisplayView>>,
    listing: Listing,
    screens: Seq<Screen>,
    i: int,
)
    ensures
        whole is Some ==> displays_to_record(whole, listing, screens) == whole->0,
        whole is None ==> displays_to_record(whole, listing, screens).len()
            == listing.entries@.len(),
        whole is None && 0 <= i < listing.entries@.len() ==> {
            let view = displays_to_record(whole, listing, screens)[i];
            view.uuid == listing.entries@[i].0@ && view.desktops == listing.entries@[i].1@
                && view.shown == shown_by(screens, listing.entries@[i].0@)
        },
{
}

/// A record can be taken if one of the displays is among the departed and one is active and
/// not among them; and only then.
pub proof fn when_a_record_can_be_taken(
    displays: Seq<DisplayView>,
    departed: Seq<String>,
    active: Seq<String>,
    i: int,
    j: int,
)
    ensures
        0 <= i < displays.len() && 0 <= j < displays.len() && named(departed, displays[i].uuid)
            && named(active, displays[j].uuid) && !named(departed, displays[j].uuid) ==> can_record(
            displays,
            departed,
            active,
        ),
        (forall|k: int|
            0 <= k < displays.len() ==> !named(departed, (#[trigger] displays[k]).uuid))
            ==> !can_record(displays, departed, active),
        (forall|k: int|
            0 <= k < displays.len() ==> !named(active, (#[trigger] displays[k]).uuid) || named(
                departed,
                displays[k].uuid,
            )) ==> !can_record(displays, departed, active),
{
    if 0 <= j < displays.len() && stayed(displays[j], departed, active) {
        lemma_one_stayed_first(displays, departed, active, j);
    }
}

proof fn lemma_one_stayed_first(
    displays: Seq<DisplayView>,
    departed: Seq<String>,
    active: Seq<String>,
    j: int,
)
    requires
        0 <= j < displays.len(),
        stayed(displays[j], departed, active),
    ensures
        exists|at: int| first_stayed(displays, departed, active, at),
    decreases j,
{
    if exists|i: int| 0 <= i < j && stayed(#[trigger] displays[i], departed, active) {
        let i = choose|i: int| 0 <= i < j && stayed(#[trigger] displays[i], departed, active);
        lemma_one_stayed_first(displays, departed, active, i);
    } else {
        assert(first_stayed(displays, departed, active, j));
    }
}

/// Two layouts are the same if their text is, and the windows and modes of the same
/// desktops in the same order.
pub proof fn when_layouts_are_the_same(a: LayoutSnapshot, b: LayoutSnapshot, i: int)
    ensures
        a.same_as(a),
        a.same_as(b) ==> b.same_as(a),
        a.layout@ != b.layout@ ==> !a.same_as(b),
        a.members.entries@.len() != b.members.entries@.len() ==> !a.same_as(b),
        a.modes.entries@.len() != b.modes.entries@.len() ==> !a.same_as(b),
        0 <= i < a.members.entries@.len() && (a.members.entries@[i].0 != b.members.entries@[i].0
            || a.members.entries@[i].1@ != b.members.entries@[i].1@) ==> !a.same_as(b),
        0 <= i < a.modes.entries@.len() && (a.modes.entries@[i].0 != b.modes.entries@[i].0
            || a.modes.entries@[i].1@ != b.modes.entries@[i].1@) ==> !a.same_as(b),
        a.layout@ == b.layout@ && a.members == b.members && a.modes == b.modes ==> a.same_as(b),
{
    if a.same_as(b) {
        assert forall|k: int| 0 <= k < b.members.entries@.len() implies (
        #[trigger] b.members.entries@[k]).0 == a.members.entries@[k].0 && b.members.entries@[k].1@
            == a.members.entries@[k].1@ by {
            assert(a.members.entries@[k].0 == b.members.entries@[k].0);
        }
        assert forall|k: int| 0 <= k < b.modes.entries@.len() implies (
        #[trigger] b.modes.entries@[k]).0 == a.modes.entries@[k].0 && b.modes.entries@[k].1@
            == a.modes.entries@[k].1@ by {
            assert(a.modes.entries@[k].0 == b.modes.entries@[k].0);
        }
    }
}

/// The survivor of a record is the first display that stayed. The record has the layout of
/// the departure, has seen the desktops of the displays and no others, and has moved no
/// window.
pub proof fn what_a_record_begins_with(
    record: DisplayRecord,
    displays: Seq<DisplayView>,
    departed: Seq<String>,
    active: Seq<String>,
    snapshot: LayoutSnapshot,
    known: Seq<WindowId>,
    now: Nanos,
    at: int,
    space: SpaceId,
    wid: WindowId,
)
    requires
        is_record_of(record, displays, departed, active, snapshot, known, now),
        0 <= at < displays.len(),
        named(active, displays[at].uuid) && !named(departed, displays[at].uuid),
        forall|i: int|
            0 <= i < at ==> !named(active, (#[trigger] displays[i]).uuid) || named(
                departed,
                displays[i].uuid,
            ),
    ensures
        record.survivor@ == displays[at].uuid,
        record.layout == snapshot.layout,
        record.members == snapshot.members,
        record.modes == snapshot.modes,
        record.seen@.contains(space) <==> recorded_desktops(displays).contains(space),
        !record.own_moves@.contains(wid),
{
    let k = choose|k: int|
        first_stayed(displays, departed, active, k) && record.survivor@ == displays[k].uuid;
    assert(stayed(displays[at], departed, active));
    if k < at {
        assert(!stayed(displays[k], departed, active));
    } else if at < k {
        assert(!stayed(displays[at], departed, active));
    }
}

/// One more display adds its desktops behind those before it.
pub proof fn desktops_are_recorded_in_order(displays: Seq<DisplayView>, display: DisplayView)
    ensures
        recorded_desktops(Seq::empty()).len() == 0,
        recorded_desktops(displays.push(display)) == recorded_desktops(displays) + display.desktops,
{
    assert(displays.push(display).drop_last() =~= displays);
}

} // verus!
