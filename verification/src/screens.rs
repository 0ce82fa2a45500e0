//! The screens and what the window server lists on each display.

use vstd::prelude::*;

use crate::ids::SpaceId;
use crate::lists::append_list;
use crate::table::Table;

verus! {

/// A screen as last reported.
#[derive(Clone, Debug, PartialEq, Eq)]
pub struct Screen {
    pub display_uuid: String,
    /// The desktop it shows.
    pub space: Option<SpaceId>,
    /// Whether its width and its height are both above zero.
    pub has_area: bool,
}

/// What the window server lists: each display's desktops, in order.
pub type Listing = Table<String, Vec<SpaceId>>;

/// `list` holds a string that reads `name`.
pub open spec fn named(list: Seq<String>, name: Seq<char>) -> bool {
    exists|i: int| 0 <= i < list.len() && (#[trigger] list[i])@ == name
}

/// Whether `list` holds `name`.
pub fn holds_name(list: &[String], name: &String) -> (held: bool)
    ensures
        held == named(list@, name@),
{
    let mut i: usize = 0;
    while i < list.len()
        invariant
            i <= list@.len(),
            forall|j: int| 0 <= j < i ==> (#[trigger] list@[j])@ != name@,
        decreases list@.len() - i,
    {
        if list[i] == *name {
            assert(list@[i as int]@ == name@);
            return true;
        }
        i = i + 1;
    }
    false
}

/// A screen belongs to the display `uuid`.
pub open spec fn on_screen(screens: Seq<Screen>, uuid: Seq<char>) -> bool {
    exists|i: int| 0 <= i < screens.len() && (#[trigger] screens[i]).display_uuid@ == uuid
}

/// Whether a screen belongs to the display `uuid`.
pub fn is_on_screen(screens: &[Screen], uuid: &String) -> (there: bool)
    ensures
        there == on_screen(screens@, uuid@),
{
    let mut i: usize = 0;
    while i < screens.len()
        invariant
            i <= screens@.len(),
            forall|j: int| 0 <= j < i ==> (#[trigger] screens@[j]).display_uuid@ != uuid@,
        decreases screens@.len() - i,
    {
        if screens[i].display_uuid == *uuid {
            assert(screens@[i as int].display_uuid@ == uuid@);
            return true;
        }
        i = i + 1;
    }
    false
}

/// The desktop that the first screen of the display `uuid` shows.
pub open spec fn shown_by(screens: Seq<Screen>, uuid: Seq<char>) -> Option<SpaceId>
    decreases screens.len(),
{
    if screens.len() == 0 {
        None
    } else if screens[0].display_uuid@ == uuid {
        screens[0].space
    } else {
        shown_by(screens.skip(1), uuid)
    }
}

/// The desktop that the first screen of the display `uuid` shows.
pub fn shown_on(screens: &[Screen], uuid: &String) -> (space: Option<SpaceId>)
    ensures
        space == shown_by(screens@, uuid@),
{
    let mut i: usize = 0;
    assert(screens@.skip(0) =~= screens@);
    while i < screens.len()
        invariant
            i <= screens@.len(),
            shown_by(screens@, uuid@) == shown_by(screens@.skip(i as int), uuid@),
        decreases screens@.len() - i,
    {
        if screens[i].display_uuid == *uuid {
            return screens[i].space;
        }
        assert(screens@.skip(i as int).skip(1) =~= screens@.skip(i + 1));
        i = i + 1;
    }
    None
}

/// The first screen that shows `space` has an area.
pub open spec fn shown_with_area(screens: Seq<Screen>, space: SpaceId) -> bool
    decreases screens.len(),
{
    if screens.len() == 0 {
        false
    } else if screens[0].space == Some(space) {
        screens[0].has_area
    } else {
        shown_with_area(screens.skip(1), space)
    }
}

/// Whether the first screen that shows `space` has an area.
pub fn is_shown_with_area(screens: &[Screen], space: SpaceId) -> (shown: bool)
    ensures
        shown == shown_with_area(screens@, space),
{
    let mut i: usize = 0;
    assert(screens@.skip(0) =~= screens@);
    while i < screens.len()
        invariant
            i <= screens@.len(),
            shown_with_area(screens@, space) == shown_with_area(screens@.skip(i as int), space),
        decreases screens@.len() - i,
    {
        let here = match screens[i].space {
            Some(shown) => shown == space,
            None => false,
        };
        if here {
            return screens[i].has_area;
        }
        assert(screens@.skip(i as int).skip(1) =~= screens@.skip(i + 1));
        i = i + 1;
    }
    false
}

/// The desktops listed under the display `uuid`, in order.
pub open spec fn listed_under(listing: Listing, uuid: Seq<char>) -> Seq<SpaceId> {
    match listing.at(uuid) {
        Some(spaces) => spaces@,
        None => seq![],
    }
}

/// Every desktop of the first displays of a listing.
pub open spec fn desktops_of(entries: Seq<(String, Vec<SpaceId>)>) -> Seq<SpaceId>
    decreases entries.len(),
{
    if entries.len() == 0 {
        seq![]
    } else {
        desktops_of(entries.drop_last()) + entries.last().1@
    }
}

/// Every desktop listed anywhere.
pub open spec fn all_of(listing: Listing) -> Seq<SpaceId> {
    desktops_of(listing.entries@)
}

/// Every desktop listed anywhere.
pub fn all_listed(listing: &Listing) -> (spaces: Vec<SpaceId>)
    ensures
        spaces@ == all_of(*listing),
{
    let mut spaces: Vec<SpaceId> = Vec::new();
    let mut i: usize = 0;
    while i < listing.entries.len()
        invariant
            i <= listing.entries@.len(),
            spaces@ == desktops_of(listing.entries@.take(i as int)),
        decreases listing.entries@.len() - i,
    {
        append_list(&mut spaces, listing.entries[i].1.as_slice());
        proof {
            let next = listing.entries@.take(i + 1);
            assert(next.drop_last() =~= listing.entries@.take(i as int));
            assert(next.last() == listing.entries@[i as int]);
        }
        i = i + 1;
    }
    assert(listing.entries@.take(i as int) =~= listing.entries@);
    spaces
}

/// A desktop is listed somewhere exactly if a display lists it.
pub proof fn lemma_all_of(listing: Listing, space: SpaceId)
    requires
        listing.wf(),
    ensures
        all_of(listing).contains(space) <==> exists|uuid: Seq<char>| #[trigger]
            listed_under(listing, uuid).contains(space),
{
    lemma_desktops_of(listing.entries@, space);
    if all_of(listing).contains(space) {
        let i = choose|i: int|
            0 <= i < listing.entries@.len() && (#[trigger] listing.entries@[i]).1@.contains(space);
        listing.lemma_at(i);
        assert(listed_under(listing, listing.entries@[i].0@).contains(space));
    }
    if exists|uuid: Seq<char>| #[trigger] listed_under(listing, uuid).contains(space) {
        let uuid = choose|uuid: Seq<char>| #[trigger] listed_under(listing, uuid).contains(space);
        let i = listing.index_of(uuid);
        assert(listing.has_at(i, uuid));
        listing.lemma_at(i);
        assert(listing.entries@[i].1@.contains(space));
    }
}

pub proof fn lemma_desktops_of(entries: Seq<(String, Vec<SpaceId>)>, space: SpaceId)
    ensures
        desktops_of(entries).contains(space) <==> exists|i: int|
            0 <= i < entries.len() && (#[trigger] entries[i]).1@.contains(space),
    decreases entries.len(),
{
    if entries.len() > 0 {
        let front = entries.drop_last();
        lemma_desktops_of(front, space);
        let last = entries.last().1@;
        lemma_concat_contains(desktops_of(front), last, space);
        if desktops_of(front).contains(space) {
            let i = choose|i: int|
                0 <= i < front.len() && (#[trigger] front[i]).1@.contains(space);
            assert(entries[i].1@.contains(space));
        }
        if exists|i: int| 0 <= i < entries.len() && (#[trigger] entries[i]).1@.contains(space) {
            let i = choose|i: int|
                0 <= i < entries.len() && (#[trigger] entries[i]).1@.contains(space);
            if i < front.len() {
                assert(front[i].1@.contains(space));
            }
        }
    }
}

/// Two lists behind one another hold what either holds.
pub proof fn lemma_concat_contains<T>(a: Seq<T>, b: Seq<T>, item: T)
    ensures
        (a + b).contains(item) <==> a.contains(item) || b.contains(item),
{
    let both = a + b;
    if a.contains(item) {
        let i = choose|i: int| 0 <= i < a.len() && a[i] == item;
        assert(both[i] == item);
    }
    if b.contains(item) {
        let i = choose|i: int| 0 <= i < b.len() && b[i] == item;
        assert(both[a.len() + i] == item);
    }
    if both.contains(item) {
        let i = choose|i: int| 0 <= i < both.len() && both[i] == item;
        if i < a.len() {
            assert(a[i] == item);
        } else {
            assert(b[i - a.len()] == item);
        }
    }
}

/// The desktops listed under the display `uuid`, in order.
pub fn desktops_on(listing: &Listing, uuid: &String) -> (spaces: Vec<SpaceId>)
    requires
        listing.wf(),
    ensures
        spaces@ == listed_under(*listing, uuid@),
{
    match listing.get(uuid) {
        Some(spaces) => crate::lists::copy_list(spaces.as_slice()),
        None => Vec::new(),
    }
}

/// The desktop that a display shows is that of its first screen.
pub proof fn what_a_display_shows(screens: Seq<Screen>, uuid: Seq<char>, at: int)
    requires
        0 <= at < screens.len(),
        screens[at].display_uuid@ == uuid,
        forall|i: int| 0 <= i < at ==> (#[trigger] screens[i]).display_uuid@ != uuid,
    ensures
        shown_by(screens, uuid) == screens[at].space,
    decreases screens.len(),
{
    if at > 0 {
        let rest = screens.skip(1);
        assert(screens[0].display_uuid@ != uuid);
        assert forall|i: int| 0 <= i < at - 1 implies (#[trigger] rest[i]).display_uuid@ != uuid by {
            assert(rest[i] == screens[i + 1]);
        }
        what_a_display_shows(rest, uuid, at - 1);
    }
}

/// A display that is not on screen shows nothing.
pub proof fn a_display_off_screen_shows_nothing(screens: Seq<Screen>, uuid: Seq<char>)
    requires
        forall|i: int| 0 <= i < screens.len() ==> (#[trigger] screens[i]).display_uuid@ != uuid,
    ensures
        shown_by(screens, uuid) is None,
    decreases screens.len(),
{
    if screens.len() > 0 {
        let rest = screens.skip(1);
        assert(screens[0].display_uuid@ != uuid);
        assert forall|i: int| 0 <= i < rest.len() implies (#[trigger] rest[i]).display_uuid@
            != uuid by {
            assert(rest[i] == screens[i + 1]);
        }
        a_display_off_screen_shows_nothing(rest, uuid);
    }
}

/// A desktop is shown with an area if the first screen that shows it has one.
pub proof fn a_desktop_is_shown_with_the_area_of_its_screen(
    screens: Seq<Screen>,
    space: SpaceId,
    at: int,
)
    requires
        0 <= at <= screens.len(),
        at < screens.len() ==> screens[at].space == Some(space),
        forall|i: int| 0 <= i < at ==> (#[trigger] screens[i]).space != Some(space),
    ensures
        shown_with_area(screens, space) == (at < screens.len() && screens[at].has_area),
    decreases screens.len(),
{
    if at > 0 {
        let rest = screens.skip(1);
        assert(screens[0].space != Some(space));
        assert forall|i: int| 0 <= i < at - 1 implies (#[trigger] rest[i]).space != Some(space) by {
            assert(rest[i] == screens[i + 1]);
        }
        a_desktop_is_shown_with_the_area_of_its_screen(rest, space, at - 1);
    }
}

/// One more display adds its desktops behind those before it.
pub proof fn desktops_are_listed_in_order(
    entries: Seq<(String, Vec<SpaceId>)>,
    one: (String, Vec<SpaceId>),
    listing: Listing,
    uuid: Seq<char>,
)
    ensures
        desktops_of(Seq::empty()).len() == 0,
        desktops_of(entries.push(one)) == desktops_of(entries) + one.1@,
        all_of(listing) == desktops_of(listing.entries@),
        listing.at(uuid) is Some ==> listed_under(listing, uuid) == listing.at(uuid)->0@,
        listing.at(uuid) is None ==> listed_under(listing, uuid).len() == 0,
{
    assert(entries.push(one).drop_last() =~= entries);
}

} // verus!
