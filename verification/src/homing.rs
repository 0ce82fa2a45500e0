//! Bringing a display's windows home when it is back, and the user's say in it
//! while it is away.

use vstd::prelude::*;

use crate::clock::Nanos;
use crate::display_archive::{
    archived_anew, is_exiled, other_window, tiled_window, ArchivedDisplay, DisplacedWindows,
    DisplayArchive, ExiledWindow, Homing,
};
use crate::drag::first_of;
use crate::ids::{SpaceId, WindowId, WindowServerId};
use crate::lists::{drop_listed, holds, not_among, IdSet};
use crate::outcome::{left_alone, put_back, Restored};
use crate::reconcile::WindowStep;
use crate::record_pass::{
    after_layout_restored, landed, note_window_placed_while_away, on_the_way, placed_while_away,
};
use crate::screens::{
    all_listed, all_of, desktops_on, is_on_screen, listed_under, on_screen, shown_by, shown_on,
    shown_with_area, Listing, Screen,
};
use crate::settle::WindowPlace;
use crate::table::{Key, Table};
use crate::text::same_text;

verus! {

/// Displaced windows to gather into one cluster, on each of some desktops.
#[derive(Debug)]
pub struct Cluster {
    pub spaces: Vec<SpaceId>,
    pub windows: Vec<WindowId>,
}

/// Being known.
pub open spec fn known_in(places: Table<WindowId, WindowPlace>) -> spec_fn(WindowId) -> bool {
    |wid: WindowId| places.at(wid) is Some
}

/// The tiled windows of a departed display that are still known.
pub open spec fn tiled_exiles(
    entry: ArchivedDisplay,
    places: Table<WindowId, WindowPlace>,
) -> Seq<WindowId> {
    entry.windows@.filter_map(tiled_window()).filter(known_in(places))
}

/// One of `wids` is assigned to `space`.
pub open spec fn assigned_among(
    wids: Seq<WindowId>,
    places: Table<WindowId, WindowPlace>,
    space: SpaceId,
) -> bool {
    exists|i: int|
        0 <= i < wids.len() && (places.at(#[trigger] wids[i]) matches Some(place) && place.assigned
            == Some(space))
}

/// The displaced windows of `entry` have not been arranged, and none of them is
/// assigned to the desktop that went away any more.
pub open spec fn ready_to_settle(
    entry: ArchivedDisplay,
    places: Table<WindowId, WindowPlace>,
) -> bool {
    !entry.settled && entry.homing is None && !assigned_among(
        tiled_exiles(entry, places),
        places,
        entry.space,
    )
}

/// The cluster for `entry`.
pub open spec fn is_cluster(
    cluster: Cluster,
    entry: ArchivedDisplay,
    places: Table<WindowId, WindowPlace>,
) -> bool {
    &&& cluster.windows@ == tiled_exiles(entry, places)
    &&& cluster.spaces@.no_duplicates()
    &&& forall|space: SpaceId| #[trigger]
        cluster.spaces@.contains(space) <==> assigned_among(cluster.windows@, places, space)
}

/// The displays among the first `n` that are ready to settle, in order.
pub open spec fn settling(
    entries: Seq<(String, ArchivedDisplay)>,
    places: Table<WindowId, WindowPlace>,
) -> Seq<ArchivedDisplay>
    decreases entries.len(),
{
    if entries.len() == 0 {
        seq![]
    } else {
        let front = settling(entries.drop_last(), places);
        if ready_to_settle(entries.last().1, places) {
            front.push(entries.last().1)
        } else {
            front
        }
    }
}

fn find_tiled(windows: &Vec<ExiledWindow>, places: &Table<WindowId, WindowPlace>) -> (tiled: Vec<
    WindowId,
>)
    requires
        places.wf(),
    ensures
        tiled@ == windows@.filter_map(tiled_window()).filter(known_in(*places)),
{
    let ghost f = tiled_window();
    let ghost p = known_in(*places);
    let mut tiled: Vec<WindowId> = Vec::new();
    let mut i: usize = 0;
    while i < windows.len()
        invariant
            places.wf(),
            f == tiled_window(),
            p == known_in(*places),
            i <= windows@.len(),
            tiled@ == windows@.take(i as int).filter_map(f).filter(p),
        decreases windows@.len() - i,
    {
        let ghost so_far = windows@.take(i as int).filter_map(f);
        let wid = windows[i].wid;
        proof {
            windows@.lemma_filter_map_take_succ(f, i as int);
            so_far.lemma_filter_push(wid, p);
            assert(so_far + seq![wid] =~= so_far.push(wid));
            assert(so_far + Seq::<WindowId>::empty() =~= so_far);
        }
        if windows[i].was_tiled {
            assert(windows@.take(i + 1).filter_map(f) =~= so_far.push(wid));
            if places.contains_key(&wid) {
                tiled.push(wid);
            }
        } else {
            assert(windows@.take(i + 1).filter_map(f) =~= so_far);
        }
        i = i + 1;
    }
    assert(windows@.take(i as int) =~= windows@);
    tiled
}

fn find_destinations(wids: &Vec<WindowId>, places: &Table<WindowId, WindowPlace>) -> (spaces: IdSet<
    SpaceId,
>)
    requires
        places.wf(),
    ensures
        spaces.wf(),
        forall|space: SpaceId| #[trigger]
            spaces@.contains(space) <==> assigned_among(wids@, *places, space),
{
    let mut spaces: IdSet<SpaceId> = IdSet::new();
    let mut i: usize = 0;
    while i < wids.len()
        invariant
            places.wf(),
            i <= wids@.len(),
            spaces.wf(),
            forall|space: SpaceId| #[trigger]
                spaces@.contains(space) <==> assigned_among(wids@.take(i as int), *places, space),
        decreases wids@.len() - i,
    {
        let ghost before = spaces@;
        match places.get(&wids[i]) {
            Some(place) => match place.assigned {
                Some(space) => {
                    let _ = spaces.insert(space);
                },
                None => {},
            },
            None => {},
        }
        proof {
            let next = wids@.take(i + 1);
            assert(next[i as int] == wids@[i as int]);
            assert forall|space: SpaceId| #[trigger]
                spaces@.contains(space) <==> assigned_among(next, *places, space) by {
                if before.contains(space) {
                    let k = choose|k: int|
                        0 <= k < i && (places.at(#[trigger] wids@.take(i as int)[k]) matches Some(
                            place,
                        ) && place.assigned == Some(space));
                    assert(next[k] == wids@.take(i as int)[k]);
                }
                if assigned_among(next, *places, space) {
                    let k = choose|k: int|
                        0 <= k < next.len() && (places.at(#[trigger] next[k]) matches Some(place)
                            && place.assigned == Some(space));
                    if k < i {
                        assert(wids@.take(i as int)[k] == next[k]);
                    }
                }
            }
        }
        i = i + 1;
    }
    assert(wids@.take(i as int) =~= wids@);
    spaces
}

/// Gathers each departed display's windows into one cluster of the tree they
/// landed in, once they have all left the desktop that went away. Not when
/// displaced windows float.
pub fn settle_displaced_windows(
    archive: &mut DisplayArchive,
    mode: DisplacedWindows,
    places: &Table<WindowId, WindowPlace>,
) -> (clusters: Vec<Cluster>)
    requires
        old(archive).wf(),
        places.wf(),
    ensures
        final(archive).wf(),
        mode == DisplacedWindows::Float ==> clusters@.len() == 0 && *final(archive) == *old(archive),
        mode != DisplacedWindows::Float ==> {
            let ready = settling(old(archive).entries.entries@, *places);
            &&& clusters@.len() == ready.len()
            &&& forall|i: int|
                0 <= i < clusters@.len() ==> is_cluster(#[trigger] clusters@[i], ready[i], *places)
            &&& forall|uuid: Seq<char>| #[trigger]
                final(archive).entries.at(uuid) == match old(archive).entries.at(uuid) {
                    Some(entry) => Some(
                        ArchivedDisplay {
                            settled: entry.settled || ready_to_settle(entry, *places),
                            ..entry
                        },
                    ),
                    None => None,
                }
            &&& *final(archive) == (DisplayArchive {
                entries: final(archive).entries,
                ..*old(archive)
            })
        },
{
    let mut clusters: Vec<Cluster> = Vec::new();
    if mode == DisplacedWindows::Float {
        return clusters;
    }
    let ghost begun = *archive;
    let ghost all = archive.entries.entries@;
    let mut i: usize = 0;
    while i < archive.entries.entries.len()
        invariant
            places.wf(),
            begun.wf(),
            all == begun.entries.entries@,
            archive.entries.entries@.len() == all.len(),
            i <= all.len(),
            clusters@.len() == settling(all.take(i as int), *places).len(),
            forall|k: int|
                0 <= k < clusters@.len() ==> is_cluster(
                    #[trigger] clusters@[k],
                    settling(all.take(i as int), *places)[k],
                    *places,
                ),
            forall|k: int|
                0 <= k < i ==> (#[trigger] archive.entries.entries@[k]).0@ == all[k].0@
                    && archive.entries.entries@[k].1 == (ArchivedDisplay {
                    settled: all[k].1.settled || ready_to_settle(all[k].1, *places),
                    ..all[k].1
                }),
            forall|k: int| i <= k < all.len() ==> #[trigger] archive.entries.entries@[k] == all[k],
            *archive == (DisplayArchive { entries: archive.entries, ..begun }),
        decreases all.len() - i,
    {
        proof {
            assert(all.take(i + 1).drop_last() =~= all.take(i as int));
            assert(all.take(i + 1).last() == all[i as int]);
        }
        let waits = !archive.entries.entries[i].1.settled
            && archive.entries.entries[i].1.homing.is_none();
        if waits {
            let space = archive.entries.entries[i].1.space;
            let tiled = find_tiled(&archive.entries.entries[i].1.windows, places);
            let spaces = find_destinations(&tiled, places);
            if !spaces.contains(space) {
                let cluster = Cluster { spaces: spaces.items, windows: tiled };
                proof {
                    assert forall|space: SpaceId| #[trigger]
                        cluster.spaces@.contains(space) <==> assigned_among(
                            cluster.windows@,
                            *places,
                            space,
                        ) by {
                        assert(spaces@.contains(space) == cluster.spaces@.contains(space));
                    }
                    assert(is_cluster(cluster, all[i as int].1, *places));
                }
                clusters.push(cluster);
                let (name, mut entry) = archive.entries.entries.remove(i);
                entry.settled = true;
                archive.entries.entries.insert(i, (name, entry));
            }
        }
        i = i + 1;
    }
    proof {
        assert(all.take(i as int) =~= all);
        let after = archive.entries;
        assert forall|a: int, b: int| 0 <= a < b < after.entries@.len() implies (
        #[trigger] after.entries@[a]).0.model() != (#[trigger] after.entries@[b]).0.model() by {
            assert(begun.entries.entries@[a].0.model() != begun.entries.entries@[b].0.model());
        }
        assert forall|uuid: Seq<char>| #[trigger]
            after.at(uuid) == match begun.entries.at(uuid) {
                Some(entry) => Some(
                    ArchivedDisplay {
                        settled: entry.settled || ready_to_settle(entry, *places),
                        ..entry
                    },
                ),
                None => None,
            } by {
            if begun.entries@.contains_key(uuid) {
                let k = begun.entries.index_of(uuid);
                assert(begun.entries.has_at(k, uuid));
                begun.entries.lemma_at(k);
                assert(after.entries@[k].0@ == uuid);
                after.lemma_at(k);
            } else if after@.contains_key(uuid) {
                let k = after.index_of(uuid);
                assert(after.has_at(k, uuid));
                assert(begun.entries.has_at(k, uuid));
            }
        }
        assert forall|uuid: Seq<char>|
            (#[trigger] after.at(uuid)) matches Some(entry) ==> entry.wf() by {
            assert(begun.entries.at(uuid) == begun.entries.at(uuid));
        }
    }
    clusters
}

/// The user put the window `wid` on `space` while the display of `entry` is
/// away: it is kept for that display, which is not on its way home and waits
/// for no other, and `space` was none of its desktops.
pub open spec fn put_elsewhere(
    entry: ArchivedDisplay,
    uuid: Seq<char>,
    wid: WindowId,
    space: SpaceId,
    screens: Seq<Screen>,
) -> bool {
    entry.homing is None && entry.waiting_for is None && !on_screen(screens, uuid)
        && !entry.desktops@.contains(space) && entry.exiles(wid)
}

/// `entry` without `wid`, if the user put that elsewhere.
pub open spec fn let_go(
    before: ArchivedDisplay,
    after: ArchivedDisplay,
    uuid: Seq<char>,
    wid: WindowId,
    space: SpaceId,
    screens: Seq<Screen>,
) -> bool {
    &&& after == (ArchivedDisplay { windows: after.windows, ..before })
    &&& after.windows@ == if put_elsewhere(before, uuid, wid, space, screens) {
        before.windows@.filter(other_window(wid))
    } else {
        before.windows@
    }
}

/// A window of a departed display has turned up on a desktop that was not that
/// display's: the user moved it there, and the return trip must not take it
/// back. Desktops that are listed nowhere say nothing.
pub fn let_go_of_placed_window(
    archive: &mut DisplayArchive,
    wid: WindowId,
    space: SpaceId,
    screens: &[Screen],
    listing: &Listing,
)
    requires
        old(archive).wf(),
    ensures
        final(archive).wf(),
        !all_of(*listing).contains(space) ==> *final(archive) == *old(archive),
        all_of(*listing).contains(space) ==> {
            &&& forall|uuid: Seq<char>|
                match (old(archive).entries.at(uuid), #[trigger] final(archive).entries.at(uuid)) {
                    (Some(before), Some(after)) => let_go(
                        before,
                        after,
                        uuid,
                        wid,
                        space,
                        screens@,
                    ),
                    (None, None) => true,
                    _ => false,
                }
            &&& *final(archive) == (DisplayArchive {
                entries: final(archive).entries,
                ..*old(archive)
            })
        },
{
    let listed = all_listed(listing);
    if !holds(listed.as_slice(), space) {
        return;
    }
    let ghost begun = *archive;
    let ghost all = archive.entries.entries@;
    let mut i: usize = 0;
    while i < archive.entries.entries.len()
        invariant
            begun.wf(),
            all == begun.entries.entries@,
            archive.entries.entries@.len() == all.len(),
            i <= all.len(),
            forall|k: int|
                0 <= k < i ==> (#[trigger] archive.entries.entries@[k]).0@ == all[k].0@ && let_go(
                    all[k].1,
                    archive.entries.entries@[k].1,
                    all[k].0@,
                    wid,
                    space,
                    screens@,
                ),
            forall|k: int| i <= k < all.len() ==> #[trigger] archive.entries.entries@[k] == all[k],
            *archive == (DisplayArchive { entries: archive.entries, ..begun }),
        decreases all.len() - i,
    {
        let away = archive.entries.entries[i].1.homing.is_none()
            && archive.entries.entries[i].1.waiting_for.is_none() && !is_on_screen(
            screens,
            &archive.entries.entries[i].0,
        ) && !holds(archive.entries.entries[i].1.desktops.as_slice(), space) && is_exiled(
            &archive.entries.entries[i].1.windows,
            wid,
        );
        if away {
            let (name, mut entry) = archive.entries.entries.remove(i);
            let mut rest: Vec<ExiledWindow> = Vec::new();
            let ghost windows = entry.windows@;
            let mut j: usize = 0;
            while j < entry.windows.len()
                invariant
                    windows == entry.windows@,
                    j <= windows.len(),
                    rest@ == windows.take(j as int).filter(other_window(wid)),
                decreases windows.len() - j,
            {
                proof {
                    assert(windows.take(j + 1) =~= windows.take(j as int).push(windows[j as int]));
                    windows.take(j as int).lemma_filter_push(windows[j as int], other_window(wid));
                }
                if entry.windows[j].wid != wid {
                    rest.push(entry.windows[j]);
                }
                j = j + 1;
            }
            assert(windows.take(j as int) =~= windows);
            entry.windows = rest;
            archive.entries.entries.insert(i, (name, entry));
        }
        i = i + 1;
    }
    proof {
        let after = archive.entries;
        assert forall|a: int, b: int| 0 <= a < b < after.entries@.len() implies (
        #[trigger] after.entries@[a]).0.model() != (#[trigger] after.entries@[b]).0.model() by {
            assert(begun.entries.entries@[a].0.model() != begun.entries.entries@[b].0.model());
        }
        assert forall|uuid: Seq<char>|
            match (begun.entries.at(uuid), #[trigger] after.at(uuid)) {
                (Some(before), Some(now)) => let_go(before, now, uuid, wid, space, screens@),
                (None, None) => true,
                _ => false,
            } by {
            if begun.entries@.contains_key(uuid) {
                let k = begun.entries.index_of(uuid);
                assert(begun.entries.has_at(k, uuid));
                begun.entries.lemma_at(k);
                assert(after.entries@[k].0@ == uuid);
                after.lemma_at(k);
            } else if after@.contains_key(uuid) {
                let k = after.index_of(uuid);
                assert(after.has_at(k, uuid));
                assert(begun.entries.has_at(k, uuid));
            }
        }
        assert forall|uuid: Seq<char>|
            (#[trigger] after.at(uuid)) matches Some(entry) ==> entry.wf() by {
            assert(begun.entries.at(uuid) == begun.entries.at(uuid));
        }
    }
}

/// A window has appeared on `space`. While a display is away the record is told,
/// and a departed display that never had the desktop lets go of the window.
/// Desktops that are listed nowhere say nothing.
pub fn note_window_appeared_while_away(
    archive: &mut DisplayArchive,
    wid: WindowId,
    space: SpaceId,
    screens: &[Screen],
    listing: &Listing,
    now: Nanos,
)
    requires
        old(archive).wf(),
    ensures
        final(archive).wf(),
        !all_of(*listing).contains(space) ==> *final(archive) == *old(archive),
        all_of(*listing).contains(space) ==> {
            &&& match (old(archive).record, final(archive).record) {
                (Some(before), Some(after)) => exists|edited: bool| #[trigger]
                    placed_while_away(before, wid, space, screens@, now, after, edited),
                (None, None) => true,
                _ => false,
            }
            &&& forall|uuid: Seq<char>|
                match (old(archive).entries.at(uuid), #[trigger] final(archive).entries.at(uuid)) {
                    (Some(before), Some(after)) => let_go(
                        before,
                        after,
                        uuid,
                        wid,
                        space,
                        screens@,
                    ),
                    (None, None) => true,
                    _ => false,
                }
        },
        *final(archive) == (DisplayArchive {
            record: final(archive).record,
            entries: final(archive).entries,
            ..*old(archive)
        }),
{
    if !holds(&all_listed(listing), space) {
        return;
    }
    match &mut archive.record {
        Some(record) => {
            let _ = note_window_placed_while_away(record, wid, space, screens, now);
        },
        None => {},
    }
    let_go_of_placed_window(archive, wid, space, screens, listing);
}

/// A display that is on screen, showing a desktop, whose layout is kept and can
/// be put back now.
pub open spec fn returns_home(
    archive: DisplayArchive,
    screens: Seq<Screen>,
    screen: Screen,
) -> bool {
    screen.space is Some && (archive.entries.at(screen.display_uuid@) matches Some(entry)
        && entry.homing is None && (entry.waiting_for matches Some(waited) ==> on_screen(
        screens,
        waited@,
    )))
}

/// The positions of the screens whose displays return home.
pub open spec fn homecoming(
    archive: DisplayArchive,
    screens: Seq<Screen>,
    n: int,
) -> Seq<(Seq<char>, SpaceId)>
    decreases n,
{
    if n <= 0 {
        seq![]
    } else {
        let front = homecoming(archive, screens, n - 1);
        let screen = screens[n - 1];
        if returns_home(archive, screens, screen) {
            front.push((screen.display_uuid@, screen.space->0))
        } else {
            front
        }
    }
}

/// What a list of displays with their desktops reads.
pub open spec fn read_pairs(list: Seq<(String, SpaceId)>) -> Seq<(Seq<char>, SpaceId)> {
    list.map_values(|pair: (String, SpaceId)| (pair.0@, pair.1))
}

/// The archived displays that are on screen again and can be brought home, with
/// the desktop each shows.
pub fn returned_displays(archive: &DisplayArchive, screens: &[Screen]) -> (returned: Vec<
    (String, SpaceId),
>)
    requires
        archive.wf(),
    ensures
        read_pairs(returned@) == homecoming(*archive, screens@, screens@.len() as int),
{
    let mut returned: Vec<(String, SpaceId)> = Vec::new();
    let mut i: usize = 0;
    assert(read_pairs(returned@) =~= homecoming(*archive, screens@, 0));
    while i < screens.len()
        invariant
            archive.wf(),
            i <= screens@.len(),
            read_pairs(returned@) == homecoming(*archive, screens@, i as int),
        decreases screens@.len() - i,
    {
        let uuid = &screens[i].display_uuid;
        match screens[i].space {
            Some(space) => {
                if archive.has(uuid) && !archive.is_homing(uuid) && archive.is_ready(uuid, screens) {
                    let ghost before = returned@;
                    returned.push((uuid.clone(), space));
                    assert(read_pairs(returned@) =~= read_pairs(before).push((uuid@, space)));
                }
            },
            None => {},
        }
        i = i + 1;
    }
    returned
}

/// The display that waits for `uuid` stands at `at` in the archive, and none
/// before it does.
pub open spec fn first_waiting(
    entries: Seq<(String, ArchivedDisplay)>,
    uuid: Seq<char>,
    at: int,
) -> bool {
    &&& 0 <= at < entries.len()
    &&& waits_for_display(entries[at].1, uuid)
    &&& forall|i: int| 0 <= i < at ==> !waits_for_display((#[trigger] entries[i]).1, uuid)
}

pub open spec fn waits_for_display(entry: ArchivedDisplay, uuid: Seq<char>) -> bool {
    entry.waiting_for matches Some(waited) && waited@ == uuid
}

/// The first screen that belongs to another display than `uuid`.
pub open spec fn other_screen(screens: Seq<Screen>, uuid: Seq<char>) -> Option<Seq<char>>
    decreases screens.len(),
{
    if screens.len() == 0 {
        None
    } else if screens[0].display_uuid@ != uuid {
        Some(screens[0].display_uuid@)
    } else {
        other_screen(screens.skip(1), uuid)
    }
}

/// The display whose desktops `uuid` may have brought along: the one waiting
/// for it, else whichever other display is on screen.
pub open spec fn is_owner(
    archive: DisplayArchive,
    screens: Seq<Screen>,
    uuid: Seq<char>,
    owner: Option<Seq<char>>,
) -> bool {
    if exists|at: int| first_waiting(archive.entries.entries@, uuid, at) {
        exists|at: int|
            first_waiting(archive.entries.entries@, uuid, at) && owner == Some(
                archive.entries.entries@[at].0@,
            )
    } else {
        owner == other_screen(screens, uuid)
    }
}

fn find_owner(archive: &DisplayArchive, screens: &[Screen], uuid: &String) -> (owner: Option<String>)
    ensures
        is_owner(
            *archive,
            screens@,
            uuid@,
            match owner {
                Some(owner) => Some(owner@),
                None => None,
            },
        ),
{
    let mut i: usize = 0;
    while i < archive.entries.entries.len()
        invariant
            i <= archive.entries.entries@.len(),
            forall|j: int|
                0 <= j < i ==> !waits_for_display(
                    (#[trigger] archive.entries.entries@[j]).1,
                    uuid@,
                ),
        decreases archive.entries.entries@.len() - i,
    {
        let waits = match &archive.entries.entries[i].1.waiting_for {
            Some(waited) => *waited == *uuid,
            None => false,
        };
        if waits {
            let owner = archive.entries.entries[i].0.clone();
            assert(first_waiting(archive.entries.entries@, uuid@, i as int));
            return Some(owner);
        }
        i = i + 1;
    }
    let mut i: usize = 0;
    assert(screens@.skip(0) =~= screens@);
    while i < screens.len()
        invariant
            forall|at: int| !first_waiting(archive.entries.entries@, uuid@, at),
            i <= screens@.len(),
            other_screen(screens@, uuid@) == other_screen(screens@.skip(i as int), uuid@),
        decreases screens@.len() - i,
    {
        if screens[i].display_uuid != *uuid {
            return Some(screens[i].display_uuid.clone());
        }
        assert(screens@.skip(i as int).skip(1) =~= screens@.skip(i + 1));
        i = i + 1;
    }
    None
}

/// The desktops that a returning display came back with beyond those it left
/// with, and the desktop of their owner behind which they are sent back.
/// Nothing, for a display that waits for another, without strays, or when the
/// owner shows no desktop.
pub fn stray_desktops(
    archive: &DisplayArchive,
    uuid: &String,
    listing: &Listing,
    screens: &[Screen],
) -> (strays: Option<(Vec<SpaceId>, SpaceId)>)
    requires
        archive.wf(),
        listing.wf(),
    ensures
        match archive.entries.at(uuid@) {
            Some(entry) if entry.waiting_for is None => {
                let beyond = listed_under(*listing, uuid@).filter(not_among(entry.desktops@));
                exists|owner: Option<Seq<char>>| #[trigger]
                    is_owner(*archive, screens@, uuid@, owner) && {
                        let anchor = match owner {
                            Some(owner) => shown_by(screens@, owner),
                            None => None,
                        };
                        match strays {
                            Some((spaces, behind)) => beyond.len() > 0 && spaces@ == beyond
                                && anchor == Some(behind),
                            None => beyond.len() == 0 || anchor is None,
                        }
                    }
            },
            _ => strays is None,
        },
{
    let entry = match archive.entries.get(uuid) {
        Some(entry) => entry,
        None => {
            return None;
        },
    };
    if entry.waiting_for.is_some() {
        return None;
    }
    let listed = desktops_on(listing, uuid);
    let beyond = drop_listed(listed.as_slice(), entry.desktops.as_slice());
    let owner = find_owner(archive, screens, uuid);
    let anchor = match &owner {
        Some(owner) => shown_on(screens, owner),
        None => None,
    };
    if beyond.len() == 0 {
        return None;
    }
    match anchor {
        Some(anchor) => Some((beyond, anchor)),
        None => None,
    }
}

/// The first of `listed` that is not among `desktops`.
pub open spec fn first_beyond(listed: Seq<SpaceId>, desktops: Seq<SpaceId>) -> Option<SpaceId> {
    let beyond = listed.filter(not_among(desktops));
    if beyond.len() > 0 {
        Some(beyond.first())
    } else {
        None
    }
}

/// The desktop a returned display's layout belongs on. For a display that
/// waited for another, that is the fresh desktop it was given; else the desktop
/// it departed on, if it still lists that; else the one it shows. `snapshot` is
/// what was last reported, `listing` what is listed now.
pub fn homing_target(
    archive: &DisplayArchive,
    uuid: &String,
    shown: SpaceId,
    snapshot: &Listing,
    listing: &Listing,
) -> (target: SpaceId)
    requires
        archive.wf(),
        snapshot.wf(),
        listing.wf(),
    ensures
        target == match archive.entries.at(uuid@) {
            Some(entry) => if entry.waiting_for is Some {
                match first_beyond(listed_under(*listing, uuid@), entry.desktops@) {
                    Some(fresh) => fresh,
                    None => shown,
                }
            } else if listed_under(*snapshot, uuid@).contains(entry.space) {
                entry.space
            } else {
                shown
            },
            None => shown,
        },
{
    let entry = match archive.entries.get(uuid) {
        Some(entry) => entry,
        None => {
            return shown;
        },
    };
    if entry.waiting_for.is_some() {
        let listed = desktops_on(listing, uuid);
        let beyond = drop_listed(listed.as_slice(), entry.desktops.as_slice());
        return if beyond.len() > 0 {
            beyond[0]
        } else {
            shown
        };
    }
    let listed = desktops_on(snapshot, uuid);
    if holds(listed.as_slice(), entry.space) {
        entry.space
    } else {
        shown
    }
}

/// Another display than `uuid` shows `space`, or lists it.
pub open spec fn in_use_elsewhere(
    screens: Seq<Screen>,
    listing: Listing,
    uuid: Seq<char>,
    space: SpaceId,
) -> bool {
    ||| exists|i: int|
        0 <= i < screens.len() && (#[trigger] screens[i]).space == Some(space)
            && screens[i].display_uuid@ != uuid
    ||| exists|i: int|
        0 <= i < listing.entries@.len() && (#[trigger] listing.entries@[i]).0@ != uuid
            && listing.entries@[i].1@.contains(space)
}

/// Whether another display than `uuid` shows `space`, or lists it: then the
/// workspaces there are that display's, and are not carried over.
pub fn is_in_use_elsewhere(
    screens: &[Screen],
    listing: &Listing,
    uuid: &String,
    space: SpaceId,
) -> (used: bool)
    ensures
        used == in_use_elsewhere(screens@, *listing, uuid@, space),
{
    let mut i: usize = 0;
    while i < screens.len()
        invariant
            i <= screens@.len(),
            forall|j: int|
                0 <= j < i ==> !((#[trigger] screens@[j]).space == Some(space)
                    && screens@[j].display_uuid@ != uuid@),
        decreases screens@.len() - i,
    {
        let shows = match screens[i].space {
            Some(shown) => shown == space,
            None => false,
        };
        if shows && screens[i].display_uuid != *uuid {
            assert(screens@[i as int].space == Some(space));
            return true;
        }
        i = i + 1;
    }
    let mut i: usize = 0;
    while i < listing.entries.len()
        invariant
            i <= listing.entries@.len(),
            forall|j: int|
                0 <= j < i ==> !((#[trigger] listing.entries@[j]).0@ != uuid@
                    && listing.entries@[j].1@.contains(space)),
        decreases listing.entries@.len() - i,
    {
        if listing.entries[i].0 != *uuid && holds(listing.entries[i].1.as_slice(), space) {
            assert(listing.entries@[i as int].0@ != uuid@);
            return true;
        }
        i = i + 1;
    }
    false
}

/// Where an exiled window is: where the window server has the number it was kept
/// under, else where it is assigned.
pub open spec fn exiled_to(
    window: ExiledWindow,
    place: WindowPlace,
    live: Table<WindowServerId, SpaceId>,
) -> Option<SpaceId> {
    match window.wsid {
        Some(number) => first_of(live.at(number), place.assigned),
        None => place.assigned,
    }
}

/// What an exiled window needs when its display is back on `target`: one that
/// is there is waited for until it is assigned there too; another is sent.
pub open spec fn home_step(
    window: ExiledWindow,
    place: Option<WindowPlace>,
    live: Table<WindowServerId, SpaceId>,
    target: SpaceId,
) -> WindowStep {
    match place {
        Some(place) => if exiled_to(window, place, live) == Some(target) {
            if place.assigned == Some(target) {
                WindowStep::Nothing
            } else {
                WindowStep::Wait(target)
            }
        } else {
            match window.wsid {
                Some(wsid) => WindowStep::Send(wsid, target),
                None => WindowStep::Nothing,
            }
        },
        None => WindowStep::Nothing,
    }
}

/// Something to be done for a window when its display is back.
pub open spec fn homebound(
    places: Table<WindowId, WindowPlace>,
    live: Table<WindowServerId, SpaceId>,
    target: SpaceId,
) -> spec_fn(ExiledWindow) -> Option<(WindowId, WindowStep)> {
    |window: ExiledWindow|
        {
            let step = home_step(window, places.at(window.wid), live, target);
            if step == WindowStep::Nothing {
                None
            } else {
                Some((window.wid, step))
            }
        }
}

/// What the windows of a returned display need, in layout order. `live` has the
/// desktop of each number that the window server knows.
pub fn home_steps(
    entry: &ArchivedDisplay,
    target: SpaceId,
    places: &Table<WindowId, WindowPlace>,
    live: &Table<WindowServerId, SpaceId>,
) -> (steps: Vec<(WindowId, WindowStep)>)
    requires
        places.wf(),
        live.wf(),
    ensures
        steps@ == entry.windows@.filter_map(homebound(*places, *live, target)),
{
    let ghost f = homebound(*places, *live, target);
    let mut steps: Vec<(WindowId, WindowStep)> = Vec::new();
    let mut i: usize = 0;
    while i < entry.windows.len()
        invariant
            places.wf(),
            live.wf(),
            f == homebound(*places, *live, target),
            i <= entry.windows@.len(),
            steps@ == entry.windows@.take(i as int).filter_map(f),
        decreases entry.windows@.len() - i,
    {
        proof {
            entry.windows@.lemma_filter_map_take_succ(f, i as int);
        }
        let window = entry.windows[i];
        match places.get(&window.wid) {
            Some(place) => {
                let assigned = match place.assigned {
                    Some(space) => space == target,
                    None => false,
                };
                let there = match window.wsid {
                    Some(number) => match live.get(&number) {
                        Some(space) => *space == target,
                        None => assigned,
                    },
                    None => assigned,
                };
                if there {
                    if !assigned {
                        steps.push((window.wid, WindowStep::Wait(target)));
                    }
                } else {
                    match window.wsid {
                        Some(wsid) => {
                            steps.push((window.wid, WindowStep::Send(wsid, target)));
                        },
                        None => {},
                    }
                }
            },
            None => {},
        }
        assert(steps@ =~= entry.windows@.take(i + 1).filter_map(f));
        i = i + 1;
    }
    assert(entry.windows@.take(i as int) =~= entry.windows@);
    steps
}

/// Every window of the steps, waited for on `target`.
pub open spec fn awaited(steps: Seq<(WindowId, WindowStep)>, target: SpaceId) -> Map<
    WindowId,
    SpaceId,
>
    decreases steps.len(),
{
    if steps.len() == 0 {
        Map::empty()
    } else {
        awaited(steps.drop_last(), target).insert(steps.last().0, target)
    }
}

/// Begins the return trip of a display's windows to `target`: every window that
/// needs something is waited for, whether or not it could be sent. Whether
/// there is none to wait for is returned.
pub fn begin_homing(
    archive: &mut DisplayArchive,
    uuid: &String,
    target: SpaceId,
    steps: &Vec<(WindowId, WindowStep)>,
    now: Nanos,
) -> (immediate: bool)
    requires
        old(archive).wf(),
        old(archive).entries.at(uuid@) is Some,
    ensures
        final(archive).wf(),
        immediate == (steps@.len() == 0),
        ({
            let before = old(archive).entries.at(uuid@)->0;
            &&& final(archive).entries.at(uuid@) matches Some(entry) && {
                &&& entry.homing matches Some(homing) && homing.space == target && homing.from
                    == before.space && homing.started == now && homing.waiting@ == awaited(
                    steps@,
                    target,
                )
                &&& entry == (ArchivedDisplay { space: target, homing: entry.homing, ..before })
            }
            &&& forall|other: Seq<char>|
                other != uuid@ ==> #[trigger] final(archive).entries.at(other)
                    == old(archive).entries.at(other)
            &&& *final(archive) == (DisplayArchive {
                entries: final(archive).entries,
                ..*old(archive)
            })
        }),
{
    let ghost begun = archive.entries;
    let mut waiting: Table<WindowId, SpaceId> = Table::new();
    let mut i: usize = 0;
    while i < steps.len()
        invariant
            i <= steps@.len(),
            waiting.wf(),
            waiting@ == awaited(steps@.take(i as int), target),
        decreases steps@.len() - i,
    {
        proof {
            assert(steps@.take(i + 1).drop_last() =~= steps@.take(i as int));
            assert(steps@.take(i + 1).last() == steps@[i as int]);
        }
        waiting.insert(steps[i].0, target);
        i = i + 1;
    }
    assert(steps@.take(i as int) =~= steps@);
    let at = match archive.entries.find(uuid) {
        Some(at) => at,
        None => {
            return true;
        },
    };
    let (name, mut entry) = archive.entries.entries.remove(at);
    let from = entry.space;
    entry.space = target;
    entry.homing = Some(Homing { space: target, from, waiting, started: now });
    let ghost after = entry;
    archive.entries.entries.insert(at, (name, entry));
    proof {
        crate::table::lemma_set_value(begun, archive.entries, at as int, after);
        assert forall|other: Seq<char>|
            other != uuid@ implies #[trigger] archive.entries.at(other) == begun.at(other) by {}
        assert forall|other: Seq<char>|
            (#[trigger] archive.entries.at(other)) matches Some(entry) ==> entry.wf() by {
            assert(begun.at(other) == begun.at(other));
        }
    }
    steps.len() == 0
}

/// `after` is `before` once the windows that have landed are waited for no
/// longer.
pub open spec fn closer_to_home(
    before: ArchivedDisplay,
    after: ArchivedDisplay,
    places: Table<WindowId, WindowPlace>,
) -> bool {
    match (before.homing, after.homing) {
        (Some(homing), Some(now)) => {
            &&& forall|wid: WindowId| #[trigger]
                now.waiting.at(wid) == crate::table::kept_at(
                    homing.waiting.at(wid),
                    wid,
                    on_the_way(places),
                )
            &&& now == (Homing { waiting: now.waiting, ..homing })
            &&& after == (ArchivedDisplay { homing: after.homing, ..before })
        },
        (None, None) => after == before,
        _ => false,
    }
}

/// Every window waited for has come home.
pub open spec fn all_home(entry: ArchivedDisplay) -> bool {
    entry.homing matches Some(homing) && forall|wid: WindowId|
        (#[trigger] homing.waiting.at(wid)) is None
}

/// The displays among `entries` that everything has come home to, in order.
pub open spec fn homes(entries: Seq<(String, ArchivedDisplay)>) -> Seq<Seq<char>>
    decreases entries.len(),
{
    if entries.len() == 0 {
        seq![]
    } else if all_home(entries.last().1) {
        homes(entries.drop_last()).push(entries.last().0@)
    } else {
        homes(entries.drop_last())
    }
}

fn advance_entry(entry: ArchivedDisplay, places: &Table<WindowId, WindowPlace>) -> (advanced: (
    ArchivedDisplay,
    bool,
))
    requires
        entry.wf(),
        places.wf(),
    ensures
        advanced.0.wf(),
        closer_to_home(entry, advanced.0, *places),
        advanced.1 == all_home(advanced.0),
{
    let mut after = entry;
    let mut homing: Option<Homing> = None;
    std::mem::swap(&mut homing, &mut after.homing);
    match homing {
        Some(mut homing) => {
            let keep = |wid: &WindowId, target: &SpaceId| -> (keep: bool)
                ensures
                    keep == !landed(*places, *wid, *target),
            {
                let keep = match places.get(wid) {
                    Some(place) => match place.assigned {
                        Some(space) => space != *target,
                        None => true,
                    },
                    None => false,
                };
                keep
            };
            let _ = homing.waiting.retain(keep, Ghost(on_the_way(*places)));
            let home = homing.waiting.entries.len() == 0;
            proof {
                if homing.waiting.entries@.len() > 0 {
                    homing.waiting.lemma_at(0);
                    assert(homing.waiting.at(homing.waiting.entries@[0].0) is Some);
                } else {
                    assert forall|wid: WindowId| (#[trigger] homing.waiting.at(wid)) is None by {
                        if homing.waiting@.contains_key(wid) {
                            assert(homing.waiting.has_at(homing.waiting.index_of(wid), wid));
                        }
                    }
                }
            }
            after.homing = Some(homing);
            (after, home)
        },
        None => (after, false),
    }
}

/// While a return trip is in flight, after every event: the windows that have
/// landed are waited for no longer. The displays that everything has come home
/// to are returned.
pub fn advance_display_homing(
    archive: &mut DisplayArchive,
    places: &Table<WindowId, WindowPlace>,
) -> (finished: Vec<String>)
    requires
        old(archive).wf(),
        places.wf(),
    ensures
        final(archive).wf(),
        final(archive).entries.entries@.len() == old(archive).entries.entries@.len(),
        forall|i: int|
            0 <= i < old(archive).entries.entries@.len() ==> (#[trigger] final(archive).entries.entries@[i]).0@
                == old(archive).entries.entries@[i].0@ && closer_to_home(
                old(archive).entries.entries@[i].1,
                final(archive).entries.entries@[i].1,
                *places,
            ),
        crate::display_archive::texts(finished@) == homes(final(archive).entries.entries@),
        *final(archive) == (DisplayArchive { entries: final(archive).entries, ..*old(archive) }),
{
    let ghost begun = *archive;
    let ghost all = archive.entries.entries@;
    let mut finished: Vec<String> = Vec::new();
    let mut i: usize = 0;
    assert(crate::display_archive::texts(finished@) =~= homes(all.take(0)));
    while i < archive.entries.entries.len()
        invariant
            places.wf(),
            begun.wf(),
            all == begun.entries.entries@,
            archive.entries.entries@.len() == all.len(),
            i <= all.len(),
            forall|k: int|
                0 <= k < i ==> (#[trigger] archive.entries.entries@[k]).0@ == all[k].0@
                    && closer_to_home(all[k].1, archive.entries.entries@[k].1, *places)
                    && archive.entries.entries@[k].1.wf(),
            forall|k: int| i <= k < all.len() ==> #[trigger] archive.entries.entries@[k] == all[k],
            crate::display_archive::texts(finished@) == homes(
                archive.entries.entries@.take(i as int),
            ),
            *archive == (DisplayArchive { entries: archive.entries, ..begun }),
        decreases all.len() - i,
    {
        proof {
            begun.entries.lemma_at(i as int);
            assert(begun.entries.at(all[i as int].0@) is Some);
        }
        let ghost before = archive.entries.entries@;
        let (name, entry) = archive.entries.entries.remove(i);
        let (entry, home) = advance_entry(entry, places);
        if home {
            let ghost so_far = finished@;
            finished.push(name.clone());
            assert(crate::display_archive::texts(finished@) =~= crate::display_archive::texts(
                so_far,
            ).push(name@));
        }
        archive.entries.entries.insert(i, (name, entry));
        proof {
            let after = archive.entries.entries@;
            assert(after.take(i + 1).drop_last() =~= before.take(i as int));
            assert(after.take(i + 1).last() == after[i as int]);
        }
        i = i + 1;
    }
    proof {
        assert(archive.entries.entries@.take(i as int) =~= archive.entries.entries@);
        let after = archive.entries;
        assert forall|a: int, b: int| 0 <= a < b < after.entries@.len() implies (
        #[trigger] after.entries@[a]).0.model() != (#[trigger] after.entries@[b]).0.model() by {
            assert(begun.entries.entries@[a].0.model() != begun.entries.entries@[b].0.model());
        }
        assert forall|uuid: Seq<char>|
            (#[trigger] after.at(uuid)) matches Some(entry) ==> entry.wf() by {
            if after@.contains_key(uuid) {
                let k = after.index_of(uuid);
                assert(after.has_at(k, uuid));
                after.lemma_at(k);
            }
        }
    }
    finished
}

/// What is left to do when a display's windows are home: its layout is put back
/// on `space`, from what it was under `from`; the windows that made it get
/// their own choice of floating back first.
#[derive(Debug)]
pub struct Homecoming {
    pub space: SpaceId,
    pub from: SpaceId,
    pub snapshot: String,
    /// The windows that are home and known, with the user's own choice.
    pub landed: Vec<(WindowId, Option<bool>)>,
}

/// A window that is home: not waited for, and known.
pub open spec fn made_it_home(
    waiting: Table<WindowId, SpaceId>,
    places: Table<WindowId, WindowPlace>,
) -> spec_fn(ExiledWindow) -> Option<(WindowId, Option<bool>)> {
    |window: ExiledWindow|
        if waiting.at(window.wid) is None && places.at(window.wid) is Some {
            Some((window.wid, window.user_floating))
        } else {
            None
        }
}

/// Ends a display's return trip, if it is on one; either way it is kept no
/// longer.
pub fn finish_display_homing(
    archive: &mut DisplayArchive,
    uuid: &String,
    places: &Table<WindowId, WindowPlace>,
) -> (home: Option<Homecoming>)
    requires
        old(archive).wf(),
        places.wf(),
    ensures
        final(archive).wf(),
        match old(archive).entries.at(uuid@) {
            Some(entry) if entry.homing is Some => {
                let homing = entry.homing->0;
                &&& home matches Some(home) && {
                    &&& home.space == homing.space
                    &&& home.from == homing.from
                    &&& home.snapshot == entry.snapshot
                    &&& home.landed@ == entry.windows@.filter_map(
                        made_it_home(homing.waiting, *places),
                    )
                }
            },
            _ => home is None,
        },
        final(archive).entries@ == old(archive).entries@.remove(uuid@),
        *final(archive) == (DisplayArchive { entries: final(archive).entries, ..*old(archive) }),
{
    let ghost begun = archive.entries;
    let entry = match archive.entries.remove(uuid) {
        Some(entry) => entry,
        None => {
            return None;
        },
    };
    proof {
        assert forall|other: Seq<char>|
            (#[trigger] archive.entries.at(other)) matches Some(entry) ==> entry.wf() by {
            assert(begun.at(other) == begun.at(other));
        }
    }
    let homing = match entry.homing {
        Some(homing) => homing,
        None => {
            return None;
        },
    };
    let ghost f = made_it_home(homing.waiting, *places);
    let mut landed: Vec<(WindowId, Option<bool>)> = Vec::new();
    let mut i: usize = 0;
    while i < entry.windows.len()
        invariant
            places.wf(),
            homing.waiting.wf(),
            f == made_it_home(homing.waiting, *places),
            i <= entry.windows@.len(),
            landed@ == entry.windows@.take(i as int).filter_map(f),
        decreases entry.windows@.len() - i,
    {
        proof {
            entry.windows@.lemma_filter_map_take_succ(f, i as int);
        }
        let window = entry.windows[i];
        if !homing.waiting.contains_key(&window.wid) && places.contains_key(&window.wid) {
            landed.push((window.wid, window.user_floating));
        }
        assert(landed@ =~= entry.windows@.take(i + 1).filter_map(f));
        i = i + 1;
    }
    assert(entry.windows@.take(i as int) =~= entry.windows@);
    Some(Homecoming { space: homing.space, from: homing.from, snapshot: entry.snapshot, landed })
}

/// What follows once the layout of a returned display is back, or could not be
/// put back: the applications are asked for their windows, the layout is arranged
/// once, and told of the desktop if the screen that shows it has an area.
pub fn after_homecoming(home: &Option<Homecoming>, succeeded: bool, screens: &[Screen]) -> (
restored: Restored)
    ensures
        match *home {
            Some(home) if succeeded => put_back(
                restored,
                true,
                if shown_with_area(screens@, home.space) {
                    seq![home.space]
                } else {
                    seq![]
                },
            ),
            _ => left_alone(restored),
        },
{
    match home {
        Some(home) => after_layout_restored(home.space, succeeded, true, screens),
        None => Restored::nothing(),
    }
}

/// A window that has not come home by the deadline keeps its float: its own
/// choice is given back to windows that are home alone.
pub proof fn only_windows_that_are_home_get_their_choice_back(
    windows: Seq<ExiledWindow>,
    waiting: Table<WindowId, SpaceId>,
    places: Table<WindowId, WindowPlace>,
    i: int,
)
    requires
        0 <= i < windows.filter_map(made_it_home(waiting, places)).len(),
    ensures
        waiting.at(windows.filter_map(made_it_home(waiting, places))[i].0) is None,
    decreases windows.len(),
{
    if i < windows.drop_last().filter_map(made_it_home(waiting, places)).len() {
        only_windows_that_are_home_get_their_choice_back(
            windows.drop_last(),
            waiting,
            places,
            i,
        );
    }
}

/// A window of a returned display that is somewhere else is sent home, as long
/// as it is known and the window server has a number for it.
pub proof fn an_exiled_window_is_sent_home(
    window: ExiledWindow,
    place: WindowPlace,
    live: Table<WindowServerId, SpaceId>,
    target: SpaceId,
)
    requires
        window.wsid is Some,
        exiled_to(window, place, live) != Some(target),
    ensures
        home_step(window, Some(place), live, target) == WindowStep::Send(window.wsid->0, target),
{
}

/// The window server is asked by number alone: a window that was kept without
/// one is neither sent nor waited for, wherever it has come to be.
pub proof fn a_window_without_a_number_stays(
    window: ExiledWindow,
    place: Option<WindowPlace>,
    live: Table<WindowServerId, SpaceId>,
    target: SpaceId,
)
    requires
        window.wsid is None,
    ensures
        home_step(window, place, live, target) == WindowStep::Nothing,
{
}

/// The layout that is put back is the one that was kept when the display left,
/// from under the desktop it showed then.
pub proof fn the_layout_that_left_comes_back(
    kept: ArchivedDisplay,
    homing: ArchivedDisplay,
    space: SpaceId,
    snapshot: Seq<char>,
    windows: Seq<ExiledWindow>,
    desktops: Seq<SpaceId>,
    target: SpaceId,
)
    requires
        archived_anew(kept, space, snapshot, windows, desktops),
        homing == (ArchivedDisplay { space: target, homing: homing.homing, ..kept }),
        homing.homing matches Some(trip) && trip.space == target && trip.from == kept.space,
    ensures
        homing.snapshot@ == snapshot,
        homing.homing->0.from == space,
        homing.windows@ == windows,
{
}

/// What is done when the time for windows to arrive is up.
#[derive(Clone, Copy, Debug, PartialEq, Eq, Structural)]
pub enum Deadline {
    /// It is over already.
    Nothing,
    /// The pass ends with what has arrived, which may not be all.
    FinishPass { late: bool },
    /// The return of the display ends with what has arrived, which may not be
    /// all.
    FinishDisplay { late: bool },
}

/// What is done when the time of a display's windows to arrive is up. The name
/// "record" stands for the pass over all displays.
pub open spec fn deadline(archive: DisplayArchive, uuid: Seq<char>) -> Deadline {
    if uuid == "record"@ {
        match archive.record {
            Some(record) => match record.pass {
                Some(pass) => Deadline::FinishPass { late: pass.waiting.entries@.len() > 0 },
                None => Deadline::Nothing,
            },
            None => Deadline::Nothing,
        }
    } else {
        match archive.entries.at(uuid) {
            Some(entry) => match entry.homing {
                Some(homing) => Deadline::FinishDisplay { late: homing.waiting.entries@.len() > 0 },
                None => Deadline::Nothing,
            },
            None => Deadline::Nothing,
        }
    }
}

/// The time of a display's windows to arrive is up.
pub fn handle_display_homing_deadline(archive: &DisplayArchive, uuid: &String) -> (what: Deadline)
    requires
        archive.entries.wf(),
    ensures
        what == deadline(*archive, uuid@),
{
    if same_text(uuid.as_str(), "record") {
        return match &archive.record {
            Some(record) => match &record.pass {
                Some(pass) => Deadline::FinishPass { late: pass.waiting.len() > 0 },
                None => Deadline::Nothing,
            },
            None => Deadline::Nothing,
        };
    }
    match archive.entries.get(uuid) {
        Some(entry) => match &entry.homing {
            Some(homing) => Deadline::FinishDisplay { late: homing.waiting.len() > 0 },
            None => Deadline::Nothing,
        },
        None => Deadline::Nothing,
    }
}

/// A window that is home on this desktop.
pub open spec fn home_on(places: Table<WindowId, WindowPlace>, space: SpaceId) -> spec_fn(
    (WindowId, Option<bool>),
) -> Option<WindowId> {
    |landed: (WindowId, Option<bool>)|
        if places.at(landed.0) matches Some(place) && place.assigned == Some(space) {
            Some(landed.0)
        } else {
            None
        }
}

/// The windows whose place in the restored layout is the user's choice from now
/// on: those that are home, once the layout has them on the display's desktop.
pub fn windows_to_settle(home: &Homecoming, places: &Table<WindowId, WindowPlace>) -> (windows: Vec<
    WindowId,
>)
    requires
        places.wf(),
    ensures
        windows@ == home.landed@.filter_map(home_on(*places, home.space)),
{
    let ghost f = home_on(*places, home.space);
    let mut windows: Vec<WindowId> = Vec::new();
    let mut i: usize = 0;
    while i < home.landed.len()
        invariant
            places.wf(),
            f == home_on(*places, home.space),
            i <= home.landed@.len(),
            windows@ == home.landed@.take(i as int).filter_map(f),
        decreases home.landed@.len() - i,
    {
        proof {
            home.landed@.lemma_filter_map_take_succ(f, i as int);
        }
        let window = home.landed[i].0;
        let there = match places.get(&window) {
            Some(place) => match place.assigned {
                Some(assigned) => assigned == home.space,
                None => false,
            },
            None => false,
        };
        if there {
            windows.push(window);
        }
        i = i + 1;
    }
    assert(home.landed@.take(i as int) =~= home.landed@);
    windows
}

/// One more display adds its windows to those that are gathered once it has not been
/// arranged, is not on its way home, and none of its tiled windows that are known is
/// assigned to the desktop that went away.
pub proof fn which_displays_settle(
    entries: Seq<(String, ArchivedDisplay)>,
    one: (String, ArchivedDisplay),
    places: Table<WindowId, WindowPlace>,
)
    ensures
        settling(Seq::empty(), places).len() == 0,
        ({
            let left_behind = exists|i: int|
                #![trigger one.1.windows@[i]]
                0 <= i < one.1.windows@.len() && one.1.windows@[i].was_tiled && (places.at(
                    one.1.windows@[i].wid,
                ) matches Some(place) && place.assigned == Some(one.1.space));
            let ready = !one.1.settled && one.1.homing is None && !left_behind;
            &&& ready ==> settling(entries.push(one), places) == settling(entries, places).push(
                one.1,
            )
            &&& !ready ==> settling(entries.push(one), places) == settling(entries, places)
        }),
{
    assert(entries.push(one).drop_last() =~= entries);
    lemma_left_behind(one.1, places, one.1.space);
}

proof fn lemma_left_behind(
    entry: ArchivedDisplay,
    places: Table<WindowId, WindowPlace>,
    space: SpaceId,
)
    ensures
        assigned_among(tiled_exiles(entry, places), places, space) <==> exists|i: int|
            #![trigger entry.windows@[i]]
            0 <= i < entry.windows@.len() && entry.windows@[i].was_tiled && (places.at(
                entry.windows@[i].wid,
            ) matches Some(place) && place.assigned == Some(space)),
{
    let tiled = entry.windows@.filter_map(tiled_window());
    let wids = tiled_exiles(entry, places);
    if assigned_among(wids, places, space) {
        let x = choose|x: int|
            0 <= x < wids.len() && (places.at(#[trigger] wids[x]) matches Some(place)
                && place.assigned == Some(space));
        assert(wids.contains(wids[x]));
        crate::lists::lemma_filter_holds(tiled, known_in(places), wids[x]);
        crate::lists::lemma_filter_map_holds(entry.windows@, tiled_window(), wids[x]);
        let i = choose|i: int|
            0 <= i < entry.windows@.len() && tiled_window()(#[trigger] entry.windows@[i]) == Some(
                wids[x],
            );
        assert(entry.windows@[i].was_tiled);
    }
    if exists|i: int|
        #![trigger entry.windows@[i]]
        0 <= i < entry.windows@.len() && entry.windows@[i].was_tiled && (places.at(
            entry.windows@[i].wid,
        ) matches Some(place) && place.assigned == Some(space)) {
        let i = choose|i: int|
            #![trigger entry.windows@[i]]
            0 <= i < entry.windows@.len() && entry.windows@[i].was_tiled && (places.at(
                entry.windows@[i].wid,
            ) matches Some(place) && place.assigned == Some(space));
        let wid = entry.windows@[i].wid;
        crate::lists::lemma_filter_map_holds(entry.windows@, tiled_window(), wid);
        assert(tiled_window()(entry.windows@[i]) == Some(wid));
        crate::lists::lemma_filter_holds(tiled, known_in(places), wid);
        let x = wids.index_of(wid);
        assert(wids[x] == wid);
    }
}

/// The windows of a cluster are the tiled ones of the display that are known, and
/// its desktops are those that one of them is assigned to.
pub proof fn what_is_gathered(
    cluster: Cluster,
    entry: ArchivedDisplay,
    places: Table<WindowId, WindowPlace>,
    wid: WindowId,
    space: SpaceId,
)
    requires
        is_cluster(cluster, entry, places),
    ensures
        cluster.windows@.contains(wid) <==> places.at(wid) is Some && exists|i: int|
            0 <= i < entry.windows@.len() && (#[trigger] entry.windows@[i]).wid == wid
                && entry.windows@[i].was_tiled,
        cluster.spaces@.contains(space) <==> exists|i: int|
            #![trigger entry.windows@[i]]
            0 <= i < entry.windows@.len() && entry.windows@[i].was_tiled && (places.at(
                entry.windows@[i].wid,
            ) matches Some(place) && place.assigned == Some(space)),
{
    lemma_left_behind(entry, places, space);
    assert(cluster.spaces@.contains(space) == cluster.spaces@.contains(space));
    let tiled = entry.windows@.filter_map(tiled_window());
    crate::lists::lemma_filter_holds(tiled, known_in(places), wid);
    crate::lists::lemma_filter_map_holds(entry.windows@, tiled_window(), wid);
    if tiled.contains(wid) {
        let i = choose|i: int|
            0 <= i < entry.windows@.len() && tiled_window()(#[trigger] entry.windows@[i]) == Some(
                wid,
            );
        assert(entry.windows@[i].wid == wid);
    }
    if exists|i: int|
        0 <= i < entry.windows@.len() && (#[trigger] entry.windows@[i]).wid == wid
            && entry.windows@[i].was_tiled {
        let i = choose|i: int|
            0 <= i < entry.windows@.len() && (#[trigger] entry.windows@[i]).wid == wid
                && entry.windows@[i].was_tiled;
        assert(tiled_window()(entry.windows@[i]) == Some(wid));
    }
}

/// A departed display lets go of a window that turns up on a desktop it never had, as
/// long as it is away, not on its way home and waits for no other; else it keeps it.
pub proof fn when_a_display_lets_go(
    before: ArchivedDisplay,
    after: ArchivedDisplay,
    uuid: Seq<char>,
    wid: WindowId,
    space: SpaceId,
    screens: Seq<Screen>,
    window: ExiledWindow,
)
    requires
        let_go(before, after, uuid, wid, space, screens),
    ensures
        ({
            let lets_go = before.homing is None && before.waiting_for is None
                && !before.desktops@.contains(space) && forall|k: int|
                0 <= k < screens.len() ==> (#[trigger] screens[k]).display_uuid@ != uuid;
            &&& lets_go ==> (after.windows@.contains(window) <==> before.windows@.contains(window)
                && window.wid != wid)
            &&& !lets_go ==> after.windows@ == before.windows@
        }),
        after.snapshot == before.snapshot && after.space == before.space && after.settled
            == before.settled && after.homing == before.homing,
{
    crate::lists::lemma_filter_holds(before.windows@, other_window(wid), window);
    let away = forall|k: int|
        0 <= k < screens.len() ==> (#[trigger] screens[k]).display_uuid@ != uuid;
    assert(on_screen(screens, uuid) <==> !away);
    if !before.exiles(wid) && before.windows@.contains(window) {
        let i = before.windows@.index_of(window);
        assert(before.windows@[i].wid != wid);
    }
}

/// One more screen is of a display that returns home if it shows a desktop and the
/// display's layout is kept, is not on its way, and waits for no display that is
/// away.
pub proof fn which_displays_return(archive: DisplayArchive, screens: Seq<Screen>, n: int)
    requires
        0 <= n < screens.len(),
    ensures
        homecoming(archive, screens, 0).len() == 0,
        ({
            let screen = screens[n];
            let entry = archive.entries.at(screen.display_uuid@);
            let comes_home = screen.space is Some && entry is Some && entry->0.homing is None && (
            entry->0.waiting_for is None || exists|k: int|
                0 <= k < screens.len() && (#[trigger] screens[k]).display_uuid@
                    == entry->0.waiting_for->0@);
            &&& comes_home ==> homecoming(archive, screens, n + 1) == homecoming(
                archive,
                screens,
                n,
            ).push((screen.display_uuid@, screen.space->0))
            &&& !comes_home ==> homecoming(archive, screens, n + 1) == homecoming(archive, screens, n)
        }),
{
}

/// The display whose desktops another brought along: the first that waits for it,
/// else that of the first screen of another display.
pub proof fn whose_desktops_came_along(
    archive: DisplayArchive,
    screens: Seq<Screen>,
    uuid: Seq<char>,
    owner: Option<Seq<char>>,
    at: int,
    k: int,
)
    requires
        is_owner(archive, screens, uuid, owner),
        0 <= at <= archive.entries.entries@.len(),
        at < archive.entries.entries@.len() ==> (
        archive.entries.entries@[at].1.waiting_for matches Some(waited) && waited@ == uuid),
        forall|i: int|
            0 <= i < at ==> !((#[trigger] archive.entries.entries@[i]).1.waiting_for matches Some(
                waited,
            ) && waited@ == uuid),
        0 <= k <= screens.len(),
        k < screens.len() ==> screens[k].display_uuid@ != uuid,
        forall|i: int| 0 <= i < k ==> (#[trigger] screens[i]).display_uuid@ == uuid,
    ensures
        at < archive.entries.entries@.len() ==> owner == Some(archive.entries.entries@[at].0@),
        at == archive.entries.entries@.len() && k < screens.len() ==> owner == Some(
            screens[k].display_uuid@,
        ),
        at == archive.entries.entries@.len() && k == screens.len() ==> owner is None,
{
    let entries = archive.entries.entries@;
    lemma_other_screen(screens, uuid, k);
    if at < entries.len() {
        assert(first_waiting(entries, uuid, at));
        let x = choose|x: int|
            first_waiting(entries, uuid, x) && owner == Some(entries[x].0@);
        if x < at {
            assert(!waits_for_display(entries[x].1, uuid));
        } else if at < x {
            assert(!waits_for_display(entries[at].1, uuid));
        }
    } else {
        assert(!(exists|x: int| first_waiting(entries, uuid, x))) by {
            if exists|x: int| first_waiting(entries, uuid, x) {
                let x = choose|x: int| first_waiting(entries, uuid, x);
                assert(waits_for_display(entries[x].1, uuid));
            }
        }
    }
}

proof fn lemma_other_screen(screens: Seq<Screen>, uuid: Seq<char>, k: int)
    requires
        0 <= k <= screens.len(),
        k < screens.len() ==> screens[k].display_uuid@ != uuid,
        forall|i: int| 0 <= i < k ==> (#[trigger] screens[i]).display_uuid@ == uuid,
    ensures
        k < screens.len() ==> other_screen(screens, uuid) == Some(screens[k].display_uuid@),
        k == screens.len() ==> other_screen(screens, uuid) is None,
    decreases screens.len(),
{
    if k > 0 {
        let rest = screens.skip(1);
        assert(screens[0].display_uuid@ == uuid);
        assert forall|i: int| 0 <= i < k - 1 implies (#[trigger] rest[i]).display_uuid@ == uuid by {
            assert(rest[i] == screens[i + 1]);
        }
        lemma_other_screen(rest, uuid, k - 1);
    }
}

/// The fresh desktop of a display is the first it lists beyond those it left with.
pub proof fn which_desktop_is_fresh(listed: Seq<SpaceId>, desktops: Seq<SpaceId>, at: int)
    requires
        0 <= at <= listed.len(),
        at < listed.len() ==> !desktops.contains(listed[at]),
        forall|i: int| 0 <= i < at ==> desktops.contains(#[trigger] listed[i]),
    ensures
        at < listed.len() ==> first_beyond(listed, desktops) == Some(listed[at]),
        at == listed.len() ==> first_beyond(listed, desktops) is None,
{
    crate::display_archive::lemma_first_filtered(listed, not_among(desktops), at);
}

/// A window that is on its display's desktop but not assigned there is waited for;
/// one that is assigned there too, or is not known, needs nothing.
pub proof fn a_window_that_is_home_is_waited_for(
    window: ExiledWindow,
    place: WindowPlace,
    live: Table<WindowServerId, SpaceId>,
    target: SpaceId,
)
    ensures
        home_step(window, None, live, target) == WindowStep::Nothing,
        window.wsid is Some && live.at(window.wsid->0) == Some(target) && place.assigned != Some(
            target,
        ) ==> home_step(window, Some(place), live, target) == WindowStep::Wait(target),
        window.wsid is Some && live.at(window.wsid->0) == Some(target) && place.assigned == Some(
            target,
        ) ==> home_step(window, Some(place), live, target) == WindowStep::Nothing,
        window.wsid is Some && live.at(window.wsid->0) is None && place.assigned == Some(target)
            ==> home_step(window, Some(place), live, target) == WindowStep::Nothing,
        window.wsid is Some && live.at(window.wsid->0) is Some && live.at(window.wsid->0) != Some(
            target,
        ) ==> home_step(window, Some(place), live, target) == WindowStep::Send(
            window.wsid->0,
            target,
        ),
        window.wsid is Some && live.at(window.wsid->0) is None && place.assigned != Some(target)
            ==> home_step(window, Some(place), live, target) == WindowStep::Send(
            window.wsid->0,
            target,
        ),
{
}

/// One more window adds what is to be done for it, if anything is.
pub proof fn what_is_done_for_the_windows(
    windows: Seq<ExiledWindow>,
    one: ExiledWindow,
    places: Table<WindowId, WindowPlace>,
    live: Table<WindowServerId, SpaceId>,
    target: SpaceId,
)
    ensures
        ({
            let step = home_step(one, places.at(one.wid), live, target);
            let before = windows.filter_map(homebound(places, live, target));
            let after = windows.push(one).filter_map(homebound(places, live, target));
            &&& step == WindowStep::Nothing ==> after == before
            &&& step != WindowStep::Nothing ==> after == before.push((one.wid, step))
        }),
{
    crate::lists::lemma_filter_map_push(windows, one, homebound(places, live, target));
}

/// Every window that something is done for is waited for on the display's desktop,
/// and no other is.
pub proof fn who_is_awaited(steps: Seq<(WindowId, WindowStep)>, target: SpaceId, wid: WindowId)
    ensures
        awaited(steps, target).contains_key(wid) <==> exists|i: int|
            0 <= i < steps.len() && (#[trigger] steps[i]).0 == wid,
        awaited(steps, target).contains_key(wid) ==> awaited(steps, target)[wid] == target,
    decreases steps.len(),
{
    if steps.len() > 0 {
        let front = steps.drop_last();
        who_is_awaited(front, target, wid);
        if awaited(front, target).contains_key(wid) {
            let i = choose|i: int| 0 <= i < front.len() && (#[trigger] front[i]).0 == wid;
            assert(steps[i].0 == wid);
        }
        if exists|i: int| 0 <= i < steps.len() && (#[trigger] steps[i]).0 == wid {
            let i = choose|i: int| 0 <= i < steps.len() && (#[trigger] steps[i]).0 == wid;
            if i < front.len() {
                assert(front[i].0 == wid);
            }
        }
    }
}

/// A window is waited for no longer once it is assigned where it was sent or is known
/// no longer, and until then it is.
pub proof fn a_return_trip_advances(
    before: ArchivedDisplay,
    after: ArchivedDisplay,
    places: Table<WindowId, WindowPlace>,
    wid: WindowId,
)
    requires
        closer_to_home(before, after, places),
    ensures
        before.homing is None ==> after == before,
        before.homing is Some ==> after.homing is Some && after.windows == before.windows
            && after.snapshot == before.snapshot && after.homing->0.space == before.homing->0.space
            && after.homing->0.from == before.homing->0.from,
        before.homing is Some && before.homing->0.waiting.at(wid) is None
            ==> after.homing->0.waiting.at(wid) is None,
        before.homing is Some && before.homing->0.waiting.at(wid) is Some && (places.at(wid) is None
            || (places.at(wid)->0).assigned == before.homing->0.waiting.at(wid))
            ==> after.homing->0.waiting.at(wid) is None,
        before.homing is Some && before.homing->0.waiting.at(wid) is Some && (places.at(
            wid,
        ) matches Some(place) && place.assigned != before.homing->0.waiting.at(wid))
            ==> after.homing->0.waiting.at(wid) == before.homing->0.waiting.at(wid),
{
    if before.homing is Some {
        assert(after.homing->0.waiting.at(wid) == after.homing->0.waiting.at(wid));
    }
}

/// One more display is home if it is on its way and nothing is waited for.
pub proof fn which_displays_are_home(
    entries: Seq<(String, ArchivedDisplay)>,
    one: (String, ArchivedDisplay),
)
    ensures
        homes(Seq::empty()).len() == 0,
        one.1.homing is Some && (forall|wid: WindowId|
            (#[trigger] one.1.homing->0.waiting.at(wid)) is None) ==> homes(entries.push(one))
            == homes(entries).push(one.0@),
        one.1.homing is None ==> homes(entries.push(one)) == homes(entries),
        (exists|wid: WindowId|
            one.1.homing is Some && (#[trigger] one.1.homing->0.waiting.at(wid)) is Some) ==> homes(
            entries.push(one),
        ) == homes(entries),
{
    assert(entries.push(one).drop_last() =~= entries);
}

/// One more window is home if it is known and not waited for, with the user's choice.
pub proof fn which_windows_are_home(
    windows: Seq<ExiledWindow>,
    one: ExiledWindow,
    waiting: Table<WindowId, SpaceId>,
    places: Table<WindowId, WindowPlace>,
)
    ensures
        waiting.at(one.wid) is None && places.at(one.wid) is Some ==> windows.push(one).filter_map(
            made_it_home(waiting, places),
        ) == windows.filter_map(made_it_home(waiting, places)).push((one.wid, one.user_floating)),
        waiting.at(one.wid) is Some || places.at(one.wid) is None ==> windows.push(one).filter_map(
            made_it_home(waiting, places),
        ) == windows.filter_map(made_it_home(waiting, places)),
{
    crate::lists::lemma_filter_map_push(windows, one, made_it_home(waiting, places));
}

/// One more window keeps its place in the restored layout if the layout has it on the
/// display's desktop.
pub proof fn which_windows_keep_their_place(
    landed: Seq<(WindowId, Option<bool>)>,
    one: (WindowId, Option<bool>),
    places: Table<WindowId, WindowPlace>,
    space: SpaceId,
)
    ensures
        (places.at(one.0) matches Some(place) && place.assigned == Some(space)) ==> landed.push(
            one,
        ).filter_map(home_on(places, space)) == landed.filter_map(home_on(places, space)).push(
            one.0,
        ),
        !(places.at(one.0) matches Some(place) && place.assigned == Some(space)) ==> landed.push(
            one,
        ).filter_map(home_on(places, space)) == landed.filter_map(home_on(places, space)),
{
    crate::lists::lemma_filter_map_push(landed, one, home_on(places, space));
}

/// When the time is up, what is under way ends, late if a window is still waited for;
/// what is over already is left.
pub proof fn what_the_deadline_ends(archive: DisplayArchive, uuid: Seq<char>)
    ensures
        uuid == "record"@ && archive.record is Some && archive.record->0.pass is Some ==> deadline(
            archive,
            uuid,
        ) == (Deadline::FinishPass {
            late: archive.record->0.pass->0.waiting.entries@.len() > 0,
        }),
        uuid == "record"@ && (archive.record is None || archive.record->0.pass is None) ==> deadline(
            archive,
            uuid,
        ) == Deadline::Nothing,
        uuid != "record"@ && (archive.entries.at(uuid) matches Some(entry) && entry.homing is Some)
            ==> deadline(archive, uuid) == (Deadline::FinishDisplay {
            late: (archive.entries.at(uuid)->0).homing->0.waiting.entries@.len() > 0,
        }),
        uuid != "record"@ && (archive.entries.at(uuid) is None || (archive.entries.at(
            uuid,
        )->0).homing is None) ==> deadline(archive, uuid) == Deadline::Nothing,
{
}

/// What is displaced is settled once, while its display is away, when no tiled window of it
/// is assigned to the desktop that went away.
pub proof fn when_the_displaced_are_settled(
    entry: ArchivedDisplay,
    places: Table<WindowId, WindowPlace>,
    i: int,
)
    ensures
        entry.settled ==> !ready_to_settle(entry, places),
        entry.homing is Some ==> !ready_to_settle(entry, places),
        0 <= i < tiled_exiles(entry, places).len() && places.at(tiled_exiles(entry, places)[i]) is Some
            && places.at(tiled_exiles(entry, places)[i])->0.assigned == Some(entry.space)
            ==> !ready_to_settle(entry, places),
        !entry.settled && entry.homing is None && (forall|wid: WindowId|
            (#[trigger] places.at(wid)) is Some ==> places.at(wid)->0.assigned != Some(entry.space))
            ==> ready_to_settle(entry, places),
{
    if assigned_among(tiled_exiles(entry, places), places, entry.space) {
        let wids = tiled_exiles(entry, places);
        let k = choose|k: int|
            0 <= k < wids.len() && (places.at(#[trigger] wids[k]) matches Some(place)
                && place.assigned == Some(entry.space));
        assert(places.at(wids[k]) is Some);
    }
}

/// A desktop is in use elsewhere if a screen of another display shows it or another display
/// lists it, and in no other case.
pub proof fn which_desktops_are_in_use_elsewhere(
    screens: Seq<Screen>,
    listing: Listing,
    uuid: Seq<char>,
    space: SpaceId,
    i: int,
)
    ensures
        0 <= i < screens.len() && screens[i].space == Some(space) && screens[i].display_uuid@ != uuid
            ==> in_use_elsewhere(screens, listing, uuid, space),
        0 <= i < listing.entries@.len() && listing.entries@[i].0@ != uuid
            && listing.entries@[i].1@.contains(space) ==> in_use_elsewhere(
            screens,
            listing,
            uuid,
            space,
        ),
        (forall|k: int|
            0 <= k < screens.len() ==> (#[trigger] screens[k]).space != Some(space)
                || screens[k].display_uuid@ == uuid) && (forall|k: int|
            0 <= k < listing.entries@.len() ==> (#[trigger] listing.entries@[k]).0@ == uuid
                || !listing.entries@[k].1@.contains(space)) ==> !in_use_elsewhere(
            screens,
            listing,
            uuid,
            space,
        ),
{
}

/// A display is home when it is on its way and no window is waited for any more.
pub proof fn when_a_display_is_home(entry: ArchivedDisplay, wid: WindowId)
    ensures
        entry.homing is None ==> !all_home(entry),
        entry.homing is Some && entry.homing->0.waiting.at(wid) is Some ==> !all_home(entry),
        entry.homing is Some && (forall|other: WindowId|
            (#[trigger] entry.homing->0.waiting.at(other)) is None) ==> all_home(entry),
{
}

/// What is gathered comes in the order in which it was kept.
pub proof fn what_is_gathered_keeps_its_order(
    cluster: Cluster,
    entry: ArchivedDisplay,
    places: Table<WindowId, WindowPlace>,
)
    requires
        is_cluster(cluster, entry, places),
    ensures
        cluster.windows@ == entry.windows@.filter_map(tiled_window()).filter(
            |wid: WindowId| places.at(wid) is Some,
        ),
        cluster.spaces@.no_duplicates(),
{
    assert(known_in(places) =~= |wid: WindowId| places.at(wid) is Some);
}

} // verus!
