//! A record while it stands: what the user does, and the passes over it.

use vstd::prelude::*;

use crate::clock::{elapsed, Nanos};
use crate::display_record::{
    DepartureSnapshot, DisplayRecord, Pass, Stage, CHURN_SETTLE, RETIRE_GIVE_UP,
};
use crate::ids::{SpaceId, WindowId};
use crate::lists::{copy_list, holds};
use crate::outcome::{left_alone, put_back, Restored};
use crate::reconcile::{all_back, is_all_back};
use crate::screens::{is_shown_with_area, shown_with_area, Screen};
use crate::settle::WindowPlace;
use crate::table::Table;

verus! {

/// The record `before` is `after` once a window has arrived on `space`; `edited`
/// is whether it now belongs there.
pub open spec fn placed_while_away(
    before: DisplayRecord,
    wid: WindowId,
    space: SpaceId,
    screens: Seq<Screen>,
    now: Nanos,
    after: DisplayRecord,
    edited: bool,
) -> bool {
    if before.own_moves@.contains(wid) {
        &&& !edited
        &&& after.own_moves@ == before.own_moves@.remove(wid)
        &&& after == (DisplayRecord { own_moves: after.own_moves, ..before })
    } else if before.pass is Some || elapsed(now, before.churn_seen) < CHURN_SETTLE || all_back(
        before,
        screens,
    ) {
        !edited && after.placed == before.placed && after.own_moves@ == before.own_moves@ && after
            == (DisplayRecord { own_moves: after.own_moves, ..before })
    } else {
        &&& after.own_moves@ == before.own_moves@
        &&& after == (DisplayRecord { placed: after.placed, own_moves: after.own_moves, ..before })
        &&& if before.windows.at(wid) == Some(space) {
            !edited && after.placed@ == before.placed@.remove(wid)
        } else if before.placed.at(wid) matches Some(place) && place.0 == space {
            !edited && after.placed@ == before.placed@
        } else {
            edited && after.placed@ == before.placed@.insert(wid, (space, now))
        }
    }
}

/// A window arrived on `space`. Once the churn has settled and while a display
/// is still away, that is the user's doing, and where it belongs from now on.
/// The arrival of a window that was sent is not. Whether the record was edited
/// is returned.
pub fn note_window_placed_while_away(
    record: &mut DisplayRecord,
    wid: WindowId,
    space: SpaceId,
    screens: &[Screen],
    now: Nanos,
) -> (edited: bool)
    requires
        old(record).wf(),
    ensures
        final(record).wf(),
        placed_while_away(*old(record), wid, space, screens@, now, *final(record), edited),
{
    if record.own_moves.remove(wid) {
        return false;
    }
    assert(old(record).own_moves@.remove(wid) =~= old(record).own_moves@);
    if record.pass.is_some() || elapsed(now, record.churn_seen) < CHURN_SETTLE || is_all_back(
        record,
        screens,
    ) {
        return false;
    }
    let at_home = match record.windows.get(&wid) {
        Some(home) => *home == space,
        None => false,
    };
    if at_home {
        let _ = record.placed.remove(&wid);
        return false;
    }
    let there = match record.placed.get(&wid) {
        Some(place) => place.0 == space,
        None => false,
    };
    if there {
        return false;
    }
    record.placed.insert(wid, (space, now));
    true
}

/// The window is assigned where it was sent, or is known no longer.
pub open spec fn landed(
    places: Table<WindowId, WindowPlace>,
    wid: WindowId,
    target: SpaceId,
) -> bool {
    places.at(wid) matches Some(place) ==> place.assigned == Some(target)
}

/// Still being on the way.
pub open spec fn on_the_way(places: Table<WindowId, WindowPlace>) -> spec_fn(
    WindowId,
    SpaceId,
) -> bool {
    |wid: WindowId, target: SpaceId| !landed(places, wid, target)
}

/// A window the pass waits for has landed.
pub open spec fn any_landed(pass: Pass, places: Table<WindowId, WindowPlace>) -> bool {
    exists|wid: WindowId|
        (#[trigger] pass.waiting.at(wid)) matches Some(target) && landed(places, wid, target)
}

/// While a pass is in flight, after every event: the windows that have landed
/// are waited for no longer. Whether the last one has, so that the pass can be
/// finished, is returned.
pub fn advance_record(record: &mut DisplayRecord, places: &Table<WindowId, WindowPlace>) -> (finish:
    bool)
    requires
        old(record).wf(),
        places.wf(),
    ensures
        final(record).wf(),
        match old(record).pass {
            None => !finish && *final(record) == *old(record),
            Some(pass) => {
                &&& final(record).pass matches Some(after) && {
                    &&& forall|wid: WindowId| #[trigger]
                        after.waiting.at(wid) == crate::table::kept_at(
                            pass.waiting.at(wid),
                            wid,
                            on_the_way(*places),
                        )
                    &&& finish == (any_landed(pass, *places) && forall|wid: WindowId|
                        (#[trigger] after.waiting.at(wid)) is None)
                    &&& after == (Pass { waiting: after.waiting, ..pass })
                }
                &&& *final(record) == (DisplayRecord { pass: final(record).pass, ..*old(record) })
            },
        },
{
    let mut pass: Option<Pass> = None;
    std::mem::swap(&mut pass, &mut record.pass);
    let mut pass = match pass {
        Some(pass) => pass,
        None => {
            return false;
        },
    };
    let ghost before = pass;
    let keep = |wid: &WindowId, target: &SpaceId| -> (keep: bool)
        ensures
            keep == !landed(*places, *wid, *target),
    {
        let keep = match places.get(wid) {
            Some(place) => match place.assigned {
                Some(space) => space != *target,
                None => true,
            },
            None => false,
        };
        keep
    };
    let gone = pass.waiting.retain(keep, Ghost(on_the_way(*places)));
    let finish = gone.len() > 0 && pass.waiting.entries.len() == 0;
    proof {
        let places_out = crate::table::lemma_filter_places(
            before.waiting.entries@,
            crate::table::entry_not(on_the_way(*places)),
        );
        if gone@.len() > 0 {
            assert(places_out[0] == places_out[0]);
            before.waiting.lemma_at(places_out[0]);
            let wid = before.waiting.entries@[places_out[0]].0;
            assert(before.waiting.at(wid) matches Some(target) && landed(*places, wid, target));
        }
        if any_landed(before, *places) {
            let wid = choose|wid: WindowId|
                (#[trigger] before.waiting.at(wid)) matches Some(target) && landed(
                    *places,
                    wid,
                    target,
                );
            let x = before.waiting.index_of(wid);
            assert(before.waiting.has_at(x, wid));
            before.waiting.lemma_at(x);
            assert(crate::table::entry_not(on_the_way(*places))(before.waiting.entries@[x]));
            assert(places_out.contains(x));
        }
        if pass.waiting.entries@.len() > 0 {
            pass.waiting.lemma_at(0);
            assert(pass.waiting.at(pass.waiting.entries@[0].0) is Some);
        } else {
            assert forall|wid: WindowId| (#[trigger] pass.waiting.at(wid)) is None by {
                if pass.waiting@.contains_key(wid) {
                    let x = pass.waiting.index_of(wid);
                    assert(pass.waiting.has_at(x, wid));
                }
            }
        }
    }
    record.pass = Some(pass);
    finish
}

/// What a finished pass leaves to be done: the trees to put back from the
/// recorded layout, and the desktops to lay out again.
#[derive(Debug)]
pub struct FinishedPass {
    pub stage: Stage,
    pub layout: String,
    pub restores: Vec<(SpaceId, SpaceId)>,
    pub exposed: Vec<SpaceId>,
}

/// A desktop that is shown on a screen with an area.
pub open spec fn exposed_on() -> spec_fn(Screen) -> Option<SpaceId> {
    |screen: Screen|
        if screen.has_area {
            screen.space
        } else {
            None
        }
}

/// The desktops shown on screens with an area.
pub fn exposed_spaces(screens: &[Screen]) -> (exposed: Vec<SpaceId>)
    ensures
        exposed@ == screens@.filter_map(exposed_on()),
{
    let mut exposed: Vec<SpaceId> = Vec::new();
    let mut i: usize = 0;
    while i < screens.len()
        invariant
            i <= screens@.len(),
            exposed@ == screens@.take(i as int).filter_map(exposed_on()),
        decreases screens@.len() - i,
    {
        proof {
            screens@.lemma_filter_map_take_succ(exposed_on(), i as int);
        }
        if screens[i].has_area {
            match screens[i].space {
                Some(space) => {
                    exposed.push(space);
                },
                None => {},
            }
        }
        assert(exposed@ =~= screens@.take(i + 1).filter_map(exposed_on()));
        i = i + 1;
    }
    assert(screens@.take(i as int) =~= screens@);
    exposed
}

/// Each of `made`, to be retired from `now` on.
pub open spec fn retired_at(made: Seq<SpaceId>, now: Nanos) -> Seq<(SpaceId, Nanos)> {
    made.map_values(|made: SpaceId| (made, now))
}

/// Finishes the pass in flight, if one is. After the return the record is done:
/// its layout is kept for later, and the desktops made at departure whose
/// windows went back are to be retired.
pub fn finish_pass(
    record: &mut Option<DisplayRecord>,
    retiring: &mut Vec<(SpaceId, Nanos)>,
    last_departure: &mut Option<DepartureSnapshot>,
    screens: &[Screen],
    now: Nanos,
) -> (finished: Option<FinishedPass>)
    requires
        *old(record) matches Some(record) ==> record.wf(),
    ensures
        *final(record) matches Some(record) ==> record.wf(),
        match *old(record) {
            Some(before) if before.pass is Some => {
                let pass = before.pass->0;
                &&& finished matches Some(finished) && {
                    &&& finished.stage == pass.stage
                    &&& finished.layout@ == before.layout@
                    &&& finished.restores == pass.restores
                    &&& finished.exposed@ == screens@.filter_map(exposed_on())
                }
                &&& if pass.stage == Stage::Back {
                    &&& *final(record) is None
                    &&& final(retiring)@ == old(retiring)@ + retired_at(pass.retire@, now)
                    &&& *final(last_departure) matches Some(kept) && kept.layout == before.layout
                        && kept.ids == pass.ids
                } else {
                    &&& *final(record) == Some(DisplayRecord { pass: None, ..before })
                    &&& *final(retiring) == *old(retiring)
                    &&& *final(last_departure) == *old(last_departure)
                }
            },
            _ => finished is None && *final(record) == *old(record) && *final(retiring)
                == *old(retiring) && *final(last_departure) == *old(last_departure),
        },
{
    let ghost begun = *record;
    let mut taken: Option<DisplayRecord> = None;
    std::mem::swap(&mut taken, record);
    let mut standing = match taken {
        Some(standing) => standing,
        None => {
            return None;
        },
    };
    let mut pass: Option<Pass> = None;
    std::mem::swap(&mut pass, &mut standing.pass);
    let pass = match pass {
        Some(pass) => pass,
        None => {
            *record = Some(standing);
            return None;
        },
    };
    let exposed = exposed_spaces(screens);
    let layout = standing.layout.clone();
    let finished = FinishedPass { stage: pass.stage, layout, restores: pass.restores, exposed };
    if pass.stage == Stage::Back {
        let ghost before = retiring@;
        let mut i: usize = 0;
        assert(before + retired_at(pass.retire@.take(0), now) =~= before);
        while i < pass.retire.len()
            invariant
                i <= pass.retire@.len(),
                retiring@ == before + retired_at(pass.retire@.take(i as int), now),
            decreases pass.retire@.len() - i,
        {
            retiring.push((pass.retire[i], now));
            proof {
                assert(retired_at(pass.retire@.take(i + 1), now) =~= retired_at(
                    pass.retire@.take(i as int),
                    now,
                ).push((pass.retire@[i as int], now)));
                assert(before + retired_at(pass.retire@.take(i + 1), now) =~= (before + retired_at(
                    pass.retire@.take(i as int),
                    now,
                )).push((pass.retire@[i as int], now)));
            }
            i = i + 1;
        }
        assert(pass.retire@.take(i as int) =~= pass.retire@);
        *last_departure = Some(DepartureSnapshot { layout: standing.layout, ids: pass.ids });
    } else {
        *record = Some(standing);
    }
    Some(finished)
}

/// What follows once the trees of a pass are back: the applications are asked
/// for their windows, the layout is arranged once, and it is told of each desktop
/// that is shown on a screen with an area. Without a pass nothing follows.
pub fn after_pass(finished: &Option<FinishedPass>) -> (restored: Restored)
    ensures
        match *finished {
            Some(finished) => put_back(restored, true, finished.exposed@),
            None => left_alone(restored),
        },
{
    match finished {
        Some(finished) => Restored::of(true, copy_list(finished.exposed.as_slice())),
        None => Restored::nothing(),
    }
}

/// What follows once the layout of `space` was put back, or could not be: the
/// layout is arranged once, and told of the desktop if the screen that shows it
/// has an area.
pub fn after_layout_restored(
    space: SpaceId,
    succeeded: bool,
    refresh: bool,
    screens: &[Screen],
) -> (restored: Restored)
    ensures
        if succeeded {
            put_back(
                restored,
                refresh,
                if shown_with_area(screens@, space) {
                    seq![space]
                } else {
                    seq![]
                },
            )
        } else {
            left_alone(restored)
        },
{
    if !succeeded {
        return Restored::nothing();
    }
    let mut exposed: Vec<SpaceId> = Vec::new();
    if is_shown_with_area(screens, space) {
        exposed.push(space);
    }
    Restored::of(refresh, exposed)
}

/// Being retried: still listed, shown, and not for too long.
pub open spec fn still_retiring(
    listed: Seq<SpaceId>,
    shown: Seq<SpaceId>,
    now: Nanos,
) -> spec_fn((SpaceId, Nanos)) -> bool {
    |made: (SpaceId, Nanos)|
        listed.contains(made.0) && shown.contains(made.0) && elapsed(now, made.1) <= RETIRE_GIVE_UP
}

/// Being destroyed: still listed, and not shown.
pub open spec fn to_destroy(listed: Seq<SpaceId>, shown: Seq<SpaceId>) -> spec_fn(
    (SpaceId, Nanos),
) -> Option<SpaceId> {
    |made: (SpaceId, Nanos)|
        if listed.contains(made.0) && !shown.contains(made.0) {
            Some(made.0)
        } else {
            None
        }
}

/// Picks the made desktops to destroy: those listed that no display shows. One
/// that is shown is kept for another try, until it has been long enough.
pub fn retire_made_desktops(
    retiring: &mut Vec<(SpaceId, Nanos)>,
    listed: &[SpaceId],
    shown: &[SpaceId],
    now: Nanos,
) -> (destroy: Vec<SpaceId>)
    ensures
        final(retiring)@ == old(retiring)@.filter(still_retiring(listed@, shown@, now)),
        destroy@ == old(retiring)@.filter_map(to_destroy(listed@, shown@)),
{
    let ghost all = retiring@;
    let ghost p = still_retiring(listed@, shown@, now);
    let ghost f = to_destroy(listed@, shown@);
    let mut kept: Vec<(SpaceId, Nanos)> = Vec::new();
    let mut destroy: Vec<SpaceId> = Vec::new();
    let mut i: usize = 0;
    while i < retiring.len()
        invariant
            all == retiring@,
            p == still_retiring(listed@, shown@, now),
            f == to_destroy(listed@, shown@),
            i <= all.len(),
            kept@ == all.take(i as int).filter(p),
            destroy@ == all.take(i as int).filter_map(f),
        decreases all.len() - i,
    {
        proof {
            assert(all.take(i + 1) =~= all.take(i as int).push(all[i as int]));
            all.take(i as int).lemma_filter_push(all[i as int], p);
            all.lemma_filter_map_take_succ(f, i as int);
        }
        let (made, since) = retiring[i];
        if holds(listed, made) {
            if holds(shown, made) {
                if elapsed(now, since) <= RETIRE_GIVE_UP {
                    kept.push((made, since));
                }
            } else {
                destroy.push(made);
            }
        }
        assert(destroy@ =~= all.take(i + 1).filter_map(f));
        i = i + 1;
    }
    assert(all.take(i as int) =~= all);
    *retiring = kept;
    destroy
}

/// A made desktop that a display shows is never destroyed.
pub proof fn a_shown_desktop_is_not_destroyed(
    retiring: Seq<(SpaceId, Nanos)>,
    listed: Seq<SpaceId>,
    shown: Seq<SpaceId>,
    i: int,
)
    requires
        0 <= i < retiring.filter_map(to_destroy(listed, shown)).len(),
    ensures
        !shown.contains(retiring.filter_map(to_destroy(listed, shown))[i]),
    decreases retiring.len(),
{
    if i < retiring.drop_last().filter_map(to_destroy(listed, shown)).len() {
        a_shown_desktop_is_not_destroyed(retiring.drop_last(), listed, shown, i);
    }
}

/// Why the layout of the last departure cannot be put back.
#[derive(Clone, Copy, Debug, PartialEq, Eq, Structural)]
pub enum NoDepartureLayout {
    NoActiveDesktop,
    /// There is none for this desktop.
    NoneFor(SpaceId),
}

/// The tree of the last departure that the active desktop had then.
pub fn departure_tree(
    last_departure: &Option<DepartureSnapshot>,
    active: Option<SpaceId>,
) -> (tree: Result<(SpaceId, SpaceId), NoDepartureLayout>)
    requires
        *last_departure matches Some(kept) ==> kept.ids.wf(),
    ensures
        tree == match active {
            None => Err(NoDepartureLayout::NoActiveDesktop),
            Some(space) => match *last_departure {
                Some(kept) => match kept.ids.at(space) {
                    Some(then) => Ok((then, space)),
                    None => Err(NoDepartureLayout::NoneFor(space)),
                },
                None => Err(NoDepartureLayout::NoneFor(space)),
            },
        },
{
    let space = match active {
        Some(space) => space,
        None => {
            return Err(NoDepartureLayout::NoActiveDesktop);
        },
    };
    match last_departure {
        Some(kept) => match kept.ids.get(&space) {
            Some(then) => Ok((*then, space)),
            None => Err(NoDepartureLayout::NoneFor(space)),
        },
        None => Err(NoDepartureLayout::NoneFor(space)),
    }
}

/// What follows once the active desktop's layout was put back to what it was at
/// the last departure: the applications are not asked for their windows.
pub fn after_departure_tree(
    tree: Result<(SpaceId, SpaceId), NoDepartureLayout>,
    succeeded: bool,
    screens: &[Screen],
) -> (restored: Restored)
    ensures
        match tree {
            Ok((_, space)) if succeeded => put_back(
                restored,
                false,
                if shown_with_area(screens@, space) {
                    seq![space]
                } else {
                    seq![]
                },
            ),
            _ => left_alone(restored),
        },
{
    match tree {
        Ok((_, space)) => after_layout_restored(space, succeeded, false, screens),
        Err(_) => Restored::nothing(),
    }
}

/// The arrival of a window that was sent is told once and changes nothing else.
pub proof fn a_window_that_was_sent_is_not_the_users_doing(
    before: DisplayRecord,
    wid: WindowId,
    space: SpaceId,
    screens: Seq<Screen>,
    now: Nanos,
    after: DisplayRecord,
    edited: bool,
    other: WindowId,
)
    requires
        placed_while_away(before, wid, space, screens, now, after, edited),
        before.own_moves@.contains(wid),
        other != wid,
    ensures
        !edited,
        !after.own_moves@.contains(wid),
        after.own_moves@.contains(other) == before.own_moves@.contains(other),
        after.placed == before.placed,
        after.windows == before.windows,
{
}

/// Where a window arrives while the window server may still be reshuffling, while a
/// pass is in flight, or with every display back, changes nothing.
pub proof fn an_arrival_in_a_reshuffle_changes_nothing(
    before: DisplayRecord,
    wid: WindowId,
    space: SpaceId,
    screens: Seq<Screen>,
    now: Nanos,
    after: DisplayRecord,
    edited: bool,
)
    requires
        placed_while_away(before, wid, space, screens, now, after, edited),
        !before.own_moves@.contains(wid),
        before.pass is Some || now - before.churn_seen < 10 * crate::clock::SECOND || (forall|i: int|
            0 <= i < before.displays@.len() ==> exists|k: int|
                #![trigger screens[k]]
                0 <= k < screens.len() && screens[k].display_uuid@ == (
                #[trigger] before.displays@[i]).uuid@),
    ensures
        !edited,
        after.placed == before.placed,
        after.windows == before.windows,
        after.own_moves@ == before.own_moves@,
{
    if forall|i: int|
        0 <= i < before.displays@.len() ==> exists|k: int|
            #![trigger screens[k]]
            0 <= k < screens.len() && screens[k].display_uuid@ == (
            #[trigger] before.displays@[i]).uuid@ {
        assert(all_back(before, screens)) by {
            assert forall|i: int| 0 <= i < before.displays@.len() implies crate::screens::on_screen(
                screens,
                (#[trigger] before.displays@[i]).uuid@,
            ) by {
                let k = choose|k: int|
                    #![trigger screens[k]]
                    0 <= k < screens.len() && screens[k].display_uuid@ == before.displays@[i].uuid@;
                assert(screens[k].display_uuid@ == before.displays@[i].uuid@);
            }
        }
    }
}

/// Where the user puts a window while a display is away is where it belongs from
/// then on; put back where it was at departure, it belongs there as before.
pub proof fn where_the_user_puts_a_window_it_belongs(
    before: DisplayRecord,
    wid: WindowId,
    space: SpaceId,
    screens: Seq<Screen>,
    now: Nanos,
    after: DisplayRecord,
    edited: bool,
    away: int,
    other: WindowId,
)
    requires
        before.wf(),
        after.wf(),
        placed_while_away(before, wid, space, screens, now, after, edited),
        !before.own_moves@.contains(wid),
        before.pass is None,
        now >= before.churn_seen + 10 * crate::clock::SECOND,
        0 <= away < before.displays@.len(),
        forall|k: int|
            0 <= k < screens.len() ==> (#[trigger] screens[k]).display_uuid@
                != before.displays@[away].uuid@,
        other != wid,
    ensures
        after.wants(wid) == Some(space),
        edited <==> before.wants(wid) != Some(space) && before.windows.at(wid) != Some(space),
        edited ==> after.placed.at(wid) == Some((space, now)),
        before.windows.at(wid) == Some(space) ==> after.placed.at(wid) is None,
        after.placed.at(other) == before.placed.at(other),
        after.windows == before.windows,
{
    assert(!crate::screens::on_screen(screens, before.displays@[away].uuid@));
    assert(!all_back(before, screens)) by {
        if all_back(before, screens) {
            assert(crate::screens::on_screen(screens, before.displays@[away].uuid@));
        }
    }
}

/// A window has landed once it is assigned where it was sent; one that is known no
/// longer is not waited for.
pub proof fn when_a_window_has_landed(
    places: Table<WindowId, WindowPlace>,
    wid: WindowId,
    target: SpaceId,
)
    ensures
        places.at(wid) is None ==> landed(places, wid, target),
        places.at(wid) is Some && (places.at(wid)->0).assigned == Some(target) ==> landed(
            places,
            wid,
            target,
        ),
        places.at(wid) is Some && (places.at(wid)->0).assigned != Some(target) ==> !landed(
            places,
            wid,
            target,
        ),
        on_the_way(places)(wid, target) != landed(places, wid, target),
{
}

/// One more screen adds its desktop to those that are exposed, if it shows one and
/// has an area.
pub proof fn what_is_exposed(screens: Seq<Screen>, screen: Screen)
    ensures
        Seq::<Screen>::empty().filter_map(exposed_on()) == Seq::<SpaceId>::empty(),
        screen.has_area && screen.space is Some ==> screens.push(screen).filter_map(exposed_on())
            == screens.filter_map(exposed_on()).push(screen.space->0),
        !screen.has_area || screen.space is None ==> screens.push(screen).filter_map(exposed_on())
            == screens.filter_map(exposed_on()),
{
    crate::lists::lemma_filter_map_push(screens, screen, exposed_on());
}

/// A made desktop is destroyed once it is listed and shown nowhere; while it is
/// shown it is tried again, for so long; one that is listed no longer is left.
pub proof fn what_becomes_of_a_made_desktop(
    retiring: Seq<(SpaceId, Nanos)>,
    listed: Seq<SpaceId>,
    shown: Seq<SpaceId>,
    now: Nanos,
    made: SpaceId,
    since: Nanos,
)
    ensures
        retiring.filter_map(to_destroy(listed, shown)).contains(made) <==> listed.contains(made)
            && !shown.contains(made) && exists|i: int|
            0 <= i < retiring.len() && (#[trigger] retiring[i]).0 == made,
        retiring.filter(still_retiring(listed, shown, now)).contains((made, since))
            <==> retiring.contains((made, since)) && listed.contains(made) && shown.contains(made)
            && now - since <= 30 * crate::clock::SECOND,
{
    let f = to_destroy(listed, shown);
    crate::lists::lemma_filter_map_holds(retiring, f, made);
    crate::lists::lemma_filter_holds(retiring, still_retiring(listed, shown, now), (made, since));
    if retiring.filter_map(f).contains(made) {
        let i = choose|i: int| 0 <= i < retiring.len() && f(#[trigger] retiring[i]) == Some(made);
        assert(retiring[i].0 == made);
    }
    if listed.contains(made) && !shown.contains(made) && exists|i: int|
        0 <= i < retiring.len() && (#[trigger] retiring[i]).0 == made {
        let i = choose|i: int| 0 <= i < retiring.len() && (#[trigger] retiring[i]).0 == made;
        assert(f(retiring[i]) == Some(made));
    }
}

/// Every desktop that is to be retired is, from the same moment on, in order.
pub proof fn what_is_retired_from_now_on(made: Seq<SpaceId>, now: Nanos, i: int)
    requires
        0 <= i < made.len(),
    ensures
        retired_at(made, now).len() == made.len(),
        retired_at(made, now)[i] == (made[i], now),
{
}

/// One of the windows waited for has landed if it has, and none if each has not.
pub proof fn when_any_has_landed(pass: Pass, places: Table<WindowId, WindowPlace>, wid: WindowId)
    ensures
        pass.waiting.at(wid) is Some && landed(places, wid, pass.waiting.at(wid)->0) ==> any_landed(
            pass,
            places,
        ),
        (forall|other: WindowId|
            (#[trigger] pass.waiting.at(other)) is Some ==> !landed(
                places,
                other,
                pass.waiting.at(other)->0,
            )) ==> !any_landed(pass, places),
{
}

/// Where a window is put changes nothing of the record but where windows were put and which
/// of them were moved.
pub proof fn what_putting_a_window_leaves(
    before: DisplayRecord,
    wid: WindowId,
    space: SpaceId,
    screens: Seq<Screen>,
    now: Nanos,
    after: DisplayRecord,
    edited: bool,
    other: WindowId,
)
    requires
        placed_while_away(before, wid, space, screens, now, after, edited),
    ensures
        after.windows == before.windows && after.displays == before.displays && after.stopgaps
            == before.stopgaps && after.settled == before.settled && after.pass == before.pass
            && after.churn_seen == before.churn_seen && after.seen == before.seen && after.survivor
            == before.survivor && after.layout == before.layout,
        !before.own_moves@.contains(wid) ==> after.own_moves@ == before.own_moves@,
        other != wid ==> after.own_moves@.contains(other) == before.own_moves@.contains(other),
{
}

} // verus!
