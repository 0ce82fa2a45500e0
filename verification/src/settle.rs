//! Settling the display that stayed, right after a departure.
//!
//! The windows of the desktop that was destroyed get a desktop made for them,
//! with their tree; the survivor's own desktops are put ahead of the visitors;
//! and the survivor is switched back to the desktop it was showing. The steps
//! that ask something of the window server lie between the functions here: the
//! plan is made first, and what was carried out is entered last.

use vstd::prelude::*;

use crate::clock::{elapsed, Nanos};
use crate::display_record::{
    lemma_stands_in, stand_ins_once, stands_in, DisplayRecord, Pass, RecordedDisplay, Stage,
    CHURN_SETTLE,
};
use crate::ids::{SpaceId, WindowId, WindowServerId};
use crate::lists::{
    among, append_list, copy_list, holds, keep_listed, lemma_filter_at, lemma_filter_from,
    lemma_filter_holds, lemma_filter_map_holds,
};
use crate::screens::{
    all_listed, all_of, desktops_on, is_on_screen, listed_under, on_screen, shown_by, shown_on,
    Listing, Screen,
};
use crate::table::Table;
use crate::walk::DesktopWalk;

verus! {

/// Where a known window is.
#[derive(Clone, Copy, Debug, PartialEq, Eq, Structural)]
pub struct WindowPlace {
    pub sys_id: Option<WindowServerId>,
    /// The desktop the window server has it on.
    pub live: Option<SpaceId>,
    /// The desktop it is assigned to in the layout.
    pub assigned: Option<SpaceId>,
}

impl WindowPlace {
    /// The window server's word, else the layout's.
    pub open spec fn spec_actual(&self) -> Option<SpaceId> {
        match self.live {
            Some(space) => Some(space),
            None => self.assigned,
        }
    }

    /// The window server's word, else the layout's.
    #[verifier::when_used_as_spec(spec_actual)]
    pub fn actual(&self) -> (space: Option<SpaceId>)
        ensures
            space == self.spec_actual(),
    {
        match self.live {
            Some(space) => Some(space),
            None => self.assigned,
        }
    }
}

/// A window to be sent to a made desktop.
#[derive(Clone, Copy, Debug, PartialEq, Eq, Structural)]
pub struct Errand {
    pub window: WindowId,
    pub sys_id: WindowServerId,
    /// The desktop the record has the window on.
    pub from: SpaceId,
    /// The desktop made for it.
    pub to: SpaceId,
}

/// What is to be done for the survivor.
#[derive(Debug)]
pub struct SettlePlan {
    /// The display that is settled, and what it was showing.
    pub survivor: String,
    pub shown: Option<SpaceId>,
    /// Every desktop listed when the plan was made, and those on the survivor.
    pub listed: Vec<SpaceId>,
    pub on_survivor: Vec<SpaceId>,
    /// The survivor's own desktops that are listed nowhere, by the id each had
    /// last and the id it was recorded under.
    pub destroyed: Vec<(SpaceId, SpaceId)>,
    /// The survivor's own desktops that it still lists, by the id each has now.
    pub kept: Vec<SpaceId>,
    /// The other displays' desktops that the survivor lists.
    pub visitors: Vec<SpaceId>,
    /// Windows an earlier settle sent to a made desktop that are not there.
    pub astray: Vec<Errand>,
    /// Whether a desktop was lost or made, so that the order and what is shown
    /// are put right too.
    pub reshuffled: bool,
}

/// The desktop that stands for the recorded desktop `then`.
pub open spec fn represented(stopgaps: Seq<(SpaceId, SpaceId)>, then: SpaceId) -> SpaceId {
    match stands_in(stopgaps, then) {
        Some(made) => made,
        None => then,
    }
}

/// A survivor's own desktops: the id each has now, and the recorded one.
pub open spec fn own_desktops(
    stopgaps: Seq<(SpaceId, SpaceId)>,
    recorded: Seq<SpaceId>,
) -> Seq<(SpaceId, SpaceId)> {
    Seq::new(recorded.len(), |i: int| (represented(stopgaps, recorded[i]), recorded[i]))
}

/// Being listed nowhere.
pub open spec fn lost_from(listed: Seq<SpaceId>) -> spec_fn((SpaceId, SpaceId)) -> bool {
    |own: (SpaceId, SpaceId)| !listed.contains(own.0)
}

/// Being listed, by the id of now.
pub open spec fn kept_on(listed: Seq<SpaceId>) -> spec_fn((SpaceId, SpaceId)) -> Option<SpaceId> {
    |own: (SpaceId, SpaceId)|
        if listed.contains(own.0) {
            Some(own.0)
        } else {
            None
        }
}

/// The recorded desktops of the displays other than `survivor`.
pub open spec fn others_desktops(displays: Seq<RecordedDisplay>, survivor: Seq<char>) -> Seq<SpaceId>
    decreases displays.len(),
{
    if displays.len() == 0 {
        seq![]
    } else {
        let front = others_desktops(displays.drop_last(), survivor);
        if displays.last().uuid@ != survivor {
            front + displays.last().desktops@
        } else {
            front
        }
    }
}

/// The display at `i` is the survivor that was recorded, and on screen.
pub open spec fn recorded_survivor(record: DisplayRecord, screens: Seq<Screen>, i: int) -> bool {
    &&& 0 <= i < record.displays@.len()
    &&& record.displays@[i].uuid@ == record.survivor@
    &&& on_screen(screens, record.displays@[i].uuid@)
}

/// The display at `at` is the one to settle: the survivor that was recorded if
/// it is on screen, else the first recorded display that is.
pub open spec fn is_survivor(record: DisplayRecord, screens: Seq<Screen>, at: int) -> bool {
    let displays = record.displays@;
    &&& 0 <= at < displays.len()
    &&& if exists|i: int| recorded_survivor(record, screens, i) {
        recorded_survivor(record, screens, at) && forall|i: int|
            0 <= i < at ==> !recorded_survivor(record, screens, i)
    } else {
        on_screen(screens, displays[at].uuid@) && forall|i: int|
            0 <= i < at ==> !on_screen(screens, (#[trigger] displays[i]).uuid@)
    }
}

/// No recorded display is on screen.
pub open spec fn none_on_screen(record: DisplayRecord, screens: Seq<Screen>) -> bool {
    forall|i: int|
        0 <= i < record.displays@.len() ==> !on_screen(
            screens,
            (#[trigger] record.displays@[i]).uuid@,
        )
}

/// `errand` takes a window that an earlier settle sent to a made desktop, and
/// that is not there, to that desktop.
pub open spec fn is_astray(
    record: DisplayRecord,
    listed: Seq<SpaceId>,
    places: Table<WindowId, WindowPlace>,
    errand: Errand,
) -> bool {
    &&& record.stopgaps@.contains((errand.to, errand.from))
    &&& listed.contains(errand.to)
    &&& record.wants(errand.window) == Some(errand.from)
    &&& places.at(errand.window) matches Some(place) && place.sys_id == Some(errand.sys_id)
        && place.actual() != Some(errand.to)
}

/// Having been seen there long enough ago to be the user's doing.
pub open spec fn placed_before(now: Nanos) -> spec_fn(WindowId, (SpaceId, Nanos)) -> bool {
    |wid: WindowId, place: (SpaceId, Nanos)| elapsed(now, place.1) >= CHURN_SETTLE
}

/// `plan` settles the display at `at` of `record`.
pub open spec fn is_plan_for(
    plan: SettlePlan,
    record: DisplayRecord,
    at: int,
    listing: Listing,
    places: Table<WindowId, WindowPlace>,
) -> bool {
    let display = record.displays@[at];
    let listed = all_of(listing);
    let on_survivor = listed_under(listing, display.uuid@);
    let own = own_desktops(record.stopgaps@, display.desktops@);
    &&& plan.survivor@ == display.uuid@
    &&& plan.shown == display.shown
    &&& plan.listed@ == listed
    &&& plan.on_survivor@ == on_survivor
    &&& plan.destroyed@ == own.filter(lost_from(listed))
    &&& plan.kept@ == own.filter_map(kept_on(on_survivor))
    &&& plan.visitors@ == others_desktops(record.displays@, display.uuid@).filter(
        among(on_survivor),
    )
    &&& plan.astray@.no_duplicates()
    &&& forall|errand: Errand| #[trigger]
        plan.astray@.contains(errand) <==> is_astray(record, listed, places, errand)
    &&& plan.reshuffled == (!record.settled || plan.destroyed@.len() > 0)
}

/// There is nothing to settle: it was done, and since then no desktop was lost
/// and no window went astray.
pub open spec fn nothing_to_settle(
    record: DisplayRecord,
    at: int,
    listing: Listing,
    places: Table<WindowId, WindowPlace>,
) -> bool {
    let listed = all_of(listing);
    &&& record.settled
    &&& own_desktops(record.stopgaps@, record.displays@[at].desktops@).filter(
        lost_from(listed),
    ).len() == 0
    &&& forall|errand: Errand| !#[trigger] is_astray(record, listed, places, errand)
}

fn find_settled(record: &DisplayRecord, screens: &[Screen]) -> (survivor: Option<usize>)
    ensures
        match survivor {
            Some(at) => is_survivor(*record, screens@, at as int),
            None => none_on_screen(*record, screens@),
        },
{
    let mut i: usize = 0;
    while i < record.displays.len()
        invariant
            i <= record.displays@.len(),
            forall|j: int| 0 <= j < i ==> !recorded_survivor(*record, screens@, j),
        decreases record.displays@.len() - i,
    {
        if record.displays[i].uuid == record.survivor && is_on_screen(
            screens,
            &record.displays[i].uuid,
        ) {
            assert(recorded_survivor(*record, screens@, i as int));
            return Some(i);
        }
        i = i + 1;
    }
    let mut i: usize = 0;
    while i < record.displays.len()
        invariant
            i <= record.displays@.len(),
            forall|j: int|
                0 <= j < i ==> !on_screen(screens@, (#[trigger] record.displays@[j]).uuid@),
            forall|j: int| !recorded_survivor(*record, screens@, j),
        decreases record.displays@.len() - i,
    {
        if is_on_screen(screens, &record.displays[i].uuid) {
            return Some(i);
        }
        i = i + 1;
    }
    None
}

fn find_own(record: &DisplayRecord, desktops: &Vec<SpaceId>) -> (own: Vec<(SpaceId, SpaceId)>)
    ensures
        own@ == own_desktops(record.stopgaps@, desktops@),
{
    let mut own: Vec<(SpaceId, SpaceId)> = Vec::new();
    let mut i: usize = 0;
    while i < desktops.len()
        invariant
            i <= desktops@.len(),
            own@ == own_desktops(record.stopgaps@, desktops@).take(i as int),
        decreases desktops@.len() - i,
    {
        let then = desktops[i];
        let here = match record.stopgap_for(then) {
            Some(made) => made,
            None => then,
        };
        own.push((here, then));
        assert(own@ =~= own_desktops(record.stopgaps@, desktops@).take(i + 1));
        i = i + 1;
    }
    assert(own_desktops(record.stopgaps@, desktops@).take(i as int) =~= own_desktops(
        record.stopgaps@,
        desktops@,
    ));
    own
}

fn find_destroyed(own: &Vec<(SpaceId, SpaceId)>, listed: &Vec<SpaceId>) -> (destroyed: Vec<
    (SpaceId, SpaceId),
>)
    ensures
        destroyed@ == own@.filter(lost_from(listed@)),
{
    let mut destroyed: Vec<(SpaceId, SpaceId)> = Vec::new();
    let mut i: usize = 0;
    while i < own.len()
        invariant
            i <= own@.len(),
            destroyed@ == own@.take(i as int).filter(lost_from(listed@)),
        decreases own@.len() - i,
    {
        proof {
            assert(own@.take(i + 1) =~= own@.take(i as int).push(own@[i as int]));
            own@.take(i as int).lemma_filter_push(own@[i as int], lost_from(listed@));
        }
        if !holds(listed.as_slice(), own[i].0) {
            destroyed.push(own[i]);
        }
        i = i + 1;
    }
    assert(own@.take(i as int) =~= own@);
    destroyed
}

fn find_kept(own: &Vec<(SpaceId, SpaceId)>, listed: &Vec<SpaceId>) -> (kept: Vec<SpaceId>)
    ensures
        kept@ == own@.filter_map(kept_on(listed@)),
{
    let mut kept: Vec<SpaceId> = Vec::new();
    let mut i: usize = 0;
    while i < own.len()
        invariant
            i <= own@.len(),
            kept@ == own@.take(i as int).filter_map(kept_on(listed@)),
        decreases own@.len() - i,
    {
        proof {
            own@.lemma_filter_map_take_succ(kept_on(listed@), i as int);
        }
        if holds(listed.as_slice(), own[i].0) {
            kept.push(own[i].0);
        }
        assert(kept@ =~= own@.take(i + 1).filter_map(kept_on(listed@)));
        i = i + 1;
    }
    assert(own@.take(i as int) =~= own@);
    kept
}

fn find_others(displays: &Vec<RecordedDisplay>, survivor: &String) -> (spaces: Vec<SpaceId>)
    ensures
        spaces@ == others_desktops(displays@, survivor@),
{
    let mut spaces: Vec<SpaceId> = Vec::new();
    let mut i: usize = 0;
    while i < displays.len()
        invariant
            i <= displays@.len(),
            spaces@ == others_desktops(displays@.take(i as int), survivor@),
        decreases displays@.len() - i,
    {
        proof {
            assert(displays@.take(i + 1).drop_last() =~= displays@.take(i as int));
            assert(displays@.take(i + 1).last() == displays@[i as int]);
        }
        if displays[i].uuid != *survivor {
            append_list(&mut spaces, displays[i].desktops.as_slice());
        }
        i = i + 1;
    }
    assert(displays@.take(i as int) =~= displays@);
    spaces
}

/// The windows an earlier settle sent to a made desktop that are not there.
fn find_astray(
    record: &DisplayRecord,
    listed: &Vec<SpaceId>,
    places: &Table<WindowId, WindowPlace>,
) -> (astray: Vec<Errand>)
    requires
        record.wf(),
        places.wf(),
    ensures
        astray@.no_duplicates(),
        forall|errand: Errand| #[trigger]
            astray@.contains(errand) <==> is_astray(*record, listed@, *places, errand),
{
    let mut astray: Vec<Errand> = Vec::new();
    let mut i: usize = 0;
    while i < record.stopgaps.len()
        invariant
            record.wf(),
            places.wf(),
            i <= record.stopgaps@.len(),
            astray@.no_duplicates(),
            forall|x: int|
                0 <= x < astray@.len() ==> is_astray(
                    *record,
                    listed@,
                    *places,
                    #[trigger] astray@[x],
                ) && record.stopgaps@.take(i as int).contains((astray@[x].to, astray@[x].from)),
            forall|errand: Errand|
                #![trigger astray@.contains(errand)]
                is_astray(*record, listed@, *places, errand) && record.stopgaps@.take(
                    i as int,
                ).contains((errand.to, errand.from)) ==> astray@.contains(errand),
        decreases record.stopgaps@.len() - i,
    {
        let (made, lost) = record.stopgaps[i];
        let ghost before = astray@;
        assert(record.stopgaps@.contains((made, lost)));
        if holds(listed.as_slice(), made) {
            let wids = record.windows_desired_on(lost);
            let mut j: usize = 0;
            while j < wids.len()
                invariant
                    record.wf(),
                    places.wf(),
                    i < record.stopgaps@.len(),
                    record.stopgaps@[i as int] == (made, lost),
                    record.stopgaps@.contains((made, lost)),
                    listed@.contains(made),
                    j <= wids@.len(),
                    crate::display_record::in_window_order(wids@),
                    forall|wid: WindowId| #[trigger]
                        wids@.contains(wid) <==> record.wants(wid) == Some(lost),
                    astray@.no_duplicates(),
                    astray@.len() >= before.len(),
                    astray@.take(before.len() as int) == before,
                    forall|x: int|
                        before.len() <= x < astray@.len() ==> is_astray(
                            *record,
                            listed@,
                            *places,
                            #[trigger] astray@[x],
                        ) && astray@[x].to == made && astray@[x].from == lost && wids@.take(
                            j as int,
                        ).contains(astray@[x].window),
                    forall|x: int|
                        0 <= x < before.len() ==> (#[trigger] before[x]).from != lost,
                    forall|errand: Errand|
                        #![trigger astray@.contains(errand)]
                        is_astray(*record, listed@, *places, errand) && errand.to == made
                            && errand.from == lost && wids@.take(j as int).contains(errand.window)
                            ==> astray@.contains(errand),
                decreases wids@.len() - j,
            {
                let wid = wids[j];
                assert(wids@.contains(wid));
                let ghost inner = astray@;
                match places.get(&wid) {
                    Some(place) => match place.sys_id {
                        Some(sys_id) => {
                            let away = match place.actual() {
                                Some(space) => space != made,
                                None => true,
                            };
                            if away {
                                let errand = Errand { window: wid, sys_id, from: lost, to: made };
                                assert(is_astray(*record, listed@, *places, errand));
                                proof {
                                    if astray@.contains(errand) {
                                        let x = choose|x: int|
                                            0 <= x < astray@.len() && astray@[x] == errand;
                                        if x < before.len() {
                                            assert(astray@.take(before.len() as int)[x] == before[x]);
                                        } else {
                                            let y = choose|y: int|
                                                0 <= y < j && wids@.take(j as int)[y]
                                                    == astray@[x].window;
                                            assert(crate::display_record::window_before(
                                                wids@[y],
                                                wids@[j as int],
                                            ));
                                        }
                                    }
                                }
                                astray.push(errand);
                            }
                        },
                        None => {},
                    },
                    None => {},
                }
                proof {
                    let next = wids@.take(j + 1);
                    assert(next =~= wids@.take(j as int).push(wid));
                    assert(next[j as int] == wid);
                    assert(astray@.take(before.len() as int) =~= before);
                    assert forall|x: int| before.len() <= x < astray@.len() implies is_astray(
                        *record,
                        listed@,
                        *places,
                        #[trigger] astray@[x],
                    ) && astray@[x].to == made && astray@[x].from == lost && next.contains(
                        astray@[x].window,
                    ) by {
                        if x < inner.len() {
                            assert(astray@[x] == inner[x]);
                            let y = choose|y: int|
                                0 <= y < j && wids@.take(j as int)[y] == inner[x].window;
                            assert(next[y] == inner[x].window);
                        }
                    }
                    assert forall|errand: Errand|
                        #![trigger astray@.contains(errand)]
                        is_astray(*record, listed@, *places, errand) && errand.to == made
                            && errand.from == lost && next.contains(
                            errand.window,
                        ) implies astray@.contains(errand) by {
                        let y = choose|y: int| 0 <= y < j + 1 && next[y] == errand.window;
                        if y < j {
                            assert(wids@.take(j as int)[y] == errand.window);
                            assert(inner.contains(errand));
                            let x = choose|x: int| 0 <= x < inner.len() && inner[x] == errand;
                            assert(astray@[x] == errand);
                        } else {
                            assert(astray@[astray@.len() - 1] == errand);
                        }
                    }
                }
                j = j + 1;
            }
            assert(wids@.take(j as int) =~= wids@);
        }
        proof {
            let next = record.stopgaps@.take(i + 1);
            assert(next =~= record.stopgaps@.take(i as int).push((made, lost)));
            assert(next[i as int] == (made, lost));
            assert forall|x: int| 0 <= x < astray@.len() implies is_astray(
                *record,
                listed@,
                *places,
                #[trigger] astray@[x],
            ) && next.contains((astray@[x].to, astray@[x].from)) by {
                if x < before.len() {
                    assert(astray@.take(before.len() as int)[x] == before[x]);
                    assert(is_astray(*record, listed@, *places, before[x]));
                    let y = choose|y: int|
                        0 <= y < i && record.stopgaps@.take(i as int)[y] == (
                            before[x].to,
                            before[x].from,
                        );
                    assert(next[y] == (astray@[x].to, astray@[x].from));
                }
            }
            assert forall|errand: Errand|
                #![trigger astray@.contains(errand)]
                is_astray(*record, listed@, *places, errand) && next.contains(
                    (errand.to, errand.from),
                ) implies astray@.contains(errand) by {
                let y = choose|y: int| 0 <= y < i + 1 && next[y] == (errand.to, errand.from);
                if y < i {
                    assert(record.stopgaps@.take(i as int)[y] == (errand.to, errand.from));
                    assert(before.contains(errand));
                    let x = choose|x: int| 0 <= x < before.len() && before[x] == errand;
                    assert(astray@.take(before.len() as int)[x] == errand);
                    assert(astray@[x] == errand);
                }
            }
        }
        i = i + 1;
    }
    proof {
        assert(record.stopgaps@.take(i as int) =~= record.stopgaps@);
        assert forall|errand: Errand| #[trigger]
            astray@.contains(errand) <==> is_astray(*record, listed@, *places, errand) by {
            if astray@.contains(errand) {
                let x = choose|x: int| 0 <= x < astray@.len() && astray@[x] == errand;
                assert(is_astray(*record, listed@, *places, astray@[x]));
            }
        }
    }
    astray
}

/// Makes the plan for settling the survivor. There is none while a pass is in
/// flight, when no recorded display is on screen, or when there is nothing to
/// do. A placement young enough to be the window server's doing is dropped.
pub fn begin_settle(
    record: &mut DisplayRecord,
    screens: &[Screen],
    listing: &Listing,
    places: &Table<WindowId, WindowPlace>,
    now: Nanos,
) -> (plan: Option<SettlePlan>)
    requires
        old(record).wf(),
        listing.wf(),
        places.wf(),
    ensures
        final(record).wf(),
        final(record).settled == old(record).settled,
        old(record).pass is Some ==> plan is None && *final(record) == *old(record),
        old(record).pass is None ==> {
            let pruned = DisplayRecord { placed: final(record).placed, ..*old(record) };
            &&& forall|wid: WindowId| #[trigger]
                final(record).placed.at(wid) == crate::table::kept_at(
                    old(record).placed.at(wid),
                    wid,
                    placed_before(now),
                )
            &&& none_on_screen(pruned, screens@) ==> plan is None && *final(record) == pruned
            &&& forall|at: int| #[trigger]
                is_survivor(pruned, screens@, at) ==> if nothing_to_settle(
                    pruned,
                    at,
                    *listing,
                    *places,
                ) {
                    plan is None && final(record).seen@ == old(record).seen@.union(
                        all_of(*listing).to_set(),
                    ) && *final(record) == (DisplayRecord { seen: final(record).seen, ..pruned })
                } else {
                    plan matches Some(plan) && is_plan_for(plan, pruned, at, *listing, *places)
                        && *final(record) == pruned
                }
        },
{
    if record.pass.is_some() {
        return None;
    }
    let keep = |wid: &WindowId, place: &(SpaceId, Nanos)| -> (keep: bool)
        ensures
            keep == (elapsed(now, place.1) >= CHURN_SETTLE),
    {
        let age = elapsed(now, place.1);
        age >= CHURN_SETTLE
    };
    let _ = record.placed.retain(keep, Ghost(placed_before(now)));
    let ghost pruned = *record;
    let at = match find_settled(record, screens) {
        Some(at) => at,
        None => {
            proof {
                assert forall|at: int| !#[trigger] is_survivor(pruned, screens@, at) by {
                    if is_survivor(pruned, screens@, at) {
                        assert(on_screen(screens@, pruned.displays@[at].uuid@));
                    }
                }
            }
            return None;
        },
    };
    proof {
        assert(!none_on_screen(pruned, screens@)) by {
            assert(on_screen(screens@, pruned.displays@[at as int].uuid@));
        }
        assert forall|other: int| #[trigger] is_survivor(pruned, screens@, other) implies other
            == at by {
            if other < at {
                assert(is_survivor(pruned, screens@, at as int));
                if recorded_survivor(pruned, screens@, other) {
                } else {
                    assert(!on_screen(screens@, pruned.displays@[other].uuid@));
                }
            } else if at < other {
                if recorded_survivor(pruned, screens@, at as int) {
                } else {
                    assert(!on_screen(screens@, pruned.displays@[at as int].uuid@));
                }
            }
        }
    }
    let listed = all_listed(listing);
    let survivor = record.displays[at].uuid.clone();
    let on_survivor = desktops_on(listing, &survivor);
    let own = find_own(record, &record.displays[at].desktops);
    let destroyed = find_destroyed(&own, &listed);
    let kept = find_kept(&own, &on_survivor);
    let others = find_others(&record.displays, &survivor);
    let visitors = keep_listed(others.as_slice(), on_survivor.as_slice());
    let astray = find_astray(record, &listed, places);
    proof {
        assert((astray@.len() == 0) == forall|errand: Errand|
            !#[trigger] is_astray(pruned, listed@, *places, errand)) by {
            if astray@.len() > 0 {
                assert(astray@.contains(astray@[0]));
                assert(is_astray(pruned, listed@, *places, astray@[0]));
            } else {
                assert forall|errand: Errand| !#[trigger] is_astray(
                    pruned,
                    listed@,
                    *places,
                    errand,
                ) by {
                    assert(!astray@.contains(errand));
                }
            }
        }
    }
    if record.settled && destroyed.len() == 0 && astray.len() == 0 {
        record.seen.extend(listed.as_slice());
        return None;
    }
    let reshuffled = !record.settled || destroyed.len() > 0;
    Some(
        SettlePlan {
            survivor,
            shown: record.displays[at].shown,
            listed,
            on_survivor,
            destroyed,
            kept,
            visitors,
            astray,
            reshuffled,
        },
    )
}

impl SettlePlan {
    /// The first destroyed desktop: the id it had last, and the recorded one.
    pub open spec fn spec_lost(&self) -> Option<(SpaceId, SpaceId)> {
        if self.destroyed@.len() > 0 {
            Some(self.destroyed@[0])
        } else {
            None
        }
    }

    /// The desktop behind which one is to be made for the windows of the first
    /// destroyed one: the last visitor, else the survivor's last. None is made
    /// without the means to, or when none was destroyed.
    pub fn create_after(&self, addition: bool) -> (anchor: Option<SpaceId>)
        ensures
            anchor == if !addition || self.destroyed@.len() == 0 {
                None
            } else if self.visitors@.len() > 0 {
                Some(self.visitors@.last())
            } else if self.on_survivor@.len() > 0 {
                Some(self.on_survivor@.last())
            } else {
                None
            },
    {
        if !addition || self.destroyed.len() == 0 {
            None
        } else if self.visitors.len() > 0 {
            Some(self.visitors[self.visitors.len() - 1])
        } else if self.on_survivor.len() > 0 {
            Some(self.on_survivor[self.on_survivor.len() - 1])
        } else {
            None
        }
    }

    /// What the survivor lists, once `made` was made on it.
    pub open spec fn order_with(&self, made: Option<SpaceId>) -> Seq<SpaceId> {
        match made {
            Some(made) => self.on_survivor@.push(made),
            None => self.on_survivor@,
        }
    }

    /// The survivor's own desktops: the made one, then the kept ones.
    pub open spec fn own_with(&self, made: Option<SpaceId>) -> Seq<SpaceId> {
        match made {
            Some(made) => seq![made] + self.kept@,
            None => self.kept@,
        }
    }

    /// The walk that puts the survivor's own desktops ahead of the visitors, if
    /// one is called for: a desktop was lost or made, the means are there, and
    /// the survivor has desktops of its own.
    pub fn walk(&self, made: Option<SpaceId>, addition: bool) -> (walk: Option<DesktopWalk>)
        ensures
            walk is Some <==> addition && self.reshuffled && self.own_with(made).len() > 0,
            walk matches Some(walk) ==> walk.wf() && walk.next == 0 && walk.chain@.len() == 0
                && walk.order@ == self.order_with(made) && walk.desired@ == self.own_with(made)
                + self.visitors@,
    {
        let mut desired: Vec<SpaceId> = Vec::new();
        match made {
            Some(made) => {
                desired.push(made);
            },
            None => {},
        }
        append_list(&mut desired, self.kept.as_slice());
        assert(desired@ =~= self.own_with(made));
        if !addition || !self.reshuffled || desired.len() == 0 {
            return None;
        }
        append_list(&mut desired, self.visitors.as_slice());
        let mut order = copy_list(self.on_survivor.as_slice());
        match made {
            Some(made) => {
                order.push(made);
            },
            None => {},
        }
        Some(DesktopWalk::new(order, desired))
    }

    /// The desktop to switch the survivor back to: the one it was showing, by
    /// what stands in for it, if a desktop was lost or made, the survivor lists
    /// it, and does not show it.
    pub open spec fn focus_of(
        &self,
        stopgaps: Seq<(SpaceId, SpaceId)>,
        made: Option<SpaceId>,
        screens: Seq<Screen>,
        addition: bool,
    ) -> Option<SpaceId> {
        match self.shown {
            Some(shown) => {
                let back = match (made, self.spec_lost()) {
                    (Some(made), Some((_, lost))) if shown == lost => made,
                    _ => represented(stopgaps, shown),
                };
                if addition && self.reshuffled && self.order_with(made).contains(back) && shown_by(
                    screens,
                    self.survivor@,
                ) != Some(back) {
                    Some(back)
                } else {
                    None
                }
            },
            None => None,
        }
    }

    /// The desktop to switch the survivor back to, if it is to be switched.
    pub fn focus(
        &self,
        record: &DisplayRecord,
        made: Option<SpaceId>,
        screens: &[Screen],
        addition: bool,
    ) -> (space: Option<SpaceId>)
        ensures
            space == self.focus_of(record.stopgaps@, made, screens@, addition),
    {
        let shown = match self.shown {
            Some(shown) => shown,
            None => {
                return None;
            },
        };
        let mut back = match record.stopgap_for(shown) {
            Some(made) => made,
            None => shown,
        };
        let mut listed = holds(self.on_survivor.as_slice(), back);
        match made {
            Some(made) => {
                if self.destroyed.len() > 0 && self.destroyed[0].1 == shown {
                    back = made;
                    listed = holds(self.on_survivor.as_slice(), back);
                }
                proof {
                    crate::screens::lemma_concat_contains(self.on_survivor@, seq![made], back);
                    assert(self.on_survivor@ + seq![made] =~= self.on_survivor@.push(made));
                    if seq![made].contains(back) {
                        assert(back == made);
                    }
                    if back == made {
                        assert(seq![made][0] == back);
                    }
                }
                listed = listed || back == made;
            },
            None => {},
        }
        let showing = match shown_on(screens, &self.survivor) {
            Some(space) => space == back,
            None => false,
        };
        if addition && self.reshuffled && listed && !showing {
            Some(back)
        } else {
            None
        }
    }
}

/// `errand` takes a window of the destroyed desktop `lost` to the one made for
/// it: the record has it there, by the departure and not undone by the user.
pub open spec fn is_merged(
    record: DisplayRecord,
    places: Table<WindowId, WindowPlace>,
    lost: SpaceId,
    made: SpaceId,
    errand: Errand,
) -> bool {
    &&& errand.from == lost
    &&& errand.to == made
    &&& record.windows.at(errand.window) == Some(lost)
    &&& record.wants(errand.window) == Some(lost)
    &&& places.at(errand.window) matches Some(place) && place.sys_id == Some(errand.sys_id)
}

fn find_merged(
    record: &DisplayRecord,
    places: &Table<WindowId, WindowPlace>,
    lost: SpaceId,
    made: SpaceId,
) -> (merged: Vec<Errand>)
    requires
        record.wf(),
        places.wf(),
    ensures
        merged@.no_duplicates(),
        forall|errand: Errand| #[trigger]
            merged@.contains(errand) <==> is_merged(*record, *places, lost, made, errand),
{
    let mut merged: Vec<Errand> = Vec::new();
    let ghost entries = record.windows.entries@;
    let mut i: usize = 0;
    while i < record.windows.entries.len()
        invariant
            record.wf(),
            places.wf(),
            entries == record.windows.entries@,
            i <= entries.len(),
            merged@.no_duplicates(),
            forall|x: int|
                0 <= x < merged@.len() ==> is_merged(
                    *record,
                    *places,
                    lost,
                    made,
                    #[trigger] merged@[x],
                ) && exists|y: int| 0 <= y < i && (#[trigger] entries[y]).0 == merged@[x].window,
            forall|errand: Errand|
                #![trigger merged@.contains(errand)]
                is_merged(*record, *places, lost, made, errand) && (exists|y: int|
                    0 <= y < i && (#[trigger] entries[y]).0 == errand.window) ==> merged@.contains(
                    errand,
                ),
        decreases entries.len() - i,
    {
        let wid = record.windows.entries[i].0;
        let there = record.windows.entries[i].1;
        let ghost before = merged@;
        proof {
            record.windows.lemma_at(i as int);
        }
        let wanted = match record.desired(wid) {
            Some(space) => space == lost,
            None => false,
        };
        if there == lost && wanted {
            match places.get(&wid) {
                Some(place) => match place.sys_id {
                    Some(sys_id) => {
                        let errand = Errand { window: wid, sys_id, from: lost, to: made };
                        assert(is_merged(*record, *places, lost, made, errand));
                        proof {
                            if merged@.contains(errand) {
                                let x = choose|x: int| 0 <= x < merged@.len() && merged@[x] == errand;
                                let y = choose|y: int|
                                    0 <= y < i && (#[trigger] entries[y]).0 == merged@[x].window;
                                assert(entries[y].0 != entries[i as int].0);
                            }
                        }
                        merged.push(errand);
                    },
                    None => {},
                },
                None => {},
            }
        }
        proof {
            assert forall|x: int| 0 <= x < merged@.len() implies is_merged(
                *record,
                *places,
                lost,
                made,
                #[trigger] merged@[x],
            ) && exists|y: int| 0 <= y < i + 1 && (#[trigger] entries[y]).0 == merged@[x].window by {
                if x < before.len() {
                    assert(merged@[x] == before[x]);
                    let y = choose|y: int|
                        0 <= y < i && (#[trigger] entries[y]).0 == before[x].window;
                    assert(0 <= y < i + 1 && entries[y].0 == merged@[x].window);
                } else {
                    assert(0 <= i < i + 1 && entries[i as int].0 == merged@[x].window);
                }
            }
            assert forall|errand: Errand|
                #![trigger merged@.contains(errand)]
                is_merged(*record, *places, lost, made, errand) && (exists|y: int|
                    0 <= y < i + 1 && (#[trigger] entries[y]).0
                        == errand.window) implies merged@.contains(errand) by {
                let y = choose|y: int| 0 <= y < i + 1 && (#[trigger] entries[y]).0 == errand.window;
                if y < i {
                    assert(before.contains(errand));
                    let x = choose|x: int| 0 <= x < before.len() && before[x] == errand;
                    assert(merged@[x] == errand);
                } else {
                    assert(merged@[merged@.len() - 1] == errand);
                }
            }
        }
        i = i + 1;
    }
    proof {
        assert forall|errand: Errand| #[trigger]
            merged@.contains(errand) <==> is_merged(*record, *places, lost, made, errand) by {
            if merged@.contains(errand) {
                let x = choose|x: int| 0 <= x < merged@.len() && merged@[x] == errand;
                assert(is_merged(*record, *places, lost, made, merged@[x]));
            }
            if is_merged(*record, *places, lost, made, errand) {
                let y = record.windows.index_of(errand.window);
                assert(record.windows.has_at(y, errand.window));
                assert(entries[y].0 == errand.window);
            }
        }
    }
    merged
}

/// The windows to send: those of the destroyed desktop, if one was made for
/// them, then those that went astray.
pub open spec fn are_errands(
    errands: Seq<Errand>,
    plan: SettlePlan,
    record: DisplayRecord,
    places: Table<WindowId, WindowPlace>,
    made: Option<SpaceId>,
) -> bool {
    exists|merged: Seq<Errand>|
        #![trigger merged + plan.astray@]
        {
            &&& errands == merged + plan.astray@
            &&& merged.no_duplicates()
            &&& forall|errand: Errand| #[trigger]
                merged.contains(errand) <==> (made is Some && plan.spec_lost() is Some
                    && is_merged(record, places, (plan.spec_lost()->0).1, made->0, errand))
        }
}

/// The windows to send to made desktops.
pub fn settle_errands(
    plan: &SettlePlan,
    record: &DisplayRecord,
    places: &Table<WindowId, WindowPlace>,
    made: Option<SpaceId>,
) -> (errands: Vec<Errand>)
    requires
        record.wf(),
        places.wf(),
    ensures
        are_errands(errands@, *plan, *record, *places, made),
{
    let mut errands: Vec<Errand> = Vec::new();
    match made {
        Some(made) => {
            if plan.destroyed.len() > 0 {
                errands = find_merged(record, places, plan.destroyed[0].1, made);
            }
        },
        None => {},
    }
    let ghost merged = errands@;
    let mut i: usize = 0;
    assert(merged + plan.astray@.take(0) =~= merged);
    while i < plan.astray.len()
        invariant
            i <= plan.astray@.len(),
            errands@ == merged + plan.astray@.take(i as int),
        decreases plan.astray@.len() - i,
    {
        errands.push(plan.astray[i]);
        assert(merged + plan.astray@.take(i + 1) =~= (merged + plan.astray@.take(i as int)).push(
            plan.astray@[i as int],
        ));
        i = i + 1;
    }
    assert(plan.astray@.take(i as int) =~= plan.astray@);
    errands
}

/// The errands that were carried out.
pub open spec fn carried_out(errands: Seq<Errand>, accepted: Seq<bool>) -> Seq<Errand>
    decreases errands.len(),
{
    if errands.len() == 0 {
        seq![]
    } else {
        let front = carried_out(errands.drop_last(), accepted);
        if errands.len() <= accepted.len() && accepted[errands.len() - 1] {
            front.push(errands.last())
        } else {
            front
        }
    }
}

/// Where the windows sent are waited for.
pub open spec fn waited_for(sent: Seq<Errand>) -> Map<WindowId, SpaceId>
    decreases sent.len(),
{
    if sent.len() == 0 {
        Map::empty()
    } else {
        waited_for(sent.drop_last()).insert(sent.last().window, sent.last().to)
    }
}

/// The trees to restore on the made desktops: that of the desktop made now,
/// and of each that a window was sent to, each once.
pub open spec fn to_restore(
    made: Option<(SpaceId, SpaceId)>,
    sent: Seq<Errand>,
) -> Seq<(SpaceId, SpaceId)>
    decreases sent.len(),
{
    if sent.len() == 0 {
        match made {
            Some(tree) => seq![tree],
            None => seq![],
        }
    } else {
        let front = to_restore(made, sent.drop_last());
        let tree = (sent.last().from, sent.last().to);
        if front.contains(tree) {
            front
        } else {
            front.push(tree)
        }
    }
}

/// Having another made desktop than `gone`.
pub open spec fn made_other_than(gone: SpaceId) -> spec_fn((SpaceId, SpaceId)) -> bool {
    |stopgap: (SpaceId, SpaceId)| stopgap.0 != gone
}

/// The windows of the errands.
pub open spec fn windows_of(errands: Seq<Errand>) -> Seq<WindowId> {
    errands.map_values(|errand: Errand| errand.window)
}

/// The stopgaps once `made` stands in for the first destroyed desktop.
pub open spec fn stopgaps_with(
    stopgaps: Seq<(SpaceId, SpaceId)>,
    lost: Option<(SpaceId, SpaceId)>,
    made: Option<SpaceId>,
) -> Seq<(SpaceId, SpaceId)> {
    match (lost, made) {
        (Some((gone, lost)), Some(made)) => stopgaps.filter(made_other_than(gone)).push(
            (made, lost),
        ),
        _ => stopgaps,
    }
}

/// The tree that goes to the desktop made now.
pub open spec fn tree_made(
    lost: Option<(SpaceId, SpaceId)>,
    made: Option<SpaceId>,
) -> Option<(SpaceId, SpaceId)> {
    match (lost, made) {
        (Some((_, lost)), Some(made)) => Some((lost, made)),
        _ => None,
    }
}

/// What follows once a settle was entered in the record.
#[derive(Clone, Copy, Debug, PartialEq, Eq, Structural)]
pub enum SettleEnd {
    /// Nothing is to be restored.
    Done,
    /// No window is waited for: the pass can be finished at once.
    Finish,
    /// Windows are waited for, until a deadline.
    Wait,
}

fn collect_sent(errands: &Vec<Errand>, accepted: &[bool]) -> (sent: Vec<Errand>)
    ensures
        sent@ == carried_out(errands@, accepted@),
{
    let mut sent: Vec<Errand> = Vec::new();
    let mut i: usize = 0;
    while i < errands.len()
        invariant
            i <= errands@.len(),
            sent@ == carried_out(errands@.take(i as int), accepted@),
        decreases errands@.len() - i,
    {
        proof {
            assert(errands@.take(i + 1).drop_last() =~= errands@.take(i as int));
            assert(errands@.take(i + 1).last() == errands@[i as int]);
        }
        if i < accepted.len() && accepted[i] {
            sent.push(errands[i]);
        }
        i = i + 1;
    }
    assert(errands@.take(i as int) =~= errands@);
    sent
}

fn collect_waiting(sent: &Vec<Errand>) -> (waiting: Table<WindowId, SpaceId>)
    ensures
        waiting.wf(),
        waiting@ == waited_for(sent@),
        (waiting.entries@.len() == 0) == (sent@.len() == 0),
{
    let mut waiting: Table<WindowId, SpaceId> = Table::new();
    let mut i: usize = 0;
    while i < sent.len()
        invariant
            i <= sent@.len(),
            waiting.wf(),
            waiting@ == waited_for(sent@.take(i as int)),
            (waiting.entries@.len() == 0) == (i == 0),
        decreases sent@.len() - i,
    {
        proof {
            assert(sent@.take(i + 1).drop_last() =~= sent@.take(i as int));
            assert(sent@.take(i + 1).last() == sent@[i as int]);
        }
        let ghost before = waiting;
        waiting.insert(sent[i].window, sent[i].to);
        proof {
            if before.at(sent@[i as int].window) is Some {
                let x = before.index_of(sent@[i as int].window);
                assert(before.has_at(x, sent@[i as int].window));
            }
        }
        i = i + 1;
    }
    assert(sent@.take(i as int) =~= sent@);
    waiting
}

fn holds_tree(trees: &Vec<(SpaceId, SpaceId)>, tree: (SpaceId, SpaceId)) -> (held: bool)
    ensures
        held == trees@.contains(tree),
{
    let mut i: usize = 0;
    while i < trees.len()
        invariant
            i <= trees@.len(),
            forall|j: int| 0 <= j < i ==> trees@[j] != tree,
        decreases trees@.len() - i,
    {
        if trees[i].0 == tree.0 && trees[i].1 == tree.1 {
            assert(trees@[i as int] == tree);
            return true;
        }
        i = i + 1;
    }
    false
}

fn collect_restores(made: Option<(SpaceId, SpaceId)>, sent: &Vec<Errand>) -> (restores: Vec<
    (SpaceId, SpaceId),
>)
    ensures
        restores@ == to_restore(made, sent@),
{
    let mut restores: Vec<(SpaceId, SpaceId)> = Vec::new();
    match made {
        Some(tree) => {
            restores.push(tree);
        },
        None => {},
    }
    let mut i: usize = 0;
    assert(restores@ =~= to_restore(made, sent@.take(0)));
    while i < sent.len()
        invariant
            i <= sent@.len(),
            restores@ == to_restore(made, sent@.take(i as int)),
        decreases sent@.len() - i,
    {
        proof {
            assert(sent@.take(i + 1).drop_last() =~= sent@.take(i as int));
            assert(sent@.take(i + 1).last() == sent@[i as int]);
        }
        let tree = (sent[i].from, sent[i].to);
        if !holds_tree(&restores, tree) {
            restores.push(tree);
        }
        i = i + 1;
    }
    assert(sent@.take(i as int) =~= sent@);
    restores
}

/// Enters what was carried out of `plan` in the record: the desktop made, if
/// one was, and the windows sent. A pass is begun when a tree is to be
/// restored.
pub fn finish_settle(
    record: &mut DisplayRecord,
    plan: &SettlePlan,
    made: Option<SpaceId>,
    errands: &Vec<Errand>,
    accepted: &[bool],
    now: Nanos,
) -> (end: SettleEnd)
    requires
        old(record).wf(),
        old(record).pass is None,
        plan.spec_lost() matches Some((gone, lost)) ==> gone == represented(
            old(record).stopgaps@,
            lost,
        ),
    ensures
        final(record).wf(),
        ({
            let sent = carried_out(errands@, accepted@);
            let restores = to_restore(tree_made(plan.spec_lost(), made), sent);
            &&& final(record).settled
            &&& final(record).churn_seen == now
            &&& final(record).seen@ == old(record).seen@.union(plan.listed@.to_set()).union(
                match tree_made(plan.spec_lost(), made) {
                    Some((_, made)) => set![made],
                    None => set![],
                },
            )
            &&& final(record).stopgaps@ == stopgaps_with(
                old(record).stopgaps@,
                plan.spec_lost(),
                made,
            )
            &&& final(record).own_moves@ == old(record).own_moves@.union(
                windows_of(sent).to_set(),
            )
            &&& if restores.len() == 0 {
                end == SettleEnd::Done && final(record).pass is None
            } else {
                &&& end == if sent.len() == 0 {
                    SettleEnd::Finish
                } else {
                    SettleEnd::Wait
                }
                &&& final(record).pass matches Some(pass) && {
                    &&& pass.stage == Stage::Away
                    &&& pass.waiting@ == waited_for(sent)
                    &&& pass.restores@ == restores
                    &&& pass.ids@ == Map::<SpaceId, SpaceId>::empty()
                    &&& pass.retire@.len() == 0
                    &&& pass.started == now
                }
            }
            &&& *final(record) == (DisplayRecord {
                settled: final(record).settled,
                churn_seen: final(record).churn_seen,
                seen: final(record).seen,
                stopgaps: final(record).stopgaps,
                own_moves: final(record).own_moves,
                pass: final(record).pass,
                ..*old(record)
            })
        }),
{
    let ghost before = *record;
    let sent = collect_sent(errands, accepted);
    let waiting = collect_waiting(&sent);
    record.settled = true;
    record.churn_seen = now;
    record.seen.extend(plan.listed.as_slice());
    let ghost listed = record.seen@;
    let mut tree: Option<(SpaceId, SpaceId)> = None;
    assert(listed.union(Set::<SpaceId>::empty()) =~= listed);
    match made {
        Some(made) => {
            if plan.destroyed.len() > 0 {
                let (gone, lost) = plan.destroyed[0];
                let mut stopgaps: Vec<(SpaceId, SpaceId)> = Vec::new();
                let mut i: usize = 0;
                while i < record.stopgaps.len()
                    invariant
                        i <= record.stopgaps@.len(),
                        stopgaps@ == record.stopgaps@.take(i as int).filter(made_other_than(gone)),
                    decreases record.stopgaps@.len() - i,
                {
                    proof {
                        let so_far = record.stopgaps@.take(i as int);
                        assert(record.stopgaps@.take(i + 1) =~= so_far.push(
                            record.stopgaps@[i as int],
                        ));
                        so_far.lemma_filter_push(
                            record.stopgaps@[i as int],
                            made_other_than(gone),
                        );
                    }
                    if record.stopgaps[i].0 != gone {
                        stopgaps.push(record.stopgaps[i]);
                    }
                    i = i + 1;
                }
                assert(record.stopgaps@.take(i as int) =~= record.stopgaps@);
                stopgaps.push((made, lost));
                record.stopgaps = stopgaps;
                let _ = record.seen.insert(made);
                assert(listed.insert(made) =~= listed.union(set![made]));
                tree = Some((lost, made));
                proof {
                    lemma_stopgap_replaced(before.stopgaps@, gone, lost, made);
                }
            }
        },
        None => {},
    }
    let mut i: usize = 0;
    let ghost own = record.own_moves@;
    let ghost kept = *record;
    assert(own.union(windows_of(sent@.take(0)).to_set()) =~= own);
    while i < sent.len()
        invariant
            i <= sent@.len(),
            record.own_moves.wf(),
            record.own_moves@ == own.union(windows_of(sent@.take(i as int)).to_set()),
            *record == (DisplayRecord { own_moves: record.own_moves, ..kept }),
        decreases sent@.len() - i,
    {
        proof {
            let so_far = windows_of(sent@.take(i as int));
            assert(windows_of(sent@.take(i + 1)) =~= so_far.push(sent@[i as int].window));
            so_far.lemma_push_to_set_commute(sent@[i as int].window);
            assert(own.union(so_far.to_set()).insert(sent@[i as int].window) =~= own.union(
                so_far.to_set().insert(sent@[i as int].window),
            ));
        }
        let _ = record.own_moves.insert(sent[i].window);
        i = i + 1;
    }
    assert(sent@.take(i as int) =~= sent@);
    let restores = collect_restores(tree, &sent);
    if restores.len() == 0 {
        return SettleEnd::Done;
    }
    let immediate = sent.len() == 0;
    record.pass = Some(
        Pass {
            stage: Stage::Away,
            ids: Table::new(),
            waiting,
            restores,
            retire: Vec::new(),
            started: now,
        },
    );
    if immediate {
        SettleEnd::Finish
    } else {
        SettleEnd::Wait
    }
}

/// Each destroyed desktop still has one made for it at most, once another was
/// made for the one at hand.
proof fn lemma_stopgap_replaced(
    stopgaps: Seq<(SpaceId, SpaceId)>,
    gone: SpaceId,
    lost: SpaceId,
    made: SpaceId,
)
    requires
        stand_ins_once(stopgaps),
        gone == represented(stopgaps, lost),
    ensures
        stand_ins_once(stopgaps.filter(made_other_than(gone)).push((made, lost))),
        stands_in(stopgaps.filter(made_other_than(gone)).push((made, lost)), lost) == Some(made),
{
    let rest = stopgaps.filter(made_other_than(gone));
    let after = rest.push((made, lost));
    let places = crate::table::lemma_filter_places(stopgaps, made_other_than(gone));
    lemma_stands_in(stopgaps, lost);
    assert forall|i: int| 0 <= i < rest.len() implies (#[trigger] rest[i]).1 != lost by {
        assert(places[i] == places[i]);
        if rest[i].1 == lost {
            match stands_in(stopgaps, lost) {
                Some(first) => {
                    let x = choose|x: int|
                        0 <= x < stopgaps.len() && #[trigger] stopgaps[x] == (first, lost) && (
                        forall|j: int| 0 <= j < x ==> (#[trigger] stopgaps[j]).1 != lost);
                    if x < places[i] {
                        assert(stopgaps[x].1 != stopgaps[places[i]].1);
                    } else if places[i] < x {
                        assert(stopgaps[places[i]].1 != stopgaps[x].1);
                    }
                },
                None => {
                    assert(stopgaps[places[i]].1 != lost);
                },
            }
        }
    }
    assert forall|i: int, j: int| 0 <= i < j < after.len() implies (#[trigger] after[i]).1 != (
    #[trigger] after[j]).1 by {
        if j < rest.len() {
            assert(places[i] < places[j]);
            assert(stopgaps[places[i]].1 != stopgaps[places[j]].1);
        } else {
            assert(rest[i].1 != lost);
        }
    }
    lemma_stands_in(after, lost);
    assert(after[rest.len() as int] == (made, lost));
    match stands_in(after, lost) {
        Some(first) => {
            let x = choose|x: int|
                0 <= x < after.len() && #[trigger] after[x] == (first, lost) && (forall|j: int|
                    0 <= j < x ==> (#[trigger] after[j]).1 != lost);
            if x < rest.len() {
                assert(rest[x].1 != lost);
            }
        },
        None => {},
    }
}

/// A plan fits the record it was made from: what was lost is named by what
/// stands for it in that record.
pub proof fn plan_fits_its_record(
    plan: SettlePlan,
    record: DisplayRecord,
    at: int,
    listing: Listing,
    places: Table<WindowId, WindowPlace>,
)
    requires
        0 <= at < record.displays@.len(),
        is_plan_for(plan, record, at, listing, places),
    ensures
        plan.spec_lost() matches Some((gone, lost)) ==> gone == represented(record.stopgaps@, lost)
            && record.displays@[at].desktops@.contains(lost) && !all_of(listing).contains(gone),
{
    let recorded = record.displays@[at].desktops@;
    let own = own_desktops(record.stopgaps@, recorded);
    if plan.destroyed@.len() > 0 {
        let places = crate::table::lemma_filter_places(own, lost_from(all_of(listing)));
        assert(places[0] == places[0]);
        assert(own[places[0]] == plan.destroyed@[0]);
        assert(recorded[places[0]] == plan.destroyed@[0].1);
    }
}

/// A destroyed desktop that one was made for is not lost again while that one
/// is listed: no later settle makes another.
pub proof fn a_made_desktop_is_made_once(
    stopgaps: Seq<(SpaceId, SpaceId)>,
    lost: (SpaceId, SpaceId),
    made: SpaceId,
    recorded: Seq<SpaceId>,
    listed: Seq<SpaceId>,
)
    requires
        stand_ins_once(stopgaps),
        lost.0 == represented(stopgaps, lost.1),
        listed.contains(made),
    ensures
        ({
            let after = stopgaps_with(stopgaps, Some(lost), Some(made));
            forall|i: int|
                0 <= i < own_desktops(after, recorded).filter(lost_from(listed)).len() ==> (
                #[trigger] own_desktops(after, recorded).filter(lost_from(listed))[i]).1 != lost.1
        }),
{
    let after = stopgaps_with(stopgaps, Some(lost), Some(made));
    lemma_stopgap_replaced(stopgaps, lost.0, lost.1, made);
    let own = own_desktops(after, recorded);
    let places = crate::table::lemma_filter_places(own, lost_from(listed));
    assert forall|i: int| 0 <= i < own.filter(lost_from(listed)).len() implies (
    #[trigger] own.filter(lost_from(listed))[i]).1 != lost.1 by {
        assert(places[i] == places[i]);
        assert(own[places[i]].0 == represented(after, own[places[i]].1));
    }
}

proof fn lemma_represented(stopgaps: Seq<(SpaceId, SpaceId)>, space: SpaceId, made: SpaceId)
    requires
        stand_ins_once(stopgaps),
    ensures
        stopgaps.contains((made, space)) ==> represented(stopgaps, space) == made,
        (forall|i: int| 0 <= i < stopgaps.len() ==> (#[trigger] stopgaps[i]).1 != space)
            ==> represented(stopgaps, space) == space,
{
    lemma_stands_in(stopgaps, space);
    if stopgaps.contains((made, space)) {
        let i = stopgaps.index_of((made, space));
        assert(stopgaps[i].1 == space);
        let first = stands_in(stopgaps, space)->0;
        let j = choose|j: int|
            0 <= j < stopgaps.len() && #[trigger] stopgaps[j] == (first, space) && (forall|x: int|
                0 <= x < j ==> (#[trigger] stopgaps[x]).1 != space);
        if i < j {
            assert(stopgaps[i].1 != stopgaps[j].1);
        } else if j < i {
            assert(stopgaps[j].1 != stopgaps[i].1);
        }
    }
}

/// What a desktop stands for is what was recorded: the desktop made for it if one
/// was made, else the desktop itself.
pub proof fn what_stands_for_a_desktop(
    stopgaps: Seq<(SpaceId, SpaceId)>,
    space: SpaceId,
    made: SpaceId,
)
    requires
        stand_ins_once(stopgaps),
    ensures
        stopgaps.contains((made, space)) ==> represented(stopgaps, space) == made,
        (forall|i: int| 0 <= i < stopgaps.len() ==> (#[trigger] stopgaps[i]).1 != space)
            ==> represented(stopgaps, space) == space,
{
    lemma_represented(stopgaps, space, made);
}

/// When a desktop was made for the destroyed one that the survivor was showing, the
/// survivor is switched to the made one, unless it shows it.
pub proof fn the_survivor_is_switched_to_the_made_desktop(
    plan: SettlePlan,
    record: DisplayRecord,
    at: int,
    listing: Listing,
    places: Table<WindowId, WindowPlace>,
    stopgaps: Seq<(SpaceId, SpaceId)>,
    screens: Seq<Screen>,
    made: SpaceId,
)
    requires
        is_plan_for(plan, record, at, listing, places),
        plan.destroyed@.len() > 0,
        record.displays@[at].shown == Some(plan.destroyed@[0].1),
    ensures
        shown_by(screens, record.displays@[at].uuid@) != Some(made) ==> plan.focus_of(
            stopgaps,
            Some(made),
            screens,
            true,
        ) == Some(made),
        shown_by(screens, record.displays@[at].uuid@) == Some(made) ==> plan.focus_of(
            stopgaps,
            Some(made),
            screens,
            true,
        ) is None,
{
    let order = plan.on_survivor@.push(made);
    assert(order[order.len() - 1] == made);
}

/// When the survivor was showing another desktop, it is switched back to what
/// stands for that one, if it lists it and does not show it.
pub proof fn the_survivor_is_switched_back(
    plan: SettlePlan,
    record: DisplayRecord,
    at: int,
    listing: Listing,
    places: Table<WindowId, WindowPlace>,
    made: Option<SpaceId>,
    screens: Seq<Screen>,
    shown: SpaceId,
    back: SpaceId,
)
    requires
        is_plan_for(plan, record, at, listing, places),
        stand_ins_once(record.stopgaps@),
        record.displays@[at].shown == Some(shown),
        made is None || plan.destroyed@.len() == 0 || plan.destroyed@[0].1 != shown,
        record.stopgaps@.contains((back, shown)) || (back == shown && forall|i: int|
            0 <= i < record.stopgaps@.len() ==> (#[trigger] record.stopgaps@[i]).1 != shown),
        !record.settled || plan.destroyed@.len() > 0,
        listed_under(listing, record.displays@[at].uuid@).contains(back) || made == Some(back),
        shown_by(screens, record.displays@[at].uuid@) != Some(back),
    ensures
        plan.focus_of(record.stopgaps@, made, screens, true) == Some(back),
{
    lemma_represented(record.stopgaps@, shown, back);
    if made is Some {
        let order = plan.on_survivor@.push(made->0);
        assert(order[order.len() - 1] == made->0);
        if plan.on_survivor@.contains(back) {
            let i = plan.on_survivor@.index_of(back);
            assert(order[i] == back);
        }
    }
}

/// The survivor is switched only with the means to, when a desktop was lost or made,
/// to a desktop that it lists and does not show.
pub proof fn the_survivor_is_not_switched_for_less(
    plan: SettlePlan,
    stopgaps: Seq<(SpaceId, SpaceId)>,
    made: Option<SpaceId>,
    screens: Seq<Screen>,
    addition: bool,
)
    requires
        plan.focus_of(stopgaps, made, screens, addition) is Some,
    ensures
        addition,
        plan.reshuffled,
        plan.shown is Some,
        plan.on_survivor@.contains(plan.focus_of(stopgaps, made, screens, addition)->0) || made
            == plan.focus_of(stopgaps, made, screens, addition),
        shown_by(screens, plan.survivor@) != plan.focus_of(stopgaps, made, screens, addition),
{
    let back = plan.focus_of(stopgaps, made, screens, addition)->0;
    if made is Some {
        let order = plan.on_survivor@.push(made->0);
        let i = order.index_of(back);
        if i < plan.on_survivor@.len() {
            assert(plan.on_survivor@[i] == back);
        }
    }
}

/// The desktop that one is made for is the first of the survivor's own that is
/// listed nowhere, by what stands for it; there is none if every one is listed.
pub proof fn the_first_lost_desktop_is_made_good(
    plan: SettlePlan,
    record: DisplayRecord,
    at: int,
    listing: Listing,
    places: Table<WindowId, WindowPlace>,
    i: int,
)
    requires
        is_plan_for(plan, record, at, listing, places),
        0 <= i < record.displays@[at].desktops@.len(),
        !all_of(listing).contains(represented(record.stopgaps@, record.displays@[at].desktops@[i])),
        forall|k: int|
            0 <= k < i ==> all_of(listing).contains(
                represented(record.stopgaps@, #[trigger] record.displays@[at].desktops@[k]),
            ),
    ensures
        plan.spec_lost() == Some(
            (
                represented(record.stopgaps@, record.displays@[at].desktops@[i]),
                record.displays@[at].desktops@[i],
            ),
        ),
{
    let desktops = record.displays@[at].desktops@;
    let own = own_desktops(record.stopgaps@, desktops);
    let p = lost_from(all_of(listing));
    lemma_filter_at(own, p, i);
    let front = own.take(i);
    if front.filter(p).len() > 0 {
        let k = lemma_filter_from(front, p, 0);
        assert(front[k] == own[k]);
        assert(desktops[k] == desktops[k]);
    }
}

/// What of the survivor's own desktops counts as destroyed, as kept and as visiting.
pub proof fn how_the_survivors_desktops_are_sorted(
    plan: SettlePlan,
    record: DisplayRecord,
    at: int,
    listing: Listing,
    places: Table<WindowId, WindowPlace>,
    now: SpaceId,
    before: SpaceId,
)
    requires
        0 <= at < record.displays@.len(),
        is_plan_for(plan, record, at, listing, places),
    ensures
        plan.destroyed@.contains((now, before)) <==> record.displays@[at].desktops@.contains(before)
            && now == represented(record.stopgaps@, before) && !all_of(listing).contains(now),
        plan.kept@.contains(now) <==> listed_under(listing, record.displays@[at].uuid@).contains(now)
            && exists|i: int|
            0 <= i < record.displays@[at].desktops@.len() && represented(
                record.stopgaps@,
                #[trigger] record.displays@[at].desktops@[i],
            ) == now,
        plan.visitors@.contains(now) <==> listed_under(listing, record.displays@[at].uuid@).contains(
            now,
        ) && exists|d: int|
            0 <= d < record.displays@.len() && (#[trigger] record.displays@[d]).uuid@
                != record.displays@[at].uuid@ && record.displays@[d].desktops@.contains(now),
{
    let desktops = record.displays@[at].desktops@;
    let here = listed_under(listing, record.displays@[at].uuid@);
    let own = own_desktops(record.stopgaps@, desktops);
    lemma_filter_holds(own, lost_from(all_of(listing)), (now, before));
    if own.contains((now, before)) {
        let i = own.index_of((now, before));
        assert(desktops[i] == before);
    }
    if desktops.contains(before) && now == represented(record.stopgaps@, before) {
        let i = desktops.index_of(before);
        assert(own[i] == (now, before));
    }
    lemma_filter_map_holds(own, kept_on(here), now);
    if plan.kept@.contains(now) {
        let i = choose|i: int| 0 <= i < own.len() && kept_on(here)(#[trigger] own[i]) == Some(now);
        assert(represented(record.stopgaps@, desktops[i]) == now);
    }
    if here.contains(now) && exists|i: int|
        0 <= i < desktops.len() && represented(record.stopgaps@, #[trigger] desktops[i]) == now {
        let i = choose|i: int|
            0 <= i < desktops.len() && represented(record.stopgaps@, #[trigger] desktops[i]) == now;
        assert(kept_on(here)(own[i]) == Some(now));
    }
    lemma_filter_holds(
        others_desktops(record.displays@, record.displays@[at].uuid@),
        among(here),
        now,
    );
    lemma_others(record.displays@, record.displays@[at].uuid@, now);
}

proof fn lemma_others(displays: Seq<RecordedDisplay>, survivor: Seq<char>, space: SpaceId)
    ensures
        others_desktops(displays, survivor).contains(space) <==> exists|d: int|
            0 <= d < displays.len() && (#[trigger] displays[d]).uuid@ != survivor
                && displays[d].desktops@.contains(space),
    decreases displays.len(),
{
    if displays.len() > 0 {
        let front = displays.drop_last();
        lemma_others(front, survivor, space);
        crate::screens::lemma_concat_contains(
            others_desktops(front, survivor),
            displays.last().desktops@,
            space,
        );
        if others_desktops(front, survivor).contains(space) {
            let d = choose|d: int|
                0 <= d < front.len() && (#[trigger] front[d]).uuid@ != survivor
                    && front[d].desktops@.contains(space);
            assert(displays[d] == front[d]);
        }
        if exists|d: int|
            0 <= d < displays.len() && (#[trigger] displays[d]).uuid@ != survivor
                && displays[d].desktops@.contains(space) {
            let d = choose|d: int|
                0 <= d < displays.len() && (#[trigger] displays[d]).uuid@ != survivor
                    && displays[d].desktops@.contains(space);
            if d < front.len() {
                assert(front[d] == displays[d]);
            }
        }
    }
}

/// The desktops that the survivor's are put in order by: the made one first, then
/// its own in the order they were recorded in.
pub proof fn the_made_desktop_comes_first(plan: SettlePlan, made: SpaceId, i: int)
    requires
        0 <= i < plan.kept@.len(),
    ensures
        plan.own_with(Some(made))[0] == made,
        plan.own_with(Some(made))[i + 1] == plan.kept@[i],
        plan.own_with(Some(made)).len() == plan.kept@.len() + 1,
        plan.own_with(None) == plan.kept@,
        plan.order_with(Some(made)).last() == made,
        plan.order_with(Some(made)).len() == plan.on_survivor@.len() + 1,
        plan.order_with(None) == plan.on_survivor@,
{
}

/// Once a desktop was made for a destroyed one, it stands for it; every other
/// desktop is stood for as before, unless by the desktop that is gone.
pub proof fn the_made_desktop_stands_for_the_lost_one(
    stopgaps: Seq<(SpaceId, SpaceId)>,
    gone: SpaceId,
    lost: SpaceId,
    made: SpaceId,
    other: SpaceId,
    stand_in: SpaceId,
)
    requires
        stand_ins_once(stopgaps),
        gone == represented(stopgaps, lost),
        other != lost,
    ensures
        stopgaps_with(stopgaps, Some((gone, lost)), Some(made)).contains((made, lost)),
        represented(stopgaps_with(stopgaps, Some((gone, lost)), Some(made)), lost) == made,
        stand_in != gone ==> (stopgaps_with(stopgaps, Some((gone, lost)), Some(made)).contains(
            (stand_in, other),
        ) <==> stopgaps.contains((stand_in, other))),
        stopgaps_with(stopgaps, None, Some(made)) == stopgaps,
        stopgaps_with(stopgaps, Some((gone, lost)), None) == stopgaps,
{
    let kept = stopgaps.filter(made_other_than(gone));
    let after = kept.push((made, lost));
    assert(after[after.len() - 1] == (made, lost));
    lemma_filter_holds(stopgaps, made_other_than(gone), (stand_in, other));
    if after.contains((stand_in, other)) {
        let i = after.index_of((stand_in, other));
        if i < kept.len() {
            assert(kept[i] == (stand_in, other));
        }
    }
    if kept.contains((stand_in, other)) {
        let i = kept.index_of((stand_in, other));
        assert(after[i] == (stand_in, other));
    }
    lemma_stands_in(after, lost);
    lemma_stands_in(stopgaps, lost);
    let first = stands_in(after, lost)->0;
    let j = choose|j: int|
        0 <= j < after.len() && #[trigger] after[j] == (first, lost) && (forall|x: int|
            0 <= x < j ==> (#[trigger] after[x]).1 != lost);
    if j < kept.len() {
        assert(kept[j] == (first, lost));
        lemma_filter_holds(stopgaps, made_other_than(gone), (first, lost));
        lemma_represented(stopgaps, lost, first);
        assert(kept.contains((first, lost)));
    }
}

/// What was carried out is what was accepted, and each window that was sent is
/// waited for on the desktop it was last sent to.
pub proof fn what_was_sent_is_waited_for(
    errands: Seq<Errand>,
    accepted: Seq<bool>,
    wid: WindowId,
)
    ensures
        forall|errand: Errand| #[trigger]
            carried_out(errands, accepted).contains(errand) <==> exists|i: int|
                0 <= i < errands.len() && i < accepted.len() && #[trigger] errands[i] == errand
                    && accepted[i],
        waited_for(carried_out(errands, accepted)).contains_key(wid) <==> exists|i: int|
            0 <= i < errands.len() && i < accepted.len() && (#[trigger] errands[i]).window == wid
                && accepted[i],
{
    assert forall|errand: Errand| #[trigger]
        carried_out(errands, accepted).contains(errand) <==> exists|i: int|
            0 <= i < errands.len() && i < accepted.len() && #[trigger] errands[i] == errand
                && accepted[i] by {
        lemma_carried_out(errands, accepted, errand);
    }
    let sent = carried_out(errands, accepted);
    lemma_waited_for(sent, wid);
    if waited_for(sent).contains_key(wid) {
        let k = choose|k: int| 0 <= k < sent.len() && (#[trigger] sent[k]).window == wid;
        assert(sent.contains(sent[k]));
    }
    if exists|i: int|
        0 <= i < errands.len() && i < accepted.len() && (#[trigger] errands[i]).window == wid
            && accepted[i] {
        let i = choose|i: int|
            0 <= i < errands.len() && i < accepted.len() && (#[trigger] errands[i]).window == wid
                && accepted[i];
        assert(sent.contains(errands[i]));
        let k = sent.index_of(errands[i]);
        assert(sent[k].window == wid);
    }
}

proof fn lemma_carried_out(errands: Seq<Errand>, accepted: Seq<bool>, errand: Errand)
    ensures
        carried_out(errands, accepted).contains(errand) <==> exists|i: int|
            0 <= i < errands.len() && i < accepted.len() && #[trigger] errands[i] == errand
                && accepted[i],
    decreases errands.len(),
{
    if errands.len() > 0 {
        let front = errands.drop_last();
        let last = errands.len() - 1;
        lemma_carried_out(front, accepted, errand);
        let before = carried_out(front, accepted);
        let after = carried_out(errands, accepted);
        if before.contains(errand) {
            let k = before.index_of(errand);
            assert(after[k] == errand);
            let i = choose|i: int|
                0 <= i < front.len() && i < accepted.len() && #[trigger] front[i] == errand
                    && accepted[i];
            assert(errands[i] == errand);
        }
        if after.contains(errand) && !before.contains(errand) {
            let k = after.index_of(errand);
            if k < before.len() {
                assert(before[k] == errand);
            }
            assert(errands[last] == errand);
        }
        if exists|i: int|
            0 <= i < errands.len() && i < accepted.len() && #[trigger] errands[i] == errand
                && accepted[i] {
            let i = choose|i: int|
                0 <= i < errands.len() && i < accepted.len() && #[trigger] errands[i] == errand
                    && accepted[i];
            if i < last {
                assert(front[i] == errand);
            } else {
                assert(after[before.len() as int] == errand);
            }
        }
    }
}

proof fn lemma_waited_for(sent: Seq<Errand>, wid: WindowId)
    ensures
        waited_for(sent).contains_key(wid) <==> exists|k: int|
            0 <= k < sent.len() && (#[trigger] sent[k]).window == wid,
    decreases sent.len(),
{
    if sent.len() > 0 {
        let front = sent.drop_last();
        lemma_waited_for(front, wid);
        if waited_for(front).contains_key(wid) {
            let k = choose|k: int| 0 <= k < front.len() && (#[trigger] front[k]).window == wid;
            assert(sent[k].window == wid);
        }
        if exists|k: int| 0 <= k < sent.len() && (#[trigger] sent[k]).window == wid {
            let k = choose|k: int| 0 <= k < sent.len() && (#[trigger] sent[k]).window == wid;
            if k < front.len() {
                assert(front[k].window == wid);
            }
        }
    }
}

/// A window is waited for on the desktop that it was sent to last.
pub proof fn a_window_is_waited_for_where_it_was_sent(sent: Seq<Errand>, i: int)
    requires
        0 <= i < sent.len(),
        forall|k: int| i < k < sent.len() ==> (#[trigger] sent[k]).window != sent[i].window,
    ensures
        waited_for(sent).contains_pair(sent[i].window, sent[i].to),
    decreases sent.len(),
{
    let front = sent.drop_last();
    if i < front.len() {
        assert forall|k: int| i < k < front.len() implies (#[trigger] front[k]).window
            != front[i].window by {
            assert(sent[k].window != sent[i].window);
        }
        a_window_is_waited_for_where_it_was_sent(front, i);
        assert(sent[sent.len() - 1].window != sent[i].window);
    }
}

/// The trees that are restored are that of the desktop made now and of each one that
/// a window was sent to, and each once.
pub proof fn what_is_restored(
    made: Option<(SpaceId, SpaceId)>,
    sent: Seq<Errand>,
    from: SpaceId,
    to: SpaceId,
)
    ensures
        to_restore(made, sent).no_duplicates(),
        to_restore(made, sent).contains((from, to)) <==> made == Some((from, to)) || exists|k: int|
            0 <= k < sent.len() && (#[trigger] sent[k]).from == from && sent[k].to == to,
        made is Some ==> to_restore(made, sent)[0] == made->0,
    decreases sent.len(),
{
    let after = to_restore(made, sent);
    if sent.len() == 0 {
        if made is Some {
            assert(after[0] == made->0);
        }
    } else {
        let front = sent.drop_last();
        let last = sent.len() - 1;
        what_is_restored(made, front, from, to);
        let before = to_restore(made, front);
        let tree = (sent.last().from, sent.last().to);
        what_is_restored(made, front, tree.0, tree.1);
        if before.contains((from, to)) {
            let x = before.index_of((from, to));
            assert(after[x] == (from, to));
            if made != Some((from, to)) {
                let k = choose|k: int|
                    0 <= k < front.len() && (#[trigger] front[k]).from == from && front[k].to == to;
                assert(sent[k].from == from);
            }
        }
        if after.contains((from, to)) && !before.contains((from, to)) {
            let x = after.index_of((from, to));
            if x < before.len() {
                assert(before[x] == (from, to));
            }
            assert(sent[last].from == from);
        }
        if exists|k: int|
            0 <= k < sent.len() && (#[trigger] sent[k]).from == from && sent[k].to == to {
            let k = choose|k: int|
                0 <= k < sent.len() && (#[trigger] sent[k]).from == from && sent[k].to == to;
            if k < last {
                assert(front[k].from == from);
            } else if !before.contains(tree) {
                assert(after[before.len() as int] == tree);
            }
        }
        if made is Some {
            assert(before.len() > 0) by {
                what_is_restored(made, front, (made->0).0, (made->0).1);
            }
        }
    }
}

/// A window is where the window server says, and where the layout has it only where that
/// says nothing.
pub proof fn where_a_window_is(place: WindowPlace, space: SpaceId)
    ensures
        place.live == Some(space) ==> place.actual() == Some(space),
        place.live is None ==> place.actual() == place.assigned,
{
}

/// The survivor that was recorded is settled if it is on screen; else the first recorded
/// display that is.
pub proof fn who_is_settled(record: DisplayRecord, screens: Seq<Screen>, at: int, i: int)
    requires
        is_survivor(record, screens, at),
        0 <= i < record.displays@.len(),
    ensures
        0 <= at < record.displays@.len(),
        on_screen(screens, record.displays@[at].uuid@),
        on_screen(screens, record.survivor@) && record.displays@[i].uuid@ == record.survivor@
            ==> record.displays@[at].uuid@ == record.survivor@ && at <= i,
        on_screen(screens, record.displays@[i].uuid@) && i < at ==> record.displays@[at].uuid@
            == record.survivor@ && record.displays@[i].uuid@ != record.survivor@,
        !none_on_screen(record, screens),
{
    if on_screen(screens, record.survivor@) && record.displays@[i].uuid@ == record.survivor@ {
        assert(recorded_survivor(record, screens, i));
    }
    if exists|k: int| recorded_survivor(record, screens, k) {
        assert(recorded_survivor(record, screens, at));
        if i < at {
            assert(!recorded_survivor(record, screens, i));
        }
    } else {
        assert(!recorded_survivor(record, screens, at));
    }
}

/// A window is astray if an earlier settle sent it to a made desktop that is still listed,
/// the record wants it on the desktop that one stands for, it is known to the window server
/// and it is not there.
pub proof fn which_windows_are_astray(
    record: DisplayRecord,
    listed: Seq<SpaceId>,
    places: Table<WindowId, WindowPlace>,
    errand: Errand,
)
    ensures
        is_astray(record, listed, places, errand) ==> {
            &&& record.stopgaps@.contains((errand.to, errand.from))
            &&& listed.contains(errand.to)
            &&& record.wants(errand.window) == Some(errand.from)
            &&& places.at(errand.window) is Some
            &&& places.at(errand.window)->0.sys_id == Some(errand.sys_id)
            &&& places.at(errand.window)->0.actual() != Some(errand.to)
        },
        record.stopgaps@.contains((errand.to, errand.from)) && listed.contains(errand.to)
            && record.wants(errand.window) == Some(errand.from) && places.at(errand.window) is Some
            && places.at(errand.window)->0.sys_id == Some(errand.sys_id) && places.at(
            errand.window,
        )->0.actual() != Some(errand.to) ==> is_astray(record, listed, places, errand),
{
}

/// A window that the user was seen to put somewhere is theirs once a display change has had
/// the time to settle, and not before.
pub proof fn when_a_place_is_the_users(
    now: Nanos,
    wid: WindowId,
    space: SpaceId,
    since: Nanos,
)
    ensures
        placed_before(now)(wid, (space, since)) <==> now >= since + CHURN_SETTLE,
{
}

/// There is nothing to settle only where it was done, no desktop of the survivor was lost
/// since and no window is astray.
pub proof fn when_there_is_something_to_settle(
    record: DisplayRecord,
    at: int,
    listing: Listing,
    places: Table<WindowId, WindowPlace>,
    errand: Errand,
    own: (SpaceId, SpaceId),
)
    ensures
        !record.settled ==> !nothing_to_settle(record, at, listing, places),
        is_astray(record, all_of(listing), places, errand) ==> !nothing_to_settle(
            record,
            at,
            listing,
            places,
        ),
        own_desktops(record.stopgaps@, record.displays@[at].desktops@).contains(own)
            && !all_of(listing).contains(own.0) ==> !nothing_to_settle(record, at, listing, places),
        record.settled && (forall|other: (SpaceId, SpaceId)| #[trigger]
            own_desktops(record.stopgaps@, record.displays@[at].desktops@).contains(other)
                ==> all_of(listing).contains(other.0)) && (forall|other: Errand|
            !#[trigger] is_astray(record, all_of(listing), places, other)) ==> nothing_to_settle(
            record,
            at,
            listing,
            places,
        ),
{
    let desktops = own_desktops(record.stopgaps@, record.displays@[at].desktops@);
    let lost = lost_from(all_of(listing));
    crate::lists::lemma_filter_holds(desktops, lost, own);
    if desktops.filter(lost).len() > 0 {
        let other = desktops.filter(lost)[0];
        crate::lists::lemma_filter_holds(desktops, lost, other);
        assert(desktops.filter(lost).contains(other));
    }
}

/// The windows of a destroyed desktop go to the one made for it: those that the departure
/// filed there, that the user has not put elsewhere, and that the window server knows. Each
/// goes once, before those astray; where none was made or lost only those astray go.
pub proof fn which_windows_are_sent(
    errands: Seq<Errand>,
    plan: SettlePlan,
    record: DisplayRecord,
    places: Table<WindowId, WindowPlace>,
    made: Option<SpaceId>,
    errand: Errand,
)
    requires
        are_errands(errands, plan, record, places, made),
    ensures
        made is None || plan.destroyed@.len() == 0 ==> errands == plan.astray@,
        made is Some && plan.destroyed@.len() > 0 && errand.to == made->0 && errand.from
            == plan.destroyed@[0].1 && record.windows.at(errand.window) == Some(errand.from)
            && record.wants(errand.window) == Some(errand.from) && places.at(errand.window) is Some
            && places.at(errand.window)->0.sys_id == Some(errand.sys_id) ==> errands.contains(
            errand,
        ),
        errands.contains(errand) && !plan.astray@.contains(errand) ==> {
            &&& made is Some && plan.destroyed@.len() > 0
            &&& errand.to == made->0 && errand.from == plan.destroyed@[0].1
            &&& record.windows.at(errand.window) == Some(errand.from)
            &&& record.wants(errand.window) == Some(errand.from)
            &&& places.at(errand.window) is Some
            &&& places.at(errand.window)->0.sys_id == Some(errand.sys_id)
        },
        plan.astray@.contains(errand) ==> errands.contains(errand),
        errands.len() >= plan.astray@.len(),
        errands.skip(errands.len() - plan.astray@.len()) == plan.astray@,
{
    let merged = choose|merged: Seq<Errand>|
        #![trigger merged + plan.astray@]
        {
            &&& errands == merged + plan.astray@
            &&& merged.no_duplicates()
            &&& forall|errand: Errand| #[trigger]
                merged.contains(errand) <==> (made is Some && plan.spec_lost() is Some
                    && is_merged(record, places, (plan.spec_lost()->0).1, made->0, errand))
        };
    assert(errands == merged + plan.astray@);
    assert(errands.skip(errands.len() - plan.astray@.len()) =~= plan.astray@);
    if made is None || plan.destroyed@.len() == 0 {
        if merged.len() > 0 {
            assert(merged.contains(merged[0]));
        }
        assert(merged =~= Seq::empty());
        assert(errands =~= plan.astray@);
    }
    if merged.contains(errand) {
        let k = merged.index_of(errand);
        assert(errands[k] == errand);
    }
    if plan.astray@.contains(errand) {
        let k = plan.astray@.index_of(errand);
        assert(errands[merged.len() + k] == errand);
    }
    if errands.contains(errand) {
        let k = errands.index_of(errand);
        if k < merged.len() {
            assert(merged[k] == errand);
        } else {
            assert(plan.astray@[k - merged.len()] == errand);
        }
    }
}

/// The tree of a destroyed desktop goes to the one made for it, under its recorded id; with
/// none lost or none made no tree goes.
pub proof fn which_tree_moves(now: SpaceId, lost: SpaceId, made: SpaceId, other: Option<SpaceId>)
    ensures
        tree_made(Some((now, lost)), Some(made)) == Some((lost, made)),
        tree_made(None, other) is None,
        tree_made(Some((now, lost)), None) is None,
{
}

/// A plan is for the display at its place: it has what that showed, what is listed on it and
/// everywhere, and each window that is astray once. It puts the order right if nothing was
/// settled before or a desktop was lost.
pub proof fn what_a_plan_says(
    plan: SettlePlan,
    record: DisplayRecord,
    at: int,
    listing: Listing,
    places: Table<WindowId, WindowPlace>,
    errand: Errand,
)
    requires
        is_plan_for(plan, record, at, listing, places),
    ensures
        plan.survivor@ == record.displays@[at].uuid@,
        plan.shown == record.displays@[at].shown,
        plan.listed@ == all_of(listing),
        plan.on_survivor@ == listed_under(listing, record.displays@[at].uuid@),
        plan.astray@.contains(errand) <==> is_astray(record, all_of(listing), places, errand),
        plan.astray@.no_duplicates(),
        !record.settled ==> plan.reshuffled,
        plan.destroyed@.len() > 0 ==> plan.reshuffled,
        record.settled && plan.destroyed@.len() == 0 ==> !plan.reshuffled,
{
}

/// One more desktop of the survivor is kept, behind those before it, if it is listed there;
/// and it is lost, behind those lost before it, if it is listed nowhere.
pub proof fn the_survivors_desktops_keep_their_order(
    own: Seq<(SpaceId, SpaceId)>,
    one: (SpaceId, SpaceId),
    listed: Seq<SpaceId>,
)
    ensures
        listed.contains(one.0) ==> own.push(one).filter_map(kept_on(listed)) == own.filter_map(
            kept_on(listed),
        ).push(one.0),
        !listed.contains(one.0) ==> own.push(one).filter_map(kept_on(listed)) == own.filter_map(
            kept_on(listed),
        ),
        listed.contains(one.0) ==> own.push(one).filter(lost_from(listed)) == own.filter(
            lost_from(listed),
        ),
        !listed.contains(one.0) ==> own.push(one).filter(lost_from(listed)) == own.filter(
            lost_from(listed),
        ).push(one),
{
    crate::lists::lemma_filter_map_push(own, one, kept_on(listed));
    crate::lists::lemma_filter_push(own, one, lost_from(listed));
}

/// One more errand was carried out, behind those before it, if it was accepted.
pub proof fn errands_are_carried_out_in_order(
    errands: Seq<Errand>,
    one: Errand,
    accepted: Seq<bool>,
)
    ensures
        carried_out(Seq::empty(), accepted).len() == 0,
        errands.len() < accepted.len() && accepted[errands.len() as int] ==> carried_out(
            errands.push(one),
            accepted,
        ) == carried_out(errands, accepted).push(one),
        errands.len() >= accepted.len() || !accepted[errands.len() as int] ==> carried_out(
            errands.push(one),
            accepted,
        ) == carried_out(errands, accepted),
{
    assert(errands.push(one).drop_last() =~= errands);
}

/// One more window that was sent has its tree restored, behind those before it, if that is
/// not restored yet.
pub proof fn trees_are_restored_in_order(
    made: Option<(SpaceId, SpaceId)>,
    sent: Seq<Errand>,
    one: Errand,
)
    ensures
        made is None ==> to_restore(made, Seq::empty()).len() == 0,
        made is Some ==> to_restore(made, Seq::empty()) == seq![made->0],
        to_restore(made, sent).contains((one.from, one.to)) ==> to_restore(made, sent.push(one))
            == to_restore(made, sent),
        !to_restore(made, sent).contains((one.from, one.to)) ==> to_restore(made, sent.push(one))
            == to_restore(made, sent).push((one.from, one.to)),
{
    assert(sent.push(one).drop_last() =~= sent);
}

/// Each window of a destroyed desktop is sent once, and before any that is astray.
pub proof fn windows_are_sent_once(
    errands: Seq<Errand>,
    plan: SettlePlan,
    record: DisplayRecord,
    places: Table<WindowId, WindowPlace>,
    made: Option<SpaceId>,
)
    requires
        are_errands(errands, plan, record, places, made),
    ensures
        errands.take(errands.len() - plan.astray@.len()).no_duplicates(),
{
    let merged = choose|merged: Seq<Errand>|
        #![trigger merged + plan.astray@]
        {
            &&& errands == merged + plan.astray@
            &&& merged.no_duplicates()
            &&& forall|errand: Errand| #[trigger]
                merged.contains(errand) <==> (made is Some && plan.spec_lost() is Some
                    && is_merged(record, places, (plan.spec_lost()->0).1, made->0, errand))
        };
    assert(errands == merged + plan.astray@);
    assert(errands.take(errands.len() - plan.astray@.len()) =~= merged);
}

/// A desktop that is made is noted last, behind the others in their order; the one that it
/// comes in the place of is not noted any more. Made desktops go behind those listed.
pub proof fn made_desktops_are_noted_in_order(
    stopgaps: Seq<(SpaceId, SpaceId)>,
    gone: SpaceId,
    lost: SpaceId,
    made: SpaceId,
    plan: SettlePlan,
    i: int,
)
    ensures
        stopgaps_with(stopgaps, Some((gone, lost)), Some(made)) == stopgaps.filter(
            |stopgap: (SpaceId, SpaceId)| stopgap.0 != gone,
        ).push((made, lost)),
        0 <= i < plan.on_survivor@.len() ==> plan.order_with(Some(made))[i] == plan.on_survivor@[i],
{
    assert(made_other_than(gone) =~= |stopgap: (SpaceId, SpaceId)| stopgap.0 != gone);
}

/// The visitors come in the order of the displays they are of: one more display adds its
/// desktops behind, unless it is the survivor.
pub proof fn visitors_come_in_order(
    plan: SettlePlan,
    record: DisplayRecord,
    at: int,
    listing: Listing,
    places: Table<WindowId, WindowPlace>,
    displays: Seq<RecordedDisplay>,
    display: RecordedDisplay,
    survivor: Seq<char>,
)
    requires
        is_plan_for(plan, record, at, listing, places),
    ensures
        plan.visitors@ == others_desktops(record.displays@, record.displays@[at].uuid@).filter(
            |space: SpaceId| plan.on_survivor@.contains(space),
        ),
        others_desktops(Seq::empty(), survivor).len() == 0,
        display.uuid@ != survivor ==> others_desktops(displays.push(display), survivor)
            == others_desktops(displays, survivor) + display.desktops@,
        display.uuid@ == survivor ==> others_desktops(displays.push(display), survivor)
            == others_desktops(displays, survivor),
{
    assert(among(plan.on_survivor@) =~= |space: SpaceId| plan.on_survivor@.contains(space));
    assert(displays.push(display).drop_last() =~= displays);
}

} // verus!
