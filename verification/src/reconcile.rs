//! Putting everything back once every display of a record has returned.
//!
//! The record is compared with what the window server reports. Destroyed
//! desktops are paired with the fresh ones minted for the return, strayed
//! desktops and windows are sent back, each desktop's tree is restored unless
//! the user rearranged it, and a desktop made at departure whose windows have
//! somewhere to go is retired.

use vstd::prelude::*;

use crate::clock::Nanos;
use crate::departure::{all_recorded, display_views, recorded_desktops};
use crate::display_record::{DisplayRecord, Pass, RecordedDisplay, Stage};
use crate::ids::{SpaceId, WindowId, WindowServerId};
use crate::layout::LayoutMode;
use crate::lists::{
    append_list, copy_list, drop_listed, holds, lemma_filter_at, lemma_filter_from,
    lemma_filter_holds, lemma_filter_map_holds, lemma_filter_same, not_among, Id, IdSet,
};
use crate::screens::{
    all_listed, all_of, desktops_on, is_on_screen, listed_under, on_screen, shown_by, shown_on,
    Listing, Screen,
};
use crate::settle::{represented, WindowPlace};
use crate::table::{Key, Table};

verus! {

/// Whether the return can be taken up.
#[derive(Clone, Copy, Debug, PartialEq, Eq, Structural)]
pub enum ReturnGate {
    /// A display of the record is still away.
    NotYet,
    /// It has been taken up.
    UnderWay,
    /// The displays came back before the settling was over: that is finished
    /// first.
    FinishFirst,
    Ready,
}

/// Every display of the record is on screen.
pub open spec fn all_back(record: DisplayRecord, screens: Seq<Screen>) -> bool {
    forall|i: int|
        0 <= i < record.displays@.len() ==> on_screen(
            screens,
            (#[trigger] record.displays@[i]).uuid@,
        )
}

/// Whether every display of the record is on screen.
pub fn is_all_back(record: &DisplayRecord, screens: &[Screen]) -> (back: bool)
    ensures
        back == all_back(*record, screens@),
{
    let mut i: usize = 0;
    while i < record.displays.len()
        invariant
            i <= record.displays@.len(),
            forall|j: int|
                0 <= j < i ==> on_screen(screens@, (#[trigger] record.displays@[j]).uuid@),
        decreases record.displays@.len() - i,
    {
        if !is_on_screen(screens, &record.displays[i].uuid) {
            assert(!on_screen(screens@, record.displays@[i as int].uuid@));
            return false;
        }
        i = i + 1;
    }
    true
}

/// Whether the return can be taken up.
pub fn return_gate(record: &DisplayRecord, screens: &[Screen]) -> (gate: ReturnGate)
    ensures
        gate == if !all_back(*record, screens@) {
            ReturnGate::NotYet
        } else {
            match record.pass {
                Some(pass) => match pass.stage {
                    Stage::Back => ReturnGate::UnderWay,
                    Stage::Away => ReturnGate::FinishFirst,
                },
                None => ReturnGate::Ready,
            }
        },
{
    if !is_all_back(record, screens) {
        return ReturnGate::NotYet;
    }
    match &record.pass {
        Some(pass) => match pass.stage {
            Stage::Back => ReturnGate::UnderWay,
            Stage::Away => ReturnGate::FinishFirst,
        },
        None => ReturnGate::Ready,
    }
}

/// What the layout engine and the window server say at the return.
#[derive(Debug)]
pub struct ReturnFacts {
    pub listing: Listing,
    /// Made desktops that an earlier return is done with.
    pub retiring: Vec<SpaceId>,
    pub places: Table<WindowId, WindowPlace>,
    /// Each desktop's windows in layout order.
    pub orders: Table<SpaceId, Vec<WindowId>>,
    /// Each desktop's workspaces' layout modes.
    pub modes: Table<SpaceId, Vec<LayoutMode>>,
}

impl ReturnFacts {
    pub open spec fn wf(&self) -> bool {
        self.listing.wf() && self.places.wf() && self.orders.wf() && self.modes.wf()
    }
}

/// How the recorded desktops appear now.
#[derive(Debug)]
pub struct ReturnPlan {
    /// Every desktop listed.
    pub listed: Vec<SpaceId>,
    /// Destroyed desktops with the fresh ones that replace them.
    pub pairs: Vec<(SpaceId, SpaceId)>,
    /// Listed desktops that the record does not account for.
    pub unknown: Vec<SpaceId>,
    /// Recorded desktops the user rearranged while away.
    pub touched: Vec<SpaceId>,
}

/// The desktops of one recorded display that are listed nowhere.
pub open spec fn destroyed_of(display: RecordedDisplay, listed: Seq<SpaceId>) -> Seq<SpaceId> {
    display.desktops@.filter(not_among(listed))
}

/// Made at departure, for whichever desktop.
pub open spec fn is_made(stopgaps: Seq<(SpaceId, SpaceId)>, space: SpaceId) -> bool {
    exists|i: int| 0 <= i < stopgaps.len() && (#[trigger] stopgaps[i]).0 == space
}

/// Recorded nowhere, not made at departure, and not seen before the return.
pub open spec fn is_fresh(record: DisplayRecord) -> spec_fn(SpaceId) -> bool {
    |space: SpaceId|
        !recorded_desktops(display_views(record.displays@)).contains(space) && !is_made(
            record.stopgaps@,
            space,
        ) && !record.seen@.contains(space)
}

/// The first of `a` with the first of `b`, and so on while both last.
pub open spec fn zipped(a: Seq<SpaceId>, b: Seq<SpaceId>) -> Seq<(SpaceId, SpaceId)> {
    Seq::new(
        if a.len() <= b.len() {
            a.len()
        } else {
            b.len()
        },
        |i: int| (a[i], b[i]),
    )
}

/// The destroyed desktops of the displays, each display's in order with the
/// fresh ones listed on it.
pub open spec fn pairs_for(
    displays: Seq<RecordedDisplay>,
    record: DisplayRecord,
    listing: Listing,
) -> Seq<(SpaceId, SpaceId)>
    decreases displays.len(),
{
    if displays.len() == 0 {
        seq![]
    } else {
        let display = displays.last();
        pairs_for(displays.drop_last(), record, listing) + zipped(
            destroyed_of(display, all_of(listing)),
            listed_under(listing, display.uuid@).filter(is_fresh(record)),
        )
    }
}

/// The fresh desktop that replaces `space`, if one does.
pub open spec fn replacement(pairs: Seq<(SpaceId, SpaceId)>, space: SpaceId) -> Option<SpaceId>
    decreases pairs.len(),
{
    if pairs.len() == 0 {
        None
    } else if pairs.last().0 == space {
        Some(pairs.last().1)
    } else {
        replacement(pairs.drop_last(), space)
    }
}

/// `space` replaces a destroyed desktop.
pub open spec fn is_replacement(pairs: Seq<(SpaceId, SpaceId)>, space: SpaceId) -> bool {
    exists|i: int| 0 <= i < pairs.len() && (#[trigger] pairs[i]).1 == space
}

/// The desktop that the recorded desktop `space` is now: its replacement, else
/// the one made for it at departure, else itself.
pub open spec fn is_now(
    pairs: Seq<(SpaceId, SpaceId)>,
    stopgaps: Seq<(SpaceId, SpaceId)>,
    space: SpaceId,
) -> SpaceId {
    match replacement(pairs, space) {
        Some(fresh) => fresh,
        None => represented(stopgaps, space),
    }
}

/// The desktops listed on the displays of the record.
pub open spec fn listed_on_all(displays: Seq<RecordedDisplay>, listing: Listing) -> Seq<SpaceId>
    decreases displays.len(),
{
    if displays.len() == 0 {
        seq![]
    } else {
        listed_on_all(displays.drop_last(), listing) + listed_under(
            listing,
            displays.last().uuid@,
        )
    }
}

/// Known to nothing: not recorded, replacing nothing, not made at departure
/// and not about to be retired.
pub open spec fn is_unknown(
    record: DisplayRecord,
    pairs: Seq<(SpaceId, SpaceId)>,
    retiring: Seq<SpaceId>,
) -> spec_fn(SpaceId) -> bool {
    |space: SpaceId|
        !recorded_desktops(display_views(record.displays@)).contains(space) && !is_replacement(
            pairs,
            space,
        ) && !is_made(record.stopgaps@, space) && !retiring.contains(space)
}

/// Recorded on the desktop `space`, and on what stands for it now: what the
/// user could have rearranged there.
pub open spec fn counts_on(
    record: DisplayRecord,
    places: Table<WindowId, WindowPlace>,
    space: SpaceId,
) -> spec_fn(WindowId) -> bool {
    |wid: WindowId|
        record.windows.at(wid) == Some(space) && (places.at(wid) matches Some(place)
            && place.actual() == Some(represented(record.stopgaps@, space)))
}

pub open spec fn listed_windows(orders: Table<SpaceId, Vec<WindowId>>, space: SpaceId) -> Seq<
    WindowId,
> {
    match orders.at(space) {
        Some(wids) => wids@,
        None => seq![],
    }
}

pub open spec fn listed_modes(modes: Table<SpaceId, Vec<LayoutMode>>, space: SpaceId) -> Seq<
    LayoutMode,
> {
    match modes.at(space) {
        Some(modes) => modes@,
        None => seq![],
    }
}

/// The user rearranged the recorded desktop `space` while away: its windows,
/// of those that count, are not in the recorded order, or a workspace's layout
/// mode is not the recorded one.
pub open spec fn is_touched(
    record: DisplayRecord,
    facts: ReturnFacts,
    pairs: Seq<(SpaceId, SpaceId)>,
) -> spec_fn(SpaceId) -> bool {
    |space: SpaceId|
        {
            let here = represented(record.stopgaps@, space);
            let counts = counts_on(record, facts.places, space);
            let modes_now = listed_modes(facts.modes, here);
            &&& all_of(facts.listing).contains(is_now(pairs, record.stopgaps@, space))
            &&& {
                ||| listed_windows(record.members, space).filter(counts) != listed_windows(
                    facts.orders,
                    here,
                ).filter(counts)
                ||| record.modes.at(space) matches Some(then) && modes_now.len() > 0 && then@
                    != modes_now
            }
        }
}

/// `plan` is what the record and the facts give.
pub open spec fn is_return_plan(
    plan: ReturnPlan,
    record: DisplayRecord,
    facts: ReturnFacts,
) -> bool {
    let pairs = pairs_for(record.displays@, record, facts.listing);
    &&& plan.listed@ == all_of(facts.listing)
    &&& plan.pairs@ == pairs
    &&& plan.unknown@ == listed_on_all(record.displays@, facts.listing).filter(
        is_unknown(record, pairs, facts.retiring@),
    )
    &&& plan.touched@ == recorded_desktops(display_views(record.displays@)).filter(
        is_touched(record, facts, pairs),
    )
}

fn holds_made(stopgaps: &Vec<(SpaceId, SpaceId)>, space: SpaceId) -> (made: bool)
    ensures
        made == is_made(stopgaps@, space),
{
    let mut i: usize = 0;
    while i < stopgaps.len()
        invariant
            i <= stopgaps@.len(),
            forall|j: int| 0 <= j < i ==> (#[trigger] stopgaps@[j]).0 != space,
        decreases stopgaps@.len() - i,
    {
        if stopgaps[i].0 == space {
            assert(stopgaps@[i as int].0 == space);
            return true;
        }
        i = i + 1;
    }
    false
}

fn find_fresh(
    record: &DisplayRecord,
    recorded: &Vec<SpaceId>,
    listed: &Vec<SpaceId>,
) -> (fresh: Vec<SpaceId>)
    requires
        recorded@ == recorded_desktops(display_views(record.displays@)),
    ensures
        fresh@ == listed@.filter(is_fresh(*record)),
{
    let mut fresh: Vec<SpaceId> = Vec::new();
    let mut i: usize = 0;
    while i < listed.len()
        invariant
            recorded@ == recorded_desktops(display_views(record.displays@)),
            i <= listed@.len(),
            fresh@ == listed@.take(i as int).filter(is_fresh(*record)),
        decreases listed@.len() - i,
    {
        proof {
            assert(listed@.take(i + 1) =~= listed@.take(i as int).push(listed@[i as int]));
            listed@.take(i as int).lemma_filter_push(listed@[i as int], is_fresh(*record));
        }
        let space = listed[i];
        if !holds(recorded.as_slice(), space) && !holds_made(&record.stopgaps, space)
            && !record.seen.contains(space) {
            fresh.push(space);
        }
        i = i + 1;
    }
    assert(listed@.take(i as int) =~= listed@);
    fresh
}

fn find_pairs(
    record: &DisplayRecord,
    recorded: &Vec<SpaceId>,
    listed: &Vec<SpaceId>,
    listing: &Listing,
) -> (pairs: Vec<(SpaceId, SpaceId)>)
    requires
        listing.wf(),
        listed@ == all_of(*listing),
        recorded@ == recorded_desktops(display_views(record.displays@)),
    ensures
        pairs@ == pairs_for(record.displays@, *record, *listing),
{
    let mut pairs: Vec<(SpaceId, SpaceId)> = Vec::new();
    let mut i: usize = 0;
    while i < record.displays.len()
        invariant
            listing.wf(),
            listed@ == all_of(*listing),
            recorded@ == recorded_desktops(display_views(record.displays@)),
            i <= record.displays@.len(),
            pairs@ == pairs_for(record.displays@.take(i as int), *record, *listing),
        decreases record.displays@.len() - i,
    {
        let destroyed = drop_listed(record.displays[i].desktops.as_slice(), listed.as_slice());
        let here = desktops_on(listing, &record.displays[i].uuid);
        let fresh = find_fresh(record, recorded, &here);
        let ghost before = pairs@;
        let ghost zip = zipped(destroyed@, fresh@);
        let mut j: usize = 0;
        assert(before + zip.take(0) =~= before);
        while j < destroyed.len() && j < fresh.len()
            invariant
                zip == zipped(destroyed@, fresh@),
                j <= zip.len(),
                pairs@ == before + zip.take(j as int),
            decreases destroyed@.len() - j,
        {
            pairs.push((destroyed[j], fresh[j]));
            assert(before + zip.take(j + 1) =~= (before + zip.take(j as int)).push(zip[j as int]));
            j = j + 1;
        }
        proof {
            assert(zip.take(j as int) =~= zip);
            let next = record.displays@.take(i + 1);
            assert(next.drop_last() =~= record.displays@.take(i as int));
            assert(next.last() == record.displays@[i as int]);
        }
        i = i + 1;
    }
    assert(record.displays@.take(i as int) =~= record.displays@);
    pairs
}

/// The fresh desktop that replaces `space`, if one does.
pub fn find_replacement(pairs: &Vec<(SpaceId, SpaceId)>, space: SpaceId) -> (fresh: Option<SpaceId>)
    ensures
        fresh == replacement(pairs@, space),
{
    let mut i: usize = pairs.len();
    assert(pairs@.take(i as int) =~= pairs@);
    while i > 0
        invariant
            i <= pairs@.len(),
            replacement(pairs@, space) == replacement(pairs@.take(i as int), space),
        decreases i,
    {
        assert(pairs@.take(i as int).drop_last() =~= pairs@.take(i - 1));
        i = i - 1;
        if pairs[i].0 == space {
            return Some(pairs[i].1);
        }
    }
    None
}

fn holds_replacement(pairs: &Vec<(SpaceId, SpaceId)>, space: SpaceId) -> (held: bool)
    ensures
        held == is_replacement(pairs@, space),
{
    let mut i: usize = 0;
    while i < pairs.len()
        invariant
            i <= pairs@.len(),
            forall|j: int| 0 <= j < i ==> (#[trigger] pairs@[j]).1 != space,
        decreases pairs@.len() - i,
    {
        if pairs[i].1 == space {
            assert(pairs@[i as int].1 == space);
            return true;
        }
        i = i + 1;
    }
    false
}

impl ReturnPlan {
    /// The desktop that the recorded desktop `space` is now.
    pub fn now(&self, record: &DisplayRecord, space: SpaceId) -> (here: SpaceId)
        ensures
            here == is_now(self.pairs@, record.stopgaps@, space),
    {
        match find_replacement(&self.pairs, space) {
            Some(fresh) => fresh,
            None => match record.stopgap_for(space) {
                Some(made) => made,
                None => space,
            },
        }
    }
}

fn find_unknown(
    record: &DisplayRecord,
    recorded: &Vec<SpaceId>,
    pairs: &Vec<(SpaceId, SpaceId)>,
    facts: &ReturnFacts,
) -> (unknown: Vec<SpaceId>)
    requires
        facts.wf(),
        recorded@ == recorded_desktops(display_views(record.displays@)),
    ensures
        unknown@ == listed_on_all(record.displays@, facts.listing).filter(
            is_unknown(*record, pairs@, facts.retiring@),
        ),
{
    let mut here: Vec<SpaceId> = Vec::new();
    let mut i: usize = 0;
    while i < record.displays.len()
        invariant
            facts.wf(),
            i <= record.displays@.len(),
            here@ == listed_on_all(record.displays@.take(i as int), facts.listing),
        decreases record.displays@.len() - i,
    {
        let more = desktops_on(&facts.listing, &record.displays[i].uuid);
        append_list(&mut here, more.as_slice());
        proof {
            let next = record.displays@.take(i + 1);
            assert(next.drop_last() =~= record.displays@.take(i as int));
            assert(next.last() == record.displays@[i as int]);
        }
        i = i + 1;
    }
    assert(record.displays@.take(i as int) =~= record.displays@);
    let mut unknown: Vec<SpaceId> = Vec::new();
    let ghost p = is_unknown(*record, pairs@, facts.retiring@);
    let mut i: usize = 0;
    while i < here.len()
        invariant
            recorded@ == recorded_desktops(display_views(record.displays@)),
            p == is_unknown(*record, pairs@, facts.retiring@),
            i <= here@.len(),
            unknown@ == here@.take(i as int).filter(p),
        decreases here@.len() - i,
    {
        proof {
            assert(here@.take(i + 1) =~= here@.take(i as int).push(here@[i as int]));
            here@.take(i as int).lemma_filter_push(here@[i as int], p);
        }
        let space = here[i];
        if !holds(recorded.as_slice(), space) && !holds_replacement(pairs, space) && !holds_made(
            &record.stopgaps,
            space,
        ) && !holds(facts.retiring.as_slice(), space) {
            unknown.push(space);
        }
        i = i + 1;
    }
    assert(here@.take(i as int) =~= here@);
    unknown
}

fn find_counting(
    record: &DisplayRecord,
    places: &Table<WindowId, WindowPlace>,
    space: SpaceId,
    wids: &[WindowId],
) -> (counting: Vec<WindowId>)
    requires
        record.wf(),
        places.wf(),
    ensures
        counting@ == wids@.filter(counts_on(*record, *places, space)),
{
    let here = match record.stopgap_for(space) {
        Some(made) => made,
        None => space,
    };
    let ghost p = counts_on(*record, *places, space);
    let mut counting: Vec<WindowId> = Vec::new();
    let mut i: usize = 0;
    while i < wids.len()
        invariant
            record.wf(),
            places.wf(),
            here == represented(record.stopgaps@, space),
            p == counts_on(*record, *places, space),
            i <= wids@.len(),
            counting@ == wids@.take(i as int).filter(p),
        decreases wids@.len() - i,
    {
        proof {
            assert(wids@.take(i + 1) =~= wids@.take(i as int).push(wids@[i as int]));
            wids@.take(i as int).lemma_filter_push(wids@[i as int], p);
        }
        let wid = wids[i];
        let recorded = match record.windows.get(&wid) {
            Some(there) => *there == space,
            None => false,
        };
        let on_it = match places.get(&wid) {
            Some(place) => match place.actual() {
                Some(there) => there == here,
                None => false,
            },
            None => false,
        };
        if recorded && on_it {
            counting.push(wid);
        }
        i = i + 1;
    }
    assert(wids@.take(i as int) =~= wids@);
    counting
}

/// Whether two lists are the same.
pub fn same_list<T: Id>(a: &[T], b: &[T]) -> (same: bool)
    ensures
        same == (a@ == b@),
{
    if a.len() != b.len() {
        return false;
    }
    let mut i: usize = 0;
    while i < a.len()
        invariant
            a@.len() == b@.len(),
            i <= a@.len(),
            forall|j: int| 0 <= j < i ==> a@[j] == b@[j],
        decreases a@.len() - i,
    {
        if !a[i].is(&b[i]) {
            assert(a@[i as int] != b@[i as int]);
            return false;
        }
        i = i + 1;
    }
    assert(a@ =~= b@);
    true
}

fn check_touched(
    record: &DisplayRecord,
    facts: &ReturnFacts,
    plan: &ReturnPlan,
    space: SpaceId,
) -> (touched: bool)
    requires
        record.wf(),
        facts.wf(),
        plan.listed@ == all_of(facts.listing),
    ensures
        touched == is_touched(*record, *facts, plan.pairs@)(space),
{
    let here = match record.stopgap_for(space) {
        Some(made) => made,
        None => space,
    };
    let now = plan.now(record, space);
    if !holds(plan.listed.as_slice(), now) {
        return false;
    }
    let none: Vec<WindowId> = Vec::new();
    let then = match record.members.get(&space) {
        Some(wids) => find_counting(record, &facts.places, space, wids.as_slice()),
        None => find_counting(record, &facts.places, space, none.as_slice()),
    };
    let today = match facts.orders.get(&here) {
        Some(wids) => find_counting(record, &facts.places, space, wids.as_slice()),
        None => find_counting(record, &facts.places, space, none.as_slice()),
    };
    assert(none@ =~= Seq::<WindowId>::empty());
    if !same_list(then.as_slice(), today.as_slice()) {
        return true;
    }
    match (record.modes.get(&space), facts.modes.get(&here)) {
        (Some(then), Some(today)) => today.len() > 0 && !same_list(
            then.as_slice(),
            today.as_slice(),
        ),
        _ => false,
    }
}

/// How the recorded desktops appear now.
pub fn plan_return(record: &DisplayRecord, facts: &ReturnFacts) -> (plan: ReturnPlan)
    requires
        record.wf(),
        facts.wf(),
    ensures
        is_return_plan(plan, *record, *facts),
{
    let listed = all_listed(&facts.listing);
    let recorded = all_recorded(&record.displays);
    let pairs = find_pairs(record, &recorded, &listed, &facts.listing);
    let unknown = find_unknown(record, &recorded, &pairs, facts);
    let mut plan = ReturnPlan { listed, pairs, unknown, touched: Vec::new() };
    let ghost p = is_touched(*record, *facts, plan.pairs@);
    let ghost begun = plan;
    let mut touched: Vec<SpaceId> = Vec::new();
    let mut i: usize = 0;
    while i < recorded.len()
        invariant
            record.wf(),
            facts.wf(),
            plan == begun,
            plan.listed@ == all_of(facts.listing),
            p == is_touched(*record, *facts, plan.pairs@),
            i <= recorded@.len(),
            touched@ == recorded@.take(i as int).filter(p),
        decreases recorded@.len() - i,
    {
        proof {
            assert(recorded@.take(i + 1) =~= recorded@.take(i as int).push(recorded@[i as int]));
            recorded@.take(i as int).lemma_filter_push(recorded@[i as int], p);
        }
        if check_touched(record, facts, &plan, recorded[i]) {
            touched.push(recorded[i]);
        }
        i = i + 1;
    }
    assert(recorded@.take(i as int) =~= recorded@);
    plan.touched = touched;
    plan
}

/// The trees to move: each destroyed desktop's, from where it is kept, onto the
/// desktop that replaces it.
pub open spec fn remaps_for(
    pairs: Seq<(SpaceId, SpaceId)>,
    stopgaps: Seq<(SpaceId, SpaceId)>,
) -> spec_fn((SpaceId, SpaceId)) -> Option<(SpaceId, SpaceId)> {
    |pair: (SpaceId, SpaceId)|
        if replacement(pairs, pair.0) == Some(pair.1) {
            Some((represented(stopgaps, pair.0), pair.1))
        } else {
            None
        }
}

/// The trees to move onto the desktops that replace destroyed ones, before any
/// window is looked at.
pub fn return_remaps(plan: &ReturnPlan, record: &DisplayRecord) -> (remaps: Vec<(SpaceId, SpaceId)>)
    ensures
        remaps@ == plan.pairs@.filter_map(remaps_for(plan.pairs@, record.stopgaps@)),
{
    let mut remaps: Vec<(SpaceId, SpaceId)> = Vec::new();
    let ghost f = remaps_for(plan.pairs@, record.stopgaps@);
    let mut i: usize = 0;
    while i < plan.pairs.len()
        invariant
            f == remaps_for(plan.pairs@, record.stopgaps@),
            i <= plan.pairs@.len(),
            remaps@ == plan.pairs@.take(i as int).filter_map(f),
        decreases plan.pairs@.len() - i,
    {
        proof {
            plan.pairs@.lemma_filter_map_take_succ(f, i as int);
        }
        let (old, new) = plan.pairs[i];
        let effective = match find_replacement(&plan.pairs, old) {
            Some(fresh) => fresh == new,
            None => false,
        };
        if effective {
            let from = match record.stopgap_for(old) {
                Some(made) => made,
                None => old,
            };
            remaps.push((from, new));
        }
        assert(remaps@ =~= plan.pairs@.take(i + 1).filter_map(f));
        i = i + 1;
    }
    assert(plan.pairs@.take(i as int) =~= plan.pairs@);
    remaps
}

/// Sending one display's desktops back to it, each behind the previous. As
/// with other moves of desktops, the window server answers each.
#[derive(Debug)]
pub struct DisplayWalk {
    /// The desktops the display is to have, in order.
    pub desired: Vec<SpaceId>,
    /// Every desktop listed, and those on this display.
    pub listed: Vec<SpaceId>,
    pub here: Vec<SpaceId>,
    /// The desktop the display shows.
    pub shown: Option<SpaceId>,
    pub next: usize,
    /// The last one dealt with that is on the display.
    pub anchor: Option<SpaceId>,
}

/// How far a walk comes without a move: how many are dealt with, and the last
/// of them that is on the display.
pub open spec fn without_move(walk: DisplayWalk, next: int, anchor: Option<SpaceId>) -> (
    int,
    Option<SpaceId>,
)
    decreases walk.desired@.len() - next,
{
    if next < 0 || next >= walk.desired@.len() {
        (next, anchor)
    } else {
        let space = walk.desired@[next];
        if !walk.listed@.contains(space) {
            without_move(walk, next + 1, anchor)
        } else if walk.here@.contains(space) {
            without_move(walk, next + 1, Some(space))
        } else if anchor is None && walk.shown is None {
            without_move(walk, next + 1, anchor)
        } else {
            (next, anchor)
        }
    }
}

impl DisplayWalk {
    pub open spec fn wf(&self) -> bool {
        self.next <= self.desired@.len()
    }

    /// What the next move goes behind.
    pub open spec fn spec_after(&self) -> Option<SpaceId> {
        match self.anchor {
            Some(space) => Some(space),
            None => self.shown,
        }
    }

    /// The next move to ask for: which desktop, and behind which.
    pub fn step(&mut self) -> (asked: Option<(SpaceId, SpaceId)>)
        requires
            old(self).wf(),
        ensures
            final(self).wf(),
            *final(self) == (DisplayWalk {
                next: final(self).next,
                anchor: final(self).anchor,
                ..*old(self)
            }),
            (final(self).next as int, final(self).anchor) == without_move(
                *old(self),
                old(self).next as int,
                old(self).anchor,
            ),
            match asked {
                Some((space, after)) => final(self).next < final(self).desired@.len() && space
                    == final(self).desired@[final(self).next as int]
                        && final(self).listed@.contains(space)
                        && !final(self).here@.contains(space) && Some(after)
                    == final(self).spec_after(),
                None => final(self).next == final(self).desired@.len(),
            },
    {
        let ghost begun = *self;
        while self.next < self.desired.len()
            invariant
                begun == *old(self),
                self.wf(),
                *self == (DisplayWalk { next: self.next, anchor: self.anchor, ..begun }),
                without_move(begun, begun.next as int, begun.anchor) == without_move(
                    begun,
                    self.next as int,
                    self.anchor,
                ),
            decreases self.desired@.len() - self.next,
        {
            let space = self.desired[self.next];
            if holds(self.listed.as_slice(), space) {
                if holds(self.here.as_slice(), space) {
                    self.anchor = Some(space);
                } else {
                    match self.anchor {
                        Some(after) => {
                            return Some((space, after));
                        },
                        None => match self.shown {
                            Some(after) => {
                                return Some((space, after));
                            },
                            None => {},
                        },
                    }
                }
            }
            self.next = self.next + 1;
        }
        None
    }

    /// The answer to the move that `step` asked for last.
    pub fn moved(&mut self, accepted: bool)
        requires
            old(self).next < old(self).desired@.len(),
        ensures
            final(self).wf(),
            *final(self) == (DisplayWalk {
                next: final(self).next,
                anchor: if accepted {
                    Some(old(self).desired@[old(self).next as int])
                } else {
                    old(self).anchor
                },
                ..*old(self)
            }),
            final(self).next == old(self).next + 1,
    {
        assert(self.next < self.desired.len());
        if accepted {
            self.anchor = Some(self.desired[self.next]);
        }
        self.next = self.next + 1;
    }
}

/// The desktops as they are now of the recorded ones.
pub open spec fn all_now(
    pairs: Seq<(SpaceId, SpaceId)>,
    stopgaps: Seq<(SpaceId, SpaceId)>,
    recorded: Seq<SpaceId>,
) -> Seq<SpaceId> {
    Seq::new(recorded.len(), |i: int| is_now(pairs, stopgaps, recorded[i]))
}

/// What the display at `at` is to have: its recorded desktops as they are now,
/// and, if it is the one that stayed, whatever nothing accounts for.
pub open spec fn desired_on(plan: ReturnPlan, record: DisplayRecord, at: int) -> Seq<SpaceId> {
    let display = record.displays@[at];
    let own = all_now(plan.pairs@, record.stopgaps@, display.desktops@);
    if display.uuid@ == record.survivor@ {
        own + plan.unknown@
    } else {
        own
    }
}

fn map_now(plan: &ReturnPlan, record: &DisplayRecord, recorded: &Vec<SpaceId>) -> (now: Vec<SpaceId>)
    ensures
        now@ == all_now(plan.pairs@, record.stopgaps@, recorded@),
{
    let mut now: Vec<SpaceId> = Vec::new();
    let ghost all = all_now(plan.pairs@, record.stopgaps@, recorded@);
    let mut i: usize = 0;
    while i < recorded.len()
        invariant
            all == all_now(plan.pairs@, record.stopgaps@, recorded@),
            i <= recorded@.len(),
            now@ == all.take(i as int),
        decreases recorded@.len() - i,
    {
        now.push(plan.now(record, recorded[i]));
        assert(now@ =~= all.take(i + 1));
        i = i + 1;
    }
    assert(all.take(i as int) =~= all);
    now
}

/// The walk for the display at `at`, by what is listed before it.
pub fn return_walk(
    plan: &ReturnPlan,
    record: &DisplayRecord,
    at: usize,
    listing: &Listing,
    screens: &[Screen],
) -> (walk: DisplayWalk)
    requires
        at < record.displays@.len(),
        listing.wf(),
    ensures
        walk.wf(),
        walk.next == 0,
        walk.anchor is None,
        walk.desired@ == desired_on(*plan, *record, at as int),
        walk.listed@ == plan.listed@,
        walk.here@ == listed_under(*listing, record.displays@[at as int].uuid@),
        walk.shown == shown_by(screens@, record.displays@[at as int].uuid@),
{
    let mut desired = map_now(plan, record, &record.displays[at].desktops);
    if record.displays[at].uuid == record.survivor {
        append_list(&mut desired, plan.unknown.as_slice());
    }
    DisplayWalk {
        desired,
        listed: copy_list(plan.listed.as_slice()),
        here: desktops_on(listing, &record.displays[at].uuid),
        shown: shown_on(screens, &record.displays[at].uuid),
        next: 0,
        anchor: None,
    }
}

/// The listing once `space` was moved to the display `uuid`: taken off every
/// display, and last on that one.
pub open spec fn carried_to(
    before: Listing,
    after: Listing,
    uuid: Seq<char>,
    space: SpaceId,
) -> bool {
    &&& after.wf()
    &&& forall|other: Seq<char>| #[trigger]
        listed_under(after, other) == if other == uuid {
            listed_under(before, other).filter(not_among(seq![space])).push(space)
        } else {
            listed_under(before, other).filter(not_among(seq![space]))
        }
}

/// Enters that `space` was moved to the display `uuid`.
pub fn carry_over(listing: &mut Listing, uuid: &String, space: SpaceId)
    requires
        old(listing).wf(),
    ensures
        carried_to(*old(listing), *final(listing), uuid@, space),
{
    let mut one: Vec<SpaceId> = Vec::new();
    one.push(space);
    assert(one@ =~= seq![space]);
    let mut after: Listing = Table::new();
    let mut i: usize = 0;
    assert(seq![].filter(not_among(seq![space])) =~= Seq::<SpaceId>::empty());
    while i < listing.entries.len()
        invariant
            listing.wf(),
            *listing == *old(listing),
            after.wf(),
            one@ == seq![space],
            i <= listing.entries@.len(),
            forall|x: int|
                0 <= x < i ==> after.at((#[trigger] listing.entries@[x]).0@) is Some
                    && listed_under(after, listing.entries@[x].0@)
                    == listing.entries@[x].1@.filter(not_among(seq![space])),
            forall|other: Seq<char>|
                #![trigger after.at(other)]
                after.at(other) is Some ==> exists|x: int|
                    0 <= x < i && (#[trigger] listing.entries@[x]).0@ == other,
        decreases listing.entries@.len() - i,
    {
        let rest = drop_listed(listing.entries[i].1.as_slice(), one.as_slice());
        let name = listing.entries[i].0.clone();
        let ghost before = after;
        after.insert(name, rest);
        proof {
            assert forall|x: int| 0 <= x < i + 1 implies after.at(
                (#[trigger] listing.entries@[x]).0@,
            ) is Some && listed_under(after, listing.entries@[x].0@)
                == listing.entries@[x].1@.filter(not_among(seq![space])) by {
                if x < i {
                    assert(listing.entries@[x].0.model() != listing.entries@[i as int].0.model());
                    assert(before.at(listing.entries@[x].0@) is Some);
                    assert(after.at(listing.entries@[x].0@) == before.at(
                        listing.entries@[x].0@,
                    ));
                }
            }
            assert forall|other: Seq<char>|
                #![trigger after.at(other)]
                after.at(other) is Some implies exists|x: int|
                0 <= x < i + 1 && (#[trigger] listing.entries@[x]).0@ == other by {
                if other == name@ {
                    assert(0 <= i < i + 1 && listing.entries@[i as int].0@ == other);
                } else {
                    assert(before.at(other) is Some);
                    let x = choose|x: int|
                        0 <= x < i && (#[trigger] listing.entries@[x]).0@ == other;
                    assert(0 <= x < i + 1 && listing.entries@[x].0@ == other);
                }
            }
        }
        i = i + 1;
    }
    proof {
        assert forall|other: Seq<char>| #[trigger]
            listed_under(after, other) == listed_under(*listing, other).filter(
                not_among(seq![space]),
            ) by {
            if listing.at(other) is Some {
                let x = listing.index_of(other);
                assert(listing.has_at(x, other));
                listing.lemma_at(x);
                assert(after.at(listing.entries@[x].0@) is Some);
            } else if after.at(other) is Some {
                let x = choose|x: int|
                    0 <= x < i && (#[trigger] listing.entries@[x]).0@ == other;
                listing.lemma_at(x);
            }
        }
    }
    let ghost emptied = after;
    let mut here = desktops_on(&after, uuid);
    here.push(space);
    after.insert(uuid.clone(), here);
    proof {
        assert forall|other: Seq<char>| #[trigger]
            listed_under(after, other) == if other == uuid@ {
                listed_under(*listing, other).filter(not_among(seq![space])).push(space)
            } else {
                listed_under(*listing, other).filter(not_among(seq![space]))
            } by {
            assert(listed_under(emptied, other) == listed_under(*listing, other).filter(
                not_among(seq![space]),
            ));
        }
    }
    *listing = after;
}

/// What a window of the record needs at the return.
#[derive(Clone, Copy, Debug, PartialEq, Eq, Structural)]
pub enum WindowStep {
    /// It is where it belongs, or cannot be brought there.
    Nothing,
    /// The window server has it where it belongs, and no report will come: it
    /// is assigned there, and waited for if that fails.
    Assign(SpaceId),
    /// The window server has it where it belongs, and the report of its move is
    /// waited for.
    Wait(SpaceId),
    /// It is sent where it belongs, and waited for.
    Send(WindowServerId, SpaceId),
}

/// What the window `wid` needs.
pub open spec fn step_for(
    plan: ReturnPlan,
    record: DisplayRecord,
    places: Table<WindowId, WindowPlace>,
    wid: WindowId,
) -> WindowStep {
    match (record.wants(wid), places.at(wid)) {
        (Some(then), Some(place)) => {
            let desired = is_now(plan.pairs@, record.stopgaps@, then);
            if !plan.listed@.contains(desired) {
                WindowStep::Nothing
            } else if place.actual() == Some(desired) {
                if place.assigned is None {
                    WindowStep::Assign(desired)
                } else if place.assigned != Some(desired) {
                    WindowStep::Wait(desired)
                } else {
                    WindowStep::Nothing
                }
            } else {
                match place.sys_id {
                    Some(sys_id) => WindowStep::Send(sys_id, desired),
                    None => WindowStep::Nothing,
                }
            }
        },
        _ => WindowStep::Nothing,
    }
}

/// What the window `wid` needs.
pub fn window_step(
    plan: &ReturnPlan,
    record: &DisplayRecord,
    places: &Table<WindowId, WindowPlace>,
    wid: WindowId,
) -> (step: WindowStep)
    requires
        record.wf(),
        places.wf(),
    ensures
        step == step_for(*plan, *record, *places, wid),
{
    let then = match record.desired(wid) {
        Some(then) => then,
        None => {
            return WindowStep::Nothing;
        },
    };
    let desired = plan.now(record, then);
    let place = match places.get(&wid) {
        Some(place) => place,
        None => {
            return WindowStep::Nothing;
        },
    };
    if !holds(plan.listed.as_slice(), desired) {
        return WindowStep::Nothing;
    }
    let there = match place.actual() {
        Some(space) => space == desired,
        None => false,
    };
    if there {
        return match place.assigned {
            None => WindowStep::Assign(desired),
            Some(space) => if space == desired {
                WindowStep::Nothing
            } else {
                WindowStep::Wait(desired)
            },
        };
    }
    match place.sys_id {
        Some(sys_id) => WindowStep::Send(sys_id, desired),
        None => WindowStep::Nothing,
    }
}

/// The windows that a record files, each once.
fn filed_windows(record: &DisplayRecord) -> (wids: IdSet<WindowId>)
    requires
        record.wf(),
    ensures
        wids.wf(),
        forall|wid: WindowId| #[trigger] wids@.contains(wid) <==> record.wants(wid) is Some,
{
    let mut wids: IdSet<WindowId> = IdSet::new();
    let ghost filed = record.windows.entries@;
    let ghost placed = record.placed.entries@;
    let mut i: usize = 0;
    while i < record.windows.entries.len()
        invariant
            filed == record.windows.entries@,
            i <= filed.len(),
            wids.wf(),
            forall|wid: WindowId| #[trigger]
                wids@.contains(wid) <==> exists|x: int|
                    0 <= x < i && (#[trigger] filed[x]).0 == wid,
        decreases filed.len() - i,
    {
        let ghost before = wids@;
        let _ = wids.insert(record.windows.entries[i].0);
        proof {
            assert forall|wid: WindowId| #[trigger]
                wids@.contains(wid) <==> exists|x: int|
                    0 <= x < i + 1 && (#[trigger] filed[x]).0 == wid by {
                if before.contains(wid) {
                    let x = choose|x: int| 0 <= x < i && (#[trigger] filed[x]).0 == wid;
                    assert(0 <= x < i + 1 && filed[x].0 == wid);
                }
                if wid == filed[i as int].0 {
                    assert(0 <= i < i + 1 && filed[i as int].0 == wid);
                }
            }
        }
        i = i + 1;
    }
    let mut j: usize = 0;
    while j < record.placed.entries.len()
        invariant
            placed == record.placed.entries@,
            j <= placed.len(),
            wids.wf(),
            forall|wid: WindowId| #[trigger]
                wids@.contains(wid) <==> (exists|x: int|
                    0 <= x < filed.len() && (#[trigger] filed[x]).0 == wid) || (exists|x: int|
                    0 <= x < j && (#[trigger] placed[x]).0 == wid),
        decreases placed.len() - j,
    {
        let ghost before = wids@;
        let _ = wids.insert(record.placed.entries[j].0);
        proof {
            assert forall|wid: WindowId| #[trigger]
                wids@.contains(wid) <==> (exists|x: int|
                    0 <= x < filed.len() && (#[trigger] filed[x]).0 == wid) || (exists|x: int|
                    0 <= x < j + 1 && (#[trigger] placed[x]).0 == wid) by {
                if exists|x: int| 0 <= x < j && (#[trigger] placed[x]).0 == wid {
                    let x = choose|x: int| 0 <= x < j && (#[trigger] placed[x]).0 == wid;
                    assert(0 <= x < j + 1 && placed[x].0 == wid);
                }
                if wid == placed[j as int].0 {
                    assert(0 <= j < j + 1 && placed[j as int].0 == wid);
                }
            }
        }
        j = j + 1;
    }
    proof {
        assert forall|wid: WindowId| #[trigger]
            wids@.contains(wid) <==> record.wants(wid) is Some by {
            if exists|x: int| 0 <= x < filed.len() && (#[trigger] filed[x]).0 == wid {
                let x = choose|x: int| 0 <= x < filed.len() && (#[trigger] filed[x]).0 == wid;
                record.windows.lemma_at(x);
            }
            if exists|x: int| 0 <= x < placed.len() && (#[trigger] placed[x]).0 == wid {
                let x = choose|x: int| 0 <= x < placed.len() && (#[trigger] placed[x]).0 == wid;
                record.placed.lemma_at(x);
            }
            if record.placed.at(wid) is Some {
                let x = record.placed.index_of(wid);
                assert(record.placed.has_at(x, wid));
                assert(placed[x].0 == wid);
            } else if record.windows.at(wid) is Some {
                let x = record.windows.index_of(wid);
                assert(record.windows.has_at(x, wid));
                assert(filed[x].0 == wid);
            }
        }
    }
    wids
}

/// Each window is there once, with what it needs.
pub open spec fn steps_once(steps: Seq<(WindowId, WindowStep)>) -> bool {
    forall|i: int, j: int|
        0 <= i < j < steps.len() ==> (#[trigger] steps[i]).0 != (#[trigger] steps[j]).0
}

/// What every window of the record needs; those that need nothing are left out.
pub fn return_steps(
    plan: &ReturnPlan,
    record: &DisplayRecord,
    places: &Table<WindowId, WindowPlace>,
) -> (steps: Vec<(WindowId, WindowStep)>)
    requires
        record.wf(),
        places.wf(),
    ensures
        steps_once(steps@),
        forall|wid: WindowId, step: WindowStep| #[trigger]
            steps@.contains((wid, step)) <==> step != WindowStep::Nothing && step == step_for(
                *plan,
                *record,
                *places,
                wid,
            ),
{
    let wids = filed_windows(record);
    let mut steps: Vec<(WindowId, WindowStep)> = Vec::new();
    let mut i: usize = 0;
    while i < wids.items.len()
        invariant
            record.wf(),
            places.wf(),
            wids.wf(),
            i <= wids.items@.len(),
            steps_once(steps@),
            forall|x: int|
                0 <= x < steps@.len() ==> (#[trigger] steps@[x]).1 != WindowStep::Nothing
                    && steps@[x].1 == step_for(*plan, *record, *places, steps@[x].0)
                    && wids.items@.take(i as int).contains(steps@[x].0),
            forall|y: int|
                0 <= y < i && step_for(*plan, *record, *places, #[trigger] wids.items@[y])
                    != WindowStep::Nothing ==> steps@.contains(
                    (wids.items@[y], step_for(*plan, *record, *places, wids.items@[y])),
                ),
        decreases wids.items@.len() - i,
    {
        let wid = wids.items[i];
        let step = window_step(plan, record, places, wid);
        let ghost before = steps@;
        let nothing = match step {
            WindowStep::Nothing => true,
            _ => false,
        };
        if !nothing {
            proof {
                assert forall|x: int| 0 <= x < before.len() implies (#[trigger] before[x]).0
                    != wid by {
                    if before[x].0 == wid {
                        let y = choose|y: int|
                            0 <= y < i && wids.items@.take(i as int)[y] == before[x].0;
                        assert(wids.items@[y] == wids.items@[i as int]);
                    }
                }
            }
            steps.push((wid, step));
        }
        proof {
            let next = wids.items@.take(i + 1);
            assert(next[i as int] == wid);
            assert forall|x: int| 0 <= x < steps@.len() implies (#[trigger] steps@[x]).1
                != WindowStep::Nothing && steps@[x].1 == step_for(
                *plan,
                *record,
                *places,
                steps@[x].0,
            ) && next.contains(steps@[x].0) by {
                if x < before.len() {
                    assert(steps@[x] == before[x]);
                    let y = choose|y: int|
                        0 <= y < i && wids.items@.take(i as int)[y] == before[x].0;
                    assert(next[y] == before[x].0);
                }
            }
            assert forall|y: int|
                0 <= y < i + 1 && step_for(*plan, *record, *places, #[trigger] wids.items@[y])
                    != WindowStep::Nothing implies steps@.contains(
                (wids.items@[y], step_for(*plan, *record, *places, wids.items@[y])),
            ) by {
                let entry = (wids.items@[y], step_for(*plan, *record, *places, wids.items@[y]));
                if y < i {
                    assert(before.contains(entry));
                    let x = choose|x: int| 0 <= x < before.len() && before[x] == entry;
                    assert(steps@[x] == entry);
                } else {
                    assert(steps@[before.len() as int] == entry);
                }
            }
        }
        i = i + 1;
    }
    proof {
        assert forall|wid: WindowId, step: WindowStep| #[trigger]
            steps@.contains((wid, step)) <==> step != WindowStep::Nothing && step == step_for(
                *plan,
                *record,
                *places,
                wid,
            ) by {
            if steps@.contains((wid, step)) {
                let x = choose|x: int| 0 <= x < steps@.len() && steps@[x] == (wid, step);
                assert(steps@[x].0 == wid);
            }
            if step != WindowStep::Nothing && step == step_for(*plan, *record, *places, wid) {
                assert(wids@.contains(wid));
                let y = choose|y: int| 0 <= y < wids.items@.len() && wids.items@[y] == wid;
                assert(wids.items@[y] == wid);
            }
        }
    }
    steps
}

/// The desktop the display at `at` is to be switched back to: the one it was
/// showing, as it is now, if the display lists it and does not show it.
pub open spec fn focus_on(
    plan: ReturnPlan,
    record: DisplayRecord,
    listing: Listing,
    screens: Seq<Screen>,
) -> spec_fn(RecordedDisplay) -> Option<SpaceId> {
    |display: RecordedDisplay|
        match display.shown {
            Some(then) => {
                let shown = is_now(plan.pairs@, record.stopgaps@, then);
                if listed_under(listing, display.uuid@).contains(shown) && shown_by(
                    screens,
                    display.uuid@,
                ) != Some(shown) {
                    Some(shown)
                } else {
                    None
                }
            },
            None => None,
        }
}

/// The desktops to switch displays back to, by what is listed once desktops
/// have been sent back.
pub fn return_focus(
    plan: &ReturnPlan,
    record: &DisplayRecord,
    listing: &Listing,
    screens: &[Screen],
) -> (spaces: Vec<SpaceId>)
    requires
        listing.wf(),
    ensures
        spaces@ == record.displays@.filter_map(focus_on(*plan, *record, *listing, screens@)),
{
    let mut spaces: Vec<SpaceId> = Vec::new();
    let ghost f = focus_on(*plan, *record, *listing, screens@);
    let mut i: usize = 0;
    while i < record.displays.len()
        invariant
            listing.wf(),
            f == focus_on(*plan, *record, *listing, screens@),
            i <= record.displays@.len(),
            spaces@ == record.displays@.take(i as int).filter_map(f),
        decreases record.displays@.len() - i,
    {
        proof {
            record.displays@.lemma_filter_map_take_succ(f, i as int);
        }
        match record.displays[i].shown {
            Some(then) => {
                let shown = plan.now(record, then);
                let here = desktops_on(listing, &record.displays[i].uuid);
                let showing = match shown_on(screens, &record.displays[i].uuid) {
                    Some(space) => space == shown,
                    None => false,
                };
                if holds(here.as_slice(), shown) && !showing {
                    spaces.push(shown);
                }
            },
            None => {},
        }
        assert(spaces@ =~= record.displays@.take(i + 1).filter_map(f));
        i = i + 1;
    }
    assert(record.displays@.take(i as int) =~= record.displays@);
    spaces
}

/// The windows to wait for, given which assignments were made.
pub open spec fn waits_for(steps: Seq<(WindowId, WindowStep)>, done: Seq<bool>) -> Map<
    WindowId,
    SpaceId,
>
    decreases steps.len(),
{
    if steps.len() == 0 {
        Map::empty()
    } else {
        let front = waits_for(steps.drop_last(), done);
        let (wid, step) = steps.last();
        match step {
            WindowStep::Assign(space) => if steps.len() <= done.len() && done[steps.len() - 1] {
                front
            } else {
                front.insert(wid, space)
            },
            WindowStep::Wait(space) => front.insert(wid, space),
            WindowStep::Send(_, space) => front.insert(wid, space),
            WindowStep::Nothing => front,
        }
    }
}

/// The windows that were sent, given which moves were made.
pub open spec fn sent_windows(steps: Seq<(WindowId, WindowStep)>, done: Seq<bool>) -> Seq<WindowId>
    decreases steps.len(),
{
    if steps.len() == 0 {
        seq![]
    } else {
        let front = sent_windows(steps.drop_last(), done);
        if steps.last().1 is Send && steps.len() <= done.len() && done[steps.len() - 1] {
            front.push(steps.last().0)
        } else {
            front
        }
    }
}

/// The recorded desktop that `here` is now, the last one if several are.
pub open spec fn recorded_as(
    recorded: Seq<SpaceId>,
    plan: ReturnPlan,
    stopgaps: Seq<(SpaceId, SpaceId)>,
    here: SpaceId,
) -> Option<SpaceId>
    decreases recorded.len(),
{
    if recorded.len() == 0 || !plan.listed@.contains(here) {
        None
    } else if is_now(plan.pairs@, stopgaps, recorded.last()) == here {
        Some(recorded.last())
    } else {
        recorded_as(recorded.drop_last(), plan, stopgaps, here)
    }
}

/// Each desktop that is now a recorded one, with that one.
fn collect_ids(plan: &ReturnPlan, record: &DisplayRecord) -> (ids: Table<SpaceId, SpaceId>)
    ensures
        ids.wf(),
        forall|here: SpaceId| #[trigger]
            ids.at(here) == recorded_as(
                recorded_desktops(display_views(record.displays@)),
                *plan,
                record.stopgaps@,
                here,
            ),
{
    let recorded = all_recorded(&record.displays);
    let mut ids: Table<SpaceId, SpaceId> = Table::new();
    let mut i: usize = 0;
    while i < recorded.len()
        invariant
            i <= recorded@.len(),
            ids.wf(),
            forall|here: SpaceId| #[trigger]
                ids.at(here) == recorded_as(
                    recorded@.take(i as int),
                    *plan,
                    record.stopgaps@,
                    here,
                ),
        decreases recorded@.len() - i,
    {
        let ghost before = ids;
        let now = plan.now(record, recorded[i]);
        if holds(plan.listed.as_slice(), now) {
            ids.insert(now, recorded[i]);
        }
        proof {
            let next = recorded@.take(i + 1);
            assert(next.drop_last() =~= recorded@.take(i as int));
            assert(next.last() == recorded@[i as int]);
            assert forall|here: SpaceId| #[trigger]
                ids.at(here) == recorded_as(next, *plan, record.stopgaps@, here) by {
                assert(before.at(here) == before.at(here));
            }
        }
        i = i + 1;
    }
    assert(recorded@.take(i as int) =~= recorded@);
    ids
}

/// A desktop's tree is put back unless the user rearranged it: by its recorded
/// id, then the id it has now.
pub open spec fn untouched(touched: Seq<SpaceId>) -> spec_fn((SpaceId, SpaceId)) -> Option<
    (SpaceId, SpaceId),
> {
    |id: (SpaceId, SpaceId)|
        if touched.contains(id.1) {
            None
        } else {
            Some((id.1, id.0))
        }
}

fn collect_trees(ids: &Table<SpaceId, SpaceId>, touched: &Vec<SpaceId>) -> (restores: Vec<
    (SpaceId, SpaceId),
>)
    ensures
        restores@ == ids.entries@.filter_map(untouched(touched@)),
{
    let mut restores: Vec<(SpaceId, SpaceId)> = Vec::new();
    let mut i: usize = 0;
    while i < ids.entries.len()
        invariant
            i <= ids.entries@.len(),
            restores@ == ids.entries@.take(i as int).filter_map(untouched(touched@)),
        decreases ids.entries@.len() - i,
    {
        proof {
            ids.entries@.lemma_filter_map_take_succ(untouched(touched@), i as int);
        }
        let (now, then) = ids.entries[i];
        if !holds(touched.as_slice(), then) {
            restores.push((then, now));
        }
        assert(restores@ =~= ids.entries@.take(i + 1).filter_map(untouched(touched@)));
        i = i + 1;
    }
    assert(ids.entries@.take(i as int) =~= ids.entries@);
    restores
}

/// A made desktop is done with once the desktop it stood in for is replaced.
pub open spec fn done_with(pairs: Seq<(SpaceId, SpaceId)>) -> spec_fn(
    (SpaceId, SpaceId),
) -> Option<SpaceId> {
    |stopgap: (SpaceId, SpaceId)|
        if replacement(pairs, stopgap.1) is Some {
            Some(stopgap.0)
        } else {
            None
        }
}

fn collect_retired(plan: &ReturnPlan, record: &DisplayRecord) -> (retire: Vec<SpaceId>)
    ensures
        retire@ == record.stopgaps@.filter_map(done_with(plan.pairs@)),
{
    let mut retire: Vec<SpaceId> = Vec::new();
    let mut i: usize = 0;
    while i < record.stopgaps.len()
        invariant
            i <= record.stopgaps@.len(),
            retire@ == record.stopgaps@.take(i as int).filter_map(done_with(plan.pairs@)),
        decreases record.stopgaps@.len() - i,
    {
        proof {
            record.stopgaps@.lemma_filter_map_take_succ(done_with(plan.pairs@), i as int);
        }
        let (made, lost) = record.stopgaps[i];
        if find_replacement(&plan.pairs, lost).is_some() {
            retire.push(made);
        }
        assert(retire@ =~= record.stopgaps@.take(i + 1).filter_map(done_with(plan.pairs@)));
        i = i + 1;
    }
    assert(record.stopgaps@.take(i as int) =~= record.stopgaps@);
    retire
}

fn collect_waits(steps: &Vec<(WindowId, WindowStep)>, done: &[bool]) -> (waiting: Table<
    WindowId,
    SpaceId,
>)
    ensures
        waiting.wf(),
        waiting@ == waits_for(steps@, done@),
{
    let mut waiting: Table<WindowId, SpaceId> = Table::new();
    let mut i: usize = 0;
    while i < steps.len()
        invariant
            i <= steps@.len(),
            waiting.wf(),
            waiting@ == waits_for(steps@.take(i as int), done@),
        decreases steps@.len() - i,
    {
        proof {
            assert(steps@.take(i + 1).drop_last() =~= steps@.take(i as int));
            assert(steps@.take(i + 1).last() == steps@[i as int]);
        }
        let (wid, step) = steps[i];
        match step {
            WindowStep::Assign(space) => {
                if !(i < done.len() && done[i]) {
                    waiting.insert(wid, space);
                }
            },
            WindowStep::Wait(space) => {
                waiting.insert(wid, space);
            },
            WindowStep::Send(_, space) => {
                waiting.insert(wid, space);
            },
            WindowStep::Nothing => {},
        }
        i = i + 1;
    }
    assert(steps@.take(i as int) =~= steps@);
    waiting
}

fn collect_sent(steps: &Vec<(WindowId, WindowStep)>, done: &[bool]) -> (sent: Vec<WindowId>)
    ensures
        sent@ == sent_windows(steps@, done@),
{
    let mut sent: Vec<WindowId> = Vec::new();
    let mut i: usize = 0;
    while i < steps.len()
        invariant
            i <= steps@.len(),
            sent@ == sent_windows(steps@.take(i as int), done@),
        decreases steps@.len() - i,
    {
        proof {
            assert(steps@.take(i + 1).drop_last() =~= steps@.take(i as int));
            assert(steps@.take(i + 1).last() == steps@[i as int]);
        }
        let (wid, step) = steps[i];
        match step {
            WindowStep::Send(_, _) => {
                if i < done.len() && done[i] {
                    sent.push(wid);
                }
            },
            _ => {},
        }
        i = i + 1;
    }
    assert(steps@.take(i as int) =~= steps@);
    sent
}

/// Filing on what a desktop is now.
pub open spec fn refiled(pairs: Seq<(SpaceId, SpaceId)>, stopgaps: Seq<(SpaceId, SpaceId)>) -> spec_fn(
    SpaceId,
) -> SpaceId {
    |space: SpaceId| is_now(pairs, stopgaps, space)
}

/// Having been put on what a desktop is now.
pub open spec fn replaced(pairs: Seq<(SpaceId, SpaceId)>, stopgaps: Seq<(SpaceId, SpaceId)>) -> spec_fn(
    (SpaceId, Nanos),
) -> (SpaceId, Nanos) {
    |place: (SpaceId, Nanos)| (is_now(pairs, stopgaps, place.0), place.1)
}

fn refile(plan: &ReturnPlan, record: &DisplayRecord, windows: &mut Table<WindowId, SpaceId>)
    requires
        old(windows).wf(),
    ensures
        final(windows).wf(),
        forall|wid: WindowId| #[trigger]
            final(windows).at(wid) == match old(windows).at(wid) {
                Some(space) => Some(is_now(plan.pairs@, record.stopgaps@, space)),
                None => None,
            },
{
    let on = |space: &SpaceId| -> (here: SpaceId)
        ensures
            here == is_now(plan.pairs@, record.stopgaps@, *space),
    {
        let here = plan.now(record, *space);
        here
    };
    windows.rewrite(on, Ghost(refiled(plan.pairs@, record.stopgaps@)));
}

fn replace(
    plan: &ReturnPlan,
    record: &DisplayRecord,
    placed: &mut Table<WindowId, (SpaceId, Nanos)>,
)
    requires
        old(placed).wf(),
    ensures
        final(placed).wf(),
        forall|wid: WindowId| #[trigger]
            final(placed).at(wid) == match old(placed).at(wid) {
                Some((space, at)) => Some((is_now(plan.pairs@, record.stopgaps@, space), at)),
                None => None,
            },
{
    let put = |place: &(SpaceId, Nanos)| -> (here: (SpaceId, Nanos))
        ensures
            here == (is_now(plan.pairs@, record.stopgaps@, place.0), place.1),
    {
        let here = (plan.now(record, place.0), place.1);
        here
    };
    placed.rewrite(put, Ghost(replaced(plan.pairs@, record.stopgaps@)));
}

/// Begins the pass that puts everything back: the record is rewritten onto the
/// ids of now, and the pass says which windows are waited for, which trees are
/// put back and which made desktops are retired. Whether nothing is waited for
/// is returned.
pub fn begin_return_pass(
    record: &mut DisplayRecord,
    plan: &ReturnPlan,
    steps: &Vec<(WindowId, WindowStep)>,
    done: &[bool],
    now: Nanos,
) -> (immediate: bool)
    requires
        old(record).wf(),
    ensures
        final(record).wf(),
        immediate == (waits_for(steps@, done@) == Map::<WindowId, SpaceId>::empty()),
        forall|wid: WindowId| #[trigger]
            final(record).windows.at(wid) == match old(record).windows.at(wid) {
                Some(space) => Some(is_now(plan.pairs@, old(record).stopgaps@, space)),
                None => None,
            },
        forall|wid: WindowId| #[trigger]
            final(record).placed.at(wid) == match old(record).placed.at(wid) {
                Some((space, at)) => Some(
                    (is_now(plan.pairs@, old(record).stopgaps@, space), at),
                ),
                None => None,
            },
        final(record).own_moves@ == old(record).own_moves@.union(
            sent_windows(steps@, done@).to_set(),
        ),
        final(record).pass matches Some(pass) && {
            &&& pass.stage == Stage::Back
            &&& pass.waiting@ == waits_for(steps@, done@)
            &&& forall|here: SpaceId| #[trigger]
                pass.ids.at(here) == recorded_as(
                    recorded_desktops(display_views(old(record).displays@)),
                    *plan,
                    old(record).stopgaps@,
                    here,
                )
            &&& pass.restores@ == pass.ids.entries@.filter_map(untouched(plan.touched@))
            &&& pass.retire@ == old(record).stopgaps@.filter_map(done_with(plan.pairs@))
            &&& pass.started == now
        },
        *final(record) == (DisplayRecord {
            windows: final(record).windows,
            placed: final(record).placed,
            own_moves: final(record).own_moves,
            pass: final(record).pass,
            ..*old(record)
        }),
{
    let ghost before = *record;
    let ghost pairs = plan.pairs@;
    let ghost stopgaps = record.stopgaps@;
    let waiting = collect_waits(steps, done);
    let sent = collect_sent(steps, done);
    let ids = collect_ids(plan, record);
    let restores = collect_trees(&ids, &plan.touched);
    let retire = collect_retired(plan, record);
    let mut windows: Table<WindowId, SpaceId> = Table::new();
    let mut placed: Table<WindowId, (SpaceId, Nanos)> = Table::new();
    std::mem::swap(&mut windows, &mut record.windows);
    std::mem::swap(&mut placed, &mut record.placed);
    refile(plan, record, &mut windows);
    replace(plan, record, &mut placed);
    record.windows = windows;
    record.placed = placed;
    record.own_moves.extend(sent.as_slice());
    let immediate = waiting.entries.len() == 0;
    proof {
        if waiting.entries@.len() == 0 {
            assert(waiting@ =~= Map::<WindowId, SpaceId>::empty());
        } else {
            waiting.lemma_at(0);
            assert(waiting@.contains_key(waiting.entries@[0].0));
        }
        assert forall|wid: WindowId| #[trigger]
            record.placed.at(wid) == match before.placed.at(wid) {
                Some((space, at)) => Some((is_now(pairs, stopgaps, space), at)),
                None => None,
            } by {}
    }
    record.pass = Some(Pass { stage: Stage::Back, ids, waiting, restores, retire, started: now });
    immediate
}

/// Only what is destroyed is replaced, and only by what is fresh: a desktop
/// that came along with some display meanwhile, one that is recorded, and one
/// made at departure stand in for nothing.
pub proof fn only_fresh_desktops_replace(
    displays: Seq<RecordedDisplay>,
    record: DisplayRecord,
    listing: Listing,
    i: int,
)
    requires
        listing.wf(),
        0 <= i < pairs_for(displays, record, listing).len(),
    ensures
        ({
            let (old, new) = pairs_for(displays, record, listing)[i];
            &&& !all_of(listing).contains(old)
            &&& all_of(listing).contains(new)
            &&& is_fresh(record)(new)
            &&& exists|d: int|
                0 <= d < displays.len() && (#[trigger] displays[d]).desktops@.contains(old)
                    && listed_under(listing, displays[d].uuid@).contains(new)
        }),
    decreases displays.len(),
{
    let front = pairs_for(displays.drop_last(), record, listing);
    if i < front.len() {
        only_fresh_desktops_replace(displays.drop_last(), record, listing, i);
        let (old, new) = front[i];
        let d = choose|d: int|
            0 <= d < displays.drop_last().len() && (
            #[trigger] displays.drop_last()[d]).desktops@.contains(old) && listed_under(
                listing,
                displays.drop_last()[d].uuid@,
            ).contains(new);
        assert(displays[d].desktops@.contains(old));
    } else {
        let display = displays.last();
        let k = i - front.len();
        let here = listed_under(listing, display.uuid@);
        let gone = crate::table::lemma_filter_places(
            display.desktops@,
            not_among(all_of(listing)),
        );
        let fresh = crate::table::lemma_filter_places(here, is_fresh(record));
        assert(gone[k] == gone[k]);
        assert(fresh[k] == fresh[k]);
        let new = here[fresh[k]];
        assert(here.contains(new));
        crate::screens::lemma_all_of(listing, new);
        assert(displays[displays.len() - 1] == display);
        assert(display.desktops@.contains(display.desktops@[gone[k]]));
    }
}

/// A desktop the user rearranged while away keeps its arrangement: its tree is
/// not put back.
pub proof fn a_rearranged_desktop_keeps_its_tree(
    ids: Seq<(SpaceId, SpaceId)>,
    touched: Seq<SpaceId>,
    i: int,
)
    requires
        0 <= i < ids.filter_map(untouched(touched)).len(),
    ensures
        !touched.contains(ids.filter_map(untouched(touched))[i].0),
    decreases ids.len(),
{
    let front = ids.drop_last();
    if i < front.filter_map(untouched(touched)).len() {
        a_rearranged_desktop_keeps_its_tree(front, touched, i);
    }
}

/// A made desktop whose destroyed desktop got no replacement stays.
pub proof fn an_unreplaced_made_desktop_stays(
    stopgaps: Seq<(SpaceId, SpaceId)>,
    pairs: Seq<(SpaceId, SpaceId)>,
    i: int,
)
    requires
        0 <= i < stopgaps.filter_map(done_with(pairs)).len(),
    ensures
        exists|k: int|
            0 <= k < stopgaps.len() && (#[trigger] stopgaps[k]).0 == stopgaps.filter_map(
                done_with(pairs),
            )[i] && replacement(pairs, stopgaps[k].1) is Some,
    decreases stopgaps.len(),
{
    let front = stopgaps.drop_last();
    if i < front.filter_map(done_with(pairs)).len() {
        an_unreplaced_made_desktop_stays(front, pairs, i);
        let k = choose|k: int|
            0 <= k < front.len() && (#[trigger] front[k]).0 == front.filter_map(
                done_with(pairs),
            )[i] && replacement(pairs, front[k].1) is Some;
        assert(stopgaps[k].0 == front[k].0);
    } else {
        assert(stopgaps[stopgaps.len() - 1] == stopgaps.last());
    }
}

/// Whatever moved it, a window that is away from its desktop is sent there, as
/// long as the desktop is listed and the window server knows the window.
pub proof fn a_strayed_window_is_sent_back(
    plan: ReturnPlan,
    record: DisplayRecord,
    places: Table<WindowId, WindowPlace>,
    wid: WindowId,
    then: SpaceId,
    sys_id: WindowServerId,
)
    requires
        record.wants(wid) == Some(then),
        plan.listed@.contains(is_now(plan.pairs@, record.stopgaps@, then)),
        places.at(wid) matches Some(place) && place.sys_id == Some(sys_id) && place.actual()
            != Some(is_now(plan.pairs@, record.stopgaps@, then)),
    ensures
        step_for(plan, record, places, wid) == WindowStep::Send(
            sys_id,
            is_now(plan.pairs@, record.stopgaps@, then),
        ),
{
}

/// Where every window is on its desktop and assigned there, nothing is sent and
/// nothing waited for.
pub proof fn nothing_moves_when_all_is_in_place(
    plan: ReturnPlan,
    record: DisplayRecord,
    places: Table<WindowId, WindowPlace>,
    steps: Seq<(WindowId, WindowStep)>,
)
    requires
        forall|wid: WindowId|
            (#[trigger] record.wants(wid)) is Some && places.at(wid) is Some ==> {
                let here = Some(is_now(plan.pairs@, record.stopgaps@, record.wants(wid)->0));
                places.at(wid)->0.actual() == here && places.at(wid)->0.assigned == here
            },
        forall|wid: WindowId, step: WindowStep| #[trigger]
            steps.contains((wid, step)) <==> step != WindowStep::Nothing && step == step_for(
                plan,
                record,
                places,
                wid,
            ),
    ensures
        steps.len() == 0,
{
    if steps.len() > 0 {
        let (wid, step) = steps[0];
        assert(steps.contains((wid, step)));
        assert(record.wants(wid) is Some);
    }
}

/// A window that is sent, or whose report is waited for, is waited for where it
/// belongs: the trees are not put back without it, short of the deadline.
pub proof fn a_sent_window_is_waited_for(
    steps: Seq<(WindowId, WindowStep)>,
    done: Seq<bool>,
    wid: WindowId,
    space: SpaceId,
    step: WindowStep,
)
    requires
        steps_once(steps),
        steps.contains((wid, step)),
        step == WindowStep::Wait(space) || (step is Send && step->Send_1 == space),
    ensures
        waits_for(steps, done).contains_key(wid),
        waits_for(steps, done)[wid] == space,
    decreases steps.len(),
{
    let at = steps.index_of((wid, step));
    let front = steps.drop_last();
    if at < steps.len() - 1 {
        assert(front[at] == (wid, step));
        assert forall|i: int, j: int| 0 <= i < j < front.len() implies (#[trigger] front[i]).0 != (
        #[trigger] front[j]).0 by {
            assert(front[i] == steps[i] && front[j] == steps[j]);
        }
        a_sent_window_is_waited_for(front, done, wid, space, step);
        assert(steps[at].0 != steps.last().0);
    }
}

/// A display that is not in the record is not waited for: whether it is there
/// says nothing about the return.
pub proof fn an_unrecorded_display_is_not_waited_for(
    record: DisplayRecord,
    screens: Seq<Screen>,
    visitor: Screen,
)
    requires
        forall|i: int|
            0 <= i < record.displays@.len() ==> (#[trigger] record.displays@[i]).uuid@
                != visitor.display_uuid@,
    ensures
        all_back(record, screens.push(visitor)) == all_back(record, screens),
{
    let with = screens.push(visitor);
    assert forall|i: int| 0 <= i < record.displays@.len() implies on_screen(
        with,
        (#[trigger] record.displays@[i]).uuid@,
    ) == on_screen(screens, record.displays@[i].uuid@) by {
        let uuid = record.displays@[i].uuid@;
        if on_screen(screens, uuid) {
            let k = choose|k: int|
                0 <= k < screens.len() && (#[trigger] screens[k]).display_uuid@ == uuid;
            assert(with[k].display_uuid@ == uuid);
        }
        if on_screen(with, uuid) {
            let k = choose|k: int| 0 <= k < with.len() && (#[trigger] with[k]).display_uuid@ == uuid;
            assert(k < screens.len());
            assert(screens[k].display_uuid@ == uuid);
        }
    }
}

/// A display lists the desktop.
pub open spec fn is_listed(listing: Listing, space: SpaceId) -> bool {
    exists|i: int|
        0 <= i < listing.entries@.len() && (#[trigger] listing.entries@[i]).1@.contains(space)
}

/// A display of the record had the desktop.
pub open spec fn had(record: DisplayRecord, space: SpaceId) -> bool {
    exists|i: int|
        0 <= i < record.displays@.len() && (#[trigger] record.displays@[i]).desktops@.contains(
            space,
        )
}

/// The desktop is of the return's making: no display of the record had it, it was
/// not made at departure, and it was not there before.
pub open spec fn minted(record: DisplayRecord, space: SpaceId) -> bool {
    &&& !had(record, space)
    &&& forall|i: int| 0 <= i < record.stopgaps@.len() ==> (#[trigger] record.stopgaps@[i]).0 != space
    &&& !record.seen@.contains(space)
}

/// How many of the first `n` desktops are listed nowhere.
pub open spec fn gone_among(listing: Listing, desktops: Seq<SpaceId>, n: int) -> nat {
    desktops.take(n).filter(|space: SpaceId| !is_listed(listing, space)).len()
}

/// How many of the first `n` desktops are of the return's making.
pub open spec fn minted_among(record: DisplayRecord, desktops: Seq<SpaceId>, n: int) -> nat {
    desktops.take(n).filter(|space: SpaceId| minted(record, space)).len()
}

pub proof fn lemma_recorded(displays: Seq<RecordedDisplay>, space: SpaceId)
    ensures
        recorded_desktops(display_views(displays)).contains(space) <==> exists|i: int|
            0 <= i < displays.len() && (#[trigger] displays[i]).desktops@.contains(space),
    decreases displays.len(),
{
    if displays.len() > 0 {
        let front = displays.drop_last();
        lemma_recorded(front, space);
        assert(display_views(displays).drop_last() =~= display_views(front));
        assert(display_views(displays).last().desktops == displays.last().desktops@);
        crate::screens::lemma_concat_contains(
            recorded_desktops(display_views(front)),
            displays.last().desktops@,
            space,
        );
        if recorded_desktops(display_views(front)).contains(space) {
            let i = choose|i: int|
                0 <= i < front.len() && (#[trigger] front[i]).desktops@.contains(space);
            assert(displays[i].desktops@.contains(space));
        }
        if exists|i: int|
            0 <= i < displays.len() && (#[trigger] displays[i]).desktops@.contains(space) {
            let i = choose|i: int|
                0 <= i < displays.len() && (#[trigger] displays[i]).desktops@.contains(space);
            if i < front.len() {
                assert(front[i].desktops@.contains(space));
            }
        }
    }
}

proof fn lemma_minted(record: DisplayRecord, space: SpaceId)
    ensures
        is_fresh(record)(space) == minted(record, space),
{
    lemma_recorded(record.displays@, space);
}

proof fn lemma_gone(listing: Listing, desktops: Seq<SpaceId>, n: int)
    requires
        0 <= n <= desktops.len(),
    ensures
        desktops.take(n).filter(not_among(all_of(listing))).len() == gone_among(
            listing,
            desktops,
            n,
        ),
{
    let p = not_among(all_of(listing));
    let q = |space: SpaceId| !is_listed(listing, space);
    assert forall|i: int| 0 <= i < desktops.take(n).len() implies p(#[trigger] desktops.take(n)[i])
        == q(desktops.take(n)[i]) by {
        crate::screens::lemma_desktops_of(listing.entries@, desktops.take(n)[i]);
    }
    lemma_filter_same(desktops.take(n), p, q);
}

proof fn lemma_minted_among(record: DisplayRecord, desktops: Seq<SpaceId>, n: int)
    requires
        0 <= n <= desktops.len(),
    ensures
        desktops.take(n).filter(is_fresh(record)).len() == minted_among(record, desktops, n),
{
    let p = is_fresh(record);
    let q = |space: SpaceId| minted(record, space);
    assert forall|i: int| 0 <= i < desktops.take(n).len() implies p(#[trigger] desktops.take(n)[i])
        == q(desktops.take(n)[i]) by {
        lemma_minted(record, desktops.take(n)[i]);
    }
    lemma_filter_same(desktops.take(n), p, q);
}

/// The desktop at `a` of the display at `d` is listed nowhere, that at `b` of what
/// the display lists now is of the return's making, and before each come as many
/// of its kind.
pub open spec fn comes_back_as(
    record: DisplayRecord,
    listing: Listing,
    d: int,
    a: int,
    b: int,
) -> bool {
    let display = record.displays@[d];
    let here = listed_under(listing, display.uuid@);
    &&& 0 <= d < record.displays@.len()
    &&& 0 <= a < display.desktops@.len()
    &&& 0 <= b < here.len()
    &&& !is_listed(listing, display.desktops@[a])
    &&& minted(record, here[b])
    &&& gone_among(listing, display.desktops@, a) == minted_among(record, here, b)
}

proof fn lemma_pair_made(
    displays: Seq<RecordedDisplay>,
    record: DisplayRecord,
    listing: Listing,
    d: int,
    a: int,
    b: int,
)
    requires
        0 <= d < displays.len() <= record.displays@.len(),
        displays[d] == record.displays@[d],
        comes_back_as(record, listing, d, a, b),
    ensures
        pairs_for(displays, record, listing).contains(
            (displays[d].desktops@[a], listed_under(listing, displays[d].uuid@)[b]),
        ),
    decreases displays.len(),
{
    let front = displays.drop_last();
    let pair = (displays[d].desktops@[a], listed_under(listing, displays[d].uuid@)[b]);
    let before = pairs_for(front, record, listing);
    let display = displays.last();
    let here = listed_under(listing, display.uuid@);
    let zip = zipped(destroyed_of(display, all_of(listing)), here.filter(is_fresh(record)));
    crate::screens::lemma_concat_contains(before, zip, pair);
    if d < front.len() {
        lemma_pair_made(front, record, listing, d, a, b);
    } else {
        crate::screens::lemma_desktops_of(listing.entries@, display.desktops@[a]);
        lemma_minted(record, here[b]);
        lemma_filter_at(display.desktops@, not_among(all_of(listing)), a);
        lemma_filter_at(here, is_fresh(record), b);
        lemma_gone(listing, display.desktops@, a);
        lemma_minted_among(record, here, b);
        assert(zip[gone_among(listing, display.desktops@, a) as int] == pair);
    }
}

proof fn lemma_pair_found(
    displays: Seq<RecordedDisplay>,
    record: DisplayRecord,
    listing: Listing,
    k: int,
) -> (found: (int, int, int))
    requires
        displays.len() <= record.displays@.len(),
        forall|d: int| 0 <= d < displays.len() ==> (#[trigger] displays[d]) == record.displays@[d],
        0 <= k < pairs_for(displays, record, listing).len(),
    ensures
        comes_back_as(record, listing, found.0, found.1, found.2),
        0 <= found.0 < displays.len(),
        pairs_for(displays, record, listing)[k] == (
            displays[found.0].desktops@[found.1],
            listed_under(listing, displays[found.0].uuid@)[found.2],
        ),
    decreases displays.len(),
{
    let front = displays.drop_last();
    let before = pairs_for(front, record, listing);
    if k < before.len() {
        lemma_pair_found(front, record, listing, k)
    } else {
        let d = displays.len() - 1;
        let display = displays[d];
        let here = listed_under(listing, display.uuid@);
        let a = lemma_filter_from(
            display.desktops@,
            not_among(all_of(listing)),
            k - before.len(),
        );
        let b = lemma_filter_from(here, is_fresh(record), k - before.len());
        crate::screens::lemma_desktops_of(listing.entries@, display.desktops@[a]);
        lemma_minted(record, here[b]);
        lemma_gone(listing, display.desktops@, a);
        lemma_minted_among(record, here, b);
        (d, a, b)
    }
}

/// Desktops that were destroyed come back in their places: the first that a display
/// lost is the first it was given at the return, and so on. Every desktop that has
/// one given for it is replaced by that one.
pub proof fn a_destroyed_desktop_comes_back_in_its_place(
    plan: ReturnPlan,
    record: DisplayRecord,
    facts: ReturnFacts,
    d: int,
    a: int,
    b: int,
)
    requires
        is_return_plan(plan, record, facts),
        comes_back_as(record, facts.listing, d, a, b),
    ensures
        plan.pairs@.contains(
            (
                record.displays@[d].desktops@[a],
                listed_under(facts.listing, record.displays@[d].uuid@)[b],
            ),
        ),
{
    lemma_pair_made(record.displays@, record, facts.listing, d, a, b);
}

/// Nothing is replaced but a desktop that a display lost, and by nothing but the
/// desktop that the display was given in its place.
pub proof fn only_a_destroyed_desktop_is_replaced(
    plan: ReturnPlan,
    record: DisplayRecord,
    facts: ReturnFacts,
    k: int,
)
    requires
        is_return_plan(plan, record, facts),
        0 <= k < plan.pairs@.len(),
    ensures
        exists|d: int, a: int, b: int| #[trigger]
            comes_back_as(record, facts.listing, d, a, b) && plan.pairs@[k] == (
                record.displays@[d].desktops@[a],
                listed_under(facts.listing, record.displays@[d].uuid@)[b],
            ),
{
    let (d, a, b) = lemma_pair_found(record.displays@, record, facts.listing, k);
    assert(comes_back_as(record, facts.listing, d, a, b));
}

/// Of two desktops that a display lost, the one that came earlier on it comes back
/// as the one listed earlier.
pub proof fn replaced_desktops_keep_their_order(
    record: DisplayRecord,
    listing: Listing,
    d: int,
    a: int,
    b: int,
    c: int,
    e: int,
)
    requires
        comes_back_as(record, listing, d, a, b),
        comes_back_as(record, listing, d, c, e),
        a < c,
    ensures
        b < e,
{
    let desktops = record.displays@[d].desktops@;
    let here = listed_under(listing, record.displays@[d].uuid@);
    let p = |space: SpaceId| !is_listed(listing, space);
    let q = |space: SpaceId| minted(record, space);
    assert(desktops.take(c).take(a) =~= desktops.take(a));
    lemma_filter_at(desktops.take(c), p, a);
    if e <= b {
        lemma_taken_filter_grows(here, q, e, b);
    }
}

proof fn lemma_taken_filter_grows(list: Seq<SpaceId>, p: spec_fn(SpaceId) -> bool, m: int, n: int)
    requires
        0 <= m <= n <= list.len(),
    ensures
        list.take(m).filter(p).len() <= list.take(n).filter(p).len(),
    decreases n,
{
    reveal(Seq::filter);
    if m < n {
        lemma_taken_filter_grows(list, p, m, n - 1);
        assert(list.take(n).drop_last() =~= list.take(n - 1));
    }
}

/// The record has no desktop twice.
pub open spec fn desktops_once(record: DisplayRecord) -> bool {
    forall|d: int, a: int, e: int, c: int|
        #![trigger record.displays@[d].desktops@[a], record.displays@[e].desktops@[c]]
        0 <= d < record.displays@.len() && 0 <= a < record.displays@[d].desktops@.len() && 0 <= e
            < record.displays@.len() && 0 <= c < record.displays@[e].desktops@.len()
            && record.displays@[d].desktops@[a] == record.displays@[e].desktops@[c] ==> d == e && a
            == c
}

/// What was recorded on a desktop that was destroyed is now found on the desktop
/// given in its place.
pub proof fn a_destroyed_desktop_is_the_one_in_its_place(
    plan: ReturnPlan,
    record: DisplayRecord,
    facts: ReturnFacts,
    d: int,
    a: int,
    b: int,
)
    requires
        is_return_plan(plan, record, facts),
        desktops_once(record),
        comes_back_as(record, facts.listing, d, a, b),
    ensures
        is_now(plan.pairs@, record.stopgaps@, record.displays@[d].desktops@[a]) == listed_under(
            facts.listing,
            record.displays@[d].uuid@,
        )[b],
{
    let space = record.displays@[d].desktops@[a];
    let here = listed_under(facts.listing, record.displays@[d].uuid@);
    a_destroyed_desktop_comes_back_in_its_place(plan, record, facts, d, a, b);
    lemma_replacement(plan.pairs@, space);
    let k = plan.pairs@.index_of((space, here[b]));
    assert(plan.pairs@[k].0 == space);
    let m = choose|m: int|
        0 <= m < plan.pairs@.len() && (#[trigger] plan.pairs@[m]).0 == space && replacement(
            plan.pairs@,
            space,
        ) == Some(plan.pairs@[m].1);
    let (e, c, f) = lemma_pair_found(record.displays@, record, facts.listing, m);
    assert(record.displays@[e].desktops@[c] == record.displays@[d].desktops@[a]);
    let q = |space: SpaceId| minted(record, space);
    if f < b {
        assert(here.take(b).take(f) =~= here.take(f));
        lemma_filter_at(here.take(b), q, f);
    } else if b < f {
        assert(here.take(f).take(b) =~= here.take(b));
        lemma_filter_at(here.take(f), q, b);
    }
}

proof fn lemma_replacement(pairs: Seq<(SpaceId, SpaceId)>, space: SpaceId)
    ensures
        match replacement(pairs, space) {
            Some(fresh) => exists|m: int|
                0 <= m < pairs.len() && (#[trigger] pairs[m]).0 == space && pairs[m].1 == fresh,
            None => forall|m: int| 0 <= m < pairs.len() ==> (#[trigger] pairs[m]).0 != space,
        },
    decreases pairs.len(),
{
    if pairs.len() > 0 && pairs.last().0 != space {
        let front = pairs.drop_last();
        lemma_replacement(front, space);
        match replacement(front, space) {
            Some(fresh) => {
                let m = choose|m: int|
                    0 <= m < front.len() && (#[trigger] front[m]).0 == space && front[m].1 == fresh;
                assert(pairs[m] == front[m]);
            },
            None => {
                assert forall|m: int| 0 <= m < pairs.len() implies (#[trigger] pairs[m]).0 != space by {
                    if m < front.len() {
                        assert(front[m] == pairs[m]);
                    }
                }
            },
        }
    } else if pairs.len() > 0 {
        assert(pairs[pairs.len() - 1].0 == space);
    }
}

/// A desktop that nothing replaces is what was made for it at departure, or
/// itself if nothing was.
pub proof fn an_unreplaced_desktop_is_what_stands_in(
    pairs: Seq<(SpaceId, SpaceId)>,
    stopgaps: Seq<(SpaceId, SpaceId)>,
    space: SpaceId,
    made: SpaceId,
)
    requires
        crate::display_record::stand_ins_once(stopgaps),
        forall|k: int| 0 <= k < pairs.len() ==> (#[trigger] pairs[k]).0 != space,
    ensures
        stopgaps.contains((made, space)) ==> is_now(pairs, stopgaps, space) == made,
        (forall|i: int| 0 <= i < stopgaps.len() ==> (#[trigger] stopgaps[i]).1 != space) ==> is_now(
            pairs,
            stopgaps,
            space,
        ) == space,
{
    lemma_replacement(pairs, space);
    crate::display_record::lemma_stands_in(stopgaps, space);
    if stopgaps.contains((made, space)) {
        let i = stopgaps.index_of((made, space));
        assert(stopgaps[i].1 == space);
        let first = crate::display_record::stands_in(stopgaps, space)->0;
        let j = choose|j: int|
            0 <= j < stopgaps.len() && #[trigger] stopgaps[j] == (first, space) && (forall|x: int|
                0 <= x < j ==> (#[trigger] stopgaps[x]).1 != space);
        if i < j {
            assert(stopgaps[i].1 != stopgaps[j].1);
        } else if j < i {
            assert(stopgaps[j].1 != stopgaps[i].1);
        }
    }
}

/// What nothing accounts for is what a display of the record lists that no display
/// of it had, that replaces nothing, was not made at departure and is not about to
/// be retired.
pub proof fn what_is_unknown(
    plan: ReturnPlan,
    record: DisplayRecord,
    facts: ReturnFacts,
    space: SpaceId,
)
    requires
        is_return_plan(plan, record, facts),
    ensures
        plan.unknown@.contains(space) <==> {
            &&& exists|d: int|
                0 <= d < record.displays@.len() && listed_under(
                    facts.listing,
                    (#[trigger] record.displays@[d]).uuid@,
                ).contains(space)
            &&& !had(record, space)
            &&& forall|k: int| 0 <= k < plan.pairs@.len() ==> (#[trigger] plan.pairs@[k]).1 != space
            &&& forall|i: int|
                0 <= i < record.stopgaps@.len() ==> (#[trigger] record.stopgaps@[i]).0 != space
            &&& !facts.retiring@.contains(space)
        },
{
    lemma_recorded(record.displays@, space);
    lemma_listed_on_all(record.displays@, facts.listing, space);
    lemma_filter_holds(
        listed_on_all(record.displays@, facts.listing),
        is_unknown(record, plan.pairs@, facts.retiring@),
        space,
    );
}

proof fn lemma_listed_on_all(displays: Seq<RecordedDisplay>, listing: Listing, space: SpaceId)
    ensures
        listed_on_all(displays, listing).contains(space) <==> exists|d: int|
            0 <= d < displays.len() && listed_under(
                listing,
                (#[trigger] displays[d]).uuid@,
            ).contains(space),
    decreases displays.len(),
{
    if displays.len() > 0 {
        let front = displays.drop_last();
        lemma_listed_on_all(front, listing, space);
        crate::screens::lemma_concat_contains(
            listed_on_all(front, listing),
            listed_under(listing, displays.last().uuid@),
            space,
        );
        if listed_on_all(front, listing).contains(space) {
            let d = choose|d: int|
                0 <= d < front.len() && listed_under(
                    listing,
                    (#[trigger] front[d]).uuid@,
                ).contains(space);
            assert(displays[d] == front[d]);
        }
        if exists|d: int|
            0 <= d < displays.len() && listed_under(
                listing,
                (#[trigger] displays[d]).uuid@,
            ).contains(space) {
            let d = choose|d: int|
                0 <= d < displays.len() && listed_under(
                    listing,
                    (#[trigger] displays[d]).uuid@,
                ).contains(space);
            if d < front.len() {
                assert(front[d] == displays[d]);
            }
        }
    }
}

/// A desktop of the record counts as rearranged if a workspace of what stands for
/// it has another layout mode than recorded, or those of its windows that are still
/// there stand in another order; else it does not.
pub proof fn what_the_user_rearranged(
    plan: ReturnPlan,
    record: DisplayRecord,
    facts: ReturnFacts,
    space: SpaceId,
)
    requires
        is_return_plan(plan, record, facts),
    ensures
        ({
            let here = represented(record.stopgaps@, space);
            let still_there = |wid: WindowId|
                record.windows.at(wid) == Some(space) && (places_window(facts.places, wid, here));
            let other_order = listed_windows(record.members, space).filter(still_there)
                != listed_windows(facts.orders, here).filter(still_there);
            let other_mode = record.modes.at(space) is Some && listed_modes(
                facts.modes,
                here,
            ).len() > 0 && record.modes.at(space)->0@ != listed_modes(facts.modes, here);
            plan.touched@.contains(space) <==> had(record, space) && is_listed(
                facts.listing,
                is_now(plan.pairs@, record.stopgaps@, space),
            ) && (other_order || other_mode)
        }),
{
    let here = represented(record.stopgaps@, space);
    let still_there = |wid: WindowId|
        record.windows.at(wid) == Some(space) && (places_window(facts.places, wid, here));
    let counts = counts_on(record, facts.places, space);
    let then = listed_windows(record.members, space);
    let now = listed_windows(facts.orders, here);
    lemma_recorded(record.displays@, space);
    lemma_filter_same(then, counts, still_there);
    lemma_filter_same(now, counts, still_there);
    crate::screens::lemma_desktops_of(
        facts.listing.entries@,
        is_now(plan.pairs@, record.stopgaps@, space),
    );
    lemma_filter_holds(
        recorded_desktops(display_views(record.displays@)),
        is_touched(record, facts, plan.pairs@),
        space,
    );
}

/// The window is on the desktop by the window server's word, or by the layout's
/// where the window server has none.
pub open spec fn places_window(
    places: Table<WindowId, WindowPlace>,
    wid: WindowId,
    space: SpaceId,
) -> bool {
    places.at(wid) matches Some(place) && (place.live == Some(space) || (place.live is None
        && place.assigned == Some(space)))
}

/// The tree of a destroyed desktop goes from what stood for it to what replaces
/// it, and no other tree is moved.
pub proof fn the_trees_of_destroyed_desktops_move(
    plan: ReturnPlan,
    stopgaps: Seq<(SpaceId, SpaceId)>,
    from: SpaceId,
    to: SpaceId,
)
    ensures
        plan.pairs@.filter_map(remaps_for(plan.pairs@, stopgaps)).contains((from, to)) <==> exists|
            space: SpaceId,
        |
            #![trigger replacement(plan.pairs@, space)]
            plan.pairs@.contains((space, to)) && replacement(plan.pairs@, space) == Some(to) && from
                == represented(stopgaps, space),
{
    let f = remaps_for(plan.pairs@, stopgaps);
    lemma_filter_map_holds(plan.pairs@, f, (from, to));
    if plan.pairs@.filter_map(f).contains((from, to)) {
        let i = choose|i: int|
            0 <= i < plan.pairs@.len() && f(#[trigger] plan.pairs@[i]) == Some((from, to));
        assert(plan.pairs@.contains((plan.pairs@[i].0, to)));
    }
    if exists|space: SpaceId|
        #![trigger replacement(plan.pairs@, space)]
        plan.pairs@.contains((space, to)) && replacement(plan.pairs@, space) == Some(to) && from
            == represented(stopgaps, space) {
        let space = choose|space: SpaceId|
            #![trigger replacement(plan.pairs@, space)]
            plan.pairs@.contains((space, to)) && replacement(plan.pairs@, space) == Some(to) && from
                == represented(stopgaps, space);
        let i = plan.pairs@.index_of((space, to));
        assert(f(plan.pairs@[i]) == Some((from, to)));
    }
}

/// A desktop that was carried over is last on its new display and on no other, and
/// every other desktop stays where it is listed.
pub proof fn a_carried_desktop_is_listed_once(
    before: Listing,
    after: Listing,
    uuid: Seq<char>,
    space: SpaceId,
    other: Seq<char>,
    neighbour: SpaceId,
)
    requires
        carried_to(before, after, uuid, space),
        neighbour != space,
    ensures
        listed_under(after, uuid).last() == space,
        other != uuid ==> !listed_under(after, other).contains(space),
        listed_under(after, other).contains(neighbour) <==> listed_under(before, other).contains(
            neighbour,
        ),
{
    let rest = listed_under(before, other).filter(not_among(seq![space]));
    lemma_filter_holds(listed_under(before, other), not_among(seq![space]), space);
    lemma_filter_holds(listed_under(before, other), not_among(seq![space]), neighbour);
    assert(seq![space].contains(seq![space][0]));
    assert(listed_under(after, uuid) == listed_under(after, uuid));
    assert(listed_under(after, other) == listed_under(after, other));
    if other == uuid {
        crate::screens::lemma_concat_contains(rest, seq![space], neighbour);
        assert(rest.push(space) =~= rest + seq![space]);
        if seq![space].contains(neighbour) {
            let i = seq![space].index_of(neighbour);
            assert(seq![space][i] == space);
        }
    }
    assert(not_among(seq![space])(neighbour)) by {
        if seq![space].contains(neighbour) {
            let i = seq![space].index_of(neighbour);
            assert(seq![space][i] == space);
        }
    }
}

/// A window on its desktop that no layout has is assigned there; one that the layout
/// has elsewhere is waited for; one that it has there needs nothing.
pub proof fn a_window_on_its_desktop_stays(
    plan: ReturnPlan,
    record: DisplayRecord,
    places: Table<WindowId, WindowPlace>,
    wid: WindowId,
    here: SpaceId,
)
    requires
        record.wants(wid) is Some,
        here == is_now(plan.pairs@, record.stopgaps@, record.wants(wid)->0),
        plan.listed@.contains(here),
        places_window(places, wid, here),
    ensures
        places.at(wid)->0.assigned is None ==> step_for(plan, record, places, wid)
            == WindowStep::Assign(here),
        places.at(wid)->0.assigned == Some(here) ==> step_for(plan, record, places, wid)
            == WindowStep::Nothing,
        places.at(wid)->0.assigned is Some && places.at(wid)->0.assigned != Some(here) ==> step_for(
            plan,
            record,
            places,
            wid,
        ) == WindowStep::Wait(here),
{
}

/// A window is left alone that the record has nowhere, that is not known, or whose
/// desktop is listed nowhere; and one that is away and without a number.
pub proof fn a_window_that_cannot_be_brought_home_is_left(
    plan: ReturnPlan,
    record: DisplayRecord,
    places: Table<WindowId, WindowPlace>,
    wid: WindowId,
)
    requires
        ({
            let here = is_now(plan.pairs@, record.stopgaps@, record.wants(wid)->0);
            ||| record.wants(wid) is None
            ||| places.at(wid) is None
            ||| !plan.listed@.contains(here)
            ||| places.at(wid)->0.sys_id is None && !places_window(places, wid, here)
        }),
    ensures
        step_for(plan, record, places, wid) == WindowStep::Nothing,
{
}

/// A display is switched back to what it showed, as that is now, if it lists that
/// and does not show it; for no other reason is a display switched.
pub proof fn a_display_shows_again_what_it_showed(
    plan: ReturnPlan,
    record: DisplayRecord,
    listing: Listing,
    screens: Seq<Screen>,
    space: SpaceId,
)
    ensures
        record.displays@.filter_map(focus_on(plan, record, listing, screens)).contains(space)
            <==> exists|d: int|
            #![trigger record.displays@[d]]
            0 <= d < record.displays@.len() && record.displays@[d].shown is Some && space == is_now(
                plan.pairs@,
                record.stopgaps@,
                record.displays@[d].shown->0,
            ) && listed_under(listing, record.displays@[d].uuid@).contains(space) && shown_by(
                screens,
                record.displays@[d].uuid@,
            ) != Some(space),
{
    let f = focus_on(plan, record, listing, screens);
    lemma_filter_map_holds(record.displays@, f, space);
    if record.displays@.filter_map(f).contains(space) {
        let d = choose|d: int|
            0 <= d < record.displays@.len() && f(#[trigger] record.displays@[d]) == Some(space);
        assert(record.displays@[d].shown is Some);
    }
    if exists|d: int|
        #![trigger record.displays@[d]]
        0 <= d < record.displays@.len() && record.displays@[d].shown is Some && space == is_now(
            plan.pairs@,
            record.stopgaps@,
            record.displays@[d].shown->0,
        ) && listed_under(listing, record.displays@[d].uuid@).contains(space) && shown_by(
            screens,
            record.displays@[d].uuid@,
        ) != Some(space) {
        let d = choose|d: int|
            #![trigger record.displays@[d]]
            0 <= d < record.displays@.len() && record.displays@[d].shown is Some && space == is_now(
                plan.pairs@,
                record.stopgaps@,
                record.displays@[d].shown->0,
            ) && listed_under(listing, record.displays@[d].uuid@).contains(space) && shown_by(
                screens,
                record.displays@[d].uuid@,
            ) != Some(space);
        assert(f(record.displays@[d]) == Some(space));
    }
}

/// A window whose assignment was made is not waited for; one whose assignment
/// failed is; and no window is waited for that nothing is done about.
pub proof fn who_is_waited_for(steps: Seq<(WindowId, WindowStep)>, done: Seq<bool>, i: int)
    requires
        steps_once(steps),
        0 <= i < steps.len() <= done.len(),
    ensures
        steps[i].1 is Assign && done[i] ==> !waits_for(steps, done).contains_key(steps[i].0),
        steps[i].1 is Assign && !done[i] ==> waits_for(steps, done).contains_pair(
            steps[i].0,
            steps[i].1->Assign_0,
        ),
        steps[i].1 is Nothing ==> !waits_for(steps, done).contains_key(steps[i].0),
    decreases steps.len(),
{
    let front = steps.drop_last();
    assert(steps_once(front)) by {
        assert forall|x: int, y: int| 0 <= x < y < front.len() implies (#[trigger] front[x]).0 != (
        #[trigger] front[y]).0 by {
            assert(front[x] == steps[x] && front[y] == steps[y]);
        }
    }
    if i < front.len() {
        who_is_waited_for(front, done, i);
        assert(front[i] == steps[i]);
        assert(steps[i].0 != steps.last().0);
    } else {
        lemma_waits_named(front, done);
        if waits_for(front, done).contains_key(steps[i].0) {
            let x = choose|x: int|
                0 <= x < front.len() && (#[trigger] front[x]).0 == steps[i].0;
            assert(steps[x].0 == steps[i].0);
        }
    }
}

proof fn lemma_waits_named(steps: Seq<(WindowId, WindowStep)>, done: Seq<bool>)
    ensures
        forall|wid: WindowId| #[trigger]
            waits_for(steps, done).contains_key(wid) ==> exists|x: int|
                0 <= x < steps.len() && (#[trigger] steps[x]).0 == wid,
    decreases steps.len(),
{
    if steps.len() > 0 {
        let front = steps.drop_last();
        lemma_waits_named(front, done);
        assert forall|wid: WindowId| #[trigger]
            waits_for(steps, done).contains_key(wid) implies exists|x: int|
            0 <= x < steps.len() && (#[trigger] steps[x]).0 == wid by {
            if waits_for(front, done).contains_key(wid) {
                let x = choose|x: int| 0 <= x < front.len() && (#[trigger] front[x]).0 == wid;
                assert(steps[x].0 == wid);
            } else {
                assert(steps[steps.len() - 1].0 == wid);
            }
        }
    }
}

/// The moves that count as the manager's own are those that were made: a window
/// that was sent, and no other.
pub proof fn only_moves_that_were_made_count(
    steps: Seq<(WindowId, WindowStep)>,
    done: Seq<bool>,
    wid: WindowId,
)
    ensures
        sent_windows(steps, done).contains(wid) <==> exists|i: int|
            #![trigger steps[i]]
            0 <= i < steps.len() && i < done.len() && steps[i].0 == wid && steps[i].1 is Send
                && done[i],
    decreases steps.len(),
{
    if steps.len() > 0 {
        let front = steps.drop_last();
        let n = steps.len() - 1;
        only_moves_that_were_made_count(front, done, wid);
        let before = sent_windows(front, done);
        let after = sent_windows(steps, done);
        if before.contains(wid) {
            let k = before.index_of(wid);
            assert(after[k] == wid);
            let i = choose|i: int|
                #![trigger front[i]]
                0 <= i < front.len() && i < done.len() && front[i].0 == wid && front[i].1 is Send
                    && done[i];
            assert(steps[i] == front[i]);
        }
        if after.contains(wid) && !before.contains(wid) {
            let k = after.index_of(wid);
            if k < before.len() {
                assert(before[k] == wid);
            }
            assert(steps[n].0 == wid);
        }
        if exists|i: int|
            #![trigger steps[i]]
            0 <= i < steps.len() && i < done.len() && steps[i].0 == wid && steps[i].1 is Send
                && done[i] {
            let i = choose|i: int|
                #![trigger steps[i]]
                0 <= i < steps.len() && i < done.len() && steps[i].0 == wid && steps[i].1 is Send
                    && done[i];
            if i < n {
                assert(front[i] == steps[i]);
            } else {
                assert(after[before.len() as int] == wid);
            }
        }
    }
}

/// How far a walk comes without asking for anything: past every desktop that is
/// listed nowhere, is on the display already, or has nothing to go behind; and it
/// goes on behind the last that is on the display.
pub proof fn what_a_walk_passes_over(walk: DisplayWalk, next: int, anchor: Option<SpaceId>, i: int)
    requires
        0 <= next <= walk.desired@.len(),
    ensures
        next <= without_move(walk, next, anchor).0 <= walk.desired@.len(),
        next <= i < without_move(walk, next, anchor).0 ==> !walk.listed@.contains(walk.desired@[i])
            || walk.here@.contains(walk.desired@[i]) || (anchor is None && walk.shown is None),
        without_move(walk, next, anchor).0 < walk.desired@.len() ==> {
            let at = without_move(walk, next, anchor).0;
            let behind = without_move(walk, next, anchor).1;
            walk.listed@.contains(walk.desired@[at]) && !walk.here@.contains(walk.desired@[at]) && (
            behind is Some || walk.shown is Some)
        },
    decreases walk.desired@.len() - next,
{
    if next < walk.desired@.len() {
        let space = walk.desired@[next];
        if !walk.listed@.contains(space) {
            what_a_walk_passes_over(walk, next + 1, anchor, i);
        } else if walk.here@.contains(space) {
            what_a_walk_passes_over(walk, next + 1, Some(space), i);
        } else if anchor is None && walk.shown is None {
            what_a_walk_passes_over(walk, next + 1, anchor, i);
        }
    }
}

/// What a walk goes on behind is the last desktop it passed that is on the display,
/// and what it went behind before if it passed none.
pub proof fn what_a_walk_goes_behind(walk: DisplayWalk, next: int, anchor: Option<SpaceId>, i: int)
    requires
        0 <= next <= walk.desired@.len(),
    ensures
        ({
            let (at, behind) = without_move(walk, next, anchor);
            &&& next <= i < at && walk.listed@.contains(walk.desired@[i]) && walk.here@.contains(
                walk.desired@[i],
            ) && (forall|k: int|
                i < k < at ==> !(walk.listed@.contains(#[trigger] walk.desired@[k])
                    && walk.here@.contains(walk.desired@[k]))) ==> behind == Some(walk.desired@[i])
            &&& (forall|k: int|
                next <= k < at ==> !(walk.listed@.contains(#[trigger] walk.desired@[k])
                    && walk.here@.contains(walk.desired@[k]))) ==> behind == anchor
        }),
    decreases walk.desired@.len() - next,
{
    if next < walk.desired@.len() {
        let space = walk.desired@[next];
        if !walk.listed@.contains(space) {
            what_a_walk_goes_behind(walk, next + 1, anchor, i);
        } else if walk.here@.contains(space) {
            what_a_walk_passes_over(walk, next + 1, Some(space), i);
            what_a_walk_goes_behind(walk, next + 1, Some(space), i);
            let at = without_move(walk, next, anchor).0;
            if forall|k: int|
                next <= k < at ==> !(walk.listed@.contains(#[trigger] walk.desired@[k])
                    && walk.here@.contains(walk.desired@[k])) {
                assert(walk.desired@[next] == space);
            }
        } else if anchor is None && walk.shown is None {
            what_a_walk_goes_behind(walk, next + 1, anchor, i);
        }
    }
}

/// Every recorded desktop of a display is sent back to it in its recorded place, as
/// it is now; what nothing accounts for goes behind them on the display that
/// stayed, and nowhere else.
pub proof fn what_a_display_is_to_have(plan: ReturnPlan, record: DisplayRecord, at: int, i: int)
    requires
        0 <= at < record.displays@.len(),
    ensures
        ({
            let desktops = record.displays@[at].desktops@;
            let desired = desired_on(plan, record, at);
            let stayed = record.displays@[at].uuid@ == record.survivor@;
            &&& 0 <= i < desktops.len() ==> desired[i] == is_now(
                plan.pairs@,
                record.stopgaps@,
                desktops[i],
            )
            &&& stayed ==> desired.len() == desktops.len() + plan.unknown@.len()
            &&& !stayed ==> desired.len() == desktops.len()
            &&& stayed && 0 <= i < plan.unknown@.len() ==> desired[desktops.len() + i]
                == plan.unknown@[i]
        }),
{
}

/// A desktop that is listed now is the recorded one that it stands for, and any
/// other desktop is none.
pub proof fn which_recorded_desktop_it_is(
    recorded: Seq<SpaceId>,
    plan: ReturnPlan,
    stopgaps: Seq<(SpaceId, SpaceId)>,
    here: SpaceId,
)
    ensures
        match recorded_as(recorded, plan, stopgaps, here) {
            Some(space) => plan.listed@.contains(here) && recorded.contains(space) && is_now(
                plan.pairs@,
                stopgaps,
                space,
            ) == here,
            None => !plan.listed@.contains(here) || forall|i: int|
                0 <= i < recorded.len() ==> is_now(
                    plan.pairs@,
                    stopgaps,
                    #[trigger] recorded[i],
                ) != here,
        },
    decreases recorded.len(),
{
    if recorded.len() > 0 && plan.listed@.contains(here) {
        let front = recorded.drop_last();
        if is_now(plan.pairs@, stopgaps, recorded.last()) == here {
            assert(recorded[recorded.len() - 1] == recorded.last());
        } else {
            which_recorded_desktop_it_is(front, plan, stopgaps, here);
            match recorded_as(front, plan, stopgaps, here) {
                Some(space) => {
                    let i = front.index_of(space);
                    assert(recorded[i] == space);
                },
                None => {
                    assert forall|i: int| 0 <= i < recorded.len() implies is_now(
                        plan.pairs@,
                        stopgaps,
                        #[trigger] recorded[i],
                    ) != here by {
                        if i < front.len() {
                            assert(front[i] == recorded[i]);
                        }
                    }
                },
            }
        }
    }
}

/// The tree of each desktop is put back on what the desktop is now, unless the user
/// rearranged it.
pub proof fn the_trees_that_are_put_back(
    ids: Seq<(SpaceId, SpaceId)>,
    touched: Seq<SpaceId>,
    recorded: SpaceId,
    here: SpaceId,
)
    ensures
        ids.filter_map(untouched(touched)).contains((recorded, here)) <==> ids.contains(
            (here, recorded),
        ) && !touched.contains(recorded),
{
    let f = untouched(touched);
    lemma_filter_map_holds(ids, f, (recorded, here));
    if ids.filter_map(f).contains((recorded, here)) {
        let i = choose|i: int| 0 <= i < ids.len() && f(#[trigger] ids[i]) == Some((recorded, here));
        assert(ids[i] == (here, recorded));
    }
    if ids.contains((here, recorded)) && !touched.contains(recorded) {
        let i = ids.index_of((here, recorded));
        assert(f(ids[i]) == Some((recorded, here)));
    }
}

/// A made desktop is retired if and only if the desktop it stood in for is replaced.
pub proof fn the_made_desktops_that_are_retired(
    stopgaps: Seq<(SpaceId, SpaceId)>,
    pairs: Seq<(SpaceId, SpaceId)>,
    made: SpaceId,
)
    ensures
        stopgaps.filter_map(done_with(pairs)).contains(made) <==> exists|i: int, k: int|
            #![trigger stopgaps[i], pairs[k]]
            0 <= i < stopgaps.len() && 0 <= k < pairs.len() && stopgaps[i].0 == made && pairs[k].0
                == stopgaps[i].1,
{
    let f = done_with(pairs);
    lemma_filter_map_holds(stopgaps, f, made);
    if stopgaps.filter_map(f).contains(made) {
        let i = choose|i: int| 0 <= i < stopgaps.len() && f(#[trigger] stopgaps[i]) == Some(made);
        lemma_replacement(pairs, stopgaps[i].1);
        let fresh = replacement(pairs, stopgaps[i].1)->0;
        let k = choose|k: int|
            0 <= k < pairs.len() && (#[trigger] pairs[k]).0 == stopgaps[i].1 && pairs[k].1 == fresh;
        assert(stopgaps[i].0 == made && pairs[k].0 == stopgaps[i].1);
    }
    if exists|i: int, k: int|
        #![trigger stopgaps[i], pairs[k]]
        0 <= i < stopgaps.len() && 0 <= k < pairs.len() && stopgaps[i].0 == made && pairs[k].0
            == stopgaps[i].1 {
        let (i, k) = choose|i: int, k: int|
            #![trigger stopgaps[i], pairs[k]]
            0 <= i < stopgaps.len() && 0 <= k < pairs.len() && stopgaps[i].0 == made && pairs[k].0
                == stopgaps[i].1;
        lemma_replacement(pairs, stopgaps[i].1);
        assert(pairs[k].0 == stopgaps[i].1);
        assert(f(stopgaps[i]) == Some(made));
    }
}

/// One more display is switched back, behind those before it, to what it showed then if that
/// is listed on it and not shown; no other is.
pub proof fn displays_are_switched_in_order(
    plan: ReturnPlan,
    record: DisplayRecord,
    listing: Listing,
    screens: Seq<Screen>,
    displays: Seq<RecordedDisplay>,
    display: RecordedDisplay,
)
    ensures
        ({
            let focus = focus_on(plan, record, listing, screens);
            let back = is_now(plan.pairs@, record.stopgaps@, display.shown->0);
            let switched = display.shown is Some && listed_under(listing, display.uuid@).contains(
                back,
            ) && shown_by(screens, display.uuid@) != Some(back);
            &&& switched ==> displays.push(display).filter_map(focus) == displays.filter_map(
                focus,
            ).push(back)
            &&& !switched ==> displays.push(display).filter_map(focus) == displays.filter_map(focus)
        }),
{
    crate::lists::lemma_filter_map_push(displays, display, focus_on(plan, record, listing, screens));
}

/// Only a window that a step is for is waited for.
pub proof fn no_other_window_is_waited_for(
    steps: Seq<(WindowId, WindowStep)>,
    done: Seq<bool>,
    wid: WindowId,
)
    requires
        forall|i: int| 0 <= i < steps.len() ==> (#[trigger] steps[i]).0 != wid,
    ensures
        !waits_for(steps, done).contains_key(wid),
    decreases steps.len(),
{
    if steps.len() > 0 {
        let front = steps.drop_last();
        assert forall|i: int| 0 <= i < front.len() implies (#[trigger] front[i]).0 != wid by {
            assert(front[i] == steps[i]);
        }
        no_other_window_is_waited_for(front, done, wid);
        assert(steps[steps.len() - 1].0 != wid);
    }
}

/// All recorded displays are back when each is on screen, and not when one is not.
pub proof fn when_all_displays_are_back(record: DisplayRecord, screens: Seq<Screen>, d: int)
    ensures
        (forall|i: int|
            0 <= i < record.displays@.len() ==> exists|k: int|
                #![trigger screens[k]]
                0 <= k < screens.len() && screens[k].display_uuid@ == (
                #[trigger] record.displays@[i]).uuid@) ==> all_back(record, screens),
        0 <= d < record.displays@.len() && (forall|k: int|
            0 <= k < screens.len() ==> (#[trigger] screens[k]).display_uuid@
                != record.displays@[d].uuid@) ==> !all_back(record, screens),
{
    if 0 <= d < record.displays@.len() && (forall|k: int|
        0 <= k < screens.len() ==> (#[trigger] screens[k]).display_uuid@
            != record.displays@[d].uuid@) {
        assert(!on_screen(screens, record.displays@[d].uuid@));
    }
    if forall|i: int|
        0 <= i < record.displays@.len() ==> exists|k: int|
            #![trigger screens[k]]
            0 <= k < screens.len() && screens[k].display_uuid@ == (
            #[trigger] record.displays@[i]).uuid@ {
        assert forall|i: int| 0 <= i < record.displays@.len() implies on_screen(
            screens,
            (#[trigger] record.displays@[i]).uuid@,
        ) by {
            let k = choose|k: int|
                #![trigger screens[k]]
                0 <= k < screens.len() && screens[k].display_uuid@ == record.displays@[i].uuid@;
            assert(screens[k].display_uuid@ == record.displays@[i].uuid@);
        }
    }
}

/// One more made desktop is retired, behind those before it, if what it stands for has been
/// replaced; one more tree moves, behind those before it, if it is of the pairing that
/// counts.
pub proof fn made_desktops_are_retired_in_order(
    stopgaps: Seq<(SpaceId, SpaceId)>,
    stopgap: (SpaceId, SpaceId),
    pairs: Seq<(SpaceId, SpaceId)>,
    list: Seq<(SpaceId, SpaceId)>,
    pair: (SpaceId, SpaceId),
)
    ensures
        replacement(pairs, stopgap.1) is Some ==> stopgaps.push(stopgap).filter_map(
            done_with(pairs),
        ) == stopgaps.filter_map(done_with(pairs)).push(stopgap.0),
        replacement(pairs, stopgap.1) is None ==> stopgaps.push(stopgap).filter_map(
            done_with(pairs),
        ) == stopgaps.filter_map(done_with(pairs)),
        replacement(pairs, pair.0) == Some(pair.1) ==> list.push(pair).filter_map(
            remaps_for(pairs, stopgaps),
        ) == list.filter_map(remaps_for(pairs, stopgaps)).push(
            (represented(stopgaps, pair.0), pair.1),
        ),
        replacement(pairs, pair.0) != Some(pair.1) ==> list.push(pair).filter_map(
            remaps_for(pairs, stopgaps),
        ) == list.filter_map(remaps_for(pairs, stopgaps)),
{
    crate::lists::lemma_filter_map_push(stopgaps, stopgap, done_with(pairs));
    crate::lists::lemma_filter_map_push(list, pair, remaps_for(pairs, stopgaps));
}

/// Of several recorded desktops that a listed one is now, it is recorded as the last.
pub proof fn the_last_recorded_desktop_counts(
    recorded: Seq<SpaceId>,
    plan: ReturnPlan,
    stopgaps: Seq<(SpaceId, SpaceId)>,
    here: SpaceId,
    at: int,
)
    requires
        plan.listed@.contains(here),
        0 <= at < recorded.len(),
        is_now(plan.pairs@, stopgaps, recorded[at]) == here,
        forall|i: int|
            at < i < recorded.len() ==> is_now(plan.pairs@, stopgaps, #[trigger] recorded[i])
                != here,
    ensures
        recorded_as(recorded, plan, stopgaps, here) == Some(recorded[at]),
    decreases recorded.len(),
{
    if at < recorded.len() - 1 {
        let front = recorded.drop_last();
        assert(is_now(plan.pairs@, stopgaps, recorded[recorded.len() - 1]) != here);
        assert forall|i: int| at < i < front.len() implies is_now(
            plan.pairs@,
            stopgaps,
            #[trigger] front[i],
        ) != here by {
            assert(front[i] == recorded[i]);
        }
        the_last_recorded_desktop_counts(front, plan, stopgaps, here, at);
    }
}

/// A walk goes on behind the desktop it passed last, and before it passed any behind the one
/// that is shown.
pub proof fn what_the_next_move_goes_behind(walk: DisplayWalk, space: SpaceId)
    ensures
        walk.anchor == Some(space) ==> walk.spec_after() == Some(space),
        walk.anchor is None ==> walk.spec_after() == walk.shown,
{
}

/// What is filed on a desktop, or was put on one, goes to what that is now; when it was put
/// there stays.
pub proof fn where_windows_are_refiled(
    pairs: Seq<(SpaceId, SpaceId)>,
    stopgaps: Seq<(SpaceId, SpaceId)>,
    space: SpaceId,
    since: Nanos,
)
    ensures
        replacement(pairs, space) is Some ==> refiled(pairs, stopgaps)(space) == replacement(
            pairs,
            space,
        )->0,
        replacement(pairs, space) is None ==> refiled(pairs, stopgaps)(space) == represented(
            stopgaps,
            space,
        ),
        replaced(pairs, stopgaps)((space, since)) == (refiled(pairs, stopgaps)(space), since),
{
}

/// Of several replacements of a desktop the last counts; one that has none is not replaced.
pub proof fn the_last_replacement_counts(
    pairs: Seq<(SpaceId, SpaceId)>,
    pair: (SpaceId, SpaceId),
    space: SpaceId,
)
    ensures
        replacement(Seq::empty(), space) is None,
        pair.0 == space ==> replacement(pairs.push(pair), space) == Some(pair.1),
        pair.0 != space ==> replacement(pairs.push(pair), space) == replacement(pairs, space),
{
    assert(pairs.push(pair).drop_last() =~= pairs);
}

/// One more display adds its pairs behind those before it: its first destroyed desktop with
/// the first fresh one listed on it, and so on while there are both. It adds its listed
/// desktops behind those before it.
pub proof fn displays_are_gone_through_in_order(
    displays: Seq<RecordedDisplay>,
    display: RecordedDisplay,
    record: DisplayRecord,
    listing: Listing,
    i: int,
)
    ensures
        pairs_for(Seq::empty(), record, listing).len() == 0,
        listed_on_all(Seq::empty(), listing).len() == 0,
        listed_on_all(displays.push(display), listing) == listed_on_all(displays, listing)
            + listed_under(listing, display.uuid@),
        ({
            let before = pairs_for(displays, record, listing);
            let after = pairs_for(displays.push(display), record, listing);
            let gone = display.desktops@.filter(|space: SpaceId| !all_of(listing).contains(space));
            let fresh = listed_under(listing, display.uuid@).filter(is_fresh(record));
            &&& after.take(before.len() as int) == before
            &&& gone.len() <= fresh.len() ==> after.len() == before.len() + gone.len()
            &&& gone.len() >= fresh.len() ==> after.len() == before.len() + fresh.len()
            &&& before.len() <= i < after.len() ==> after[i] == (
                gone[i - before.len()],
                fresh[i - before.len()],
            )
        }),
{
    assert(displays.push(display).drop_last() =~= displays);
    assert(not_among(all_of(listing)) =~= |space: SpaceId| !all_of(listing).contains(space));
    let before = pairs_for(displays, record, listing);
    assert(pairs_for(displays.push(display), record, listing).take(before.len() as int) =~= before);
}

/// A carried desktop goes behind those of its display; all others keep their order.
pub proof fn a_carried_desktop_goes_last(
    before: Listing,
    after: Listing,
    uuid: Seq<char>,
    space: SpaceId,
    other: Seq<char>,
)
    requires
        carried_to(before, after, uuid, space),
    ensures
        listed_under(after, uuid) == listed_under(before, uuid).filter(
            |listed: SpaceId| listed != space,
        ).push(space),
        other != uuid ==> listed_under(after, other) == listed_under(before, other).filter(
            |listed: SpaceId| listed != space,
        ),
{
    let only = seq![space];
    assert forall|listed: SpaceId| only.contains(listed) == (listed == space) by {
        assert(only[0] == space);
    }
    assert(not_among(only) =~= |listed: SpaceId| listed != space);
}

/// One more desktop has its tree put back, behind those before it, unless the user touched
/// it; one more window counts as sent, behind those before it, if it was to be sent and was.
pub proof fn trees_and_windows_go_in_order(
    ids: Seq<(SpaceId, SpaceId)>,
    id: (SpaceId, SpaceId),
    touched: Seq<SpaceId>,
    steps: Seq<(WindowId, WindowStep)>,
    step: (WindowId, WindowStep),
    done: Seq<bool>,
)
    ensures
        touched.contains(id.1) ==> ids.push(id).filter_map(untouched(touched)) == ids.filter_map(
            untouched(touched),
        ),
        !touched.contains(id.1) ==> ids.push(id).filter_map(untouched(touched)) == ids.filter_map(
            untouched(touched),
        ).push((id.1, id.0)),
        sent_windows(Seq::empty(), done).len() == 0,
        step.1 is Send && steps.len() < done.len() && done[steps.len() as int] ==> sent_windows(
            steps.push(step),
            done,
        ) == sent_windows(steps, done).push(step.0),
        !(step.1 is Send) || steps.len() >= done.len() || !done[steps.len() as int]
            ==> sent_windows(steps.push(step), done) == sent_windows(steps, done),
{
    crate::lists::lemma_filter_map_push(ids, id, untouched(touched));
    assert(steps.push(step).drop_last() =~= steps);
}

/// What is unknown and what was touched comes in the order in which it is listed and was
/// recorded.
pub proof fn what_is_unknown_comes_in_order(
    plan: ReturnPlan,
    record: DisplayRecord,
    facts: ReturnFacts,
)
    requires
        is_return_plan(plan, record, facts),
    ensures
        plan.unknown@ == listed_on_all(record.displays@, facts.listing).filter(
            |space: SpaceId| plan.unknown@.contains(space),
        ),
        plan.touched@ == recorded_desktops(display_views(record.displays@)).filter(
            |space: SpaceId| plan.touched@.contains(space),
        ),
{
    let pairs = pairs_for(record.displays@, record, facts.listing);
    let all = listed_on_all(record.displays@, facts.listing);
    let p = is_unknown(record, pairs, facts.retiring@);
    let q = |space: SpaceId| plan.unknown@.contains(space);
    assert forall|i: int| 0 <= i < all.len() implies p(#[trigger] all[i]) == q(all[i]) by {
        crate::lists::lemma_filter_holds(all, p, all[i]);
        assert(all.contains(all[i]));
    }
    crate::lists::lemma_filter_same(all, p, q);
    let recorded = recorded_desktops(display_views(record.displays@));
    let t = is_touched(record, facts, pairs);
    let u = |space: SpaceId| plan.touched@.contains(space);
    assert forall|i: int| 0 <= i < recorded.len() implies t(#[trigger] recorded[i]) == u(
        recorded[i],
    ) by {
        crate::lists::lemma_filter_holds(recorded, t, recorded[i]);
        assert(recorded.contains(recorded[i]));
    }
    crate::lists::lemma_filter_same(recorded, t, u);
}

} // verus!
