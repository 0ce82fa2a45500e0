//! Which desktop a window is on, from the strongest source there is.

use vstd::prelude::*;

use crate::clock::Nanos;
use crate::drag::{first_of, DropPin};
use crate::ids::{Pid, SpaceId, WindowId, WindowServerId};
use crate::lists::{dedup, deduped, lemma_deduped, IdSet};
use crate::table::Table;

verus! {

/// Where a dropped window is pinned, while the pin holds.
pub open spec fn pinned_to(pin: Option<DropPin>, window: WindowServerId, now: Nanos) -> Option<
    SpaceId,
> {
    match pin {
        Some(pin) => if pin.window == window && now < pin.until {
            Some(pin.space)
        } else {
            None
        },
        None => None,
    }
}

/// Where a dropped window is pinned, while the pin holds.
pub fn pinned_space(pin: Option<DropPin>, window: WindowServerId, now: Nanos) -> (space: Option<
    SpaceId,
>)
    ensures
        space == pinned_to(pin, window, now),
{
    match pin {
        Some(pin) => if pin.window == window && now < pin.until {
            Some(pin.space)
        } else {
            None
        },
        None => None,
    }
}

/// What speaks for a window being on one desktop or another.
#[derive(Clone, Copy, Debug, PartialEq, Eq, Structural)]
pub struct Evidence {
    /// A drop has just put it there, and the write has not landed.
    pub pinned: Option<SpaceId>,
    /// It was seen there.
    pub observation: Option<SpaceId>,
    /// It was sent home there.
    pub homing: Option<SpaceId>,
    /// A frame write that is still to land puts it there.
    pub pending: Option<SpaceId>,
    /// That write was sent a short while ago.
    pub in_flight: bool,
    /// The window server has it there.
    pub live: Option<SpaceId>,
    /// It was last taken to be there.
    pub prior: Option<SpaceId>,
}

/// The desktop the evidence points to. A pin stands. The arrival of a window
/// that was sent home is that move landing. A write that is still to land wins
/// over an observation, unless it has had its time and the window server agrees
/// with the observation. Without an observation the window server's word wins.
pub open spec fn resolved(evidence: Evidence) -> Option<SpaceId> {
    if evidence.pinned is Some {
        evidence.pinned
    } else if evidence.observation is Some && evidence.homing == evidence.observation {
        evidence.observation
    } else {
        match (evidence.observation, evidence.pending) {
            (Some(observed), Some(target)) => if observed == target || (!evidence.in_flight
                && evidence.live == Some(observed)) {
                Some(observed)
            } else {
                Some(target)
            },
            (Some(observed), None) => Some(observed),
            (None, _) => first_of(evidence.live, first_of(evidence.pending, evidence.prior)),
        }
    }
}

fn same_space(a: Option<SpaceId>, b: SpaceId) -> (same: bool)
    ensures
        same == (a == Some(b)),
{
    match a {
        Some(a) => a == b,
        None => false,
    }
}

fn either(a: Option<SpaceId>, b: Option<SpaceId>) -> (first: Option<SpaceId>)
    ensures
        first == first_of(a, b),
{
    match a {
        Some(a) => Some(a),
        None => b,
    }
}

/// The desktop the evidence points to.
pub fn resolve_native_space(evidence: Evidence) -> (space: Option<SpaceId>)
    ensures
        space == resolved(evidence),
{
    if evidence.pinned.is_some() {
        return evidence.pinned;
    }
    match evidence.observation {
        Some(observed) => {
            if same_space(evidence.homing, observed) {
                return Some(observed);
            }
            match evidence.pending {
                Some(target) => if observed == target || (!evidence.in_flight && same_space(
                    evidence.live,
                    observed,
                )) {
                    Some(observed)
                } else {
                    Some(target)
                },
                None => Some(observed),
            }
        },
        None => either(evidence.live, either(evidence.pending, evidence.prior)),
    }
}

/// A fresh write is not undone by a report of where the window still is.
pub proof fn a_fresh_write_stands(evidence: Evidence, target: SpaceId)
    requires
        evidence.pinned is None,
        evidence.pending == Some(target),
        evidence.in_flight,
        evidence.homing is None,
    ensures
        resolved(evidence) == Some(target) || (evidence.observation is None && evidence.live is Some
            && resolved(evidence) == evidence.live),
{
}

/// Nothing is made up: a window is put on a desktop that some source names.
pub proof fn a_resolved_space_is_named(evidence: Evidence)
    ensures
        resolved(evidence) matches Some(space) ==> evidence.pinned == Some(space)
            || evidence.observation == Some(space) || evidence.pending == Some(space)
            || evidence.live == Some(space) || evidence.prior == Some(space),
{
}

/// The desktop a window is assigned to, if it is hidden there: the desktop is
/// active, and the window in a workspace of it that is not.
pub fn hidden_assigned_space(
    assigned: Option<SpaceId>,
    assigned_active: bool,
    in_other_workspace: bool,
) -> (space: Option<SpaceId>)
    ensures
        space == if assigned_active && in_other_workspace {
            assigned
        } else {
            None
        },
{
    if assigned_active && in_other_workspace {
        assigned
    } else {
        None
    }
}

/// The desktop a pending frame write puts a window on: that of the frame, if the
/// window is assigned to it.
pub fn pending_target_space(assigned: Option<SpaceId>, target: Option<SpaceId>) -> (space: Option<
    SpaceId,
>)
    ensures
        space == if target is Some && assigned == target {
            target
        } else {
            None
        },
{
    match (assigned, target) {
        (Some(assigned), Some(target)) => if assigned == target {
            Some(target)
        } else {
            None
        },
        _ => None,
    }
}

/// The desktop a window counts as being on: where it is reported, else where it
/// is hidden, else where it is assigned.
pub fn authoritative_space(
    reported: Option<SpaceId>,
    hidden: Option<SpaceId>,
    assigned: Option<SpaceId>,
) -> (space: Option<SpaceId>)
    ensures
        space == first_of(reported, first_of(hidden, assigned)),
{
    either(reported, either(hidden, assigned))
}

/// The desktop a window is on, as far as can be said: none, in native
/// fullscreen; else as resolved, as hidden, or by its frame.
pub fn best_space(
    fullscreen: bool,
    resolved_space: Option<SpaceId>,
    hidden: Option<SpaceId>,
    by_frame: Option<SpaceId>,
) -> (space: Option<SpaceId>)
    ensures
        space == if fullscreen {
            None
        } else {
            first_of(resolved_space, first_of(hidden, by_frame))
        },
{
    if fullscreen {
        None
    } else {
        either(resolved_space, either(hidden, by_frame))
    }
}

/// The desktop a discovered window goes on: where it counts as being, else that
/// of its frame if it is active, else the best there is.
pub fn discovery_space(
    authoritative: Option<SpaceId>,
    by_frame: Option<SpaceId>,
    by_frame_active: bool,
    best: Option<SpaceId>,
) -> (space: Option<SpaceId>)
    ensures
        space == if authoritative is Some {
            authoritative
        } else if by_frame is Some && by_frame_active {
            by_frame
        } else {
            best
        },
{
    if authoritative.is_some() {
        authoritative
    } else if by_frame.is_some() && by_frame_active {
        by_frame
    } else {
        best
    }
}

/// The one at `at` covers most of the frame, and the last of those that do.
pub open spec fn covers_most(overlaps: Seq<(i64, SpaceId)>, at: int) -> bool {
    &&& 0 <= at < overlaps.len()
    &&& overlaps[at].0 > 0
    &&& forall|i: int| 0 <= i < overlaps.len() ==> (#[trigger] overlaps[i]).0 <= overlaps[at].0
    &&& forall|i: int| at < i < overlaps.len() ==> (#[trigger] overlaps[i]).0 < overlaps[at].0
}

/// The desktop of a frame: that of the screen its middle is on, else of the one
/// that covers most of it. `overlaps` has for each desktop shown how much of the
/// frame its screen covers.
pub fn space_of_frame(middle: Option<SpaceId>, overlaps: &[(i64, SpaceId)]) -> (space: Option<
    SpaceId,
>)
    ensures
        match middle {
            Some(_) => space == middle,
            None => match space {
                Some(space) => exists|at: int|
                    covers_most(overlaps@, at) && (#[trigger] overlaps@[at]).1 == space,
                None => forall|i: int| 0 <= i < overlaps@.len() ==> (#[trigger] overlaps@[i]).0 <= 0,
            },
        },
{
    if middle.is_some() {
        return middle;
    }
    let mut best: Option<usize> = None;
    let mut i: usize = 0;
    while i < overlaps.len()
        invariant
            i <= overlaps@.len(),
            match best {
                Some(at) => at < i && overlaps@[at as int].0 > 0 && (forall|j: int|
                    0 <= j < i ==> (#[trigger] overlaps@[j]).0 <= overlaps@[at as int].0) && (
                forall|j: int| at < j < i ==> (#[trigger] overlaps@[j]).0 < overlaps@[at as int].0),
                None => forall|j: int| 0 <= j < i ==> (#[trigger] overlaps@[j]).0 <= 0,
            },
        decreases overlaps@.len() - i,
    {
        let better = overlaps[i].0 > 0 && match best {
            Some(at) => overlaps[i].0 >= overlaps[at].0,
            None => true,
        };
        if better {
            best = Some(i);
        }
        i = i + 1;
    }
    match best {
        Some(at) => {
            assert(covers_most(overlaps@, at as int) && overlaps@[at as int].1
                == overlaps@[at as int].1);
            Some(overlaps[at].1)
        },
        None => None,
    }
}

/// The window that `window` stands for: itself, if it is admitted or cannot be
/// another's child; else the admitted window of the application around it, else
/// the largest one.
pub fn admitted_root_for(
    window: WindowId,
    admitted: bool,
    possible_child: bool,
    around: Option<WindowId>,
    largest: Option<WindowId>,
) -> (root: WindowId)
    ensures
        root == if admitted || !possible_child {
            window
        } else {
            match around {
                Some(parent) => parent,
                None => match largest {
                    Some(parent) => parent,
                    None => window,
                },
            }
        },
{
    if admitted || !possible_child {
        return window;
    }
    match around {
        Some(parent) => parent,
        None => match largest {
            Some(parent) => parent,
            None => window,
        },
    }
}

/// What a window's coming or going between desktops leads to.
#[derive(Clone, Copy, Debug, PartialEq, Eq, Structural)]
pub enum DeltaStep {
    /// It is on this desktop now, and visible or not; a pending target there is
    /// confirmed or not.
    Moved { space: SpaceId, visible: bool, confirmed: bool },
    /// It has gone from this desktop, and leaves its tree or not.
    Gone { space: SpaceId, remove: bool },
    Nothing,
}

/// What is known of a window that came or went.
#[derive(Clone, Copy, Debug, PartialEq, Eq, Structural)]
pub struct DeltaFacts {
    pub appeared: Option<SpaceId>,
    pub disappeared: Option<SpaceId>,
    /// The desktop it is on, as resolved.
    pub resolved: Option<SpaceId>,
    pub resolved_active: bool,
    /// Its window is known, and not in the user's hand.
    pub free: bool,
    pub assigned: Option<SpaceId>,
    pub disappeared_active: bool,
}

/// What a window's coming or going leads to: where it is resolved to be counts;
/// else it is hidden where it went from, and leaves the tree there if it was
/// assigned to it.
pub open spec fn delta_step(facts: DeltaFacts) -> DeltaStep {
    match facts.resolved {
        Some(space) => DeltaStep::Moved {
            space,
            visible: facts.resolved_active,
            confirmed: facts.appeared == Some(space),
        },
        None => match facts.disappeared {
            Some(space) => DeltaStep::Gone {
                space,
                remove: facts.free && facts.assigned == Some(space) && facts.disappeared_active,
            },
            None => DeltaStep::Nothing,
        },
    }
}

/// What a window's coming or going between desktops leads to.
pub fn topology_delta_step(facts: DeltaFacts) -> (step: DeltaStep)
    ensures
        step == delta_step(facts),
{
    match facts.resolved {
        Some(space) => DeltaStep::Moved {
            space,
            visible: facts.resolved_active,
            confirmed: same_space(facts.appeared, space),
        },
        None => match facts.disappeared {
            Some(space) => DeltaStep::Gone {
                space,
                remove: facts.free && same_space(facts.assigned, space)
                    && facts.disappeared_active,
            },
            None => DeltaStep::Nothing,
        },
    }
}

/// What is done for a window that is on another desktop than its layout has it.
#[derive(Clone, Copy, Debug, PartialEq, Eq, Structural)]
pub enum Reassign {
    /// It is in the user's hand.
    Held,
    /// It takes no part in layouts: it leaves the one it was in.
    Remove,
    /// It is assigned there already: it is put back in the tree if it is visible.
    Restore,
    /// It leaves the tree it was in, and is assigned there.
    Move,
}

/// What is done for a window that is on `space`.
pub fn reassign_step(
    in_hand: bool,
    admitted: bool,
    assigned: Option<SpaceId>,
    space: SpaceId,
) -> (step: Reassign)
    ensures
        step == if in_hand {
            Reassign::Held
        } else if !admitted {
            Reassign::Remove
        } else if assigned == Some(space) {
            Reassign::Restore
        } else {
            Reassign::Move
        },
{
    if in_hand {
        Reassign::Held
    } else if !admitted {
        Reassign::Remove
    } else if same_space(assigned, space) {
        Reassign::Restore
    } else {
        Reassign::Move
    }
}

/// Whether the layout of an active desktop changed with a move: the one left
/// was active, or the window was assigned on one that is.
pub fn move_changes_layout(left_active: bool, moved: bool, target_active: bool) -> (changed: bool)
    ensures
        changed == (left_active || (moved && target_active)),
{
    left_active || (moved && target_active)
}

/// What is done for a window whose desktop its layout agrees on.
#[derive(Clone, Copy, Debug, PartialEq, Eq, Structural)]
pub enum Restore {
    Nothing,
    /// It takes no part in layouts.
    Remove,
    /// It is put in the tree.
    Insert,
}

/// What is done for a window whose desktop its layout agrees on: a known one on
/// an active desktop that the window server knows and shows is put in the tree.
pub fn restore_step(active: bool, known: bool, admitted: bool, visible: bool) -> (step: Restore)
    ensures
        step == if !active || !known {
            Restore::Nothing
        } else if !admitted {
            Restore::Remove
        } else if visible {
            Restore::Insert
        } else {
            Restore::Nothing
        },
{
    if !active || !known {
        Restore::Nothing
    } else if !admitted {
        Restore::Remove
    } else if visible {
        Restore::Insert
    } else {
        Restore::Nothing
    }
}

/// What is done for a window that a report of the active desktops left out.
#[derive(Clone, Copy, Debug, PartialEq, Eq, Structural)]
pub enum Missing {
    Nothing,
    /// It is on this desktop, which is not active.
    MovedTo(SpaceId),
    /// It is known to be nowhere: it leaves its tree.
    Remove,
}

/// What is known of a window that a report left out.
#[derive(Clone, Copy, Debug, PartialEq, Eq, Structural)]
pub struct MissingFacts {
    pub visible: bool,
    /// The desktop its window is assigned to, if the window is known.
    pub assigned: Option<SpaceId>,
    pub assigned_active: bool,
    /// The user desktop the window server has it on.
    pub resolved: Option<SpaceId>,
    pub resolved_active: bool,
    /// The report is known to be partial: assignments stay.
    pub preserve: bool,
}

/// What is done for a window that a report of the active desktops left out.
pub open spec fn missing_step(facts: MissingFacts) -> Missing {
    if facts.visible || facts.assigned is None || !facts.assigned_active {
        Missing::Nothing
    } else if facts.resolved is Some && facts.resolved != facts.assigned && !facts.resolved_active {
        Missing::MovedTo(facts.resolved->0)
    } else if facts.preserve {
        Missing::Nothing
    } else {
        Missing::Remove
    }
}

/// What is done for a window that a report of the active desktops left out.
pub fn missing_window_step(facts: MissingFacts) -> (step: Missing)
    ensures
        step == missing_step(facts),
{
    let assigned = match facts.assigned {
        Some(assigned) => assigned,
        None => {
            return Missing::Nothing;
        },
    };
    if facts.visible || !facts.assigned_active {
        return Missing::Nothing;
    }
    match facts.resolved {
        Some(space) => {
            if space != assigned && !facts.resolved_active {
                return Missing::MovedTo(space);
            }
        },
        None => {},
    }
    if facts.preserve {
        Missing::Nothing
    } else {
        Missing::Remove
    }
}

/// The windows of a report: those asked for, else those reported last. A refresh
/// can come back empty while the window server is waking.
pub open spec fn membership(
    queried: Seq<(WindowServerId, SpaceId)>,
    last: Seq<(WindowServerId, SpaceId)>,
) -> Seq<(WindowServerId, SpaceId)> {
    if queried.len() == 0 {
        last
    } else {
        queried
    }
}

/// The first desktop under which `window` was found.
pub open spec fn found_on(queried: Seq<(WindowServerId, SpaceId)>, window: WindowServerId) -> Option<
    SpaceId,
>
    decreases queried.len(),
{
    if queried.len() == 0 {
        None
    } else if queried[0].0 == window {
        Some(queried[0].1)
    } else {
        found_on(queried.skip(1), window)
    }
}

/// Sorted by the window server's number, each window once.
pub open spec fn by_number(windows: Seq<(WindowServerId, SpaceId)>) -> bool {
    forall|i: int, j: int|
        0 <= i < j < windows.len() ==> (#[trigger] windows[i]).0.0 < (#[trigger] windows[j]).0.0
}

/// The windows on the active desktops, by number, each on the first desktop it
/// was found on.
pub fn found_active_space_windows(
    queried: &[(WindowServerId, SpaceId)],
    last: &[(WindowServerId, SpaceId)],
) -> (windows: Vec<(WindowServerId, SpaceId)>)
    ensures
        by_number(windows@),
        forall|window: WindowServerId, space: SpaceId| #[trigger]
            windows@.contains((window, space)) <==> found_on(membership(queried@, last@), window)
                == Some(space),
{
    let list = if queried.len() == 0 {
        last
    } else {
        queried
    };
    let ghost all = membership(queried@, last@);
    assert(list@ == all);
    let mut windows: Vec<(WindowServerId, SpaceId)> = Vec::new();
    let mut i: usize = list.len();
    assert(all.skip(i as int) =~= Seq::<(WindowServerId, SpaceId)>::empty());
    while i > 0
        invariant
            list@ == all,
            i <= all.len(),
            by_number(windows@),
            forall|window: WindowServerId, space: SpaceId| #[trigger]
                windows@.contains((window, space)) <==> found_on(all.skip(i as int), window)
                    == Some(space),
        decreases i,
    {
        i = i - 1;
        let (window, space) = list[i];
        let ghost before = windows@;
        let mut at: usize = 0;
        while at < windows.len() && windows[at].0.0 < window.0
            invariant
                at <= windows@.len(),
                forall|x: int| 0 <= x < at ==> (#[trigger] windows@[x]).0.0 < window.0,
            decreases windows@.len() - at,
        {
            at = at + 1;
        }
        if at < windows.len() && windows[at].0.0 == window.0 {
            windows.set(at, (window, space));
        } else {
            windows.insert(at, (window, space));
        }
        proof {
            let after = windows@;
            let rest = all.skip(i as int);
            assert(rest.skip(1) =~= all.skip(i + 1));
            assert(rest[0] == (window, space));
            let replaced = at < before.len() && before[at as int].0 == window;
            assert forall|x: int, y: int| 0 <= x < y < after.len() implies (#[trigger] after[x]).0.0
                < (#[trigger] after[y]).0.0 by {
                if replaced {
                    if x != at {
                        assert(after[x] == before[x]);
                    }
                    if y != at {
                        assert(after[y] == before[y]);
                    }
                    assert(before[x].0.0 < before[y].0.0);
                } else {
                    let fx = if x < at { x } else { x - 1 };
                    let fy = if y < at { y } else { y - 1 };
                    if x != at {
                        assert(after[x] == before[fx]);
                    }
                    if y != at {
                        assert(after[y] == before[fy]);
                    }
                    if x == at && y > at + 1 {
                        assert(before[at as int].0.0 < before[fy].0.0);
                    }
                }
            }
            assert forall|w: WindowServerId, s: SpaceId| #[trigger]
                after.contains((w, s)) <==> found_on(rest, w) == Some(s) by {
                if w == window {
                    assert(after[at as int] == (window, space));
                    if after.contains((w, s)) {
                        let x = choose|x: int| 0 <= x < after.len() && after[x] == (w, s);
                        if x < at {
                            assert(after[x].0.0 < after[at as int].0.0);
                        } else if at < x {
                            assert(after[at as int].0.0 < after[x].0.0);
                        }
                    }
                } else {
                    assert(found_on(rest, w) == found_on(all.skip(i + 1), w));
                    if before.contains((w, s)) {
                        let x = choose|x: int| 0 <= x < before.len() && before[x] == (w, s);
                        let to = if replaced || x < at { x } else { x + 1 };
                        assert(after[to] == (w, s));
                    }
                    if after.contains((w, s)) {
                        let x = choose|x: int| 0 <= x < after.len() && after[x] == (w, s);
                        assert(x != at);
                        let from = if replaced || x < at { x } else { x - 1 };
                        assert(before[from] == (w, s));
                    }
                }
            }
        }
    }
    assert(all.skip(0) =~= all);
    windows
}

/// What is known of a window that nothing is known of.
pub open spec fn no_evidence() -> Evidence {
    Evidence {
        pinned: None,
        observation: None,
        homing: None,
        pending: None,
        in_flight: false,
        live: None,
        prior: None,
    }
}

/// Where a window is that was seen on `seen`, by that and what else is known.
pub open spec fn resolved_from(
    evidence: Table<WindowServerId, Evidence>,
    window: WindowServerId,
    seen: Option<SpaceId>,
) -> Option<SpaceId> {
    match evidence.at(window) {
        Some(known) => resolved(Evidence { observation: seen, ..known }),
        None => resolved(Evidence { observation: seen, ..no_evidence() }),
    }
}

/// Where a window is that was seen on `seen`, by that and what else is known.
pub fn resolve_seen(
    evidence: &Table<WindowServerId, Evidence>,
    window: WindowServerId,
    seen: Option<SpaceId>,
) -> (space: Option<SpaceId>)
    requires
        evidence.wf(),
    ensures
        space == resolved_from(*evidence, window, seen),
{
    let mut known = Evidence {
        pinned: None,
        observation: None,
        homing: None,
        pending: None,
        in_flight: false,
        live: None,
        prior: None,
    };
    match evidence.get(&window) {
        Some(found) => {
            known = *found;
        },
        None => {},
    }
    known.observation = seen;
    resolve_native_space(known)
}

/// Sorted by the window server's number, each window once.
pub open spec fn resolved_by_number(windows: Seq<(WindowServerId, Option<SpaceId>)>) -> bool {
    forall|i: int, j: int|
        0 <= i < j < windows.len() ==> (#[trigger] windows[i]).0.0 < (#[trigger] windows[j]).0.0
}

/// The windows on the active desktops, by number, each where the first desktop it
/// was found on and what else is known of it put it. Where a refresh came back
/// empty the windows reported last stand.
pub fn authoritative_active_space_windows(
    queried: &[(WindowServerId, SpaceId)],
    last: &[(WindowServerId, SpaceId)],
    evidence: &Table<WindowServerId, Evidence>,
) -> (windows: Vec<(WindowServerId, Option<SpaceId>)>)
    requires
        evidence.wf(),
    ensures
        resolved_by_number(windows@),
        forall|window: WindowServerId, space: Option<SpaceId>| #[trigger]
            windows@.contains((window, space)) <==> {
                let found = found_on(membership(queried@, last@), window);
                found is Some && space == resolved_from(*evidence, window, found)
            },
{
    let found = found_active_space_windows(queried, last);
    let mut windows: Vec<(WindowServerId, Option<SpaceId>)> = Vec::new();
    let mut i: usize = 0;
    while i < found.len()
        invariant
            evidence.wf(),
            i <= found@.len(),
            windows@.len() == i,
            forall|j: int|
                0 <= j < i ==> (#[trigger] windows@[j]) == (
                    found@[j].0,
                    resolved_from(*evidence, found@[j].0, Some(found@[j].1)),
                ),
        decreases found@.len() - i,
    {
        let (window, space) = found[i];
        windows.push((window, resolve_seen(evidence, window, Some(space))));
        i = i + 1;
    }
    proof {
        assert forall|window: WindowServerId, space: Option<SpaceId>| #[trigger]
            windows@.contains((window, space)) <==> {
                let at = found_on(membership(queried@, last@), window);
                at is Some && space == resolved_from(*evidence, window, at)
            } by {
            let at = found_on(membership(queried@, last@), window);
            if windows@.contains((window, space)) {
                let k = choose|k: int| 0 <= k < windows@.len() && windows@[k] == (window, space);
                assert(found@.contains(found@[k]));
                assert(found@.contains((window, found@[k].1)));
            }
            if at is Some && space == resolved_from(*evidence, window, at) {
                assert(found@.contains((window, at->0)));
                let k = choose|k: int| 0 <= k < found@.len() && found@[k] == (window, at->0);
                assert(windows@[k] == (window, space));
            }
        }
    }
    windows
}

/// The windows that were visible and are not in a report, which are hidden now.
/// Nothing is, when the report is empty although windows are known to be on the
/// active desktops: that is the window server waking.
pub open spec fn hidden_by(
    visible: Seq<WindowServerId>,
    reported: Seq<WindowServerId>,
    knows_windows: bool,
) -> Option<Seq<WindowServerId>> {
    if reported.len() == 0 && knows_windows {
        None
    } else {
        Some(visible.filter(crate::lists::not_among(reported)))
    }
}

/// The windows that a report hides, or nothing when it is not to be believed.
pub fn refresh_active_space_window_membership(
    visible: &[WindowServerId],
    reported: &[WindowServerId],
    knows_windows: bool,
) -> (hidden: Option<Vec<WindowServerId>>)
    ensures
        match hidden {
            Some(hidden) => hidden_by(visible@, reported@, knows_windows) == Some(hidden@),
            None => hidden_by(visible@, reported@, knows_windows) is None,
        },
{
    if reported.len() == 0 && knows_windows {
        return None;
    }
    Some(crate::lists::drop_listed(visible, reported))
}

/// Which window a native fullscreen window has come back as, by what is still
/// known of it, and the one it was.
#[derive(Clone, Copy, Debug, PartialEq, Eq, Structural)]
pub struct ReturnedWindow {
    /// The window it was recorded as, if that is known.
    pub recorded: Option<WindowId>,
    /// The window under the recorded number of the window server.
    pub by_recorded_number: Option<WindowId>,
    /// The window under the number it has now.
    pub by_number: Option<WindowId>,
    /// The window it was, if that is known.
    pub original: Option<WindowId>,
}

/// The window that owns what came back from native fullscreen.
pub fn fullscreen_owner(returned: ReturnedWindow) -> (owner: Option<WindowId>)
    ensures
        owner == owner_of(returned),
{
    if returned.recorded.is_some() {
        returned.recorded
    } else if returned.by_recorded_number.is_some() {
        returned.by_recorded_number
    } else if returned.by_number.is_some() {
        returned.by_number
    } else {
        returned.original
    }
}

/// What becomes of the window that owns what came back from native fullscreen.
#[derive(Clone, Copy, Debug, PartialEq, Eq, Structural)]
pub enum Return {
    /// It is assigned to the desktop, which is active: it is put back in the tree.
    PutBack,
    /// It is assigned to the desktop, which is not active.
    Stay,
    /// It is assigned to the desktop, by which it gets its slot back.
    Reassign,
}

/// What follows when a window comes back from native fullscreen.
#[derive(Clone, Copy, Debug, PartialEq, Eq, Structural)]
pub struct FullscreenReturn {
    pub owner: WindowId,
    /// The window that it was, which leaves its layout.
    pub removed: Option<WindowId>,
    /// The application that is asked for its windows.
    pub ask: Pid,
    pub follow: Return,
}

/// The window that owns what came back.
pub open spec fn owner_of(returned: ReturnedWindow) -> Option<WindowId> {
    first_of(
        returned.recorded,
        first_of(
            returned.by_recorded_number,
            first_of(returned.by_number, returned.original),
        ),
    )
}

/// What follows when the window `original` comes back to `space` from native
/// fullscreen, if a window owns what came back.
pub open spec fn fullscreen_return(
    returned: ReturnedWindow,
    original: WindowId,
    space: SpaceId,
    active: bool,
    assigned: Table<WindowId, SpaceId>,
) -> Option<FullscreenReturn> {
    match owner_of(returned) {
        Some(owner) => Some(
            FullscreenReturn {
                owner,
                removed: if owner != original && assigned.at(original) is Some {
                    Some(original)
                } else {
                    None
                },
                ask: owner.pid,
                follow: if assigned.at(owner) != Some(space) {
                    Return::Reassign
                } else if active {
                    Return::PutBack
                } else {
                    Return::Stay
                },
            },
        ),
        None => None,
    }
}

/// What follows when the window `original` comes back to `space` from native
/// fullscreen: the old window leaves if it is another and in a layout, the
/// application of the owner is asked for its windows, and the owner is put back
/// on the desktop if it is assigned there and that is active, else assigned.
pub fn restore_fullscreen_window_to_user_space(
    returned: ReturnedWindow,
    original: WindowId,
    space: SpaceId,
    active: bool,
    assigned: &Table<WindowId, SpaceId>,
) -> (after: Option<FullscreenReturn>)
    requires
        assigned.wf(),
    ensures
        after == fullscreen_return(returned, original, space, active, *assigned),
{
    let owner = match fullscreen_owner(returned) {
        Some(owner) => owner,
        None => {
            return None;
        },
    };
    let removed = if owner != original && assigned.contains_key(&original) {
        Some(original)
    } else {
        None
    };
    let there = match assigned.get(&owner) {
        Some(at) => *at == space,
        None => false,
    };
    let follow = if !there {
        Return::Reassign
    } else if active {
        Return::PutBack
    } else {
        Return::Stay
    };
    Some(FullscreenReturn { owner, removed, ask: owner.pid, follow })
}

/// The window under the number it was recorded by owns what came back, before any
/// other, and is asked after at its own application.
pub proof fn the_recorded_window_owns_what_came_back(
    returned: ReturnedWindow,
    original: WindowId,
    space: SpaceId,
    active: bool,
    assigned: Table<WindowId, SpaceId>,
)
    requires
        returned.recorded is Some,
    ensures
        fullscreen_return(returned, original, space, active, assigned) matches Some(after)
            && after.owner == returned.recorded->0 && after.ask == after.owner.pid,
{
}

/// The desktop that a list has last for a window.
pub open spec fn last_on(list: Seq<(WindowServerId, SpaceId)>, window: WindowServerId) -> Option<
    SpaceId,
>
    decreases list.len(),
{
    if list.len() == 0 {
        None
    } else if list.last().0 == window {
        Some(list.last().1)
    } else {
        last_on(list.drop_last(), window)
    }
}

/// The desktop that a list has last for a window.
fn last_space(list: &[(WindowServerId, SpaceId)], window: WindowServerId) -> (space: Option<
    SpaceId,
>)
    ensures
        space == last_on(list@, window),
{
    let mut i: usize = list.len();
    assert(list@.take(i as int) =~= list@);
    while i > 0
        invariant
            i <= list@.len(),
            last_on(list@, window) == last_on(list@.take(i as int), window),
        decreases i,
    {
        i = i - 1;
        if list[i].0 == window {
            assert(list@.take(i + 1).last() == list@[i as int]);
            return Some(list[i].1);
        }
        assert(list@.take(i + 1).drop_last() =~= list@.take(i as int));
    }
    None
}

/// The windows of a list.
pub open spec fn numbers(list: Seq<(WindowServerId, SpaceId)>) -> Seq<WindowServerId> {
    list.map_values(|entry: (WindowServerId, SpaceId)| entry.0)
}

/// The windows that came or went, each once.
pub open spec fn windows_of_delta(
    appeared: Seq<(WindowServerId, SpaceId)>,
    disappeared: Seq<(WindowServerId, SpaceId)>,
) -> Seq<WindowServerId> {
    deduped(numbers(appeared) + numbers(disappeared))
}

/// What is known of a window that came or went, besides where it was seen.
#[derive(Clone, Copy, Debug, PartialEq, Eq, Structural)]
pub struct DeltaWindow {
    /// The window under the number.
    pub window: WindowId,
    /// It is in the user's hand.
    pub held: bool,
    /// What native fullscreen has recorded of it, if it has.
    pub returned: Option<ReturnedWindow>,
}

/// What is done for a window that came or went, once it is noted where it is.
#[derive(Clone, Copy, Debug, PartialEq, Eq, Structural)]
pub enum DeltaFollow {
    Nothing,
    /// It comes back from native fullscreen.
    Return(FullscreenReturn),
    /// It is assigned to the desktop, in the workspace of the same place.
    Reassign(WindowId, SpaceId),
    /// It leaves the tree, a float staying one.
    Leave(WindowId),
}

/// A window that came or went.
#[derive(Clone, Copy, Debug, PartialEq, Eq, Structural)]
pub struct WindowDelta {
    pub number: WindowServerId,
    pub step: DeltaStep,
    pub follow: DeltaFollow,
}

/// What is known of the windows and desktops when windows come and go.
#[derive(Debug)]
pub struct DeltaState {
    pub evidence: Table<WindowServerId, Evidence>,
    pub windows: Table<WindowServerId, DeltaWindow>,
    pub assigned: Table<WindowId, SpaceId>,
    pub active: IdSet<SpaceId>,
}

impl DeltaState {
    pub open spec fn wf(&self) -> bool {
        self.evidence.wf() && self.windows.wf() && self.assigned.wf()
    }

    /// What is known of a window that appeared and disappeared on these desktops.
    pub open spec fn facts(
        &self,
        number: WindowServerId,
        appeared: Option<SpaceId>,
        disappeared: Option<SpaceId>,
    ) -> DeltaFacts {
        let at = resolved_from(self.evidence, number, appeared);
        let known = self.windows.at(number);
        DeltaFacts {
            appeared,
            disappeared,
            resolved: at,
            resolved_active: at matches Some(space) && self.active@.contains(space),
            free: known matches Some(known) && !known.held,
            assigned: match known {
                Some(known) => self.assigned.at(known.window),
                None => None,
            },
            disappeared_active: disappeared matches Some(space) && self.active@.contains(space),
        }
    }

    /// What is done for a window that appeared and disappeared on these desktops.
    /// The return from native fullscreen is tried before it is assigned.
    pub open spec fn delta(
        &self,
        number: WindowServerId,
        appeared: Option<SpaceId>,
        disappeared: Option<SpaceId>,
    ) -> WindowDelta {
        let step = delta_step(self.facts(number, appeared, disappeared));
        let follow = match self.windows.at(number) {
            Some(known) => match step {
                DeltaStep::Moved { space, .. } => {
                    let back = match known.returned {
                        Some(returned) => fullscreen_return(
                            returned,
                            known.window,
                            space,
                            self.active@.contains(space),
                            self.assigned,
                        ),
                        None => None,
                    };
                    match back {
                        Some(back) => DeltaFollow::Return(back),
                        None => DeltaFollow::Reassign(known.window, space),
                    }
                },
                DeltaStep::Gone { remove: true, .. } => DeltaFollow::Leave(known.window),
                _ => DeltaFollow::Nothing,
            },
            None => DeltaFollow::Nothing,
        };
        WindowDelta { number, step, follow }
    }

    fn window_delta(
        &self,
        number: WindowServerId,
        appeared: Option<SpaceId>,
        disappeared: Option<SpaceId>,
    ) -> (delta: WindowDelta)
        requires
            self.wf(),
        ensures
            delta == self.delta(number, appeared, disappeared),
    {
        let at = resolve_seen(&self.evidence, number, appeared);
        let known = match self.windows.get(&number) {
            Some(known) => Some(*known),
            None => None,
        };
        let assigned = match known {
            Some(known) => match self.assigned.get(&known.window) {
                Some(space) => Some(*space),
                None => None,
            },
            None => None,
        };
        let step = topology_delta_step(
            DeltaFacts {
                appeared,
                disappeared,
                resolved: at,
                resolved_active: match at {
                    Some(space) => self.active.contains(space),
                    None => false,
                },
                free: match known {
                    Some(known) => !known.held,
                    None => false,
                },
                assigned,
                disappeared_active: match disappeared {
                    Some(space) => self.active.contains(space),
                    None => false,
                },
            },
        );
        let follow = match known {
            Some(known) => match step {
                DeltaStep::Moved { space, .. } => {
                    let back = match known.returned {
                        Some(returned) => restore_fullscreen_window_to_user_space(
                            returned,
                            known.window,
                            space,
                            self.active.contains(space),
                            &self.assigned,
                        ),
                        None => None,
                    };
                    match back {
                        Some(back) => DeltaFollow::Return(back),
                        None => DeltaFollow::Reassign(known.window, space),
                    }
                },
                DeltaStep::Gone { remove, .. } => if remove {
                    DeltaFollow::Leave(known.window)
                } else {
                    DeltaFollow::Nothing
                },
                DeltaStep::Nothing => DeltaFollow::Nothing,
            },
            None => DeltaFollow::Nothing,
        };
        WindowDelta { number, step, follow }
    }

    /// What is done for the windows that came and went between desktops: each
    /// window once, by where it came to and where it went from together.
    pub fn apply_topology_window_delta(
        &self,
        appeared: &[(WindowServerId, SpaceId)],
        disappeared: &[(WindowServerId, SpaceId)],
    ) -> (deltas: Vec<WindowDelta>)
        requires
            self.wf(),
        ensures
            deltas@ == windows_of_delta(appeared@, disappeared@).map_values(
                |number: WindowServerId|
                    self.delta(
                        number,
                        last_on(appeared@, number),
                        last_on(disappeared@, number),
                    ),
            ),
    {
        let mut listed: Vec<WindowServerId> = Vec::new();
        push_numbers(&mut listed, appeared);
        push_numbers(&mut listed, disappeared);
        assert(listed@ =~= numbers(appeared@) + numbers(disappeared@));
        let once = dedup(listed.as_slice());
        let mut deltas: Vec<WindowDelta> = Vec::new();
        let mut i: usize = 0;
        while i < once.len()
            invariant
                self.wf(),
                i <= once@.len(),
                deltas@.len() == i,
                forall|j: int|
                    0 <= j < i ==> (#[trigger] deltas@[j]) == self.delta(
                        once@[j],
                        last_on(appeared@, once@[j]),
                        last_on(disappeared@, once@[j]),
                    ),
            decreases once@.len() - i,
        {
            let number = once[i];
            let came = last_space(appeared, number);
            let went = last_space(disappeared, number);
            deltas.push(self.window_delta(number, came, went));
            i = i + 1;
        }
        deltas
    }
}

fn push_numbers(listed: &mut Vec<WindowServerId>, list: &[(WindowServerId, SpaceId)])
    ensures
        final(listed)@ == old(listed)@ + numbers(list@),
{
    let ghost begun = listed@;
    let mut i: usize = 0;
    assert(begun + numbers(list@.take(0)) =~= begun);
    while i < list.len()
        invariant
            i <= list@.len(),
            listed@ == begun + numbers(list@.take(i as int)),
        decreases list@.len() - i,
    {
        listed.push(list[i].0);
        assert(numbers(list@.take(i + 1)) =~= numbers(list@.take(i as int)).push(
            list@[i as int].0,
        ));
        assert(listed@ =~= begun + numbers(list@.take(i + 1)));
        i = i + 1;
    }
    assert(list@.take(i as int) =~= list@);
}

/// Every window that came or went is dealt with, and none twice: one that went
/// from one desktop and came to another is one window.
pub proof fn a_window_that_came_and_went_is_one(
    appeared: Seq<(WindowServerId, SpaceId)>,
    disappeared: Seq<(WindowServerId, SpaceId)>,
    window: WindowServerId,
)
    ensures
        windows_of_delta(appeared, disappeared).no_duplicates(),
        windows_of_delta(appeared, disappeared).contains(window) <==> numbers(appeared).contains(
            window,
        ) || numbers(disappeared).contains(window),
{
    let all = numbers(appeared) + numbers(disappeared);
    lemma_deduped(all);
    assert(all.contains(window) <==> numbers(appeared).contains(window) || numbers(
        disappeared,
    ).contains(window)) by {
        if numbers(appeared).contains(window) {
            let k = numbers(appeared).index_of(window);
            assert(all[k] == window);
        }
        if numbers(disappeared).contains(window) {
            let k = numbers(disappeared).index_of(window);
            assert(all[numbers(appeared).len() + k] == window);
        }
    }
}

/// A known window that is resolved to be on a desktop is never left as it was: it
/// comes back from native fullscreen, or is assigned there.
pub proof fn a_window_that_moved_is_followed(
    state: DeltaState,
    number: WindowServerId,
    appeared: Option<SpaceId>,
    disappeared: Option<SpaceId>,
)
    requires
        state.windows.at(number) is Some,
        resolved_from(state.evidence, number, appeared) is Some,
    ensures
        state.delta(number, appeared, disappeared).follow is Return || state.delta(
            number,
            appeared,
            disappeared,
        ).follow is Reassign,
{
}

/// A window that was in native fullscreen.
#[derive(Clone, Copy, Debug, PartialEq, Eq, Structural)]
pub struct FullscreenRecord {
    pub window: WindowId,
    pub last_user_space: Option<SpaceId>,
    /// The desktop of the workspace it was in.
    pub workspace_space: Option<SpaceId>,
    /// The window it is now, if that is known.
    pub live: Option<WindowId>,
    /// The desktop that one is on.
    pub live_space: Option<SpaceId>,
}

/// The record is of a window that belongs on `space`.
pub open spec fn belongs_on(space: SpaceId) -> spec_fn(FullscreenRecord) -> bool {
    |record: FullscreenRecord|
        record.last_user_space == Some(space) || record.workspace_space == Some(space)
}

/// The records of windows that belong on `space`.
pub fn records_on(records: &[FullscreenRecord], space: SpaceId) -> (here: Vec<FullscreenRecord>)
    ensures
        here@ == records@.filter(belongs_on(space)),
{
    let mut here: Vec<FullscreenRecord> = Vec::new();
    let mut i: usize = 0;
    while i < records.len()
        invariant
            i <= records@.len(),
            here@ == records@.take(i as int).filter(belongs_on(space)),
        decreases records@.len() - i,
    {
        proof {
            assert(records@.take(i + 1) =~= records@.take(i as int).push(records@[i as int]));
            records@.take(i as int).lemma_filter_push(records@[i as int], belongs_on(space));
        }
        if same_space(records[i].last_user_space, space) || same_space(
            records[i].workspace_space,
            space,
        ) {
            here.push(records[i]);
        }
        i = i + 1;
    }
    assert(records@.take(i as int) =~= records@);
    here
}

/// Where a window is moved that has left native fullscreen: from the desktop it
/// is on to the one of its workspace, else the one it was last on, if that is
/// another.
pub fn move_after_fullscreen(record: FullscreenRecord) -> (moved: Option<(
    WindowId,
    SpaceId,
    SpaceId,
)>)
    ensures
        moved == match (record.live, first_of(record.workspace_space, record.last_user_space)) {
            (Some(window), Some(target)) => match record.live_space {
                Some(source) => if source != target {
                    Some((window, source, target))
                } else {
                    None
                },
                None => None,
            },
            _ => None,
        },
{
    let target = either(record.workspace_space, record.last_user_space);
    match (record.live, target, record.live_space) {
        (Some(window), Some(target), Some(source)) => if source != target {
            Some((window, source, target))
        } else {
            None
        },
        _ => None,
    }
}

/// A pin stands for the window it is for until its time is up, and for no other.
pub proof fn while_a_pin_holds(pin: DropPin, window: WindowServerId, now: Nanos)
    ensures
        pinned_to(None, window, now) is None,
        pin.window == window && now < pin.until ==> pinned_to(Some(pin), window, now) == Some(
            pin.space,
        ),
        pin.window != window || now >= pin.until ==> pinned_to(Some(pin), window, now) is None,
{
}

/// Which source wins: a pin over all; then the arrival of a window that was sent home;
/// then a write that is to land over an observation, unless that write has had its
/// time and the window server agrees with what was observed; an observation over what
/// is not observed; and without one the window server over the write, and both over
/// what was taken before.
pub proof fn which_source_wins(evidence: Evidence, observed: SpaceId, target: SpaceId)
    ensures
        evidence.pinned is Some ==> resolved(evidence) == evidence.pinned,
        evidence.pinned is None && evidence.observation == Some(observed) && evidence.homing == Some(
            observed,
        ) ==> resolved(evidence) == Some(observed),
        evidence.pinned is None && evidence.observation == Some(observed) && evidence.pending is None
            ==> resolved(evidence) == Some(observed),
        evidence.pinned is None && evidence.observation == Some(observed) && evidence.homing != Some(
            observed,
        ) && evidence.pending == Some(target) && evidence.in_flight ==> resolved(evidence) == Some(
            target,
        ),
        evidence.pinned is None && evidence.observation == Some(observed) && evidence.homing != Some(
            observed,
        ) && evidence.pending == Some(target) && !evidence.in_flight && evidence.live != Some(
            observed,
        ) ==> resolved(evidence) == Some(target),
        evidence.pinned is None && evidence.observation == Some(observed) && !evidence.in_flight
            && evidence.live == Some(observed) ==> resolved(evidence) == Some(observed),
        evidence.pinned is None && evidence.observation is None && evidence.live is Some
            ==> resolved(evidence) == evidence.live,
        evidence.pinned is None && evidence.observation is None && evidence.live is None
            && evidence.pending is Some ==> resolved(evidence) == evidence.pending,
        evidence.pinned is None && evidence.observation is None && evidence.live is None
            && evidence.pending is None ==> resolved(evidence) == evidence.prior,
{
}

/// A window is where it was seen if nothing else is known of it, and what it was seen
/// as is all that is taken from a report.
pub proof fn what_is_seen_counts(
    evidence: Table<WindowServerId, Evidence>,
    window: WindowServerId,
    seen: Option<SpaceId>,
)
    ensures
        evidence.at(window) is None ==> resolved_from(evidence, window, seen) == seen,
        evidence.at(window) is Some ==> resolved_from(evidence, window, seen) == resolved(
            Evidence { observation: seen, ..(evidence.at(window)->0) },
        ),
{
}

/// A frame is on the desktop that covers most of it; of two that cover as much, on the
/// one that is listed last.
pub proof fn which_desktop_covers_most(overlaps: Seq<(i64, SpaceId)>, at: int, other: int)
    requires
        covers_most(overlaps, at),
        0 <= other < overlaps.len(),
        other != at,
    ensures
        overlaps[at].0 > 0,
        overlaps[other].0 < overlaps[at].0 || (overlaps[other].0 == overlaps[at].0 && other < at),
{
    assert(overlaps[other].0 <= overlaps[at].0);
    if at < other {
        assert(overlaps[other].0 < overlaps[at].0);
    }
}

/// A window that came or went has moved to where it is resolved to be; else it is gone
/// from where it went from, and leaves the tree there only if it is known, not in the
/// user's hand, was assigned to that desktop and the desktop is active.
pub proof fn what_coming_and_going_leads_to(facts: DeltaFacts, space: SpaceId)
    ensures
        facts.resolved == Some(space) ==> delta_step(facts) == (DeltaStep::Moved {
            space,
            visible: facts.resolved_active,
            confirmed: facts.appeared == Some(space),
        }),
        facts.resolved is None && facts.disappeared == Some(space) && facts.free && facts.assigned
            == Some(space) && facts.disappeared_active ==> delta_step(facts) == (DeltaStep::Gone {
            space,
            remove: true,
        }),
        facts.resolved is None && facts.disappeared == Some(space) && (!facts.free || facts.assigned
            != Some(space) || !facts.disappeared_active) ==> delta_step(facts) == (
        DeltaStep::Gone { space, remove: false }),
        facts.resolved is None && facts.disappeared is None ==> delta_step(facts)
            == DeltaStep::Nothing,
{
}

/// What is known of a window that came or went is what was seen of it and what the
/// layout has.
pub proof fn what_is_known_of_a_delta(
    state: DeltaState,
    number: WindowServerId,
    appeared: Option<SpaceId>,
    disappeared: Option<SpaceId>,
    space: SpaceId,
)
    ensures
        ({
            let facts = state.facts(number, appeared, disappeared);
            let known = state.windows.at(number);
            &&& facts.appeared == appeared && facts.disappeared == disappeared
            &&& facts.resolved == resolved_from(state.evidence, number, appeared)
            &&& facts.resolved == Some(space) ==> facts.resolved_active
                == state.active@.contains(space)
            &&& disappeared == Some(space) ==> facts.disappeared_active
                == state.active@.contains(space)
            &&& known is None ==> !facts.free && facts.assigned is None
            &&& known is Some ==> facts.free == !known->0.held && facts.assigned
                == state.assigned.at(known->0.window)
        }),
{
}

/// What follows for a window that came or went: the return from native fullscreen is
/// tried first; one that has only moved is assigned where it is; one that leaves its
/// tree leaves it; and for one that is not known nothing follows.
pub proof fn what_follows_coming_and_going(
    state: DeltaState,
    number: WindowServerId,
    appeared: Option<SpaceId>,
    disappeared: Option<SpaceId>,
    space: SpaceId,
)
    ensures
        ({
            let delta = state.delta(number, appeared, disappeared);
            let at = resolved_from(state.evidence, number, appeared);
            let known = state.windows.at(number);
            &&& delta.number == number
            &&& known is None ==> delta.follow == DeltaFollow::Nothing
            &&& known is Some && at == Some(space) && known->0.returned is None ==> delta.follow
                == DeltaFollow::Reassign(known->0.window, space)
            &&& known is Some && at == Some(space) && known->0.returned is Some && owner_of(
                known->0.returned->0,
            ) is None ==> delta.follow == DeltaFollow::Reassign(known->0.window, space)
            &&& known is Some && at == Some(space) && known->0.returned is Some && owner_of(
                known->0.returned->0,
            ) is Some ==> (delta.follow matches DeltaFollow::Return(back) && Some(back.owner)
                == owner_of(known->0.returned->0))
            &&& known is Some && at is None && disappeared == Some(space) && !known->0.held
                && state.assigned.at(known->0.window) == Some(space) && state.active@.contains(space)
                ==> delta.follow == DeltaFollow::Leave(known->0.window)
            &&& known is Some && at is None && (disappeared is None || known->0.held
                || state.assigned.at(known->0.window) != disappeared || !state.active@.contains(
                disappeared->0,
            )) ==> delta.follow == DeltaFollow::Nothing
        }),
{
}

/// A window that a report left out: nothing is done while it is visible, not known or
/// on no active desktop; one that the window server has on another desktop that is not
/// active has moved there; any other leaves its tree unless the report is partial.
pub proof fn what_is_done_for_a_missing_window(facts: MissingFacts, space: SpaceId)
    ensures
        facts.visible || facts.assigned is None || !facts.assigned_active ==> missing_step(facts)
            == Missing::Nothing,
        !facts.visible && facts.assigned is Some && facts.assigned_active && facts.resolved == Some(
            space,
        ) && facts.assigned != Some(space) && !facts.resolved_active ==> missing_step(facts)
            == Missing::MovedTo(space),
        !facts.visible && facts.assigned is Some && facts.assigned_active && (facts.resolved is None
            || facts.resolved == facts.assigned || facts.resolved_active) && facts.preserve
            ==> missing_step(facts) == Missing::Nothing,
        !facts.visible && facts.assigned is Some && facts.assigned_active && (facts.resolved is None
            || facts.resolved == facts.assigned || facts.resolved_active) && !facts.preserve
            ==> missing_step(facts) == Missing::Remove,
{
}

/// The windows of an empty report are those reported last; of any other its own.
pub proof fn whose_windows_stand(
    queried: Seq<(WindowServerId, SpaceId)>,
    last: Seq<(WindowServerId, SpaceId)>,
)
    ensures
        queried.len() == 0 ==> membership(queried, last) == last,
        queried.len() > 0 ==> membership(queried, last) == queried,
{
}

/// A window was found on the first desktop that lists it, and last on the last.
pub proof fn where_a_window_was_found(
    list: Seq<(WindowServerId, SpaceId)>,
    window: WindowServerId,
    first: int,
    last: int,
)
    requires
        0 <= first < list.len(),
        0 <= last < list.len(),
        list[first].0 == window,
        list[last].0 == window,
        forall|i: int| 0 <= i < first ==> (#[trigger] list[i]).0 != window,
        forall|i: int| last < i < list.len() ==> (#[trigger] list[i]).0 != window,
    ensures
        found_on(list, window) == Some(list[first].1),
        last_on(list, window) == Some(list[last].1),
{
    lemma_found_on(list, window, first);
    lemma_last_on(list, window, last);
}

proof fn lemma_found_on(list: Seq<(WindowServerId, SpaceId)>, window: WindowServerId, at: int)
    requires
        0 <= at < list.len(),
        list[at].0 == window,
        forall|i: int| 0 <= i < at ==> (#[trigger] list[i]).0 != window,
    ensures
        found_on(list, window) == Some(list[at].1),
    decreases list.len(),
{
    if at > 0 {
        let rest = list.skip(1);
        assert(list[0].0 != window);
        assert forall|i: int| 0 <= i < at - 1 implies (#[trigger] rest[i]).0 != window by {
            assert(rest[i] == list[i + 1]);
        }
        lemma_found_on(rest, window, at - 1);
    }
}

proof fn lemma_last_on(list: Seq<(WindowServerId, SpaceId)>, window: WindowServerId, at: int)
    requires
        0 <= at < list.len(),
        list[at].0 == window,
        forall|i: int| at < i < list.len() ==> (#[trigger] list[i]).0 != window,
    ensures
        last_on(list, window) == Some(list[at].1),
    decreases list.len(),
{
    let front = list.drop_last();
    if at < front.len() {
        assert(list[list.len() - 1].0 != window);
        assert forall|i: int| at < i < front.len() implies (#[trigger] front[i]).0 != window by {
            assert(list[i] == front[i]);
        }
        lemma_last_on(front, window, at);
    }
}

/// A window that no list has was found nowhere.
pub proof fn a_window_that_is_not_listed_was_not_found(
    list: Seq<(WindowServerId, SpaceId)>,
    window: WindowServerId,
)
    requires
        forall|i: int| 0 <= i < list.len() ==> (#[trigger] list[i]).0 != window,
    ensures
        found_on(list, window) is None,
        last_on(list, window) is None,
    decreases list.len(),
{
    if list.len() > 0 {
        let rest = list.skip(1);
        let front = list.drop_last();
        assert(list[0].0 != window);
        assert(list[list.len() - 1].0 != window);
        assert forall|i: int| 0 <= i < rest.len() implies (#[trigger] rest[i]).0 != window by {
            assert(rest[i] == list[i + 1]);
        }
        assert forall|i: int| 0 <= i < front.len() implies (#[trigger] front[i]).0 != window by {
            assert(front[i] == list[i]);
        }
        a_window_that_is_not_listed_was_not_found(rest, window);
        a_window_that_is_not_listed_was_not_found(front, window);
    }
}

/// A report hides the windows that were visible and that it leaves out; an empty one
/// hides nothing while windows are known to be there.
pub proof fn what_a_report_hides(
    visible: Seq<WindowServerId>,
    reported: Seq<WindowServerId>,
    knows_windows: bool,
    window: WindowServerId,
)
    ensures
        reported.len() == 0 && knows_windows ==> hidden_by(visible, reported, knows_windows) is None,
        reported.len() > 0 || !knows_windows ==> (hidden_by(
            visible,
            reported,
            knows_windows,
        ) matches Some(hidden) && (hidden.contains(window) <==> visible.contains(window)
            && !reported.contains(window))),
{
    crate::lists::lemma_filter_holds(visible, crate::lists::not_among(reported), window);
}

/// What came back from native fullscreen is the window it was recorded as; else the one
/// under the recorded number; else the one under its number now; else the one it was;
/// and nothing follows if none of these is known.
pub proof fn who_owns_what_came_back(
    returned: ReturnedWindow,
    original: WindowId,
    space: SpaceId,
    active: bool,
    assigned: Table<WindowId, SpaceId>,
    owner: WindowId,
)
    ensures
        returned.recorded is None && returned.by_recorded_number == Some(owner) ==> owner_of(
            returned,
        ) == Some(owner),
        returned.recorded is None && returned.by_recorded_number is None && returned.by_number
            == Some(owner) ==> owner_of(returned) == Some(owner),
        returned.recorded is None && returned.by_recorded_number is None
            && returned.by_number is None ==> owner_of(returned) == returned.original,
        owner_of(returned) is None ==> fullscreen_return(
            returned,
            original,
            space,
            active,
            assigned,
        ) is None,
        owner_of(returned) == Some(owner) ==> (fullscreen_return(
            returned,
            original,
            space,
            active,
            assigned,
        ) matches Some(after) && {
            &&& after.owner == owner
            &&& after.ask == owner.pid
            &&& after.removed == Some(original) <==> owner != original && assigned.at(
                original,
            ) is Some
            &&& after.removed is None <==> owner == original || assigned.at(original) is None
            &&& assigned.at(owner) != Some(space) ==> after.follow == Return::Reassign
            &&& assigned.at(owner) == Some(space) && active ==> after.follow == Return::PutBack
            &&& assigned.at(owner) == Some(space) && !active ==> after.follow == Return::Stay
        }),
{
}

/// The records of a desktop are those of windows that were last on it or whose
/// workspace is on it.
pub proof fn which_records_are_of_a_desktop(
    records: Seq<FullscreenRecord>,
    one: FullscreenRecord,
    space: SpaceId,
)
    ensures
        one.last_user_space == Some(space) || one.workspace_space == Some(space) ==> records.push(
            one,
        ).filter(belongs_on(space)) == records.filter(belongs_on(space)).push(one),
        one.last_user_space != Some(space) && one.workspace_space != Some(space) ==> records.push(
            one,
        ).filter(belongs_on(space)) == records.filter(belongs_on(space)),
{
    crate::lists::lemma_filter_push(records, one, belongs_on(space));
}

/// What came back from full screen is dealt with for its owner: taken off the window it came
/// as if that is another and assigned, reassigned if it belongs elsewhere, and put back if
/// the desktop is active.
pub proof fn what_follows_a_return(
    state: DeltaState,
    number: WindowServerId,
    appeared: Option<SpaceId>,
    disappeared: Option<SpaceId>,
    space: SpaceId,
    owner: WindowId,
)
    requires
        state.windows.at(number) is Some,
        state.windows.at(number)->0.returned is Some,
        owner_of(state.windows.at(number)->0.returned->0) == Some(owner),
        resolved_from(state.evidence, number, appeared) == Some(space),
    ensures
        ({
            let known = state.windows.at(number)->0.window;
            let delta = state.delta(number, appeared, disappeared);
            &&& delta.follow matches DeltaFollow::Return(back) && {
                &&& back.owner == owner
                &&& back.ask == owner.pid
                &&& back.removed == Some(known) <==> owner != known && state.assigned.at(known) is Some
                &&& back.removed is None <==> owner == known || state.assigned.at(known) is None
                &&& state.assigned.at(owner) != Some(space) ==> back.follow == Return::Reassign
                &&& state.assigned.at(owner) == Some(space) && state.active@.contains(space)
                    ==> back.follow == Return::PutBack
                &&& state.assigned.at(owner) == Some(space) && !state.active@.contains(space)
                    ==> back.follow == Return::Stay
            }
        }),
{
}

/// A window is at a desktop, visible if that is active and confirmed if it was reported to
/// appear there; or gone from one; or neither.
pub proof fn what_coming_and_going_is(
    state: DeltaState,
    number: WindowServerId,
    appeared: Option<SpaceId>,
    disappeared: Option<SpaceId>,
    space: SpaceId,
)
    ensures
        ({
            let step = state.delta(number, appeared, disappeared).step;
            let at = resolved_from(state.evidence, number, appeared);
            &&& at == Some(space) ==> step == (DeltaStep::Moved {
                space,
                visible: state.active@.contains(space),
                confirmed: appeared == Some(space),
            })
            &&& at is None && disappeared == Some(space) ==> (step matches DeltaStep::Gone {
                space: from,
                ..
            } && from == space)
            &&& at is None && disappeared is None ==> step == DeltaStep::Nothing
        }),
{
}

/// The windows of a change are those that appeared, and behind them those that disappeared,
/// each at its first mention.
pub proof fn which_windows_a_change_is_of(
    appeared: Seq<(WindowServerId, SpaceId)>,
    disappeared: Seq<(WindowServerId, SpaceId)>,
    one: (WindowServerId, SpaceId),
    i: int,
)
    ensures
        numbers(appeared).len() == appeared.len(),
        0 <= i < appeared.len() ==> numbers(appeared)[i] == appeared[i].0,
        windows_of_delta(Seq::empty(), Seq::empty()).len() == 0,
        windows_of_delta(appeared, disappeared).contains(one.0) ==> windows_of_delta(
            appeared,
            disappeared.push(one),
        ) == windows_of_delta(appeared, disappeared),
        !windows_of_delta(appeared, disappeared).contains(one.0) ==> windows_of_delta(
            appeared,
            disappeared.push(one),
        ) == windows_of_delta(appeared, disappeared).push(one.0),
        windows_of_delta(appeared, Seq::empty()).contains(one.0) ==> windows_of_delta(
            appeared.push(one),
            Seq::empty(),
        ) == windows_of_delta(appeared, Seq::empty()),
        !windows_of_delta(appeared, Seq::empty()).contains(one.0) ==> windows_of_delta(
            appeared.push(one),
            Seq::empty(),
        ) == windows_of_delta(appeared, Seq::empty()).push(one.0),
{
    let before = numbers(appeared) + numbers(disappeared);
    crate::lists::lemma_deduped(before);
    crate::lists::what_is_kept_once(before, one.0);
    let after = numbers(appeared) + numbers(disappeared.push(one));
    assert(after =~= before.push(one.0));
    let none = Seq::<(WindowServerId, SpaceId)>::empty();
    let came = numbers(appeared) + numbers(none);
    crate::lists::lemma_deduped(came);
    crate::lists::what_is_kept_once(came, one.0);
    assert(numbers(appeared.push(one)) + numbers(none) =~= came.push(one.0));
    assert(numbers(none) + numbers(none) =~= Seq::<WindowServerId>::empty());
}

/// What a report hides stays in the order in which it was visible.
pub proof fn hidden_windows_keep_their_order(
    visible: Seq<WindowServerId>,
    reported: Seq<WindowServerId>,
)
    requires
        reported.len() > 0,
    ensures
        hidden_by(visible, reported, true) == Some(
            visible.filter(|window: WindowServerId| !reported.contains(window)),
        ),
        hidden_by(visible, reported, false) == hidden_by(visible, reported, true),
{
    assert(crate::lists::not_among(reported) =~= |window: WindowServerId| !reported.contains(window));
}

} // verus!
