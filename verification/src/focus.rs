//! Who has the focus, what is raised, and when the pointer follows.

use vstd::prelude::*;

use crate::clock::{elapsed, Nanos};
use crate::drag::first_of;
use crate::events::Quiet;
use crate::ids::{Pid, SpaceId, WindowId};
use crate::layout::Direction;
use crate::lists::{dedup, deduped};
use crate::managers::{RefocusState, WorkspaceSwitchManager, WorkspaceSwitchState};
use crate::screens::{holds_name, named};

verus! {

/// How long after a click a focus change is still taken to be its consequence.
pub const CLICK_FOCUS_GRACE: Nanos = 500_000_000;

/// What is known of the pointer when focus changes.
#[derive(Clone, Copy, Debug, PartialEq, Eq, Structural)]
pub struct PointerFacts {
    pub button_down: bool,
    /// When the button last came up.
    pub last_mouse_up: Option<Nanos>,
    pub key_pressed_since: bool,
    pub inside_window: bool,
    pub over_dock: bool,
}

/// The pointer is what changed focus: the button is down, or only just came up
/// with no key pressed since.
pub open spec fn pointer_driven(pointer: PointerFacts, now: Nanos) -> bool {
    pointer.button_down || ((pointer.last_mouse_up matches Some(at) && elapsed(now, at)
        < CLICK_FOCUS_GRACE) && !pointer.key_pressed_since)
}

/// Whether the pointer is what changed focus.
pub fn focus_change_is_pointer_driven(pointer: PointerFacts, now: Nanos) -> (driven: bool)
    ensures
        driven == pointer_driven(pointer, now),
{
    let recent = match pointer.last_mouse_up {
        Some(at) => elapsed(now, at) < CLICK_FOCUS_GRACE,
        None => false,
    };
    pointer.button_down || (recent && !pointer.key_pressed_since)
}

/// The setting, and no opt-out of the application: one without an id has none.
pub open spec fn permitted_for_app(
    configured: bool,
    blacklist: Seq<String>,
    bundle_id: Option<Seq<char>>,
) -> bool {
    configured && !(bundle_id matches Some(id) && named(blacklist, id))
}

/// Whether the pointer may follow focus onto a window of the application.
pub fn mouse_follows_focus_permitted_for_app(
    configured: bool,
    blacklist: &[String],
    bundle_id: &Option<String>,
) -> (permitted: bool)
    ensures
        permitted == permitted_for_app(
            configured,
            blacklist@,
            match *bundle_id {
                Some(id) => Some(id@),
                None => None,
            },
        ),
{
    if !configured {
        return false;
    }
    match bundle_id {
        Some(id) => !holds_name(blacklist, id),
        None => true,
    }
}

/// The pointer may follow focus onto a window: it is permitted, and the pointer
/// is neither what changed focus nor in the window. A click on the Dock, once
/// the button is up, asks to be taken there all the same.
pub open spec fn allowed_for(permitted: bool, pointer: PointerFacts, now: Nanos) -> bool {
    permitted && !((pointer_driven(pointer, now) || pointer.inside_window) && !(!pointer.button_down
        && pointer.over_dock))
}

/// Whether the pointer may follow focus onto a window.
pub fn mouse_follows_focus_allowed_for(permitted: bool, pointer: PointerFacts, now: Nanos) -> (
allowed: bool)
    ensures
        allowed == allowed_for(permitted, pointer, now),
{
    if !permitted {
        return false;
    }
    let there = focus_change_is_pointer_driven(pointer, now) || pointer.inside_window;
    let dock = !pointer.button_down && pointer.over_dock;
    !(there && !dock)
}

/// The pointer is never taken out of a drag.
pub proof fn a_held_button_keeps_the_pointer(permitted: bool, pointer: PointerFacts, now: Nanos)
    requires
        pointer.button_down,
    ensures
        !allowed_for(permitted, pointer, now),
{
}

/// How the pointer follows a focus change.
#[derive(Clone, Copy, Debug, PartialEq, Eq, Structural)]
pub enum FollowFocus {
    Stay,
    /// Once the workspace switch is over.
    AfterSwitch,
    Warp,
}

/// What keeps the pointer from following.
#[derive(Clone, Copy, Debug, PartialEq, Eq, Structural)]
pub struct FollowFacts {
    pub allowed: bool,
    /// There was no input since the session was restored.
    pub suppressed: bool,
    pub mission_control: bool,
    pub dragging: bool,
    pub modifier_drag: bool,
    pub switch_active: bool,
    /// The middle of the window is on a screen.
    pub on_screen: bool,
    /// The pointer goes there already.
    pub goes_there: bool,
}

/// How the pointer follows a focus change.
pub fn follow_focus_with_mouse(facts: FollowFacts) -> (how: FollowFocus)
    ensures
        how == if !facts.allowed || facts.suppressed || facts.mission_control || facts.dragging
            || facts.modifier_drag {
            FollowFocus::Stay
        } else if facts.switch_active {
            FollowFocus::AfterSwitch
        } else if facts.on_screen && !facts.goes_there {
            FollowFocus::Warp
        } else {
            FollowFocus::Stay
        },
{
    if !facts.allowed || facts.suppressed || facts.mission_control || facts.dragging
        || facts.modifier_drag {
        FollowFocus::Stay
    } else if facts.switch_active {
        FollowFocus::AfterSwitch
    } else if facts.on_screen && !facts.goes_there {
        FollowFocus::Warp
    } else {
        FollowFocus::Stay
    }
}

/// What a change of the focused window means.
#[derive(Clone, Copy, Debug, PartialEq, Eq, Structural)]
pub enum FocusChange {
    Same,
    /// Focus came back to the window it left from: the user is done with
    /// something that has no window, and the pointer stays.
    Returned(WindowId),
    /// Focus went to this window, and the pointer may follow.
    Went(WindowId),
    /// Focus went where there is no window.
    Left,
}

/// What a change of the focused window means, and the window that focus is away
/// from afterwards.
pub open spec fn focus_change(
    before: Option<WindowId>,
    after: Option<WindowId>,
    left_from: Option<WindowId>,
) -> (FocusChange, Option<WindowId>) {
    if before == after {
        (FocusChange::Same, left_from)
    } else {
        match after {
            Some(window) => if before is None && left_from == Some(window) {
                (FocusChange::Returned(window), None)
            } else {
                (FocusChange::Went(window), None)
            },
            None => (FocusChange::Left, before),
        }
    }
}

/// What a change of the focused window means. `left_from` is the window that
/// focus is away from, and is kept up.
pub fn note_focus_change(
    before: Option<WindowId>,
    after: Option<WindowId>,
    left_from: &mut Option<WindowId>,
) -> (change: FocusChange)
    ensures
        (change, *final(left_from)) == focus_change(before, after, *old(left_from)),
{
    let same = match (before, after) {
        (Some(a), Some(b)) => a == b,
        (None, None) => true,
        _ => false,
    };
    if same {
        return FocusChange::Same;
    }
    match after {
        Some(window) => {
            let back = match *left_from {
                Some(left) => left == window,
                None => false,
            };
            *left_from = None;
            if before.is_none() && back {
                FocusChange::Returned(window)
            } else {
                FocusChange::Went(window)
            }
        },
        None => {
            *left_from = before;
            FocusChange::Left
        },
    }
}

/// Leaving a window for something without one and coming back is no focus
/// change to follow.
pub proof fn a_return_is_not_followed(window: WindowId, left_from: Option<WindowId>)
    ensures
        ({
            let (_, left) = focus_change(Some(window), None, left_from);
            focus_change(None, Some(window), left) == (
                FocusChange::Returned(window),
                None::<WindowId>,
            )
        }),
{
}

/// Whether a click on the Dock is followed: with the left button, on the tile of
/// the application in front.
pub fn follows_dock_click(
    left_button: bool,
    on_dock: bool,
    tile: &Option<String>,
    front: &Option<String>,
) -> (follows: bool)
    ensures
        follows == (left_button && on_dock && match (*tile, *front) {
            (Some(tile), Some(front)) => tile@ == front@,
            _ => false,
        }),
{
    if !left_button || !on_dock {
        return false;
    }
    match (tile, front) {
        (Some(tile), Some(front)) => *tile == *front,
        _ => false,
    }
}

/// What is known of a window that focus may go to.
#[derive(Clone, Copy, Debug, PartialEq, Eq, Structural)]
pub struct FocusCandidate {
    pub window: WindowId,
    pub known: bool,
    /// The window server knows it.
    pub has_sys_id: bool,
    pub visible: bool,
    pub space: Option<SpaceId>,
    /// It is in the active workspace of the desktop asked for.
    pub in_active_workspace: bool,
}

/// The window last focused on `space`: still there, and not hidden.
pub open spec fn last_focused(candidate: Option<FocusCandidate>, space: SpaceId) -> Option<WindowId> {
    match candidate {
        Some(candidate) => if candidate.known && candidate.space == Some(space) && !(
        candidate.has_sys_id && !candidate.visible) {
            Some(candidate.window)
        } else {
            None
        },
        None => None,
    }
}

fn on_space(candidate: &FocusCandidate, space: SpaceId) -> (there: bool)
    ensures
        there == (candidate.space == Some(space)),
{
    match candidate.space {
        Some(there) => there == space,
        None => false,
    }
}

/// The window last focused on `space`: still there, and not hidden.
pub fn last_focused_window_in_space(candidate: Option<FocusCandidate>, space: SpaceId) -> (window:
    Option<WindowId>)
    ensures
        window == last_focused(candidate, space),
{
    match candidate {
        Some(candidate) => if candidate.known && on_space(&candidate, space) && !(
        candidate.has_sys_id && !candidate.visible) {
            Some(candidate.window)
        } else {
            None
        },
        None => None,
    }
}

/// The window can be seen in the active workspace of `space`.
pub open spec fn seen_in(candidate: FocusCandidate, space: SpaceId) -> bool {
    candidate.known && candidate.has_sys_id && candidate.visible && candidate.space == Some(space)
        && candidate.in_active_workspace
}

fn is_seen_in(candidate: &FocusCandidate, space: SpaceId) -> (seen: bool)
    ensures
        seen == seen_in(*candidate, space),
{
    candidate.known && candidate.has_sys_id && candidate.visible && on_space(candidate, space)
        && candidate.in_active_workspace
}

/// The first window that can be seen in the active workspace of `space`.
pub open spec fn first_seen(windows: Seq<FocusCandidate>, space: SpaceId) -> Option<WindowId>
    decreases windows.len(),
{
    if windows.len() == 0 {
        None
    } else if seen_in(windows[0], space) {
        Some(windows[0].window)
    } else {
        first_seen(windows.skip(1), space)
    }
}

/// The window to focus on `space`: the preferred one, else the one last focused,
/// else the first, of those that can be seen.
pub open spec fn focus_candidate(
    space: SpaceId,
    preferred: Option<FocusCandidate>,
    last: Option<FocusCandidate>,
    windows: Seq<FocusCandidate>,
) -> Option<WindowId> {
    if preferred matches Some(candidate) && seen_in(candidate, space) {
        Some(preferred->0.window)
    } else if last_focused(last, space) is Some && seen_in(last->0, space) {
        last_focused(last, space)
    } else {
        first_seen(windows, space)
    }
}

/// The window to focus on `space`.
pub fn visible_focus_candidate_in_active_workspace(
    space: SpaceId,
    preferred: Option<FocusCandidate>,
    last: Option<FocusCandidate>,
    windows: &[FocusCandidate],
) -> (window: Option<WindowId>)
    ensures
        window == focus_candidate(space, preferred, last, windows@),
{
    match &preferred {
        Some(candidate) => {
            if is_seen_in(candidate, space) {
                return Some(candidate.window);
            }
        },
        None => {},
    }
    match (last_focused_window_in_space(last, space), &last) {
        (Some(window), Some(candidate)) => {
            if is_seen_in(candidate, space) {
                return Some(window);
            }
        },
        _ => {},
    }
    let mut i: usize = 0;
    assert(windows@.skip(0) =~= windows@);
    while i < windows.len()
        invariant
            i <= windows@.len(),
            first_seen(windows@, space) == first_seen(windows@.skip(i as int), space),
            focus_candidate(space, preferred, last, windows@) == first_seen(windows@, space),
        decreases windows@.len() - i,
    {
        if is_seen_in(&windows[i], space) {
            return Some(windows[i].window);
        }
        assert(windows@.skip(i as int).skip(1) =~= windows@.skip(i + 1));
        i = i + 1;
    }
    None
}

/// A window above the one the pointer is over.
#[derive(Clone, Copy, Debug, PartialEq, Eq, Structural)]
pub struct Above {
    pub number: u32,
    /// It is a known floating window.
    pub floating: bool,
    /// Its frame lies within that of the one the pointer is over.
    pub inside: bool,
    pub level: Option<i32>,
    pub sub_level: i32,
}

/// The window above floats over the other on the same level, and would be
/// covered by raising that.
pub open spec fn would_be_covered(above: Above, level: Option<i32>, sub_level: i32) -> bool {
    above.floating && above.inside && above.level is Some && above.level == level && above.sub_level
        == sub_level
}

/// What is known of a window that the pointer is over.
#[derive(Clone, Copy, Debug, PartialEq, Eq, Structural)]
pub struct Hovered {
    pub known: bool,
    pub admitted: bool,
    pub floating: bool,
    pub menu_open: bool,
    /// It is on a desktop on which the manager is active, and in its active
    /// workspace.
    pub in_active_workspace: bool,
    pub number: Option<u32>,
    pub level: Option<i32>,
    pub sub_level: i32,
}

/// A window in front of the hovered one, which ends the list of those above,
/// would be covered.
pub open spec fn covers_a_float(order: Seq<Above>, hovered: Hovered) -> bool
    decreases order.len(),
{
    if order.len() == 0 || hovered.number == Some(order[0].number) {
        false
    } else {
        would_be_covered(order[0], hovered.level, hovered.sub_level) || covers_a_float(
            order.skip(1),
            hovered,
        )
    }
}

/// The window is raised when the pointer comes over it.
pub open spec fn raises(hovered: Hovered, order: Seq<Above>) -> bool {
    hovered.known && (hovered.admitted || hovered.floating) && !hovered.menu_open
        && hovered.in_active_workspace && (hovered.number is None || !covers_a_float(order, hovered))
}

/// Whether a window is raised when the pointer comes over it: it takes part in
/// the active workspace, no menu is open, and no float in front of it would be
/// covered. `order` has the windows of the desktop from the front.
pub fn should_raise_on_mouse_over(hovered: Hovered, order: &[Above]) -> (raise: bool)
    ensures
        raise == raises(hovered, order@),
{
    if !hovered.known || (!hovered.admitted && !hovered.floating) || hovered.menu_open
        || !hovered.in_active_workspace {
        return false;
    }
    let number = match hovered.number {
        Some(number) => number,
        None => {
            return true;
        },
    };
    let mut i: usize = 0;
    assert(order@.skip(0) =~= order@);
    while i < order.len()
        invariant
            i <= order@.len(),
            hovered.number == Some(number),
            covers_a_float(order@, hovered) == covers_a_float(order@.skip(i as int), hovered),
            raises(hovered, order@) == !covers_a_float(order@, hovered),
        decreases order@.len() - i,
    {
        let above = order[i];
        if above.number == number {
            return true;
        }
        let same_level = match (hovered.level, above.level) {
            (Some(a), Some(b)) => a == b,
            _ => false,
        };
        if above.floating && above.inside && same_level && hovered.sub_level == above.sub_level {
            return false;
        }
        assert(order@.skip(i as int).skip(1) =~= order@.skip(i + 1));
        i = i + 1;
    }
    true
}

/// What keeps an application's activation from switching workspaces.
#[derive(Clone, Copy, Debug, PartialEq, Eq, Structural)]
pub struct ActivationFacts {
    /// There was no input since the session was restored.
    pub suppressed: bool,
    /// A switch is settling.
    pub switch_settling: bool,
    /// The user is switching.
    pub manual_switch: bool,
    /// The active desktop is a fullscreen one.
    pub fullscreen: bool,
    /// The pointer is over a window of the application that takes no part in
    /// layouts.
    pub from_unmanaged: bool,
    /// The application has an id, and has not opted out.
    pub follows: bool,
    /// The main window, if it is the application's and takes part in layouts.
    pub window: Option<WindowId>,
    /// The desktop of that window.
    pub space: Option<SpaceId>,
}

/// The window and desktop that an application's activation may switch to.
pub fn activation_target(facts: ActivationFacts) -> (target: Option<(WindowId, SpaceId)>)
    ensures
        target == if facts.suppressed || facts.switch_settling || facts.manual_switch
            || facts.fullscreen || facts.from_unmanaged || !facts.follows {
            None
        } else {
            match (facts.window, facts.space) {
                (Some(window), Some(space)) => Some((window, space)),
                _ => None,
            }
        },
{
    if facts.suppressed || facts.switch_settling || facts.manual_switch || facts.fullscreen
        || facts.from_unmanaged || !facts.follows {
        return None;
    }
    match (facts.window, facts.space) {
        (Some(window), Some(space)) => Some((window, space)),
        _ => None,
    }
}

/// The place of the workspace that an activation switches to, if it is another
/// than the current one. Workspaces are named by number.
pub fn maybe_auto_switch(
    window_workspace: Option<usize>,
    current: Option<usize>,
    workspaces: &[usize],
) -> (index: Option<usize>)
    ensures
        match (window_workspace, current) {
            (Some(wanted), Some(current)) => if wanted == current {
                index is None
            } else {
                match index {
                    Some(at) => crate::lists::first_at(workspaces@, wanted, at as int),
                    None => !workspaces@.contains(wanted),
                }
            },
            _ => index is None,
        },
{
    match (window_workspace, current) {
        (Some(wanted), Some(current)) => if wanted == current {
            None
        } else {
            crate::lists::position(workspaces, wanted)
        },
        _ => None,
    }
}

/// How a response of the layout is begun with.
#[derive(Clone, Copy, Debug, PartialEq, Eq, Structural)]
pub enum ResponseStart {
    /// A drag is on: nothing is raised or focused, and the switch is over.
    Dragging,
    /// The layout was left at an edge: the next workspace is switched to, or the
    /// previous one.
    SwitchWorkspace { next: bool, space: SpaceId },
    /// It goes on, with the desktop that waits for focus.
    Continue { pending: Option<SpaceId> },
}

/// What is known when a response of the layout comes in.
#[derive(Clone, Copy, Debug, PartialEq, Eq, Structural)]
pub struct ResponseFacts {
    pub dragging: bool,
    pub boundary_hit: Option<Direction>,
    /// Leaving the layout at an edge switches workspaces.
    pub propagate: bool,
    pub invert_horizontal: bool,
    pub switch_space: Option<SpaceId>,
    /// The desktop that commands are for.
    pub command_space: Option<SpaceId>,
}

/// Whether leaving at this edge goes to the next workspace, or the previous one.
pub open spec fn edge_goes_next(direction: Direction, invert: bool) -> Option<bool> {
    match direction {
        Direction::Left => Some(invert),
        Direction::Right => Some(!invert),
        _ => None,
    }
}

/// How a response is begun with.
pub open spec fn response_start(facts: ResponseFacts, refocus: RefocusState) -> ResponseStart {
    let pending = match refocus {
        RefocusState::Pending(space) => Some(space),
        RefocusState::Idle => None,
    };
    if facts.dragging {
        ResponseStart::Dragging
    } else if facts.propagate && (facts.boundary_hit matches Some(direction) && edge_goes_next(
        direction,
        facts.invert_horizontal,
    ) is Some) && first_of(facts.switch_space, facts.command_space) is Some {
        ResponseStart::SwitchWorkspace {
            next: edge_goes_next(facts.boundary_hit->0, facts.invert_horizontal)->0,
            space: first_of(facts.switch_space, facts.command_space)->0,
        }
    } else {
        ResponseStart::Continue { pending }
    }
}

/// Begins with a response of the layout: takes the desktop that waits for
/// focus, unless a drag is on, which ends a workspace switch.
pub fn begin_layout_response(
    facts: ResponseFacts,
    refocus: &mut RefocusState,
    switch: &mut WorkspaceSwitchManager,
) -> (start: ResponseStart)
    ensures
        start == response_start(facts, *old(refocus)),
        *final(refocus) == if facts.dragging {
            *old(refocus)
        } else {
            RefocusState::Idle
        },
        *final(switch) == if facts.dragging {
            WorkspaceSwitchManager {
                workspace_switch_state: WorkspaceSwitchState::Inactive,
                pending_workspace_switch_origin: None,
                ..*old(switch)
            }
        } else {
            *old(switch)
        },
{
    if facts.dragging {
        switch.mark_workspace_switch_inactive();
        return ResponseStart::Dragging;
    }
    let pending = match *refocus {
        RefocusState::Pending(space) => Some(space),
        RefocusState::Idle => None,
    };
    *refocus = RefocusState::Idle;
    if facts.propagate {
        let next = match facts.boundary_hit {
            Some(Direction::Left) => Some(facts.invert_horizontal),
            Some(Direction::Right) => Some(!facts.invert_horizontal),
            _ => None,
        };
        let space = match facts.switch_space {
            Some(space) => Some(space),
            None => facts.command_space,
        };
        match (next, space) {
            (Some(next), Some(space)) => {
                return ResponseStart::SwitchWorkspace { next, space };
            },
            _ => {},
        }
    }
    ResponseStart::Continue { pending }
}

/// What stands in for focus when the layout names no window to raise or focus.
#[derive(Clone, Copy, Debug, PartialEq, Eq, Structural)]
pub enum Unraised {
    /// Nothing does.
    Nothing,
    /// This window is focused.
    Focus(WindowId),
    /// The desktop itself is focused.
    Desktop(SpaceId),
    /// What is under the pointer is focused, else the pointer put in the middle.
    UnderPointer(Option<SpaceId>),
}

/// What is known when the layout names no window.
#[derive(Clone, Copy, Debug, PartialEq, Eq, Structural)]
pub struct UnraisedFacts {
    pub switch_active: bool,
    pub under_pointer: Option<WindowId>,
    pub main_window: Option<WindowId>,
    pub switch_space: Option<SpaceId>,
    /// The active workspace of that desktop has no window.
    pub switch_space_empty: bool,
    pub command_space: Option<SpaceId>,
    /// The desktop that waits for focus, and the window last focused there.
    pub pending: Option<SpaceId>,
    pub last_focused: Option<WindowId>,
}

/// What stands in for focus when the layout names no window, and whether the
/// desktop that waits for focus is served.
pub open spec fn unraised(facts: UnraisedFacts) -> (Unraised, bool) {
    if facts.switch_active {
        match facts.under_pointer {
            Some(window) => if facts.main_window == Some(window) {
                (Unraised::Nothing, false)
            } else {
                (Unraised::Focus(window), false)
            },
            None => if facts.switch_space is Some && facts.switch_space_empty {
                (Unraised::Desktop(facts.switch_space->0), false)
            } else {
                (
                    Unraised::UnderPointer(first_of(facts.switch_space, facts.command_space)),
                    false,
                )
            },
        }
    } else {
        match facts.pending {
            Some(space) => match facts.last_focused {
                Some(window) => (Unraised::Focus(window), true),
                None => (Unraised::UnderPointer(Some(space)), true),
            },
            None => (Unraised::Nothing, false),
        }
    }
}

/// What stands in for focus when the layout names no window to raise or focus.
pub fn focus_without_raise(facts: UnraisedFacts) -> (what: (Unraised, bool))
    ensures
        what == unraised(facts),
{
    if facts.switch_active {
        match facts.under_pointer {
            Some(window) => {
                let main = match facts.main_window {
                    Some(main) => main == window,
                    None => false,
                };
                if main {
                    (Unraised::Nothing, false)
                } else {
                    (Unraised::Focus(window), false)
                }
            },
            None => match facts.switch_space {
                Some(space) => if facts.switch_space_empty {
                    (Unraised::Desktop(space), false)
                } else {
                    (Unraised::UnderPointer(Some(space)), false)
                },
                None => (Unraised::UnderPointer(facts.command_space), false),
            },
        }
    } else {
        match facts.pending {
            Some(space) => match facts.last_focused {
                Some(window) => (Unraised::Focus(window), true),
                None => (Unraised::UnderPointer(Some(space)), true),
            },
            None => (Unraised::Nothing, false),
        }
    }
}

/// What becomes of the window to focus once it was looked at.
#[derive(Clone, Copy, Debug, PartialEq, Eq, Structural)]
pub enum FocusCheck {
    Keep,
    Clear,
    /// It is hidden, and a switch is on: what is under the pointer is taken.
    UnderPointer(SpaceId),
}

/// What becomes of the window to focus: one that the window server knows is
/// dropped when it is hidden, or its desktop not active.
pub open spec fn focus_check(
    has_sys_id: bool,
    visible: bool,
    space_active: bool,
    switch_space: Option<SpaceId>,
) -> FocusCheck {
    if !has_sys_id {
        FocusCheck::Keep
    } else if !visible {
        match switch_space {
            Some(space) => FocusCheck::UnderPointer(space),
            None => FocusCheck::Clear,
        }
    } else if !space_active {
        FocusCheck::Clear
    } else {
        FocusCheck::Keep
    }
}

/// What becomes of the window to focus.
pub fn check_focus(
    has_sys_id: bool,
    visible: bool,
    space_active: bool,
    switch_space: Option<SpaceId>,
) -> (check: FocusCheck)
    ensures
        check == focus_check(has_sys_id, visible, space_active, switch_space),
{
    if !has_sys_id {
        FocusCheck::Keep
    } else if !visible {
        match switch_space {
            Some(space) => FocusCheck::UnderPointer(space),
            None => FocusCheck::Clear,
        }
    } else if !space_active {
        FocusCheck::Clear
    } else {
        FocusCheck::Keep
    }
}

/// What is under the pointer is focused, or stands in for focus.
#[derive(Clone, Copy, Debug, PartialEq, Eq, Structural)]
pub enum PointerFocus {
    /// This window is to be focused.
    Window(WindowId),
    /// A window that is not known was focused.
    Handled,
    /// The pointer goes to the middle of this desktop's screen.
    Warp(SpaceId),
    Nothing,
}

/// What stands in for focus by where the pointer is.
pub fn try_focus_or_warp_without_raise(
    under_pointer: Option<WindowId>,
    focused_unknown: bool,
    mouse_follows_focus: bool,
    space: Option<SpaceId>,
    space_has_screen: bool,
) -> (focus: PointerFocus)
    ensures
        focus == match under_pointer {
            Some(window) => PointerFocus::Window(window),
            None => if focused_unknown {
                PointerFocus::Handled
            } else if mouse_follows_focus && space is Some && space_has_screen {
                PointerFocus::Warp(space->0)
            } else {
                PointerFocus::Nothing
            },
        },
{
    match under_pointer {
        Some(window) => PointerFocus::Window(window),
        None => {
            if focused_unknown {
                return PointerFocus::Handled;
            }
            match space {
                Some(space) => if mouse_follows_focus && space_has_screen {
                    PointerFocus::Warp(space)
                } else {
                    PointerFocus::Nothing
                },
                None => PointerFocus::Nothing,
            }
        },
    }
}

/// Whether a response ends without a request to raise: there is nothing to raise
/// or focus, and something stood in for it or no switch is on. Something that
/// did ends the switch. What waits for focus and was not served waits on.
pub fn end_layout_response(
    nothing_to_raise: bool,
    handled: bool,
    pending: Option<SpaceId>,
    refocus: &mut RefocusState,
    switch: &mut WorkspaceSwitchManager,
) -> (ends: bool)
    ensures
        ends == (nothing_to_raise && (handled || old(switch).workspace_switch_state
            == WorkspaceSwitchState::Inactive)),
        *final(switch) == if nothing_to_raise && handled {
            WorkspaceSwitchManager {
                workspace_switch_state: WorkspaceSwitchState::Inactive,
                pending_workspace_switch_origin: None,
                ..*old(switch)
            }
        } else {
            *old(switch)
        },
        *final(refocus) == if !ends && pending is Some && *old(refocus) == RefocusState::Idle {
            RefocusState::Pending(pending->0)
        } else {
            *old(refocus)
        },
{
    if nothing_to_raise {
        if handled {
            switch.mark_workspace_switch_inactive();
            return true;
        }
        if switch.workspace_switch_state == WorkspaceSwitchState::Inactive {
            return true;
        }
    }
    match pending {
        Some(space) => {
            if *refocus == RefocusState::Idle {
                *refocus = RefocusState::Pending(space);
            }
        },
        None => {},
    }
    false
}

/// What a response of the layout waits for.
#[derive(Clone, Copy, Debug, PartialEq, Eq, Structural)]
pub enum ResponseStep {
    /// The desktop itself is to be focused.
    FocusDesktop(SpaceId),
    /// What is under the pointer is to be focused.
    UnderPointer(Option<SpaceId>),
    /// The window is to be looked at.
    Look(WindowId),
    /// Nothing: it is ready to be ended.
    Finish,
}

/// A response of the layout while it is carried out.
#[derive(Clone, Copy, Debug, PartialEq, Eq, Structural)]
pub struct LayoutResponse {
    /// There are windows to raise.
    pub raises: bool,
    /// The window to focus, as the response began.
    pub asked: Option<WindowId>,
    /// The window to focus, as far as is known now.
    pub focus: Option<WindowId>,
    pub switch_space: Option<SpaceId>,
    /// The desktop that waits for focus, until it is served.
    pub pending: Option<SpaceId>,
    /// Something stood in for focus.
    pub handled: bool,
    /// The window to focus was looked at, and is hidden.
    pub hidden: bool,
}

/// What the layout asks for: windows to raise, and one to focus.
#[derive(Clone, Copy, Debug, PartialEq, Eq, Structural)]
pub struct Asked {
    /// There are windows to raise.
    pub raises: bool,
    /// The window to focus.
    pub preferred: Option<FocusCandidate>,
    /// The window last focused on the desktop of the switch.
    pub last: Option<FocusCandidate>,
}

/// The window that the layout asks to focus. During a switch it is one that can
/// be seen on the desktop switched to, or none.
pub open spec fn asked_focus(
    asked: Asked,
    windows: Seq<FocusCandidate>,
    switch_space: Option<SpaceId>,
    switch_active: bool,
) -> Option<WindowId> {
    match switch_space {
        Some(space) if switch_active => focus_candidate(
            space,
            asked.preferred,
            asked.last,
            windows,
        ),
        _ => match asked.preferred {
            Some(candidate) => Some(candidate.window),
            None => None,
        },
    }
}

/// How a response of the layout is handled.
#[derive(Clone, Copy, Debug, PartialEq, Eq, Structural)]
pub enum ResponseHandling {
    /// A drag is on: nothing is raised or focused, and the switch is over.
    Dragging,
    /// The next workspace is switched to, or the previous one; what the layout
    /// answers to that is handled as a response of a switch on this desktop.
    SwitchWorkspace { next: bool, space: SpaceId },
    /// It is carried out.
    CarryOut(LayoutResponse),
}

/// How a response of the layout is handled, given what the layout asks for and
/// the windows of the desktop of the switch.
pub open spec fn response_handling(
    facts: ResponseFacts,
    asked: Asked,
    windows: Seq<FocusCandidate>,
    refocus: RefocusState,
    switch_active: bool,
) -> ResponseHandling {
    match response_start(facts, refocus) {
        ResponseStart::Dragging => ResponseHandling::Dragging,
        ResponseStart::SwitchWorkspace { next, space } => ResponseHandling::SwitchWorkspace {
            next,
            space,
        },
        ResponseStart::Continue { pending } => {
            let focus = asked_focus(asked, windows, facts.switch_space, switch_active);
            ResponseHandling::CarryOut(
                LayoutResponse {
                    raises: asked.raises,
                    asked: focus,
                    focus,
                    switch_space: facts.switch_space,
                    pending,
                    handled: false,
                    hidden: false,
                },
            )
        },
    }
}

/// Handles a response of the layout. During a drag nothing is raised, and a
/// workspace switch ends; otherwise the desktop that waits for focus is taken,
/// and the response is to be carried out.
pub fn handle_layout_response(
    facts: ResponseFacts,
    asked: Asked,
    windows: &[FocusCandidate],
    refocus: &mut RefocusState,
    switch: &mut WorkspaceSwitchManager,
) -> (handling: ResponseHandling)
    ensures
        handling == response_handling(
            facts,
            asked,
            windows@,
            *old(refocus),
            old(switch).workspace_switch_state == WorkspaceSwitchState::Active,
        ),
        *final(refocus) == if facts.dragging {
            *old(refocus)
        } else {
            RefocusState::Idle
        },
        *final(switch) == if facts.dragging {
            WorkspaceSwitchManager {
                workspace_switch_state: WorkspaceSwitchState::Inactive,
                pending_workspace_switch_origin: None,
                ..*old(switch)
            }
        } else {
            *old(switch)
        },
{
    match begin_layout_response(facts, refocus, switch) {
        ResponseStart::Dragging => ResponseHandling::Dragging,
        ResponseStart::SwitchWorkspace { next, space } => ResponseHandling::SwitchWorkspace {
            next,
            space,
        },
        ResponseStart::Continue { pending } => {
            let active = switch.workspace_switch_state == WorkspaceSwitchState::Active;
            ResponseHandling::CarryOut(
                LayoutResponse::new(asked, windows, facts.switch_space, active, pending),
            )
        },
    }
}

/// The windows to raise that are on active desktops are these groups: each
/// application and desktop once, with all of its windows, in order.
pub open spec fn are_groups(groups: Seq<RaiseGroup>, raises: Seq<RaiseWindow>) -> bool {
    &&& groups_once(groups)
    &&& forall|i: int|
        0 <= i < groups.len() ==> (#[trigger] groups[i]).windows@ == raises.filter_map(
            raised_with(groups[i].pid, groups[i].space),
        )
    &&& forall|k: int|
        0 <= k < raises.len() && (#[trigger] raises[k]).space_active ==> exists|i: int|
            0 <= i < groups.len() && (#[trigger] groups[i]).pid == raises[k].window.pid
                && groups[i].space == raises[k].space
}

/// What is asked of the raise manager.
#[derive(Debug)]
pub struct RaiseRequest {
    pub groups: Vec<RaiseGroup>,
    pub focus: Option<WindowId>,
    /// Quiet in a workspace switch: the activation is the manager's own doing.
    pub quiet: Quiet,
    /// The applications whose windows are raised or were asked to be focused,
    /// each once.
    pub apps: Vec<Pid>,
    /// The focus of the workspace that was switched to, which the layout is told.
    pub commit: Option<(SpaceId, Option<WindowId>)>,
}

/// The application of a window to raise.
pub open spec fn raised_app() -> spec_fn(RaiseWindow) -> Pid {
    |raise: RaiseWindow| raise.window.pid
}

/// The application of a window, if there is one.
pub open spec fn app_of(window: Option<WindowId>) -> Seq<Pid> {
    match window {
        Some(window) => seq![window.pid],
        None => Seq::empty(),
    }
}

impl LayoutResponse {
    /// Begins to carry out a response. During a switch the window to focus is one
    /// that can be seen on the desktop switched to, or none.
    pub fn new(
        asked: Asked,
        windows: &[FocusCandidate],
        switch_space: Option<SpaceId>,
        switch_active: bool,
        pending: Option<SpaceId>,
    ) -> (response: LayoutResponse)
        ensures
            response == (LayoutResponse {
                raises: asked.raises,
                asked: asked_focus(asked, windows@, switch_space, switch_active),
                focus: asked_focus(asked, windows@, switch_space, switch_active),
                switch_space,
                pending,
                handled: false,
                hidden: false,
            }),
    {
        let mut focus = match asked.preferred {
            Some(candidate) => Some(candidate.window),
            None => None,
        };
        match switch_space {
            Some(space) => {
                if switch_active {
                    focus = visible_focus_candidate_in_active_workspace(
                        space,
                        asked.preferred,
                        asked.last,
                        windows,
                    );
                }
            },
            None => {},
        }
        LayoutResponse {
            raises: asked.raises,
            asked: focus,
            focus,
            switch_space,
            pending,
            handled: false,
            hidden: false,
        }
    }

    /// What is asked of the raise manager: the windows to raise that are on
    /// active desktops, and the window to focus, if its desktop is active. It is
    /// quiet exactly in a workspace switch, whose desktop is told of the focus.
    pub fn raise_request(&self, raises: &[RaiseWindow], focus_active: bool) -> (request:
        RaiseRequest)
        ensures
            are_groups(request.groups@, raises@),
            request.focus == if focus_active {
                self.focus
            } else {
                None
            },
            request.quiet == if self.switch_space is Some {
                Quiet::Yes
            } else {
                Quiet::No
            },
            request.apps@ == deduped(raises@.map_values(raised_app()) + app_of(self.asked)),
            request.commit == match self.switch_space {
                Some(space) => Some((space, request.focus)),
                None => None,
            },
    {
        let focus = if focus_active {
            self.focus
        } else {
            None
        };
        let quiet = if self.switch_space.is_some() {
            Quiet::Yes
        } else {
            Quiet::No
        };
        let commit = match self.switch_space {
            Some(space) => Some((space, focus)),
            None => None,
        };
        let mut pids: Vec<Pid> = Vec::new();
        let mut i: usize = 0;
        while i < raises.len()
            invariant
                i <= raises@.len(),
                pids@ == raises@.map_values(raised_app()).take(i as int),
            decreases raises@.len() - i,
        {
            pids.push(raises[i].window.pid);
            assert(pids@ =~= raises@.map_values(raised_app()).take(i + 1));
            i = i + 1;
        }
        assert(pids@ =~= raises@.map_values(raised_app()));
        match self.asked {
            Some(window) => pids.push(window.pid),
            None => {},
        }
        assert(pids@ =~= raises@.map_values(raised_app()) + app_of(self.asked));
        RaiseRequest { groups: group_raises(raises), focus, quiet, apps: dedup(&pids), commit }
    }

    /// A window to focus is looked at first.
    pub open spec fn looks(self) -> ResponseStep {
        match self.focus {
            Some(window) => ResponseStep::Look(window),
            None => ResponseStep::Finish,
        }
    }

    /// What the response is, and waits for, once it is clear what stands in for
    /// focus where the layout names no window.
    pub open spec fn stood_in(self, facts: UnraisedFacts) -> (LayoutResponse, ResponseStep) {
        if self.raises || self.focus is Some {
            (self, self.looks())
        } else {
            let (what, served) = unraised(facts);
            let next = LayoutResponse {
                pending: if served {
                    None
                } else {
                    self.pending
                },
                ..self
            };
            match what {
                Unraised::Nothing => (next, ResponseStep::Finish),
                Unraised::Focus(window) => (
                    LayoutResponse { focus: Some(window), ..next },
                    ResponseStep::Look(window),
                ),
                Unraised::Desktop(space) => (next, ResponseStep::FocusDesktop(space)),
                Unraised::UnderPointer(space) => (next, ResponseStep::UnderPointer(space)),
            }
        }
    }

    /// Finds what stands in for focus where the layout names no window.
    pub fn stand_in(&mut self, facts: UnraisedFacts) -> (step: ResponseStep)
        ensures
            (*final(self), step) == old(self).stood_in(facts),
    {
        if !self.raises && self.focus.is_none() {
            let (what, served) = focus_without_raise(facts);
            if served {
                self.pending = None;
            }
            match what {
                Unraised::Nothing => {},
                Unraised::Focus(window) => {
                    self.focus = Some(window);
                },
                Unraised::Desktop(space) => {
                    return ResponseStep::FocusDesktop(space);
                },
                Unraised::UnderPointer(space) => {
                    return ResponseStep::UnderPointer(space);
                },
            }
        }
        match self.focus {
            Some(window) => ResponseStep::Look(window),
            None => ResponseStep::Finish,
        }
    }

    /// The desktop was focused, or could not be.
    pub fn desktop_focused(&mut self, done: bool) -> (step: ResponseStep)
        ensures
            *final(self) == (LayoutResponse { handled: done, ..*old(self) }),
            step == old(self).looks(),
    {
        self.handled = done;
        match self.focus {
            Some(window) => ResponseStep::Look(window),
            None => ResponseStep::Finish,
        }
    }

    /// The response once it is known what the pointer is over. In place of a
    /// hidden window only a window is taken.
    pub open spec fn after_pointer(self, found: PointerFocus) -> LayoutResponse {
        match found {
            PointerFocus::Window(window) => LayoutResponse { focus: Some(window), ..self },
            PointerFocus::Handled | PointerFocus::Warp(_) => LayoutResponse {
                handled: self.handled || !self.hidden,
                ..self
            },
            PointerFocus::Nothing => self,
        }
    }

    /// It is known what the pointer is over. A window there is looked at, unless
    /// one was.
    pub fn pointed(&mut self, found: PointerFocus) -> (step: ResponseStep)
        ensures
            *final(self) == old(self).after_pointer(found),
            step == if old(self).hidden {
                ResponseStep::Finish
            } else {
                final(self).looks()
            },
    {
        match found {
            PointerFocus::Window(window) => {
                self.focus = Some(window);
            },
            PointerFocus::Handled | PointerFocus::Warp(_) => {
                if !self.hidden {
                    self.handled = true;
                }
            },
            PointerFocus::Nothing => {},
        }
        if self.hidden {
            return ResponseStep::Finish;
        }
        match self.focus {
            Some(window) => ResponseStep::Look(window),
            None => ResponseStep::Finish,
        }
    }

    /// The response once its window was looked at.
    pub open spec fn after_look(self, check: FocusCheck) -> (LayoutResponse, ResponseStep) {
        match check {
            FocusCheck::Keep => (self, ResponseStep::Finish),
            FocusCheck::Clear => (LayoutResponse { focus: None, ..self }, ResponseStep::Finish),
            FocusCheck::UnderPointer(space) => (
                LayoutResponse { focus: None, hidden: true, ..self },
                ResponseStep::UnderPointer(Some(space)),
            ),
        }
    }

    /// The window to focus was looked at: one that the window server knows is
    /// dropped when it is hidden, or its desktop not active.
    pub fn looked(&mut self, has_sys_id: bool, visible: bool, space_active: bool) -> (step:
        ResponseStep)
        ensures
            (*final(self), step) == old(self).after_look(
                focus_check(has_sys_id, visible, space_active, old(self).switch_space),
            ),
    {
        match check_focus(has_sys_id, visible, space_active, self.switch_space) {
            FocusCheck::Keep => ResponseStep::Finish,
            FocusCheck::Clear => {
                self.focus = None;
                ResponseStep::Finish
            },
            FocusCheck::UnderPointer(space) => {
                self.focus = None;
                self.hidden = true;
                ResponseStep::UnderPointer(Some(space))
            },
        }
    }

    /// Ends the response; whether nothing is left to raise or focus is returned.
    pub fn finish(&self, refocus: &mut RefocusState, switch: &mut WorkspaceSwitchManager) -> (ends:
        bool)
        ensures
            ends == (!self.raises && self.focus is None && (self.handled
                || old(switch).workspace_switch_state == WorkspaceSwitchState::Inactive)),
            *final(switch) == if !self.raises && self.focus is None && self.handled {
                WorkspaceSwitchManager {
                    workspace_switch_state: WorkspaceSwitchState::Inactive,
                    pending_workspace_switch_origin: None,
                    ..*old(switch)
                }
            } else {
                *old(switch)
            },
            *final(refocus) == if !ends && self.pending is Some && *old(refocus)
                == RefocusState::Idle {
                RefocusState::Pending(self.pending->0)
            } else {
                *old(refocus)
            },
    {
        end_layout_response(
            !self.raises && self.focus.is_none(),
            self.handled,
            self.pending,
            refocus,
            switch,
        )
    }

    /// Completes the response: what is asked of the raise manager, and what
    /// becomes of the pointer, unless nothing is left to raise or focus.
    pub fn complete(
        &self,
        raises: &[RaiseWindow],
        focus_active: bool,
        follows: bool,
        refocus: &mut RefocusState,
        switch: &mut WorkspaceSwitchManager,
    ) -> (request: Option<(RaiseRequest, ResponseWarp)>)
        ensures
            request is None == (!self.raises && self.focus is None && (self.handled
                || old(switch).workspace_switch_state == WorkspaceSwitchState::Inactive)),
            request matches Some((request, warp)) ==> {
                &&& are_groups(request.groups@, raises@)
                &&& request.focus == if focus_active {
                    self.focus
                } else {
                    None
                }
                &&& request.quiet == if self.switch_space is Some {
                    Quiet::Yes
                } else {
                    Quiet::No
                }
                &&& request.apps@ == deduped(
                    raises@.map_values(raised_app()) + app_of(self.asked),
                )
                &&& request.commit == match self.switch_space {
                    Some(space) => Some((space, request.focus)),
                    None => None,
                }
                &&& warp == if request.focus is None || !follows {
                    ResponseWarp::Stay
                } else if old(switch).workspace_switch_state == WorkspaceSwitchState::Active {
                    ResponseWarp::AfterSwitch
                } else {
                    ResponseWarp::Warp
                }
                &&& *final(switch) == if warp == ResponseWarp::AfterSwitch {
                    WorkspaceSwitchManager {
                        pending_workspace_mouse_warp: request.focus,
                        ..*old(switch)
                    }
                } else {
                    *old(switch)
                }
                &&& *final(refocus) == if self.pending is Some && *old(refocus)
                    == RefocusState::Idle {
                    RefocusState::Pending(self.pending->0)
                } else {
                    *old(refocus)
                }
            },
            request is None ==> {
                &&& *final(refocus) == *old(refocus)
                &&& *final(switch) == if self.handled {
                    WorkspaceSwitchManager {
                        workspace_switch_state: WorkspaceSwitchState::Inactive,
                        pending_workspace_switch_origin: None,
                        ..*old(switch)
                    }
                } else {
                    *old(switch)
                }
            },
    {
        if self.finish(refocus, switch) {
            return None;
        }
        let request = self.raise_request(raises, focus_active);
        let warp = match request.focus {
            Some(window) => warp_with_focus(follows, window, switch),
            None => ResponseWarp::Stay,
        };
        Some((request, warp))
    }
}

/// A hidden window does not get the focus: once looked at, it is given up, and
/// only another window, which the pointer is over, takes its place.
pub proof fn a_hidden_window_is_not_focused(
    response: LayoutResponse,
    space_active: bool,
    found: PointerFocus,
)
    ensures
        ({
            let (after, step) = response.after_look(
                focus_check(true, false, space_active, response.switch_space),
            );
            &&& after.focus is None
            &&& after.after_pointer(found).focus == match found {
                PointerFocus::Window(window) => Some(window),
                _ => None,
            }
        }),
{
}

/// A desktop that waits for focus goes on waiting, or is served: it is not lost
/// while a response is carried out.
pub proof fn a_waiting_desktop_is_served_or_waits(
    response: LayoutResponse,
    facts: UnraisedFacts,
    space: SpaceId,
)
    requires
        response.pending == Some(space),
        facts.pending == Some(space),
    ensures
        ({
            let (after, step) = response.stood_in(facts);
            ||| after.pending == Some(space)
            ||| step == ResponseStep::UnderPointer(Some(space))
            ||| after.focus == facts.last_focused && after.focus is Some
        }),
{
}

/// A window to raise, with the desktop it is on.
#[derive(Clone, Copy, Debug, PartialEq, Eq, Structural)]
pub struct RaiseWindow {
    pub window: WindowId,
    pub space: Option<SpaceId>,
    pub space_active: bool,
}

/// Being of this application, on this desktop, which is active.
pub open spec fn raised_with(pid: Pid, space: Option<SpaceId>) -> spec_fn(RaiseWindow) -> Option<
    WindowId,
> {
    |raise: RaiseWindow|
        if raise.space_active && raise.window.pid == pid && raise.space == space {
            Some(raise.window)
        } else {
            None
        }
}

/// Windows that are raised together.
#[derive(Debug)]
pub struct RaiseGroup {
    pub pid: Pid,
    pub space: Option<SpaceId>,
    pub windows: Vec<WindowId>,
}

fn same_option(a: Option<SpaceId>, b: Option<SpaceId>) -> (same: bool)
    ensures
        same == (a == b),
{
    match (a, b) {
        (Some(a), Some(b)) => a == b,
        (None, None) => true,
        _ => false,
    }
}

/// Each application and desktop is there once.
pub open spec fn groups_once(groups: Seq<RaiseGroup>) -> bool {
    forall|i: int, j: int|
        0 <= i < j < groups.len() ==> (#[trigger] groups[i]).pid != (#[trigger] groups[j]).pid
            || groups[i].space != groups[j].space
}

/// The windows to raise that are on active desktops, by application and desktop.
pub fn group_raises(raises: &[RaiseWindow]) -> (groups: Vec<RaiseGroup>)
    ensures
        are_groups(groups@, raises@),
{
    let mut groups: Vec<RaiseGroup> = Vec::new();
    let mut i: usize = 0;
    while i < raises.len()
        invariant
            i <= raises@.len(),
            groups_once(groups@),
            forall|g: int|
                0 <= g < groups@.len() ==> (#[trigger] groups@[g]).windows@ == raises@.filter_map(
                    raised_with(groups@[g].pid, groups@[g].space),
                ),
            forall|k: int|
                0 <= k < i && (#[trigger] raises@[k]).space_active ==> exists|g: int|
                    0 <= g < groups@.len() && (#[trigger] groups@[g]).pid == raises@[k].window.pid
                        && groups@[g].space == raises@[k].space,
        decreases raises@.len() - i,
    {
        let raise = raises[i];
        let ghost before = groups@;
        if raise.space_active {
            let mut known = false;
            let mut g: usize = 0;
            while g < groups.len()
                invariant
                    g <= groups@.len(),
                    known == exists|k: int|
                        0 <= k < g && (#[trigger] groups@[k]).pid == raise.window.pid
                            && groups@[k].space == raise.space,
                decreases groups@.len() - g,
            {
                if groups[g].pid == raise.window.pid && same_option(groups[g].space, raise.space) {
                    assert(groups@[g as int].pid == raise.window.pid);
                    known = true;
                }
                g = g + 1;
            }
            if !known {
                let windows = collect_raises(raises, raise.window.pid, raise.space);
                groups.push(RaiseGroup { pid: raise.window.pid, space: raise.space, windows });
                assert(groups@[before.len() as int].pid == raise.window.pid);
            }
        }
        proof {
            assert forall|k: int| 0 <= k < i + 1 && (#[trigger] raises@[k]).space_active implies
                exists|g: int|
                0 <= g < groups@.len() && (#[trigger] groups@[g]).pid == raises@[k].window.pid
                    && groups@[g].space == raises@[k].space by {
                if k < i {
                    let g = choose|g: int|
                        0 <= g < before.len() && (#[trigger] before[g]).pid == raises@[k].window.pid
                            && before[g].space == raises@[k].space;
                    assert(groups@[g] == before[g]);
                }
            }
        }
        i = i + 1;
    }
    groups
}

fn collect_raises(raises: &[RaiseWindow], pid: Pid, space: Option<SpaceId>) -> (windows: Vec<
    WindowId,
>)
    ensures
        windows@ == raises@.filter_map(raised_with(pid, space)),
{
    let ghost f = raised_with(pid, space);
    let mut windows: Vec<WindowId> = Vec::new();
    let mut i: usize = 0;
    while i < raises.len()
        invariant
            f == raised_with(pid, space),
            i <= raises@.len(),
            windows@ == raises@.take(i as int).filter_map(f),
        decreases raises@.len() - i,
    {
        proof {
            raises@.lemma_filter_map_take_succ(f, i as int);
        }
        if raises[i].space_active && raises[i].window.pid == pid && same_option(
            raises[i].space,
            space,
        ) {
            windows.push(raises[i].window);
        }
        assert(windows@ =~= raises@.take(i + 1).filter_map(f));
        i = i + 1;
    }
    assert(raises@.take(i as int) =~= raises@);
    windows
}

/// Whatever a response asks of the raise manager is on an active desktop: each
/// window to raise is one of those that were to be raised and are on one, and a
/// window is focused only if it is.
pub proof fn only_windows_on_active_desktops_are_raised(
    response: LayoutResponse,
    raises: Seq<RaiseWindow>,
    focus_active: bool,
    request: RaiseRequest,
    group: int,
    at: int,
)
    requires
        are_groups(request.groups@, raises),
        request.focus == if focus_active {
            response.focus
        } else {
            None
        },
        0 <= group < request.groups@.len(),
        0 <= at < request.groups@[group].windows@.len(),
    ensures
        exists|k: int|
            0 <= k < raises.len() && (#[trigger] raises[k]).window
                == request.groups@[group].windows@[at] && raises[k].space_active,
        request.focus is Some ==> focus_active,
{
    let f = raised_with(request.groups@[group].pid, request.groups@[group].space);
    assert(request.groups@[group].windows@ == raises.filter_map(f));
    lemma_raised(raises, request.groups@[group].pid, request.groups@[group].space, at);
}

proof fn lemma_raised(raises: Seq<RaiseWindow>, pid: Pid, space: Option<SpaceId>, at: int)
    requires
        0 <= at < raises.filter_map(raised_with(pid, space)).len(),
    ensures
        exists|k: int|
            0 <= k < raises.len() && (#[trigger] raises[k]).window == raises.filter_map(
                raised_with(pid, space),
            )[at] && raises[k].space_active,
    decreases raises.len(),
{
    let f = raised_with(pid, space);
    if raises.len() == 0 {
        assert(raises.filter_map(f) =~= Seq::<WindowId>::empty());
    } else {
        let n = (raises.len() - 1) as int;
        let front = raises.take(n);
        raises.lemma_filter_map_take_succ(f, n);
        assert(raises.take(n + 1) =~= raises);
        if at < front.filter_map(f).len() {
            lemma_raised(front, pid, space, at);
            let k = choose|k: int|
                0 <= k < front.len() && (#[trigger] front[k]).window == front.filter_map(f)[at]
                    && front[k].space_active;
            assert(raises[k] == front[k]);
        } else {
            assert(raises[n].space_active);
        }
    }
}

/// A response during a drag comes to nothing: it is not carried out, and leaves
/// what waits for focus waiting.
pub proof fn a_drag_raises_nothing(
    facts: ResponseFacts,
    asked: Asked,
    windows: Seq<FocusCandidate>,
    refocus: RefocusState,
    switch_active: bool,
)
    requires
        facts.dragging,
    ensures
        response_handling(facts, asked, windows, refocus, switch_active)
            == ResponseHandling::Dragging,
{
}

/// In a switch only a window that can be seen on the desktop switched to is asked
/// to be focused.
pub proof fn a_switch_focuses_what_can_be_seen(
    asked: Asked,
    windows: Seq<FocusCandidate>,
    space: SpaceId,
)
    ensures
        asked_focus(asked, windows, Some(space), true) matches Some(window) ==> (
        asked.preferred matches Some(c) && c.window == window && seen_in(c, space)) || (
        asked.last matches Some(c) && c.window == window && seen_in(c, space)) || exists|i: int|
            0 <= i < windows.len() && (#[trigger] windows[i]).window == window && seen_in(
                windows[i],
                space,
            ),
{
    lemma_first_seen(windows, space);
}

proof fn lemma_first_seen(windows: Seq<FocusCandidate>, space: SpaceId)
    ensures
        first_seen(windows, space) matches Some(window) ==> exists|i: int|
            0 <= i < windows.len() && (#[trigger] windows[i]).window == window && seen_in(
                windows[i],
                space,
            ),
    decreases windows.len(),
{
    if windows.len() > 0 && !seen_in(windows[0], space) {
        let rest = windows.skip(1);
        lemma_first_seen(rest, space);
        if first_seen(rest, space) is Some {
            let i = choose|i: int|
                0 <= i < rest.len() && (#[trigger] rest[i]).window == first_seen(rest, space)->0
                    && seen_in(rest[i], space);
            assert(windows[i + 1] == rest[i]);
        }
    }
}

/// What becomes of the pointer when a window is focused by a response.
#[derive(Clone, Copy, Debug, PartialEq, Eq, Structural)]
pub enum ResponseWarp {
    Stay,
    /// Once the workspace switch is over.
    AfterSwitch,
    /// To the middle of the window.
    Warp,
}

/// What becomes of the pointer when a window is focused by a response. During a
/// workspace switch it follows once the layout is done.
pub fn warp_with_focus(allowed: bool, window: WindowId, switch: &mut WorkspaceSwitchManager) -> (
how: ResponseWarp)
    ensures
        how == if !allowed {
            ResponseWarp::Stay
        } else if old(switch).workspace_switch_state == WorkspaceSwitchState::Active {
            ResponseWarp::AfterSwitch
        } else {
            ResponseWarp::Warp
        },
        *final(switch) == if how == ResponseWarp::AfterSwitch {
            WorkspaceSwitchManager { pending_workspace_mouse_warp: Some(window), ..*old(switch) }
        } else {
            *old(switch)
        },
{
    if !allowed {
        return ResponseWarp::Stay;
    }
    if switch.workspace_switch_state == WorkspaceSwitchState::Active {
        switch.pending_workspace_mouse_warp = Some(window);
        return ResponseWarp::AfterSwitch;
    }
    ResponseWarp::Warp
}

/// Whether the desktop itself is focused: it is active, without a window, and a
/// screen shows it.
pub fn focuses_desktop(active: bool, workspace_empty: bool, has_screen: bool) -> (focuses: bool)
    ensures
        focuses == (active && workspace_empty && has_screen),
{
    active && workspace_empty && has_screen
}

/// Whether a window that is not known is focused because the pointer is over it:
/// an ordinary one, and not part of the system.
pub fn focuses_unknown_window(known: bool, layer: Option<i32>) -> (focuses: bool)
    ensures
        focuses == (!known && layer == Some(0i32)),
{
    match layer {
        Some(layer) => !known && layer == 0,
        None => false,
    }
}

/// Whether a command for the focused window is aimed at one that is not managed.
/// Without a window in front, it is when the application in front is not the one
/// that the layout has the focus in.
pub fn focused_window_is_unmanaged(
    front: Option<WindowId>,
    front_admitted: bool,
    front_app: Option<Pid>,
    layout_focus: Option<WindowId>,
) -> (unmanaged: bool)
    ensures
        unmanaged == match front {
            Some(_) => !front_admitted,
            None => match front_app {
                Some(pid) => !(layout_focus matches Some(window) && window.pid == pid),
                None => false,
            },
        },
{
    match front {
        Some(_) => !front_admitted,
        None => match front_app {
            Some(pid) => match layout_focus {
                Some(window) => window.pid != pid,
                None => true,
            },
            None => false,
        },
    }
}

/// The window that the layout's focus is brought in line with before a command:
/// the admitted one in front, if it is another, on an active desktop.
pub fn layout_focus_for_command(
    target: Option<WindowId>,
    admitted: bool,
    layout_focus: Option<WindowId>,
    space: Option<SpaceId>,
    space_active: bool,
) -> (focus: Option<(SpaceId, WindowId)>)
    ensures
        focus == match (target, space) {
            (Some(window), Some(space)) => if admitted && layout_focus != Some(window)
                && space_active {
                Some((space, window))
            } else {
                None
            },
            _ => None,
        },
{
    match (target, space) {
        (Some(window), Some(space)) => {
            let there = match layout_focus {
                Some(focused) => focused == window,
                None => false,
            };
            if admitted && !there && space_active {
                Some((space, window))
            } else {
                None
            }
        },
        _ => None,
    }
}

/// The desktop that commands are for: the workspace's, else that of the layout's
/// focus, else that of the main window, if active.
pub fn command_context_space(
    workspace_space: Option<SpaceId>,
    focus_space: Option<SpaceId>,
    focus_active: bool,
    main_space: Option<SpaceId>,
    main_active: bool,
) -> (space: Option<SpaceId>)
    ensures
        space == if workspace_space is Some {
            workspace_space
        } else if focus_space is Some && focus_active {
            focus_space
        } else if main_space is Some && main_active {
            main_space
        } else {
            None
        },
{
    if workspace_space.is_some() {
        workspace_space
    } else if focus_space.is_some() && focus_active {
        focus_space
    } else if main_space.is_some() && main_active {
        main_space
    } else {
        None
    }
}

/// A change of focus is the pointer's while the button is down, and for half a second
/// after it came up unless a key was pressed since.
pub proof fn when_the_pointer_changed_focus(pointer: PointerFacts, now: Nanos)
    ensures
        pointer.button_down ==> pointer_driven(pointer, now),
        !pointer.button_down && pointer.key_pressed_since ==> !pointer_driven(pointer, now),
        !pointer.button_down && pointer.last_mouse_up is None ==> !pointer_driven(pointer, now),
        !pointer.button_down && !pointer.key_pressed_since && (pointer.last_mouse_up matches Some(at)
            && now - at < 500 * crate::clock::MILLISECOND) ==> pointer_driven(pointer, now),
        !pointer.button_down && (pointer.last_mouse_up matches Some(at) && now - at >= 500
            * crate::clock::MILLISECOND) ==> !pointer_driven(pointer, now),
{
}

/// The pointer may follow focus where that is set, unless the application has opted out.
pub proof fn when_the_pointer_may_follow_into_an_application(
    configured: bool,
    blacklist: Seq<String>,
    id: Seq<char>,
)
    ensures
        !permitted_for_app(false, blacklist, Some(id)),
        permitted_for_app(configured, blacklist, None) == configured,
        permitted_for_app(true, blacklist, Some(id)) <==> forall|i: int|
            0 <= i < blacklist.len() ==> (#[trigger] blacklist[i])@ != id,
{
    if permitted_for_app(true, blacklist, Some(id)) {
        assert forall|i: int| 0 <= i < blacklist.len() implies (#[trigger] blacklist[i])@ != id by {
            assert(!named(blacklist, id));
        }
    }
}

/// The pointer follows focus onto a window where it may, unless it changed the focus or is
/// there; a click on the Dock whose button is up asks for it all the same.
pub proof fn when_the_pointer_follows(pointer: PointerFacts, now: Nanos)
    ensures
        !allowed_for(false, pointer, now),
        !pointer.button_down && pointer.over_dock ==> allowed_for(true, pointer, now),
        !pointer.over_dock && pointer.inside_window ==> !allowed_for(true, pointer, now),
        !pointer.over_dock && pointer_driven(pointer, now) ==> !allowed_for(true, pointer, now),
        !pointer.inside_window && !pointer_driven(pointer, now) ==> allowed_for(true, pointer, now),
{
}

/// What a change of focus means: none where it is the same; a return where focus was away
/// from that window; going there else; and leaving where there is no window, which is
/// remembered.
pub proof fn what_a_change_of_focus_means(
    before: Option<WindowId>,
    after: Option<WindowId>,
    left_from: Option<WindowId>,
    window: WindowId,
)
    ensures
        before == after ==> focus_change(before, after, left_from) == (FocusChange::Same, left_from),
        before != after && after == Some(window) && before is None && left_from == Some(window)
            ==> focus_change(before, after, left_from) == (
            FocusChange::Returned(window),
            None::<WindowId>,
        ),
        before != after && after == Some(window) && (before is Some || left_from != Some(window))
            ==> focus_change(before, after, left_from) == (
            FocusChange::Went(window),
            None::<WindowId>,
        ),
        before is Some && after is None ==> focus_change(before, after, left_from) == (
            FocusChange::Left,
            before,
        ),
{
}

/// The window last focused on a desktop counts while it is known, still there, and not
/// hidden as far as the window server says.
pub proof fn which_window_was_last_focused(candidate: FocusCandidate, space: SpaceId)
    ensures
        last_focused(None, space) is None,
        last_focused(Some(candidate), space) == Some(candidate.window) <==> candidate.known
            && candidate.space == Some(space) && (!candidate.has_sys_id || candidate.visible),
        last_focused(Some(candidate), space) is None <==> !(candidate.known && candidate.space
            == Some(space) && (!candidate.has_sys_id || candidate.visible)),
{
}

proof fn lemma_first_seen_at(windows: Seq<FocusCandidate>, space: SpaceId, at: int)
    requires
        0 <= at <= windows.len(),
        at < windows.len() ==> seen_in(windows[at], space),
        forall|i: int| 0 <= i < at ==> !seen_in(#[trigger] windows[i], space),
    ensures
        at < windows.len() ==> first_seen(windows, space) == Some(windows[at].window),
        at == windows.len() ==> first_seen(windows, space) is None,
    decreases windows.len(),
{
    if at > 0 {
        let rest = windows.skip(1);
        assert(!seen_in(windows[0], space));
        assert forall|i: int| 0 <= i < at - 1 implies !seen_in(#[trigger] rest[i], space) by {
            assert(rest[i] == windows[i + 1]);
        }
        lemma_first_seen_at(rest, space, at - 1);
    }
}

/// The window to focus on a desktop is the preferred one if it can be seen there; else the
/// one last focused if that can; else the first that can; and none if none can.
pub proof fn which_window_is_focused(
    space: SpaceId,
    preferred: Option<FocusCandidate>,
    last: Option<FocusCandidate>,
    windows: Seq<FocusCandidate>,
    at: int,
)
    requires
        0 <= at <= windows.len(),
        at < windows.len() ==> seen_in(windows[at], space),
        forall|i: int| 0 <= i < at ==> !seen_in(#[trigger] windows[i], space),
    ensures
        ({
            let focus = focus_candidate(space, preferred, last, windows);
            let wanted = preferred is Some && seen_in(preferred->0, space);
            let before = last is Some && seen_in(last->0, space);
            &&& wanted ==> focus == Some(preferred->0.window)
            &&& !wanted && before ==> focus == Some(last->0.window)
            &&& !wanted && !before && at < windows.len() ==> focus == Some(windows[at].window)
            &&& !wanted && !before && at == windows.len() ==> focus is None
        }),
{
    lemma_first_seen_at(windows, space, at);
}

/// A window can be seen on a desktop if it is known, visible to the window server, and in
/// the active workspace of that desktop.
pub proof fn which_windows_can_be_seen(candidate: FocusCandidate, space: SpaceId)
    ensures
        seen_in(candidate, space) <==> candidate.known && candidate.has_sys_id && candidate.visible
            && candidate.space == Some(space) && candidate.in_active_workspace,
{
}

/// Raising the window under the pointer covers a float if one of the windows in front of
/// it is a float inside its frame on the same level.
pub proof fn when_a_float_would_be_covered(order: Seq<Above>, hovered: Hovered, at: int)
    requires
        0 <= at <= order.len(),
        at < order.len() ==> hovered.number == Some(order[at].number),
        forall|i: int| 0 <= i < at ==> hovered.number != Some((#[trigger] order[i]).number),
    ensures
        covers_a_float(order, hovered) <==> exists|i: int|
            #![trigger order[i]]
            0 <= i < at && order[i].floating && order[i].inside && order[i].level is Some
                && order[i].level == hovered.level && order[i].sub_level == hovered.sub_level,
    decreases order.len(),
{
    if at > 0 {
        let rest = order.skip(1);
        assert(hovered.number != Some(order[0].number));
        assert forall|i: int| 0 <= i < at - 1 implies hovered.number != Some(
            (#[trigger] rest[i]).number,
        ) by {
            assert(rest[i] == order[i + 1]);
        }
        when_a_float_would_be_covered(rest, hovered, at - 1);
        if covers_a_float(rest, hovered) {
            let i = choose|i: int|
                #![trigger rest[i]]
                0 <= i < at - 1 && rest[i].floating && rest[i].inside && rest[i].level is Some
                    && rest[i].level == hovered.level && rest[i].sub_level == hovered.sub_level;
            assert(order[i + 1] == rest[i]);
        }
        if exists|i: int|
            #![trigger order[i]]
            0 <= i < at && order[i].floating && order[i].inside && order[i].level is Some
                && order[i].level == hovered.level && order[i].sub_level == hovered.sub_level {
            let i = choose|i: int|
                #![trigger order[i]]
                0 <= i < at && order[i].floating && order[i].inside && order[i].level is Some
                    && order[i].level == hovered.level && order[i].sub_level == hovered.sub_level;
            if i > 0 {
                assert(rest[i - 1] == order[i]);
            }
        }
    }
}

/// The window under the pointer is raised if it is known, takes part or floats, is in the
/// active workspace, no menu is open, and no float would be covered.
pub proof fn when_a_window_is_raised(hovered: Hovered, order: Seq<Above>)
    ensures
        !hovered.known || hovered.menu_open || !hovered.in_active_workspace || (!hovered.admitted
            && !hovered.floating) ==> !raises(hovered, order),
        hovered.known && !hovered.menu_open && hovered.in_active_workspace && (hovered.admitted
            || hovered.floating) && hovered.number is None ==> raises(hovered, order),
        hovered.known && !hovered.menu_open && hovered.in_active_workspace && (hovered.admitted
            || hovered.floating) && hovered.number is Some ==> raises(hovered, order)
            == !covers_a_float(order, hovered),
{
}

/// Leaving at the left goes to the previous workspace and at the right to the next, the
/// other way round where that is inverted; other edges go nowhere.
pub proof fn where_an_edge_goes(invert: bool)
    ensures
        edge_goes_next(Direction::Left, false) == Some(false),
        edge_goes_next(Direction::Right, false) == Some(true),
        edge_goes_next(Direction::Left, true) == Some(true),
        edge_goes_next(Direction::Right, true) == Some(false),
        edge_goes_next(Direction::Up, invert) is None,
        edge_goes_next(Direction::Down, invert) is None,
{
}

/// How a response begins outside a drag: it switches workspaces where the layout was left
/// at the left or right, that propagates and there is a desktop to do it on; else it goes
/// on with the desktop that waits for focus.
pub proof fn how_a_response_begins(facts: ResponseFacts, refocus: RefocusState, space: SpaceId)
    requires
        !facts.dragging,
    ensures
        ({
            let start = response_start(facts, refocus);
            let left = facts.boundary_hit == Some(Direction::Left);
            let right = facts.boundary_hit == Some(Direction::Right);
            let on = facts.switch_space == Some(space) || (facts.switch_space is None
                && facts.command_space == Some(space));
            &&& facts.propagate && left && on ==> start == (ResponseStart::SwitchWorkspace {
                next: facts.invert_horizontal,
                space,
            })
            &&& facts.propagate && right && on ==> start == (ResponseStart::SwitchWorkspace {
                next: !facts.invert_horizontal,
                space,
            })
            &&& !facts.propagate || (!left && !right) || (facts.switch_space is None
                && facts.command_space is None) ==> start is Continue
            &&& start is Continue && refocus == RefocusState::Pending(space) ==> start == (
            ResponseStart::Continue { pending: Some(space) })
            &&& start is Continue && refocus == RefocusState::Idle ==> start == (
            ResponseStart::Continue { pending: None })
        }),
{
}

/// What stands in for focus. In a switch: the window under the pointer, unless it is the
/// main one; where there is none the desktop, if that has no window, else what is under
/// the pointer. Outside: the window last focused on the desktop that waits, else what is
/// under the pointer there; and nothing where none waits.
pub proof fn what_stands_in_for_focus(facts: UnraisedFacts, window: WindowId, space: SpaceId)
    ensures
        facts.switch_active && facts.under_pointer == Some(window) && facts.main_window == Some(
            window,
        ) ==> unraised(facts) == (Unraised::Nothing, false),
        facts.switch_active && facts.under_pointer == Some(window) && facts.main_window != Some(
            window,
        ) ==> unraised(facts) == (Unraised::Focus(window), false),
        facts.switch_active && facts.under_pointer is None && facts.switch_space == Some(space)
            && facts.switch_space_empty ==> unraised(facts) == (Unraised::Desktop(space), false),
        facts.switch_active && facts.under_pointer is None && facts.switch_space == Some(space)
            && !facts.switch_space_empty ==> unraised(facts) == (
            Unraised::UnderPointer(Some(space)),
            false,
        ),
        facts.switch_active && facts.under_pointer is None && facts.switch_space is None
            ==> unraised(facts) == (Unraised::UnderPointer(facts.command_space), false),
        !facts.switch_active && facts.pending is None ==> unraised(facts) == (
            Unraised::Nothing,
            false,
        ),
        !facts.switch_active && facts.pending is Some && facts.last_focused == Some(window)
            ==> unraised(facts) == (Unraised::Focus(window), true),
        !facts.switch_active && facts.pending == Some(space) && facts.last_focused is None
            ==> unraised(facts) == (Unraised::UnderPointer(Some(space)), true),
{
}

/// A window to focus is kept if the window server does not know it, or shows it on an
/// active desktop; a hidden one gives way to what is under the pointer in a switch, and
/// else to none; one on a desktop that is not active is dropped.
pub proof fn which_focus_is_kept(
    visible: bool,
    space_active: bool,
    switch_space: Option<SpaceId>,
    space: SpaceId,
)
    ensures
        focus_check(false, visible, space_active, switch_space) == FocusCheck::Keep,
        focus_check(true, true, true, switch_space) == FocusCheck::Keep,
        focus_check(true, true, false, switch_space) == FocusCheck::Clear,
        focus_check(true, false, space_active, None) == FocusCheck::Clear,
        focus_check(true, false, space_active, Some(space)) == FocusCheck::UnderPointer(space),
{
}

/// Outside a switch the layout's own choice is focused; in one, what can be seen.
pub proof fn whom_the_layout_asks_to_focus(
    asked: Asked,
    windows: Seq<FocusCandidate>,
    space: SpaceId,
    switch_space: Option<SpaceId>,
)
    ensures
        asked.preferred is Some ==> asked_focus(asked, windows, switch_space, false) == Some(
            asked.preferred->0.window,
        ),
        asked.preferred is None ==> asked_focus(asked, windows, switch_space, false) is None,
        asked_focus(asked, windows, None, true) == asked_focus(asked, windows, None, false),
        asked_focus(asked, windows, Some(space), true) == focus_candidate(
            space,
            asked.preferred,
            asked.last,
            windows,
        ),
{
}

/// A response that is carried out begins with what the layout asks for, nothing having
/// stood in for focus yet.
pub proof fn how_a_response_is_handled(
    facts: ResponseFacts,
    asked: Asked,
    windows: Seq<FocusCandidate>,
    refocus: RefocusState,
    switch_active: bool,
)
    requires
        !facts.dragging,
    ensures
        ({
            let handling = response_handling(facts, asked, windows, refocus, switch_active);
            let focus = asked_focus(asked, windows, facts.switch_space, switch_active);
            &&& (response_start(facts, refocus) matches ResponseStart::SwitchWorkspace { next, space }
                ==> handling == (ResponseHandling::SwitchWorkspace { next, space }))
            &&& (response_start(facts, refocus) matches ResponseStart::Continue { pending } ==> (
            handling matches ResponseHandling::CarryOut(response) && response.raises == asked.raises
                && response.asked == focus && response.focus == focus && response.switch_space
                == facts.switch_space && response.pending == pending && !response.handled
                && !response.hidden))
        }),
{
}

/// Where the layout names windows to raise or one to focus, that is looked at and nothing
/// stands in; where it names none, what stands in is taken, and the desktop that waits is
/// served by it or waits on.
pub proof fn what_a_response_waits_for(
    response: LayoutResponse,
    facts: UnraisedFacts,
    window: WindowId,
    space: SpaceId,
)
    ensures
        ({
            let (after, step) = response.stood_in(facts);
            let named = response.raises || response.focus is Some;
            let (what, served) = unraised(facts);
            &&& named ==> after == response
            &&& named && response.focus == Some(window) ==> step == ResponseStep::Look(window)
            &&& named && response.focus is None ==> step == ResponseStep::Finish
            &&& !named && what == Unraised::Nothing ==> step == ResponseStep::Finish
                && after.focus is None
            &&& !named && what == Unraised::Focus(window) ==> step == ResponseStep::Look(window)
                && after.focus == Some(window)
            &&& !named && what == Unraised::Desktop(space) ==> step == ResponseStep::FocusDesktop(
                space,
            )
            &&& !named && what == Unraised::UnderPointer(Some(space)) ==> step
                == ResponseStep::UnderPointer(Some(space))
            &&& !named && served ==> after.pending is None
            &&& !named && !served ==> after.pending == response.pending
            &&& after.asked == response.asked && after.switch_space == response.switch_space
                && after.raises == response.raises
        }),
{
}

/// What is found under the pointer: a window is the one to focus; something else that was
/// focused, or the pointer moved, stands in for focus, unless it was looked for in place of
/// a hidden window; nothing changes nothing.
pub proof fn what_the_pointer_finds(response: LayoutResponse, window: WindowId, space: SpaceId)
    ensures
        response.after_pointer(PointerFocus::Window(window)).focus == Some(window),
        response.after_pointer(PointerFocus::Window(window)).handled == response.handled,
        response.after_pointer(PointerFocus::Nothing) == response,
        response.after_pointer(PointerFocus::Handled).focus == response.focus,
        !response.hidden ==> response.after_pointer(PointerFocus::Handled).handled
            && response.after_pointer(PointerFocus::Warp(space)).handled,
        response.hidden ==> response.after_pointer(PointerFocus::Handled) == response
            && response.after_pointer(PointerFocus::Warp(space)) == response,
{
}

/// A window that was looked at is kept, dropped, or gives way to what is under the pointer.
pub proof fn what_a_look_comes_to(response: LayoutResponse, space: SpaceId)
    ensures
        response.after_look(FocusCheck::Keep) == (response, ResponseStep::Finish),
        response.after_look(FocusCheck::Clear).0.focus is None,
        response.after_look(FocusCheck::Clear).0.hidden == response.hidden,
        response.after_look(FocusCheck::Clear).1 == ResponseStep::Finish,
        response.after_look(FocusCheck::UnderPointer(space)).0.focus is None,
        response.after_look(FocusCheck::UnderPointer(space)).0.hidden,
        response.after_look(FocusCheck::UnderPointer(space)).1 == ResponseStep::UnderPointer(
            Some(space),
        ),
{
}

/// One more window is raised with its application and desktop if that is active, and the
/// applications told are those of the windows raised and of the one asked to be focused.
pub proof fn what_is_raised_together(
    raises: Seq<RaiseWindow>,
    one: RaiseWindow,
    pid: Pid,
    space: Option<SpaceId>,
    window: WindowId,
)
    ensures
        one.space_active && one.window.pid == pid && one.space == space ==> raises.push(
            one,
        ).filter_map(raised_with(pid, space)) == raises.filter_map(raised_with(pid, space)).push(
            one.window,
        ),
        !one.space_active || one.window.pid != pid || one.space != space ==> raises.push(
            one,
        ).filter_map(raised_with(pid, space)) == raises.filter_map(raised_with(pid, space)),
        raised_app()(one) == one.window.pid,
        app_of(Some(window)) == seq![window.pid],
        app_of(None).len() == 0,
{
    crate::lists::lemma_filter_map_push(raises, one, raised_with(pid, space));
}

/// Every window on an active desktop is raised, in the group of its application and desktop;
/// and there is one such group.
pub proof fn every_window_is_raised_with_its_group(
    groups: Seq<RaiseGroup>,
    raises: Seq<RaiseWindow>,
    k: int,
    i: int,
    j: int,
)
    requires
        are_groups(groups, raises),
        0 <= k < raises.len(),
        raises[k].space_active,
    ensures
        exists|g: int|
            #![trigger groups[g]]
            0 <= g < groups.len() && groups[g].pid == raises[k].window.pid && groups[g].space
                == raises[k].space && groups[g].windows@.contains(raises[k].window),
        0 <= i < groups.len() && 0 <= j < groups.len() && groups[i].pid == groups[j].pid
            && groups[i].space == groups[j].space ==> i == j,
{
    let g = choose|g: int|
        0 <= g < groups.len() && (#[trigger] groups[g]).pid == raises[k].window.pid
            && groups[g].space == raises[k].space;
    let f = raised_with(groups[g].pid, groups[g].space);
    crate::lists::lemma_filter_map_holds(raises, f, raises[k].window);
    assert(f(raises[k]) == Some(raises[k].window));
    assert(groups[g].windows@ == raises.filter_map(f));
    if 0 <= i < groups.len() && 0 <= j < groups.len() && groups[i].pid == groups[j].pid
        && groups[i].space == groups[j].space {
        if i < j {
            assert(groups[i].pid != groups[j].pid || groups[i].space != groups[j].space);
        } else if j < i {
            assert(groups[j].pid != groups[i].pid || groups[j].space != groups[i].space);
        }
    }
}

} // verus!
