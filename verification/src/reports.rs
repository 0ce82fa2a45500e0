//! What a report on a single window means, and what the layout is told of it.

use vstd::prelude::*;

use crate::drag::{first_of, ModifierDrag, MouseAction, ResizeEdges};
use crate::events::MouseState;
use crate::fullscreen_slots::Removal;
use crate::ids::{SpaceId, WindowId};
use crate::layout::LayoutMode;
use crate::lists::{holds, if_due, push_when, IdSet};
use crate::managers::RefocusState;
use crate::screens::{all_listed, all_of, Listing};

verus! {

/// The state of the button that a frame report is read with: during a drag with
/// a modifier every report is the echo of a write, and no drag.
pub fn effective_mouse_state(modifier_drag: bool, reported: Option<MouseState>) -> (state: Option<
    MouseState,
>)
    ensures
        state == if modifier_drag {
            Some(MouseState::Up)
        } else {
            reported
        },
{
    if modifier_drag {
        Some(MouseState::Up)
    } else {
        reported
    }
}

/// The desktop that the window server has the window on is one that no screen
/// shows now, and that a display lists.
pub open spec fn hidden_desktop(
    server_space: Option<SpaceId>,
    active: Set<SpaceId>,
    listing: Listing,
) -> Option<SpaceId> {
    match server_space {
        Some(space) => if !active.contains(space) && all_of(listing).contains(space) {
            Some(space)
        } else {
            None
        },
        None => None,
    }
}

/// The desktops that a window moved between, as its frames tell.
#[derive(Clone, Copy, Debug, PartialEq, Eq, Structural)]
pub struct FrameSpaces {
    pub old_space: Option<SpaceId>,
    pub new_space: Option<SpaceId>,
    pub old_active: bool,
    pub new_active: bool,
}

/// An active desktop.
pub open spec fn is_active(space: Option<SpaceId>, active: Set<SpaceId>) -> bool {
    space matches Some(space) && active.contains(space)
}

fn active_now(space: Option<SpaceId>, active: &IdSet<SpaceId>) -> (now: bool)
    requires
        active.wf(),
    ensures
        now == is_active(space, active@),
{
    match space {
        Some(space) => active.contains(space),
        None => false,
    }
}

/// The desktops that a window moved between. `by_old_frame` and `by_new_frame`
/// are what its frames tell; a window on a hidden desktop has not changed
/// desktops by moving.
pub fn frame_spaces(
    by_old_frame: Option<SpaceId>,
    by_new_frame: Option<SpaceId>,
    server_space: Option<SpaceId>,
    active: &IdSet<SpaceId>,
    listing: &Listing,
) -> (spaces: FrameSpaces)
    requires
        active.wf(),
    ensures
        spaces.old_space == first_of(hidden_desktop(server_space, active@, *listing), by_old_frame),
        spaces.new_space == first_of(hidden_desktop(server_space, active@, *listing), by_new_frame),
        spaces.old_active == is_active(spaces.old_space, active@),
        spaces.new_active == is_active(spaces.new_space, active@),
{
    let mut old_space = by_old_frame;
    let mut new_space = by_new_frame;
    match server_space {
        Some(space) => {
            if !active.contains(space) && holds(&all_listed(listing), space) {
                old_space = Some(space);
                new_space = Some(space);
            }
        },
        None => {},
    }
    FrameSpaces {
        old_space,
        new_space,
        old_active: active_now(old_space, active),
        new_active: active_now(new_space, active),
    }
}

/// A window on a hidden desktop does not change desktops by a frame report, and
/// is on none that is active.
pub proof fn a_hidden_window_does_not_move(
    space: SpaceId,
    active: Set<SpaceId>,
    listing: Listing,
    by_old_frame: Option<SpaceId>,
    by_new_frame: Option<SpaceId>,
)
    requires
        !active.contains(space),
        all_of(listing).contains(space),
    ensures
        first_of(hidden_desktop(Some(space), active, listing), by_old_frame) == Some(space),
        first_of(hidden_desktop(Some(space), active, listing), by_new_frame) == Some(space),
        !is_active(Some(space), active),
{
}

/// The active desktop that a report on a window is for: the window's own, or,
/// for one that the window server does not know, the one that commands are for.
pub fn active_space_for(
    best: Option<SpaceId>,
    has_sys_id: bool,
    command_space: Option<SpaceId>,
    active: &IdSet<SpaceId>,
) -> (space: Option<SpaceId>)
    requires
        active.wf(),
    ensures
        space == if is_active(best, active@) {
            best
        } else if !has_sys_id {
            command_space
        } else {
            None
        },
{
    if active_now(best, active) {
        best
    } else if !has_sys_id {
        command_space
    } else {
        None
    }
}

/// Whether a tiled window of a scrolling layout keeps its desktop, however far
/// it is scrolled off the screen.
pub fn keeps_assigned_for_scrolling(
    old_space: Option<SpaceId>,
    mode: LayoutMode,
    floating: bool,
    has_workspace: bool,
) -> (keeps: bool)
    ensures
        keeps == (old_space is Some && mode == LayoutMode::Scrolling && !floating && has_workspace),
{
    old_space.is_some() && mode == LayoutMode::Scrolling && !floating && has_workspace
}

/// Whether a frame report ends a drag: the button is up, and one is on.
pub fn report_ends_drag(state: Option<MouseState>, session: bool) -> (ends: bool)
    ensures
        ends == (state == Some(MouseState::Up) && session),
{
    match state {
        Some(state) => state == MouseState::Up && session,
        None => false,
    }
}

/// Whether the size that a window insisted on is noted as its least. A size that
/// is larger than its display is one it still had on the way.
pub fn takes_size_as_minimum(refused: bool, fits_display: bool) -> (takes: bool)
    ensures
        takes == (refused && fits_display),
{
    refused && fits_display
}

/// What becomes of a window that the window server ordered in or out.
#[derive(Clone, Copy, Debug, PartialEq, Eq, Structural)]
pub enum Visibility {
    Unknown,
    Show,
    /// It is marked hidden, and its application asked whether it is still there.
    HideAndVerify(WindowId),
}

/// What becomes of a window that was ordered in or out. Out is no proof that it
/// is gone: so is every window of a desktop that is switched away from.
pub fn visibility_changed(window: Option<WindowId>, visible: bool) -> (what: Visibility)
    ensures
        what == match window {
            Some(window) => if visible {
                Visibility::Show
            } else {
                Visibility::HideAndVerify(window)
            },
            None => Visibility::Unknown,
        },
{
    match window {
        Some(window) => if visible {
            Visibility::Show
        } else {
            Visibility::HideAndVerify(window)
        },
        None => Visibility::Unknown,
    }
}

/// What becomes of the pointer coming over a window.
#[derive(Clone, Copy, Debug, PartialEq, Eq, Structural)]
pub struct Hover {
    pub window: Option<WindowId>,
    /// It may be raised.
    pub should_sync: bool,
    /// It is the main window.
    pub is_main: bool,
    /// The layout's focus is elsewhere.
    pub needs_layout_sync: bool,
}

/// What the pointer coming over a window means.
pub fn hover(
    window: Option<WindowId>,
    raises: bool,
    main_window: Option<WindowId>,
    layout_focus: Option<WindowId>,
) -> (hover: Hover)
    ensures
        hover == (Hover {
            window,
            should_sync: window is Some && raises,
            is_main: window is Some && main_window == window,
            needs_layout_sync: window is Some && layout_focus != window,
        }),
{
    match window {
        Some(over) => {
            let is_main = match main_window {
                Some(main) => main == over,
                None => false,
            };
            let focused = match layout_focus {
                Some(focus) => focus == over,
                None => false,
            };
            Hover { window, should_sync: raises, is_main, needs_layout_sync: !focused }
        },
        None => Hover { window, should_sync: false, is_main: false, needs_layout_sync: false },
    }
}

/// A drag with a modifier begins over a window: what it starts from, if the
/// window is known.
pub fn begin_modifier_drag<F>(
    window: Option<WindowId>,
    action: MouseAction,
    frame: Option<F>,
    edges: ResizeEdges,
) -> (drag: Option<ModifierDrag<F>>)
    ensures
        match (window, frame) {
            (Some(window), Some(frame)) => drag == Some(
                ModifierDrag { window, action, origin_frame: frame, edges },
            ),
            _ => drag is None,
        },
{
    match (window, frame) {
        (Some(window), Some(frame)) => Some(
            ModifierDrag { window, action, origin_frame: frame, edges },
        ),
        _ => None,
    }
}

/// Whether the drop of a drag with a modifier is watched for the system putting
/// the window elsewhere: a float was moved, and hangs over the edge of displays.
pub fn watches_drop(action: MouseAction, floating: bool, known: bool, straddles: bool) -> (watches:
    bool)
    ensures
        watches == (action == MouseAction::Move && floating && known && straddles),
{
    action == MouseAction::Move && floating && known && straddles
}

/// What the layout is told of a window.
#[derive(Clone, Copy, Debug, PartialEq, Eq, Structural)]
pub enum LayoutEvent {
    WindowAdded(SpaceId, WindowId),
    /// A window whose placement by the rules is settled.
    WindowObserved(SpaceId, WindowId),
    WindowFocused(SpaceId, WindowId),
    WindowRemoved(WindowId),
    /// For a while, keeping whether it floats.
    WindowRemovedPreserveFloating(WindowId),
    WindowResized(WindowId),
}

/// What goes with telling the layout of a window.
#[derive(Clone, Copy, Debug, PartialEq, Eq, Structural)]
pub struct LayoutEventPlan {
    /// The layouts are kept as they were before displays went.
    pub capture_pre_churn: bool,
    /// A window leaves its tree, which may have a slot to come back to.
    pub removal: Option<Removal>,
    /// Focus goes to another window, so the pointer may be hidden.
    pub focus_changed: bool,
    /// The desktop that is arranged.
    pub space: Option<SpaceId>,
    /// The focused window goes, so the desktop itself may get the focus.
    pub focus_desktop: bool,
}

/// What goes with telling the layout of a window. One that is known and not
/// admitted is not added.
pub open spec fn layout_event_plan(
    event: LayoutEvent,
    rejected: bool,
    layout_focus: Option<WindowId>,
) -> Option<LayoutEventPlan> {
    let nothing = LayoutEventPlan {
        capture_pre_churn: false,
        removal: None,
        focus_changed: false,
        space: None,
        focus_desktop: false,
    };
    match event {
        LayoutEvent::WindowAdded(_, _) => if rejected {
            None
        } else {
            Some(nothing)
        },
        LayoutEvent::WindowFocused(space, window) => Some(
            LayoutEventPlan {
                focus_changed: layout_focus != Some(window),
                space: Some(space),
                ..nothing
            },
        ),
        LayoutEvent::WindowRemoved(window) => Some(
            LayoutEventPlan {
                removal: Some(Removal::Plain),
                focus_desktop: layout_focus == Some(window),
                ..nothing
            },
        ),
        LayoutEvent::WindowRemovedPreserveFloating(_) => Some(
            LayoutEventPlan {
                capture_pre_churn: true,
                removal: Some(Removal::PreservingFloat),
                ..nothing
            },
        ),
        LayoutEvent::WindowObserved(_, _) | LayoutEvent::WindowResized(_) => Some(nothing),
    }
}

/// What goes with telling the layout of a window. `rejected` is whether the
/// window is known and not admitted.
pub fn plan_layout_event(
    event: LayoutEvent,
    rejected: bool,
    layout_focus: Option<WindowId>,
) -> (plan: Option<LayoutEventPlan>)
    ensures
        plan == layout_event_plan(event, rejected, layout_focus),
{
    let mut plan = LayoutEventPlan {
        capture_pre_churn: false,
        removal: None,
        focus_changed: false,
        space: None,
        focus_desktop: false,
    };
    match event {
        LayoutEvent::WindowAdded(_, _) => {
            if rejected {
                return None;
            }
        },
        LayoutEvent::WindowFocused(space, window) => {
            plan.focus_changed = match layout_focus {
                Some(focus) => focus != window,
                None => true,
            };
            plan.space = Some(space);
        },
        LayoutEvent::WindowRemoved(window) => {
            plan.removal = Some(Removal::Plain);
            plan.focus_desktop = match layout_focus {
                Some(focus) => focus == window,
                None => false,
            };
        },
        LayoutEvent::WindowRemovedPreserveFloating(_) => {
            plan.capture_pre_churn = true;
            plan.removal = Some(Removal::PreservingFloat);
        },
        LayoutEvent::WindowObserved(_, _) | LayoutEvent::WindowResized(_) => {},
    }
    Some(plan)
}

/// What is done about an event that the layout is told of.
#[derive(Clone, Copy, Debug, PartialEq, Eq, Structural)]
pub enum TellStep {
    CapturePreChurn,
    /// The slot of a window that leaves its tree is kept or forgotten.
    NoteRemoval(Removal),
    /// The slots that wait for their windows are noted.
    NoteWaitingSlots,
    /// The layout is told.
    Tell,
    /// The windows that got into a tree by it get their slots back.
    Reinstate,
    /// What rules say of places and sizes is carried out.
    Place,
    Resize,
    /// The floating windows of the desktop are noted where they are, a workspace
    /// switch begins, and the workspace with the window is switched to.
    SwitchWorkspace(SpaceId),
    /// The pointer may be hidden.
    HideOnFocus,
    PrepareRefocus,
    /// What the layout answered is handled, as of a switch on this desktop.
    Respond(Option<SpaceId>),
    Arrange(ArrangeAfter),
    /// The desktop itself gets the focus, if it has no window.
    FocusDesktop(SpaceId),
}

/// What is done before the layout is told, and that.
pub open spec fn steps_to_tell(plan: LayoutEventPlan) -> Seq<TellStep> {
    Seq::<TellStep>::empty() + if_due(plan.capture_pre_churn, TellStep::CapturePreChurn)
        + match plan.removal {
        Some(removal) => seq![TellStep::NoteRemoval(removal)],
        None => seq![],
    } + seq![TellStep::NoteWaitingSlots, TellStep::Tell, TellStep::Reinstate, TellStep::Place]
        + seq![TellStep::Resize]
}

/// What is done before the layout is told of a window, that itself, and what it
/// leads to in the trees.
pub fn tell_layout(plan: LayoutEventPlan) -> (steps: Vec<TellStep>)
    ensures
        steps@ == steps_to_tell(plan),
{
    let mut steps: Vec<TellStep> = Vec::new();
    push_when(&mut steps, plan.capture_pre_churn, TellStep::CapturePreChurn);
    match plan.removal {
        Some(removal) => steps.push(TellStep::NoteRemoval(removal)),
        None => {},
    }
    steps.push(TellStep::NoteWaitingSlots);
    steps.push(TellStep::Tell);
    steps.push(TellStep::Reinstate);
    steps.push(TellStep::Place);
    steps.push(TellStep::Resize);
    assert(steps@ =~= steps_to_tell(plan));
    steps
}

/// How the layout is arranged after it was told of a window, if that changed it.
pub open spec fn arranges_after(
    changed: bool,
    switch_space: Option<SpaceId>,
    event_space: Option<SpaceId>,
) -> Option<ArrangeAfter> {
    if changed {
        Some(
            ArrangeAfter {
                workspace_switch: switch_space is Some,
                scope: first_of(switch_space, event_space),
            },
        )
    } else {
        None
    }
}

/// What is done once the layout was told.
pub open spec fn steps_after_telling(plan: LayoutEventPlan, switch_space: Option<SpaceId>) -> Seq<
    TellStep,
> {
    Seq::<TellStep>::empty() + match switch_space {
        Some(space) => seq![TellStep::SwitchWorkspace(space)],
        None => seq![],
    } + if_due(plan.focus_changed, TellStep::HideOnFocus) + seq![
        TellStep::PrepareRefocus,
        TellStep::Respond(switch_space),
    ]
}

/// What is done once the layout was told, up to its answer: `switch_space` is the
/// desktop on which a rule asks for another workspace.
pub fn after_telling(plan: LayoutEventPlan, switch_space: Option<SpaceId>) -> (steps: Vec<TellStep>)
    ensures
        steps@ == steps_after_telling(plan, switch_space),
{
    let mut steps: Vec<TellStep> = Vec::new();
    match switch_space {
        Some(space) => steps.push(TellStep::SwitchWorkspace(space)),
        None => {},
    }
    push_when(&mut steps, plan.focus_changed, TellStep::HideOnFocus);
    steps.push(TellStep::PrepareRefocus);
    steps.push(TellStep::Respond(switch_space));
    assert(steps@ =~= steps_after_telling(plan, switch_space));
    steps
}

/// What telling the layout came to.
#[derive(Clone, Copy, Debug)]
pub struct Told {
    /// The layout answered that it changed.
    pub changed: bool,
    /// A window that the event put in a tree got its slot back.
    pub reinstated: bool,
    /// A rule asked for another workspace on this desktop, and this is whether
    /// that changed the layout.
    pub switched: Option<(SpaceId, bool)>,
}

impl Told {
    /// The layout is another than before: by the answer to the switch of the
    /// workspace if there was one, which stands for all that went before.
    pub open spec fn layout_changed(&self) -> bool {
        match self.switched {
            Some((_, changed)) => changed,
            None => self.changed || self.reinstated,
        }
    }

    /// Whether the layout is another than before.
    pub fn is_layout_changed(&self) -> (changed: bool)
        ensures
            changed == self.layout_changed(),
    {
        match self.switched {
            Some((_, changed)) => changed,
            None => self.changed || self.reinstated,
        }
    }

    /// The desktop whose workspace was switched.
    pub open spec fn switch_space(&self) -> Option<SpaceId> {
        match self.switched {
            Some((space, _)) => Some(space),
            None => None,
        }
    }
}

/// What is done once the answer of the layout was handled.
pub open spec fn last_steps(
    plan: LayoutEventPlan,
    told: Told,
    command_space: Option<SpaceId>,
) -> Seq<TellStep> {
    Seq::<TellStep>::empty() + match arranges_after(
        told.layout_changed(),
        told.switch_space(),
        plan.space,
    ) {
        Some(arrange) => seq![TellStep::Arrange(arrange)],
        None => seq![],
    } + match command_space {
        Some(space) => if plan.focus_desktop {
            seq![TellStep::FocusDesktop(space)]
        } else {
            seq![]
        },
        None => seq![],
    }
}

/// What is done once the answer of the layout was handled: it is arranged, if the
/// event changed it, and then the desktop that commands are for may get the focus.
pub fn end_telling(
    plan: LayoutEventPlan,
    told: Told,
    command_space: Option<SpaceId>,
) -> (steps: Vec<TellStep>)
    ensures
        steps@ == last_steps(plan, told, command_space),
{
    let switch_space = match told.switched {
        Some((space, _)) => Some(space),
        None => None,
    };
    let mut steps: Vec<TellStep> = Vec::new();
    match arrange_after_event(told.is_layout_changed(), switch_space, plan.space) {
        Some(arrange) => steps.push(TellStep::Arrange(arrange)),
        None => {},
    }
    match command_space {
        Some(space) => {
            if plan.focus_desktop {
                steps.push(TellStep::FocusDesktop(space));
            }
        },
        None => {},
    }
    assert(steps@ =~= last_steps(plan, told, command_space));
    steps
}

/// A window that gets its slot back changes the layout, whatever the layout
/// itself answered, unless another workspace is shown by then.
pub proof fn a_slot_that_is_reinstated_is_arranged(plan: LayoutEventPlan, told: Told)
    requires
        told.reinstated,
        told.switched is None,
    ensures
        last_steps(plan, told, None) == seq![
            TellStep::Arrange(ArrangeAfter { workspace_switch: false, scope: plan.space }),
        ],
{
}

/// A window that is not admitted does not get into a layout, whoever asks.
pub proof fn a_rejected_window_is_not_added(
    space: SpaceId,
    window: WindowId,
    layout_focus: Option<WindowId>,
)
    ensures
        layout_event_plan(LayoutEvent::WindowAdded(space, window), true, layout_focus) is None,
{
}

/// A window put into another workspace than the active one leaves its desktop
/// waiting for focus.
pub fn prepare_refocus_after_layout_event(
    event: LayoutEvent,
    in_other_workspace: bool,
    refocus: &mut RefocusState,
)
    ensures
        *final(refocus) == match event {
            LayoutEvent::WindowAdded(space, _) | LayoutEvent::WindowObserved(space, _) => if in_other_workspace {
                RefocusState::Pending(space)
            } else {
                *old(refocus)
            },
            _ => *old(refocus),
        },
{
    match event {
        LayoutEvent::WindowAdded(space, _) | LayoutEvent::WindowObserved(space, _) => {
            if in_other_workspace {
                *refocus = RefocusState::Pending(space);
            }
        },
        _ => {},
    }
}

/// How the layout is arranged after it was told of a window.
#[derive(Clone, Copy, Debug, PartialEq, Eq, Structural)]
pub struct ArrangeAfter {
    pub workspace_switch: bool,
    /// The only desktop to arrange; all, if there is none.
    pub scope: Option<SpaceId>,
}

/// How the layout is arranged after it was told of a window, if that changed it.
pub fn arrange_after_event(
    changed: bool,
    switch_space: Option<SpaceId>,
    event_space: Option<SpaceId>,
) -> (arrange: Option<ArrangeAfter>)
    ensures
        arrange == arranges_after(changed, switch_space, event_space),
{
    if !changed {
        return None;
    }
    match switch_space {
        Some(_) => Some(ArrangeAfter { workspace_switch: true, scope: switch_space }),
        None => Some(ArrangeAfter { workspace_switch: false, scope: event_space }),
    }
}

/// A window is taken to be on a hidden desktop where the window server has it on one
/// that is listed and that no screen shows.
pub proof fn which_desktop_is_hidden(space: SpaceId, active: Set<SpaceId>, listing: Listing)
    ensures
        hidden_desktop(None, active, listing) is None,
        active.contains(space) ==> hidden_desktop(Some(space), active, listing) is None,
        !active.contains(space) && (forall|i: int|
            0 <= i < listing.entries@.len() ==> !(#[trigger] listing.entries@[i]).1@.contains(space))
            ==> hidden_desktop(Some(space), active, listing) is None,
        !active.contains(space) && (exists|i: int|
            0 <= i < listing.entries@.len() && (#[trigger] listing.entries@[i]).1@.contains(space))
            ==> hidden_desktop(Some(space), active, listing) == Some(space),
{
    crate::screens::lemma_desktops_of(listing.entries@, space);
}

/// What goes with telling the layout of each kind of event: a window that is turned away
/// is not added; focus is on its desktop and changes where it was elsewhere; a window that
/// leaves for good may leave its desktop the focus; one that leaves for a while has the
/// layouts kept as they were.
pub proof fn what_goes_with_an_event(
    space: SpaceId,
    window: WindowId,
    rejected: bool,
    layout_focus: Option<WindowId>,
)
    ensures
        layout_event_plan(LayoutEvent::WindowAdded(space, window), false, layout_focus) matches Some(
            plan,
        ) && !plan.capture_pre_churn && plan.removal is None && !plan.focus_changed
            && plan.space is None && !plan.focus_desktop,
        layout_event_plan(
            LayoutEvent::WindowFocused(space, window),
            rejected,
            layout_focus,
        ) matches Some(plan) && plan.space == Some(space) && plan.focus_changed == (layout_focus
            != Some(window)) && plan.removal is None && !plan.capture_pre_churn
            && !plan.focus_desktop,
        layout_event_plan(LayoutEvent::WindowRemoved(window), rejected, layout_focus) matches Some(
            plan,
        ) && plan.removal == Some(Removal::Plain) && plan.focus_desktop == (layout_focus == Some(
            window,
        )) && !plan.capture_pre_churn && !plan.focus_changed && plan.space is None,
        layout_event_plan(
            LayoutEvent::WindowRemovedPreserveFloating(window),
            rejected,
            layout_focus,
        ) matches Some(plan) && plan.removal == Some(Removal::PreservingFloat)
            && plan.capture_pre_churn && !plan.focus_desktop && !plan.focus_changed
            && plan.space is None,
        layout_event_plan(LayoutEvent::WindowResized(window), rejected, layout_focus) matches Some(
            plan,
        ) && plan.removal is None && !plan.focus_desktop && !plan.focus_changed && plan.space is None
            && !plan.capture_pre_churn,
        layout_event_plan(
            LayoutEvent::WindowObserved(space, window),
            rejected,
            layout_focus,
        ) matches Some(plan) && plan.removal is None && !plan.focus_desktop && !plan.focus_changed
            && plan.space is None && !plan.capture_pre_churn,
{
}

/// The place of each step in the order in which the layout is told of an event.
pub open spec fn place_of_telling(step: TellStep) -> int {
    match step {
        TellStep::CapturePreChurn => 0,
        TellStep::NoteRemoval(_) => 1,
        TellStep::NoteWaitingSlots => 2,
        TellStep::Tell => 3,
        TellStep::Reinstate => 4,
        TellStep::Place => 5,
        TellStep::Resize => 6,
        TellStep::SwitchWorkspace(_) => 7,
        TellStep::HideOnFocus => 8,
        TellStep::PrepareRefocus => 9,
        TellStep::Respond(_) => 10,
        TellStep::Arrange(_) => 11,
        TellStep::FocusDesktop(_) => 12,
    }
}

/// The places of the steps.
pub open spec fn telling_places() -> spec_fn(TellStep) -> int {
    |step: TellStep| place_of_telling(step)
}

/// The layout is told in order: it is kept as it was, and what leaves and what waits is
/// noted, before it is told; windows get their slots back before rules place and resize
/// them.
pub proof fn the_layout_is_told_in_order(plan: LayoutEventPlan, step: TellStep, i: int, j: int)
    ensures
        steps_to_tell(plan).contains(step) <==> match step {
            TellStep::CapturePreChurn => plan.capture_pre_churn,
            TellStep::NoteRemoval(removal) => plan.removal == Some(removal),
            TellStep::NoteWaitingSlots => true,
            TellStep::Tell => true,
            TellStep::Reinstate => true,
            TellStep::Place => true,
            TellStep::Resize => true,
            _ => false,
        },
        0 <= i < j < steps_to_tell(plan).len() ==> place_of_telling(steps_to_tell(plan)[i])
            < place_of_telling(steps_to_tell(plan)[j]),
{
    let rank = telling_places();
    let none = Seq::<TellStep>::empty();
    crate::lists::lemma_nothing_rises(rank, step);
    let noted = plan.removal->0;
    let s0 = none + if_due(plan.capture_pre_churn, TellStep::CapturePreChurn);
    crate::lists::lemma_rising(none, plan.capture_pre_churn, TellStep::CapturePreChurn, rank, -1, step);
    let s1 = s0 + if_due(plan.removal is Some, TellStep::NoteRemoval(noted));
    crate::lists::lemma_rising(s0, plan.removal is Some, TellStep::NoteRemoval(noted), rank, 0, step);
    let s2 = s1 + if_due(true, TellStep::NoteWaitingSlots);
    crate::lists::lemma_rising(s1, true, TellStep::NoteWaitingSlots, rank, 1, step);
    let s3 = s2 + if_due(true, TellStep::Tell);
    crate::lists::lemma_rising(s2, true, TellStep::Tell, rank, 2, step);
    let s4 = s3 + if_due(true, TellStep::Reinstate);
    crate::lists::lemma_rising(s3, true, TellStep::Reinstate, rank, 3, step);
    let s5 = s4 + if_due(true, TellStep::Place);
    crate::lists::lemma_rising(s4, true, TellStep::Place, rank, 4, step);
    let s6 = s5 + if_due(true, TellStep::Resize);
    crate::lists::lemma_rising(s5, true, TellStep::Resize, rank, 5, step);
    let steps = steps_to_tell(plan);
    assert(steps =~= s6) by {
        reveal(if_due);
    }
    if 0 <= i < j < steps.len() {
        crate::lists::lemma_rises(steps, rank, 6, i, j);
    }
}

/// Once the layout was told: the workspace that a rule asks for is switched to, the
/// pointer may be hidden where focus changed, and then the answer is handled, as of that
/// switch.
pub proof fn what_follows_telling(
    plan: LayoutEventPlan,
    switch_space: Option<SpaceId>,
    step: TellStep,
    i: int,
    j: int,
)
    ensures
        steps_after_telling(plan, switch_space).contains(step) <==> match step {
            TellStep::SwitchWorkspace(space) => switch_space == Some(space),
            TellStep::HideOnFocus => plan.focus_changed,
            TellStep::PrepareRefocus => true,
            TellStep::Respond(space) => space == switch_space,
            _ => false,
        },
        ({
            let steps = steps_after_telling(plan, switch_space);
            0 <= i < j < steps.len() ==> place_of_telling(steps[i]) < place_of_telling(steps[j])
        }),
{
    let rank = telling_places();
    let none = Seq::<TellStep>::empty();
    crate::lists::lemma_nothing_rises(rank, step);
    let to = switch_space->0;
    let s0 = none + if_due(switch_space is Some, TellStep::SwitchWorkspace(to));
    crate::lists::lemma_rising(none, switch_space is Some, TellStep::SwitchWorkspace(to), rank, -1, step);
    let s1 = s0 + if_due(plan.focus_changed, TellStep::HideOnFocus);
    crate::lists::lemma_rising(s0, plan.focus_changed, TellStep::HideOnFocus, rank, 7, step);
    let s2 = s1 + if_due(true, TellStep::PrepareRefocus);
    crate::lists::lemma_rising(s1, true, TellStep::PrepareRefocus, rank, 8, step);
    let s3 = s2 + if_due(true, TellStep::Respond(switch_space));
    crate::lists::lemma_rising(s2, true, TellStep::Respond(switch_space), rank, 9, step);
    let steps = steps_after_telling(plan, switch_space);
    assert(steps =~= s3) by {
        reveal(if_due);
    }
    if 0 <= i < j < steps.len() {
        crate::lists::lemma_rises(steps, rank, 10, i, j);
    }
}

/// The layout is arranged where it changed: by the answer to a switch of the workspace
/// where there was one, else by its own answer or a slot that was given back; on the
/// desktop of the switch, else of the event. The desktop gets the focus after that.
pub proof fn what_ends_telling(
    plan: LayoutEventPlan,
    told: Told,
    command_space: Option<SpaceId>,
    space: SpaceId,
)
    ensures
        ({
            let steps = last_steps(plan, told, command_space);
            let changed = match told.switched {
                Some((_, changed)) => changed,
                None => told.changed || told.reinstated,
            };
            let focuses = plan.focus_desktop && command_space == Some(space);
            &&& changed && told.switched is Some ==> steps.len() > 0 && steps[0]
                == TellStep::Arrange(
                ArrangeAfter { workspace_switch: true, scope: Some((told.switched->0).0) },
            )
            &&& changed && told.switched is None ==> steps.len() > 0 && steps[0]
                == TellStep::Arrange(ArrangeAfter { workspace_switch: false, scope: plan.space })
            &&& focuses ==> steps.len() > 0 && steps.last() == TellStep::FocusDesktop(space)
            &&& steps.len() == (if changed {
                1int
            } else {
                0
            }) + (if plan.focus_desktop && command_space is Some {
                1int
            } else {
                0
            })
        }),
{
}

/// What follows telling the layout of a change: in a switch it is arranged on the desktop
/// that is switched, else on that of the event; without a change nothing follows.
pub proof fn how_the_layout_is_arranged_after(
    switch_space: Option<SpaceId>,
    event_space: Option<SpaceId>,
)
    ensures
        arranges_after(false, switch_space, event_space) is None,
        switch_space is Some ==> arranges_after(true, switch_space, event_space) == Some(
            ArrangeAfter { workspace_switch: true, scope: switch_space },
        ),
        switch_space is None ==> arranges_after(true, switch_space, event_space) == Some(
            ArrangeAfter { workspace_switch: false, scope: event_space },
        ),
{
}

} // verus!
