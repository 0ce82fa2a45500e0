//! What is done about a report on a window, the pointer, the button or a
//! command, step by step: what one step finds out decides the next.

use vstd::prelude::*;

use crate::clock::{elapsed, Nanos};
use crate::commands::{Command, LayoutCommand, MetricsCommand, ReactorCommand, Vocabulary};
use crate::displays::{
    display_move, move_window_to_display, move_workspace_to_display, workspace_move, DisplayFocus,
    DisplayMove, MoveFacts, MoveRefused, WorkspaceMove, WorkspaceMoveFacts, WorkspaceMoveRefused,
};
use crate::drag::{
    drop_comes_to, in_hand, modifier_step, pin_of, session_of, DragManager, ModifierDrag,
    ModifierStep, MouseAction, MouseUpFacts, MouseUpPlan, SeamFinish, SPACE_SYNC_EVERY,
};
use crate::events::{MouseState, SpaceEventKind};
use crate::focus::{focused_window_is_unmanaged, layout_focus_for_command};
use crate::ids::{Pid, SpaceId, WindowId};
use crate::layout::{Direction, LayoutMode};
use crate::lists::{if_due, push_when, IdSet};
use crate::order::{each_once, in_order, stable_order};
use crate::reactor::Reactor;
use crate::reports::{
    active_space_for, effective_mouse_state, hover, is_active, keeps_assigned_for_scrolling,
    report_ends_drag, takes_size_as_minimum, watches_drop, FrameSpaces, Hover, LayoutEvent,
};

verus! {

/// A report of a window's frame while it is taken in.
#[derive(Clone, Copy, Debug, PartialEq, Eq, Structural)]
pub struct FrameReport {
    pub window: WindowId,
    /// The state of the button that the report is read with.
    pub mouse: Option<MouseState>,
    /// The window that the event brings to the front.
    pub raised: Option<WindowId>,
}

/// What a frame comes to, held against the writes that are on their way.
#[derive(Clone, Copy, Debug, PartialEq, Eq, Structural)]
pub enum FrameDisposition {
    /// It is such a write, or too early to tell.
    Handled,
    /// It is what became of a write that asked for a smaller size.
    RefusedSize,
    /// The window was moved or resized.
    Geometry,
}

/// What a report of a window's frame waits for.
#[derive(Clone, Copy, Debug, PartialEq, Eq, Structural)]
pub enum FrameStep {
    /// The size that the window insisted on is to be noted as its least.
    NoteMinimum,
    /// It is to be told which desktops the window moved between.
    Analyse,
    /// Nothing: it is ready to be ended.
    Finish,
}

/// What a report of a window's frame asks for.
#[derive(Clone, Copy, Debug, PartialEq, Eq, Structural)]
pub struct FrameOutcome {
    pub arrange_passes: usize,
    /// The button came up unseen, and a drag ends.
    pub dispatch_mouse_up: bool,
    pub focused: Option<WindowId>,
}

/// What the analysis of a moved window reads besides the desktops it moved
/// between.
#[derive(Clone, Copy, Debug, PartialEq, Eq, Structural)]
pub struct GeometryFacts {
    /// The desktop that the new frame is on.
    pub best: Option<SpaceId>,
    /// The window server knows the window.
    pub has_sys_id: bool,
    /// The desktop that commands are for.
    pub command_space: Option<SpaceId>,
    /// The desktop that the window is on its way to.
    pub pending_target: Option<SpaceId>,
    /// The desktop that the layout has it on.
    pub assigned: Option<SpaceId>,
    /// The layout of the desktop it moved from, and whether a workspace there
    /// has it.
    pub mode: LayoutMode,
    pub has_workspace: bool,
    pub floating: bool,
}

/// What is handed on of a moved window.
#[derive(Clone, Copy, Debug, PartialEq, Eq, Structural)]
pub struct FrameChange {
    pub window: WindowId,
    pub mouse: Option<MouseState>,
    pub spaces: FrameSpaces,
    /// The active desktop that a resize is for.
    pub active_resize_space: Option<SpaceId>,
    pub pending_target: Option<SpaceId>,
    pub assigned: Option<SpaceId>,
    pub keep_assigned: bool,
}

/// Begins with a report of a window's frame. During a drag with a modifier it is
/// the echo of a write; otherwise a window that moves with the button down is
/// held. What comes next is to lower any least size that the frame belies, and
/// to hold the frame against the writes on their way.
pub fn begin_frame_report<F, P>(
    window: WindowId,
    reported: Option<MouseState>,
    known: bool,
    modifier_drag: bool,
    raised: Option<WindowId>,
    drag: &mut DragManager<F, P>,
) -> (report: FrameReport)
    ensures
        report == (FrameReport {
            window,
            mouse: if modifier_drag {
                Some(MouseState::Up)
            } else {
                reported
            },
            raised,
        }),
        *final(drag) == (DragManager {
            held_window: if report.mouse == Some(MouseState::Down) && known {
                Some(window)
            } else {
                old(drag).held_window
            },
            ..*old(drag)
        }),
{
    let mouse = effective_mouse_state(modifier_drag, reported);
    let down = match mouse {
        Some(MouseState::Down) => true,
        _ => false,
    };
    drag.note_frame_report(window, down, known);
    FrameReport { window, mouse, raised }
}

impl FrameReport {
    /// The frame was held against the writes on their way, which left the button
    /// as `mouse`. A size that the window insisted on is noted as its least, if
    /// its display is large enough for it.
    pub fn classified(
        &mut self,
        disposition: FrameDisposition,
        mouse: Option<MouseState>,
        fits_display: bool,
    ) -> (step: FrameStep)
        ensures
            *final(self) == (FrameReport { mouse, ..*old(self) }),
            step == match disposition {
                FrameDisposition::Geometry => FrameStep::Analyse,
                FrameDisposition::RefusedSize => if fits_display {
                    FrameStep::NoteMinimum
                } else {
                    FrameStep::Finish
                },
                FrameDisposition::Handled => FrameStep::Finish,
            },
    {
        self.mouse = mouse;
        match disposition {
            FrameDisposition::Geometry => FrameStep::Analyse,
            FrameDisposition::RefusedSize => if takes_size_as_minimum(true, fits_display) {
                FrameStep::NoteMinimum
            } else {
                FrameStep::Finish
            },
            FrameDisposition::Handled => FrameStep::Finish,
        }
    }

    /// What is handed on of a moved window.
    pub fn analysed(
        &self,
        spaces: FrameSpaces,
        facts: GeometryFacts,
        active: &IdSet<SpaceId>,
    ) -> (change: FrameChange)
        requires
            active.wf(),
        ensures
            change == (FrameChange {
                window: self.window,
                mouse: self.mouse,
                spaces,
                active_resize_space: if is_active(facts.best, active@) {
                    facts.best
                } else if !facts.has_sys_id {
                    facts.command_space
                } else {
                    None
                },
                pending_target: if facts.has_sys_id {
                    facts.pending_target
                } else {
                    None
                },
                assigned: facts.assigned,
                keep_assigned: spaces.old_space is Some && facts.mode == LayoutMode::Scrolling
                    && !facts.floating && facts.has_workspace,
            }),
    {
        FrameChange {
            window: self.window,
            mouse: self.mouse,
            spaces,
            active_resize_space: active_space_for(
                facts.best,
                facts.has_sys_id,
                facts.command_space,
                active,
            ),
            pending_target: if facts.has_sys_id {
                facts.pending_target
            } else {
                None
            },
            assigned: facts.assigned,
            keep_assigned: keeps_assigned_for_scrolling(
                spaces.old_space,
                facts.mode,
                facts.floating,
                facts.has_workspace,
            ),
        }
    }

    /// What the report asks for in the end. `passes` and `dispatches` are what
    /// taking in the new frame asked for, if it came to that; `noted` is whether
    /// a least size was noted, for which the layout is arranged again. Whichever
    /// way it went, a report with the button up ends a drag.
    pub open spec fn outcome(self, noted: bool, passes: usize, dispatches: bool, dragging: bool) -> FrameOutcome {
        FrameOutcome {
            arrange_passes: if noted {
                1
            } else {
                passes
            },
            dispatch_mouse_up: dispatches || (self.mouse == Some(MouseState::Up) && dragging),
            focused: self.raised,
        }
    }

    /// Ends a report that was not analysed.
    pub fn finish_gated<F: Copy, P>(&self, noted: bool, drag: &DragManager<F, P>) -> (outcome:
        FrameOutcome)
        ensures
            outcome == self.outcome(noted, 0, false, session_of(drag.drag_state) is Some),
    {
        FrameOutcome {
            arrange_passes: if noted {
                1
            } else {
                0
            },
            dispatch_mouse_up: report_ends_drag(self.mouse, drag.is_in_drag()),
            focused: self.raised,
        }
    }

    /// Ends a report whose frame was taken in, which asked for `passes` and, if
    /// `dispatches`, for the end of a drag.
    pub fn finish_analysed<F: Copy, P>(
        &self,
        passes: usize,
        dispatches: bool,
        drag: &DragManager<F, P>,
    ) -> (outcome: FrameOutcome)
        ensures
            outcome == self.outcome(
                false,
                passes,
                dispatches,
                session_of(drag.drag_state) is Some,
            ),
    {
        let ends = report_ends_drag(self.mouse, drag.is_in_drag());
        FrameOutcome {
            arrange_passes: passes,
            dispatch_mouse_up: dispatches || ends,
            focused: self.raised,
        }
    }
}

/// Where a float that was moved with a modifier was let go.
#[derive(Clone, Copy, Debug)]
pub struct SeamDrop<F, P> {
    /// The window floats.
    pub floating: bool,
    /// Its frame, if it is known.
    pub frame: Option<F>,
    /// It hangs over the edge of displays.
    pub straddles: bool,
    pub pointer: Option<P>,
}

/// What is known when the button comes up.
#[derive(Clone, Copy, Debug, PartialEq, Eq, Structural)]
pub struct ReleaseFacts {
    pub up: MouseUpFacts,
    /// The window under the pointer, and the desktop it is on.
    pub under_pointer: Option<WindowId>,
    pub under_pointer_space: Option<SpaceId>,
}

/// What is done when the button comes up.
#[derive(Clone, Copy, Debug, PartialEq, Eq)]
pub enum ReleaseStep {
    HideOverlay,
    /// The drag ends, and the drop is made.
    Drop(MouseUpPlan),
    /// A held window goes where the window server has it.
    Settle(WindowId),
    /// The layout is told where the focus is.
    Tell(LayoutEvent),
    /// The look at all windows that was put off during the drag is due.
    RefreshInventories,
}

/// The drop that is watched after a drag with a modifier.
pub open spec fn watched_drop<F, P>(
    modifier: Option<ModifierDrag<F>>,
    seam: SeamDrop<F, P>,
    now: Nanos,
) -> Option<SeamFinish<F, P>> {
    match (modifier, seam.frame) {
        (Some(drag), Some(frame)) => if drag.action == MouseAction::Move && seam.floating
            && seam.straddles {
            Some(
                SeamFinish {
                    window: drag.window,
                    dropped_at: frame,
                    pointer: seam.pointer,
                    fitted: None,
                    at: now,
                    attempts: 0,
                },
            )
        } else {
            None
        },
        _ => None,
    }
}

/// The window under the pointer, as the layout is told of it.
pub open spec fn focus_at_release(facts: ReleaseFacts) -> Option<LayoutEvent> {
    match (facts.under_pointer, facts.under_pointer_space) {
        (Some(window), Some(space)) => Some(LayoutEvent::WindowFocused(space, window)),
        _ => None,
    }
}

/// What is done when the button comes up, in order.
pub open spec fn release_steps(plan: MouseUpPlan, facts: ReleaseFacts, refresh: bool) -> Seq<
    ReleaseStep,
> {
    Seq::<ReleaseStep>::empty() + if_due(plan.hide_overlay, ReleaseStep::HideOverlay) + seq![
        ReleaseStep::Drop(plan),
    ] + match plan.settle {
        Some(window) => seq![ReleaseStep::Settle(window)],
        None => seq![],
    } + match focus_at_release(facts) {
        Some(event) => seq![ReleaseStep::Tell(event)],
        None => seq![],
    } + if_due(refresh, ReleaseStep::RefreshInventories)
}

/// The button came up. A drag with a modifier is over, and the drop of a float
/// that it moved is watched; a held window is let go, the overlay comes down,
/// and a dropped window is pinned.
pub fn release_button<F: Copy, P>(
    reactor: &mut Reactor,
    drag: &mut DragManager<F, P>,
    modifier: &mut Option<ModifierDrag<F>>,
    seam: SeamDrop<F, P>,
    facts: ReleaseFacts,
    now: Nanos,
) -> (steps: Vec<ReleaseStep>)
    requires
        old(drag).wf(),
    ensures
        final(drag).wf(),
        *final(modifier) is None,
        *final(drag) == (DragManager {
            held_window: None,
            drop_preview_cache: None,
            zone_candidate: None,
            drop_overlay_shown: false,
            drop_pin: match pin_of(old(drag).drag_state, facts.up, now) {
                Some(pin) => Some(pin),
                None => old(drag).drop_pin,
            },
            seam_finish: match watched_drop(*old(modifier), seam, now) {
                Some(finish) => Some(finish),
                None => old(drag).seam_finish,
            },
            ..*old(drag)
        }),
        *final(reactor) == (Reactor {
            quarantine: old(reactor).quarantine.flushed().0,
            last_mouse_up: Some(now),
            ..*old(reactor)
        }),
        steps@ == release_steps(
            drop_comes_to(
                old(drag).drag_state,
                old(drag).held_window,
                old(drag).drop_preview_cache,
                old(drag).drop_overlay_shown,
                facts.up,
            ),
            facts,
            old(reactor).quarantine.flushed().1,
        ),
{
    match (modifier.take(), seam.frame) {
        (Some(ended), Some(frame)) => {
            if watches_drop(ended.action, seam.floating, true, seam.straddles) {
                drag.watch_seam(ended.window, frame, seam.pointer, now);
            }
        },
        _ => {},
    }
    let plan = drag.mouse_up(facts.up, now);
    let refresh = reactor.note_mouse_up(now);
    let mut steps: Vec<ReleaseStep> = Vec::new();
    push_when(&mut steps, plan.hide_overlay, ReleaseStep::HideOverlay);
    steps.push(ReleaseStep::Drop(plan));
    match plan.settle {
        Some(window) => steps.push(ReleaseStep::Settle(window)),
        None => {},
    }
    match (facts.under_pointer, facts.under_pointer_space) {
        (Some(window), Some(space)) => {
            steps.push(ReleaseStep::Tell(LayoutEvent::WindowFocused(space, window)));
        },
        _ => {},
    }
    push_when(&mut steps, refresh, ReleaseStep::RefreshInventories);
    steps
}

/// When the button comes up the drop is made, whatever else is done, and all
/// windows are looked at, if that was put off, only when everything else is done.
pub proof fn a_release_makes_the_drop(plan: MouseUpPlan, facts: ReleaseFacts, refresh: bool)
    ensures
        release_steps(plan, facts, refresh).contains(ReleaseStep::Drop(plan)),
        forall|i: int|
            0 <= i < release_steps(plan, facts, refresh).len() && (#[trigger] release_steps(
                plan,
                facts,
                refresh,
            )[i]) == ReleaseStep::RefreshInventories ==> refresh && i == release_steps(
                plan,
                facts,
                refresh,
            ).len() - 1,
{
    reveal(if_due);
    let shown = Seq::<ReleaseStep>::empty() + if_due(plan.hide_overlay, ReleaseStep::HideOverlay);
    let dropped = shown + seq![ReleaseStep::Drop(plan)];
    let settle = match plan.settle {
        Some(window) => seq![ReleaseStep::Settle(window)],
        None => seq![],
    };
    let tell = match focus_at_release(facts) {
        Some(event) => seq![ReleaseStep::Tell(event)],
        None => seq![],
    };
    let last = if_due(refresh, ReleaseStep::RefreshInventories);
    let steps = release_steps(plan, facts, refresh);
    assert(steps =~= dropped + settle + tell + last);
    assert(dropped[shown.len() as int] == ReleaseStep::Drop(plan));
    assert(steps[shown.len() as int] == ReleaseStep::Drop(plan));
    assert forall|i: int|
        0 <= i < steps.len() && (#[trigger] steps[i]) == ReleaseStep::RefreshInventories implies refresh
        && i == steps.len() - 1 by {
        if i < shown.len() {
            assert(steps[i] == shown[i]);
            assert(shown =~= if_due(plan.hide_overlay, ReleaseStep::HideOverlay));
        } else if i < dropped.len() {
            assert(steps[i] == dropped[i]);
        } else if i < dropped.len() + settle.len() {
            assert(steps[i] == settle[i - dropped.len()]);
        } else if i < dropped.len() + settle.len() + tell.len() {
            assert(steps[i] == tell[i - dropped.len() - settle.len()]);
        } else {
            assert(steps[i] == last[i - dropped.len() - settle.len() - tell.len()]);
        }
    }
}

/// The active desktop that a report on a window is for, if the window is known.
pub fn reported_active_space(
    known: bool,
    best: Option<SpaceId>,
    has_sys_id: bool,
    command_space: Option<SpaceId>,
    active: &IdSet<SpaceId>,
) -> (space: Option<SpaceId>)
    requires
        active.wf(),
    ensures
        space == if !known {
            None
        } else if is_active(best, active@) {
            best
        } else if !has_sys_id {
            command_space
        } else {
            None
        },
{
    if !known {
        return None;
    }
    active_space_for(best, has_sys_id, command_space, active)
}

/// What the pointer coming over a window reads.
#[derive(Clone, Copy, Debug, PartialEq, Eq, Structural)]
pub struct HoverFacts {
    pub window: Option<WindowId>,
    /// The window may be raised because the pointer is over it.
    pub raises: bool,
    pub main_window: Option<WindowId>,
    pub layout_focus: Option<WindowId>,
    pub best: Option<SpaceId>,
    pub has_sys_id: bool,
    pub command_space: Option<SpaceId>,
}

/// The pointer came over a window: what that means, and the active desktop it is
/// for.
pub fn pointer_over(facts: HoverFacts, active: &IdSet<SpaceId>) -> (over: (Hover, Option<SpaceId>))
    requires
        active.wf(),
    ensures
        over.0 == (Hover {
            window: facts.window,
            should_sync: facts.window is Some && facts.raises,
            is_main: facts.window is Some && facts.main_window == facts.window,
            needs_layout_sync: facts.window is Some && facts.layout_focus != facts.window,
        }),
        over.1 == if facts.window is None {
            None
        } else if is_active(facts.best, active@) {
            facts.best
        } else if !facts.has_sys_id {
            facts.command_space
        } else {
            None
        },
{
    let over = hover(facts.window, facts.raises, facts.main_window, facts.layout_focus);
    let space = reported_active_space(
        facts.window.is_some(),
        facts.best,
        facts.has_sys_id,
        facts.command_space,
        active,
    );
    (over, space)
}

/// What a movement with the button held does, in order.
#[derive(Clone, Copy, Debug)]
pub struct DraggedPlan<F> {
    /// The desktop of a dragged float is matched to the display under it.
    pub sync_float: bool,
    /// The drop of this window, last seen at this frame, is looked for.
    pub evaluate: Option<(WindowId, F)>,
}

/// The pointer moved with the button held.
pub fn pointer_dragged<F: Copy, P>(drag: &mut DragManager<F, P>, floating: bool, now: Nanos) -> (
plan: DraggedPlan<F>)
    ensures
        plan.sync_float == (in_hand(old(drag).drag_state, old(drag).held_window) is Some
            && floating && !(old(drag).space_sync_at matches Some(at) && elapsed(now, at)
            < SPACE_SYNC_EVERY)),
        plan.evaluate == match session_of(old(drag).drag_state) {
            Some(session) => Some((session.window, session.last_frame)),
            None => None,
        },
        *final(drag) == (DragManager {
            space_sync_at: if plan.sync_float {
                Some(now)
            } else {
                old(drag).space_sync_at
            },
            ..*old(drag)
        }),
{
    let sync_float = drag.space_sync_due(floating, now);
    let evaluate = match drag.current_drag_session() {
        Some(session) => Some((session.window, session.last_frame)),
        None => None,
    };
    DraggedPlan { sync_float, evaluate }
}

/// What a movement with a modifier held does.
#[derive(Clone, Copy, Debug, PartialEq, Eq, Structural)]
pub enum ModifierMoved {
    Nothing,
    /// The frame of a float is written.
    Write(WindowId),
    /// The layout is told, and arranged once.
    Tell(LayoutEvent),
}

/// The pointer moved with a modifier held: a float is moved or resized; a tiled
/// window is resized through its layout.
pub fn modifier_moved<F: Copy>(drag: &Option<ModifierDrag<F>>, known: bool, floating: bool) -> (
moved: ModifierMoved)
    ensures
        moved == match *drag {
            Some(drag) => if !known || drag.action == MouseAction::Ignore {
                ModifierMoved::Nothing
            } else if floating {
                ModifierMoved::Write(drag.window)
            } else if drag.action == MouseAction::Resize {
                ModifierMoved::Tell(LayoutEvent::WindowResized(drag.window))
            } else {
                ModifierMoved::Nothing
            },
            None => ModifierMoved::Nothing,
        },
{
    match drag {
        Some(drag) => match modifier_step(drag.action, known, floating) {
            ModifierStep::Nothing => ModifierMoved::Nothing,
            ModifierStep::Write => ModifierMoved::Write(drag.window),
            ModifierStep::ReportResize => ModifierMoved::Tell(
                LayoutEvent::WindowResized(drag.window),
            ),
        },
        None => ModifierMoved::Nothing,
    }
}

/// The window whose appearance is noted for displays that are away: a known one,
/// on a desktop of the user's.
pub fn appearance_to_note(kind: SpaceEventKind, known: Option<WindowId>) -> (window: Option<
    WindowId,
>)
    ensures
        window == if kind == SpaceEventKind::User {
            known
        } else {
            None
        },
{
    match kind {
        SpaceEventKind::User => known,
        SpaceEventKind::Fullscreen => None,
    }
}

/// A window that was turned away, of the application in front.
pub open spec fn rejected_of(pid: Pid) -> spec_fn((WindowId, bool)) -> Option<WindowId> {
    |window: (WindowId, bool)|
        if window.0.pid == pid && !window.1 {
            Some(window.0)
        } else {
            None
        }
}

/// The windows that are looked at again before a command for the focused one is
/// carried out: the one in front, or else those of the application in front that
/// were turned away. `windows` has whether each is admitted.
pub fn looked_at_again(
    front: Option<WindowId>,
    front_app: Option<Pid>,
    windows: &[(WindowId, bool)],
) -> (again: Vec<WindowId>)
    ensures
        again@ == match (front, front_app) {
            (Some(front), _) => seq![front],
            (None, Some(pid)) => windows@.filter_map(rejected_of(pid)),
            (None, None) => seq![],
        },
{
    let mut again: Vec<WindowId> = Vec::new();
    match (front, front_app) {
        (Some(front), _) => {
            again.push(front);
        },
        (None, Some(pid)) => {
            let ghost f = rejected_of(pid);
            let mut i: usize = 0;
            while i < windows.len()
                invariant
                    f == rejected_of(pid),
                    i <= windows@.len(),
                    again@ == windows@.take(i as int).filter_map(f),
                decreases windows@.len() - i,
            {
                proof {
                    windows@.lemma_filter_map_take_succ(f, i as int);
                }
                let (window, admitted) = windows[i];
                if window.pid == pid && !admitted {
                    again.push(window);
                }
                i = i + 1;
            }
            assert(windows@.take(i as int) =~= windows@);
        },
        (None, None) => {},
    }
    again
}

/// What a command of the layout reads.
#[derive(Clone, Copy, Debug, PartialEq, Eq, Structural)]
pub struct LayoutFacts {
    pub main_window: Option<WindowId>,
    /// The admitted window around the main one, or the main one.
    pub front: Option<WindowId>,
    pub front_admitted: bool,
    pub front_app: Option<Pid>,
    /// A window that had been turned away was admitted when it was looked at
    /// again.
    pub readmitted: bool,
    pub layout_focus: Option<WindowId>,
    pub front_space: Option<SpaceId>,
    pub front_space_active: bool,
    /// The pointer may follow the main window.
    pub follows: bool,
    /// The desktop that commands are for.
    pub space: Option<SpaceId>,
}

/// What a command reads.
#[derive(Clone, Copy, Debug, PartialEq, Eq, Structural)]
pub struct CommandFacts {
    /// The desktop of the active display.
    pub active_space: Option<SpaceId>,
    pub layout: LayoutFacts,
    /// The desktop of the window that the command focuses, and whether it is
    /// active.
    pub focus_space: Option<SpaceId>,
    pub focus_space_active: bool,
    /// The display that the command names was found.
    pub display_found: bool,
    /// What focusing it does.
    pub display: DisplayFocus,
    pub moving: MoveFacts,
    pub moving_workspace: WorkspaceMoveFacts,
}

#[derive(Clone, Copy, Debug, PartialEq, Eq, Structural)]
pub enum MissionControl {
    ShowAll,
    ShowCurrent,
    Dismiss,
}

/// What is done about a command. Paths and the words of the layout stay with the
/// command.
#[derive(Clone, Copy, Debug, PartialEq, Eq)]
pub enum CommandPlan {
    ShowTiming,
    StartTrace,
    StopTrace,
    DumpTrace,
    Debug,
    Serialize,
    SaveLayout(Option<SpaceId>),
    AutosaveLayout(Option<SpaceId>),
    SaveAndExit(Option<SpaceId>),
    RestoreLayout(SpaceId),
    /// It is said that no desktop is there to restore.
    NothingToRestore,
    SwitchSpace(Direction),
    SwitchToSpace(usize),
    MoveWindowToSpace { index: usize, follow: bool },
    CreateSpace,
    DestroySpace,
    RestoreDepartureLayout,
    ToggleSpaceActivated(Option<SpaceId>),
    FocusWindow {
        window: WindowId,
        number: Option<u32>,
        space: Option<SpaceId>,
        space_active: bool,
    },
    MissionControl(MissionControl),
    MoveMouseToDisplay { found: bool, focus: DisplayFocus },
    FocusDisplay { found: bool, focus: DisplayFocus },
    Close(Option<u32>),
    MoveWindowToDisplay(DisplayMove),
    /// The window stays where it is.
    MoveRefused(MoveRefused),
    MoveWorkspaceToDisplay(WorkspaceMove),
    /// The workspace stays where it is.
    WorkspaceMoveRefused(WorkspaceMoveRefused),
    /// The layout's focus is brought in line first, if need be; then the command
    /// is carried out on the desktop, and the pointer brought along once the
    /// layout is done.
    Layout {
        align: Option<(SpaceId, WindowId)>,
        space: Option<SpaceId>,
        warp: Option<WindowId>,
    },
    /// The focused window is not managed.
    Ignore,
}

/// A command for the focused window does nothing: the window in front is not
/// managed, or was admitted just now.
pub open spec fn ignores(facts: LayoutFacts) -> bool {
    facts.readmitted || match facts.main_window {
        Some(_) => !facts.front_admitted,
        None => match facts.front_app {
            Some(pid) => !(facts.layout_focus matches Some(window) && window.pid == pid),
            None => false,
        },
    }
}

/// What is done about a command of the layout.
pub open spec fn layout_plan(for_focused: bool, facts: LayoutFacts) -> CommandPlan {
    if for_focused && ignores(facts) {
        CommandPlan::Ignore
    } else {
        CommandPlan::Layout {
            align: match (facts.front, facts.front_space) {
                (Some(window), Some(space)) => if for_focused && facts.front_admitted
                    && facts.layout_focus != Some(window) && facts.front_space_active {
                    Some((space, window))
                } else {
                    None
                },
                _ => None,
            },
            space: facts.space,
            warp: if facts.follows {
                facts.main_window
            } else {
                None
            },
        }
    }
}

/// What is done about a command.
pub open spec fn planned<V: Vocabulary>(command: Command<V>, facts: CommandFacts) -> CommandPlan {
    match command {
        Command::Metrics(MetricsCommand::ShowTiming) => CommandPlan::ShowTiming,
        Command::Layout(command) => layout_plan(command.is_for_focused(), facts.layout),
        Command::Reactor(command) => match command {
            ReactorCommand::Debug => CommandPlan::Debug,
            ReactorCommand::RecordTrace { path } => if path is Some {
                CommandPlan::StartTrace
            } else {
                CommandPlan::StopTrace
            },
            ReactorCommand::DumpTrace { .. } => CommandPlan::DumpTrace,
            ReactorCommand::Serialize => CommandPlan::Serialize,
            ReactorCommand::SaveLayout { .. } => CommandPlan::SaveLayout(facts.active_space),
            ReactorCommand::AutosaveLayout { .. } => CommandPlan::AutosaveLayout(
                facts.active_space,
            ),
            ReactorCommand::SaveAndExit => CommandPlan::SaveAndExit(facts.active_space),
            ReactorCommand::RestoreLayout { .. } => match facts.active_space {
                Some(space) => CommandPlan::RestoreLayout(space),
                None => CommandPlan::NothingToRestore,
            },
            ReactorCommand::SwitchSpace(direction) => CommandPlan::SwitchSpace(direction),
            ReactorCommand::SwitchToSpace(index) => CommandPlan::SwitchToSpace(index),
            ReactorCommand::MoveWindowToSpace { index, follow } => CommandPlan::MoveWindowToSpace {
                index,
                follow,
            },
            ReactorCommand::CreateSpace => CommandPlan::CreateSpace,
            ReactorCommand::DestroySpace => CommandPlan::DestroySpace,
            ReactorCommand::RestoreDepartureLayout => CommandPlan::RestoreDepartureLayout,
            ReactorCommand::ToggleSpaceActivated => CommandPlan::ToggleSpaceActivated(
                facts.active_space,
            ),
            ReactorCommand::FocusWindow { window_id, window_server_id } => CommandPlan::FocusWindow {
                window: window_id,
                number: window_server_id,
                space: facts.focus_space,
                space_active: facts.focus_space is Some && facts.focus_space_active,
            },
            ReactorCommand::ShowMissionControlAll => CommandPlan::MissionControl(
                MissionControl::ShowAll,
            ),
            ReactorCommand::ShowMissionControlCurrent => CommandPlan::MissionControl(
                MissionControl::ShowCurrent,
            ),
            ReactorCommand::DismissMissionControl => CommandPlan::MissionControl(
                MissionControl::Dismiss,
            ),
            ReactorCommand::MoveMouseToDisplay(_) => CommandPlan::MoveMouseToDisplay {
                found: facts.display_found,
                focus: facts.display,
            },
            ReactorCommand::FocusDisplay(_) => CommandPlan::FocusDisplay {
                found: facts.display_found,
                focus: facts.display,
            },
            ReactorCommand::CloseWindow { window_server_id } => CommandPlan::Close(
                window_server_id,
            ),
            ReactorCommand::MoveWindowToDisplay { .. } => match display_move(facts.moving) {
                Ok(moved) => CommandPlan::MoveWindowToDisplay(moved),
                Err(refused) => CommandPlan::MoveRefused(refused),
            },
            ReactorCommand::MoveWorkspaceToDisplay { .. } => match workspace_move(
                facts.moving_workspace,
            ) {
                Ok(moved) => CommandPlan::MoveWorkspaceToDisplay(moved),
                Err(refused) => CommandPlan::WorkspaceMoveRefused(refused),
            },
        },
    }
}

/// What is done about a command of the layout.
pub fn plan_layout_command<V: Vocabulary>(command: &LayoutCommand<V>, facts: LayoutFacts) -> (plan:
    CommandPlan)
    ensures
        plan == layout_plan(command.is_for_focused(), facts),
{
    let for_focused = command.targets_focused_window();
    if for_focused {
        let unmanaged = focused_window_is_unmanaged(
            facts.main_window,
            facts.front_admitted,
            facts.front_app,
            facts.layout_focus,
        );
        if facts.readmitted || unmanaged {
            return CommandPlan::Ignore;
        }
    }
    let align = if for_focused {
        layout_focus_for_command(
            facts.front,
            facts.front_admitted,
            facts.layout_focus,
            facts.front_space,
            facts.front_space_active,
        )
    } else {
        None
    };
    let warp = if facts.follows {
        facts.main_window
    } else {
        None
    };
    CommandPlan::Layout { align, space: facts.space, warp }
}

fn plan_reactor_command<V: Vocabulary>(command: &ReactorCommand<V>, facts: &CommandFacts) -> (plan:
    CommandPlan)
    ensures
        plan == planned(Command::Reactor(*command), *facts),
{
    match command {
        ReactorCommand::Debug => CommandPlan::Debug,
        ReactorCommand::RecordTrace { path } => if path.is_some() {
            CommandPlan::StartTrace
        } else {
            CommandPlan::StopTrace
        },
        ReactorCommand::DumpTrace { .. } => CommandPlan::DumpTrace,
        ReactorCommand::Serialize => CommandPlan::Serialize,
        ReactorCommand::SaveLayout { .. } => CommandPlan::SaveLayout(facts.active_space),
        ReactorCommand::AutosaveLayout { .. } => CommandPlan::AutosaveLayout(facts.active_space),
        ReactorCommand::SaveAndExit => CommandPlan::SaveAndExit(facts.active_space),
        ReactorCommand::RestoreLayout { .. } => match facts.active_space {
            Some(space) => CommandPlan::RestoreLayout(space),
            None => CommandPlan::NothingToRestore,
        },
        ReactorCommand::SwitchSpace(direction) => CommandPlan::SwitchSpace(*direction),
        ReactorCommand::SwitchToSpace(index) => CommandPlan::SwitchToSpace(*index),
        ReactorCommand::MoveWindowToSpace { index, follow } => CommandPlan::MoveWindowToSpace {
            index: *index,
            follow: *follow,
        },
        ReactorCommand::CreateSpace => CommandPlan::CreateSpace,
        ReactorCommand::DestroySpace => CommandPlan::DestroySpace,
        ReactorCommand::RestoreDepartureLayout => CommandPlan::RestoreDepartureLayout,
        ReactorCommand::ToggleSpaceActivated => CommandPlan::ToggleSpaceActivated(
            facts.active_space,
        ),
        ReactorCommand::FocusWindow { window_id, window_server_id } => CommandPlan::FocusWindow {
            window: *window_id,
            number: *window_server_id,
            space: facts.focus_space,
            space_active: facts.focus_space.is_some() && facts.focus_space_active,
        },
        ReactorCommand::ShowMissionControlAll => CommandPlan::MissionControl(
            MissionControl::ShowAll,
        ),
        ReactorCommand::ShowMissionControlCurrent => CommandPlan::MissionControl(
            MissionControl::ShowCurrent,
        ),
        ReactorCommand::DismissMissionControl => CommandPlan::MissionControl(
            MissionControl::Dismiss,
        ),
        ReactorCommand::MoveMouseToDisplay(_) => CommandPlan::MoveMouseToDisplay {
            found: facts.display_found,
            focus: facts.display,
        },
        ReactorCommand::FocusDisplay(_) => CommandPlan::FocusDisplay {
            found: facts.display_found,
            focus: facts.display,
        },
        ReactorCommand::CloseWindow { window_server_id } => CommandPlan::Close(*window_server_id),
        ReactorCommand::MoveWindowToDisplay { .. } => match move_window_to_display(facts.moving) {
            Ok(moved) => CommandPlan::MoveWindowToDisplay(moved),
            Err(refused) => CommandPlan::MoveRefused(refused),
        },
        ReactorCommand::MoveWorkspaceToDisplay { .. } => match move_workspace_to_display(
            facts.moving_workspace,
        ) {
            Ok(moved) => CommandPlan::MoveWorkspaceToDisplay(moved),
            Err(refused) => CommandPlan::WorkspaceMoveRefused(refused),
        },
    }
}

/// What is done about a command.
pub fn plan_command<V: Vocabulary>(command: &Command<V>, facts: &CommandFacts) -> (plan: CommandPlan)
    ensures
        plan == planned(*command, *facts),
{
    match command {
        Command::Metrics(MetricsCommand::ShowTiming) => CommandPlan::ShowTiming,
        Command::Layout(command) => plan_layout_command(command, facts.layout),
        Command::Reactor(command) => plan_reactor_command(command, facts),
    }
}

/// What a recording begins with.
#[derive(Clone, Copy, Debug, PartialEq, Eq, Structural)]
pub enum Preamble {
    /// The displays and desktops.
    Spaces,
    /// An application, with its windows.
    Launched(Pid),
    /// The application in front.
    Activated(Pid),
    /// The window that has the focus.
    Focused(WindowId, SpaceId),
}

/// The applications, in the order given by `order`.
pub open spec fn launches(pids: Seq<Pid>, order: Seq<usize>) -> Seq<Preamble> {
    order.map_values(|at: usize| Preamble::Launched(pids[at as int]))
}

/// What a recording that starts in mid-session begins with: what a restart would
/// report.
pub open spec fn preamble(
    pids: Seq<Pid>,
    order: Seq<usize>,
    front: Option<Pid>,
    focus: Option<WindowId>,
    focus_space: Option<SpaceId>,
) -> Seq<Preamble> {
    seq![Preamble::Spaces] + launches(pids, order) + match front {
        Some(pid) => seq![Preamble::Activated(pid)],
        None => seq![],
    } + match (focus, focus_space) {
        (Some(window), Some(space)) => seq![Preamble::Focused(window, space)],
        _ => seq![],
    }
}

/// What a recording that starts in mid-session begins with: the displays, the
/// applications by their numbers, the one in front, and the focus.
pub fn trace_preamble(
    pids: &[Pid],
    front: Option<Pid>,
    focus: Option<WindowId>,
    focus_space: Option<SpaceId>,
) -> (steps: Vec<Preamble>)
    ensures
        exists|order: Seq<usize>|
            #![trigger in_order(pids@, order)]
            each_once(order, pids@.len() as int) && in_order(pids@, order) && steps@ == preamble(
                pids@,
                order,
                front,
                focus,
                focus_space,
            ),
{
    let order = stable_order(pids);
    let mut steps: Vec<Preamble> = Vec::new();
    steps.push(Preamble::Spaces);
    let ghost all = seq![Preamble::Spaces] + launches(pids@, order@);
    let mut i: usize = 0;
    assert(steps@ =~= all.take(1));
    while i < order.len()
        invariant
            i <= order@.len(),
            each_once(order@, pids@.len() as int),
            all == seq![Preamble::Spaces] + launches(pids@, order@),
            steps@ == all.take(i + 1),
        decreases order@.len() - i,
    {
        let at = order[i];
        assert(all[i + 1] == launches(pids@, order@)[i as int]);
        steps.push(Preamble::Launched(pids[at]));
        assert(steps@ =~= all.take(i + 2));
        i = i + 1;
    }
    assert(steps@ =~= all);
    match front {
        Some(pid) => steps.push(Preamble::Activated(pid)),
        None => {},
    }
    match (focus, focus_space) {
        (Some(window), Some(space)) => steps.push(Preamble::Focused(window, space)),
        _ => {},
    }
    assert(steps@ =~= preamble(pids@, order@, front, focus, focus_space));
    assert(in_order(pids@, order@));
    steps
}

/// A command for the focused window leaves a window alone that is not managed,
/// and every other command is carried out whatever is in front.
pub proof fn only_managed_windows_are_commanded<V: Vocabulary>(
    command: LayoutCommand<V>,
    facts: CommandFacts,
)
    requires
        !facts.layout.readmitted,
        facts.layout.main_window is Some,
    ensures
        planned(Command::Layout(command), facts) is Ignore <==> command.is_for_focused()
            && !facts.layout.front_admitted,
{
}

/// What a report of a frame asks for: one pass for a least size that was noted, else as
/// many as taking in the frame asked for; the end of a drag where the button is up and
/// one is on, or where taking it in asked for that; and focus for the window that came
/// to the front.
pub proof fn what_a_frame_report_asks_for(
    report: FrameReport,
    passes: usize,
    dispatches: bool,
    dragging: bool,
)
    ensures
        report.outcome(true, passes, dispatches, dragging).arrange_passes == 1,
        report.outcome(false, passes, dispatches, dragging).arrange_passes == passes,
        report.outcome(false, passes, true, dragging).dispatch_mouse_up,
        report.outcome(true, passes, false, dragging).dispatch_mouse_up <==> dragging && report.mouse
            == Some(MouseState::Up),
        report.outcome(false, passes, dispatches, dragging).focused == report.raised,
{
}

/// A drop is watched after a float was moved with a modifier and let go over the edge of
/// displays, from where it was let go and with no correction written; and no other is.
pub proof fn which_drop_is_watched<F, P>(drag: ModifierDrag<F>, seam: SeamDrop<F, P>, now: Nanos)
    ensures
        watched_drop::<F, P>(None, seam, now) is None,
        drag.action != MouseAction::Move || !seam.floating || !seam.straddles || seam.frame is None
            ==> watched_drop(Some(drag), seam, now) is None,
        drag.action == MouseAction::Move && seam.floating && seam.straddles && seam.frame is Some
            ==> (watched_drop(Some(drag), seam, now) matches Some(finish) && finish.window
            == drag.window && finish.dropped_at == seam.frame->0 && finish.pointer == seam.pointer
            && finish.fitted is None && finish.at == now && finish.attempts == 0),
{
}

/// The place of each step in the order in which a release is dealt with.
pub open spec fn place_of_release(step: ReleaseStep) -> int {
    match step {
        ReleaseStep::HideOverlay => 0,
        ReleaseStep::Drop(_) => 1,
        ReleaseStep::Settle(_) => 2,
        ReleaseStep::Tell(_) => 3,
        ReleaseStep::RefreshInventories => 4,
    }
}

/// The places of the steps.
pub open spec fn release_places() -> spec_fn(ReleaseStep) -> int {
    |step: ReleaseStep| place_of_release(step)
}

/// A release is dealt with in order: the overlay comes down if it is up, the drop is
/// made, a held window settles, the layout is told of the window under the pointer where
/// its desktop is known, and all windows are looked at if that was put off.
pub proof fn what_is_done_at_a_release(
    plan: MouseUpPlan,
    facts: ReleaseFacts,
    refresh: bool,
    step: ReleaseStep,
    i: int,
    j: int,
)
    ensures
        release_steps(plan, facts, refresh).contains(step) <==> match step {
            ReleaseStep::HideOverlay => plan.hide_overlay,
            ReleaseStep::Drop(dropped) => dropped == plan,
            ReleaseStep::Settle(window) => plan.settle == Some(window),
            ReleaseStep::Tell(LayoutEvent::WindowFocused(space, window)) => facts.under_pointer
                == Some(window) && facts.under_pointer_space == Some(space),
            ReleaseStep::Tell(_) => false,
            ReleaseStep::RefreshInventories => refresh,
        },
        ({
            let steps = release_steps(plan, facts, refresh);
            0 <= i < j < steps.len() ==> place_of_release(steps[i]) < place_of_release(steps[j])
        }),
{
    let rank = release_places();
    let none = Seq::<ReleaseStep>::empty();
    crate::lists::lemma_nothing_rises(rank, step);
    let settle = plan.settle->0;
    let told = focus_at_release(facts);
    let event = told->0;
    let s0 = none + if_due(plan.hide_overlay, ReleaseStep::HideOverlay);
    crate::lists::lemma_rising(none, plan.hide_overlay, ReleaseStep::HideOverlay, rank, -1, step);
    let s1 = s0 + if_due(true, ReleaseStep::Drop(plan));
    crate::lists::lemma_rising(s0, true, ReleaseStep::Drop(plan), rank, 0, step);
    let s2 = s1 + if_due(plan.settle is Some, ReleaseStep::Settle(settle));
    crate::lists::lemma_rising(s1, plan.settle is Some, ReleaseStep::Settle(settle), rank, 1, step);
    let s3 = s2 + if_due(told is Some, ReleaseStep::Tell(event));
    crate::lists::lemma_rising(s2, told is Some, ReleaseStep::Tell(event), rank, 2, step);
    let s4 = s3 + if_due(refresh, ReleaseStep::RefreshInventories);
    crate::lists::lemma_rising(s3, refresh, ReleaseStep::RefreshInventories, rank, 3, step);
    let steps = release_steps(plan, facts, refresh);
    assert(steps =~= s4) by {
        reveal(if_due);
    }
    if 0 <= i < j < steps.len() {
        crate::lists::lemma_rises(steps, rank, 4, i, j);
    }
}

/// One more window is looked at again if it is of the application in front and was
/// turned away.
pub proof fn who_is_looked_at_again(windows: Seq<(WindowId, bool)>, one: (WindowId, bool), pid: Pid)
    ensures
        Seq::<(WindowId, bool)>::empty().filter_map(rejected_of(pid)).len() == 0,
        one.0.pid == pid && !one.1 ==> windows.push(one).filter_map(rejected_of(pid))
            == windows.filter_map(rejected_of(pid)).push(one.0),
        one.0.pid != pid || one.1 ==> windows.push(one).filter_map(rejected_of(pid))
            == windows.filter_map(rejected_of(pid)),
{
    crate::lists::lemma_filter_map_push(windows, one, rejected_of(pid));
}

/// A command for the focused window does nothing where a window was admitted just now,
/// where the main window's root is not admitted, and where without a main window an
/// application is in front that the layout's focus is not of; else it is carried out.
pub proof fn when_a_command_does_nothing(facts: LayoutFacts)
    ensures
        facts.readmitted ==> layout_plan(true, facts) is Ignore,
        !facts.readmitted && facts.main_window is Some && !facts.front_admitted ==> layout_plan(
            true,
            facts,
        ) is Ignore,
        !facts.readmitted && facts.main_window is Some && facts.front_admitted ==> layout_plan(
            true,
            facts,
        ) is Layout,
        !facts.readmitted && facts.main_window is None && facts.front_app is None ==> layout_plan(
            true,
            facts,
        ) is Layout,
        !facts.readmitted && facts.main_window is None && facts.front_app is Some && (
        facts.layout_focus is None || facts.layout_focus->0.pid != facts.front_app->0)
            ==> layout_plan(true, facts) is Ignore,
        !facts.readmitted && facts.main_window is None && facts.front_app is Some && (
        facts.layout_focus matches Some(window) && window.pid == facts.front_app->0) ==> layout_plan(
            true,
            facts,
        ) is Layout,
        layout_plan(false, facts) is Layout,
{
}

/// A command of the layout is for the desktop that commands are for; one for the focused
/// window first brings the layout's focus to the window in front, where that is admitted,
/// the focus elsewhere and its desktop active; and the pointer follows the main window
/// where it may.
pub proof fn how_a_command_is_carried_out(for_focused: bool, facts: LayoutFacts)
    requires
        layout_plan(for_focused, facts) is Layout,
    ensures
        layout_plan(for_focused, facts) matches CommandPlan::Layout { align, space, warp } && {
            &&& space == facts.space
            &&& facts.follows ==> warp == facts.main_window
            &&& !facts.follows ==> warp is None
            &&& align is Some <==> for_focused && facts.front is Some && facts.front_space is Some
                && facts.front_admitted && facts.layout_focus != facts.front
                && facts.front_space_active
            &&& align is Some ==> align == Some((facts.front_space->0, facts.front->0))
        },
{
}

/// Each command of the manager gets what it asks for, on the desktop of the active
/// display where it is for one.
pub proof fn what_a_command_gets<V: Vocabulary>(command: ReactorCommand<V>, facts: CommandFacts)
    ensures
        ({
            let plan = planned(Command::Reactor(command), facts);
            &&& command is Debug ==> plan is Debug
            &&& command is Serialize ==> plan is Serialize
            &&& command is DumpTrace ==> plan is DumpTrace
            &&& (command matches ReactorCommand::RecordTrace { path } && path is Some)
                ==> plan is StartTrace
            &&& (command matches ReactorCommand::RecordTrace { path } && path is None)
                ==> plan is StopTrace
            &&& command is SaveLayout ==> plan == CommandPlan::SaveLayout(facts.active_space)
            &&& command is AutosaveLayout ==> plan == CommandPlan::AutosaveLayout(
                facts.active_space,
            )
            &&& command is SaveAndExit ==> plan == CommandPlan::SaveAndExit(facts.active_space)
            &&& command is RestoreLayout && facts.active_space is Some ==> plan
                == CommandPlan::RestoreLayout(facts.active_space->0)
            &&& command is RestoreLayout && facts.active_space is None
                ==> plan is NothingToRestore
            &&& (command matches ReactorCommand::SwitchSpace(direction) ==> plan
                == CommandPlan::SwitchSpace(direction))
            &&& (command matches ReactorCommand::SwitchToSpace(index) ==> plan
                == CommandPlan::SwitchToSpace(index))
            &&& (command matches ReactorCommand::MoveWindowToSpace { index, follow } ==> plan == (
            CommandPlan::MoveWindowToSpace { index, follow }))
            &&& command is CreateSpace ==> plan is CreateSpace
            &&& command is DestroySpace ==> plan is DestroySpace
            &&& command is RestoreDepartureLayout ==> plan is RestoreDepartureLayout
            &&& command is ToggleSpaceActivated ==> plan == CommandPlan::ToggleSpaceActivated(
                facts.active_space,
            )
            &&& (command matches ReactorCommand::FocusWindow { window_id, window_server_id } ==> (
            plan matches CommandPlan::FocusWindow { window, number, space, space_active } && window
                == window_id && number == window_server_id && space == facts.focus_space
                && space_active == (facts.focus_space is Some && facts.focus_space_active)))
            &&& command is ShowMissionControlAll ==> plan == CommandPlan::MissionControl(
                MissionControl::ShowAll,
            )
            &&& command is ShowMissionControlCurrent ==> plan == CommandPlan::MissionControl(
                MissionControl::ShowCurrent,
            )
            &&& command is DismissMissionControl ==> plan == CommandPlan::MissionControl(
                MissionControl::Dismiss,
            )
            &&& command is MoveMouseToDisplay ==> plan == (CommandPlan::MoveMouseToDisplay {
                found: facts.display_found,
                focus: facts.display,
            })
            &&& command is FocusDisplay ==> plan == (CommandPlan::FocusDisplay {
                found: facts.display_found,
                focus: facts.display,
            })
            &&& (command matches ReactorCommand::CloseWindow { window_server_id } ==> plan
                == CommandPlan::Close(window_server_id))
            &&& command is MoveWindowToDisplay && display_move(facts.moving) is Ok ==> plan
                == CommandPlan::MoveWindowToDisplay(display_move(facts.moving)->Ok_0)
            &&& command is MoveWindowToDisplay && display_move(facts.moving) is Err ==> plan
                == CommandPlan::MoveRefused(display_move(facts.moving)->Err_0)
            &&& command is MoveWorkspaceToDisplay && workspace_move(facts.moving_workspace) is Ok
                ==> plan == CommandPlan::MoveWorkspaceToDisplay(
                workspace_move(facts.moving_workspace)->Ok_0,
            )
            &&& command is MoveWorkspaceToDisplay && workspace_move(facts.moving_workspace) is Err
                ==> plan == CommandPlan::WorkspaceMoveRefused(
                workspace_move(facts.moving_workspace)->Err_0,
            )
        }),
{
}

/// A recording begins with the displays; then come the applications by their numbers,
/// each once; then the one in front, and last the focus where it is known.
pub proof fn what_a_recording_begins_with(
    pids: Seq<Pid>,
    order: Seq<usize>,
    front: Option<Pid>,
    focus: Option<WindowId>,
    focus_space: Option<SpaceId>,
    i: int,
    j: int,
)
    requires
        each_once(order, pids.len() as int),
        in_order(pids, order),
        0 <= i < j < order.len(),
    ensures
        ({
            let steps = preamble(pids, order, front, focus, focus_space);
            &&& steps[0] == Preamble::Spaces
            &&& steps[1 + i] == Preamble::Launched(pids[order[i] as int])
            &&& pids[order[i] as int] <= pids[order[j] as int]
            &&& front is Some ==> steps[order.len() as int + 1] == Preamble::Activated(front->0)
            &&& focus is Some && focus_space is Some ==> steps.last() == Preamble::Focused(
                focus->0,
                focus_space->0,
            )
            &&& steps.len() == 1 + order.len() + (if front is Some {
                1int
            } else {
                0
            }) + (if focus is Some && focus_space is Some {
                1int
            } else {
                0
            })
        }),
{
}

/// A report ends a drag if taking it in asked for that, or the button is up in one; whether
/// or not a least size was noted. It tells of the window that was raised.
pub proof fn when_a_frame_report_ends_a_drag(
    report: FrameReport,
    noted: bool,
    passes: usize,
    dispatches: bool,
    dragging: bool,
)
    ensures
        report.outcome(noted, passes, dispatches, dragging).dispatch_mouse_up <==> dispatches || (
        dragging && report.mouse == Some(MouseState::Up)),
        report.outcome(noted, passes, dispatches, dragging).focused == report.raised,
{
}

/// A recording begins with the desktops, whatever is running; and of an application alone it
/// tells next.
pub proof fn every_recording_begins_with_the_desktops(
    pids: Seq<Pid>,
    order: Seq<usize>,
    front: Option<Pid>,
    focus: Option<WindowId>,
    focus_space: Option<SpaceId>,
    i: int,
)
    ensures
        ({
            let steps = preamble(pids, order, front, focus, focus_space);
            &&& steps.len() > 0 && steps[0] == Preamble::Spaces
            &&& 0 <= i < order.len() ==> steps[1 + i] == Preamble::Launched(pids[order[i] as int])
            &&& front is Some ==> steps[order.len() as int + 1] == Preamble::Activated(front->0)
            &&& focus is Some && focus_space is Some ==> steps.last() == Preamble::Focused(
                focus->0,
                focus_space->0,
            )
            &&& front is None && (focus is None || focus_space is None) ==> steps.len() == 1
                + order.len()
        }),
{
}

} // verus!
