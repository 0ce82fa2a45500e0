//! What an event asks for, applied in one stable order.
//!
//! Frames of a transition are written before the layout is calculated, so that
//! the layout has the last word. Focus follows the layout's writes, then what
//! is shown is refreshed. Requests that lead to new discovery come last, so
//! that whoever sees them sees a finished model.

use vstd::prelude::*;

use crate::ids::{SpaceId, WindowId, WindowServerId};
use crate::lists::{if_due, push_when};

verus! {

/// What an event asks for: of each kind of request, whether there is one.
#[derive(Clone, Copy, Debug, PartialEq, Eq, Structural)]
pub struct EventOutcome {
    pub window_server_updates: bool,
    pub recompute_active_spaces: bool,
    pub repair_spaces_after_mission_control: bool,
    pub refresh_after_mission_control: bool,
    pub refresh_window_inventories: bool,
    pub discoveries: bool,
    pub reapply_app_rules: bool,
    pub finalize_created_windows: bool,
    pub confirmed_window_spaces: bool,
    pub fullscreen_restorations: bool,
    pub topology_reassignments: bool,
    pub pre_layout_window_frame_writes: bool,
    pub layout_events: bool,
    pub layout_responses: bool,
    pub drag_swap_evaluations: bool,
    pub dispatch_mouse_up: bool,
    pub arrange: Arrange,
    pub broadcast_layout_changed: bool,
    pub broadcast_selection_changed: bool,
    pub post_arrange_mouse_warp: bool,
    pub raise_requests: bool,
    pub focused_window: bool,
    pub switch_native_space: bool,
    pub make_key_windows: bool,
    pub mouse_warps: bool,
    pub wm_commands: bool,
    pub wm_events: bool,
    pub close_window: bool,
    pub service_config_update: bool,
    pub stdout_lines: bool,
    pub refresh_window_notifications: bool,
    pub refresh_focus_follows_mouse: bool,
    pub refresh_layout_mode: bool,
    pub window_title_broadcasts: bool,
    pub focused_window_broadcast: bool,
    pub app_requests: bool,
    pub window_inventory_requests: bool,
}

/// Whether and how often the layout is arranged.
#[derive(Clone, Copy, Debug, PartialEq, Eq, Structural)]
pub struct Arrange {
    pub requested: bool,
    pub window_was_destroyed: bool,
    pub passes: usize,
}

/// A step of applying what an event asks for.
#[derive(Clone, Copy, Debug, PartialEq, Eq, Structural)]
pub enum Phase {
    WindowServerUpdates,
    RecomputeActiveSpaces,
    RepairSpacesAfterMissionControl,
    RefreshAfterMissionControl,
    RefreshWindowInventories,
    Discoveries,
    ReapplyAppRules,
    FinalizeCreatedWindows,
    ConfirmedWindowSpaces,
    FullscreenRestorations,
    TopologyReassignments,
    PreLayoutWindowFrameWrites,
    LayoutEvents,
    LayoutResponses,
    DragSwapEvaluations,
    DispatchMouseUp,
    MenuUpdate,
    BroadcastLayoutChanged,
    BroadcastSelectionChanged,
    PostArrangeMouseWarp,
    RaiseRequests,
    FocusedWindow,
    SwitchNativeSpace,
    MakeKeyWindows,
    MouseWarps,
    WmCommands,
    WmEvents,
    CloseWindow,
    ServiceConfigUpdate,
    StdoutLines,
    EndWorkspaceSwitch,
    WindowNotifications,
    FocusFollowsMouse,
    LayoutMode,
    WindowTitleBroadcasts,
    FocusedWindowBroadcast,
    AppRequests,
    WindowInventoryRequests,
}

/// What brings the model up to date.
pub open spec fn reconciled(outcome: EventOutcome) -> Seq<Phase> {
    Seq::<Phase>::empty() + if_due(outcome.window_server_updates, Phase::WindowServerUpdates)
        + if_due(outcome.recompute_active_spaces, Phase::RecomputeActiveSpaces) + if_due(
        outcome.repair_spaces_after_mission_control,
        Phase::RepairSpacesAfterMissionControl,
    ) + if_due(outcome.refresh_after_mission_control, Phase::RefreshAfterMissionControl) + if_due(
        outcome.refresh_window_inventories,
        Phase::RefreshWindowInventories,
    ) + if_due(outcome.discoveries, Phase::Discoveries) + if_due(
        outcome.reapply_app_rules,
        Phase::ReapplyAppRules,
    ) + if_due(outcome.finalize_created_windows, Phase::FinalizeCreatedWindows) + if_due(
        outcome.confirmed_window_spaces,
        Phase::ConfirmedWindowSpaces,
    ) + if_due(outcome.fullscreen_restorations, Phase::FullscreenRestorations) + if_due(
        outcome.topology_reassignments,
        Phase::TopologyReassignments,
    )
}

/// The frames of a transition, then what the layout is told.
pub open spec fn with_layout(front: Seq<Phase>, outcome: EventOutcome) -> Seq<Phase> {
    front + if_due(outcome.pre_layout_window_frame_writes, Phase::PreLayoutWindowFrameWrites)
        + if_due(outcome.layout_events, Phase::LayoutEvents) + if_due(
        outcome.layout_responses,
        Phase::LayoutResponses,
    ) + if_due(outcome.drag_swap_evaluations, Phase::DragSwapEvaluations) + if_due(
        outcome.dispatch_mouse_up,
        Phase::DispatchMouseUp,
    )
}

/// What is done before the layout is arranged, in order.
pub open spec fn phases_before(outcome: EventOutcome) -> Seq<Phase> {
    with_layout(reconciled(outcome), outcome)
}

/// The menu follows once all passes are done. The layout is announced, and the
/// pointer brought along, only if it changed.
pub open spec fn announced(outcome: EventOutcome, arranged: bool, layout_changed: bool) -> Seq<
    Phase,
> {
    Seq::<Phase>::empty() + if_due(arranged, Phase::MenuUpdate) + if_due(
        outcome.broadcast_layout_changed && layout_changed,
        Phase::BroadcastLayoutChanged,
    ) + if_due(outcome.broadcast_selection_changed, Phase::BroadcastSelectionChanged) + if_due(
        outcome.post_arrange_mouse_warp && layout_changed,
        Phase::PostArrangeMouseWarp,
    )
}

/// Focus, and what is asked of others.
pub open spec fn with_requests(front: Seq<Phase>, outcome: EventOutcome) -> Seq<Phase> {
    front + if_due(outcome.raise_requests, Phase::RaiseRequests) + if_due(
        outcome.focused_window,
        Phase::FocusedWindow,
    ) + if_due(outcome.switch_native_space, Phase::SwitchNativeSpace) + if_due(
        outcome.make_key_windows,
        Phase::MakeKeyWindows,
    ) + if_due(outcome.mouse_warps, Phase::MouseWarps) + if_due(
        outcome.wm_commands,
        Phase::WmCommands,
    ) + if_due(outcome.wm_events, Phase::WmEvents) + if_due(
        outcome.close_window,
        Phase::CloseWindow,
    ) + if_due(outcome.service_config_update, Phase::ServiceConfigUpdate) + if_due(
        outcome.stdout_lines,
        Phase::StdoutLines,
    )
}

/// The end of a workspace switch, what is shown, and requests that lead to new
/// discovery.
pub open spec fn with_closing(front: Seq<Phase>, outcome: EventOutcome) -> Seq<Phase> {
    front + if_due(true, Phase::EndWorkspaceSwitch) + if_due(
        outcome.refresh_window_notifications,
        Phase::WindowNotifications,
    ) + if_due(outcome.refresh_focus_follows_mouse, Phase::FocusFollowsMouse) + if_due(
        outcome.refresh_layout_mode,
        Phase::LayoutMode,
    ) + if_due(outcome.window_title_broadcasts, Phase::WindowTitleBroadcasts) + if_due(
        outcome.focused_window_broadcast,
        Phase::FocusedWindowBroadcast,
    ) + if_due(outcome.app_requests, Phase::AppRequests) + if_due(
        outcome.window_inventory_requests,
        Phase::WindowInventoryRequests,
    )
}

/// What is done once the layout was arranged, in order.
pub open spec fn phases_after(
    outcome: EventOutcome,
    arranged: bool,
    layout_changed: bool,
) -> Seq<Phase> {
    with_closing(with_requests(announced(outcome, arranged, layout_changed), outcome), outcome)
}

/// How often the layout is arranged: not in a drag, unless a window is gone.
pub open spec fn passes_of(arrange: Arrange, dragging: bool) -> usize {
    if arrange.requested && (!dragging || arrange.window_was_destroyed) {
        if arrange.passes == 0 {
            1
        } else {
            arrange.passes
        }
    } else {
        0
    }
}

impl EventOutcome {
    /// What an event asks for that asks for nothing.
    pub fn nothing() -> (outcome: EventOutcome)
        ensures
            outcome == (EventOutcome {
                window_server_updates: false,
                recompute_active_spaces: false,
                repair_spaces_after_mission_control: false,
                refresh_after_mission_control: false,
                refresh_window_inventories: false,
                discoveries: false,
                reapply_app_rules: false,
                finalize_created_windows: false,
                confirmed_window_spaces: false,
                fullscreen_restorations: false,
                topology_reassignments: false,
                pre_layout_window_frame_writes: false,
                layout_events: false,
                layout_responses: false,
                drag_swap_evaluations: false,
                dispatch_mouse_up: false,
                arrange: Arrange { requested: false, window_was_destroyed: false, passes: 0 },
                broadcast_layout_changed: false,
                broadcast_selection_changed: false,
                post_arrange_mouse_warp: false,
                raise_requests: false,
                focused_window: false,
                switch_native_space: false,
                make_key_windows: false,
                mouse_warps: false,
                wm_commands: false,
                wm_events: false,
                close_window: false,
                service_config_update: false,
                stdout_lines: false,
                refresh_window_notifications: false,
                refresh_focus_follows_mouse: false,
                refresh_layout_mode: false,
                window_title_broadcasts: false,
                focused_window_broadcast: false,
                app_requests: false,
                window_inventory_requests: false,
            }),
    {
        EventOutcome {
            window_server_updates: false,
            recompute_active_spaces: false,
            repair_spaces_after_mission_control: false,
            refresh_after_mission_control: false,
            refresh_window_inventories: false,
            discoveries: false,
            reapply_app_rules: false,
            finalize_created_windows: false,
            confirmed_window_spaces: false,
            fullscreen_restorations: false,
            topology_reassignments: false,
            pre_layout_window_frame_writes: false,
            layout_events: false,
            layout_responses: false,
            drag_swap_evaluations: false,
            dispatch_mouse_up: false,
            arrange: Arrange { requested: false, window_was_destroyed: false, passes: 0 },
            broadcast_layout_changed: false,
            broadcast_selection_changed: false,
            post_arrange_mouse_warp: false,
            raise_requests: false,
            focused_window: false,
            switch_native_space: false,
            make_key_windows: false,
            mouse_warps: false,
            wm_commands: false,
            wm_events: false,
            close_window: false,
            service_config_update: false,
            stdout_lines: false,
            refresh_window_notifications: false,
            refresh_focus_follows_mouse: false,
            refresh_layout_mode: false,
            window_title_broadcasts: false,
            focused_window_broadcast: false,
            app_requests: false,
            window_inventory_requests: false,
        }
    }

    /// What is done before the layout is arranged, in order.
    pub fn before_arrange(&self) -> (phases: Vec<Phase>)
        ensures
            phases@ == phases_before(*self),
    {
        let mut phases: Vec<Phase> = Vec::new();
        assert(phases@ =~= Seq::<Phase>::empty());
        push_when(&mut phases, self.window_server_updates, Phase::WindowServerUpdates);
        push_when(&mut phases, self.recompute_active_spaces, Phase::RecomputeActiveSpaces);
        push_when(
            &mut phases,
            self.repair_spaces_after_mission_control,
            Phase::RepairSpacesAfterMissionControl,
        );
        push_when(
            &mut phases,
            self.refresh_after_mission_control,
            Phase::RefreshAfterMissionControl,
        );
        push_when(&mut phases, self.refresh_window_inventories, Phase::RefreshWindowInventories);
        push_when(&mut phases, self.discoveries, Phase::Discoveries);
        push_when(&mut phases, self.reapply_app_rules, Phase::ReapplyAppRules);
        push_when(&mut phases, self.finalize_created_windows, Phase::FinalizeCreatedWindows);
        push_when(&mut phases, self.confirmed_window_spaces, Phase::ConfirmedWindowSpaces);
        push_when(&mut phases, self.fullscreen_restorations, Phase::FullscreenRestorations);
        push_when(&mut phases, self.topology_reassignments, Phase::TopologyReassignments);
        push_when(
            &mut phases,
            self.pre_layout_window_frame_writes,
            Phase::PreLayoutWindowFrameWrites,
        );
        push_when(&mut phases, self.layout_events, Phase::LayoutEvents);
        push_when(&mut phases, self.layout_responses, Phase::LayoutResponses);
        push_when(&mut phases, self.drag_swap_evaluations, Phase::DragSwapEvaluations);
        push_when(&mut phases, self.dispatch_mouse_up, Phase::DispatchMouseUp);
        phases
    }

    /// How often the layout is arranged.
    pub fn arrange_passes(&self, dragging: bool) -> (passes: usize)
        ensures
            passes == passes_of(self.arrange, dragging),
    {
        if self.arrange.requested && (!dragging || self.arrange.window_was_destroyed) {
            if self.arrange.passes == 0 {
                1
            } else {
                self.arrange.passes
            }
        } else {
            0
        }
    }

    fn push_requests(&self, phases: &mut Vec<Phase>)
        ensures
            final(phases)@ == with_requests(old(phases)@, *self),
    {
        push_when(phases, self.raise_requests, Phase::RaiseRequests);
        push_when(phases, self.focused_window, Phase::FocusedWindow);
        push_when(phases, self.switch_native_space, Phase::SwitchNativeSpace);
        push_when(phases, self.make_key_windows, Phase::MakeKeyWindows);
        push_when(phases, self.mouse_warps, Phase::MouseWarps);
        push_when(phases, self.wm_commands, Phase::WmCommands);
        push_when(phases, self.wm_events, Phase::WmEvents);
        push_when(phases, self.close_window, Phase::CloseWindow);
        push_when(phases, self.service_config_update, Phase::ServiceConfigUpdate);
        push_when(phases, self.stdout_lines, Phase::StdoutLines);
    }

    fn push_closing(&self, phases: &mut Vec<Phase>)
        ensures
            final(phases)@ == with_closing(old(phases)@, *self),
    {
        push_when(phases, true, Phase::EndWorkspaceSwitch);
        push_when(phases, self.refresh_window_notifications, Phase::WindowNotifications);
        push_when(phases, self.refresh_focus_follows_mouse, Phase::FocusFollowsMouse);
        push_when(phases, self.refresh_layout_mode, Phase::LayoutMode);
        push_when(phases, self.window_title_broadcasts, Phase::WindowTitleBroadcasts);
        push_when(phases, self.focused_window_broadcast, Phase::FocusedWindowBroadcast);
        push_when(phases, self.app_requests, Phase::AppRequests);
        push_when(phases, self.window_inventory_requests, Phase::WindowInventoryRequests);
    }

    /// What is done once the layout was arranged, in order. `arranged` is whether
    /// there was a pass at all.
    pub fn after_arrange(&self, arranged: bool, layout_changed: bool) -> (phases: Vec<Phase>)
        ensures
            phases@ == phases_after(*self, arranged, layout_changed),
    {
        let mut phases: Vec<Phase> = Vec::new();
        assert(phases@ =~= Seq::<Phase>::empty());
        push_when(&mut phases, arranged, Phase::MenuUpdate);
        push_when(
            &mut phases,
            self.broadcast_layout_changed && layout_changed,
            Phase::BroadcastLayoutChanged,
        );
        push_when(&mut phases, self.broadcast_selection_changed, Phase::BroadcastSelectionChanged);
        push_when(
            &mut phases,
            self.post_arrange_mouse_warp && layout_changed,
            Phase::PostArrangeMouseWarp,
        );
        self.push_requests(&mut phases);
        self.push_closing(&mut phases);
        phases
    }
}

/// The layout has the last word: the frames of a transition are written right
/// before it is told of anything.
pub proof fn transition_frames_precede_the_layout(outcome: EventOutcome)
    requires
        outcome.pre_layout_window_frame_writes,
        outcome.layout_events,
    ensures
        ({
            let at = reconciled(outcome).len() as int;
            &&& phases_before(outcome)[at] == Phase::PreLayoutWindowFrameWrites
            &&& phases_before(outcome)[at + 1] == Phase::LayoutEvents
        }),
{
    reveal(if_due);
}

/// Nothing comes behind requests for new inventories: whoever sees them sees a
/// finished model.
pub proof fn inventory_requests_come_last(
    outcome: EventOutcome,
    arranged: bool,
    layout_changed: bool,
)
    requires
        outcome.window_inventory_requests,
    ensures
        phases_after(outcome, arranged, layout_changed).last() == Phase::WindowInventoryRequests,
{
    reveal(if_due);
}

/// `item` is in `front`, or is the one added.
proof fn lemma_added(front: Seq<Phase>, due: bool, added: Phase, phase: Phase)
    ensures
        (front + if_due(due, added)).contains(phase) <==> front.contains(phase) || (due && added
            == phase),
{
    reveal(if_due);
    crate::screens::lemma_concat_contains(front, if_due(due, added), phase);
    if due {
        assert(if_due(due, added)[0] == added);
    }
}

proof fn lemma_requests_add_no_announcement(
    front: Seq<Phase>,
    outcome: EventOutcome,
    phase: Phase,
)
    requires
        phase == Phase::BroadcastLayoutChanged || phase == Phase::PostArrangeMouseWarp,
        !front.contains(phase),
    ensures
        !with_requests(front, outcome).contains(phase),
{
    let a = front + if_due(outcome.raise_requests, Phase::RaiseRequests);
    lemma_added(front, outcome.raise_requests, Phase::RaiseRequests, phase);
    let b = a + if_due(outcome.focused_window, Phase::FocusedWindow);
    lemma_added(a, outcome.focused_window, Phase::FocusedWindow, phase);
    let c = b + if_due(outcome.switch_native_space, Phase::SwitchNativeSpace);
    lemma_added(b, outcome.switch_native_space, Phase::SwitchNativeSpace, phase);
    let d = c + if_due(outcome.make_key_windows, Phase::MakeKeyWindows);
    lemma_added(c, outcome.make_key_windows, Phase::MakeKeyWindows, phase);
    let e = d + if_due(outcome.mouse_warps, Phase::MouseWarps);
    lemma_added(d, outcome.mouse_warps, Phase::MouseWarps, phase);
    let f = e + if_due(outcome.wm_commands, Phase::WmCommands);
    lemma_added(e, outcome.wm_commands, Phase::WmCommands, phase);
    let g = f + if_due(outcome.wm_events, Phase::WmEvents);
    lemma_added(f, outcome.wm_events, Phase::WmEvents, phase);
    let h = g + if_due(outcome.close_window, Phase::CloseWindow);
    lemma_added(g, outcome.close_window, Phase::CloseWindow, phase);
    let i = h + if_due(outcome.service_config_update, Phase::ServiceConfigUpdate);
    lemma_added(h, outcome.service_config_update, Phase::ServiceConfigUpdate, phase);
    lemma_added(i, outcome.stdout_lines, Phase::StdoutLines, phase);
}

proof fn lemma_closing_adds_no_announcement(
    front: Seq<Phase>,
    outcome: EventOutcome,
    phase: Phase,
)
    requires
        phase == Phase::BroadcastLayoutChanged || phase == Phase::PostArrangeMouseWarp,
        !front.contains(phase),
    ensures
        !with_closing(front, outcome).contains(phase),
{
    let a = front + if_due(true, Phase::EndWorkspaceSwitch);
    lemma_added(front, true, Phase::EndWorkspaceSwitch, phase);
    let b = a + if_due(outcome.refresh_window_notifications, Phase::WindowNotifications);
    lemma_added(a, outcome.refresh_window_notifications, Phase::WindowNotifications, phase);
    let c = b + if_due(outcome.refresh_focus_follows_mouse, Phase::FocusFollowsMouse);
    lemma_added(b, outcome.refresh_focus_follows_mouse, Phase::FocusFollowsMouse, phase);
    let d = c + if_due(outcome.refresh_layout_mode, Phase::LayoutMode);
    lemma_added(c, outcome.refresh_layout_mode, Phase::LayoutMode, phase);
    let e = d + if_due(outcome.window_title_broadcasts, Phase::WindowTitleBroadcasts);
    lemma_added(d, outcome.window_title_broadcasts, Phase::WindowTitleBroadcasts, phase);
    let f = e + if_due(outcome.focused_window_broadcast, Phase::FocusedWindowBroadcast);
    lemma_added(e, outcome.focused_window_broadcast, Phase::FocusedWindowBroadcast, phase);
    let g = f + if_due(outcome.app_requests, Phase::AppRequests);
    lemma_added(f, outcome.app_requests, Phase::AppRequests, phase);
    lemma_added(g, outcome.window_inventory_requests, Phase::WindowInventoryRequests, phase);
}

/// A layout that did not change is not announced, and does not move the
/// pointer.
pub proof fn an_unchanged_layout_is_not_announced(outcome: EventOutcome, arranged: bool)
    ensures
        !phases_after(outcome, arranged, false).contains(Phase::BroadcastLayoutChanged),
        !phases_after(outcome, arranged, false).contains(Phase::PostArrangeMouseWarp),
{
    let first = announced(outcome, arranged, false);
    assert(!first.contains(Phase::BroadcastLayoutChanged) && !first.contains(
        Phase::PostArrangeMouseWarp,
    )) by {
        reveal(if_due);
    }
    let requests = with_requests(first, outcome);
    lemma_requests_add_no_announcement(first, outcome, Phase::BroadcastLayoutChanged);
    lemma_requests_add_no_announcement(first, outcome, Phase::PostArrangeMouseWarp);
    lemma_closing_adds_no_announcement(requests, outcome, Phase::BroadcastLayoutChanged);
    lemma_closing_adds_no_announcement(requests, outcome, Phase::PostArrangeMouseWarp);
}

/// What a layout that was put back asks for.
#[derive(Debug)]
pub struct Restored {
    /// Other windows are in the layout than before.
    pub membership_changed: bool,
    /// Every application is asked for its windows.
    pub refresh_window_inventories: bool,
    /// How often the layout is arranged.
    pub arrange_passes: usize,
    /// The desktops that the layout is told are on screen, in order.
    pub exposed: Vec<SpaceId>,
}

/// What a layout that was put back on `spaces` asks for.
pub open spec fn put_back(restored: Restored, refresh: bool, spaces: Seq<SpaceId>) -> bool {
    &&& restored.membership_changed
    &&& restored.refresh_window_inventories == refresh
    &&& restored.arrange_passes == 1
    &&& restored.exposed@ == spaces
}

/// Nothing was put back, and nothing is asked for.
pub open spec fn left_alone(restored: Restored) -> bool {
    &&& !restored.membership_changed
    &&& !restored.refresh_window_inventories
    &&& restored.arrange_passes == 0
    &&& restored.exposed@ == Seq::<SpaceId>::empty()
}

impl Restored {
    /// What is asked for when nothing was put back.
    pub fn nothing() -> (restored: Restored)
        ensures
            left_alone(restored),
    {
        Restored {
            membership_changed: false,
            refresh_window_inventories: false,
            arrange_passes: 0,
            exposed: Vec::new(),
        }
    }

    /// What is asked for when a layout was put back: the layout is arranged once,
    /// and told of each desktop that is on screen.
    pub fn of(refresh: bool, exposed: Vec<SpaceId>) -> (restored: Restored)
        ensures
            put_back(restored, refresh, exposed@),
    {
        Restored {
            membership_changed: true,
            refresh_window_inventories: refresh,
            arrange_passes: 1,
            exposed,
        }
    }

    /// Adds to what an event asks for: the layout is arranged at least as often,
    /// and what was asked for stays.
    pub fn join(&self, outcome: EventOutcome) -> (both: EventOutcome)
        ensures
            both == (EventOutcome {
                refresh_window_inventories: outcome.refresh_window_inventories
                    || self.refresh_window_inventories,
                layout_events: outcome.layout_events || self.exposed@.len() > 0,
                arrange: Arrange {
                    requested: outcome.arrange.requested || self.membership_changed,
                    window_was_destroyed: outcome.arrange.window_was_destroyed,
                    passes: if outcome.arrange.passes < self.arrange_passes {
                        self.arrange_passes
                    } else {
                        outcome.arrange.passes
                    },
                },
                ..outcome
            }),
    {
        let passes = if outcome.arrange.passes < self.arrange_passes {
            self.arrange_passes
        } else {
            outcome.arrange.passes
        };
        let mut both = outcome;
        both.refresh_window_inventories =
        outcome.refresh_window_inventories || self.refresh_window_inventories;
        both.layout_events = outcome.layout_events || self.exposed.len() > 0;
        both.arrange = Arrange {
            requested: outcome.arrange.requested || self.membership_changed,
            window_was_destroyed: outcome.arrange.window_was_destroyed,
            passes,
        };
        both
    }
}

/// What is done with a request of the window manager's own.
#[derive(Clone, Copy, Debug, PartialEq, Eq, Structural)]
pub enum WmRequest {
    Send,
    /// Nobody takes it, and Mission Control is taken to be over.
    LeaveMissionControl,
    Drop,
}

/// What is done with a request of the window manager's own.
pub fn wm_request(has_sender: bool, dismisses_mission_control: bool) -> (what: WmRequest)
    ensures
        what == if has_sender {
            WmRequest::Send
        } else if dismisses_mission_control {
            WmRequest::LeaveMissionControl
        } else {
            WmRequest::Drop
        },
{
    if has_sender {
        WmRequest::Send
    } else if dismisses_mission_control {
        WmRequest::LeaveMissionControl
    } else {
        WmRequest::Drop
    }
}

/// The window that a request to close means: the one it names, if that is
/// known, else the main one when it names none.
pub fn close_target(
    named: Option<WindowServerId>,
    named_window: Option<WindowId>,
    main_window: Option<WindowId>,
) -> (window: Option<WindowId>)
    ensures
        window == if named is Some {
            named_window
        } else {
            main_window
        },
{
    match named {
        Some(_) => named_window,
        None => main_window,
    }
}

/// The place of each step in the order in which what an event asks for is applied.
pub open spec fn place_of_phase(phase: Phase) -> int {
    match phase {
        Phase::WindowServerUpdates => 0,
        Phase::RecomputeActiveSpaces => 1,
        Phase::RepairSpacesAfterMissionControl => 2,
        Phase::RefreshAfterMissionControl => 3,
        Phase::RefreshWindowInventories => 4,
        Phase::Discoveries => 5,
        Phase::ReapplyAppRules => 6,
        Phase::FinalizeCreatedWindows => 7,
        Phase::ConfirmedWindowSpaces => 8,
        Phase::FullscreenRestorations => 9,
        Phase::TopologyReassignments => 10,
        Phase::PreLayoutWindowFrameWrites => 11,
        Phase::LayoutEvents => 12,
        Phase::LayoutResponses => 13,
        Phase::DragSwapEvaluations => 14,
        Phase::DispatchMouseUp => 15,
        Phase::MenuUpdate => 16,
        Phase::BroadcastLayoutChanged => 17,
        Phase::BroadcastSelectionChanged => 18,
        Phase::PostArrangeMouseWarp => 19,
        Phase::RaiseRequests => 20,
        Phase::FocusedWindow => 21,
        Phase::SwitchNativeSpace => 22,
        Phase::MakeKeyWindows => 23,
        Phase::MouseWarps => 24,
        Phase::WmCommands => 25,
        Phase::WmEvents => 26,
        Phase::CloseWindow => 27,
        Phase::ServiceConfigUpdate => 28,
        Phase::StdoutLines => 29,
        Phase::EndWorkspaceSwitch => 30,
        Phase::WindowNotifications => 31,
        Phase::FocusFollowsMouse => 32,
        Phase::LayoutMode => 33,
        Phase::WindowTitleBroadcasts => 34,
        Phase::FocusedWindowBroadcast => 35,
        Phase::AppRequests => 36,
        Phase::WindowInventoryRequests => 37,
    }
}

/// The places of the steps.
pub open spec fn phase_places() -> spec_fn(Phase) -> int {
    |phase: Phase| place_of_phase(phase)
}

proof fn lemma_reconciled(outcome: EventOutcome, phase: Phase)
    ensures
        crate::lists::rising(reconciled(outcome), phase_places(), 10),
        reconciled(outcome).contains(phase) <==> match phase {
            Phase::WindowServerUpdates => outcome.window_server_updates,
            Phase::RecomputeActiveSpaces => outcome.recompute_active_spaces,
            Phase::RepairSpacesAfterMissionControl => outcome.repair_spaces_after_mission_control,
            Phase::RefreshAfterMissionControl => outcome.refresh_after_mission_control,
            Phase::RefreshWindowInventories => outcome.refresh_window_inventories,
            Phase::Discoveries => outcome.discoveries,
            Phase::ReapplyAppRules => outcome.reapply_app_rules,
            Phase::FinalizeCreatedWindows => outcome.finalize_created_windows,
            Phase::ConfirmedWindowSpaces => outcome.confirmed_window_spaces,
            Phase::FullscreenRestorations => outcome.fullscreen_restorations,
            Phase::TopologyReassignments => outcome.topology_reassignments,
            _ => false,
        },
{
    let rank = phase_places();
    let none = Seq::<Phase>::empty();
    crate::lists::lemma_nothing_rises(rank, phase);
    let s0 = none + if_due(outcome.window_server_updates, Phase::WindowServerUpdates);
    crate::lists::lemma_rising(none, outcome.window_server_updates, Phase::WindowServerUpdates, rank, -1, phase);
    let s1 = s0 + if_due(outcome.recompute_active_spaces, Phase::RecomputeActiveSpaces);
    crate::lists::lemma_rising(s0, outcome.recompute_active_spaces, Phase::RecomputeActiveSpaces, rank, 0, phase);
    let s2 = s1 + if_due(outcome.repair_spaces_after_mission_control, Phase::RepairSpacesAfterMissionControl);
    crate::lists::lemma_rising(s1, outcome.repair_spaces_after_mission_control, Phase::RepairSpacesAfterMissionControl, rank, 1, phase);
    let s3 = s2 + if_due(outcome.refresh_after_mission_control, Phase::RefreshAfterMissionControl);
    crate::lists::lemma_rising(s2, outcome.refresh_after_mission_control, Phase::RefreshAfterMissionControl, rank, 2, phase);
    let s4 = s3 + if_due(outcome.refresh_window_inventories, Phase::RefreshWindowInventories);
    crate::lists::lemma_rising(s3, outcome.refresh_window_inventories, Phase::RefreshWindowInventories, rank, 3, phase);
    let s5 = s4 + if_due(outcome.discoveries, Phase::Discoveries);
    crate::lists::lemma_rising(s4, outcome.discoveries, Phase::Discoveries, rank, 4, phase);
    let s6 = s5 + if_due(outcome.reapply_app_rules, Phase::ReapplyAppRules);
    crate::lists::lemma_rising(s5, outcome.reapply_app_rules, Phase::ReapplyAppRules, rank, 5, phase);
    let s7 = s6 + if_due(outcome.finalize_created_windows, Phase::FinalizeCreatedWindows);
    crate::lists::lemma_rising(s6, outcome.finalize_created_windows, Phase::FinalizeCreatedWindows, rank, 6, phase);
    let s8 = s7 + if_due(outcome.confirmed_window_spaces, Phase::ConfirmedWindowSpaces);
    crate::lists::lemma_rising(s7, outcome.confirmed_window_spaces, Phase::ConfirmedWindowSpaces, rank, 7, phase);
    let s9 = s8 + if_due(outcome.fullscreen_restorations, Phase::FullscreenRestorations);
    crate::lists::lemma_rising(s8, outcome.fullscreen_restorations, Phase::FullscreenRestorations, rank, 8, phase);
    let s10 = s9 + if_due(outcome.topology_reassignments, Phase::TopologyReassignments);
    crate::lists::lemma_rising(s9, outcome.topology_reassignments, Phase::TopologyReassignments, rank, 9, phase);
}

proof fn lemma_with_layout(front: Seq<Phase>, outcome: EventOutcome, phase: Phase)
    requires
        crate::lists::rising(front, phase_places(), 10),
    ensures
        crate::lists::rising(with_layout(front, outcome), phase_places(), 15),
        with_layout(front, outcome).contains(phase) <==> front.contains(phase) || match phase {
            Phase::PreLayoutWindowFrameWrites => outcome.pre_layout_window_frame_writes,
            Phase::LayoutEvents => outcome.layout_events,
            Phase::LayoutResponses => outcome.layout_responses,
            Phase::DragSwapEvaluations => outcome.drag_swap_evaluations,
            Phase::DispatchMouseUp => outcome.dispatch_mouse_up,
            _ => false,
        },
{
    let rank = phase_places();
    let s0 = front + if_due(outcome.pre_layout_window_frame_writes, Phase::PreLayoutWindowFrameWrites);
    crate::lists::lemma_rising(front, outcome.pre_layout_window_frame_writes, Phase::PreLayoutWindowFrameWrites, rank, 10, phase);
    let s1 = s0 + if_due(outcome.layout_events, Phase::LayoutEvents);
    crate::lists::lemma_rising(s0, outcome.layout_events, Phase::LayoutEvents, rank, 11, phase);
    let s2 = s1 + if_due(outcome.layout_responses, Phase::LayoutResponses);
    crate::lists::lemma_rising(s1, outcome.layout_responses, Phase::LayoutResponses, rank, 12, phase);
    let s3 = s2 + if_due(outcome.drag_swap_evaluations, Phase::DragSwapEvaluations);
    crate::lists::lemma_rising(s2, outcome.drag_swap_evaluations, Phase::DragSwapEvaluations, rank, 13, phase);
    let s4 = s3 + if_due(outcome.dispatch_mouse_up, Phase::DispatchMouseUp);
    crate::lists::lemma_rising(s3, outcome.dispatch_mouse_up, Phase::DispatchMouseUp, rank, 14, phase);
}

proof fn lemma_announced(outcome: EventOutcome, arranged: bool, layout_changed: bool, phase: Phase)
    ensures
        crate::lists::rising(announced(outcome, arranged, layout_changed), phase_places(), 19),
        announced(outcome, arranged, layout_changed).contains(phase) <==> match phase {
            Phase::MenuUpdate => arranged,
            Phase::BroadcastLayoutChanged => outcome.broadcast_layout_changed && layout_changed,
            Phase::BroadcastSelectionChanged => outcome.broadcast_selection_changed,
            Phase::PostArrangeMouseWarp => outcome.post_arrange_mouse_warp && layout_changed,
            _ => false,
        },
{
    let rank = phase_places();
    let none = Seq::<Phase>::empty();
    crate::lists::lemma_nothing_rises(rank, phase);
    let s0 = none + if_due(arranged, Phase::MenuUpdate);
    crate::lists::lemma_rising(none, arranged, Phase::MenuUpdate, rank, -1, phase);
    let s1 = s0 + if_due(outcome.broadcast_layout_changed && layout_changed, Phase::BroadcastLayoutChanged);
    crate::lists::lemma_rising(s0, outcome.broadcast_layout_changed && layout_changed, Phase::BroadcastLayoutChanged, rank, 16, phase);
    let s2 = s1 + if_due(outcome.broadcast_selection_changed, Phase::BroadcastSelectionChanged);
    crate::lists::lemma_rising(s1, outcome.broadcast_selection_changed, Phase::BroadcastSelectionChanged, rank, 17, phase);
    let s3 = s2 + if_due(outcome.post_arrange_mouse_warp && layout_changed, Phase::PostArrangeMouseWarp);
    crate::lists::lemma_rising(s2, outcome.post_arrange_mouse_warp && layout_changed, Phase::PostArrangeMouseWarp, rank, 18, phase);
}

proof fn lemma_with_requests(front: Seq<Phase>, outcome: EventOutcome, phase: Phase)
    requires
        crate::lists::rising(front, phase_places(), 19),
    ensures
        crate::lists::rising(with_requests(front, outcome), phase_places(), 29),
        with_requests(front, outcome).contains(phase) <==> front.contains(phase) || match phase {
            Phase::RaiseRequests => outcome.raise_requests,
            Phase::FocusedWindow => outcome.focused_window,
            Phase::SwitchNativeSpace => outcome.switch_native_space,
            Phase::MakeKeyWindows => outcome.make_key_windows,
            Phase::MouseWarps => outcome.mouse_warps,
            Phase::WmCommands => outcome.wm_commands,
            Phase::WmEvents => outcome.wm_events,
            Phase::CloseWindow => outcome.close_window,
            Phase::ServiceConfigUpdate => outcome.service_config_update,
            Phase::StdoutLines => outcome.stdout_lines,
            _ => false,
        },
{
    let rank = phase_places();
    let s0 = front + if_due(outcome.raise_requests, Phase::RaiseRequests);
    crate::lists::lemma_rising(front, outcome.raise_requests, Phase::RaiseRequests, rank, 19, phase);
    let s1 = s0 + if_due(outcome.focused_window, Phase::FocusedWindow);
    crate::lists::lemma_rising(s0, outcome.focused_window, Phase::FocusedWindow, rank, 20, phase);
    let s2 = s1 + if_due(outcome.switch_native_space, Phase::SwitchNativeSpace);
    crate::lists::lemma_rising(s1, outcome.switch_native_space, Phase::SwitchNativeSpace, rank, 21, phase);
    let s3 = s2 + if_due(outcome.make_key_windows, Phase::MakeKeyWindows);
    crate::lists::lemma_rising(s2, outcome.make_key_windows, Phase::MakeKeyWindows, rank, 22, phase);
    let s4 = s3 + if_due(outcome.mouse_warps, Phase::MouseWarps);
    crate::lists::lemma_rising(s3, outcome.mouse_warps, Phase::MouseWarps, rank, 23, phase);
    let s5 = s4 + if_due(outcome.wm_commands, Phase::WmCommands);
    crate::lists::lemma_rising(s4, outcome.wm_commands, Phase::WmCommands, rank, 24, phase);
    let s6 = s5 + if_due(outcome.wm_events, Phase::WmEvents);
    crate::lists::lemma_rising(s5, outcome.wm_events, Phase::WmEvents, rank, 25, phase);
    let s7 = s6 + if_due(outcome.close_window, Phase::CloseWindow);
    crate::lists::lemma_rising(s6, outcome.close_window, Phase::CloseWindow, rank, 26, phase);
    let s8 = s7 + if_due(outcome.service_config_update, Phase::ServiceConfigUpdate);
    crate::lists::lemma_rising(s7, outcome.service_config_update, Phase::ServiceConfigUpdate, rank, 27, phase);
    let s9 = s8 + if_due(outcome.stdout_lines, Phase::StdoutLines);
    crate::lists::lemma_rising(s8, outcome.stdout_lines, Phase::StdoutLines, rank, 28, phase);
}

proof fn lemma_with_closing(front: Seq<Phase>, outcome: EventOutcome, phase: Phase)
    requires
        crate::lists::rising(front, phase_places(), 29),
    ensures
        crate::lists::rising(with_closing(front, outcome), phase_places(), 37),
        with_closing(front, outcome).contains(phase) <==> front.contains(phase) || match phase {
            Phase::EndWorkspaceSwitch => true,
            Phase::WindowNotifications => outcome.refresh_window_notifications,
            Phase::FocusFollowsMouse => outcome.refresh_focus_follows_mouse,
            Phase::LayoutMode => outcome.refresh_layout_mode,
            Phase::WindowTitleBroadcasts => outcome.window_title_broadcasts,
            Phase::FocusedWindowBroadcast => outcome.focused_window_broadcast,
            Phase::AppRequests => outcome.app_requests,
            Phase::WindowInventoryRequests => outcome.window_inventory_requests,
            _ => false,
        },
{
    let rank = phase_places();
    let s0 = front + if_due(true, Phase::EndWorkspaceSwitch);
    crate::lists::lemma_rising(front, true, Phase::EndWorkspaceSwitch, rank, 29, phase);
    let s1 = s0 + if_due(outcome.refresh_window_notifications, Phase::WindowNotifications);
    crate::lists::lemma_rising(s0, outcome.refresh_window_notifications, Phase::WindowNotifications, rank, 30, phase);
    let s2 = s1 + if_due(outcome.refresh_focus_follows_mouse, Phase::FocusFollowsMouse);
    crate::lists::lemma_rising(s1, outcome.refresh_focus_follows_mouse, Phase::FocusFollowsMouse, rank, 31, phase);
    let s3 = s2 + if_due(outcome.refresh_layout_mode, Phase::LayoutMode);
    crate::lists::lemma_rising(s2, outcome.refresh_layout_mode, Phase::LayoutMode, rank, 32, phase);
    let s4 = s3 + if_due(outcome.window_title_broadcasts, Phase::WindowTitleBroadcasts);
    crate::lists::lemma_rising(s3, outcome.window_title_broadcasts, Phase::WindowTitleBroadcasts, rank, 33, phase);
    let s5 = s4 + if_due(outcome.focused_window_broadcast, Phase::FocusedWindowBroadcast);
    crate::lists::lemma_rising(s4, outcome.focused_window_broadcast, Phase::FocusedWindowBroadcast, rank, 34, phase);
    let s6 = s5 + if_due(outcome.app_requests, Phase::AppRequests);
    crate::lists::lemma_rising(s5, outcome.app_requests, Phase::AppRequests, rank, 35, phase);
    let s7 = s6 + if_due(outcome.window_inventory_requests, Phase::WindowInventoryRequests);
    crate::lists::lemma_rising(s6, outcome.window_inventory_requests, Phase::WindowInventoryRequests, rank, 36, phase);
}

/// What is done before the layout is arranged comes in its order, each if it was asked
/// for: the model is brought up to date before frames are written, and those before the
/// layout is told.
pub proof fn what_is_done_before_the_layout(outcome: EventOutcome, phase: Phase, i: int, j: int)
    ensures
        phases_before(outcome).contains(phase) <==> match phase {
            Phase::WindowServerUpdates => outcome.window_server_updates,
            Phase::RecomputeActiveSpaces => outcome.recompute_active_spaces,
            Phase::RepairSpacesAfterMissionControl => outcome.repair_spaces_after_mission_control,
            Phase::RefreshAfterMissionControl => outcome.refresh_after_mission_control,
            Phase::RefreshWindowInventories => outcome.refresh_window_inventories,
            Phase::Discoveries => outcome.discoveries,
            Phase::ReapplyAppRules => outcome.reapply_app_rules,
            Phase::FinalizeCreatedWindows => outcome.finalize_created_windows,
            Phase::ConfirmedWindowSpaces => outcome.confirmed_window_spaces,
            Phase::FullscreenRestorations => outcome.fullscreen_restorations,
            Phase::TopologyReassignments => outcome.topology_reassignments,
            Phase::PreLayoutWindowFrameWrites => outcome.pre_layout_window_frame_writes,
            Phase::LayoutEvents => outcome.layout_events,
            Phase::LayoutResponses => outcome.layout_responses,
            Phase::DragSwapEvaluations => outcome.drag_swap_evaluations,
            Phase::DispatchMouseUp => outcome.dispatch_mouse_up,
            _ => false,
        },
        0 <= i < j < phases_before(outcome).len() ==> place_of_phase(phases_before(outcome)[i])
            < place_of_phase(phases_before(outcome)[j]),
{
    let phases = phases_before(outcome);
    lemma_reconciled(outcome, phase);
    lemma_with_layout(reconciled(outcome), outcome, phase);
    if 0 <= i < j < phases.len() {
        crate::lists::lemma_rises(phases, phase_places(), 15, i, j);
    }
}

proof fn lemma_after(outcome: EventOutcome, told: Seq<Phase>, phase: Phase) -> (phases: Seq<Phase>)
    requires
        crate::lists::rising(told, phase_places(), 19),
    ensures
        phases == with_closing(with_requests(told, outcome), outcome),
        crate::lists::rising(phases, phase_places(), 37),
{
    lemma_with_requests(told, outcome, phase);
    lemma_with_closing(with_requests(told, outcome), outcome, phase);
    with_closing(with_requests(told, outcome), outcome)
}

/// What is done once the layout was arranged comes in its order: the menu follows a pass,
/// the layout is announced before focus, focus comes before what is asked of others, and
/// new inventories come last.
pub proof fn what_is_done_after_the_layout_is_in_order(
    outcome: EventOutcome,
    arranged: bool,
    layout_changed: bool,
    i: int,
    j: int,
)
    requires
        0 <= i < j < phases_after(outcome, arranged, layout_changed).len(),
    ensures
        place_of_phase(phases_after(outcome, arranged, layout_changed)[i]) < place_of_phase(
            phases_after(outcome, arranged, layout_changed)[j],
        ),
{
    let told = announced(outcome, arranged, layout_changed);
    lemma_announced(outcome, arranged, layout_changed, Phase::MenuUpdate);
    let phases = lemma_after(outcome, told, Phase::MenuUpdate);
    crate::lists::lemma_rises(phases, phase_places(), 37, i, j);
}

/// What is done once the layout was arranged is what was asked for: the menu follows a
/// pass, the layout is announced and the pointer brought along only where it changed, and
/// a workspace switch ends whatever was asked for.
#[verifier::rlimit(100)]
pub proof fn what_is_done_after_the_layout(
    outcome: EventOutcome,
    arranged: bool,
    layout_changed: bool,
    phase: Phase,
)
    ensures
        phases_after(outcome, arranged, layout_changed).contains(phase) <==> match phase {
            Phase::MenuUpdate => arranged,
            Phase::BroadcastLayoutChanged => outcome.broadcast_layout_changed && layout_changed,
            Phase::BroadcastSelectionChanged => outcome.broadcast_selection_changed,
            Phase::PostArrangeMouseWarp => outcome.post_arrange_mouse_warp && layout_changed,
            Phase::RaiseRequests => outcome.raise_requests,
            Phase::FocusedWindow => outcome.focused_window,
            Phase::SwitchNativeSpace => outcome.switch_native_space,
            Phase::MakeKeyWindows => outcome.make_key_windows,
            Phase::MouseWarps => outcome.mouse_warps,
            Phase::WmCommands => outcome.wm_commands,
            Phase::WmEvents => outcome.wm_events,
            Phase::CloseWindow => outcome.close_window,
            Phase::ServiceConfigUpdate => outcome.service_config_update,
            Phase::StdoutLines => outcome.stdout_lines,
            Phase::EndWorkspaceSwitch => true,
            Phase::WindowNotifications => outcome.refresh_window_notifications,
            Phase::FocusFollowsMouse => outcome.refresh_focus_follows_mouse,
            Phase::LayoutMode => outcome.refresh_layout_mode,
            Phase::WindowTitleBroadcasts => outcome.window_title_broadcasts,
            Phase::FocusedWindowBroadcast => outcome.focused_window_broadcast,
            Phase::AppRequests => outcome.app_requests,
            Phase::WindowInventoryRequests => outcome.window_inventory_requests,
            _ => false,
        },
{
    let told = announced(outcome, arranged, layout_changed);
    lemma_announced(outcome, arranged, layout_changed, phase);
    lemma_with_requests(told, outcome, phase);
    lemma_with_closing(with_requests(told, outcome), outcome, phase);
}

/// The layout is arranged as often as was asked for, at least once where it was, and not
/// in a drag unless a window is gone.
pub proof fn how_often_the_layout_is_arranged(arrange: Arrange, dragging: bool)
    ensures
        !arrange.requested ==> passes_of(arrange, dragging) == 0,
        dragging && !arrange.window_was_destroyed ==> passes_of(arrange, dragging) == 0,
        arrange.requested && (!dragging || arrange.window_was_destroyed) && arrange.passes > 0
            ==> passes_of(arrange, dragging) == arrange.passes,
        arrange.requested && (!dragging || arrange.window_was_destroyed) && arrange.passes == 0
            ==> passes_of(arrange, dragging) == 1,
{
}

/// A layout that was put back asks for one pass over its desktops and says that membership
/// changed; one that was left alone asks for nothing.
pub proof fn what_putting_back_asks_for(restored: Restored, refresh: bool, spaces: Seq<SpaceId>)
    ensures
        put_back(restored, refresh, spaces) ==> restored.membership_changed
            && restored.refresh_window_inventories == refresh && restored.arrange_passes == 1
            && restored.exposed@ == spaces,
        left_alone(restored) ==> !restored.membership_changed
            && !restored.refresh_window_inventories && restored.arrange_passes == 0
            && restored.exposed@.len() == 0,
        !(put_back(restored, refresh, spaces) && left_alone(restored)),
{
}

} // verus!
