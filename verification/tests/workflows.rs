use rift::commands::{
    Command, DisplaySelector, LayoutCommand, MetricsCommand, ReactorCommand, Vocabulary,
};
use rift::displays::{
    DisplayFocus, DisplayMove, MoveFacts, MoveRefused, WorkspaceMove, WorkspaceMoveFacts,
    WorkspaceMoveRefused,
};
use rift::drag::{
    CandidateWindow, DragManager, DropAim, DropFacts, DropLook, ModifierDrag, MouseAction,
    MouseUpFacts, ResizeEdges,
};
use rift::events::{MouseState, SpaceEventKind};
use rift::ids::{SpaceId, WindowId, WindowServerId};
use rift::layout::{Direction, LayoutMode};
use rift::lists::IdSet;
use rift::reactor::Reactor;
use rift::reports::{FrameSpaces, LayoutEvent};
use rift::workflows::{
    appearance_to_note, begin_frame_report, looked_at_again, modifier_moved, plan_command,
    pointer_dragged, pointer_over, release_button, reported_active_space, trace_preamble,
    CommandFacts, CommandPlan, FrameDisposition, FrameOutcome, FrameStep, GeometryFacts,
    HoverFacts, LayoutFacts, MissionControl, ModifierMoved, Preamble, ReleaseFacts, ReleaseStep,
    SeamDrop,
};

const MS: u64 = 1_000_000;

struct Words;

impl Vocabulary for Words {
    type Number = f64;
    type Value = String;
    type ResizeOrientation = u8;
    type RotateDegrees = u16;
    type MirrorAxis = u8;
    type WorkspaceSelector = usize;
    type RestoreScope = u8;
    type RestoreSource = u8;
}

type Drag = DragManager<&'static str, (i32, i32)>;
type Ask = ReactorCommand<Words>;

fn window(idx: u32) -> WindowId {
    WindowId::new(7, idx)
}

fn space(n: u64) -> SpaceId {
    SpaceId::new(n)
}

fn active(numbers: &[u64]) -> IdSet<SpaceId> {
    let mut set = IdSet::new();
    for n in numbers {
        set.insert(space(*n));
    }
    set
}

fn dragging() -> Drag {
    let mut drag = Drag::new();
    drag.ensure_active_drag(window(1), "frame", Some(space(1)));
    drag
}

#[test]
fn a_frame_report_with_the_button_down_holds_the_window() {
    let mut drag = Drag::new();
    let down = Some(MouseState::Down);
    let report = begin_frame_report(window(1), down, true, true, None, &mut drag);
    assert_eq!(report.mouse, Some(MouseState::Up));
    assert_eq!(drag.held_window, None);
    begin_frame_report(window(1), down, false, false, None, &mut drag);
    assert_eq!(drag.held_window, None);
    let report = begin_frame_report(window(1), down, true, false, Some(window(9)), &mut drag);
    assert_eq!((report.mouse, report.raised), (down, Some(window(9))));
    assert_eq!(drag.held_window, Some(window(1)));
}

#[test]
fn a_refused_size_is_a_minimum_if_its_display_has_room() {
    let mut drag = Drag::new();
    let mut report = begin_frame_report(window(1), None, true, false, Some(window(9)), &mut drag);
    let refused = FrameDisposition::RefusedSize;
    assert_eq!(report.classified(refused, None, false), FrameStep::Finish);
    assert_eq!(report.classified(FrameDisposition::Handled, None, true), FrameStep::Finish);
    assert_eq!(report.classified(FrameDisposition::Geometry, None, true), FrameStep::Analyse);
    assert_eq!(report.classified(refused, None, true), FrameStep::NoteMinimum);
    assert_eq!(
        report.finish_gated(true, &drag),
        FrameOutcome { arrange_passes: 1, dispatch_mouse_up: false, focused: Some(window(9)) }
    );
    assert_eq!(report.finish_gated(false, &drag).arrange_passes, 0);
}

#[test]
fn a_frame_report_with_the_button_up_ends_a_drag() {
    let mut drag = dragging();
    let up = Some(MouseState::Up);
    let mut report = begin_frame_report(window(1), up, true, false, None, &mut drag);
    assert!(report.finish_gated(false, &drag).dispatch_mouse_up);
    assert!(report.finish_analysed(2, false, &drag).dispatch_mouse_up);
    assert_eq!(report.finish_analysed(2, false, &drag).arrange_passes, 2);
    assert!(!report.finish_gated(false, &Drag::new()).dispatch_mouse_up);
    assert!(report.finish_analysed(0, true, &Drag::new()).dispatch_mouse_up);
    report.classified(FrameDisposition::Geometry, Some(MouseState::Down), true);
    assert!(!report.finish_gated(false, &drag).dispatch_mouse_up);
}

#[test]
fn a_moved_window_is_handed_on_with_its_desktops() {
    let mut drag = Drag::new();
    let report = begin_frame_report(window(1), None, true, false, None, &mut drag);
    let spaces = FrameSpaces {
        old_space: Some(space(1)),
        new_space: Some(space(2)),
        old_active: true,
        new_active: false,
    };
    let facts = GeometryFacts {
        best: Some(space(2)),
        has_sys_id: true,
        command_space: Some(space(3)),
        pending_target: Some(space(4)),
        assigned: Some(space(1)),
        mode: LayoutMode::Scrolling,
        has_workspace: true,
        floating: false,
    };
    let change = report.analysed(spaces, facts, &active(&[1]));
    assert_eq!(change.active_resize_space, None);
    assert_eq!(change.pending_target, Some(space(4)));
    assert_eq!(change.assigned, Some(space(1)));
    assert!(change.keep_assigned);
    assert_eq!(report.analysed(spaces, facts, &active(&[2])).active_resize_space, Some(space(2)));
    let unnumbered = GeometryFacts { has_sys_id: false, floating: true, ..facts };
    let change = report.analysed(spaces, unnumbered, &active(&[1]));
    assert_eq!((change.active_resize_space, change.pending_target), (Some(space(3)), None));
    assert!(!change.keep_assigned);
}

fn up_facts() -> MouseUpFacts {
    MouseUpFacts {
        target_space: Some(space(2)),
        dragged_sys_id: Some(WindowServerId::new(5)),
        dragged_space: Some(space(1)),
        origin_frame_space: None,
        first_space: Some(space(1)),
        pointer_space: Some(space(3)),
        last_frame_space: None,
        session_space: None,
        pointed_action: None,
    }
}

fn no_seam() -> SeamDrop<&'static str, (i32, i32)> {
    SeamDrop { floating: false, frame: None, straddles: false, pointer: None }
}

#[test]
fn a_release_makes_the_drop() {
    let mut reactor = Reactor::new();
    reactor.quarantine.pending_inventory_refresh = true;
    let mut drag = dragging();
    let target = CandidateWindow {
        window: window(2),
        admitted: true,
        floating: false,
        tiled_here: true,
        shares_stack: false,
        under_pointer: true,
        near_pointer: true,
    };
    drag.evaluate_drop_target(
        window(1),
        "moved",
        DropFacts {
            known: true,
            pointer_space: Some(space(2)),
            frame_space: None,
            origin_frame_space: None,
        },
        DropLook { in_active_workspace: true, dragged_tiled: true, pointer: true, overlapped: None },
        &[target],
        DropAim { enabled: false, raw: None, landing: None },
        0,
    );
    drag.drop_overlay_shown = true;
    drag.held_window = Some(window(4));
    let facts = ReleaseFacts {
        up: up_facts(),
        under_pointer: Some(window(2)),
        under_pointer_space: Some(space(2)),
    };
    let steps = release_button(&mut reactor, &mut drag, &mut None, no_seam(), facts, 9 * MS);
    assert_eq!(steps[0], ReleaseStep::HideOverlay);
    let ReleaseStep::Drop(plan) = steps[1] else { panic!() };
    assert_eq!(plan.pending_swap, Some((window(1), window(2))));
    assert_eq!(plan.final_space, Some(space(2)));
    assert_eq!(
        steps[2..],
        [
            ReleaseStep::Settle(window(4)),
            ReleaseStep::Tell(LayoutEvent::WindowFocused(space(2), window(2))),
            ReleaseStep::RefreshInventories,
        ]
    );
    assert_eq!(reactor.last_mouse_up, Some(9 * MS));
    assert!(!reactor.quarantine.pending_inventory_refresh);
    assert_eq!(drag.drop_pin.unwrap().space, space(2));
    assert_eq!(drag.held_window, None);
}

#[test]
fn a_straddling_float_is_watched_once_it_is_let_go() {
    let moved = ModifierDrag {
        window: window(1),
        action: MouseAction::Move,
        origin_frame: "origin",
        edges: ResizeEdges { left: false, top: false },
    };
    let seam = SeamDrop {
        floating: true,
        frame: Some("dropped"),
        straddles: true,
        pointer: Some((1, 2)),
    };
    let facts = ReleaseFacts { up: up_facts(), under_pointer: None, under_pointer_space: None };
    let watched = |drag: Option<ModifierDrag<&'static str>>, seam| {
        let (mut manager, mut modifier) = (Drag::new(), drag);
        let steps =
            release_button(&mut Reactor::new(), &mut manager, &mut modifier, seam, facts, 5);
        assert!(modifier.is_none());
        assert!(matches!(steps[..], [ReleaseStep::Drop(_)]));
        manager.seam_finish.map(|finish| (finish.window, finish.dropped_at, finish.at))
    };
    assert_eq!(watched(Some(moved), seam), Some((window(1), "dropped", 5)));
    assert_eq!(watched(None, seam), None);
    assert_eq!(watched(Some(moved), SeamDrop { straddles: false, ..seam }), None);
    assert_eq!(watched(Some(moved), SeamDrop { floating: false, ..seam }), None);
    assert_eq!(watched(Some(moved), SeamDrop { frame: None, ..seam }), None);
    let resized = ModifierDrag { action: MouseAction::Resize, ..moved };
    assert_eq!(watched(Some(resized), seam), None);
}

#[test]
fn the_pointer_is_followed() {
    let facts = HoverFacts {
        window: Some(window(1)),
        raises: true,
        main_window: Some(window(2)),
        layout_focus: Some(window(2)),
        best: Some(space(1)),
        has_sys_id: true,
        command_space: Some(space(3)),
    };
    let (over, at) = pointer_over(facts, &active(&[1]));
    assert!(over.should_sync && !over.is_main && over.needs_layout_sync);
    assert_eq!(at, Some(space(1)));
    let (over, at) = pointer_over(HoverFacts { window: None, ..facts }, &active(&[1]));
    assert!(!over.should_sync && !over.needs_layout_sync);
    assert_eq!(at, None);
    assert_eq!(reported_active_space(true, Some(space(1)), false, Some(space(3)), &active(&[])), Some(space(3)));
    assert_eq!(reported_active_space(false, Some(space(1)), true, None, &active(&[1])), None);

    let mut drag = dragging();
    let plan = pointer_dragged(&mut drag, true, 200 * MS);
    assert!(plan.sync_float);
    assert_eq!(plan.evaluate, Some((window(1), "frame")));
    assert!(!pointer_dragged(&mut drag, true, 250 * MS).sync_float);
    assert!(pointer_dragged(&mut Drag::new(), true, 0).evaluate.is_none());
}

#[test]
fn a_modifier_moves_floats_and_resizes_tiles() {
    let resize = Some(ModifierDrag {
        window: window(1),
        action: MouseAction::Resize,
        origin_frame: "origin",
        edges: ResizeEdges { left: true, top: false },
    });
    assert_eq!(modifier_moved(&resize, true, true), ModifierMoved::Write(window(1)));
    assert_eq!(
        modifier_moved(&resize, true, false),
        ModifierMoved::Tell(LayoutEvent::WindowResized(window(1)))
    );
    assert_eq!(modifier_moved(&resize, false, false), ModifierMoved::Nothing);
    assert_eq!(modifier_moved::<&str>(&None, true, true), ModifierMoved::Nothing);
    assert_eq!(appearance_to_note(SpaceEventKind::User, Some(window(1))), Some(window(1)));
    assert_eq!(appearance_to_note(SpaceEventKind::Fullscreen, Some(window(1))), None);
}

#[test]
fn turned_away_windows_are_looked_at_again() {
    let other = WindowId::new(8, 3);
    let windows = [(window(1), true), (window(2), false), (other, false)];
    assert_eq!(looked_at_again(Some(window(1)), Some(7), &windows), vec![window(1)]);
    assert_eq!(looked_at_again(None, Some(7), &windows), vec![window(2)]);
    assert!(looked_at_again(None, None, &windows).is_empty());
}

fn facts() -> CommandFacts {
    CommandFacts {
        active_space: Some(space(1)),
        layout: LayoutFacts {
            main_window: Some(window(1)),
            front: Some(window(2)),
            front_admitted: true,
            front_app: Some(7),
            readmitted: false,
            layout_focus: Some(window(3)),
            front_space: Some(space(1)),
            front_space_active: true,
            follows: true,
            space: Some(space(4)),
        },
        focus_space: Some(space(5)),
        focus_space_active: true,
        display_found: true,
        display: DisplayFocus { window: Some(window(6)), target_is_active: true },
        moving: MoveFacts {
            dragging: false,
            window: Some(window(1)),
            known: true,
            assigned: Some(space(1)),
            best: None,
            of_frame: None,
            source_active: true,
            found: true,
            target: Some(space(2)),
            target_active: true,
        },
        moving_workspace: WorkspaceMoveFacts {
            source: Some(space(1)),
            source_active: true,
            ordinal: Some(1),
            found: true,
            target: Some(space(2)),
            target_active: true,
            target_workspaces: 4,
        },
    }
}

#[test]
fn only_managed_windows_are_commanded() {
    let plan = |command: LayoutCommand<Words>, layout: LayoutFacts| {
        plan_command(&Command::Layout(command), &CommandFacts { layout, ..facts() })
    };
    let node = || LayoutCommand::MoveNode(Direction::Left);
    let layout = facts().layout;
    let carried = |align| CommandPlan::Layout { align, space: Some(space(4)), warp: Some(window(1)) };
    assert_eq!(plan(node(), layout), carried(Some((space(1), window(2)))));
    assert_eq!(plan(LayoutCommand::NextWindow, layout), carried(None));
    let there = LayoutFacts { layout_focus: Some(window(2)), ..layout };
    assert_eq!(plan(node(), there), carried(None));
    let unmanaged = LayoutFacts { front_admitted: false, ..layout };
    assert_eq!(plan(node(), unmanaged), CommandPlan::Ignore);
    assert_eq!(plan(LayoutCommand::NextWindow, unmanaged), carried(None));
    assert_eq!(plan(node(), LayoutFacts { readmitted: true, ..layout }), CommandPlan::Ignore);
    let nothing = LayoutFacts { main_window: None, front: None, ..layout };
    assert_eq!(
        plan(node(), nothing),
        CommandPlan::Layout { align: None, space: Some(space(4)), warp: None }
    );
    let other_app = LayoutFacts { front_app: Some(8), ..nothing };
    assert_eq!(plan(node(), other_app), CommandPlan::Ignore);
    let stays = LayoutFacts { follows: false, ..there };
    assert_eq!(
        plan(node(), stays),
        CommandPlan::Layout { align: None, space: Some(space(4)), warp: None }
    );
}

#[test]
fn commands_find_their_way() {
    let plan = |command: Ask| plan_command(&Command::Reactor(command), &facts());
    let path = || "path".to_string();
    assert_eq!(plan(Ask::RecordTrace { path: Some(path()) }), CommandPlan::StartTrace);
    assert_eq!(plan(Ask::RecordTrace { path: None }), CommandPlan::StopTrace);
    assert_eq!(plan(Ask::DumpTrace { path: path() }), CommandPlan::DumpTrace);
    assert_eq!(plan(Ask::SaveLayout { path: path() }), CommandPlan::SaveLayout(Some(space(1))));
    let restore = || Ask::RestoreLayout { path: path(), scope: 1, source: 2 };
    assert_eq!(plan(restore()), CommandPlan::RestoreLayout(space(1)));
    let nowhere = CommandFacts { active_space: None, ..facts() };
    assert_eq!(
        plan_command(&Command::Reactor(restore()), &nowhere),
        CommandPlan::NothingToRestore
    );
    assert_eq!(plan(Ask::SwitchSpace(Direction::Right)), CommandPlan::SwitchSpace(Direction::Right));
    assert_eq!(plan(Ask::SwitchToSpace(3)), CommandPlan::SwitchToSpace(3));
    assert_eq!(
        plan(Ask::FocusWindow { window_id: window(1), window_server_id: Some(9) }),
        CommandPlan::FocusWindow {
            window: window(1),
            number: Some(9),
            space: Some(space(5)),
            space_active: true,
        }
    );
    assert_eq!(
        plan(Ask::DismissMissionControl),
        CommandPlan::MissionControl(MissionControl::Dismiss)
    );
    assert_eq!(
        plan(Ask::FocusDisplay(DisplaySelector::Index(1))),
        CommandPlan::FocusDisplay { found: true, focus: facts().display }
    );
    assert_eq!(plan(Ask::CloseWindow { window_server_id: None }), CommandPlan::Close(None));
    let send = || Ask::MoveWindowToDisplay { selector: DisplaySelector::Index(1), window_id: None };
    assert_eq!(
        plan(send()),
        CommandPlan::MoveWindowToDisplay(DisplayMove {
            window: window(1),
            source: space(1),
            target: space(2),
        })
    );
    let held = MoveFacts { dragging: true, ..facts().moving };
    assert_eq!(
        plan_command(&Command::Reactor(send()), &CommandFacts { moving: held, ..facts() }),
        CommandPlan::MoveRefused(MoveRefused::Dragging)
    );
    let along =
        || Ask::MoveWorkspaceToDisplay { selector: DisplaySelector::Index(1), wrap_around: false };
    assert_eq!(
        plan(along()),
        CommandPlan::MoveWorkspaceToDisplay(WorkspaceMove {
            source: space(1),
            target: space(2),
            ordinal: 1,
        })
    );
    let lost = WorkspaceMoveFacts { found: false, ..facts().moving_workspace };
    assert_eq!(
        plan_command(
            &Command::Reactor(along()),
            &CommandFacts { moving_workspace: lost, ..facts() }
        ),
        CommandPlan::WorkspaceMoveRefused(WorkspaceMoveRefused::NoDisplay)
    );
    let timing: Command<Words> = Command::Metrics(MetricsCommand::ShowTiming);
    assert_eq!(plan_command(&timing, &facts()), CommandPlan::ShowTiming);
}

#[test]
fn a_recording_begins_with_what_is_known() {
    assert_eq!(
        trace_preamble(&[9, 3, 7], Some(7), Some(window(1)), Some(space(2))),
        vec![
            Preamble::Spaces,
            Preamble::Launched(3),
            Preamble::Launched(7),
            Preamble::Launched(9),
            Preamble::Activated(7),
            Preamble::Focused(window(1), space(2)),
        ]
    );
    assert_eq!(trace_preamble(&[], None, Some(window(1)), None), vec![Preamble::Spaces]);
}
