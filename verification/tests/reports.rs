use rift::drag::{MouseAction, ResizeEdges};
use rift::events::MouseState;
use rift::fullscreen_slots::Removal;
use rift::ids::{SpaceId, WindowId, WindowServerId};
use rift::layout::LayoutMode;
use rift::lists::IdSet;
use rift::managers::{ActorId, AppManager, AppState, RefocusState, RefreshQuarantineManager};
use rift::membership::{
    announces, apply_app_rules_for_activated_spaces, pending_hidden_targets,
    reconcile_windows_in_snapshot, server_update, space_to_announce, takes_live_frame, Belongs,
    HiddenWindow, Observed, RuledWindow, ServerUpdate,
};
use rift::reports::{
    active_space_for, after_telling, arrange_after_event, begin_modifier_drag,
    effective_mouse_state, end_telling, frame_spaces, hover, keeps_assigned_for_scrolling,
    plan_layout_event, prepare_refocus_after_layout_event, report_ends_drag, takes_size_as_minimum,
    tell_layout, visibility_changed, watches_drop, ArrangeAfter, FrameSpaces, Hover, LayoutEvent,
    LayoutEventPlan, TellStep, Told, Visibility,
};
use rift::screens::Listing;

fn window(idx: u32) -> WindowId {
    WindowId::new(1, idx)
}

fn space(n: u64) -> SpaceId {
    SpaceId::new(n)
}

fn active(spaces: &[u64]) -> IdSet<SpaceId> {
    let mut set = IdSet::new();
    for n in spaces {
        set.insert(space(*n));
    }
    set
}

fn listing(entries: &[(&str, &[u64])]) -> Listing {
    let mut listing = Listing::new();
    for (uuid, spaces) in entries {
        listing.insert(uuid.to_string(), spaces.iter().map(|n| space(*n)).collect());
    }
    listing
}

#[test]
fn a_modifier_drag_is_no_drag_of_the_user() {
    assert_eq!(effective_mouse_state(true, Some(MouseState::Down)), Some(MouseState::Up));
    assert_eq!(effective_mouse_state(false, Some(MouseState::Down)), Some(MouseState::Down));
    assert!(report_ends_drag(Some(MouseState::Up), true));
    assert!(!report_ends_drag(Some(MouseState::Up), false));
    assert!(!report_ends_drag(Some(MouseState::Down), true));
    assert!(!report_ends_drag(None, true));
}

#[test]
fn a_hidden_window_does_not_move() {
    let listed = listing(&[("a", &[1, 2]), ("b", &[3])]);
    let on = |server: Option<u64>| {
        frame_spaces(
            Some(space(1)),
            Some(space(3)),
            server.map(SpaceId::new),
            &active(&[1, 3]),
            &listed,
        )
    };
    let moved = FrameSpaces {
        old_space: Some(space(1)),
        new_space: Some(space(3)),
        old_active: true,
        new_active: true,
    };
    assert_eq!(on(None), moved);
    assert_eq!(on(Some(3)), moved);
    assert_eq!(on(Some(9)), moved);
    assert_eq!(
        on(Some(2)),
        FrameSpaces {
            old_space: Some(space(2)),
            new_space: Some(space(2)),
            old_active: false,
            new_active: false
        }
    );
}

#[test]
fn a_report_is_for_an_active_desktop() {
    let set = active(&[1]);
    let command = Some(space(5));
    assert_eq!(active_space_for(Some(space(1)), true, command, &set), Some(space(1)));
    assert_eq!(active_space_for(Some(space(2)), true, command, &set), None);
    assert_eq!(active_space_for(Some(space(2)), false, command, &set), command);
    assert_eq!(active_space_for(None, true, command, &set), None);
}

#[test]
fn a_scrolled_window_keeps_its_desktop() {
    let at = Some(space(1));
    assert!(keeps_assigned_for_scrolling(at, LayoutMode::Scrolling, false, true));
    assert!(!keeps_assigned_for_scrolling(at, LayoutMode::Scrolling, true, true));
    assert!(!keeps_assigned_for_scrolling(at, LayoutMode::Bsp, false, true));
    assert!(!keeps_assigned_for_scrolling(None, LayoutMode::Scrolling, false, true));
    assert!(takes_size_as_minimum(true, true));
    assert!(!takes_size_as_minimum(true, false));
}

#[test]
fn a_window_ordered_out_is_asked_after() {
    assert_eq!(visibility_changed(Some(window(1)), true), Visibility::Show);
    assert_eq!(visibility_changed(Some(window(1)), false), Visibility::HideAndVerify(window(1)));
    assert_eq!(visibility_changed(None, false), Visibility::Unknown);
}

#[test]
fn hovering_syncs_what_is_not_focused() {
    let over = Some(window(1));
    assert_eq!(
        hover(over, true, over, Some(window(2))),
        Hover { window: over, should_sync: true, is_main: true, needs_layout_sync: true }
    );
    assert_eq!(
        hover(over, false, None, over),
        Hover { window: over, should_sync: false, is_main: false, needs_layout_sync: false }
    );
    assert_eq!(
        hover(None, true, None, None),
        Hover { window: None, should_sync: false, is_main: false, needs_layout_sync: false }
    );
}

#[test]
fn a_modifier_drag_begins_on_a_known_window() {
    let edges = ResizeEdges { left: true, top: false };
    let drag = begin_modifier_drag(Some(window(1)), MouseAction::Resize, Some("frame"), edges).unwrap();
    assert_eq!(drag.origin_frame, "frame");
    assert_eq!(drag.edges, edges);
    assert!(begin_modifier_drag(None, MouseAction::Move, Some("frame"), edges).is_none());
    assert!(begin_modifier_drag::<u8>(Some(window(1)), MouseAction::Move, None, edges).is_none());
    assert!(watches_drop(MouseAction::Move, true, true, true));
    assert!(!watches_drop(MouseAction::Resize, true, true, true));
    assert!(!watches_drop(MouseAction::Move, false, true, true));
}

#[test]
fn a_rejected_window_is_not_added() {
    let nothing = LayoutEventPlan {
        capture_pre_churn: false,
        removal: None,
        focus_changed: false,
        space: None,
        focus_desktop: false,
    };
    let plan = |event, rejected| plan_layout_event(event, rejected, Some(window(1)));
    assert_eq!(plan(LayoutEvent::WindowAdded(space(1), window(2)), true), None);
    assert_eq!(plan(LayoutEvent::WindowAdded(space(1), window(2)), false), Some(nothing));
    assert_eq!(
        plan(LayoutEvent::WindowFocused(space(1), window(2)), true),
        Some(LayoutEventPlan { focus_changed: true, space: Some(space(1)), ..nothing })
    );
    assert_eq!(
        plan(LayoutEvent::WindowFocused(space(1), window(1)), false),
        Some(LayoutEventPlan { space: Some(space(1)), ..nothing })
    );
    assert_eq!(
        plan(LayoutEvent::WindowRemoved(window(1)), false),
        Some(LayoutEventPlan { removal: Some(Removal::Plain), focus_desktop: true, ..nothing })
    );
    assert_eq!(
        plan(LayoutEvent::WindowRemovedPreserveFloating(window(1)), false),
        Some(LayoutEventPlan {
            capture_pre_churn: true,
            removal: Some(Removal::PreservingFloat),
            ..nothing
        })
    );
    assert_eq!(plan(LayoutEvent::WindowResized(window(1)), true), Some(nothing));
}

#[test]
fn a_window_put_aside_leaves_its_desktop_waiting() {
    let mut refocus = RefocusState::Idle;
    let added = LayoutEvent::WindowAdded(space(1), window(1));
    prepare_refocus_after_layout_event(added, false, &mut refocus);
    assert_eq!(refocus, RefocusState::Idle);
    prepare_refocus_after_layout_event(LayoutEvent::WindowRemoved(window(1)), true, &mut refocus);
    assert_eq!(refocus, RefocusState::Idle);
    prepare_refocus_after_layout_event(added, true, &mut refocus);
    assert_eq!(refocus, RefocusState::Pending(space(1)));
    let observed = LayoutEvent::WindowObserved(space(2), window(1));
    prepare_refocus_after_layout_event(observed, true, &mut refocus);
    assert_eq!(refocus, RefocusState::Pending(space(2)));
}

#[test]
fn only_a_changed_layout_is_arranged() {
    let (a, b) = (Some(space(1)), Some(space(2)));
    assert_eq!(arrange_after_event(false, a, b), None);
    assert_eq!(
        arrange_after_event(true, a, b),
        Some(ArrangeAfter { workspace_switch: true, scope: a })
    );
    assert_eq!(
        arrange_after_event(true, None, b),
        Some(ArrangeAfter { workspace_switch: false, scope: b })
    );
}

#[test]
fn windows_belong_where_they_are_on_file() {
    let observed = [
        Observed { window: Some(window(1)), filed: Some(space(1)), seen: Some(space(2)) },
        Observed { window: Some(window(2)), filed: None, seen: Some(space(2)) },
        Observed { window: Some(window(3)), filed: None, seen: None },
        Observed { window: None, filed: Some(space(1)), seen: None },
    ];
    let mut quarantine = RefreshQuarantineManager::new();
    assert_eq!(
        reconcile_windows_in_snapshot(&mut quarantine, &observed),
        Some(vec![
            Belongs { window: window(1), space: space(1) },
            Belongs { window: window(2), space: space(2) }
        ])
    );
    assert!(!quarantine.pending_inventory_refresh);
    quarantine.sleeping = true;
    assert_eq!(reconcile_windows_in_snapshot(&mut quarantine, &observed), None);
    assert!(quarantine.pending_inventory_refresh);
}

#[test]
fn awaited_frames_of_hidden_windows_are_forgotten() {
    let id = |n| Some(WindowServerId::new(n));
    let windows = [
        HiddenWindow { hidden: true, sys_id: id(1) },
        HiddenWindow { hidden: false, sys_id: id(2) },
        HiddenWindow { hidden: true, sys_id: None },
        HiddenWindow { hidden: true, sys_id: id(4) },
    ];
    assert_eq!(
        pending_hidden_targets(&windows),
        vec![WindowServerId::new(1), WindowServerId::new(4)]
    );
}

#[test]
fn rules_are_applied_by_application() {
    let mut apps = AppManager::new();
    for pid in [2, 1] {
        apps.apps.insert(pid, AppState { handle: ActorId(0), bundle_id: None });
    }
    let ruled = |pid, idx, n: u64, reconciles| RuledWindow {
        space: space(n),
        window: Some(WindowId::new(pid, idx)),
        reconciles,
    };
    let windows = [
        ruled(1, 1, 1, true),
        ruled(2, 1, 1, true),
        ruled(3, 1, 1, true),
        ruled(1, 2, 1, false),
        ruled(1, 3, 2, true),
        ruled(1, 4, 1, true),
        RuledWindow { space: space(1), window: None, reconciles: true },
    ];
    let apps = apply_app_rules_for_activated_spaces(&apps, &windows, &[space(1)]);
    let listed: Vec<(i32, Vec<u32>)> =
        apps.iter().map(|a| (a.pid, a.windows.iter().map(|w| w.idx).collect())).collect();
    assert_eq!(listed, vec![(2, vec![1]), (1, vec![1, 4])]);
}

#[test]
fn the_window_server_has_a_say_on_ordinary_windows() {
    assert_eq!(server_update(true, 0, true, false), ServerUpdate { take_frame: true, remove: true });
    assert_eq!(server_update(true, 3, false, true), ServerUpdate { take_frame: false, remove: false });
    assert_eq!(server_update(false, 0, true, false), ServerUpdate { take_frame: false, remove: false });
    assert!(takes_live_frame(true, true, true));
    assert!(!takes_live_frame(false, true, true));
}

#[test]
fn listeners_hear_of_active_desktops() {
    let set = active(&[2, 3]);
    let shown = [None, Some(space(1)), Some(space(3)), Some(space(2))];
    assert_eq!(space_to_announce(None, &shown, &set), Some(space(3)));
    assert_eq!(space_to_announce(Some(space(9)), &shown, &set), Some(space(9)));
    assert_eq!(space_to_announce(None, &[Some(space(1))], &set), None);
    assert!(announces(Some(space(2)), &set, true, true));
    assert!(!announces(Some(space(1)), &set, true, true));
    assert!(!announces(Some(space(2)), &set, false, true));
    assert!(!announces(Some(space(2)), &set, true, false));
    assert!(!announces(None, &set, true, true));
}

#[test]
fn the_layout_is_told_in_one_order() {
    let plan = |event| plan_layout_event(event, false, Some(window(1))).unwrap();
    let removed = plan(LayoutEvent::WindowRemovedPreserveFloating(window(1)));
    assert_eq!(
        tell_layout(removed),
        vec![
            TellStep::CapturePreChurn,
            TellStep::NoteRemoval(Removal::PreservingFloat),
            TellStep::NoteWaitingSlots,
            TellStep::Tell,
            TellStep::Reinstate,
            TellStep::Place,
            TellStep::Resize,
        ]
    );
    assert_eq!(tell_layout(plan(LayoutEvent::WindowResized(window(1)))).len(), 5);
    let focused = plan(LayoutEvent::WindowFocused(space(2), window(3)));
    assert_eq!(
        after_telling(focused, None),
        vec![TellStep::HideOnFocus, TellStep::PrepareRefocus, TellStep::Respond(None)]
    );
    let added = plan(LayoutEvent::WindowAdded(space(2), window(3)));
    assert_eq!(
        after_telling(added, Some(space(4))),
        vec![
            TellStep::SwitchWorkspace(space(4)),
            TellStep::PrepareRefocus,
            TellStep::Respond(Some(space(4))),
        ]
    );
    let arrange = |workspace_switch, n| {
        TellStep::Arrange(ArrangeAfter { workspace_switch, scope: Some(space(n)) })
    };
    let told = |changed, reinstated, switched| Told { changed, reinstated, switched };
    assert_eq!(end_telling(focused, told(true, false, None), None), vec![arrange(false, 2)]);
    assert_eq!(end_telling(focused, told(false, true, None), None), vec![arrange(false, 2)]);
    let switched = Some((space(4), true));
    assert_eq!(end_telling(focused, told(false, false, switched), None), vec![arrange(true, 4)]);
    // The answer to the switch stands for what went before.
    let unchanged = told(true, true, Some((space(4), false)));
    assert!(!unchanged.is_layout_changed());
    assert!(end_telling(focused, unchanged, None).is_empty());
    let gone = plan(LayoutEvent::WindowRemoved(window(1)));
    assert_eq!(
        end_telling(gone, told(false, false, None), Some(space(5))),
        vec![TellStep::FocusDesktop(space(5))]
    );
    assert!(end_telling(gone, told(false, false, None), None).is_empty());
}
