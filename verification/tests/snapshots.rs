use rift::discovery::{
    candidate_windows, focused_window_for_discovery, group_for_app_rules, needs_layout_refresh,
    on_windows_discovered, plan_discovery, plan_stale_cleanup, process_windows_for_app_rules,
    reapplies_on_title_change, shown_active_spaces, DiscoveryStep, KnownWindow, NewWindow,
    RuleAnswer, RuleFacts, RuleStep, RuleWindow, AnsweredWindow,
};
use rift::ids::{SpaceId, WindowId, WindowServerId};
use rift::lists::IdSet;
use rift::managers::{
    PendingSpaceChangeManager, RefocusManager, RefocusState, StaleCleanupState,
};
use rift::native_spaces::{
    authoritative_active_space_windows, found_active_space_windows, fullscreen_owner,
    missing_window_step, move_after_fullscreen, records_on, refresh_active_space_window_membership,
    restore_fullscreen_window_to_user_space, DeltaFollow, DeltaState, DeltaStep, DeltaWindow,
    Evidence, FullscreenRecord, FullscreenReturn, Missing, MissingFacts, Return, ReturnedWindow,
    WindowDelta,
};
use rift::outcome::{close_target, wm_request, Arrange, EventOutcome, Phase, Restored, WmRequest};
use rift::reports::LayoutEvent;
use rift::screens::{Listing, Screen};
use rift::snapshot::{
    find_space_switch, follow_space_switch_across_displays, handle_authoritative_space_snapshot,
    spaces_by_display, try_apply_pending_space_change, unlaid_spaces, FollowFacts, FollowSwitch,
    SnapshotFacts, SnapshotStep, SpaceSwitch,
};
use rift::table::Table;
use rift::topology::{
    active_set, handle_active_space_change, is_same_listing, missing_from, SpaceState,
};

fn window(idx: u32) -> WindowId {
    WindowId::new(1, idx)
}

fn server(n: u32) -> WindowServerId {
    WindowServerId::new(n)
}

fn space(n: u64) -> SpaceId {
    SpaceId::new(n)
}

fn at(n: u64) -> Option<SpaceId> {
    Some(space(n))
}

fn set(spaces: &[u64]) -> IdSet<SpaceId> {
    active_set(&spaces.iter().map(|n| at(*n)).collect::<Vec<_>>())
}

fn screen(uuid: &str, shows: Option<u64>) -> Screen {
    Screen { display_uuid: uuid.to_string(), space: shows.map(SpaceId::new), has_area: true }
}

fn state(screens: Vec<Screen>, active: &[u64]) -> SpaceState {
    SpaceState {
        screens,
        active_spaces: active.iter().map(|n| space(*n)).collect(),
        ..SpaceState::new()
    }
}

#[test]
fn commands_are_for_the_active_desktop() {
    let mut now = state(vec![screen("a", None), screen("b", Some(2)), screen("c", Some(3))], &[3, 2]);
    assert_eq!(now.active_display_space(), at(2));
    now.command_space = at(3);
    assert_eq!(now.active_display_space(), at(3));
    now.command_space = at(9);
    assert_eq!(now.active_display_space(), at(2));
    assert_eq!(now.workspace_command_space(&set(&[2])), at(2));
    assert_eq!(now.workspace_command_space(&set(&[3])), None);
    assert_eq!(now.screen_by_space(space(3)), Some(2));
    assert_eq!(now.screen_by_space(space(9)), None);
    now.active_spaces = vec![space(3)];
    assert_eq!(now.authoritative_spaces_for_current_screens(), vec![None, None, at(3)]);
    assert!(now.has_user_space_context());
    now.fullscreen_spaces = vec![space(9)];
    assert!(!now.has_user_space_context());
    assert!(now.is_fullscreen_space(space(9)));
}

#[test]
fn a_change_of_active_desktops_is_told() {
    let change = handle_active_space_change(&set(&[1, 2]), &set(&[2, 3]));
    assert_eq!(change.activated, vec![space(3)]);
    assert_eq!(handle_active_space_change(&set(&[1]), &set(&[4, 3, 4])).activated.len(), 2);
    assert!(change.refresh);
    let same = handle_active_space_change(&set(&[1, 2]), &set(&[2, 1]));
    assert!(same.activated.is_empty() && !same.refresh);
    let fewer = handle_active_space_change(&set(&[1, 2]), &set(&[2]));
    assert!(fewer.activated.is_empty() && fewer.refresh);
    assert_eq!(missing_from(&set(&[1, 2]), &set(&[2])), vec![space(1)]);
}

#[test]
fn another_topology_is_told_from_the_same() {
    let before = state(vec![screen("a", Some(1))], &[1, 2]);
    assert!(!before.topology_changed(&state(vec![screen("a", Some(1))], &[2, 1]), false));
    assert!(before.topology_changed(&state(vec![screen("a", Some(1))], &[2, 1]), true));
    assert!(before.topology_changed(&state(vec![screen("a", Some(2))], &[1, 2]), false));
    assert!(before.topology_changed(&state(vec![screen("a", Some(1))], &[1]), false));
    let mut moved = state(vec![screen("a", Some(1))], &[1, 2]);
    moved.active_window_spaces.insert(server(1), space(1));
    assert!(before.topology_changed(&moved, false));
    let mut a = Listing::new();
    let mut b = Listing::new();
    a.insert("x".to_string(), vec![space(1), space(2)]);
    a.insert("y".to_string(), vec![]);
    b.insert("y".to_string(), vec![]);
    assert!(!is_same_listing(&a, &b));
    b.insert("x".to_string(), vec![space(1), space(2)]);
    assert!(is_same_listing(&a, &b));
    b.insert("x".to_string(), vec![space(2), space(1)]);
    assert!(!is_same_listing(&a, &b));
}

fn facts() -> SnapshotFacts {
    SnapshotFacts {
        command_space_only: false,
        display_set_changed: true,
        invalidates_pending_targets: true,
        mission_control: false,
        releases_quarantine: false,
        has_window_delta: true,
        force_refresh: true,
    }
}

fn take(facts: SnapshotFacts, incoming: SpaceState) -> (Vec<SnapshotStep>, SpaceState, StaleCleanupState, Option<u8>) {
    let mut now = state(vec![screen("a", Some(1))], &[1]);
    let mut refocus = RefocusManager {
        stale_cleanup_state: StaleCleanupState::Enabled,
        refocus_state: RefocusState::Idle,
    };
    let mut pending = PendingSpaceChangeManager { pending_space_change: None };
    let steps = handle_authoritative_space_snapshot(
        &mut now,
        &mut refocus,
        &mut pending,
        incoming,
        7u8,
        facts,
    );
    (steps, now, refocus.stale_cleanup_state, pending.pending_space_change)
}

#[test]
fn departed_displays_are_archived_first() {
    let (steps, now, cleanup, pending) = take(facts(), state(vec![screen("b", Some(2))], &[2]));
    assert_eq!(
        steps,
        vec![
            SnapshotStep::ReconcileStartupSpaces,
            SnapshotStep::ArchiveDeparted,
            SnapshotStep::PruneDisplays,
            SnapshotStep::NoteDisplaySet,
            SnapshotStep::ClearHiddenTargets,
            SnapshotStep::RemapSpaces,
            SnapshotStep::UpdateSpaceDisplays,
            SnapshotStep::BeginHoming,
            SnapshotStep::UpdateActivation,
            SnapshotStep::RecomputeActive,
            SnapshotStep::RestoreAfterFullscreen,
            SnapshotStep::ExposeResized,
            SnapshotStep::ExposeUnlaid,
            SnapshotStep::ApplyWindowDelta,
            SnapshotStep::Finalize,
            SnapshotStep::SettleDisplaced,
            SnapshotStep::FollowSwitch,
            SnapshotStep::TryPending,
            SnapshotStep::RefreshAndArrange,
        ]
    );
    assert_eq!(now.screens, vec![screen("b", Some(2))]);
    assert_eq!(cleanup, StaleCleanupState::Enabled);
    assert_eq!(pending, None);
}

#[test]
fn mission_control_leaves_layouts_alone() {
    let (steps, now, _, pending) =
        take(SnapshotFacts { mission_control: true, ..facts() }, state(vec![screen("b", Some(2))], &[2]));
    assert_eq!(steps.last(), Some(&SnapshotStep::ClearHiddenTargets));
    assert!(!steps.contains(&SnapshotStep::BeginHoming));
    assert_eq!(pending, Some(7));
    assert_eq!(now.screens.len(), 1);
    let mut held = PendingSpaceChangeManager { pending_space_change: Some(7u8) };
    assert_eq!(try_apply_pending_space_change(&mut held, 1, 2), None);
    assert_eq!(held.pending_space_change, Some(7));
    assert_eq!(try_apply_pending_space_change(&mut held, 2, 2), Some(7));
    assert_eq!(held.pending_space_change, None);
}

#[test]
fn a_report_without_screens_suspends_cleanup() {
    let (steps, now, cleanup, _) = take(facts(), state(vec![], &[]));
    assert!(steps.contains(&SnapshotStep::ExposeAll));
    assert!(steps.contains(&SnapshotStep::ForgetVisibleWindows));
    assert_eq!(steps.last(), Some(&SnapshotStep::TryPending));
    assert!(now.screens.is_empty());
    assert_eq!(cleanup, StaleCleanupState::Suppressed);
    let mut incoming = state(vec![screen("b", Some(2))], &[2]);
    incoming.command_space = at(2);
    let (steps, now, _, _) = take(SnapshotFacts { command_space_only: true, ..facts() }, incoming);
    assert_eq!(steps, vec![SnapshotStep::ReconcileStartupSpaces]);
    assert_eq!(now.command_space, at(2));
    assert_eq!(now.screens, vec![screen("a", Some(1))]);
}

#[test]
fn a_switch_on_the_other_display_is_followed() {
    let before = spaces_by_display(&[screen("a", Some(1)), screen("b", Some(2)), screen("", Some(5))]);
    assert_eq!(before.get(&"b".to_string()), Some(&space(2)));
    assert_eq!(before.get(&"".to_string()), None);
    let switch = find_space_switch(&before, &[screen("a", Some(1)), screen("b", Some(3))]);
    assert_eq!(switch, Some(SpaceSwitch { screen: 1, previous: space(2), space: space(3) }));
    assert_eq!(find_space_switch(&before, &[screen("a", Some(4)), screen("b", Some(3))]), None);
    assert_eq!(find_space_switch(&before, &[screen("a", Some(1)), screen("c", Some(3))]), None);

    let facts = FollowFacts {
        mouse_follows_focus: true,
        suppressed: false,
        mission_control: false,
        dragging: false,
        modifier_drag: false,
        pointer_there: false,
        key_window_space: at(1),
        candidate: Some(window(1)),
    };
    let follow = follow_space_switch_across_displays;
    assert_eq!(follow(facts, switch), FollowSwitch::Focus(window(1)));
    assert_eq!(
        follow(FollowFacts { candidate: None, ..facts }, switch),
        FollowSwitch::Desktop(space(3))
    );
    assert_eq!(follow(facts, None), FollowSwitch::Nothing);
    for stays in [
        FollowFacts { mouse_follows_focus: false, ..facts },
        FollowFacts { suppressed: true, ..facts },
        FollowFacts { pointer_there: true, ..facts },
        FollowFacts { key_window_space: at(2), ..facts },
        FollowFacts { key_window_space: at(3), ..facts },
    ] {
        assert_eq!(follow(stays, switch), FollowSwitch::Nothing);
    }
    assert_eq!(
        unlaid_spaces(
            &[screen("a", Some(1)), screen("b", Some(2)), screen("c", Some(3))],
            &set(&[1, 2]),
            &[space(1)]
        ),
        vec![space(2)]
    );
}

fn outcome() -> EventOutcome {
    EventOutcome {
        window_server_updates: false,
        recompute_active_spaces: false,
        repair_spaces_after_mission_control: false,
        refresh_after_mission_control: false,
        refresh_window_inventories: false,
        discoveries: true,
        reapply_app_rules: false,
        finalize_created_windows: false,
        confirmed_window_spaces: false,
        fullscreen_restorations: false,
        topology_reassignments: false,
        pre_layout_window_frame_writes: true,
        layout_events: true,
        layout_responses: false,
        drag_swap_evaluations: false,
        dispatch_mouse_up: false,
        arrange: Arrange { requested: true, window_was_destroyed: false, passes: 0 },
        broadcast_layout_changed: true,
        broadcast_selection_changed: true,
        post_arrange_mouse_warp: true,
        raise_requests: false,
        focused_window: true,
        switch_native_space: false,
        make_key_windows: false,
        mouse_warps: false,
        wm_commands: false,
        wm_events: false,
        close_window: false,
        service_config_update: false,
        stdout_lines: false,
        refresh_window_notifications: false,
        refresh_focus_follows_mouse: false,
        refresh_layout_mode: false,
        window_title_broadcasts: false,
        focused_window_broadcast: false,
        app_requests: true,
        window_inventory_requests: true,
    }
}

#[test]
fn requests_are_applied_in_one_order() {
    assert_eq!(
        outcome().before_arrange(),
        vec![Phase::Discoveries, Phase::PreLayoutWindowFrameWrites, Phase::LayoutEvents]
    );
    assert_eq!(
        outcome().after_arrange(true, true),
        vec![
            Phase::MenuUpdate,
            Phase::BroadcastLayoutChanged,
            Phase::BroadcastSelectionChanged,
            Phase::PostArrangeMouseWarp,
            Phase::FocusedWindow,
            Phase::EndWorkspaceSwitch,
            Phase::AppRequests,
            Phase::WindowInventoryRequests,
        ]
    );
    assert_eq!(
        outcome().after_arrange(false, false),
        vec![
            Phase::BroadcastSelectionChanged,
            Phase::FocusedWindow,
            Phase::EndWorkspaceSwitch,
            Phase::AppRequests,
            Phase::WindowInventoryRequests,
        ]
    );
}

#[test]
fn nothing_is_done_for_an_event_that_asks_for_nothing() {
    let nothing = EventOutcome::nothing();
    assert!(nothing.before_arrange().is_empty());
    assert_eq!(nothing.arrange_passes(false), 0);
    assert_eq!(nothing.after_arrange(false, false), vec![Phase::EndWorkspaceSwitch]);
}

#[test]
fn nothing_is_arranged_in_a_drag_unless_a_window_is_gone() {
    assert_eq!(outcome().arrange_passes(false), 1);
    assert_eq!(outcome().arrange_passes(true), 0);
    let gone = Arrange { requested: true, window_was_destroyed: true, passes: 2 };
    assert_eq!(EventOutcome { arrange: gone, ..outcome() }.arrange_passes(true), 2);
    let none = Arrange { requested: false, ..gone };
    assert_eq!(EventOutcome { arrange: none, ..outcome() }.arrange_passes(false), 0);
    assert_eq!(wm_request(true, true), WmRequest::Send);
    assert_eq!(wm_request(false, true), WmRequest::LeaveMissionControl);
    assert_eq!(wm_request(false, false), WmRequest::Drop);
    assert_eq!(close_target(Some(server(1)), None, Some(window(1))), None);
    assert_eq!(close_target(None, None, Some(window(1))), Some(window(1)));
}

#[test]
fn windows_that_were_not_seen_are_asked_after() {
    let known = |idx, authoritative: Option<u64>| KnownWindow {
        wid: window(idx),
        sys_id: Some(server(idx * 10)),
        authoritative: authoritative.map(SpaceId::new),
        discovery: authoritative.map(SpaceId::new),
    };
    let windows = [
        known(1, Some(1)),
        known(2, Some(2)),
        known(3, None),
        KnownWindow { wid: WindowId::new(2, 4), ..known(4, Some(2)) },
    ];
    let new = [NewWindow { wid: window(9), known_as: Some(window(3)) }];
    let plan = plan_stale_cleanup(1, &windows, &new, &[window(1)], &set(&[1]));
    assert_eq!(plan.inactive, vec![window(2)]);
    assert_eq!(plan.seen, vec![window(1), window(3)]);
    assert_eq!(plan.ask, vec![server(20)]);
    let other = WindowId::new(2, 1);
    assert_eq!(
        candidate_windows(1, &[window(2), other, window(1)], &[window(1), window(3), other]),
        vec![window(2), window(1), window(3)]
    );

    let focused = focused_window_for_discovery(1, Some(window(1)), at(1), at(1));
    assert_eq!(focused, Some((space(1), window(1))));
    assert_eq!(focused_window_for_discovery(2, Some(window(1)), at(1), at(1)), None);
    assert_eq!(focused_window_for_discovery(1, Some(window(1)), at(1), at(2)), None);
    let screens = [screen("a", Some(1)), screen("b", Some(7))];
    assert_eq!(shown_active_spaces(&screens, &set(&[1])), vec![space(1)]);
    let told = plan_discovery(1, &windows, &screens, &set(&[1]), focused);
    assert_eq!(told.discovery_spaces, vec![(window(1), space(1)), (window(2), space(2))]);
    assert_eq!(told.authoritative_spaces, told.discovery_spaces);
    assert_eq!(told.active_spaces, vec![space(1)]);
    assert_eq!(told.focused, focused);
}

#[test]
fn rules_leave_the_window_in_hand() {
    let ruled = |idx, n: u64| RuleWindow { wid: window(idx), reconcilable: true, space: at(n) };
    let windows = [
        ruled(1, 2),
        ruled(2, 1),
        ruled(3, 2),
        ruled(4, 9),
        RuleWindow { reconcilable: false, ..ruled(5, 1) },
    ];
    assert_eq!(
        group_for_app_rules(&windows, Some(window(3)), &set(&[1, 2])),
        vec![(space(1), vec![window(2)]), (space(2), vec![window(1)])]
    );
    let same = RuleFacts {
        reapply: false,
        same_workspace: true,
        was_floating: true,
        floats: true,
        was_ignored: false,
    };
    assert!(!needs_layout_refresh(same));
    assert!(needs_layout_refresh(RuleFacts { reapply: true, ..same }));
    assert!(needs_layout_refresh(RuleFacts { same_workspace: false, ..same }));
    assert!(needs_layout_refresh(RuleFacts { floats: false, ..same }));
    assert!(needs_layout_refresh(RuleFacts { was_ignored: true, ..same }));
    assert!(reapplies_on_title_change(true, true, true, true));
    assert!(!reapplies_on_title_change(false, true, true, true));
}

#[test]
fn a_window_missing_from_a_report_leaves_its_tree() {
    let facts = MissingFacts {
        visible: false,
        assigned: at(1),
        assigned_active: true,
        resolved: None,
        resolved_active: false,
        preserve: false,
    };
    assert_eq!(missing_window_step(facts), Missing::Remove);
    assert_eq!(missing_window_step(MissingFacts { visible: true, ..facts }), Missing::Nothing);
    assert_eq!(missing_window_step(MissingFacts { preserve: true, ..facts }), Missing::Nothing);
    assert_eq!(
        missing_window_step(MissingFacts { assigned_active: false, ..facts }),
        Missing::Nothing
    );
    assert_eq!(
        missing_window_step(MissingFacts { resolved: at(2), preserve: true, ..facts }),
        Missing::MovedTo(space(2))
    );
    assert_eq!(
        missing_window_step(MissingFacts { resolved: at(2), resolved_active: true, ..facts }),
        Missing::Remove
    );
}

fn unknown() -> Evidence {
    Evidence {
        pinned: None,
        observation: None,
        homing: None,
        pending: None,
        in_flight: false,
        live: None,
        prior: None,
    }
}

fn delta_state(assigned: &[(u32, u64)]) -> DeltaState {
    let mut state = DeltaState {
        evidence: Table::new(),
        windows: Table::new(),
        assigned: Table::new(),
        active: set(&[1, 2]),
    };
    for (idx, n) in assigned {
        state.assigned.insert(window(*idx), space(*n));
    }
    for idx in 1..=4 {
        let known = DeltaWindow { window: window(idx), held: false, returned: None };
        state.windows.insert(server(idx), known);
    }
    state
}

#[test]
fn a_window_that_came_and_went_is_one() {
    let mut state = delta_state(&[(1, 1), (2, 2), (3, 2)]);
    state.windows.insert(server(3), DeltaWindow { window: window(3), held: true, returned: None });
    let moved = |n, visible| DeltaStep::Moved { space: space(n), visible, confirmed: true };
    let gone = |n, remove| DeltaStep::Gone { space: space(n), remove };
    let delta = |n, step, follow| WindowDelta { number: server(n), step, follow };
    assert_eq!(
        state.apply_topology_window_delta(
            &[(server(1), space(9)), (server(4), space(7)), (server(1), space(2))],
            &[
                (server(2), space(2)),
                (server(1), space(1)),
                (server(3), space(2)),
                (server(8), space(1))
            ],
        ),
        vec![
            // Of two places that it came to the last one counts.
            delta(1, moved(2, true), DeltaFollow::Reassign(window(1), space(2))),
            delta(4, moved(7, false), DeltaFollow::Reassign(window(4), space(7))),
            delta(2, gone(2, true), DeltaFollow::Leave(window(2))),
            // One in the user's hand stays in its tree, and nothing is known of the last.
            delta(3, gone(2, false), DeltaFollow::Nothing),
            delta(8, gone(1, false), DeltaFollow::Nothing),
        ]
    );
    assert!(state.apply_topology_window_delta(&[], &[]).is_empty());
    // The window server still has a window that was reported to go.
    state.evidence.insert(server(2), Evidence { live: at(1), ..unknown() });
    assert_eq!(
        state.apply_topology_window_delta(&[], &[(server(2), space(2))]),
        vec![delta(
            2,
            DeltaStep::Moved { space: space(1), visible: true, confirmed: false },
            DeltaFollow::Reassign(window(2), space(1))
        )]
    );
}

#[test]
fn a_return_from_fullscreen_is_tried_before_an_assignment() {
    let returned = ReturnedWindow {
        recorded: Some(WindowId::new(9, 5)),
        by_recorded_number: None,
        by_number: Some(window(1)),
        original: Some(window(1)),
    };
    let mut state = delta_state(&[(1, 2)]);
    let known = |returned| DeltaWindow { window: window(1), held: false, returned };
    state.windows.insert(server(1), known(Some(returned)));
    let follow = |state: &DeltaState| {
        state.apply_topology_window_delta(&[(server(1), space(2))], &[])[0].follow
    };
    let back = FullscreenReturn {
        owner: WindowId::new(9, 5),
        removed: Some(window(1)),
        ask: 9,
        follow: Return::Reassign,
    };
    assert_eq!(follow(&state), DeltaFollow::Return(back));
    let nobody =
        ReturnedWindow { recorded: None, by_number: None, original: None, ..returned };
    state.windows.insert(server(1), known(Some(nobody)));
    assert_eq!(follow(&state), DeltaFollow::Reassign(window(1), space(2)));

    let after = |returned, active| {
        restore_fullscreen_window_to_user_space(
            returned,
            window(1),
            space(2),
            active,
            &state.assigned,
        )
    };
    assert_eq!(after(returned, true), Some(back));
    assert_eq!(after(nobody, true), None);
    let same = ReturnedWindow { recorded: None, ..returned };
    let at_home =
        |follow| Some(FullscreenReturn { owner: window(1), removed: None, ask: 1, follow });
    assert_eq!(after(same, true), at_home(Return::PutBack));
    assert_eq!(after(same, false), at_home(Return::Stay));
}

#[test]
fn a_restored_layout_adds_to_what_is_asked_for() {
    let asked = EventOutcome {
        app_requests: true,
        arrange: Arrange { requested: false, window_was_destroyed: true, passes: 0 },
        ..EventOutcome::nothing()
    };
    assert_eq!(Restored::nothing().join(asked), asked);
    let both = Restored::of(true, vec![space(1)]).join(asked);
    let arrange = Arrange { requested: true, window_was_destroyed: true, passes: 1 };
    assert_eq!(
        both,
        EventOutcome {
            refresh_window_inventories: true,
            layout_events: true,
            arrange,
            ..asked
        }
    );
    let twice = EventOutcome { arrange: Arrange { passes: 2, ..arrange }, ..asked };
    assert_eq!(Restored::of(false, vec![]).join(twice), twice);
}

#[test]
fn an_empty_report_of_a_waking_window_server_is_not_believed() {
    let last = [(server(3), space(1)), (server(1), space(2)), (server(3), space(2))];
    assert_eq!(
        found_active_space_windows(&[], &last),
        vec![(server(1), space(2)), (server(3), space(1))]
    );
    assert_eq!(
        found_active_space_windows(&[(server(9), space(1))], &last),
        vec![(server(9), space(1))]
    );
    let mut evidence = Table::new();
    let seen = |found: &[_], evidence: &Table<_, _>| {
        authoritative_active_space_windows(found, &last, evidence)
    };
    assert_eq!(seen(&[], &evidence), vec![(server(1), at(2)), (server(3), at(1))]);
    // A window that has just been dropped is where it was dropped.
    evidence.insert(server(3), Evidence { pinned: at(7), ..unknown() });
    // A write that is still to land wins over what was seen.
    evidence.insert(server(1), Evidence { pending: at(8), in_flight: true, ..unknown() });
    assert_eq!(seen(&[], &evidence), vec![(server(1), at(8)), (server(3), at(7))]);
    assert_eq!(seen(&[(server(9), space(1))], &evidence), vec![(server(9), at(1))]);
    let visible = [server(1), server(2)];
    assert_eq!(refresh_active_space_window_membership(&visible, &[], true), None);
    assert_eq!(
        refresh_active_space_window_membership(&visible, &[], false),
        Some(visible.to_vec())
    );
    assert_eq!(
        refresh_active_space_window_membership(&visible, &[server(2)], true),
        Some(vec![server(1)])
    );
}

#[test]
fn a_window_back_from_fullscreen_is_recognised() {
    let returned = ReturnedWindow {
        recorded: None,
        by_recorded_number: Some(window(2)),
        by_number: Some(window(3)),
        original: Some(window(4)),
    };
    assert_eq!(fullscreen_owner(returned), Some(window(2)));
    assert_eq!(
        fullscreen_owner(ReturnedWindow { recorded: Some(window(1)), ..returned }),
        Some(window(1))
    );
    assert_eq!(
        fullscreen_owner(ReturnedWindow { by_recorded_number: None, by_number: None, ..returned }),
        Some(window(4))
    );
    let record = FullscreenRecord {
        window: window(1),
        last_user_space: at(1),
        workspace_space: at(2),
        live: Some(window(5)),
        live_space: at(1),
    };
    assert_eq!(records_on(&[record], space(1)).len(), 1);
    assert_eq!(records_on(&[record], space(2)).len(), 1);
    assert!(records_on(&[record], space(3)).is_empty());
    assert_eq!(move_after_fullscreen(record), Some((window(5), space(1), space(2))));
    assert_eq!(move_after_fullscreen(FullscreenRecord { live_space: at(2), ..record }), None);
    assert_eq!(
        move_after_fullscreen(FullscreenRecord { workspace_space: None, ..record }),
        None
    );
    assert_eq!(move_after_fullscreen(FullscreenRecord { live: None, ..record }), None);
}

#[test]
fn rules_are_carried_out_desktop_by_desktop() {
    let same = RuleFacts {
        reapply: false,
        same_workspace: true,
        was_floating: false,
        floats: false,
        was_ignored: false,
    };
    let ruled = |idx, answer| AnsweredWindow { wid: window(idx), answer, known_after: true };
    let floats = RuleAnswer::Managed(RuleFacts { floats: true, ..same });
    let windows = [
        ruled(1, floats),
        ruled(2, RuleAnswer::Managed(same)),
        ruled(3, RuleAnswer::Rejected { in_layout: true }),
        ruled(4, RuleAnswer::Rejected { in_layout: false }),
        ruled(5, RuleAnswer::Failed),
        AnsweredWindow { known_after: false, ..ruled(6, floats) },
    ];
    assert_eq!(
        process_windows_for_app_rules(space(2), &windows),
        vec![
            RuleStep::Tell(LayoutEvent::WindowRemoved(window(3))),
            RuleStep::ClearAdmission(window(5)),
            RuleStep::Tell(LayoutEvent::WindowObserved(space(2), window(1))),
        ]
    );
    assert!(on_windows_discovered(false, None).is_empty());
    assert_eq!(
        on_windows_discovered(true, Some(window(1))),
        vec![
            DiscoveryStep::TakeIn,
            DiscoveryStep::UpdateStates,
            DiscoveryStep::Freeze(Some(window(1))),
            DiscoveryStep::Emit,
            DiscoveryStep::Apply,
        ]
    );
}
