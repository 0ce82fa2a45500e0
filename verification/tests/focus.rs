use rift::focus::{
    activation_target, begin_layout_response, command_context_space, focus_change_is_pointer_driven,
    focused_window_is_unmanaged, focuses_desktop, focuses_unknown_window, follow_focus_with_mouse,
    follows_dock_click, group_raises, handle_layout_response, last_focused_window_in_space,
    layout_focus_for_command, maybe_auto_switch, mouse_follows_focus_allowed_for, mouse_follows_focus_permitted_for_app,
    note_focus_change, should_raise_on_mouse_over, try_focus_or_warp_without_raise,
    visible_focus_candidate_in_active_workspace, warp_with_focus, Above, ActivationFacts,
    Asked, FocusCandidate, FocusChange, FollowFacts, FollowFocus, Hovered, LayoutResponse, PointerFacts,
    PointerFocus, RaiseWindow, ResponseFacts, ResponseHandling, ResponseStart, ResponseStep,
    ResponseWarp, UnraisedFacts,
};
use rift::events::Quiet;
use rift::ids::{SpaceId, WindowId};
use rift::layout::Direction;
use rift::managers::{
    RefocusState, WorkspaceSwitchManager, WorkspaceSwitchOrigin, WorkspaceSwitchState,
};

const MS: u64 = 1_000_000;

fn window(idx: u32) -> WindowId {
    WindowId::new(1, idx)
}

fn space(n: u64) -> SpaceId {
    SpaceId::new(n)
}

fn pointer() -> PointerFacts {
    PointerFacts {
        button_down: false,
        last_mouse_up: None,
        key_pressed_since: false,
        inside_window: false,
        over_dock: false,
    }
}

#[test]
fn a_click_is_what_changed_focus_for_half_a_second() {
    let clicked = PointerFacts { last_mouse_up: Some(1000 * MS), ..pointer() };
    assert!(focus_change_is_pointer_driven(clicked, 1499 * MS));
    assert!(!focus_change_is_pointer_driven(clicked, 1500 * MS));
    assert!(!focus_change_is_pointer_driven(
        PointerFacts { key_pressed_since: true, ..clicked },
        1001 * MS
    ));
    assert!(focus_change_is_pointer_driven(PointerFacts { button_down: true, ..pointer() }, 0));
    assert!(!focus_change_is_pointer_driven(pointer(), 0));
}

#[test]
fn the_pointer_follows_unless_it_is_there() {
    assert!(mouse_follows_focus_allowed_for(true, pointer(), 0));
    assert!(!mouse_follows_focus_allowed_for(false, pointer(), 0));
    let inside = PointerFacts { inside_window: true, ..pointer() };
    assert!(!mouse_follows_focus_allowed_for(true, inside, 0));
    assert!(mouse_follows_focus_allowed_for(true, PointerFacts { over_dock: true, ..inside }, 0));
    // A file dragged onto the Dock is not dropped elsewhere.
    let held = PointerFacts { button_down: true, over_dock: true, ..pointer() };
    assert!(!mouse_follows_focus_allowed_for(true, held, 0));
}

#[test]
fn an_application_may_opt_out() {
    let list = vec!["com.a".to_string()];
    let id = |name: &str| Some(name.to_string());
    assert!(!mouse_follows_focus_permitted_for_app(true, &list, &id("com.a")));
    assert!(mouse_follows_focus_permitted_for_app(true, &list, &id("com.b")));
    assert!(mouse_follows_focus_permitted_for_app(true, &list, &None));
    assert!(!mouse_follows_focus_permitted_for_app(false, &[], &None));
}

#[test]
fn the_pointer_waits_for_a_workspace_switch() {
    let facts = FollowFacts {
        allowed: true,
        suppressed: false,
        mission_control: false,
        dragging: false,
        modifier_drag: false,
        switch_active: false,
        on_screen: true,
        goes_there: false,
    };
    assert_eq!(follow_focus_with_mouse(facts), FollowFocus::Warp);
    assert_eq!(
        follow_focus_with_mouse(FollowFacts { switch_active: true, ..facts }),
        FollowFocus::AfterSwitch
    );
    for facts in [
        FollowFacts { allowed: false, ..facts },
        FollowFacts { suppressed: true, ..facts },
        FollowFacts { mission_control: true, ..facts },
        FollowFacts { dragging: true, ..facts },
        FollowFacts { modifier_drag: true, ..facts },
        FollowFacts { on_screen: false, ..facts },
        FollowFacts { goes_there: true, ..facts },
    ] {
        assert_eq!(follow_focus_with_mouse(facts), FollowFocus::Stay);
    }
}

#[test]
fn a_return_is_not_followed() {
    let mut left = None;
    let a = Some(window(1));
    let b = Some(window(2));
    assert_eq!(note_focus_change(a, None, &mut left), FocusChange::Left);
    assert_eq!(left, a);
    assert_eq!(note_focus_change(None, a, &mut left), FocusChange::Returned(window(1)));
    assert_eq!(left, None);
    assert_eq!(note_focus_change(a, None, &mut left), FocusChange::Left);
    assert_eq!(note_focus_change(None, b, &mut left), FocusChange::Went(window(2)));
    assert_eq!(note_focus_change(b, a, &mut left), FocusChange::Went(window(1)));
    assert_eq!(note_focus_change(a, a, &mut left), FocusChange::Same);
}

#[test]
fn a_dock_click_on_the_front_tile_is_followed() {
    let name = |n: &str| Some(n.to_string());
    assert!(follows_dock_click(true, true, &name("Mail"), &name("Mail")));
    assert!(!follows_dock_click(false, true, &name("Mail"), &name("Mail")));
    assert!(!follows_dock_click(true, false, &name("Mail"), &name("Mail")));
    assert!(!follows_dock_click(true, true, &name("Mail"), &name("Notes")));
    assert!(!follows_dock_click(true, true, &None, &name("Mail")));
    assert!(!follows_dock_click(true, true, &None, &None));
}

fn candidate(idx: u32) -> FocusCandidate {
    FocusCandidate {
        window: window(idx),
        known: true,
        has_sys_id: true,
        visible: true,
        space: Some(space(1)),
        in_active_workspace: true,
    }
}

#[test]
fn a_hidden_window_is_not_the_last_focused() {
    let last = |c| last_focused_window_in_space(c, space(1));
    assert_eq!(last(Some(candidate(1))), Some(window(1)));
    assert_eq!(last(Some(FocusCandidate { visible: false, ..candidate(1) })), None);
    assert_eq!(
        last(Some(FocusCandidate { visible: false, has_sys_id: false, ..candidate(1) })),
        Some(window(1))
    );
    assert_eq!(last(Some(FocusCandidate { space: Some(space(2)), ..candidate(1) })), None);
    assert_eq!(last(None), None);
}

#[test]
fn the_window_to_focus_can_be_seen() {
    let hidden = FocusCandidate { visible: false, ..candidate(1) };
    let pick = |preferred, last, windows: &[FocusCandidate]| {
        visible_focus_candidate_in_active_workspace(space(1), preferred, last, windows)
    };
    assert_eq!(pick(Some(candidate(1)), Some(candidate(2)), &[]), Some(window(1)));
    assert_eq!(pick(Some(hidden), Some(candidate(2)), &[candidate(3)]), Some(window(2)));
    assert_eq!(pick(Some(hidden), Some(hidden), &[hidden, candidate(3)]), Some(window(3)));
    assert_eq!(pick(None, None, &[hidden]), None);
}

#[test]
fn a_float_in_front_is_not_covered() {
    let hovered = Hovered {
        known: true,
        admitted: true,
        floating: false,
        menu_open: false,
        in_active_workspace: true,
        number: Some(5),
        level: Some(0),
        sub_level: 0,
    };
    let float = Above { number: 9, floating: true, inside: true, level: Some(0), sub_level: 0 };
    let itself = Above { number: 5, floating: false, inside: true, level: Some(0), sub_level: 0 };
    assert!(!should_raise_on_mouse_over(hovered, &[float, itself]));
    assert!(should_raise_on_mouse_over(hovered, &[itself, float]));
    assert!(should_raise_on_mouse_over(hovered, &[Above { level: Some(3), ..float }, itself]));
    assert!(should_raise_on_mouse_over(hovered, &[Above { level: None, ..float }, itself]));
    assert!(should_raise_on_mouse_over(hovered, &[Above { inside: false, ..float }, itself]));
    assert!(should_raise_on_mouse_over(Hovered { number: None, ..hovered }, &[float]));
    assert!(!should_raise_on_mouse_over(Hovered { menu_open: true, ..hovered }, &[itself]));
    assert!(!should_raise_on_mouse_over(Hovered { admitted: false, ..hovered }, &[itself]));
    assert!(should_raise_on_mouse_over(
        Hovered { admitted: false, floating: true, ..hovered },
        &[itself]
    ));
    assert!(!should_raise_on_mouse_over(Hovered { in_active_workspace: false, ..hovered }, &[]));
}

#[test]
fn a_workspace_follows_an_activation_the_user_made() {
    let facts = ActivationFacts {
        suppressed: false,
        switch_settling: false,
        manual_switch: false,
        fullscreen: false,
        from_unmanaged: false,
        follows: true,
        window: Some(window(1)),
        space: Some(space(1)),
    };
    assert_eq!(activation_target(facts), Some((window(1), space(1))));
    for facts in [
        ActivationFacts { suppressed: true, ..facts },
        ActivationFacts { switch_settling: true, ..facts },
        ActivationFacts { manual_switch: true, ..facts },
        ActivationFacts { fullscreen: true, ..facts },
        ActivationFacts { from_unmanaged: true, ..facts },
        ActivationFacts { follows: false, ..facts },
        ActivationFacts { window: None, ..facts },
        ActivationFacts { space: None, ..facts },
    ] {
        assert_eq!(activation_target(facts), None);
    }
    assert_eq!(maybe_auto_switch(Some(8), Some(7), &[6, 7, 8, 8]), Some(2));
    assert_eq!(maybe_auto_switch(Some(8), Some(8), &[8]), None);
    assert_eq!(maybe_auto_switch(Some(9), Some(8), &[8]), None);
    assert_eq!(maybe_auto_switch(None, Some(8), &[8]), None);
}

fn response_facts() -> ResponseFacts {
    ResponseFacts {
        dragging: false,
        boundary_hit: None,
        propagate: true,
        invert_horizontal: false,
        switch_space: None,
        command_space: Some(space(4)),
    }
}

#[test]
fn a_drag_ends_a_workspace_switch() {
    let mut refocus = RefocusState::Pending(space(1));
    let mut switch = WorkspaceSwitchManager::new();
    switch.start_workspace_switch(WorkspaceSwitchOrigin::Manual);
    let facts = ResponseFacts { dragging: true, ..response_facts() };
    assert_eq!(
        begin_layout_response(facts, &mut refocus, &mut switch),
        ResponseStart::Dragging
    );
    assert_eq!(switch.workspace_switch_state, WorkspaceSwitchState::Inactive);
    assert_eq!(refocus, RefocusState::Pending(space(1)));
    assert_eq!(
        begin_layout_response(response_facts(), &mut refocus, &mut switch),
        ResponseStart::Continue { pending: Some(space(1)) }
    );
    assert_eq!(refocus, RefocusState::Idle);
}

#[test]
fn leaving_at_an_edge_switches_workspaces() {
    let mut refocus = RefocusState::Idle;
    let mut switch = WorkspaceSwitchManager::new();
    let mut start = |facts| begin_layout_response(facts, &mut refocus, &mut switch);
    let left = ResponseFacts { boundary_hit: Some(Direction::Left), ..response_facts() };
    let right = ResponseFacts { boundary_hit: Some(Direction::Right), ..response_facts() };
    let to = |next| ResponseStart::SwitchWorkspace { next, space: space(4) };
    assert_eq!(start(left), to(false));
    assert_eq!(start(right), to(true));
    assert_eq!(start(ResponseFacts { invert_horizontal: true, ..left }), to(true));
    assert_eq!(start(ResponseFacts { invert_horizontal: true, ..right }), to(false));
    let stay = ResponseStart::Continue { pending: None };
    assert_eq!(start(ResponseFacts { propagate: false, ..left }), stay);
    assert_eq!(start(ResponseFacts { boundary_hit: Some(Direction::Up), ..left }), stay);
    assert_eq!(start(ResponseFacts { command_space: None, ..left }), stay);
    assert_eq!(
        start(ResponseFacts { switch_space: Some(space(5)), ..left }),
        ResponseStart::SwitchWorkspace { next: false, space: space(5) }
    );
}

fn response() -> LayoutResponse {
    LayoutResponse {
        raises: false,
        asked: None,
        focus: None,
        switch_space: None,
        pending: None,
        handled: false,
        hidden: false,
    }
}

fn unraised() -> UnraisedFacts {
    UnraisedFacts {
        switch_active: false,
        under_pointer: None,
        main_window: None,
        switch_space: None,
        switch_space_empty: false,
        command_space: Some(space(4)),
        pending: None,
        last_focused: None,
    }
}

#[test]
fn a_waiting_desktop_gets_its_last_focus() {
    let mut waiting = LayoutResponse { pending: Some(space(1)), ..response() };
    let facts = UnraisedFacts { pending: Some(space(1)), last_focused: Some(window(3)), ..unraised() };
    assert_eq!(waiting.stand_in(facts), ResponseStep::Look(window(3)));
    assert_eq!(waiting.pending, None);
    assert_eq!(waiting.looked(true, true, true), ResponseStep::Finish);
    assert_eq!(waiting.focus, Some(window(3)));

    let mut waiting = LayoutResponse { pending: Some(space(1)), ..response() };
    let facts = UnraisedFacts { last_focused: None, ..facts };
    assert_eq!(waiting.stand_in(facts), ResponseStep::UnderPointer(Some(space(1))));
    assert_eq!(waiting.pointed(PointerFocus::Warp(space(1))), ResponseStep::Finish);
    assert!(waiting.handled);
}

#[test]
fn a_waiting_desktop_waits_through_other_raises() {
    let mut refocus = RefocusState::Idle;
    let mut switch = WorkspaceSwitchManager::new();
    let mut raising = LayoutResponse { raises: true, pending: Some(space(1)), ..response() };
    let facts = UnraisedFacts { pending: Some(space(1)), last_focused: Some(window(3)), ..unraised() };
    assert_eq!(raising.stand_in(facts), ResponseStep::Finish);
    assert!(!raising.finish(&mut refocus, &mut switch));
    assert_eq!(refocus, RefocusState::Pending(space(1)));
}

#[test]
fn a_switch_to_an_empty_workspace_focuses_the_desktop() {
    let mut refocus = RefocusState::Idle;
    let mut switch = WorkspaceSwitchManager::new();
    switch.start_workspace_switch(WorkspaceSwitchOrigin::Manual);
    let mut empty = LayoutResponse { switch_space: Some(space(2)), ..response() };
    let facts = UnraisedFacts {
        switch_active: true,
        switch_space: Some(space(2)),
        switch_space_empty: true,
        ..unraised()
    };
    assert_eq!(empty.stand_in(facts), ResponseStep::FocusDesktop(space(2)));
    assert_eq!(empty.desktop_focused(true), ResponseStep::Finish);
    assert!(empty.finish(&mut refocus, &mut switch));
    assert_eq!(switch.workspace_switch_state, WorkspaceSwitchState::Inactive);
    let full = UnraisedFacts { switch_space_empty: false, ..facts };
    assert_eq!(empty.stand_in(full), ResponseStep::UnderPointer(Some(space(2))));
    let over = UnraisedFacts { under_pointer: Some(window(1)), ..full };
    assert_eq!(response().stand_in(over), ResponseStep::Look(window(1)));
    let main = UnraisedFacts { main_window: Some(window(1)), ..over };
    assert_eq!(response().stand_in(main), ResponseStep::Finish);
}

#[test]
fn a_hidden_window_is_not_focused() {
    let mut hidden = LayoutResponse { focus: Some(window(1)), ..response() };
    assert_eq!(hidden.stand_in(unraised()), ResponseStep::Look(window(1)));
    assert_eq!(hidden.looked(true, false, true), ResponseStep::Finish);
    assert_eq!(hidden.focus, None);

    let mut switching =
        LayoutResponse { focus: Some(window(1)), switch_space: Some(space(2)), ..response() };
    assert_eq!(switching.looked(true, false, true), ResponseStep::UnderPointer(Some(space(2))));
    assert_eq!(switching.pointed(PointerFocus::Handled), ResponseStep::Finish);
    assert!(!switching.handled);
    assert_eq!(switching.pointed(PointerFocus::Window(window(2))), ResponseStep::Finish);
    assert_eq!(switching.focus, Some(window(2)));

    let mut elsewhere = LayoutResponse { focus: Some(window(1)), ..response() };
    assert_eq!(elsewhere.looked(true, true, false), ResponseStep::Finish);
    assert_eq!(elsewhere.focus, None);
    let mut unnumbered = LayoutResponse { focus: Some(window(1)), ..response() };
    assert_eq!(unnumbered.looked(false, false, false), ResponseStep::Finish);
    assert_eq!(unnumbered.focus, Some(window(1)));
}

#[test]
fn what_is_under_the_pointer_stands_in_for_focus() {
    let at = Some(space(1));
    assert_eq!(
        try_focus_or_warp_without_raise(Some(window(1)), true, true, at, true),
        PointerFocus::Window(window(1))
    );
    assert_eq!(try_focus_or_warp_without_raise(None, true, true, at, true), PointerFocus::Handled);
    assert_eq!(
        try_focus_or_warp_without_raise(None, false, true, at, true),
        PointerFocus::Warp(space(1))
    );
    assert_eq!(try_focus_or_warp_without_raise(None, false, false, at, true), PointerFocus::Nothing);
    assert_eq!(try_focus_or_warp_without_raise(None, false, true, at, false), PointerFocus::Nothing);
    assert_eq!(try_focus_or_warp_without_raise(None, false, true, None, true), PointerFocus::Nothing);
}

#[test]
fn windows_are_raised_by_application_and_desktop() {
    let raise = |pid, idx, n: u64, space_active| RaiseWindow {
        window: WindowId::new(pid, idx),
        space: Some(space(n)),
        space_active,
    };
    let groups = group_raises(&[
        raise(1, 1, 1, true),
        raise(2, 1, 1, true),
        raise(1, 2, 1, true),
        raise(1, 3, 2, true),
        raise(1, 4, 3, false),
    ]);
    let listed: Vec<Vec<u32>> =
        groups.iter().map(|g| g.windows.iter().map(|w| w.idx).collect()).collect();
    assert_eq!(listed, vec![vec![1, 2], vec![1], vec![3]]);
    assert_eq!(groups[1].pid, 2);
}

#[test]
fn the_pointer_goes_with_focus_once_a_switch_is_over() {
    let mut switch = WorkspaceSwitchManager::new();
    assert_eq!(warp_with_focus(true, window(1), &mut switch), ResponseWarp::Warp);
    assert_eq!(switch.pending_workspace_mouse_warp, None);
    switch.start_workspace_switch(WorkspaceSwitchOrigin::Auto);
    assert_eq!(warp_with_focus(false, window(1), &mut switch), ResponseWarp::Stay);
    assert_eq!(warp_with_focus(true, window(1), &mut switch), ResponseWarp::AfterSwitch);
    assert_eq!(switch.pending_workspace_mouse_warp, Some(window(1)));
}

#[test]
fn only_ordinary_unknown_windows_are_focused() {
    assert!(focuses_unknown_window(false, Some(0)));
    assert!(!focuses_unknown_window(false, Some(25)));
    assert!(!focuses_unknown_window(true, Some(0)));
    assert!(!focuses_unknown_window(false, None));
    assert!(focuses_desktop(true, true, true));
    assert!(!focuses_desktop(true, false, true));
}

#[test]
fn a_command_is_not_for_a_stale_window() {
    let front = Some(window(1));
    assert!(focused_window_is_unmanaged(front, false, None, front));
    assert!(!focused_window_is_unmanaged(front, true, None, None));
    assert!(focused_window_is_unmanaged(None, false, Some(2), front));
    assert!(!focused_window_is_unmanaged(None, false, Some(1), front));
    assert!(!focused_window_is_unmanaged(None, false, None, front));
    let at = Some(space(1));
    assert_eq!(
        layout_focus_for_command(front, true, Some(window(2)), at, true),
        Some((space(1), window(1)))
    );
    assert_eq!(layout_focus_for_command(front, true, front, at, true), None);
    assert_eq!(layout_focus_for_command(front, false, None, at, true), None);
    assert_eq!(layout_focus_for_command(front, true, None, at, false), None);
    assert_eq!(layout_focus_for_command(None, true, None, at, true), None);
}

#[test]
fn commands_are_for_the_active_desktop_of_something() {
    let (a, b, c) = (Some(space(1)), Some(space(2)), Some(space(3)));
    assert_eq!(command_context_space(a, b, true, c, true), a);
    assert_eq!(command_context_space(None, b, true, c, true), b);
    assert_eq!(command_context_space(None, b, false, c, true), c);
    assert_eq!(command_context_space(None, b, false, c, false), None);
}

fn seen(idx: u32, n: u64) -> FocusCandidate {
    FocusCandidate {
        window: window(idx),
        known: true,
        has_sys_id: true,
        visible: true,
        space: Some(space(n)),
        in_active_workspace: true,
    }
}

#[test]
fn a_drag_raises_nothing() {
    let mut refocus = RefocusState::Pending(space(1));
    let mut switch = WorkspaceSwitchManager::new();
    switch.start_workspace_switch(WorkspaceSwitchOrigin::Manual);
    let facts = ResponseFacts { dragging: true, ..response_facts() };
    let asked = Asked { raises: true, preferred: Some(seen(1, 2)), last: None };
    assert_eq!(
        handle_layout_response(facts, asked, &[], &mut refocus, &mut switch),
        ResponseHandling::Dragging
    );
    assert_eq!(refocus, RefocusState::Pending(space(1)));
    assert_eq!(switch.workspace_switch_state, WorkspaceSwitchState::Inactive);
}

#[test]
fn a_switch_focuses_what_can_be_seen_there() {
    let mut switch = WorkspaceSwitchManager::new();
    let facts = ResponseFacts { switch_space: Some(space(2)), ..response_facts() };
    let mut focus = |active: bool, asked: Asked, windows: &[FocusCandidate]| {
        if active {
            switch.start_workspace_switch(WorkspaceSwitchOrigin::Manual);
        } else {
            switch.mark_workspace_switch_inactive();
        }
        let mut refocus = RefocusState::Pending(space(7));
        match handle_layout_response(facts, asked, windows, &mut refocus, &mut switch) {
            ResponseHandling::CarryOut(response) => {
                assert_eq!(response.pending, Some(space(7)));
                assert_eq!(response.switch_space, Some(space(2)));
                assert_eq!(response.asked, response.focus);
                assert!(!response.handled && !response.hidden);
                response.focus
            }
            other => panic!("{other:?}"),
        }
    };
    let asked = Asked { raises: false, preferred: Some(seen(1, 2)), last: Some(seen(2, 2)) };
    assert_eq!(focus(true, asked, &[seen(3, 2)]), Some(window(1)));
    let elsewhere = Asked { preferred: Some(seen(1, 9)), ..asked };
    assert_eq!(focus(true, elsewhere, &[seen(3, 2)]), Some(window(2)));
    let neither = Asked { last: None, ..elsewhere };
    assert_eq!(focus(true, neither, &[seen(4, 9), seen(3, 2)]), Some(window(3)));
    assert_eq!(focus(true, neither, &[]), None);
    assert_eq!(focus(false, elsewhere, &[seen(3, 2)]), Some(window(1)));
}

#[test]
fn only_windows_on_active_desktops_are_raised() {
    let raise = |pid, idx, n: u64, space_active| RaiseWindow {
        window: WindowId::new(pid, idx),
        space: Some(space(n)),
        space_active,
    };
    let raises = [raise(1, 1, 1, true), raise(3, 2, 9, false), raise(1, 3, 1, true)];
    let plain = LayoutResponse {
        raises: true,
        asked: Some(WindowId::new(5, 1)),
        focus: Some(window(8)),
        ..response()
    };
    let request = plain.raise_request(&raises, true);
    assert_eq!(request.groups.len(), 1);
    assert_eq!(request.groups[0].windows, vec![window(1), window(3)]);
    assert_eq!(request.focus, Some(window(8)));
    assert_eq!(request.quiet, Quiet::No);
    assert_eq!(request.apps, vec![1, 3, 5]);
    assert_eq!(request.commit, None);
    assert_eq!(plain.raise_request(&raises, false).focus, None);

    let switching = LayoutResponse { switch_space: Some(space(2)), ..plain };
    let request = switching.raise_request(&[], true);
    assert_eq!(request.quiet, Quiet::Yes);
    assert_eq!(request.commit, Some((space(2), Some(window(8)))));
    assert_eq!(switching.raise_request(&[], false).commit, Some((space(2), None)));
}

#[test]
fn a_response_is_completed_with_a_request() {
    let mut refocus = RefocusState::Idle;
    let mut switch = WorkspaceSwitchManager::new();
    assert!(response().complete(&[], true, true, &mut refocus, &mut switch).is_none());
    let focusing =
        LayoutResponse { focus: Some(window(1)), pending: Some(space(3)), ..response() };
    let (request, warp) =
        focusing.complete(&[], true, true, &mut refocus, &mut switch).unwrap();
    assert_eq!((request.focus, warp), (Some(window(1)), ResponseWarp::Warp));
    assert_eq!(refocus, RefocusState::Pending(space(3)));
    let (_, warp) = focusing.complete(&[], false, true, &mut refocus, &mut switch).unwrap();
    assert_eq!(warp, ResponseWarp::Stay);

    switch.start_workspace_switch(WorkspaceSwitchOrigin::Manual);
    let (_, warp) = focusing.complete(&[], true, true, &mut refocus, &mut switch).unwrap();
    assert_eq!(warp, ResponseWarp::AfterSwitch);
    assert_eq!(switch.pending_workspace_mouse_warp, Some(window(1)));
    let handled = LayoutResponse { handled: true, ..response() };
    assert!(handled.complete(&[], true, true, &mut refocus, &mut switch).is_none());
    assert_eq!(switch.workspace_switch_state, WorkspaceSwitchState::Inactive);
}
