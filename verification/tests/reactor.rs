use rift::commands::{
    AnimationEasing, Command, ConfigCommand, DisplaySelector, LayoutCommand, LegacyCommand, LegacyReactorCommand,
    MetricsCommand, ReactorCommand, RiftCommand, Vocabulary,
};
use rift::drag::MouseAction;
use rift::events::{Event, MouseState, Quiet, SnapshotReleases, SpaceEventKind};
use rift::ids::{SpaceId, WindowId, WindowServerId};
use rift::layout::Direction;
use rift::managers::{ActorId, AppState, Lifecycle, MenuState, WindowInventoryToken};
use rift::reactor::{Admission, Dispatch, DispatchFacts, Entry, Reactor, Route, SnapshotDue};

struct Words;

impl Vocabulary for Words {
    type Number = f64;
    type Value = String;
    type ResizeOrientation = u8;
    type RotateDegrees = u16;
    type MirrorAxis = u8;
    type WorkspaceSelector = usize;
    type RestoreScope = u8;
    type RestoreSource = u8;
}

type Ev = Event<Words>;

fn window(idx: u32) -> WindowId {
    WindowId::new(7, idx)
}

fn space(n: u64) -> SpaceId {
    SpaceId::new(n)
}

fn facts() -> DispatchFacts {
    DispatchFacts {
        raised: Some(window(9)),
        was_front: false,
        is_front: false,
        layout_focus: None,
        window_known: true,
        space_active: true,
    }
}

fn with_app(bundle_id: &str) -> Reactor {
    let mut reactor = Reactor::new();
    reactor.apps.apps.insert(
        7,
        AppState { handle: ActorId(1), bundle_id: Some(bundle_id.to_string()) },
    );
    reactor
}

fn dispatch(reactor: &mut Reactor, event: Ev) -> Dispatch {
    reactor.dispatch_workflow(&event, facts())
}

#[test]
fn churned_events_are_dropped() {
    let reactor = Reactor::new();
    assert_eq!(reactor.admission(&Ev::Query, true), Admission::Answer);
    assert_eq!(reactor.admission(&Ev::WindowDestroyed(window(3)), true), Admission::Drop);
    assert_eq!(
        reactor.admission(&Ev::WindowDestroyed(window(3)), false),
        Admission::Handle(Some(3))
    );
    assert_eq!(reactor.admission(&Ev::MouseUp, true), Admission::Handle(None));
    assert_eq!(
        reactor.admission(
            &Ev::WindowServerAppeared(WindowServerId::new(4), space(1), SpaceEventKind::User),
            false
        ),
        Admission::Handle(Some(4))
    );
}

#[test]
fn desktops_that_come_and_go_wait_for_the_snapshot() {
    let mut reactor = Reactor::new();
    assert_eq!(reactor.admission(&Ev::SpaceCreated(space(1)), false), Admission::Handle(None));
    reactor.enter(&Ev::SystemWillSleep);
    assert_eq!(reactor.admission(&Ev::SpaceCreated(space(1)), false), Admission::Drop);
    assert_eq!(reactor.admission(&Ev::SpaceDestroyed(space(1)), false), Admission::Drop);
    assert_eq!(
        reactor.admission(&Ev::WindowCreated(window(1)), false),
        Admission::Handle(Some(1))
    );
}

#[test]
fn a_wake_is_all_that_is_done_about_it() {
    let mut reactor = Reactor::new();
    assert_eq!(
        reactor.enter(&Ev::SystemWoke),
        Entry::Lifecycle { change: Lifecycle::Woke, refresh: false }
    );
    assert!(reactor.quarantine.suppress_auto_workspace_switch_until_input);
    assert_eq!(reactor.enter(&Ev::WindowMinimized(window(1))), Entry::Dispatch);
    assert!(reactor.quarantine.suppress_auto_workspace_switch_until_input);
    assert_eq!(reactor.enter(&Ev::MouseUp), Entry::Dispatch);
    assert!(!reactor.quarantine.suppress_auto_workspace_switch_until_input);
    assert_eq!(
        reactor.enter(&Ev::DisplayHomingDeadline("record".to_string())),
        Entry::HomingDeadline
    );
}

#[test]
fn a_snapshot_lifts_the_quarantine() {
    let mut reactor = Reactor::new();
    reactor.enter(&Ev::SystemWoke);
    reactor.enter(&Ev::DisplayChurnBegin);
    let releases = SnapshotReleases { lifecycle: true, display_churn: true };
    let ends = reactor.begin_snapshot(releases, true);
    assert!(ends);
    assert_eq!(reactor.inventories.topology_revision, 1);
    assert_eq!(
        reactor.end_snapshot(releases, ends),
        SnapshotDue { refresh_after_wake: false, refresh_after_churn: true, drop_own_refresh: true }
    );
    assert!(!reactor.quarantine.blocks_refreshes());
    let nothing = SnapshotReleases { lifecycle: false, display_churn: false };
    assert!(!reactor.begin_snapshot(nothing, false));
    assert_eq!(
        reactor.end_snapshot(nothing, false),
        SnapshotDue { refresh_after_wake: false, refresh_after_churn: false, drop_own_refresh: false }
    );
}

#[test]
fn inventories_in_flight_through_an_instability_are_asked_for_again() {
    let mut reactor = with_app("app");
    let token = reactor.request_window_inventory(7).unwrap();
    reactor.inventories.sent(7, token);
    reactor.enter(&Ev::DisplayChurnBegin);
    let ends = reactor.begin_snapshot(SnapshotReleases { lifecycle: false, display_churn: true }, false);
    assert!(ends);
    assert!(!reactor.inventories.in_flight.contains_key(&7));
    assert!(reactor.inventories.pending.contains(7));
}

#[test]
fn all_applications_are_asked_unless_blocked() {
    let mut reactor = with_app("app");
    assert_eq!(reactor.request_window_inventories(false), vec![7]);
    assert_eq!(reactor.request_window_inventories(true), Vec::<i32>::new());
    assert!(reactor.quarantine.pending_inventory_refresh);
    assert!(reactor.note_mouse_up(12));
    assert_eq!(reactor.last_mouse_up, Some(12));
    assert!(!reactor.note_mouse_up(13));
    reactor.enter(&Ev::SystemWillSleep);
    assert_eq!(reactor.request_window_inventories(false), Vec::<i32>::new());
    assert!(!reactor.note_mouse_up(14));
}

#[test]
fn a_repeated_activation_does_nothing() {
    let mut reactor = with_app("app");
    reactor.menu.menu_state = MenuState::Open(8);
    let event = Ev::ApplicationGloballyActivated(7);
    let front = DispatchFacts { was_front: true, ..facts() };
    let done = reactor.dispatch_workflow(&event, front);
    assert_eq!(
        done,
        Dispatch { route: Route::Focus { notify: false }, focused: None, ask: None, menu_closed: false }
    );
    let done = reactor.dispatch_workflow(&event, facts());
    assert_eq!(done.route, Route::TellActivated { tell: true });
    assert!(done.menu_closed);
    assert_eq!(reactor.menu.menu_state, MenuState::Closed);
    assert_eq!(
        dispatch(&mut with_app("com.apple.loginwindow"), Ev::ApplicationGloballyActivated(7)).route,
        Route::TellActivated { tell: false }
    );
    assert_eq!(
        dispatch(&mut Reactor::new(), Ev::ApplicationGloballyActivated(7)).route,
        Route::TellActivated { tell: false }
    );
}

#[test]
fn applications_come_and_go() {
    let mut reactor = with_app("app");
    let launched = reactor.dispatch_workflow(
        &Ev::ApplicationLaunched { pid: 7 },
        DispatchFacts { is_front: true, ..facts() },
    );
    assert_eq!(launched.route, Route::Launched { tell_front: true });
    assert_eq!(launched.focused, Some(window(9)));
    assert_eq!(dispatch(&mut reactor, Ev::ApplicationTerminated(7)).route, Route::Terminated);
    reactor.menu.menu_state = MenuState::Open(7);
    let ended = dispatch(&mut reactor, Ev::ApplicationThreadTerminated(7));
    assert_eq!((ended.route, ended.menu_closed, ended.focused), (Route::ThreadTerminated, true, None));
    assert_eq!(
        dispatch(&mut reactor, Ev::ApplicationActivated(7, Quiet::No)).route,
        Route::Activated { follow: true }
    );
    assert_eq!(
        dispatch(&mut reactor, Ev::ApplicationActivated(7, Quiet::Yes)).route,
        Route::Activated { follow: false }
    );
    reactor.menu.menu_state = MenuState::Open(7);
    let away = dispatch(&mut reactor, Ev::ApplicationDeactivated(7));
    assert_eq!((away.route, away.menu_closed), (Route::Focus { notify: false }, true));
    assert_eq!(away.focused, Some(window(9)));
}

#[test]
fn focus_of_the_window_server_reaches_the_layout() {
    let mut reactor = with_app("app");
    let event = Ev::WindowServerFocusChanged(window(1), space(2));
    let there = DispatchFacts { layout_focus: Some(window(1)), ..facts() };
    assert_eq!(reactor.dispatch_workflow(&event, there).route, Route::EnforceHidden);
    let unknown = DispatchFacts { window_known: false, ..facts() };
    let asked = reactor.dispatch_workflow(&event, unknown);
    assert_eq!(asked.route, Route::Ask);
    assert_eq!(asked.ask, Some(WindowInventoryToken { request_id: 1, topology_revision: 0 }));
    assert_eq!(
        reactor.dispatch_workflow(&event, facts()).route,
        Route::FocusLayout { space: space(2), window: window(1) }
    );
    let inactive = DispatchFacts { space_active: false, ..facts() };
    assert_eq!(reactor.dispatch_workflow(&event, inactive).route, Route::Nothing);
}

#[test]
fn a_raise_that_missed_is_made_good() {
    let mut reactor = with_app("app");
    let none = Ev::RaiseTargetsMissing { windows: vec![], sequence_id: 1 };
    assert_eq!(dispatch(&mut reactor, none).route, Route::Nothing);
    let missed = Ev::RaiseTargetsMissing { windows: vec![window(1), window(2)], sequence_id: 1 };
    let done = dispatch(&mut reactor, missed);
    assert_eq!(done.route, Route::GiveUpRaises);
    let token = done.ask.unwrap();
    reactor.inventories.sent(7, token);
    let found = Ev::WindowsDiscovered { pid: 7, token, successful: true, new: vec![window(1)] };
    assert_eq!(dispatch(&mut reactor, found).route, Route::Discovered { arrange: true });
    let again = Ev::WindowsDiscovered { pid: 7, token, successful: true, new: vec![window(1)] };
    assert_eq!(dispatch(&mut reactor, again).route, Route::Discard);
}

#[test]
fn an_inventory_of_an_old_topology_is_asked_for_again() {
    let mut reactor = with_app("app");
    let token = dispatch(&mut reactor, Ev::WindowInventoryRefreshRequested(7)).ask.unwrap();
    reactor.inventories.sent(7, token);
    reactor.begin_snapshot(SnapshotReleases { lifecycle: false, display_churn: false }, true);
    let stale = Ev::WindowsDiscovered { pid: 7, token, successful: true, new: vec![] };
    let done = dispatch(&mut reactor, stale);
    assert_eq!(done.route, Route::Discard);
    assert_eq!(done.focused, None);
    assert_eq!(done.ask, Some(WindowInventoryToken { request_id: 2, topology_revision: 1 }));
}

#[test]
fn a_quarantined_window_stays() {
    let mut reactor = Reactor::new();
    let gone = dispatch(&mut reactor, Ev::WindowDestroyed(window(1)));
    assert_eq!((gone.route, gone.focused), (Route::TakeIn, Some(window(9))));
    reactor.enter(&Ev::SystemWillSleep);
    let kept = dispatch(&mut reactor, Ev::WindowDestroyed(window(1)));
    assert_eq!((kept.route, kept.focused), (Route::Nothing, None));
}

#[test]
fn other_events_find_their_way() {
    let mut reactor = Reactor::new();
    let route = |reactor: &mut Reactor, event| dispatch(reactor, event).route;
    assert_eq!(route(&mut reactor, Ev::MouseUp), Route::MouseUp);
    assert_eq!(route(&mut reactor, Ev::RegisterWmSender), Route::RegisterSender);
    assert_eq!(
        route(
            &mut reactor,
            Ev::SpaceStateChanged(SnapshotReleases { lifecycle: false, display_churn: false })
        ),
        Route::Snapshot
    );
    assert_eq!(
        route(&mut reactor, Ev::WindowFrameChanged(window(1), Some(MouseState::Down))),
        Route::FrameReport
    );
    assert_eq!(
        route(
            &mut reactor,
            Ev::MouseModifierDragBegin { window: WindowServerId::new(1), action: MouseAction::Move }
        ),
        Route::ModifierBegin
    );
    let number = WindowServerId::new(1);
    for (event, expected) in [
        (Ev::MouseModifierDrag, Route::ModifierMoved),
        (Ev::MouseDragged, Route::Dragged),
        (Ev::MouseMoved(number), Route::Hovered),
        (Ev::WindowServerVisibilityChanged(number, true), Route::Visibility),
        (Ev::WindowDeminiaturized(window(1)), Route::Deminiaturized),
        (Ev::WindowServerAppeared(number, space(1), SpaceEventKind::User), Route::Appeared),
        (Ev::WindowServerDestroyed(number, space(1), SpaceEventKind::User), Route::TakeIn),
        (Ev::WindowTitleChanged(window(1)), Route::TakeIn),
    ] {
        assert_eq!(route(&mut reactor, event), expected);
    }
    assert_eq!(
        route(&mut reactor, Ev::ApplicationMainWindowChanged(7, None, Quiet::No)),
        Route::Focus { notify: false }
    );
    assert_eq!(
        route(&mut reactor, Ev::Command(Command::Reactor(ReactorCommand::Serialize))),
        Route::Command
    );
    let along = ReactorCommand::MoveWorkspaceToDisplay {
        selector: DisplaySelector::Direction(Direction::Left),
        wrap_around: true,
    };
    assert_eq!(route(&mut reactor, Ev::Command(Command::Reactor(along))), Route::Command);
    // What is dealt with on entry asks for nothing more.
    for event in [
        Ev::SystemWillSleep,
        Ev::SystemWoke,
        Ev::DisplayHomingDeadline("lg".to_string()),
    ] {
        let done = dispatch(&mut reactor, event);
        assert_eq!(
            done,
            Dispatch { route: Route::Nothing, focused: None, ask: None, menu_closed: false }
        );
    }
    let changed = Ev::ActiveDisplayChanged { menu_bar_space: Some(space(1)), command_space: Some(space(2)) };
    assert_eq!(route(&mut reactor, changed), Route::Nothing);
    assert_eq!(reactor.menu_bar_space, Some(space(1)));
    assert_eq!(reactor.command_space, Some(space(2)));
}

#[test]
fn a_failed_command_is_told_once() {
    let mut reactor = Reactor::new();
    reactor.begin_command();
    reactor.fail_command("no".to_string());
    assert_eq!(reactor.command_result(), Err("no".to_string()));
    assert_eq!(reactor.command_result(), Ok(()));
}

#[test]
fn what_an_event_is_about_is_known() {
    let layout = |command| Ev::Command(Command::Layout(command));
    let intent = |event: Ev| event.explicit_window_intent(Some(window(1)), Some(window(2)), Some(window(3)));
    assert_eq!(intent(layout(LayoutCommand::ToggleFullscreen)), vec![window(1)]);
    assert_eq!(intent(layout(LayoutCommand::NextWindow)), vec![]);
    assert_eq!(
        intent(layout(LayoutCommand::SwapWindows(window(4), window(5)))),
        vec![window(4), window(5)]
    );
    assert_eq!(intent(Ev::MouseUp), vec![window(2)]);
    assert_eq!(
        intent(Ev::MouseModifierDragBegin { window: WindowServerId::new(1), action: MouseAction::Resize }),
        vec![window(3)]
    );
    assert_eq!(intent(Ev::MouseDragged), vec![]);
    assert_eq!(
        layout(LayoutCommand::MoveNode(Direction::Up)).explicit_window_intent(None, None, None),
        vec![]
    );
}

#[test]
fn focus_on_a_child_is_focus_on_its_window() {
    match Ev::WindowServerFocusChanged(window(1), space(1)).retarget_focus(window(5)) {
        Event::WindowServerFocusChanged(root, at) => assert_eq!((root, at), (window(5), space(1))),
        _ => unreachable!(),
    }
    match Ev::ApplicationMainWindowChanged(7, None, Quiet::No).retarget_focus(window(5)) {
        Event::ApplicationMainWindowChanged(_, main, _) => assert_eq!(main, None),
        _ => unreachable!(),
    }
    match Ev::ApplicationMainWindowChanged(7, Some(window(1)), Quiet::No).retarget_focus(window(5)) {
        Event::ApplicationMainWindowChanged(_, main, _) => assert_eq!(main, Some(window(5))),
        _ => unreachable!(),
    }
    assert!(Ev::WindowCreated(window(1)).should_update_notifications());
    assert!(!Ev::WindowMinimized(window(1)).should_update_notifications());
}

#[test]
fn commands_of_the_older_form_are_understood() {
    let layout: LegacyCommand<Words> =
        LegacyCommand::Reactor(LegacyReactorCommand::Layout(LayoutCommand::Balance));
    assert!(matches!(RiftCommand::from_legacy(layout), RiftCommand::Layout(LayoutCommand::Balance)));
    let metrics: LegacyCommand<Words> =
        LegacyCommand::Reactor(LegacyReactorCommand::Metrics(MetricsCommand::ShowTiming));
    assert!(matches!(
        RiftCommand::from_legacy(metrics),
        RiftCommand::Metrics(MetricsCommand::ShowTiming)
    ));
    let reactor: LegacyCommand<Words> =
        LegacyCommand::Reactor(LegacyReactorCommand::Reactor(ReactorCommand::CreateSpace));
    assert!(matches!(
        RiftCommand::from_legacy(reactor),
        RiftCommand::Reactor(ReactorCommand::CreateSpace)
    ));
    let config: LegacyCommand<Words> = LegacyCommand::Config(ConfigCommand::GetConfig);
    assert!(matches!(
        RiftCommand::from_legacy(config),
        RiftCommand::Config(ConfigCommand::GetConfig)
    ));
    assert_eq!(AnimationEasing::default(), AnimationEasing::EaseInOut);
}

#[test]
fn commands_on_the_focused_window_are_told_apart() {
    let targets = |command: LayoutCommand<Words>| command.targets_focused_window();
    assert!(targets(LayoutCommand::MoveNode(Direction::Left)));
    assert!(targets(LayoutCommand::ResizeWindowBy { amount: 1.0 }));
    assert!(targets(LayoutCommand::MoveWindowToWorkspace { workspace: 1, follow: false, window_id: None }));
    assert!(targets(LayoutCommand::PromoteToMaster));
    assert!(!targets(LayoutCommand::MoveFocus(Direction::Left)));
    assert!(!targets(LayoutCommand::SwapWindows(window(1), window(2))));
    assert!(!targets(LayoutCommand::AdjustMasterRatio(0.5)));
}
