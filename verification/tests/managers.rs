use rift::ids::{SpaceId, WindowId, WindowServerId};
use rift::layout::LayoutMode;
use rift::managers::{
    focus_follows_mouse, ActorId, AppManager, AppState, Lifecycle, MenuManager, MenuState,
    MissionControlManager, MissionControlState, NotificationManager, RefocusManager, RefocusState,
    RefreshQuarantineManager, RefreshQuarantineState, Rejection, StaleCleanupState,
    WindowInventoryManager, WindowInventoryToken, WorkspaceSwitchManager, WorkspaceSwitchOrigin,
    WorkspaceSwitchState,
};
use rift::screens::Screen;
use rift::transaction_manager::{TransactionId, TransactionManager, WindowTxStore};

fn server(n: u32) -> WindowServerId {
    WindowServerId::new(n)
}

#[test]
fn transaction_ids_count_per_window() {
    let mut manager: TransactionManager<&str> = TransactionManager::new(WindowTxStore::new());
    assert_eq!(manager.get_last_sent_txid(server(1)), TransactionId::default());
    let first = manager.generate_next_txid(server(1));
    assert_eq!(first, TransactionId(1));
    assert_eq!(manager.generate_next_txid(server(1)), TransactionId(2));
    assert_eq!(manager.generate_next_txid(server(2)), TransactionId(1));
    assert_eq!(manager.get_last_sent_txid(server(1)), TransactionId(2));
    manager.set_last_sent_txid(server(1), TransactionId(u32::MAX));
    assert_eq!(manager.generate_next_txid(server(1)), TransactionId(0));
    assert_eq!(TransactionId(u32::MAX).next(), TransactionId(0));
}

#[test]
fn a_target_is_believed_for_a_while() {
    let mut manager: TransactionManager<&str> = TransactionManager::new(WindowTxStore::new());
    assert_eq!(manager.get_target_frame(server(1)), None);
    manager.store_txid(server(1), TransactionId(4), "frame", 100);
    assert_eq!(manager.get_target_frame(server(1)), Some(&"frame"));
    assert!(manager.target_sent_within(server(1), 10, 110));
    assert!(!manager.target_sent_within(server(1), 10, 111));
    manager.backdate_target(server(1), 5);
    assert!(!manager.target_sent_within(server(1), 10, 110));
    manager.clear_target_for_window(server(1));
    assert_eq!(manager.get_target_frame(server(1)), None);
    assert_eq!(manager.get_last_sent_txid(server(1)), TransactionId(4));
    manager.remove_for_window(server(1));
    assert_eq!(manager.get_last_sent_txid(server(1)), TransactionId(0));
}

#[test]
fn a_write_is_waited_for_under_its_id() {
    let mut manager: TransactionManager<&str> = TransactionManager::new(WindowTxStore::new());
    assert_eq!(manager.begin_write(Some(server(1)), "a", 5), TransactionId(1));
    assert_eq!(manager.begin_write(Some(server(1)), "b", 6), TransactionId(2));
    assert_eq!(manager.get_target_frame(server(1)), Some(&"b"));
    assert!(manager.target_sent_within(server(1), 0, 6));
    assert_eq!(manager.begin_write(None, "c", 7), TransactionId(0));
}

#[test]
fn the_last_of_several_entries_stands() {
    let mut manager: TransactionManager<&str> = TransactionManager::new(WindowTxStore::new());
    manager.update_txid_entries(
        vec![
            (server(1), TransactionId(1), "a"),
            (server(2), TransactionId(1), "b"),
            (server(1), TransactionId(2), "c"),
        ],
        7,
    );
    assert_eq!(manager.get_target_frame(server(1)), Some(&"c"));
    assert_eq!(manager.get_target_frame(server(2)), Some(&"b"));
    assert_eq!(manager.get_last_sent_txid(server(1)), TransactionId(2));
    manager.generate_next_txid(server(1));
    assert_eq!(manager.get_target_frame(server(1)), Some(&"c"));
}

#[test]
fn a_second_registration_is_rejected() {
    let mut apps = AppManager::new();
    apps.apps.insert(
        1,
        AppState { handle: ActorId(5), bundle_id: Some("com.apple.loginwindow".to_string()) },
    );
    apps.apps.insert(2, AppState { handle: ActorId(6), bundle_id: None });
    assert_eq!(
        apps.reject_duplicate(1, ActorId(5)),
        Rejection { rejected: true, terminate: false }
    );
    assert_eq!(apps.reject_duplicate(1, ActorId(9)), Rejection { rejected: true, terminate: true });
    assert_eq!(
        apps.reject_duplicate(3, ActorId(9)),
        Rejection { rejected: false, terminate: false }
    );
    assert!(apps.is_login_window(1));
    assert!(!apps.is_login_window(2));
    assert!(!apps.is_login_window(3));
}

#[test]
fn a_menu_closes_with_its_owner() {
    let mut menu = MenuManager { menu_state: MenuState::Open(1) };
    let mut mission = MissionControlManager { mission_control_state: MissionControlState::Inactive };
    assert!(!focus_follows_mouse(true, &menu, &mission));
    assert!(!menu.clear_for_pid(2));
    assert!(!menu.clear_for_non_owner(1));
    assert!(menu.clear_for_non_owner(2));
    assert!(focus_follows_mouse(true, &menu, &mission));
    menu.menu_state = MenuState::Open(1);
    assert!(menu.clear_for_pid(1));
    assert!(!menu.clear_for_pid(1));
    assert!(mission.set_active(true));
    assert!(!mission.set_active(true));
    assert!(mission.is_active());
    assert!(!focus_follows_mouse(true, &menu, &mission));
    assert!(mission.set_active(false));
    assert!(!focus_follows_mouse(false, &menu, &mission));
}

#[test]
fn a_manual_switch_is_told_from_an_automatic_one() {
    let mut switch = WorkspaceSwitchManager::new();
    assert!(!switch.manual_switch_in_progress());
    switch.start_workspace_switch(WorkspaceSwitchOrigin::Auto);
    assert!(!switch.manual_switch_in_progress());
    switch.start_workspace_switch(WorkspaceSwitchOrigin::Manual);
    assert!(switch.manual_switch_in_progress());
    assert_eq!(switch.active_workspace_switch, Some(2));
    switch.pending_workspace_mouse_warp = Some(WindowId::new(1, 1));
    assert_eq!(switch.end_event(true), Some(WindowId::new(1, 1)));
    assert_eq!(switch.workspace_switch_state, WorkspaceSwitchState::Inactive);
    assert_eq!(switch.active_workspace_switch, Some(2));
    assert_eq!(switch.end_event(false), None);
    assert_eq!(switch.active_workspace_switch, None);
}

#[test]
fn stale_windows_are_kept_while_no_desktop_is_shown() {
    let mut refocus = RefocusManager {
        stale_cleanup_state: StaleCleanupState::Enabled,
        refocus_state: RefocusState::Idle,
    };
    refocus.note_spaces(&[None, None]);
    assert_eq!(refocus.stale_cleanup_state, StaleCleanupState::Suppressed);
    refocus.note_spaces(&[None, Some(SpaceId::new(1))]);
    assert_eq!(refocus.stale_cleanup_state, StaleCleanupState::Enabled);
    refocus.note_spaces(&[]);
    assert_eq!(refocus.stale_cleanup_state, StaleCleanupState::Suppressed);
}

#[test]
fn the_strongest_quarantine_is_told() {
    let mut manager = RefreshQuarantineManager::new();
    assert_eq!(manager.state(), RefreshQuarantineState::Ready);
    manager.on_lifecycle(Lifecycle::ChurnBegan);
    assert_eq!(manager.state(), RefreshQuarantineState::DisplayChurn);
    manager.on_lifecycle(Lifecycle::SessionResigned);
    assert_eq!(manager.state(), RefreshQuarantineState::SessionInactive);
    manager.on_lifecycle(Lifecycle::WillSleep);
    assert_eq!(manager.state(), RefreshQuarantineState::Sleeping);
    assert!(manager.blocks_refreshes());
}

#[test]
fn a_deferred_refresh_is_not_lost() {
    let mut manager = RefreshQuarantineManager::new();
    assert!(!manager.on_lifecycle(Lifecycle::Woke));
    assert!(manager.pending_inventory_refresh);
    assert!(!manager.on_lifecycle(Lifecycle::ChurnEnded));
    assert!(manager.pending_inventory_refresh);
    assert!(!manager.flush_deferred());
    assert!(manager.release_after_snapshot());
    assert!(!manager.pending_inventory_refresh);
    assert!(!manager.release_after_snapshot());
}

#[test]
fn a_wake_blocks_until_the_snapshot() {
    let mut manager = RefreshQuarantineManager::new();
    manager.on_lifecycle(Lifecycle::Woke);
    manager.on_lifecycle(Lifecycle::SessionBecameActive);
    assert!(manager.blocks_refreshes());
    assert!(manager.release_after_snapshot());
    assert!(!manager.blocks_refreshes());
    // A sleep that has not ended outlasts a snapshot.
    manager.on_lifecycle(Lifecycle::WillSleep);
    assert!(!manager.release_after_snapshot());
    assert!(manager.blocks_refreshes());
}

#[test]
fn an_inventory_is_taken_once() {
    let mut inventories = WindowInventoryManager::new();
    assert_eq!(inventories.request(1, true, true), None);
    assert!(inventories.pending.contains(1));
    assert_eq!(inventories.request(1, false, false), None);
    assert!(!inventories.pending.contains(1));
    let token = inventories.request(1, false, true).unwrap();
    assert_eq!(token, WindowInventoryToken { request_id: 1, topology_revision: 0 });
    inventories.sent(1, token);
    assert_eq!(inventories.request(1, false, true), None);
    assert!(inventories.pending.contains(1));
    let other = WindowInventoryToken { request_id: 8, topology_revision: 0 };
    assert_eq!(inventories.finish(1, other, true, false), (false, false));
    assert_eq!(inventories.finish(1, token, true, false), (true, true));
    assert_eq!(inventories.finish(1, token, true, false), (false, false));
}

#[test]
fn an_answer_that_comes_too_late_is_asked_for_again() {
    let mut inventories = WindowInventoryManager::new();
    let token = inventories.request(1, false, true).unwrap();
    inventories.sent(1, token);
    inventories.advance_revision_if_needed(false);
    assert_eq!(inventories.topology_revision, 0);
    inventories.advance_revision_if_needed(true);
    assert_eq!(inventories.topology_revision, 1);
    assert_eq!(inventories.finish(1, token, true, false), (false, true));
    let token = inventories.request(1, false, true).unwrap();
    inventories.sent(1, token);
    assert_eq!(inventories.finish(1, token, false, false), (false, false));
    let token = inventories.request(1, false, true).unwrap();
    inventories.sent(1, token);
    assert_eq!(inventories.finish(1, token, true, true), (false, true));
    let token = inventories.request(1, false, true).unwrap();
    inventories.sent(1, token);
    inventories.forget(1);
    assert_eq!(inventories.finish(1, token, true, false), (false, false));
    let token = inventories.request(2, false, true).unwrap();
    inventories.sent(2, token);
    inventories.abandon_in_flight();
    assert!(inventories.pending.contains(2));
    assert!(!inventories.in_flight.contains_key(&2));
}

#[test]
fn notifications_are_set_up_when_the_windows_change() {
    let mut notifications = NotificationManager::new();
    assert!(notifications.update_window_notifications(&[3, 1]));
    assert!(!notifications.update_window_notifications(&[3, 1]));
    assert!(notifications.update_window_notifications(&[3]));
    let screens = [Screen {
        display_uuid: "a".to_string(),
        space: Some(SpaceId::new(1)),
        has_area: true,
    }];
    assert!(notifications.update_layout_modes(&screens, &[LayoutMode::Bsp]).is_some());
    assert!(notifications.update_layout_modes(&screens, &[LayoutMode::Bsp]).is_none());
    assert!(notifications.update_layout_modes(&screens, &[LayoutMode::Stack]).is_some());
}
