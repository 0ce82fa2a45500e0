use rift::departure::LayoutSnapshot;
use rift::display_archive::DisplayArchive;
use rift::fullscreen_slots::{
    display_of_space, note_fullscreen_slot_lifecycle, restore_ordered_in_window_after_fullscreen,
    send_back_to_slot_display, space_of_tiled_window, FullscreenSlots, Leaving, OrderedIn,
    OrderedWindow, Reinstate, Reinstated, Removal, SlotLifecycle, SlotRecorded, Strayed,
};
use rift::ids::{SpaceId, WindowId, WindowServerId};
use rift::native_spaces::{
    admitted_root_for, authoritative_space, best_space, discovery_space, hidden_assigned_space,
    move_changes_layout, pending_target_space, reassign_step, resolve_native_space, restore_step,
    space_of_frame, topology_delta_step, DeltaFacts, DeltaStep, Evidence, Reassign, Restore,
};
use rift::screens::{Listing, Screen};
use rift::table::Table;

const SECOND: u64 = 1_000_000_000;

fn window(idx: u32) -> WindowId {
    WindowId::new(1, idx)
}

fn space(n: u64) -> SpaceId {
    SpaceId::new(n)
}

fn at(n: u64) -> Option<SpaceId> {
    Some(space(n))
}

fn leaving(tiled_on: Option<u64>) -> Leaving<char> {
    Leaving {
        tiled_on: tiled_on.map(SpaceId::new),
        churn_began: None,
        going_to: None,
        floating: false,
        snapshot: Some("trees".to_string()),
        anchor: Some((window(2), 'L')),
    }
}

#[test]
fn a_slot_is_recorded_once() {
    let mut slots = FullscreenSlots::new();
    assert_eq!(
        slots.record_fullscreen_slot(window(1), leaving(Some(1)), 5),
        SlotRecorded::Recorded(space(1))
    );
    assert_eq!(slots.record_fullscreen_slot(window(1), leaving(Some(1)), 9), SlotRecorded::Kept);
    assert_eq!(slots.slots.get(&window(1)).unwrap().taken, 5);
    assert_eq!(slots.record_fullscreen_slot(window(1), leaving(None), 9), SlotRecorded::NotTiled);
    let churning = Leaving { churn_began: Some(6), ..leaving(Some(2)) };
    assert_eq!(slots.record_fullscreen_slot(window(1), churning, 9), SlotRecorded::KeptInChurn);
    let homing = Leaving { going_to: at(1), ..leaving(Some(2)) };
    assert_eq!(slots.record_fullscreen_slot(window(1), homing, 9), SlotRecorded::KeptGoingHome);
    let float = Leaving { floating: true, ..leaving(Some(2)) };
    assert_eq!(slots.record_fullscreen_slot(window(1), float, 9), SlotRecorded::Floating);
    assert!(slots.slots.get(&window(1)).is_none());
    let blind = Leaving { snapshot: None, ..leaving(Some(2)) };
    assert_eq!(slots.record_fullscreen_slot(window(1), blind, 9), SlotRecorded::NoSnapshot);
}

#[test]
fn every_slot_of_a_churn_has_the_layout_from_before_it() {
    let mut slots = FullscreenSlots::new();
    let mut archive = DisplayArchive::new();
    let record = |slots: &mut FullscreenSlots<char>, archive: &DisplayArchive, idx| {
        let recorded = slots.record_slot_before_churn(archive, window(idx), leaving(Some(1)), 5);
        assert_eq!(recorded, SlotRecorded::Recorded(space(1)));
        slots.slots.get(&window(idx)).unwrap().snapshot.clone()
    };
    assert_eq!(record(&mut slots, &archive, 1), "trees");
    let before = LayoutSnapshot {
        layout: "before".to_string(),
        members: Table::new(),
        modes: Table::new(),
    };
    archive.capture_pre_churn_layout(true, false, Some(before), 5);
    assert_eq!(record(&mut slots, &archive, 2), "before");
    let blind = Leaving { snapshot: None, ..leaving(Some(1)) };
    assert_eq!(
        slots.record_slot_before_churn(&archive, window(3), blind, 5),
        SlotRecorded::Recorded(space(1))
    );
    let blind = Leaving { snapshot: None, ..leaving(Some(1)) };
    assert_eq!(
        slots.record_slot_before_churn(&archive, window(4), blind, 60 * SECOND),
        SlotRecorded::NoSnapshot
    );
}

#[test]
fn a_recorded_slot_is_reinstated() {
    let mut slots = FullscreenSlots::new();
    slots.record_fullscreen_slot(window(1), leaving(Some(1)), 5);
    assert_eq!(
        slots.fullscreen_slots_awaiting_insertion(&[]),
        vec![(window(1), space(1))]
    );
    assert!(slots.fullscreen_slots_awaiting_insertion(&[(window(1), space(1))]).is_empty());
    slots.remap_space(space(1), space(4));
    let slot = match slots.reinstate_fullscreen_slot(window(1), space(4), Some(5)) {
        Reinstate::Layout(slot) => slot,
        other => panic!("{other:?}"),
    };
    assert_eq!(slot.snapshot, "trees");
    assert!(matches!(slots.reinstate_fullscreen_slot(window(1), space(4), None), Reinstate::NoSlot));
    // The others were put back, and not this one: it waits on.
    assert!(matches!(slots.reinstated(window(1), slot, Some(2), false), Reinstated::Kept));
    let slot = match slots.reinstate_fullscreen_slot(window(1), space(4), None) {
        Reinstate::Layout(slot) => slot,
        other => panic!("{other:?}"),
    };
    assert!(matches!(slots.reinstated(window(1), slot, Some(2), true), Reinstated::Restored));
}

#[test]
fn a_command_since_is_not_undone() {
    let mut slots = FullscreenSlots::new();
    slots.record_fullscreen_slot(window(1), leaving(Some(1)), 5);
    assert!(matches!(
        slots.reinstate_fullscreen_slot(window(1), space(1), Some(6)),
        Reinstate::Anchor(Some((beside, 'L'))) if beside == window(2)
    ));
    slots.record_fullscreen_slot(window(1), leaving(Some(1)), 5);
    assert!(matches!(
        slots.reinstate_fullscreen_slot(window(1), space(2), None),
        Reinstate::Elsewhere
    ));
    // A window is not put beside itself.
    slots.record_fullscreen_slot(window(2), leaving(Some(1)), 5);
    assert!(matches!(
        slots.reinstate_fullscreen_slot(window(2), space(1), Some(6)),
        Reinstate::Anchor(None)
    ));
    slots.record_fullscreen_slot(window(3), leaving(Some(1)), 5);
    let slot = match slots.reinstate_fullscreen_slot(window(3), space(1), None) {
        Reinstate::Layout(slot) => slot,
        other => panic!("{other:?}"),
    };
    assert!(matches!(slots.reinstated(window(3), slot, Some(0), true), Reinstated::Anchor(Some(_))));
    slots.record_fullscreen_slot(window(4), leaving(Some(1)), 5);
    slots.forget(window(4));
    assert!(slots.slots.get(&window(4)).is_none());
}

#[test]
fn a_window_carried_off_is_sent_back() {
    let screens = [Screen { display_uuid: "a".to_string(), space: at(1), has_area: true }];
    let mut listing = Listing::new();
    listing.insert("a".to_string(), vec![space(1), space(2)]);
    listing.insert("b".to_string(), vec![space(3)]);
    let name = |n: u64| display_of_space(&screens, &listing, space(n));
    assert_eq!(name(1), Some("a".to_string()));
    assert_eq!(name(3), Some("b".to_string()));
    assert_eq!(name(9), None);

    let strayed = Strayed {
        since_churn: Some(SECOND),
        since_input: None,
        record_stands: false,
        going_home: false,
        sys_id: Some(WindowServerId::new(7)),
        now_on: at(3),
        addition: true,
    };
    let send = |w| send_back_to_slot_display(w, space(1), &screens, &listing);
    assert_eq!(send(strayed), Some(WindowServerId::new(7)));
    for stays in [
        Strayed { since_churn: None, ..strayed },
        Strayed { since_churn: Some(10 * SECOND), ..strayed },
        Strayed { since_input: Some(SECOND / 2), ..strayed },
        Strayed { record_stands: true, ..strayed },
        Strayed { going_home: true, ..strayed },
        Strayed { sys_id: None, ..strayed },
        Strayed { now_on: at(1), ..strayed },
        Strayed { now_on: at(2), ..strayed },
        Strayed { now_on: None, ..strayed },
        Strayed { addition: false, ..strayed },
    ] {
        assert_eq!(send(stays), None);
    }
}

#[test]
fn a_window_ordered_in_gets_its_slot() {
    let ordered = OrderedWindow {
        waiting_on: at(1),
        active: true,
        now_on: at(1),
        tiled_there: false,
        going_to: None,
    };
    let restore = restore_ordered_in_window_after_fullscreen;
    assert_eq!(restore(ordered), OrderedIn::Restore(space(1)));
    assert_eq!(restore(OrderedWindow { now_on: None, ..ordered }), OrderedIn::Restore(space(1)));
    assert_eq!(restore(OrderedWindow { active: false, ..ordered }), OrderedIn::Nothing);
    assert_eq!(restore(OrderedWindow { waiting_on: None, ..ordered }), OrderedIn::Nothing);
    let elsewhere = OrderedWindow { now_on: at(2), ..ordered };
    assert_eq!(restore(elsewhere), OrderedIn::Elsewhere);
    assert_eq!(restore(OrderedWindow { tiled_there: true, ..elsewhere }), OrderedIn::DropSlot);
    assert_eq!(
        restore(OrderedWindow { tiled_there: true, going_to: at(1), ..elsewhere }),
        OrderedIn::Elsewhere
    );
    let note = note_fullscreen_slot_lifecycle;
    assert_eq!(note(Removal::PreservingFloat, false, true), SlotLifecycle::Record);
    assert_eq!(note(Removal::Plain, false, false), SlotLifecycle::Forget);
    assert_eq!(note(Removal::Plain, true, true), SlotLifecycle::Leave);
    assert_eq!(note(Removal::Plain, true, false), SlotLifecycle::Record);
    assert_eq!(space_of_tiled_window(at(2), &[space(1), space(2)], &[space(1), space(2)]), at(2));
    assert_eq!(space_of_tiled_window(at(3), &[space(1), space(2)], &[space(2), space(1)]), at(1));
    assert_eq!(space_of_tiled_window(at(3), &[space(1)], &[]), None);
}

fn evidence() -> Evidence {
    Evidence {
        pinned: None,
        observation: None,
        homing: None,
        pending: None,
        in_flight: false,
        live: None,
        prior: None,
    }
}

#[test]
fn a_fresh_write_stands() {
    let resolve = resolve_native_space;
    let written = Evidence { observation: at(1), pending: at(2), in_flight: true, live: at(1), ..evidence() };
    assert_eq!(resolve(written), at(2));
    // It has had its time, and the window server agrees with what was seen.
    assert_eq!(resolve(Evidence { in_flight: false, ..written }), at(1));
    assert_eq!(resolve(Evidence { in_flight: false, live: at(3), ..written }), at(2));
    assert_eq!(resolve(Evidence { pinned: at(5), ..written }), at(5));
    assert_eq!(resolve(Evidence { homing: at(1), ..written }), at(1));
    assert_eq!(resolve(Evidence { pending: None, ..written }), at(1));
    assert_eq!(resolve(Evidence { live: at(3), pending: at(2), prior: at(4), ..evidence() }), at(3));
    assert_eq!(resolve(Evidence { pending: at(2), prior: at(4), ..evidence() }), at(2));
    assert_eq!(resolve(Evidence { prior: at(4), ..evidence() }), at(4));
    assert_eq!(resolve(evidence()), None);
}

#[test]
fn a_window_is_where_the_strongest_source_has_it() {
    assert_eq!(authoritative_space(at(1), at(2), at(3)), at(1));
    assert_eq!(authoritative_space(None, at(2), at(3)), at(2));
    assert_eq!(authoritative_space(None, None, at(3)), at(3));
    assert_eq!(best_space(true, at(1), at(2), at(3)), None);
    assert_eq!(best_space(false, None, at(2), at(3)), at(2));
    assert_eq!(best_space(false, None, None, at(3)), at(3));
    assert_eq!(hidden_assigned_space(at(1), true, true), at(1));
    assert_eq!(hidden_assigned_space(at(1), false, true), None);
    assert_eq!(hidden_assigned_space(at(1), true, false), None);
    assert_eq!(pending_target_space(at(1), at(1)), at(1));
    assert_eq!(pending_target_space(at(2), at(1)), None);
    assert_eq!(pending_target_space(None, None), None);
    assert_eq!(discovery_space(at(1), at(2), true, at(3)), at(1));
    assert_eq!(discovery_space(None, at(2), true, at(3)), at(2));
    assert_eq!(discovery_space(None, at(2), false, at(3)), at(3));
    assert_eq!(space_of_frame(at(1), &[(9, space(2))]), at(1));
    assert_eq!(space_of_frame(None, &[(5, space(2)), (9, space(3)), (9, space(4))]), at(4));
    assert_eq!(space_of_frame(None, &[(0, space(2))]), None);
}

#[test]
fn a_child_window_stands_for_the_one_around_it() {
    let (child, around, largest) = (window(1), Some(window(2)), Some(window(3)));
    assert_eq!(admitted_root_for(child, true, true, around, largest), child);
    assert_eq!(admitted_root_for(child, false, false, around, largest), child);
    assert_eq!(admitted_root_for(child, false, true, around, largest), window(2));
    assert_eq!(admitted_root_for(child, false, true, None, largest), window(3));
    assert_eq!(admitted_root_for(child, false, true, None, None), child);
}

#[test]
fn windows_come_and_go_between_desktops() {
    let facts = DeltaFacts {
        appeared: at(1),
        disappeared: None,
        resolved: at(1),
        resolved_active: true,
        free: true,
        assigned: at(2),
        disappeared_active: true,
    };
    assert_eq!(
        topology_delta_step(facts),
        DeltaStep::Moved { space: space(1), visible: true, confirmed: true }
    );
    assert_eq!(
        topology_delta_step(DeltaFacts { resolved: at(3), resolved_active: false, ..facts }),
        DeltaStep::Moved { space: space(3), visible: false, confirmed: false }
    );
    let gone = DeltaFacts { resolved: None, disappeared: at(2), ..facts };
    assert_eq!(topology_delta_step(gone), DeltaStep::Gone { space: space(2), remove: true });
    assert_eq!(
        topology_delta_step(DeltaFacts { free: false, ..gone }),
        DeltaStep::Gone { space: space(2), remove: false }
    );
    assert_eq!(
        topology_delta_step(DeltaFacts { disappeared: None, ..gone }),
        DeltaStep::Nothing
    );
    assert_eq!(reassign_step(true, true, at(1), space(2)), Reassign::Held);
    assert_eq!(reassign_step(false, false, at(1), space(2)), Reassign::Remove);
    assert_eq!(reassign_step(false, true, at(2), space(2)), Reassign::Restore);
    assert_eq!(reassign_step(false, true, None, space(2)), Reassign::Move);
    assert!(move_changes_layout(true, false, false));
    assert!(move_changes_layout(false, true, true));
    assert!(!move_changes_layout(false, false, true));
    assert_eq!(restore_step(true, true, true, true), Restore::Insert);
    assert_eq!(restore_step(true, true, true, false), Restore::Nothing);
    assert_eq!(restore_step(true, true, false, true), Restore::Remove);
    assert_eq!(restore_step(false, true, false, true), Restore::Nothing);
}
