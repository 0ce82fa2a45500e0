use rift::departure::{record_departure, LayoutSnapshot};
use rift::display_record::{DepartureSnapshot, DisplayRecord, RecordedDisplay, Stage};
use rift::ids::{SpaceId, WindowId, WindowServerId};
use rift::layout::LayoutMode;
use rift::reconcile::{
    begin_return_pass, carry_over, is_all_back, plan_return, return_focus, return_gate,
    return_remaps, return_steps, return_walk, window_step, ReturnFacts, ReturnGate, WindowStep,
};
use rift::record_pass::{
    advance_record, after_departure_tree, after_pass, departure_tree, finish_pass,
    note_window_placed_while_away, retire_made_desktops, NoDepartureLayout,
};
use rift::screens::{Listing, Screen};
use rift::settle::{begin_settle, finish_settle, settle_errands, SettleEnd, WindowPlace};
use rift::table::Table;
use rift::walk::DesktopWalk;

const SECOND: u64 = 1_000_000_000;

fn window(idx: u32) -> WindowId {
    WindowId::new(1, idx)
}

fn space(n: u64) -> SpaceId {
    SpaceId::new(n)
}

fn spaces(numbers: &[u64]) -> Vec<SpaceId> {
    numbers.iter().map(|n| space(*n)).collect()
}

fn names(list: &[&str]) -> Vec<String> {
    list.iter().map(|n| n.to_string()).collect()
}

fn screen(uuid: &str, shows: u64) -> Screen {
    Screen { display_uuid: uuid.to_string(), space: Some(space(shows)), has_area: true }
}

fn listing(entries: &[(&str, &[u64])]) -> Listing {
    let mut listing = Listing::new();
    for (uuid, list) in entries {
        listing.insert(uuid.to_string(), spaces(list));
    }
    listing
}

fn members(entries: &[(u64, &[u32])]) -> Table<SpaceId, Vec<WindowId>> {
    let mut members = Table::new();
    for (n, list) in entries {
        members.insert(space(*n), list.iter().map(|i| window(*i)).collect());
    }
    members
}

fn place(number: u32, live: u64, assigned: u64) -> WindowPlace {
    WindowPlace {
        sys_id: Some(WindowServerId::new(number)),
        live: Some(space(live)),
        assigned: Some(space(assigned)),
    }
}

fn places(entries: &[(u32, u64, u64)]) -> Table<WindowId, WindowPlace> {
    let mut places = Table::new();
    for (idx, live, assigned) in entries {
        places.insert(window(*idx), place(*idx * 10, *live, *assigned));
    }
    places
}

fn snapshot() -> LayoutSnapshot {
    let mut modes = Table::new();
    modes.insert(space(1), vec![LayoutMode::Bsp]);
    LayoutSnapshot {
        layout: "trees".to_string(),
        members: members(&[(1, &[1]), (2, &[2, 3]), (5, &[4])]),
        modes,
    }
}

/// The display "lg" with desktop 5 departs from "builtin" with desktops 1 and 2.
fn departed(now: u64) -> DisplayRecord {
    let mut record = None;
    let taken = record_departure(
        &mut record,
        &names(&["lg"]),
        &names(&["builtin"]),
        &None,
        &listing(&[("builtin", &[1, 2]), ("lg", &[5])]),
        &[screen("builtin", 1), screen("lg", 5)],
        Some(snapshot()),
        &[window(1), window(2), window(3), window(4)],
        now,
    );
    assert!(taken);
    record.unwrap()
}

#[test]
fn a_departure_records_where_everything_was() {
    let record = departed(7);
    assert_eq!(record.taken, 7);
    assert_eq!(record.survivor, "builtin");
    assert_eq!(record.desired(window(3)), Some(space(2)));
    assert_eq!(record.desired(window(9)), None);
    assert_eq!(record.windows_desired_on(space(2)), vec![window(2), window(3)]);
    assert_eq!(record.recorded_desktop(window(4)), Some(space(5)));
    assert!(record.destination_free());
    assert_eq!(record.destination(window(1)), None);
    assert_eq!(record.stopgap_for(space(2)), None);
}

#[test]
fn the_state_before_the_first_departure_stands() {
    let mut record = Some(departed(7));
    let again = |record: &mut Option<DisplayRecord>, gone: &[&str], active: &[&str], snap| {
        record_departure(
            record,
            &names(gone),
            &names(active),
            &None,
            &listing(&[("builtin", &[1])]),
            &[screen("builtin", 1)],
            snap,
            &[],
            9,
        )
    };
    assert!(!again(&mut record, &["builtin"], &["lg"], Some(snapshot())));
    assert_eq!(record.unwrap().taken, 7);
    let mut none = None;
    assert!(!again(&mut none, &["other"], &["builtin"], Some(snapshot())));
    assert!(!again(&mut none, &["builtin"], &[], Some(snapshot())));
    assert!(!again(&mut none, &["builtin"], &["builtin"], None));
    assert!(none.is_none());
}

#[test]
fn a_whole_set_of_displays_is_recorded_over_what_is_listed() {
    let mut record = None;
    let whole = Some(vec![
        RecordedDisplay { uuid: "builtin".to_string(), desktops: spaces(&[1]), shown: None },
        RecordedDisplay { uuid: "lg".to_string(), desktops: spaces(&[5, 6]), shown: Some(space(6)) },
    ]);
    assert!(record_departure(
        &mut record,
        &names(&["lg"]),
        &names(&["builtin"]),
        &whole,
        &listing(&[("builtin", &[1, 5])]),
        &[screen("builtin", 1)],
        Some(snapshot()),
        &[],
        0,
    ));
    let record = record.unwrap();
    assert_eq!(record.displays[1].desktops, spaces(&[5, 6]));
    assert_eq!(record.displays[1].shown, Some(space(6)));
}

#[test]
fn a_destroyed_desktop_is_forgotten_with_its_windows() {
    let mut record = departed(0);
    let (gone, windows) = record.forget_destroyed_desktop(space(2));
    assert_eq!(gone, spaces(&[2]));
    assert_eq!(windows.len(), 2);
    assert_eq!(record.desired(window(2)), None);
    assert_eq!(record.displays[0].desktops, spaces(&[1]));
    let (gone, windows) = record.forget_destroyed_desktop(space(2));
    assert!(gone.is_empty() && windows.is_empty());
    record.backdate(5);
    assert_eq!(record.taken, 0);
}

#[test]
fn desktops_are_walked_into_order() {
    let mut walk = DesktopWalk::new(spaces(&[5, 1, 2]), spaces(&[1, 2, 9, 5]));
    assert_eq!(walk.step(), Some((space(5), space(2))));
    walk.moved(true);
    assert_eq!(walk.order, spaces(&[1, 2, 5]));
    assert_eq!(walk.step(), None);
    assert_eq!(walk.chain, spaces(&[1, 2, 5]));

    let mut refused = DesktopWalk::new(spaces(&[3, 2, 1]), spaces(&[1, 2, 3]));
    assert_eq!(refused.step(), Some((space(2), space(1))));
    refused.moved(false);
    assert_eq!(refused.step(), Some((space(3), space(1))));
    refused.moved(true);
    assert_eq!(refused.order, spaces(&[2, 1, 3]));
    assert_eq!(refused.step(), None);
}

#[test]
fn the_survivor_gets_a_desktop_for_the_one_it_lost() {
    // The departure destroyed desktop 2, and put desktop 5 on the survivor.
    let mut record = departed(0);
    let now_listed = listing(&[("builtin", &[5, 1])]);
    let screens = [screen("builtin", 5)];
    let windows = places(&[(1, 1, 1), (2, 1, 1), (3, 1, 1), (4, 5, 5)]);
    let plan = begin_settle(&mut record, &screens, &now_listed, &windows, SECOND).unwrap();
    assert_eq!(plan.destroyed, vec![(space(2), space(2))]);
    assert_eq!(plan.kept, spaces(&[1]));
    assert_eq!(plan.visitors, spaces(&[5]));
    assert!(plan.reshuffled);
    assert_eq!(plan.create_after(true), Some(space(5)));
    assert_eq!(plan.create_after(false), None);

    let made = Some(space(8));
    let walk = plan.walk(made, true).unwrap();
    assert_eq!(walk.order, spaces(&[5, 1, 8]));
    assert_eq!(walk.desired, spaces(&[8, 1, 5]));
    assert_eq!(plan.focus(&record, made, &screens, true), Some(space(1)));

    let errands = settle_errands(&plan, &record, &windows, made);
    let sent: Vec<u32> = errands.iter().map(|e| e.window.idx).collect();
    assert_eq!(sent.len(), 2);
    assert!(sent.contains(&2) && sent.contains(&3));
    assert_eq!(
        finish_settle(&mut record, &plan, made, &errands, &[true, true], SECOND),
        SettleEnd::Wait
    );
    assert_eq!(record.stopgap_for(space(2)), Some(space(8)));
    assert_eq!(record.destination(window(2)), Some(space(8)));
    assert_eq!(record.pass.as_ref().unwrap().stage, Stage::Away);
    assert!(begin_settle(&mut record, &screens, &now_listed, &windows, SECOND).is_none());

    // Both arrive, and the pass is over.
    let arrived = places(&[(1, 1, 1), (2, 8, 8), (3, 8, 1), (4, 5, 5)]);
    assert!(!advance_record(&mut record, &arrived));
    let arrived = places(&[(1, 1, 1), (2, 8, 8), (3, 8, 8), (4, 5, 5)]);
    assert!(advance_record(&mut record, &arrived));
    let mut record = Some(record);
    let mut retiring = vec![];
    let mut last = None;
    let finished = finish_pass(&mut record, &mut retiring, &mut last, &screens, 2 * SECOND).unwrap();
    assert_eq!(finished.stage, Stage::Away);
    assert_eq!(finished.restores, vec![(space(2), space(8))]);
    assert_eq!(finished.exposed, spaces(&[5]));
    let after = after_pass(&Some(finished));
    assert!(after.membership_changed && after.refresh_window_inventories);
    assert_eq!((after.arrange_passes, after.exposed), (1, spaces(&[5])));
    let nothing = after_pass(&None);
    assert!(!nothing.membership_changed && !nothing.refresh_window_inventories);
    assert_eq!((nothing.arrange_passes, nothing.exposed), (0, vec![]));
    let mut record = record.unwrap();
    assert!(last.is_none());

    // A second settle finds nothing to do.
    let listed = listing(&[("builtin", &[8, 1, 5])]);
    assert!(begin_settle(&mut record, &screens, &listed, &arrived, 3 * SECOND).is_none());
}

#[test]
fn a_settle_that_made_nothing_is_done_at_once() {
    let mut record = departed(0);
    let listed = listing(&[("builtin", &[1, 2, 5])]);
    let windows = places(&[]);
    let plan = begin_settle(&mut record, &[screen("builtin", 1)], &listed, &windows, 0).unwrap();
    assert_eq!(plan.create_after(true), None);
    let errands = settle_errands(&plan, &record, &windows, None);
    assert_eq!(finish_settle(&mut record, &plan, None, &errands, &[], 0), SettleEnd::Done);
    assert!(record.settled);
    assert!(begin_settle(&mut record, &[screen("other", 1)], &listed, &windows, 0).is_none());
}

#[test]
fn what_the_user_does_while_away_is_kept() {
    let mut record = departed(0);
    let away = [screen("builtin", 1)];
    // Still reshuffling.
    assert!(!note_window_placed_while_away(&mut record, window(1), space(2), &away, 9 * SECOND));
    assert!(note_window_placed_while_away(&mut record, window(1), space(2), &away, 10 * SECOND));
    assert_eq!(record.desired(window(1)), Some(space(2)));
    assert!(!note_window_placed_while_away(&mut record, window(1), space(2), &away, 11 * SECOND));
    // Put back.
    assert!(!note_window_placed_while_away(&mut record, window(1), space(1), &away, 12 * SECOND));
    assert_eq!(record.desired(window(1)), Some(space(1)));
    // The manager's own move is not the user's.
    record.own_moves.insert(window(2));
    assert!(!note_window_placed_while_away(&mut record, window(2), space(1), &away, 13 * SECOND));
    assert_eq!(record.desired(window(2)), Some(space(2)));
    // With every display back it is no longer away.
    let back = [screen("builtin", 1), screen("lg", 5)];
    assert!(!note_window_placed_while_away(&mut record, window(2), space(1), &back, 14 * SECOND));
}

fn facts(listed: Listing, windows: Table<WindowId, WindowPlace>, orders: &[(u64, &[u32])]) -> ReturnFacts {
    ReturnFacts {
        listing: listed,
        retiring: vec![],
        places: windows,
        orders: members(orders),
        modes: Table::new(),
    }
}

#[test]
fn a_return_waits_for_every_display() {
    let record = departed(0);
    assert_eq!(return_gate(&record, &[screen("builtin", 1)]), ReturnGate::NotYet);
    let back = [screen("builtin", 1), screen("lg", 5)];
    assert!(is_all_back(&record, &back));
    assert_eq!(return_gate(&record, &back), ReturnGate::Ready);
}

#[test]
fn nothing_moves_when_all_is_in_place() {
    let mut record = departed(0);
    let back = [screen("builtin", 1), screen("lg", 5)];
    let listed = listing(&[("builtin", &[1, 2]), ("lg", &[5])]);
    let windows = places(&[(1, 1, 1), (2, 2, 2), (3, 2, 2), (4, 5, 5)]);
    let facts = facts(listed, windows, &[(1, &[1]), (2, &[2, 3]), (5, &[4])]);
    let plan = plan_return(&record, &facts);
    assert!(plan.pairs.is_empty() && plan.unknown.is_empty() && plan.touched.is_empty());
    assert!(return_steps(&plan, &record, &facts.places).is_empty());
    assert!(return_focus(&plan, &record, &facts.listing, &back).is_empty());
    assert!(begin_return_pass(&mut record, &plan, &vec![], &[], SECOND));
    assert_eq!(return_gate(&record, &back), ReturnGate::UnderWay);
    let mut record = Some(record);
    let mut retiring = vec![];
    let mut last = None;
    let finished = finish_pass(&mut record, &mut retiring, &mut last, &back, SECOND).unwrap();
    assert_eq!(finished.stage, Stage::Back);
    assert_eq!(finished.layout, "trees");
    assert_eq!(finished.restores.len(), 3);
    assert!(record.is_none());
    assert_eq!(departure_tree(&last, Some(space(2))), Ok((space(2), space(2))));
    assert_eq!(
        departure_tree(&last, Some(space(9))),
        Err(NoDepartureLayout::NoneFor(space(9)))
    );
    assert_eq!(departure_tree(&last, None), Err(NoDepartureLayout::NoActiveDesktop));
    let tree = departure_tree(&last, Some(space(2)));
    let after = after_departure_tree(tree, true, &[screen("builtin", 2)]);
    assert!(after.membership_changed && !after.refresh_window_inventories);
    assert_eq!((after.arrange_passes, after.exposed), (1, spaces(&[2])));
    assert!(after_departure_tree(tree, true, &[screen("builtin", 1)]).exposed.is_empty());
    assert_eq!(after_departure_tree(tree, false, &[screen("builtin", 2)]).arrange_passes, 0);
    let none = departure_tree(&last, None);
    assert!(!after_departure_tree(none, true, &[screen("builtin", 2)]).membership_changed);
    assert!(finish_pass(&mut record, &mut retiring, &mut last, &back, SECOND).is_none());
}

#[test]
fn a_strayed_window_is_sent_back() {
    let record = departed(0);
    let listed = listing(&[("builtin", &[1, 2]), ("lg", &[5])]);
    let windows = places(&[(1, 5, 5), (2, 2, 1), (3, 2, 2), (4, 5, 5)]);
    let facts = facts(listed, windows, &[(2, &[2, 3])]);
    let plan = plan_return(&record, &facts);
    let step = |idx| window_step(&plan, &record, &facts.places, window(idx));
    assert_eq!(step(1), WindowStep::Send(WindowServerId::new(10), space(1)));
    assert_eq!(step(2), WindowStep::Wait(space(2)));
    assert_eq!(step(3), WindowStep::Nothing);
    assert_eq!(step(9), WindowStep::Nothing);
    let mut steps = return_steps(&plan, &record, &facts.places);
    steps.sort_by_key(|(w, _)| *w);
    assert_eq!(
        steps,
        vec![
            (window(1), WindowStep::Send(WindowServerId::new(10), space(1))),
            (window(2), WindowStep::Wait(space(2)))
        ]
    );
}

#[test]
fn a_destroyed_desktop_is_replaced_by_a_fresh_one() {
    // Desktop 5 of the display that went is destroyed, and 9 minted for it.
    let mut record = departed(0);
    let listed = listing(&[("builtin", &[1, 2]), ("lg", &[9])]);
    let windows = places(&[(1, 1, 1), (2, 2, 2), (3, 2, 2), (4, 1, 1)]);
    let facts = facts(listed, windows, &[(1, &[1, 4]), (2, &[3, 2])]);
    let plan = plan_return(&record, &facts);
    assert_eq!(plan.pairs, vec![(space(5), space(9))]);
    assert_eq!(plan.now(&record, space(5)), space(9));
    assert_eq!(return_remaps(&plan, &record), vec![(space(5), space(9))]);
    // The user put the windows of desktop 2 in another order.
    assert_eq!(plan.touched, spaces(&[2]));
    let steps = return_steps(&plan, &record, &facts.places);
    assert_eq!(steps, vec![(window(4), WindowStep::Send(WindowServerId::new(40), space(9)))]);
    assert!(!begin_return_pass(&mut record, &plan, &steps, &[true], SECOND));
    let pass = record.pass.as_ref().unwrap();
    assert_eq!(pass.waiting.get(&window(4)), Some(&space(9)));
    assert!(!pass.restores.contains(&(space(2), space(2))));
    assert!(pass.restores.contains(&(space(5), space(9))));
    assert_eq!(record.desired(window(4)), Some(space(9)));
}

#[test]
fn desktops_of_the_other_display_are_sent_back() {
    let record = departed(0);
    let mut listed = listing(&[("builtin", &[1]), ("lg", &[5, 2, 7])]);
    let facts = facts(listing(&[("builtin", &[1]), ("lg", &[5, 2, 7])]), places(&[]), &[]);
    let plan = plan_return(&record, &facts);
    assert_eq!(plan.unknown, spaces(&[7]));
    let screens = [screen("builtin", 1), screen("lg", 2)];
    let mut walk = return_walk(&plan, &record, 0, &listed, &screens);
    assert_eq!(walk.desired, spaces(&[1, 2, 7]));
    assert_eq!(walk.step(), Some((space(2), space(1))));
    walk.moved(true);
    carry_over(&mut listed, &"builtin".to_string(), space(2));
    assert_eq!(walk.step(), Some((space(7), space(2))));
    walk.moved(true);
    assert_eq!(walk.step(), None);
    carry_over(&mut listed, &"builtin".to_string(), space(7));
    assert_eq!(listed.get(&"builtin".to_string()), Some(&spaces(&[1, 2, 7])));
    assert_eq!(listed.get(&"lg".to_string()), Some(&spaces(&[5])));
    assert_eq!(return_focus(&plan, &record, &listed, &screens), spaces(&[5]));
}

#[test]
fn a_shown_desktop_is_not_destroyed() {
    let mut retiring = vec![(space(1), 0), (space(2), 0), (space(3), 20 * SECOND), (space(4), 0)];
    let destroy =
        retire_made_desktops(&mut retiring, &spaces(&[1, 2, 3]), &spaces(&[2, 3]), 31 * SECOND);
    assert_eq!(destroy, spaces(&[1]));
    assert_eq!(retiring, vec![(space(3), 20 * SECOND)]);
    let kept: Option<DepartureSnapshot> = None;
    assert_eq!(departure_tree(&kept, Some(space(1))), Err(NoDepartureLayout::NoneFor(space(1))));
}
