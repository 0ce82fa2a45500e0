use rift::departure::LayoutSnapshot;
use rift::display_archive::{
    is_stable_display_uuid, is_whole, stable_departed, survivors_lost_space, takeover_parking_space,
    Departures, DisplacedWindows, DisplayArchive, ExiledWindow,
};
use rift::homing::{
    advance_display_homing, after_homecoming, begin_homing, finish_display_homing,
    handle_display_homing_deadline,
    home_steps, homing_target, is_in_use_elsewhere, let_go_of_placed_window,
    note_window_appeared_while_away, returned_displays,
    settle_displaced_windows, stray_desktops, windows_to_settle, Deadline,
};
use rift::ids::{SpaceId, WindowId, WindowServerId};
use rift::layout::LayoutMode;
use rift::reconcile::WindowStep;
use rift::screens::{Listing, Screen};
use rift::settle::WindowPlace;
use rift::table::Table;

const SECOND: u64 = 1_000_000_000;

fn window(idx: u32) -> WindowId {
    WindowId::new(1, idx)
}

fn space(n: u64) -> SpaceId {
    SpaceId::new(n)
}

fn spaces(numbers: &[u64]) -> Vec<SpaceId> {
    numbers.iter().map(|n| space(*n)).collect()
}

fn name(n: &str) -> String {
    n.to_string()
}

fn screen(uuid: &str, shows: Option<u64>) -> Screen {
    Screen { display_uuid: name(uuid), space: shows.map(SpaceId::new), has_area: true }
}

fn listing(entries: &[(&str, &[u64])]) -> Listing {
    let mut listing = Listing::new();
    for (uuid, list) in entries {
        listing.insert(name(uuid), spaces(list));
    }
    listing
}

fn exile(idx: u32, was_tiled: bool) -> ExiledWindow {
    ExiledWindow {
        wid: window(idx),
        wsid: Some(WindowServerId::new(idx * 10)),
        user_floating: Some(idx == 2),
        was_tiled,
    }
}

fn places(entries: &[(u32, u64, u64)]) -> Table<WindowId, WindowPlace> {
    let mut places = Table::new();
    for (idx, live, assigned) in entries {
        places.insert(
            window(*idx),
            WindowPlace {
                sys_id: Some(WindowServerId::new(*idx * 10)),
                live: Some(space(*live)),
                assigned: Some(space(*assigned)),
            },
        );
    }
    places
}

/// What the window server answers for the numbers of these windows.
fn live(entries: &[(u32, u64)]) -> Table<WindowServerId, SpaceId> {
    let mut live = Table::new();
    for (idx, at) in entries {
        live.insert(WindowServerId::new(*idx * 10), space(*at));
    }
    live
}

fn snapshot(entries: &[(u64, &[u32])]) -> LayoutSnapshot {
    let mut members = Table::new();
    for (n, list) in entries {
        members.insert(space(*n), list.iter().map(|i| window(*i)).collect());
    }
    LayoutSnapshot { layout: name("trees"), members, modes: Table::new() }
}

/// The display "lg" with desktop 5, and windows 1 and 2 on it, is away.
fn archive() -> DisplayArchive {
    let mut archive = DisplayArchive::new();
    assert!(archive.archive_display(
        &name("lg"),
        space(5),
        &vec![exile(1, true), exile(2, false)],
        spaces(&[5]),
        Some(name("snapshot")),
    ));
    archive
}

#[test]
fn fallback_ids_are_no_identities() {
    assert!(!is_stable_display_uuid("cgdisplay-2"));
    assert!(is_stable_display_uuid("37D8832A"));
    assert_eq!(stable_departed(&[name("cgdisplay-1"), name("a"), name("b")]), vec![name("a"), name("b")]);
}

#[test]
fn a_departed_display_is_kept() {
    let mut archive = archive();
    assert!(!archive.is_empty());
    assert!(archive.has(&name("lg")));
    assert!(!archive.has(&name("other")));
    assert_eq!(archive.archived_windows(&name("lg")), vec![window(1), window(2)]);
    assert!(!archive.is_homing(&name("lg")));
    assert!(!archive.archive_display(&name("x"), space(1), &vec![], vec![], None));
    // A window that one display holds is not kept for another.
    assert!(archive.archive_display(
        &name("tv"),
        space(6),
        &vec![exile(1, true), exile(3, true)],
        spaces(&[6]),
        Some(name("later")),
    ));
    assert_eq!(archive.archived_windows(&name("tv")), vec![window(3)]);
    // Away again before its return was over, it keeps its first layout.
    assert!(archive.archive_display(&name("lg"), space(7), &vec![exile(4, true)], spaces(&[7]), None));
    assert_eq!(archive.archived_windows(&name("lg")), vec![window(1), window(2), window(4)]);
    assert_eq!(archive.entries.get(&name("lg")).unwrap().snapshot, "snapshot");
    assert!(DisplayArchive::new().is_empty());
}

#[test]
fn departed_displays_are_recorded_or_archived() {
    let archive = DisplayArchive::new();
    let departed = [(name("lg"), space(5)), (name("cgdisplay-2"), space(6)), (name("tv"), space(7))];
    let screens = [screen("builtin", Some(5))];
    let plan = |enabled, mode| archive.archive_departed_displays(enabled, mode, &departed, &screens);
    assert!(matches!(plan(false, DisplacedWindows::Spaces), Departures::Ignore));
    match plan(true, DisplacedWindows::Spaces) {
        Departures::Record(names) => assert_eq!(names, vec![name("lg"), name("tv")]),
        other => panic!("{other:?}"),
    }
    match plan(true, DisplacedWindows::Float) {
        Departures::Archive(list) => {
            assert_eq!(list.len(), 2);
            assert_eq!((list[0].space, list[0].taken_over_by.clone()), (space(5), Some(name("builtin"))));
            assert_eq!((list[1].space, list[1].taken_over_by.clone()), (space(7), None));
        }
        other => panic!("{other:?}"),
    }
    let mut archive = DisplayArchive::new();
    archive.capture_pre_churn_layout(true, false, Some(snapshot(&[])), 0);
    archive.drop_pre_churn();
    assert!(archive.fresh_pre_churn(0).is_none());
}

#[test]
fn a_survivor_waits_for_the_display_that_left() {
    let mut archive = DisplayArchive::new();
    let keep = |archive: &mut DisplayArchive| {
        archive.archive_survivor(
            &name("builtin"),
            &name("lg"),
            space(1),
            vec![exile(1, true)],
            spaces(&[1]),
            name("snapshot"),
        )
    };
    assert!(keep(&mut archive));
    assert!(!keep(&mut archive));
    assert!(!archive.is_ready(&name("builtin"), &[screen("builtin", Some(1))]));
    assert!(archive.is_ready(&name("builtin"), &[screen("lg", Some(5))]));
    assert!(archive.is_ready(&name("other"), &[]));
    assert_eq!(
        survivors_lost_space(Some(space(1)), &spaces(&[1, 2]), &listing(&[("b", &[2, 5])])),
        Some(space(1))
    );
    assert_eq!(
        survivors_lost_space(Some(space(2)), &spaces(&[1, 2]), &listing(&[("b", &[2, 5])])),
        Some(space(1))
    );
    assert_eq!(survivors_lost_space(None, &spaces(&[2]), &listing(&[("b", &[2])])), None);
}

#[test]
fn a_survivor_goes_back_to_a_desktop_of_its_own() {
    let before = listing(&[("builtin", &[1, 2]), ("lg", &[5, 6])]);
    let park = |last: Option<u64>, now: &[u64]| {
        takeover_parking_space(
            &name("builtin"),
            &name("lg"),
            space(5),
            last.map(SpaceId::new),
            &before,
            &listing(&[("builtin", now)]),
        )
    };
    assert_eq!(park(Some(2), &[5, 6, 1, 2]), Some(space(2)));
    assert_eq!(park(Some(6), &[5, 6, 1, 2]), Some(space(1)));
    assert_eq!(park(None, &[5, 6]), None);
}

#[test]
fn displaced_windows_float_only_if_asked_to() {
    let mut archive = archive();
    let lg = name("lg");
    assert_eq!(archive.displace_archived_windows(&lg, DisplacedWindows::Float), vec![window(1)]);
    assert!(archive.displace_archived_windows(&lg, DisplacedWindows::Tile).is_empty());
    let parking = Some(space(1));
    assert!(archive.evict_from_taken_over_space(&lg, DisplacedWindows::Tile, parking, true).is_none());
    assert!(archive.evict_from_taken_over_space(&lg, DisplacedWindows::Float, parking, false).is_none());
    assert_eq!(
        archive.evict_from_taken_over_space(&lg, DisplacedWindows::Float, parking, true),
        Some((space(1), vec![WindowServerId::new(10), WindowServerId::new(20)]))
    );
    assert_eq!(archive.entries.get(&lg).unwrap().parked_on, parking);
}

#[test]
fn displaced_windows_are_gathered_once_they_have_left() {
    let mut archive = archive();
    let still = places(&[(1, 5, 5), (2, 1, 1)]);
    assert!(settle_displaced_windows(&mut archive, DisplacedWindows::Tile, &still).is_empty());
    let left = places(&[(1, 1, 1), (2, 1, 1)]);
    assert!(settle_displaced_windows(&mut archive, DisplacedWindows::Float, &left).is_empty());
    let clusters = settle_displaced_windows(&mut archive, DisplacedWindows::Tile, &left);
    assert_eq!(clusters.len(), 1);
    assert_eq!(clusters[0].windows, vec![window(1)]);
    assert_eq!(clusters[0].spaces, spaces(&[1]));
    assert!(settle_displaced_windows(&mut archive, DisplacedWindows::Tile, &left).is_empty());
}

#[test]
fn a_snapshot_from_before_the_churn_is_used_for_a_while() {
    let mut archive = DisplayArchive::new();
    archive.capture_pre_churn_layout(false, false, Some(snapshot(&[])), 0);
    archive.capture_pre_churn_layout(true, true, Some(snapshot(&[])), 0);
    assert!(archive.fresh_pre_churn(0).is_none());
    assert!(archive.wants_pre_churn(true, false, 0));
    archive.capture_pre_churn_layout(true, false, Some(snapshot(&[(5, &[1, 2]), (6, &[3])])), 0);
    assert!(!archive.wants_pre_churn(true, false, 0));
    assert!(archive.fresh_pre_churn(10 * SECOND - 1).is_some());
    assert!(archive.fresh_pre_churn(10 * SECOND).is_none());

    let mut states = Table::new();
    for idx in 1..=4 {
        states.insert(window(idx), exile(idx, true));
    }
    // The churn has brought 3 to desktop 5 and taken 2 away; 4 is new.
    let tree = [window(1), window(3), window(4)];
    let own = |now| {
        archive
            .windows_belonging_to_space(space(5), &tree, &states, now)
            .iter()
            .map(|w| w.wid.idx)
            .collect::<Vec<_>>()
    };
    assert_eq!(own(SECOND), vec![1, 4, 2]);
    assert_eq!(own(11 * SECOND), vec![1, 3, 4]);
}

#[test]
fn a_partial_report_pins_the_snapshot() {
    let whole = [screen("a", Some(1))];
    let listed = listing(&[("a", &[1])]);
    assert!(is_whole(&whole, &listed));
    assert!(!is_whole(&[], &listed));
    assert!(!is_whole(&[screen("a", None)], &listed));
    assert!(!is_whole(&whole, &listing(&[("a", &[1]), ("b", &[2])])));

    let mut archive = DisplayArchive::new();
    let partial = [screen("a", None)];
    assert!(!archive.note_display_set(&partial, &listed, false, true, false, Some(snapshot(&[])), 0));
    assert!(archive.fresh_pre_churn(99 * SECOND).is_some());
    assert!(!archive.note_display_set(&whole, &listed, false, true, false, None, 99 * SECOND));
    assert!(archive.fresh_pre_churn(99 * SECOND).is_none());
    assert_eq!(archive.whole_displays.as_ref().unwrap()[0].desktops, spaces(&[1]));
    archive.backdate_pre_churn(SECOND);
    assert!(archive.pre_churn.is_some());
}

#[test]
fn a_claimed_window_is_not_sent_back() {
    let mut archive = archive();
    archive.adopt_displaced_window(window(1), Some(exile(1, true)), &Some(name("lg")));
    archive.adopt_displaced_window(window(1), None, &Some(name("builtin")));
    assert_eq!(archive.archived_windows(&name("lg")).len(), 2);
    archive.adopt_displaced_window(window(1), Some(exile(1, true)), &Some(name("builtin")));
    assert_eq!(archive.archived_windows(&name("lg")), vec![window(2)]);
}

#[test]
fn a_window_put_elsewhere_is_let_go() {
    let mut archive = archive();
    let away = [screen("builtin", Some(1))];
    let listed = listing(&[("builtin", &[1, 5])]);
    let_go_of_placed_window(&mut archive, window(1), space(9), &away, &listed);
    let_go_of_placed_window(&mut archive, window(1), space(5), &away, &listed);
    let_go_of_placed_window(&mut archive, window(1), space(1), &[screen("lg", Some(5))], &listed);
    assert_eq!(archive.archived_windows(&name("lg")).len(), 2);
    let_go_of_placed_window(&mut archive, window(1), space(1), &away, &listed);
    assert_eq!(archive.archived_windows(&name("lg")), vec![window(2)]);
}

#[test]
fn a_display_comes_home() {
    let mut archive = archive();
    let lg = name("lg");
    let back = [screen("builtin", Some(1)), screen("lg", Some(9))];
    assert_eq!(returned_displays(&archive, &back), vec![(lg.clone(), space(9))]);
    let listed = listing(&[("builtin", &[1]), ("lg", &[9, 5])]);
    assert_eq!(homing_target(&archive, &lg, space(9), &listed, &listed), space(5));
    let fresh = listing(&[("lg", &[9])]);
    assert_eq!(homing_target(&archive, &lg, space(9), &fresh, &fresh), space(9));
    assert_eq!(
        stray_desktops(&archive, &lg, &listed, &back),
        Some((spaces(&[9]), space(1)))
    );
    assert!(is_in_use_elsewhere(&back, &listed, &lg, space(1)));
    assert!(!is_in_use_elsewhere(&back, &listed, &lg, space(5)));

    let at = places(&[(1, 1, 1), (2, 5, 1)]);
    let steps =
        home_steps(archive.entries.get(&lg).unwrap(), space(5), &at, &live(&[(1, 1), (2, 5)]));
    assert_eq!(
        steps,
        vec![
            (window(1), WindowStep::Send(WindowServerId::new(10), space(5))),
            (window(2), WindowStep::Wait(space(5)))
        ]
    );
    assert!(!begin_homing(&mut archive, &lg, space(5), &steps, SECOND));
    assert!(archive.is_homing(&lg) && archive.any_homing());
    assert_eq!(archive.homing_destination(window(1)), Some(space(5)));
    assert!(returned_displays(&archive, &back).is_empty());
    assert_eq!(
        handle_display_homing_deadline(&archive, &lg),
        Deadline::FinishDisplay { late: true }
    );
    assert_eq!(handle_display_homing_deadline(&archive, &name("record")), Deadline::Nothing);
    assert_eq!(handle_display_homing_deadline(&archive, &name("tv")), Deadline::Nothing);

    assert!(advance_display_homing(&mut archive, &places(&[(1, 5, 1), (2, 5, 5)])).is_empty());
    assert_eq!(archive.homing_destination(window(2)), None);
    let home = places(&[(1, 5, 5), (2, 5, 5)]);
    assert_eq!(advance_display_homing(&mut archive, &home), vec![lg.clone()]);
    let done = finish_display_homing(&mut archive, &lg, &home).unwrap();
    assert_eq!((done.space, done.from), (space(5), space(5)));
    assert_eq!(done.snapshot, "snapshot");
    assert_eq!(done.landed, vec![(window(1), Some(false)), (window(2), Some(true))]);
    assert_eq!(windows_to_settle(&done, &home), vec![window(1), window(2)]);
    assert_eq!(windows_to_settle(&done, &places(&[(1, 5, 1), (2, 5, 5)])), vec![window(2)]);
    assert!(!archive.has(&lg));
    assert!(finish_display_homing(&mut archive, &lg, &home).is_none());

    let flat = |shows| Screen { has_area: false, ..screen("lg", Some(shows)) };
    let done = Some(done);
    let after = after_homecoming(&done, true, &[screen("builtin", Some(1)), screen("lg", Some(5))]);
    assert!(after.membership_changed && after.refresh_window_inventories);
    assert_eq!((after.arrange_passes, after.exposed), (1, spaces(&[5])));
    let after = after_homecoming(&done, true, &[flat(5)]);
    assert_eq!((after.arrange_passes, after.exposed), (1, vec![]));
    assert!(after_homecoming(&done, true, &[flat(5), screen("tv", Some(5))]).exposed.is_empty());
    for nothing in [after_homecoming(&done, false, &[]), after_homecoming(&None, true, &[])] {
        assert!(!nothing.membership_changed && !nothing.refresh_window_inventories);
        assert_eq!((nothing.arrange_passes, nothing.exposed), (0, vec![]));
    }
}

#[test]
fn a_window_without_a_number_stays() {
    let mut archive = DisplayArchive::new();
    let lg = name("lg");
    let nameless = ExiledWindow { wsid: None, ..exile(1, true) };
    let kept = vec![nameless, exile(2, true)];
    assert!(archive.archive_display(&lg, space(5), &kept, spaces(&[5]), Some(name("snapshot"))));
    let entry = archive.entries.get(&lg).unwrap();
    // The window server has the first on the desktop under a number of its own,
    // and is not asked for it.
    let at = places(&[(1, 5, 1), (2, 1, 5)]);
    assert_eq!(home_steps(entry, space(5), &at, &live(&[(1, 5)])), vec![]);
    // The number that the window was kept under decides before its assignment.
    assert_eq!(
        home_steps(entry, space(5), &at, &live(&[(1, 5), (2, 1)])),
        vec![(window(2), WindowStep::Send(WindowServerId::new(20), space(5)))]
    );
    let astray = places(&[(1, 1, 1), (2, 1, 1)]);
    assert_eq!(
        home_steps(entry, space(5), &astray, &live(&[(2, 5)])),
        vec![(window(2), WindowStep::Wait(space(5)))]
    );
}

#[test]
fn the_layout_from_before_the_churn_is_kept() {
    let mut archive = DisplayArchive::new();
    let now = || Some(LayoutSnapshot { layout: name("now"), ..snapshot(&[(7, &[9])]) });
    assert_eq!(archive.snapshot_for_departure(0, now()).unwrap().layout, "now");
    assert_eq!(archive.layout_for_departure(0, Some(name("now"))), Some(name("now")));
    assert!(archive.snapshot_for_departure(0, None).is_none());
    let mut before = snapshot(&[(5, &[1, 2]), (6, &[])]);
    before.modes.insert(space(5), vec![LayoutMode::Stack]);
    archive.capture_pre_churn_layout(true, false, Some(before), 0);
    let kept = archive.snapshot_for_departure(SECOND, now()).unwrap();
    assert_eq!(kept.layout, "trees");
    assert_eq!(kept.members.get(&space(5)), Some(&vec![window(1), window(2)]));
    assert_eq!(kept.members.get(&space(6)), Some(&vec![]));
    assert_eq!(kept.members.get(&space(7)), None);
    assert_eq!(kept.modes.get(&space(5)), Some(&vec![LayoutMode::Stack]));
    assert!(archive.snapshot_for_departure(SECOND, None).is_some());
    assert_eq!(archive.layout_for_departure(SECOND, None), Some(name("trees")));
    assert_eq!(archive.layout_for_departure(10 * SECOND, Some(name("now"))), Some(name("now")));
}

#[test]
fn a_display_that_was_not_on_its_way_is_dropped() {
    let mut archive = archive();
    let lg = name("lg");
    assert!(archive.has(&lg) && !archive.is_homing(&lg));
    assert!(finish_display_homing(&mut archive, &lg, &places(&[])).is_none());
    assert!(!archive.has(&lg));
}

#[test]
fn a_window_that_appears_elsewhere_while_its_display_is_away_stays() {
    let mut archive = archive();
    let lg = name("lg");
    let away = [screen("builtin", Some(1))];
    let listed = listing(&[("builtin", &[1])]);
    note_window_appeared_while_away(&mut archive, window(1), space(8), &away, &listed, 0);
    assert_eq!(archive.archived_windows(&lg), vec![window(1), window(2)]);
    note_window_appeared_while_away(&mut archive, window(1), space(1), &away, &listed, 0);
    assert_eq!(archive.archived_windows(&lg), vec![window(2)]);
}

#[test]
fn only_windows_that_are_home_get_their_choice_back() {
    let mut archive = archive();
    let lg = name("lg");
    let at = places(&[(1, 1, 1), (2, 5, 5)]);
    let steps =
        home_steps(archive.entries.get(&lg).unwrap(), space(5), &at, &live(&[(1, 1), (2, 5)]));
    begin_homing(&mut archive, &lg, space(5), &steps, 0);
    let done = finish_display_homing(&mut archive, &lg, &at).unwrap();
    assert_eq!(done.landed, vec![(window(2), Some(true))]);
}
