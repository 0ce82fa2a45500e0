use rift::desktop_match::{match_desktops, score, Desktop, Match};
use rift::ids::{SpaceId, WindowId};

fn wid(pid: i32, idx: u32) -> WindowId { WindowId::new(pid, idx) }

fn desk(space: u64, display: &str, index: usize, windows: &[WindowId]) -> Desktop {
    Desktop {
        space: SpaceId::new(space),
        display: Some(display.to_string()),
        index,
        windows: windows.to_vec(),
    }
}

#[test]
fn a_desktop_that_kept_its_windows_is_matched_through_a_renumber() {
    let a = wid(1, 1);
    let b = wid(1, 2);
    // Two desktops, and the return renumbers both *and* swaps their order.
    // Nothing but the windows says which is which: the ids are all new,
    // and position now points at the wrong one. A decoy that matches the
    // old position exactly is what makes this test discriminate -- without
    // it, position alone produces the right answer and the test passes
    // against a matcher that never looks at content.
    let was = vec![desk(126, "builtin", 0, &[a]), desk(127, "builtin", 1, &[b])];
    let now = vec![desk(149, "builtin", 0, &[b]), desk(150, "builtin", 1, &[a])];

    let m = match_desktops(&was, &now);
    assert_eq!(m.get(SpaceId::new(126)), Some(SpaceId::new(150)));
    assert_eq!(m.get(SpaceId::new(127)), Some(SpaceId::new(149)));
    assert!(m.unclaimed.is_empty());
}

#[test]
fn content_outvotes_the_display_a_desktop_used_to_be_on() {
    let a = wid(1, 1);
    let b = wid(1, 2);
    let was = vec![desk(53, "lg", 0, &[a, b])];
    // Same windows, but the desktop is now listed under the built-in --
    // which the recorded traces show macOS doing routinely -- and under a
    // new id, so neither the display nor the id can carry this. A decoy
    // sits on the old display at the old index holding nothing.
    let now = vec![desk(161, "builtin", 2, &[a, b]), desk(162, "lg", 0, &[])];

    let m = match_desktops(&was, &now);
    assert_eq!(m.get(SpaceId::new(53)), Some(SpaceId::new(161)));
}

#[test]
fn a_desktop_whose_windows_all_went_elsewhere_is_gone_not_guessed() {
    let a = wid(1, 1);
    let b = wid(1, 2);
    let was = vec![desk(53, "lg", 0, &[a, b])];
    // A desktop in the same place holding something else entirely is not
    // this one. Position alone must not claim it.
    let now = vec![desk(53, "lg", 0, &[wid(2, 9)])];

    let m = match_desktops(&was, &now);
    assert_eq!(m.by_recorded.get(&SpaceId::new(53)), Some(&Match::Gone));
    assert_eq!(m.unclaimed, vec![SpaceId::new(53)]);
}

#[test]
fn two_desktops_do_not_both_claim_one() {
    let a = wid(1, 1);
    let b = wid(1, 2);
    let was = vec![desk(1, "d", 0, &[a]), desk(2, "d", 1, &[b])];
    // Both recorded desktops' windows landed on one.
    let now = vec![desk(9, "d", 0, &[a, b])];

    let m = match_desktops(&was, &now);
    let claimed: Vec<_> =
        [1u64, 2].iter().filter(|s| m.get(SpaceId::new(**s)).is_some()).collect();
    assert_eq!(
        claimed.len(),
        1,
        "exactly one recorded desktop may claim a current one"
    );
}

#[test]
fn empty_desktops_pair_by_position_since_they_have_nothing_else() {
    let was = vec![desk(1, "d", 0, &[]), desk(2, "d", 1, &[])];
    let now = vec![desk(7, "d", 0, &[]), desk(8, "d", 1, &[])];

    let m = match_desktops(&was, &now);
    assert_eq!(m.get(SpaceId::new(1)), Some(SpaceId::new(7)));
    assert_eq!(m.get(SpaceId::new(2)), Some(SpaceId::new(8)));
}

#[test]
fn a_partial_match_still_beats_no_match() {
    let a = wid(1, 1);
    let b = wid(1, 2);
    let c = wid(1, 3);
    let was = vec![desk(1, "d", 0, &[a, b, c])];
    // The user closed two of the three while the display was away.
    let now = vec![desk(5, "d", 0, &[a])];

    let m = match_desktops(&was, &now);
    assert_eq!(m.get(SpaceId::new(1)), Some(SpaceId::new(5)));
}

#[test]
fn minted_desktops_are_reported_rather_than_flagged_when_they_appear() {
    let a = wid(1, 1);
    let was = vec![desk(1, "d", 0, &[a])];
    let now = vec![desk(1, "d", 0, &[a]), desk(2, "d", 1, &[])];

    let m = match_desktops(&was, &now);
    assert_eq!(m.get(SpaceId::new(1)), Some(SpaceId::new(1)));
    assert_eq!(m.unclaimed, vec![SpaceId::new(2)]);
}

#[test]
fn matching_is_idempotent() {
    let a = wid(1, 1);
    let b = wid(1, 2);
    let was = vec![desk(126, "builtin", 0, &[a]), desk(53, "lg", 0, &[b])];
    let now = vec![desk(149, "builtin", 0, &[a]), desk(151, "lg", 0, &[b])];

    let first = match_desktops(&was, &now);
    let second = match_desktops(&was, &now);
    assert_eq!(first.by_recorded, second.by_recorded);
    assert_eq!(first.unclaimed, second.unclaimed);
}

#[test]
fn the_lid_case_two_displays_renumbered_at_once() {
    // Lid shut while unplugging, opened before plugging back in. Both
    // displays' desktops are renumbered, and the windows are the only thing
    // that did not change.
    let safari = wid(10, 1);
    let te1 = wid(11, 1);
    let te2 = wid(11, 2);
    let other = wid(12, 1);
    // Every id is new, and the LG's two desktops come back in the other
    // order -- so position points at the wrong one for both of them, and
    // only the windows say which is which.
    let was = vec![
        desk(126, "builtin", 0, &[safari]),
        desk(53, "lg", 0, &[te1, te2]),
        desk(6, "lg", 1, &[other]),
    ];
    let now = vec![
        desk(160, "builtin", 0, &[safari]),
        desk(151, "lg", 0, &[other]),
        desk(5, "lg", 1, &[te1, te2]),
    ];

    let m = match_desktops(&was, &now);
    assert_eq!(m.get(SpaceId::new(126)), Some(SpaceId::new(160)));
    assert_eq!(m.get(SpaceId::new(53)), Some(SpaceId::new(5)));
    assert_eq!(m.get(SpaceId::new(6)), Some(SpaceId::new(151)));
    assert!(m.unclaimed.is_empty(), "nothing should be left over");
}

#[test]
fn a_pairing_is_scored_by_content_then_place() {
    let a = wid(1, 1);
    let b = wid(1, 2);
    // One shared, one missing, same display and index, another id.
    assert_eq!(score(&desk(1, "d", 0, &[a, b]), &desk(2, "d", 0, &[a])), 100 - 30 + 40 + 20);
    // Two empty desktops in the same place under the same id.
    assert_eq!(score(&desk(1, "d", 0, &[]), &desk(1, "d", 0, &[])), 30 + 40 + 20 + 10);
    // Nothing in common but the place.
    assert_eq!(score(&desk(1, "d", 0, &[a]), &desk(1, "d", 0, &[b])), -30 - 30 + 40 + 20 + 10);
    // A window listed twice counts once.
    assert_eq!(score(&desk(1, "d", 0, &[a, a]), &desk(2, "e", 1, &[a])), 100);
}

#[test]
fn an_unlisted_display_is_no_common_display() {
    let mut was = desk(1, "d", 0, &[wid(1, 1)]);
    was.display = None;
    let mut now = desk(2, "d", 0, &[wid(1, 1)]);
    now.display = None;
    assert_eq!(score(&was, &now), 100);
}

#[test]
fn every_recorded_desktop_gets_a_verdict() {
    let was = vec![desk(1, "d", 0, &[wid(1, 1)]), desk(2, "d", 1, &[wid(1, 2)])];
    let m = match_desktops(&was, &[]);
    assert_eq!(m.by_recorded.get(&SpaceId::new(1)), Some(&Match::Gone));
    assert_eq!(m.by_recorded.get(&SpaceId::new(2)), Some(&Match::Gone));
    assert_eq!(m.by_recorded.get(&SpaceId::new(3)), None);
    assert_eq!(m.get(SpaceId::new(1)), None);
}
