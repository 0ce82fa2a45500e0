use rift::commands::DisplaySelector;
use rift::displays::{
    display_focus, move_window_to_display, move_workspace_to_display, screen_for_direction,
    screen_for_selector, screen_for_selector_around, screens_in_physical_order, visible_spaces,
    window_to_move, workspace_move_steps, DisplayFocus, DisplayMove, Distance, MoveFacts,
    MoveRefused, Place, WorkspaceMove, WorkspaceMoveFacts, WorkspaceMoveRefused, WorkspaceStep,
};
use rift::ids::{SpaceId, WindowId};
use rift::layout::Direction;
use rift::lists::IdSet;
use rift::order::stable_order;
use rift::screens::Screen;

fn space(n: u64) -> SpaceId {
    SpaceId::new(n)
}

fn screen(uuid: &str, shows: Option<u64>) -> Screen {
    Screen { display_uuid: uuid.to_string(), space: shows.map(SpaceId::new), has_area: true }
}

fn active(spaces: &[u64]) -> IdSet<SpaceId> {
    let mut set = IdSet::new();
    for n in spaces {
        set.insert(space(*n));
    }
    set
}

#[test]
fn things_of_one_rank_stay_as_listed() {
    assert_eq!(stable_order(&[3u64, 1, 3, 2, 1]), vec![1, 4, 3, 0, 2]);
    assert_eq!(stable_order::<u64>(&[]), Vec::<usize>::new());
    let mut expected: Vec<usize> = (0..50).collect();
    let keys: Vec<u64> = (0..50).map(|i| (i * 37) % 11).collect();
    expected.sort_by_key(|i| keys[*i]);
    assert_eq!(stable_order(&keys), expected);
}

#[test]
fn screens_are_counted_from_left_to_right() {
    let origins = [Place { x: 10, y: 0 }, Place { x: -5, y: 7 }, Place { x: -5, y: 3 }, Place { x: 10, y: 0 }];
    assert_eq!(screens_in_physical_order(&origins), vec![2, 1, 0, 3]);
}

#[test]
fn the_nearest_screen_is_taken_then_the_one_least_aside() {
    let at = |along, aside| Some(Distance { along, aside });
    assert_eq!(screen_for_direction(&[at(5, 0), None, at(3, 9), at(3, 2), at(3, 2)]), Some(3));
    assert_eq!(screen_for_direction(&[None, None]), None);
}

#[test]
fn a_display_is_named_by_place_name_or_direction() {
    let screens = [screen("a", Some(1)), screen("b", Some(2))];
    let origins = [Place { x: 9, y: 0 }, Place { x: 0, y: 0 }];
    let right = [None, Some(Distance { along: 1, aside: 0 })];
    let pick = |selector| screen_for_selector(&screens, &selector, &origins, &right);
    assert_eq!(pick(DisplaySelector::Index(0)), Some(1));
    assert_eq!(pick(DisplaySelector::Index(1)), Some(0));
    assert_eq!(pick(DisplaySelector::Index(2)), None);
    assert_eq!(pick(DisplaySelector::Uuid("b".to_string())), Some(1));
    assert_eq!(pick(DisplaySelector::Uuid("c".to_string())), None);
    assert_eq!(pick(DisplaySelector::Direction(Direction::Right)), Some(1));
}

#[test]
fn a_display_gets_its_last_focus_back() {
    let last = WindowId::new(1, 1);
    let first = WindowId::new(1, 2);
    assert_eq!(
        display_focus(Some(space(1)), Some(last), Some(first), &active(&[1])),
        DisplayFocus { window: Some(last), target_is_active: true }
    );
    assert_eq!(
        display_focus(Some(space(1)), None, Some(first), &active(&[2])),
        DisplayFocus { window: Some(first), target_is_active: false }
    );
    assert_eq!(
        display_focus(None, Some(last), Some(first), &active(&[])),
        DisplayFocus { window: None, target_is_active: true }
    );
}

#[test]
fn a_window_to_move_is_named_or_in_front() {
    let a = Some(WindowId::new(1, 1));
    let b = Some(WindowId::new(1, 2));
    assert_eq!(window_to_move(true, None, b, a, a), b);
    assert_eq!(window_to_move(true, a, b, None, None), a);
    assert_eq!(window_to_move(false, b, None, None, a), a);
    assert_eq!(window_to_move(false, b, a, None, None), b);
    assert_eq!(window_to_move(false, None, a, None, None), None);
}

#[test]
fn a_window_moves_between_active_desktops_only() {
    let window = WindowId::new(1, 1);
    let facts = MoveFacts {
        dragging: false,
        window: Some(window),
        known: true,
        assigned: None,
        best: Some(space(1)),
        of_frame: Some(space(3)),
        source_active: true,
        found: true,
        target: Some(space(2)),
        target_active: true,
    };
    assert_eq!(
        move_window_to_display(facts),
        Ok(DisplayMove { window, source: space(1), target: space(2) })
    );
    let refused = |facts| move_window_to_display(facts).unwrap_err();
    assert_eq!(refused(MoveFacts { dragging: true, ..facts }), MoveRefused::Dragging);
    assert_eq!(refused(MoveFacts { window: None, ..facts }), MoveRefused::NoWindow);
    assert_eq!(refused(MoveFacts { known: false, ..facts }), MoveRefused::UnknownWindow(window));
    assert_eq!(refused(MoveFacts { source_active: false, ..facts }), MoveRefused::NoSource(window));
    assert_eq!(
        refused(MoveFacts { best: None, of_frame: None, ..facts }),
        MoveRefused::NoSource(window)
    );
    assert_eq!(refused(MoveFacts { found: false, ..facts }), MoveRefused::NoDisplay);
    assert_eq!(refused(MoveFacts { target: None, ..facts }), MoveRefused::NoTarget);
    assert_eq!(refused(MoveFacts { target_active: false, ..facts }), MoveRefused::NoTarget);
    assert_eq!(refused(MoveFacts { assigned: Some(space(2)), ..facts }), MoveRefused::SameSpace);
}

#[test]
fn visible_desktops_are_those_shown_and_active() {
    let screens = [screen("a", Some(1)), screen("b", None), screen("c", Some(3))];
    assert_eq!(visible_spaces(&screens, &active(&[3]), false), vec![space(3)]);
    assert_eq!(visible_spaces(&screens, &active(&[3]), true), vec![space(1), space(3)]);
}

#[test]
fn a_direction_goes_on_from_the_opposite_edge() {
    let screens = [screen("a", Some(1)), screen("b", Some(2)), screen("c", Some(3))];
    let origins = [Place { x: 0, y: 0 }, Place { x: 5, y: 0 }, Place { x: 9, y: 0 }];
    let at = |along| Some(Distance { along, aside: 0 });
    let edge = [at(0), at(5), None];
    let right = DisplaySelector::Direction(Direction::Right);
    let pick = |selector: &DisplaySelector, wrap_around, distances: &[Option<Distance>]| {
        screen_for_selector_around(&screens, selector, wrap_around, &origins, distances, &edge)
    };
    assert_eq!(pick(&right, true, &[None, None, at(4)]), Some(2));
    assert_eq!(pick(&right, true, &[None, None, None]), Some(0));
    assert_eq!(pick(&right, false, &[None, None, None]), None);
    assert_eq!(pick(&DisplaySelector::Index(3), true, &[None, None, None]), None);
    assert_eq!(pick(&DisplaySelector::Index(1), true, &[None, None, None]), Some(1));
}

#[test]
fn a_moved_workspace_keeps_its_place() {
    let facts = WorkspaceMoveFacts {
        source: Some(space(1)),
        source_active: true,
        ordinal: Some(2),
        found: true,
        target: Some(space(5)),
        target_active: true,
        target_workspaces: 3,
    };
    let refused = |facts| move_workspace_to_display(facts).unwrap_err();
    let moved = WorkspaceMove { source: space(1), target: space(5), ordinal: 2 };
    assert_eq!(move_workspace_to_display(facts), Ok(moved));
    let no_source = WorkspaceMoveRefused::NoSource;
    assert_eq!(refused(WorkspaceMoveFacts { source: None, ..facts }), no_source);
    assert_eq!(refused(WorkspaceMoveFacts { source_active: false, ..facts }), no_source);
    assert_eq!(refused(WorkspaceMoveFacts { ordinal: None, ..facts }), no_source);
    let lost = WorkspaceMoveFacts { found: false, ..facts };
    assert_eq!(refused(lost), WorkspaceMoveRefused::NoDisplay);
    let no_target = WorkspaceMoveRefused::NoTarget;
    assert_eq!(refused(WorkspaceMoveFacts { target: None, ..facts }), no_target);
    assert_eq!(refused(WorkspaceMoveFacts { target_active: false, ..facts }), no_target);
    let there = WorkspaceMoveFacts { target: Some(space(1)), ..facts };
    assert_eq!(refused(there), WorkspaceMoveRefused::SameSpace);
    let fewer = WorkspaceMoveFacts { target_workspaces: 2, ..facts };
    assert_eq!(refused(fewer), WorkspaceMoveRefused::NoCounterpart(2));
    let window = |idx| WindowId::new(1, idx);
    let assign = |idx| WorkspaceStep::Assign { window: window(idx), space: space(5), ordinal: 2 };
    let activate = WorkspaceStep::Activate { space: space(5), ordinal: 2 };
    assert_eq!(
        workspace_move_steps(moved, &[window(1), window(2)]),
        vec![assign(1), assign(2), activate]
    );
    assert_eq!(workspace_move_steps(moved, &[]), vec![activate]);
}
