use rift::arrange::{
    layout_news, take_skipped, windows_to_bound, ArrangeSpace, LayoutJob, LayoutManager, LayoutNews,
    LayoutRequest, LayoutWrite, NewsFacts,
};
use rift::drag::{
    collect_drag_swap_candidates, dragged_float_space, drop_action_for, find_target_under_pointer,
    float_drag_strips, modifier_step, settle_held_window, CandidateWindow, DragManager, DragState,
    DropAction, DropAim, DropFacts, DropLook, DropPair, DropPreview, ModifierStep, MouseAction,
    MouseUpFacts, OverlayStep, PreviewSource, SeamFacts, StripWindow,
};
use rift::ids::{SpaceId, WindowId, WindowServerId};
use rift::layout::Direction;
use rift::lists::IdSet;
use rift::native_spaces::pinned_space;
use rift::screens::{Listing, Screen};

const MS: u64 = 1_000_000;

type Drag = DragManager<&'static str, (i32, i32)>;

fn window(idx: u32) -> WindowId {
    WindowId::new(1, idx)
}

fn space(n: u64) -> SpaceId {
    SpaceId::new(n)
}

fn at(n: u64) -> Option<SpaceId> {
    Some(space(n))
}

fn dragging() -> Drag {
    let mut drag = Drag::new();
    drag.ensure_active_drag(window(1), "frame", at(1));
    drag
}

fn tile(idx: u32) -> CandidateWindow {
    CandidateWindow {
        window: window(idx),
        admitted: true,
        floating: false,
        tiled_here: true,
        shares_stack: false,
        under_pointer: false,
        near_pointer: false,
    }
}

fn drop_facts() -> DropFacts {
    DropFacts { known: true, pointer_space: at(1), frame_space: at(1), origin_frame_space: None }
}

const POINTED: DropLook =
    DropLook { in_active_workspace: true, dragged_tiled: true, pointer: true, overlapped: None };

const NO_AIM: DropAim<&str> = DropAim { enabled: false, raw: None, landing: None };

/// Looks for a drop with the pointer over one of the tiles two and three, or none.
fn evaluate(drag: &mut Drag, target: Option<u32>, aim: DropAim<&'static str>, now: u64) -> OverlayStep {
    let windows = [2, 3].map(|idx| CandidateWindow {
        under_pointer: target == Some(idx),
        ..tile(idx)
    });
    drag.evaluate_drop_target(window(1), "moved", drop_facts(), POINTED, &windows, aim, now)
}

fn over(target: u32) -> Drag {
    let mut drag = dragging();
    evaluate(&mut drag, Some(target), NO_AIM, 0);
    drag
}

fn preview(target: u32, action: DropAction) -> DropPreview<&'static str> {
    DropPreview { dragged: window(1), target: window(target), action, screen: "s", region: "r" }
}

#[test]
fn a_drag_begins_and_finds_a_target() {
    let mut drag = dragging();
    assert!(drag.is_in_drag());
    assert_eq!(drag.window_in_drag(), Some(window(1)));
    assert_eq!(drag.get_active_drag_session().unwrap().origin_space, at(1));
    assert_eq!(drag.skip_layout_for_window, Some(window(1)));
    assert_eq!(evaluate(&mut drag, Some(2), NO_AIM, 0), OverlayStep::Nothing);
    assert_eq!(drag.get_pending_drag_swap(), Some((window(1), window(2))));
    assert_eq!(drag.last_target(), Some(window(2)));
    assert_eq!(drag.dragged(), Some(window(1)));
    assert_eq!(drag.origin_frame(), Some("moved"));
    assert!(drag.get_active_drag_session().is_none());
    assert!(drag.current_drag_session().is_some());
    evaluate(&mut drag, None, NO_AIM, 0);
    assert_eq!(drag.get_pending_drag_swap(), None);
    assert_eq!(drag.last_target(), None);
    assert_eq!(drag.dragged(), Some(window(1)));
    assert_eq!(drag.skip_layout_for_window, None);
    assert!(drag.take_active_drag_session().is_some());
    assert!(!drag.is_in_drag());
    assert!(drag.take_active_drag_session().is_none());
    drag.skip_layout_for_window = Some(window(1));
    evaluate(&mut drag, Some(2), NO_AIM, 0);
    assert!(matches!(drag.drag_state, DragState::Inactive));
    assert_eq!(drag.skip_layout_for_window, Some(window(1)));
    assert_eq!(drag.last_target(), None);
    drag.reset();
    assert_eq!(drag.dragged(), None);
    assert_eq!(drag.origin_frame(), None);
}

#[test]
fn a_drop_is_shown_while_the_pointer_is_over_a_tile() {
    let mut drag = dragging();
    let aim = DropAim { enabled: true, raw: Some(DropAction::Swap), landing: Some(("s", "r")) };
    let source = |drag: &Drag, now| {
        drag.preview_source(true, window(1), window(2), Some(DropAction::Swap), now)
    };
    assert_eq!(source(&drag, 0), PreviewSource::Region(DropAction::Swap));
    assert_eq!(evaluate(&mut drag, Some(2), aim, 0), OverlayStep::Aim);
    assert!(drag.drop_overlay_shown);
    assert_eq!(drag.drop_preview_cache.unwrap().region, "r");
    assert_eq!(source(&drag, 0), PreviewSource::Cached);
    assert_eq!(evaluate(&mut drag, Some(2), DropAim { landing: None, ..aim }, 0), OverlayStep::Nothing);
    let left = DropAim { raw: Some(DropAction::Insert(Direction::Left)), ..aim };
    assert_eq!(evaluate(&mut drag, Some(2), left, 0), OverlayStep::Nothing);
    assert!(drag.zone_candidate.is_some());
    assert_eq!(evaluate(&mut drag, Some(2), left, 150 * MS), OverlayStep::Aim);
    assert_eq!(drag.drop_preview_cache.unwrap().action, DropAction::Insert(Direction::Left));
    drag.zone_candidate = None;
    assert_eq!(evaluate(&mut drag, None, aim, 0), OverlayStep::Hide);
    assert!(drag.drop_preview_cache.is_none());
    assert!(drag.zone_candidate.is_none());
    assert!(!drag.drop_overlay_shown);
    assert_eq!(evaluate(&mut drag, None, aim, 0), OverlayStep::Nothing);
    evaluate(&mut drag, Some(3), aim, 0);
    assert_eq!(evaluate(&mut drag, Some(3), DropAim { raw: None, ..aim }, 0), OverlayStep::Hide);
    assert_eq!(evaluate(&mut drag, Some(2), DropAim { landing: None, ..aim }, 0), OverlayStep::Nothing);
    assert!(!drag.drop_overlay_shown);
}

#[test]
fn a_drop_is_looked_for_only_in_the_active_workspace() {
    let mut drag = over(2);
    let windows = [CandidateWindow { under_pointer: true, ..tile(3) }];
    let aim = NO_AIM;
    let away = DropLook { in_active_workspace: false, ..POINTED };
    assert_eq!(drag.find_drop_target(window(1), drop_facts(), away, &windows), None);
    drag.evaluate_drop_target(window(1), "moved", drop_facts(), away, &windows, aim, 0);
    assert_eq!(drag.get_pending_drag_swap(), Some((window(1), window(2))));
    let unknown = DropFacts { known: false, ..drop_facts() };
    drag.evaluate_drop_target(window(1), "moved", unknown, POINTED, &windows, aim, 0);
    assert_eq!(drag.get_pending_drag_swap(), Some((window(1), window(2))));
    assert_eq!(drag.find_drop_target(window(1), drop_facts(), POINTED, &windows), Some(window(3)));
    let untiled = DropLook { dragged_tiled: false, ..POINTED };
    assert_eq!(drag.find_drop_target(window(1), drop_facts(), untiled, &windows), None);
    let blind = DropLook { pointer: false, overlapped: Some(window(3)), ..POINTED };
    drag.drop_overlay_shown = true;
    let step = drag.evaluate_drop_target(window(1), "again", drop_facts(), blind, &[], aim, 0);
    assert_eq!(step, OverlayStep::Hide);
    assert_eq!(drag.get_pending_drag_swap(), Some((window(1), window(3))));
    assert_eq!(drag.origin_frame(), Some("moved"));
}

#[test]
fn a_window_moving_with_the_button_down_is_held() {
    let mut drag = Drag::new();
    drag.note_frame_report(window(1), false, true);
    drag.note_frame_report(window(1), true, false);
    assert_eq!(drag.window_in_drag(), None);
    drag.note_frame_report(window(1), true, true);
    assert_eq!(drag.window_in_drag(), Some(window(1)));
    assert!(!drag.is_in_drag());

    let mut drag = Drag::new();
    drag.hold_if_dragged_across_spaces(window(2), space(2), false, at(1), true);
    drag.hold_if_dragged_across_spaces(window(2), space(2), true, at(2), true);
    drag.hold_if_dragged_across_spaces(window(2), space(2), true, at(1), false);
    assert_eq!(drag.held_window, None);
    drag.hold_if_dragged_across_spaces(window(2), space(2), true, at(1), true);
    assert_eq!(drag.held_window, Some(window(2)));
}

#[test]
fn a_preview_follows_once_the_pointer_has_dwelt() {
    let mut drag = over(2);
    assert_eq!(
        drag.drop_preview_for(false, window(1), window(2), Some(DropAction::Swap), 0),
        PreviewSource::Nothing
    );
    assert_eq!(
        drag.drop_preview_for(true, window(1), window(2), Some(DropAction::Swap), 0),
        PreviewSource::Region(DropAction::Swap)
    );
    assert_eq!(drag.preview_drop_region(preview(2, DropAction::Swap)), OverlayStep::Aim);
    assert_eq!(drag.preview_drop_region(preview(2, DropAction::Swap)), OverlayStep::Nothing);
    let left = DropAction::Insert(Direction::Left);
    assert_eq!(drag.sticky_drop_action(window(1), window(2), left, 0), DropAction::Swap);
    assert_eq!(drag.sticky_drop_action(window(1), window(2), left, 149 * MS), DropAction::Swap);
    assert_eq!(drag.sticky_drop_action(window(1), window(2), left, 150 * MS), left);
    assert_eq!(drag.reconcile_overlay(), OverlayStep::Nothing);
    drag.drag_state = DragState::Inactive;
    assert_eq!(drag.reconcile_overlay(), OverlayStep::Hide);
    assert_eq!(drag.hide_drop_region(), OverlayStep::Nothing);
}

#[test]
fn only_tiled_windows_outside_the_stack_are_dropped_on() {
    let other = tile(2);
    let pick = |tiled, w| collect_drag_swap_candidates(window(1), tiled, &[w]).len();
    assert_eq!(pick(true, other), 1);
    assert_eq!(pick(false, other), 0);
    assert_eq!(pick(true, CandidateWindow { window: window(1), ..other }), 0);
    assert_eq!(pick(true, CandidateWindow { admitted: false, ..other }), 0);
    assert_eq!(pick(true, CandidateWindow { floating: true, ..other }), 0);
    assert_eq!(pick(true, CandidateWindow { tiled_here: false, ..other }), 0);
    assert_eq!(pick(true, CandidateWindow { shares_stack: true, ..other }), 0);
}

#[test]
fn in_the_gap_the_last_target_stands() {
    let candidate = |idx, under_pointer, near_pointer| CandidateWindow {
        under_pointer,
        near_pointer,
        ..tile(idx)
    };
    let pending = Some((window(1), window(3)));
    let find = find_target_under_pointer;
    assert_eq!(
        find(&[candidate(2, true, true), candidate(3, false, true)], window(1), pending),
        Some(window(2))
    );
    let gap = [candidate(2, false, true), candidate(3, false, true)];
    assert_eq!(find(&gap, window(1), pending), Some(window(3)));
    assert_eq!(find(&gap, window(4), pending), None);
    assert_eq!(find(&gap, window(1), None), None);
    assert_eq!(find(&[candidate(3, false, false)], window(1), pending), None);
}

#[test]
fn a_drop_is_looked_for_under_the_pointer() {
    let facts = DropFacts {
        known: true,
        pointer_space: at(5),
        frame_space: at(6),
        origin_frame_space: at(7),
    };
    assert_eq!(dragging().drop_spaces(facts), Some((space(5), space(1))));
    let no_pointer = DropFacts { pointer_space: None, ..facts };
    assert_eq!(dragging().drop_spaces(no_pointer), Some((space(1), space(1))));
    let mut unsettled = Drag::new();
    unsettled.ensure_active_drag(window(1), "frame", None);
    assert_eq!(unsettled.drop_spaces(no_pointer), Some((space(6), space(7))));
    assert_eq!(dragging().drop_spaces(DropFacts { known: false, ..facts }), None);
    assert_eq!(Drag::new().drop_spaces(facts), None);
}

#[test]
fn a_drop_across_displays_inserts() {
    let pair = DropPair {
        dragged_floating: false,
        target_floating: false,
        target_space: at(1),
        target_tiled: true,
        dragged_space: at(1),
        dragged_tiled: true,
        zone: Some(DropAction::Swap),
        edge: Direction::Up,
        can_insert: true,
    };
    assert_eq!(drop_action_for(pair), Some(DropAction::Swap));
    let left = Some(DropAction::Insert(Direction::Left));
    assert_eq!(drop_action_for(DropPair { zone: left, ..pair }), left);
    assert_eq!(
        drop_action_for(DropPair { zone: left, can_insert: false, ..pair }),
        Some(DropAction::Swap)
    );
    let across = DropPair { dragged_space: at(2), ..pair };
    assert_eq!(drop_action_for(across), Some(DropAction::Insert(Direction::Up)));
    assert_eq!(drop_action_for(DropPair { zone: left, ..across }), left);
    assert_eq!(drop_action_for(DropPair { can_insert: false, ..across }), None);
    for nothing in [
        DropPair { dragged_floating: true, ..pair },
        DropPair { target_floating: true, ..pair },
        DropPair { target_tiled: false, ..pair },
        DropPair { dragged_tiled: false, ..pair },
        DropPair { target_space: None, ..pair },
        DropPair { zone: None, ..pair },
    ] {
        assert_eq!(drop_action_for(nothing), None);
    }
}

fn up() -> MouseUpFacts {
    MouseUpFacts {
        target_space: at(2),
        dragged_sys_id: Some(WindowServerId::new(7)),
        dragged_space: at(3),
        origin_frame_space: at(4),
        first_space: at(5),
        pointer_space: at(6),
        last_frame_space: at(8),
        session_space: at(9),
        pointed_action: Some(DropAction::Swap),
    }
}

#[test]
fn a_drop_does_what_was_shown_on_its_targets_desktop() {
    let mut drag = over(2);
    let right = DropAction::Insert(Direction::Right);
    drag.preview_drop_region(preview(2, right));
    let plan = drag.mouse_up(up(), 0);
    assert_eq!(plan.pending_swap, Some((window(1), window(2))));
    assert_eq!(plan.drop_action, Some(right));
    assert_eq!(plan.swap_space, at(2));
    assert_eq!(plan.final_space, at(2));
    assert!(plan.hide_overlay);
    assert!(drag.drop_preview_cache.is_none());
    // The pin holds until the write has landed.
    assert_eq!(pinned_space(drag.drop_pin, WindowServerId::new(7), 1499 * MS), at(2));
    assert_eq!(pinned_space(drag.drop_pin, WindowServerId::new(7), 1500 * MS), None);
    assert_eq!(pinned_space(drag.drop_pin, WindowServerId::new(8), 0), None);
    assert_eq!(drag.release_drop_pin_if_landed(at(3), 199 * MS), None);
    assert_eq!(drag.release_drop_pin_if_landed(at(3), 200 * MS), Some(WindowServerId::new(7)));
    drag.drop_pin_probed(at(3));
    assert!(drag.drop_pin.is_some());
    assert_eq!(drag.release_drop_pin_if_landed(at(3), 399 * MS), None);
    drag.drop_pin_probed(at(2));
    assert!(drag.drop_pin.is_none());
    // Without a preview the pointer says what is done.
    assert_eq!(over(2).mouse_up(up(), 0).drop_action, Some(DropAction::Swap));
}

#[test]
fn a_pin_ends_with_its_hold() {
    let mut drag = over(2);
    drag.mouse_up(up(), 0);
    assert_eq!(drag.release_drop_pin_if_landed(at(3), 1500 * MS), None);
    assert!(drag.drop_pin.is_none());
    let mut drag = over(2);
    drag.mouse_up(up(), 0);
    assert_eq!(drag.release_drop_pin_if_landed(at(2), 0), None);
    assert!(drag.drop_pin.is_none());
}

#[test]
fn a_drop_on_nothing_goes_where_the_pointer_let_go() {
    let mut drag = dragging();
    drag.held_window = Some(window(3));
    let plan = drag.mouse_up(up(), 0);
    assert_eq!(plan.final_space, at(6));
    assert_eq!(plan.swap_space, at(4));
    assert_eq!(plan.drop_action, None);
    assert_eq!(plan.settle, Some(window(3)));
    assert!(drag.drop_pin.is_none() && drag.held_window.is_none());
    let off = MouseUpFacts { pointer_space: None, ..up() };
    assert_eq!(dragging().mouse_up(off, 0).final_space, at(1));
    let nowhere = Drag::new().mouse_up(off, 0);
    assert_eq!((nowhere.final_space, nowhere.settle), (None, None));
    assert_eq!(settle_held_window(at(2), true, at(1)), at(2));
    assert_eq!(settle_held_window(at(2), true, at(2)), None);
    assert_eq!(settle_held_window(at(2), false, at(1)), None);
    assert_eq!(settle_held_window(None, true, at(1)), None);
}

#[test]
fn a_drop_across_the_seam_is_put_right_twice_at_most() {
    let facts = SeamFacts { floating: true, button_down: false, known: true, moved: true, landed: false };
    let mut drag = Drag::new();
    drag.watch_seam(window(1), "dropped", Some((1, 2)), 0);
    assert_eq!(drag.assert_seam_finish(facts, Some("fit"), 249 * MS), None);
    assert_eq!(drag.assert_seam_finish(facts, Some("fit"), 250 * MS), Some((window(1), "fit")));
    assert_eq!(drag.assert_seam_finish(facts, Some("other"), 500 * MS), Some((window(1), "fit")));
    assert_eq!(drag.assert_seam_finish(facts, Some("fit"), 750 * MS), None);
    assert!(drag.seam_finish.is_none());

    let mut drag = Drag::new();
    drag.watch_seam(window(1), "dropped", None, 0);
    let stayed = SeamFacts { moved: false, ..facts };
    assert_eq!(drag.assert_seam_finish(stayed, Some("fit"), 250 * MS), None);
    assert!(drag.seam_finish.is_none());

    let mut drag = Drag::new();
    drag.watch_seam(window(1), "dropped", None, 0);
    let held = SeamFacts { button_down: true, ..facts };
    assert_eq!(drag.assert_seam_finish(held, Some("fit"), 250 * MS), None);
    assert!(drag.seam_finish.is_none());
}

#[test]
fn a_dragged_float_is_silenced_and_followed() {
    let mut drag = dragging();
    assert_eq!(drag.sync_drag_notification_silence(false), (None, None));
    assert_eq!(drag.sync_drag_notification_silence(true), (None, Some(window(1))));
    assert_eq!(drag.sync_drag_notification_silence(true), (None, None));
    assert_eq!(drag.sync_drag_notification_silence(false), (Some(window(1)), None));
    assert!(!drag.space_sync_due(false, 0));
    assert!(drag.space_sync_due(true, 0));
    assert!(!drag.space_sync_due(true, 99 * MS));
    assert!(drag.space_sync_due(true, 100 * MS));
    assert!(!Drag::new().space_sync_due(true, 0));
    assert_eq!(dragged_float_space(at(2), true, at(1)), at(2));
    assert_eq!(dragged_float_space(at(2), true, at(2)), None);
    assert_eq!(dragged_float_space(at(2), false, at(1)), None);
    assert_eq!(dragged_float_space(at(2), true, None), at(2));
}

#[test]
fn a_modifier_drag_resizes_tiled_windows_through_their_layout() {
    assert_eq!(modifier_step(MouseAction::Move, true, true), ModifierStep::Write);
    assert_eq!(modifier_step(MouseAction::Resize, true, true), ModifierStep::Write);
    assert_eq!(modifier_step(MouseAction::Resize, true, false), ModifierStep::ReportResize);
    assert_eq!(modifier_step(MouseAction::Move, true, false), ModifierStep::Nothing);
    assert_eq!(modifier_step(MouseAction::Ignore, true, true), ModifierStep::Nothing);
    assert_eq!(modifier_step(MouseAction::Move, false, true), ModifierStep::Nothing);
}

fn screen(uuid: &str, shows: Option<u64>) -> Screen {
    Screen { display_uuid: uuid.to_string(), space: shows.map(SpaceId::new), has_area: true }
}

#[test]
fn the_window_in_hand_is_not_laid_out() {
    let mut drag = dragging();
    assert_eq!(take_skipped(&mut drag, false), Some(window(1)));
    assert_eq!(drag.skip_layout_for_window, Some(window(1)));
    drag.drag_state = DragState::Inactive;
    assert_eq!(take_skipped(&mut drag, false), Some(window(1)));
    assert_eq!(take_skipped(&mut drag, false), None);
    drag.watch_seam(window(3), "dropped", None, 0);
    assert_eq!(take_skipped(&mut drag, false), None);
    assert_eq!(take_skipped(&mut drag, true), Some(window(3)));
    drag.drag_swap.dragged = Some(window(4));
    assert_eq!(take_skipped(&mut drag, true), Some(window(4)));
}

#[test]
fn shown_and_adopted_desktops_are_arranged() {
    let layouts = LayoutManager {
        placed: vec![space(1), space(2)],
        laid_out: vec![space(1), space(2), space(3)],
        scrolling: vec![space(1)],
    };
    let screens = [screen("a", Some(1)), screen("b", Some(9))];
    let mut listing = Listing::new();
    // 2 is on a display, 3 came across from one that left, 4 has no tree.
    listing.insert("a".to_string(), vec![space(1), space(2), space(3), space(4)]);
    let shown = ArrangeSpace { space: space(1), screen: 0, shown: true };
    let adopted = ArrangeSpace { space: space(3), screen: 0, shown: false };
    let other = ArrangeSpace { space: space(9), screen: 1, shown: true };
    assert_eq!(layouts.spaces_to_arrange(&screens, &listing), vec![shown, adopted, other]);

    let mut active = IdSet::new();
    active.insert(space(1));
    let jobs = layouts.calculate_layout(&screens, &listing, &active, None, true);
    assert_eq!(
        jobs,
        vec![
            LayoutJob { arrange: shown, bounded: false },
            LayoutJob { arrange: adopted, bounded: false }
        ]
    );
    active.insert(space(9));
    let jobs = layouts.calculate_layout(&screens, &listing, &active, at(1), true);
    assert_eq!(jobs, vec![LayoutJob { arrange: shown, bounded: true }]);
    assert!(layouts.calculate_layout(&screens, &listing, &active, None, false).is_empty());

    let request = LayoutRequest {
        scope: at(1),
        any_window: true,
        seam_floats: false,
        is_workspace_switch: false,
        switch_settling: true,
    };
    let mut drag = dragging();
    let plan = layouts.update_layout(&mut drag, &screens, &listing, &active, request);
    assert_eq!(plan.jobs.len(), 1);
    assert_eq!(plan.skip, Some(window(1)));
    assert_eq!(plan.write, LayoutWrite::Instant);
    let switch = LayoutRequest { is_workspace_switch: true, ..request };
    let plan = layouts.update_layout(&mut drag, &screens, &listing, &active, switch);
    assert_eq!(plan.write, LayoutWrite::WorkspaceSwitch);
    let calm = LayoutRequest { switch_settling: false, ..request };
    let plan = layouts.update_layout(&mut drag, &screens, &listing, &active, calm);
    assert_eq!(plan.write, LayoutWrite::Animated);
}

#[test]
fn stacks_are_told_of_where_they_are_shown() {
    let facts = NewsFacts {
        space: space(1),
        command_space: at(1),
        has_screen: true,
        stack_line_enabled: true,
        has_stack_line: true,
        has_workspace: true,
        workspace_fullscreen: true,
        stacks: 2,
    };
    assert_eq!(
        layout_news(facts),
        LayoutNews { stack_line: true, broadcast: true, fullscreen: true }
    );
    let silent = LayoutNews { stack_line: false, broadcast: false, fullscreen: false };
    let plain = NewsFacts { stack_line_enabled: false, stacks: 0, command_space: at(2), ..facts };
    assert_eq!(layout_news(plain), silent);
    assert_eq!(layout_news(NewsFacts { has_screen: false, ..facts }), silent);
    let list = [window(1), window(2), window(3)];
    assert_eq!(
        windows_to_bound(&list, &[window(1), window(3)], &[window(3)]),
        vec![window(1)]
    );
}

#[test]
fn only_floats_are_dragged_by_their_strips() {
    let float = StripWindow {
        window: window(1),
        number: Some(WindowServerId::new(5)),
        floating: true,
    };
    let windows = [
        float,
        StripWindow { window: window(2), floating: false, ..float },
        StripWindow { window: window(3), number: None, ..float },
    ];
    assert_eq!(float_drag_strips(true, &windows), vec![(WindowServerId::new(5), window(1))]);
    assert!(float_drag_strips(false, &windows).is_empty());
}
