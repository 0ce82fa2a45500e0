//! Taking in a report of the topology: what it changes, and what is done about
//! it in which order.

use vstd::prelude::*;

use crate::ids::{SpaceId, WindowId};
use crate::lists::{holds, if_due, push_when, IdSet};
use crate::managers::{PendingSpaceChangeManager, RefocusManager, StaleCleanupState};
use crate::screens::Screen;
use crate::table::Table;
use crate::topology::SpaceState;

verus! {

/// What is known of a report beside what it says.
#[derive(Clone, Copy, Debug, PartialEq, Eq, Structural)]
pub struct SnapshotFacts {
    /// Nothing changed but which desktop commands are for.
    pub command_space_only: bool,
    pub display_set_changed: bool,
    /// Frame writes that are still to land are for a topology that is gone.
    pub invalidates_pending_targets: bool,
    pub mission_control: bool,
    /// It is the first after a sleep or a lock.
    pub releases_quarantine: bool,
    /// It says which windows came and went.
    pub has_window_delta: bool,
    pub force_refresh: bool,
}

/// What is done about a report.
#[derive(Clone, Copy, Debug, PartialEq, Eq, Structural)]
pub enum SnapshotStep {
    ReconcileStartupSpaces,
    /// Departed displays are archived, before the layout forgets them.
    ArchiveDeparted,
    PruneDisplays,
    NoteDisplaySet,
    ExposeAll,
    /// The manager is active on no desktop.
    DeactivateAll,
    ForgetVisibleWindows,
    ClearHiddenTargets,
    RemapSpaces,
    UpdateSpaceDisplays,
    BeginHoming,
    UpdateActivation,
    RecomputeActive,
    RestoreAfterFullscreen,
    ExposeResized,
    ExposeUnlaid,
    ApplyWindowDelta,
    Finalize,
    SettleDisplaced,
    FollowSwitch,
    TryPending,
    RefreshAndArrange,
}

/// How far a report is taken.
#[derive(Clone, Copy, Debug, PartialEq, Eq, Structural)]
pub enum SnapshotRoute {
    /// Only the desktop that commands are for is taken.
    CommandSpaceOnly,
    /// There is no screen.
    NoScreens,
    /// It is kept until Mission Control is over.
    Held,
    Whole,
}

/// How far a report is taken.
pub open spec fn route_of(facts: SnapshotFacts, has_screens: bool) -> SnapshotRoute {
    if facts.command_space_only {
        SnapshotRoute::CommandSpaceOnly
    } else if !has_screens {
        SnapshotRoute::NoScreens
    } else if facts.mission_control {
        SnapshotRoute::Held
    } else {
        SnapshotRoute::Whole
    }
}

/// What is done about a report, in order.
pub open spec fn steps_of(facts: SnapshotFacts, had_screens: bool, has_screens: bool) -> Seq<
    SnapshotStep,
> {
    let route = route_of(facts, has_screens);
    let first = seq![SnapshotStep::ReconcileStartupSpaces];
    let noted = first + if_due(facts.display_set_changed, SnapshotStep::ArchiveDeparted) + if_due(
        facts.display_set_changed,
        SnapshotStep::PruneDisplays,
    ) + if_due(true, SnapshotStep::NoteDisplaySet);
    let targets = noted + if_due(
        facts.invalidates_pending_targets,
        SnapshotStep::ClearHiddenTargets,
    );
    match route {
        SnapshotRoute::CommandSpaceOnly => first,
        SnapshotRoute::NoScreens => noted + if_due(had_screens, SnapshotStep::ExposeAll) + if_due(
            true,
            SnapshotStep::DeactivateAll,
        ) + if_due(true, SnapshotStep::ForgetVisibleWindows) + if_due(
            true,
            SnapshotStep::TryPending,
        ),
        SnapshotRoute::Held => targets,
        SnapshotRoute::Whole => targets + if_due(true, SnapshotStep::RemapSpaces) + if_due(
            true,
            SnapshotStep::UpdateSpaceDisplays,
        ) + if_due(true, SnapshotStep::BeginHoming) + if_due(
            true,
            SnapshotStep::UpdateActivation,
        ) + if_due(true, SnapshotStep::RecomputeActive) + if_due(
            true,
            SnapshotStep::RestoreAfterFullscreen,
        ) + if_due(true, SnapshotStep::ExposeResized) + if_due(true, SnapshotStep::ExposeUnlaid)
            + if_due(facts.has_window_delta, SnapshotStep::ApplyWindowDelta) + if_due(
            true,
            SnapshotStep::Finalize,
        ) + if_due(true, SnapshotStep::SettleDisplaced) + if_due(
            !facts.releases_quarantine,
            SnapshotStep::FollowSwitch,
        ) + if_due(true, SnapshotStep::TryPending) + if_due(
            facts.force_refresh,
            SnapshotStep::RefreshAndArrange,
        ),
    }
}

/// The state once a report was taken in.
pub open spec fn state_after(
    before: SpaceState,
    incoming: SpaceState,
    route: SnapshotRoute,
    after: SpaceState,
) -> bool {
    let taken = SpaceState {
        active_window_spaces: incoming.active_window_spaces,
        has_seen_display_set: incoming.has_seen_display_set,
        fullscreen_spaces: incoming.fullscreen_spaces,
        active_spaces: incoming.active_spaces,
        menu_bar_space: incoming.menu_bar_space,
        command_space: incoming.command_space,
        ..before
    };
    match route {
        SnapshotRoute::CommandSpaceOnly => after == taken,
        SnapshotRoute::NoScreens => after.screens@.len() == 0 && after == (SpaceState {
            display_space_ids: incoming.display_space_ids,
            last_user_space_by_display: incoming.last_user_space_by_display,
            screens: after.screens,
            ..taken
        }),
        _ => after == incoming,
    }
}

/// Takes in a report of the topology. What is done about it is returned, in
/// order; `whole` is the report itself, to be kept when Mission Control is on.
pub fn handle_authoritative_space_snapshot<S>(
    state: &mut SpaceState,
    refocus: &mut RefocusManager,
    pending: &mut PendingSpaceChangeManager<S>,
    incoming: SpaceState,
    whole: S,
    facts: SnapshotFacts,
) -> (steps: Vec<SnapshotStep>)
    requires
        old(state).wf(),
        incoming.wf(),
    ensures
        final(state).wf(),
        state_after(
            *old(state),
            incoming,
            route_of(facts, incoming.screens@.len() > 0),
            *final(state),
        ),
        steps@ == steps_of(facts, old(state).screens@.len() > 0, incoming.screens@.len() > 0),
        final(refocus).refocus_state == old(refocus).refocus_state,
        final(refocus).stale_cleanup_state == match route_of(
            facts,
            incoming.screens@.len() > 0,
        ) {
            SnapshotRoute::CommandSpaceOnly => old(refocus).stale_cleanup_state,
            SnapshotRoute::NoScreens => StaleCleanupState::Suppressed,
            _ => StaleCleanupState::Enabled,
        },
        final(pending).pending_space_change == if route_of(facts, incoming.screens@.len() > 0)
            == SnapshotRoute::Held {
            Some(whole)
        } else {
            old(pending).pending_space_change
        },
{
    let mut steps: Vec<SnapshotStep> = Vec::new();
    steps.push(SnapshotStep::ReconcileStartupSpaces);
    assert(steps@ =~= seq![SnapshotStep::ReconcileStartupSpaces]);
    let had_screens = state.screens.len() > 0;
    state.active_window_spaces = incoming.active_window_spaces;
    state.has_seen_display_set = incoming.has_seen_display_set;
    state.fullscreen_spaces = incoming.fullscreen_spaces;
    state.active_spaces = incoming.active_spaces;
    state.menu_bar_space = incoming.menu_bar_space;
    state.command_space = incoming.command_space;
    if facts.command_space_only {
        return steps;
    }
    push_when(&mut steps, facts.display_set_changed, SnapshotStep::ArchiveDeparted);
    push_when(&mut steps, facts.display_set_changed, SnapshotStep::PruneDisplays);
    push_when(&mut steps, true, SnapshotStep::NoteDisplaySet);
    state.display_space_ids = incoming.display_space_ids;
    state.last_user_space_by_display = incoming.last_user_space_by_display;
    if incoming.screens.len() == 0 {
        refocus.stale_cleanup_state = StaleCleanupState::Suppressed;
        state.screens = Vec::new();
        push_when(&mut steps, had_screens, SnapshotStep::ExposeAll);
        push_when(&mut steps, true, SnapshotStep::DeactivateAll);
        push_when(&mut steps, true, SnapshotStep::ForgetVisibleWindows);
        push_when(&mut steps, true, SnapshotStep::TryPending);
        return steps;
    }
    refocus.stale_cleanup_state = StaleCleanupState::Enabled;
    state.screens = incoming.screens;
    push_when(&mut steps, facts.invalidates_pending_targets, SnapshotStep::ClearHiddenTargets);
    if facts.mission_control {
        pending.pending_space_change = Some(whole);
        return steps;
    }
    push_when(&mut steps, true, SnapshotStep::RemapSpaces);
    push_when(&mut steps, true, SnapshotStep::UpdateSpaceDisplays);
    push_when(&mut steps, true, SnapshotStep::BeginHoming);
    push_when(&mut steps, true, SnapshotStep::UpdateActivation);
    push_when(&mut steps, true, SnapshotStep::RecomputeActive);
    push_when(&mut steps, true, SnapshotStep::RestoreAfterFullscreen);
    push_when(&mut steps, true, SnapshotStep::ExposeResized);
    push_when(&mut steps, true, SnapshotStep::ExposeUnlaid);
    push_when(&mut steps, facts.has_window_delta, SnapshotStep::ApplyWindowDelta);
    push_when(&mut steps, true, SnapshotStep::Finalize);
    push_when(&mut steps, true, SnapshotStep::SettleDisplaced);
    push_when(&mut steps, !facts.releases_quarantine, SnapshotStep::FollowSwitch);
    push_when(&mut steps, true, SnapshotStep::TryPending);
    push_when(&mut steps, facts.force_refresh, SnapshotStep::RefreshAndArrange);
    steps
}

/// In Mission Control a report changes no layout: no desktop is remapped, no
/// window put back and nothing arranged until it is over.
pub proof fn mission_control_leaves_layouts_alone(
    facts: SnapshotFacts,
    had_screens: bool,
    has_screens: bool,
)
    requires
        facts.mission_control,
    ensures
        !steps_of(facts, had_screens, has_screens).contains(SnapshotStep::RemapSpaces),
        !steps_of(facts, had_screens, has_screens).contains(SnapshotStep::BeginHoming),
        !steps_of(facts, had_screens, has_screens).contains(SnapshotStep::Finalize),
        !steps_of(facts, had_screens, has_screens).contains(SnapshotStep::RefreshAndArrange),
{
    reveal(if_due);
}

/// A display that departs is archived before the layout forgets it, and what it
/// archives is there before windows are brought home.
pub proof fn departed_displays_are_archived_first(facts: SnapshotFacts, had_screens: bool)
    requires
        facts.display_set_changed,
        route_of(facts, true) == SnapshotRoute::Whole,
    ensures
        ({
            let steps = steps_of(facts, had_screens, true);
            let homing = 7 + if facts.invalidates_pending_targets {
                0int
            } else {
                -1
            };
            &&& steps[1] == SnapshotStep::ArchiveDeparted
            &&& steps[2] == SnapshotStep::PruneDisplays
            &&& steps[homing] == SnapshotStep::BeginHoming
        }),
{
    reveal(if_due);
    let steps = steps_of(facts, had_screens, true);
    let first = seq![
        SnapshotStep::ReconcileStartupSpaces,
        SnapshotStep::ArchiveDeparted,
        SnapshotStep::PruneDisplays,
        SnapshotStep::NoteDisplaySet,
    ];
    assert(steps.take(4) =~= first);
    assert(steps[1] == steps.take(4)[1]);
    assert(steps[2] == steps.take(4)[2]);
}

/// The state that a report kept during Mission Control is applied to: it is
/// taken now if it is of as many screens as there are, else kept on.
pub fn try_apply_pending_space_change<S>(
    pending: &mut PendingSpaceChangeManager<S>,
    pending_screens: usize,
    screens: usize,
) -> (apply: Option<S>)
    ensures
        if pending_screens == screens {
            apply == old(pending).pending_space_change && final(pending).pending_space_change is None
        } else {
            apply is None && final(pending).pending_space_change
                == old(pending).pending_space_change
        },
{
    if pending_screens == screens {
        pending.pending_space_change.take()
    } else {
        None
    }
}

/// What each display shows: the last of its screens that shows a desktop.
pub open spec fn shown_per_display(screens: Seq<Screen>, uuid: Seq<char>) -> Option<SpaceId>
    decreases screens.len(),
{
    if screens.len() == 0 || uuid.len() == 0 {
        None
    } else if screens.last().display_uuid@ == uuid && screens.last().space is Some {
        screens.last().space
    } else {
        shown_per_display(screens.drop_last(), uuid)
    }
}

/// What each display shows. A display without an id is left out.
pub fn spaces_by_display(screens: &[Screen]) -> (spaces: Table<String, SpaceId>)
    ensures
        spaces.wf(),
        forall|uuid: Seq<char>| #[trigger] spaces.at(uuid) == shown_per_display(screens@, uuid),
{
    let mut spaces: Table<String, SpaceId> = Table::new();
    let mut i: usize = 0;
    while i < screens.len()
        invariant
            i <= screens@.len(),
            spaces.wf(),
            forall|uuid: Seq<char>| #[trigger]
                spaces.at(uuid) == shown_per_display(screens@.take(i as int), uuid),
        decreases screens@.len() - i,
    {
        let ghost before = spaces;
        match screens[i].space {
            Some(space) => {
                if screens[i].display_uuid.as_str().unicode_len() > 0 {
                    spaces.insert(screens[i].display_uuid.clone(), space);
                }
            },
            None => {},
        }
        proof {
            let next = screens@.take(i + 1);
            assert(next.drop_last() =~= screens@.take(i as int));
            assert(next.last() == screens@[i as int]);
            assert forall|uuid: Seq<char>| #[trigger]
                spaces.at(uuid) == shown_per_display(next, uuid) by {
                assert(before.at(uuid) == before.at(uuid));
            }
        }
        i = i + 1;
    }
    assert(screens@.take(i as int) =~= screens@);
    spaces
}

/// A display that shows another desktop than before.
#[derive(Clone, Copy, Debug, PartialEq, Eq, Structural)]
pub struct SpaceSwitch {
    /// Which of the screens.
    pub screen: usize,
    pub previous: SpaceId,
    pub space: SpaceId,
}

/// The screen shows another desktop than its display did before.
pub open spec fn switched(
    before: Table<String, SpaceId>,
    screens: Seq<Screen>,
    i: int,
) -> Option<SpaceSwitch> {
    let screen = screens[i];
    match (screen.space, before.at(screen.display_uuid@)) {
        (Some(space), Some(previous)) => if screen.display_uuid@.len() > 0 && previous != space {
            Some(SpaceSwitch { screen: i as usize, previous, space })
        } else {
            None
        },
        _ => None,
    }
}

/// The screens among the first `n` that show another desktop than before.
pub open spec fn switches(
    before: Table<String, SpaceId>,
    screens: Seq<Screen>,
    n: int,
) -> Seq<SpaceSwitch>
    decreases n,
{
    if n <= 0 {
        seq![]
    } else {
        match switched(before, screens, n - 1) {
            Some(switch) => switches(before, screens, n - 1).push(switch),
            None => switches(before, screens, n - 1),
        }
    }
}

/// The one display that shows another desktop, when the others kept theirs.
pub fn find_space_switch(before: &Table<String, SpaceId>, screens: &[Screen]) -> (switch: Option<
    SpaceSwitch,
>)
    requires
        before.wf(),
    ensures
        ({
            let all = switches(*before, screens@, screens@.len() as int);
            switch == if all.len() == 1 {
                Some(all[0])
            } else {
                None
            }
        }),
{
    let mut found: Vec<SpaceSwitch> = Vec::new();
    let mut i: usize = 0;
    while i < screens.len()
        invariant
            before.wf(),
            i <= screens@.len(),
            found@ == switches(*before, screens@, i as int),
        decreases screens@.len() - i,
    {
        match screens[i].space {
            Some(space) => {
                if screens[i].display_uuid.as_str().unicode_len() > 0 {
                    match before.get(&screens[i].display_uuid) {
                        Some(previous) => {
                            if *previous != space {
                                found.push(
                                    SpaceSwitch { screen: i, previous: *previous, space },
                                );
                            }
                        },
                        None => {},
                    }
                }
            },
            None => {},
        }
        i = i + 1;
    }
    if found.len() == 1 {
        Some(found[0])
    } else {
        None
    }
}

/// What keeps a switch from being followed.
#[derive(Clone, Copy, Debug, PartialEq, Eq, Structural)]
pub struct FollowFacts {
    pub mouse_follows_focus: bool,
    /// There was no input since the session was restored.
    pub suppressed: bool,
    pub mission_control: bool,
    pub dragging: bool,
    pub modifier_drag: bool,
    /// The pointer is on the display that switched.
    pub pointer_there: bool,
    /// The desktop of the window with the keyboard.
    pub key_window_space: Option<SpaceId>,
    /// The window to focus on the new desktop, if there is one.
    pub candidate: Option<WindowId>,
}

/// How a switch is followed.
#[derive(Clone, Copy, Debug, PartialEq, Eq, Structural)]
pub enum FollowSwitch {
    Nothing,
    /// This window is focused, which brings the pointer along.
    Focus(WindowId),
    /// The desktop has no window: it is focused, and the pointer put in the
    /// middle of the display.
    Desktop(SpaceId),
}

/// A switch that is followed: neither the pointer nor the keyboard is on the
/// display that switched.
pub open spec fn follows(facts: FollowFacts, switch: Option<SpaceSwitch>) -> FollowSwitch {
    match switch {
        Some(switch) => if !facts.mouse_follows_focus || facts.suppressed || facts.mission_control
            || facts.dragging || facts.modifier_drag || facts.pointer_there || (
        facts.key_window_space matches Some(key) && (key == switch.space || key == switch.previous)) {
            FollowSwitch::Nothing
        } else {
            match facts.candidate {
                Some(window) => FollowSwitch::Focus(window),
                None => FollowSwitch::Desktop(switch.space),
            }
        },
        None => FollowSwitch::Nothing,
    }
}

/// How a desktop switch on another display is followed.
pub fn follow_space_switch_across_displays(facts: FollowFacts, switch: Option<SpaceSwitch>) -> (how:
    FollowSwitch)
    ensures
        how == follows(facts, switch),
{
    let switch = match switch {
        Some(switch) => switch,
        None => {
            return FollowSwitch::Nothing;
        },
    };
    if !facts.mouse_follows_focus || facts.suppressed || facts.mission_control || facts.dragging
        || facts.modifier_drag || facts.pointer_there {
        return FollowSwitch::Nothing;
    }
    match facts.key_window_space {
        Some(key) => {
            if key == switch.space || key == switch.previous {
                return FollowSwitch::Nothing;
            }
        },
        None => {},
    }
    match facts.candidate {
        Some(window) => FollowSwitch::Focus(window),
        None => FollowSwitch::Desktop(switch.space),
    }
}

/// A shown desktop on which the manager is active and that has no layout: it is
/// laid out, whatever its size did.
pub open spec fn unlaid(active: Set<SpaceId>, laid_out: Seq<SpaceId>) -> spec_fn(Screen) -> Option<
    SpaceId,
> {
    |screen: Screen|
        match screen.space {
            Some(space) => if active.contains(space) && !laid_out.contains(space) {
                Some(space)
            } else {
                None
            },
            None => None,
        }
}

/// The shown desktops that have no layout.
pub fn unlaid_spaces(screens: &[Screen], active: &IdSet<SpaceId>, laid_out: &[SpaceId]) -> (spaces:
    Vec<SpaceId>)
    ensures
        spaces@ == screens@.filter_map(unlaid(active@, laid_out@)),
{
    let ghost f = unlaid(active@, laid_out@);
    let mut spaces: Vec<SpaceId> = Vec::new();
    let mut i: usize = 0;
    while i < screens.len()
        invariant
            f == unlaid(active@, laid_out@),
            i <= screens@.len(),
            spaces@ == screens@.take(i as int).filter_map(f),
        decreases screens@.len() - i,
    {
        proof {
            screens@.lemma_filter_map_take_succ(f, i as int);
        }
        match screens[i].space {
            Some(space) => {
                if active.contains(space) && !holds(laid_out, space) {
                    spaces.push(space);
                }
            },
            None => {},
        }
        assert(spaces@ =~= screens@.take(i + 1).filter_map(f));
        i = i + 1;
    }
    assert(screens@.take(i as int) =~= screens@);
    spaces
}

/// How far a report is taken: where it is only about commands, no further than that;
/// without screens as far as there are none; held in Mission Control; else whole.
pub proof fn how_far_a_report_is_taken(facts: SnapshotFacts, has_screens: bool)
    ensures
        facts.command_space_only ==> route_of(facts, has_screens)
            == SnapshotRoute::CommandSpaceOnly,
        !facts.command_space_only && !has_screens ==> route_of(facts, has_screens)
            == SnapshotRoute::NoScreens,
        !facts.command_space_only && has_screens && facts.mission_control ==> route_of(
            facts,
            has_screens,
        ) == SnapshotRoute::Held,
        !facts.command_space_only && has_screens && !facts.mission_control ==> route_of(
            facts,
            has_screens,
        ) == SnapshotRoute::Whole,
{
}

/// The place of each step in the order in which a report is taken in.
pub open spec fn place_of_step(step: SnapshotStep) -> int {
    match step {
        SnapshotStep::ReconcileStartupSpaces => 0,
        SnapshotStep::ArchiveDeparted => 1,
        SnapshotStep::PruneDisplays => 2,
        SnapshotStep::NoteDisplaySet => 3,
        SnapshotStep::ExposeAll => 4,
        SnapshotStep::DeactivateAll => 5,
        SnapshotStep::ForgetVisibleWindows => 6,
        SnapshotStep::ClearHiddenTargets => 7,
        SnapshotStep::RemapSpaces => 8,
        SnapshotStep::UpdateSpaceDisplays => 9,
        SnapshotStep::BeginHoming => 10,
        SnapshotStep::UpdateActivation => 11,
        SnapshotStep::RecomputeActive => 12,
        SnapshotStep::RestoreAfterFullscreen => 13,
        SnapshotStep::ExposeResized => 14,
        SnapshotStep::ExposeUnlaid => 15,
        SnapshotStep::ApplyWindowDelta => 16,
        SnapshotStep::Finalize => 17,
        SnapshotStep::SettleDisplaced => 18,
        SnapshotStep::FollowSwitch => 19,
        SnapshotStep::TryPending => 20,
        SnapshotStep::RefreshAndArrange => 21,
    }
}

/// The places of the steps.
pub open spec fn step_places() -> spec_fn(SnapshotStep) -> int {
    |step: SnapshotStep| place_of_step(step)
}

/// The steps come in their order, none twice: whatever is due, displays are archived
/// before they are forgotten, desktops remapped before windows are sent home, windows
/// that came and went are applied before the layouts are finalised, and the layout is
/// arranged last.
#[verifier::rlimit(40)]
pub proof fn a_report_is_taken_in_order(
    facts: SnapshotFacts,
    had_screens: bool,
    has_screens: bool,
    step: SnapshotStep,
    i: int,
    j: int,
)
    ensures
        steps_of(facts, had_screens, has_screens).contains(step) <==> {
            let noted = !facts.command_space_only;
            let whole = noted && has_screens && !facts.mission_control;
            match step {
                SnapshotStep::ReconcileStartupSpaces => true,
                SnapshotStep::ArchiveDeparted => noted && facts.display_set_changed,
                SnapshotStep::PruneDisplays => noted && facts.display_set_changed,
                SnapshotStep::NoteDisplaySet => noted,
                SnapshotStep::ExposeAll => noted && !has_screens && had_screens,
                SnapshotStep::DeactivateAll => noted && !has_screens,
                SnapshotStep::ForgetVisibleWindows => noted && !has_screens,
                SnapshotStep::ClearHiddenTargets => noted && has_screens
                    && facts.invalidates_pending_targets,
                SnapshotStep::ApplyWindowDelta => whole && facts.has_window_delta,
                SnapshotStep::FollowSwitch => whole && !facts.releases_quarantine,
                SnapshotStep::TryPending => whole || (noted && !has_screens),
                SnapshotStep::RefreshAndArrange => whole && facts.force_refresh,
                _ => whole,
            }
        },
        ({
            let steps = steps_of(facts, had_screens, has_screens);
            0 <= i < j < steps.len() ==> place_of_step(steps[i]) < place_of_step(steps[j])
        }),
{
    let rank = step_places();
    let steps = steps_of(facts, had_screens, has_screens);
    let none = Seq::<SnapshotStep>::empty();
    crate::lists::lemma_nothing_rises(rank, step);
    let a0 = none + if_due(true, SnapshotStep::ReconcileStartupSpaces);
    crate::lists::lemma_rising(none, true, SnapshotStep::ReconcileStartupSpaces, rank, -1, step);
    let a1 = a0 + if_due(facts.display_set_changed, SnapshotStep::ArchiveDeparted);
    crate::lists::lemma_rising(a0, facts.display_set_changed, SnapshotStep::ArchiveDeparted, rank, 0, step);
    let a2 = a1 + if_due(facts.display_set_changed, SnapshotStep::PruneDisplays);
    crate::lists::lemma_rising(a1, facts.display_set_changed, SnapshotStep::PruneDisplays, rank, 1, step);
    let a3 = a2 + if_due(true, SnapshotStep::NoteDisplaySet);
    crate::lists::lemma_rising(a2, true, SnapshotStep::NoteDisplaySet, rank, 2, step);
    let first = seq![SnapshotStep::ReconcileStartupSpaces];
    assert(a0 =~= first) by {
        reveal(if_due);
    }
    let top = if facts.command_space_only {
        0
    } else if !has_screens {
        20
    } else if facts.mission_control {
        7
    } else {
        21int
    };
    if facts.command_space_only {
        assert(steps == a0);
    } else if !has_screens {
        let b0 = a3 + if_due(had_screens, SnapshotStep::ExposeAll);
        crate::lists::lemma_rising(a3, had_screens, SnapshotStep::ExposeAll, rank, 3, step);
        let b1 = b0 + if_due(true, SnapshotStep::DeactivateAll);
        crate::lists::lemma_rising(b0, true, SnapshotStep::DeactivateAll, rank, 4, step);
        let b2 = b1 + if_due(true, SnapshotStep::ForgetVisibleWindows);
        crate::lists::lemma_rising(b1, true, SnapshotStep::ForgetVisibleWindows, rank, 5, step);
        let b3 = b2 + if_due(true, SnapshotStep::TryPending);
        crate::lists::lemma_rising(b2, true, SnapshotStep::TryPending, rank, 6, step);
        assert(steps == b3);
    } else {
        let c0 = a3 + if_due(facts.invalidates_pending_targets, SnapshotStep::ClearHiddenTargets);
        crate::lists::lemma_rising(a3, facts.invalidates_pending_targets, SnapshotStep::ClearHiddenTargets, rank, 3, step);
        if facts.mission_control {
            assert(steps == c0);
        } else {
            let d0 = c0 + if_due(true, SnapshotStep::RemapSpaces);
            crate::lists::lemma_rising(c0, true, SnapshotStep::RemapSpaces, rank, 7, step);
            let d1 = d0 + if_due(true, SnapshotStep::UpdateSpaceDisplays);
            crate::lists::lemma_rising(d0, true, SnapshotStep::UpdateSpaceDisplays, rank, 8, step);
            let d2 = d1 + if_due(true, SnapshotStep::BeginHoming);
            crate::lists::lemma_rising(d1, true, SnapshotStep::BeginHoming, rank, 9, step);
            let d3 = d2 + if_due(true, SnapshotStep::UpdateActivation);
            crate::lists::lemma_rising(d2, true, SnapshotStep::UpdateActivation, rank, 10, step);
            let d4 = d3 + if_due(true, SnapshotStep::RecomputeActive);
            crate::lists::lemma_rising(d3, true, SnapshotStep::RecomputeActive, rank, 11, step);
            let d5 = d4 + if_due(true, SnapshotStep::RestoreAfterFullscreen);
            crate::lists::lemma_rising(d4, true, SnapshotStep::RestoreAfterFullscreen, rank, 12, step);
            let d6 = d5 + if_due(true, SnapshotStep::ExposeResized);
            crate::lists::lemma_rising(d5, true, SnapshotStep::ExposeResized, rank, 13, step);
            let d7 = d6 + if_due(true, SnapshotStep::ExposeUnlaid);
            crate::lists::lemma_rising(d6, true, SnapshotStep::ExposeUnlaid, rank, 14, step);
            let d8 = d7 + if_due(facts.has_window_delta, SnapshotStep::ApplyWindowDelta);
            crate::lists::lemma_rising(d7, facts.has_window_delta, SnapshotStep::ApplyWindowDelta, rank, 15, step);
            let d9 = d8 + if_due(true, SnapshotStep::Finalize);
            crate::lists::lemma_rising(d8, true, SnapshotStep::Finalize, rank, 16, step);
            let d10 = d9 + if_due(true, SnapshotStep::SettleDisplaced);
            crate::lists::lemma_rising(d9, true, SnapshotStep::SettleDisplaced, rank, 17, step);
            let d11 = d10 + if_due(!facts.releases_quarantine, SnapshotStep::FollowSwitch);
            crate::lists::lemma_rising(d10, !facts.releases_quarantine, SnapshotStep::FollowSwitch, rank, 18, step);
            let d12 = d11 + if_due(true, SnapshotStep::TryPending);
            crate::lists::lemma_rising(d11, true, SnapshotStep::TryPending, rank, 19, step);
            let d13 = d12 + if_due(facts.force_refresh, SnapshotStep::RefreshAndArrange);
            crate::lists::lemma_rising(d12, facts.force_refresh, SnapshotStep::RefreshAndArrange, rank, 20, step);
            assert(steps == d13);
        }
    }
    if 0 <= i < j < steps.len() {
        crate::lists::lemma_rises(steps, rank, top, i, j);
    }
}

/// What a report leaves behind: all of it where it is taken whole or held; without
/// screens everything but the screens, which are none; and where it is only about
/// commands what it says of desktops, with screens and listing as they were.
pub proof fn what_a_report_leaves(
    before: SpaceState,
    incoming: SpaceState,
    route: SnapshotRoute,
    after: SpaceState,
)
    requires
        state_after(before, incoming, route, after),
    ensures
        route == SnapshotRoute::Whole || route == SnapshotRoute::Held ==> after == incoming,
        after.command_space == incoming.command_space,
        after.menu_bar_space == incoming.menu_bar_space,
        after.active_spaces == incoming.active_spaces,
        after.fullscreen_spaces == incoming.fullscreen_spaces,
        after.active_window_spaces == incoming.active_window_spaces,
        route == SnapshotRoute::NoScreens ==> after.screens@.len() == 0 && after.display_space_ids
            == incoming.display_space_ids && after.last_user_space_by_display
            == incoming.last_user_space_by_display,
        route == SnapshotRoute::CommandSpaceOnly ==> after.screens == before.screens
            && after.display_space_ids == before.display_space_ids
            && after.last_user_space_by_display == before.last_user_space_by_display,
{
}

/// What a display shows is what the last of its screens with a desktop shows; a display
/// without an id shows nothing.
pub proof fn what_each_display_shows(screens: Seq<Screen>, uuid: Seq<char>, at: int)
    requires
        -1 <= at < screens.len(),
        at >= 0 ==> screens[at].display_uuid@ == uuid && screens[at].space is Some,
        forall|i: int|
            at < i < screens.len() ==> (#[trigger] screens[i]).display_uuid@ != uuid
                || screens[i].space is None,
    ensures
        uuid.len() == 0 ==> shown_per_display(screens, uuid) is None,
        uuid.len() > 0 && at >= 0 ==> shown_per_display(screens, uuid) == screens[at].space,
        uuid.len() > 0 && at < 0 ==> shown_per_display(screens, uuid) is None,
    decreases screens.len(),
{
    if screens.len() > 0 && uuid.len() > 0 && at < screens.len() - 1 {
        let front = screens.drop_last();
        assert(screens[screens.len() - 1].display_uuid@ != uuid || screens[screens.len()
            - 1].space is None);
        assert forall|i: int| at < i < front.len() implies (#[trigger] front[i]).display_uuid@ != uuid
            || front[i].space is None by {
            assert(front[i] == screens[i]);
        }
        what_each_display_shows(front, uuid, at);
    }
}

/// One more screen has switched if its display has an id, showed a desktop before and
/// shows another now.
pub proof fn which_screens_have_switched(
    before: Table<String, SpaceId>,
    screens: Seq<Screen>,
    n: int,
)
    requires
        0 <= n < screens.len() <= usize::MAX,
    ensures
        switches(before, screens, 0).len() == 0,
        ({
            let screen = screens[n];
            let was = before.at(screen.display_uuid@);
            let other = screen.display_uuid@.len() > 0 && was is Some && screen.space is Some
                && was != screen.space;
            &&& other ==> switches(before, screens, n + 1) == switches(before, screens, n).push(
                SpaceSwitch { screen: n as usize, previous: was->0, space: screen.space->0 },
            )
            &&& !other ==> switches(before, screens, n + 1) == switches(before, screens, n)
        }),
{
}

/// A switch is followed where the mouse follows focus and nothing holds it back: to the
/// window there is, or to the desktop; neither without a switch, nor before input after
/// a restored session, in Mission Control or in a drag, nor where the pointer or the
/// keyboard is there already.
pub proof fn when_a_switch_is_followed(facts: FollowFacts, switch: SpaceSwitch)
    ensures
        follows(facts, None) == FollowSwitch::Nothing,
        ({
            let held_back = !facts.mouse_follows_focus || facts.suppressed || facts.mission_control
                || facts.dragging || facts.modifier_drag || facts.pointer_there
                || facts.key_window_space == Some(switch.space) || facts.key_window_space == Some(
                switch.previous,
            );
            &&& held_back ==> follows(facts, Some(switch)) == FollowSwitch::Nothing
            &&& !held_back && facts.candidate is Some ==> follows(facts, Some(switch))
                == FollowSwitch::Focus(facts.candidate->0)
            &&& !held_back && facts.candidate is None ==> follows(facts, Some(switch))
                == FollowSwitch::Desktop(switch.space)
        }),
{
}

/// One more screen shows a desktop to lay out if the manager is active there and it has
/// no layout.
pub proof fn which_desktops_are_unlaid(
    screens: Seq<Screen>,
    screen: Screen,
    active: Set<SpaceId>,
    laid_out: Seq<SpaceId>,
)
    ensures
        Seq::<Screen>::empty().filter_map(unlaid(active, laid_out)).len() == 0,
        screen.space is Some && active.contains(screen.space->0) && !laid_out.contains(
            screen.space->0,
        ) ==> screens.push(screen).filter_map(unlaid(active, laid_out)) == screens.filter_map(
            unlaid(active, laid_out),
        ).push(screen.space->0),
        screen.space is None || !active.contains(screen.space->0) || laid_out.contains(
            screen.space->0,
        ) ==> screens.push(screen).filter_map(unlaid(active, laid_out)) == screens.filter_map(
            unlaid(active, laid_out),
        ),
{
    crate::lists::lemma_filter_map_push(screens, screen, unlaid(active, laid_out));
}

/// However far a report is taken, that a display set was seen is taken from it.
pub proof fn a_seen_display_set_is_noted(
    before: SpaceState,
    incoming: SpaceState,
    route: SnapshotRoute,
    after: SpaceState,
)
    requires
        state_after(before, incoming, route, after),
    ensures
        after.has_seen_display_set == incoming.has_seen_display_set,
        after.screens@.len() == 0 || after.screens == incoming.screens || after.screens
            == before.screens,
{
}

} // verus!
