//! Which display a command is for, and what it does there.
//!
//! Places and distances are given by numbers in the order of the coordinates
//! they stand for.

use vstd::prelude::*;

use crate::commands::DisplaySelector;
use crate::drag::first_of;
use crate::ids::{SpaceId, WindowId};
use crate::lists::IdSet;
use crate::order::{each_once, in_order, stable_order, Rank};
use crate::screens::Screen;

verus! {

/// A corner of a screen: from the left, and from the top.
#[derive(Clone, Copy, Debug, PartialEq, Eq, Structural)]
pub struct Place {
    pub x: i64,
    pub y: i64,
}

/// From left to right, and from the top down where neither is further left.
impl Rank for Place {
    open spec fn precedes(&self, other: &Self) -> bool {
        self.x < other.x || (self.x == other.x && self.y < other.y)
    }

    fn before(&self, other: &Self) -> (before: bool) {
        self.x < other.x || (self.x == other.x && self.y < other.y)
    }

    proof fn lemma_ranks(a: Self, b: Self, c: Self) {
    }
}

/// The screens from left to right; of two in one place, the one that is listed
/// first comes first.
pub fn screens_in_physical_order(origins: &[Place]) -> (order: Vec<usize>)
    ensures
        each_once(order@, origins@.len() as int),
        in_order(origins@, order@),
{
    stable_order(origins)
}

/// How far a screen lies in a direction: along it, and to its side.
#[derive(Clone, Copy, Debug, PartialEq, Eq, Structural)]
pub struct Distance {
    pub along: i64,
    pub aside: i64,
}

/// `a` is nearer than `b`.
pub open spec fn nearer(a: Distance, b: Distance) -> bool {
    a.along < b.along || (a.along == b.along && a.aside < b.aside)
}

/// The screen at `at` is the nearest, and the first of those as near.
pub open spec fn nearest(distances: Seq<Option<Distance>>, at: int) -> bool {
    &&& 0 <= at < distances.len()
    &&& distances[at] is Some
    &&& forall|i: int|
        0 <= i < distances.len() && (#[trigger] distances[i]) is Some ==> !nearer(
            distances[i]->0,
            distances[at]->0,
        ) && (distances[i] == distances[at] ==> at <= i)
}

/// The nearest screen in a direction. `distances` has, for each screen, how far
/// it lies that way, if it does.
pub fn screen_for_direction(distances: &[Option<Distance>]) -> (at: Option<usize>)
    ensures
        match at {
            Some(at) => nearest(distances@, at as int),
            None => forall|i: int| 0 <= i < distances@.len() ==> (#[trigger] distances@[i]) is None,
        },
{
    let mut best: Option<usize> = None;
    let mut i: usize = 0;
    while i < distances.len()
        invariant
            i <= distances@.len(),
            match best {
                Some(at) => at < i && nearest(distances@.take(i as int), at as int),
                None => forall|k: int| 0 <= k < i ==> (#[trigger] distances@[k]) is None,
            },
        decreases distances@.len() - i,
    {
        let ghost before = distances@.take(i as int);
        let ghost after = distances@.take(i + 1);
        assert forall|k: int| 0 <= k < i implies #[trigger] after[k] == before[k] by {}
        match distances[i] {
            Some(distance) => {
                let replace = match best {
                    Some(at) => match distances[at] {
                        Some(known) => {
                            proof {
                                assert(before[at as int] == Some(known));
                            }
                            distance.along < known.along || (distance.along == known.along
                                && distance.aside < known.aside)
                        },
                        None => true,
                    },
                    None => true,
                };
                proof {
                    if best is Some {
                        let at = best->0 as int;
                        assert(before[at] is Some);
                    }
                    assert forall|k: int| 0 <= k < i && (#[trigger] after[k]) is Some implies
                        before[k] is Some && (best is Some ==> !nearer(
                        before[k]->0,
                        before[best->0 as int]->0,
                    )) by {
                        assert(after[k] == before[k]);
                        assert(before[k] == distances@[k]);
                    }
                }
                if replace {
                    best = Some(i);
                }
            },
            None => {},
        }
        assert(best matches Some(at) ==> nearest(after, at as int));
        i = i + 1;
    }
    assert(distances@.take(i as int) =~= distances@);
    best
}

/// The first screen of that name.
pub open spec fn named_screen(screens: Seq<Screen>, uuid: Seq<char>) -> Option<int>
    decreases screens.len(),
{
    if screens.len() == 0 {
        None
    } else if screens[0].display_uuid@ == uuid {
        Some(0)
    } else {
        match named_screen(screens.skip(1), uuid) {
            Some(at) => Some(at + 1),
            None => None,
        }
    }
}

/// The display that a command names is this one, if any.
pub open spec fn selected(
    screens: Seq<Screen>,
    selector: DisplaySelector,
    order: Seq<usize>,
    distances: Seq<Option<Distance>>,
    at: Option<usize>,
) -> bool {
    match selector {
        DisplaySelector::Direction(_) => match at {
            Some(at) => nearest(distances, at as int),
            None => forall|i: int| 0 <= i < distances.len() ==> (#[trigger] distances[i]) is None,
        },
        DisplaySelector::Index(index) => at == if index < order.len() {
            Some(order[index as int])
        } else {
            None
        },
        DisplaySelector::Uuid(uuid) => match at {
            Some(at) => named_screen(screens, uuid@) == Some(at as int),
            None => named_screen(screens, uuid@) is None,
        },
    }
}

/// The display that a command names: by its place from left to right, by its
/// name, or as the nearest in a direction. `distances` has, for each screen, how
/// far it lies in that direction, if it does.
pub fn screen_for_selector(
    screens: &[Screen],
    selector: &DisplaySelector,
    origins: &[Place],
    distances: &[Option<Distance>],
) -> (at: Option<usize>)
    ensures
        exists|order: Seq<usize>|
            #![trigger in_order(origins@, order)]
            each_once(order, origins@.len() as int) && in_order(origins@, order) && selected(
                screens@,
                *selector,
                order,
                distances@,
                at,
            ),
{
    let order = screens_in_physical_order(origins);
    assert(in_order(origins@, order@));
    match selector {
        DisplaySelector::Direction(_) => screen_for_direction(distances),
        DisplaySelector::Index(index) => if *index < order.len() {
            Some(order[*index])
        } else {
            None
        },
        DisplaySelector::Uuid(uuid) => screen_named(screens, uuid),
    }
}

fn screen_named(screens: &[Screen], uuid: &String) -> (at: Option<usize>)
    ensures
        match at {
            Some(at) => named_screen(screens@, uuid@) == Some(at as int),
            None => named_screen(screens@, uuid@) is None,
        },
{
    let mut i: usize = 0;
    assert(screens@.skip(0) =~= screens@);
    while i < screens.len()
        invariant
            i <= screens@.len(),
            named_screen(screens@, uuid@) == (match named_screen(screens@.skip(i as int), uuid@) {
                Some(at) => Some(at + i),
                None => None::<int>,
            }),
        decreases screens@.len() - i,
    {
        if screens[i].display_uuid == *uuid {
            return Some(i);
        }
        assert(screens@.skip(i as int).skip(1) =~= screens@.skip(i + 1));
        i = i + 1;
    }
    None
}

/// The display that a command names is this one, if any, where it may go on from
/// the opposite edge when no display lies further in its direction.
pub open spec fn selected_around(
    screens: Seq<Screen>,
    selector: DisplaySelector,
    wrap_around: bool,
    order: Seq<usize>,
    distances: Seq<Option<Distance>>,
    from_edge: Seq<Option<Distance>>,
    at: Option<usize>,
) -> bool {
    if wrap_around && selector is Direction && forall|i: int|
        0 <= i < distances.len() ==> (#[trigger] distances[i]) is None {
        selected(screens, selector, order, from_edge, at)
    } else {
        selected(screens, selector, order, distances, at)
    }
}

/// The display that a command names, going on from the opposite edge when no
/// display lies further in a direction, if that is asked for. `from_edge` has, for
/// each screen, how far it lies in that direction from the opposite edge.
pub fn screen_for_selector_around(
    screens: &[Screen],
    selector: &DisplaySelector,
    wrap_around: bool,
    origins: &[Place],
    distances: &[Option<Distance>],
    from_edge: &[Option<Distance>],
) -> (at: Option<usize>)
    ensures
        exists|order: Seq<usize>|
            #![trigger in_order(origins@, order)]
            each_once(order, origins@.len() as int) && in_order(origins@, order)
                && selected_around(
                screens@,
                *selector,
                wrap_around,
                order,
                distances@,
                from_edge@,
                at,
            ),
{
    let at = screen_for_selector(screens, selector, origins, distances);
    let directed = matches!(selector, DisplaySelector::Direction(_));
    if at.is_none() && directed && wrap_around {
        return screen_for_selector(screens, selector, origins, from_edge);
    }
    at
}

/// What is known when a workspace is to go to another display.
#[derive(Clone, Copy, Debug, PartialEq, Eq, Structural)]
pub struct WorkspaceMoveFacts {
    /// The desktop that commands are for, and whether the manager is active
    /// there.
    pub source: Option<SpaceId>,
    pub source_active: bool,
    /// The place of its active workspace among its workspaces.
    pub ordinal: Option<usize>,
    /// The display was found.
    pub found: bool,
    pub target: Option<SpaceId>,
    pub target_active: bool,
    /// How many workspaces the desktop of that display has.
    pub target_workspaces: usize,
}

/// Why a workspace does not go to another display.
#[derive(Clone, Copy, Debug, PartialEq, Eq, Structural)]
pub enum WorkspaceMoveRefused {
    NoSource,
    NoDisplay,
    NoTarget,
    /// It is there.
    SameSpace,
    /// The other display has no workspace at that place.
    NoCounterpart(usize),
}

/// The move of a workspace between desktops: its windows go to the workspace at
/// the same place.
#[derive(Clone, Copy, Debug, PartialEq, Eq, Structural)]
pub struct WorkspaceMove {
    pub source: SpaceId,
    pub target: SpaceId,
    pub ordinal: usize,
}

/// The move of a workspace to another display.
pub open spec fn workspace_move(facts: WorkspaceMoveFacts) -> Result<
    WorkspaceMove,
    WorkspaceMoveRefused,
> {
    if facts.source is None || !facts.source_active || facts.ordinal is None {
        Err(WorkspaceMoveRefused::NoSource)
    } else if !facts.found {
        Err(WorkspaceMoveRefused::NoDisplay)
    } else if facts.target is None || !facts.target_active {
        Err(WorkspaceMoveRefused::NoTarget)
    } else if facts.source == facts.target {
        Err(WorkspaceMoveRefused::SameSpace)
    } else if facts.ordinal->0 >= facts.target_workspaces {
        Err(WorkspaceMoveRefused::NoCounterpart(facts.ordinal->0))
    } else {
        Ok(
            WorkspaceMove {
                source: facts.source->0,
                target: facts.target->0,
                ordinal: facts.ordinal->0,
            },
        )
    }
}

/// The move of a workspace to another display. Workspaces belong to a display, so
/// its windows go to that display's workspace at the same place.
pub fn move_workspace_to_display(facts: WorkspaceMoveFacts) -> (moved: Result<
    WorkspaceMove,
    WorkspaceMoveRefused,
>)
    ensures
        moved == workspace_move(facts),
{
    let (source, ordinal) = match (facts.source, facts.ordinal) {
        (Some(source), Some(ordinal)) => (source, ordinal),
        _ => {
            return Err(WorkspaceMoveRefused::NoSource);
        },
    };
    if !facts.source_active {
        return Err(WorkspaceMoveRefused::NoSource);
    }
    if !facts.found {
        return Err(WorkspaceMoveRefused::NoDisplay);
    }
    let target = match facts.target {
        Some(target) => target,
        None => {
            return Err(WorkspaceMoveRefused::NoTarget);
        },
    };
    if !facts.target_active {
        return Err(WorkspaceMoveRefused::NoTarget);
    }
    if source == target {
        return Err(WorkspaceMoveRefused::SameSpace);
    }
    if ordinal >= facts.target_workspaces {
        return Err(WorkspaceMoveRefused::NoCounterpart(ordinal));
    }
    Ok(WorkspaceMove { source, target, ordinal })
}

/// A step of moving a workspace to another display.
#[derive(Clone, Copy, Debug, PartialEq, Eq, Structural)]
pub enum WorkspaceStep {
    /// The window goes to the workspace at this place of the desktop.
    Assign { window: WindowId, space: SpaceId, ordinal: usize },
    /// That workspace becomes the active one of the desktop.
    Activate { space: SpaceId, ordinal: usize },
}

/// What moving a workspace with these windows takes: each goes to the workspace
/// at the same place, which then becomes active.
pub open spec fn workspace_steps(moved: WorkspaceMove, windows: Seq<WindowId>) -> Seq<
    WorkspaceStep,
> {
    windows.map_values(
        |window: WindowId|
            WorkspaceStep::Assign { window, space: moved.target, ordinal: moved.ordinal },
    ).push(WorkspaceStep::Activate { space: moved.target, ordinal: moved.ordinal })
}

/// What moving a workspace with these windows takes, in order.
pub fn workspace_move_steps(moved: WorkspaceMove, windows: &[WindowId]) -> (steps: Vec<
    WorkspaceStep,
>)
    ensures
        steps@ == workspace_steps(moved, windows@),
{
    let mut steps: Vec<WorkspaceStep> = Vec::new();
    let mut i: usize = 0;
    while i < windows.len()
        invariant
            i <= windows@.len(),
            steps@.len() == i,
            forall|j: int|
                0 <= j < i ==> (#[trigger] steps@[j]) == (WorkspaceStep::Assign {
                    window: windows@[j],
                    space: moved.target,
                    ordinal: moved.ordinal,
                }),
        decreases windows@.len() - i,
    {
        steps.push(
            WorkspaceStep::Assign {
                window: windows[i],
                space: moved.target,
                ordinal: moved.ordinal,
            },
        );
        i = i + 1;
    }
    steps.push(WorkspaceStep::Activate { space: moved.target, ordinal: moved.ordinal });
    assert(steps@ =~= workspace_steps(moved, windows@));
    steps
}

/// A workspace that moves keeps its place: every window of it ends in the other
/// display's workspace at that place, which is the active one.
pub proof fn a_moved_workspace_keeps_its_place(
    facts: WorkspaceMoveFacts,
    windows: Seq<WindowId>,
    i: int,
)
    requires
        workspace_move(facts) is Ok,
        0 <= i < windows.len(),
    ensures
        workspace_steps(workspace_move(facts)->Ok_0, windows)[i] == (WorkspaceStep::Assign {
            window: windows[i],
            space: facts.target->0,
            ordinal: facts.ordinal->0,
        }),
        workspace_steps(workspace_move(facts)->Ok_0, windows).last() == (WorkspaceStep::Activate {
            space: facts.target->0,
            ordinal: facts.ordinal->0,
        }),
{
}

/// What focusing a display does.
#[derive(Clone, Copy, Debug, PartialEq, Eq, Structural)]
pub struct DisplayFocus {
    /// The window that gets the focus.
    pub window: Option<WindowId>,
    /// The manager is active there, or no desktop is shown.
    pub target_is_active: bool,
}

/// What focusing a display does: the window last focused on its desktop gets the
/// focus, else the first there.
pub fn display_focus(
    space: Option<SpaceId>,
    last_focused: Option<WindowId>,
    first: Option<WindowId>,
    active: &IdSet<SpaceId>,
) -> (focus: DisplayFocus)
    requires
        active.wf(),
    ensures
        focus.window == if space is Some {
            first_of(last_focused, first)
        } else {
            None
        },
        focus.target_is_active == (space matches Some(space) ==> active@.contains(space)),
{
    match space {
        Some(space) => {
            let window = match last_focused {
                Some(window) => Some(window),
                None => first,
            };
            DisplayFocus { window, target_is_active: active.contains(space) }
        },
        None => DisplayFocus { window: None, target_is_active: true },
    }
}

/// The window that a command moves, by its place or the focused one.
pub fn window_to_move(
    by_index: bool,
    on_command_space: Option<WindowId>,
    on_active_spaces: Option<WindowId>,
    main_window: Option<WindowId>,
    under_pointer: Option<WindowId>,
) -> (window: Option<WindowId>)
    ensures
        window == if by_index {
            first_of(on_command_space, on_active_spaces)
        } else {
            first_of(main_window, first_of(under_pointer, on_command_space))
        },
{
    if by_index {
        match on_command_space {
            Some(window) => Some(window),
            None => on_active_spaces,
        }
    } else {
        match main_window {
            Some(window) => Some(window),
            None => match under_pointer {
                Some(window) => Some(window),
                None => on_command_space,
            },
        }
    }
}

/// What is known when a window is to go to another display.
#[derive(Clone, Copy, Debug, PartialEq, Eq, Structural)]
pub struct MoveFacts {
    pub dragging: bool,
    pub window: Option<WindowId>,
    pub known: bool,
    /// The desktop that the layout has the window on, the one it is on, and the
    /// one its frame is on.
    pub assigned: Option<SpaceId>,
    pub best: Option<SpaceId>,
    pub of_frame: Option<SpaceId>,
    pub source_active: bool,
    /// The display was found.
    pub found: bool,
    pub target: Option<SpaceId>,
    pub target_active: bool,
}

/// Why a window does not go to another display.
#[derive(Clone, Copy, Debug, PartialEq, Eq, Structural)]
pub enum MoveRefused {
    Dragging,
    NoWindow,
    UnknownWindow(WindowId),
    NoSource(WindowId),
    NoDisplay,
    NoTarget,
    /// It is there.
    SameSpace,
}

/// The move of a window between desktops.
#[derive(Clone, Copy, Debug, PartialEq, Eq, Structural)]
pub struct DisplayMove {
    pub window: WindowId,
    pub source: SpaceId,
    pub target: SpaceId,
}

/// The desktop that a window is taken from.
pub open spec fn move_source(facts: MoveFacts) -> Option<SpaceId> {
    first_of(facts.assigned, first_of(facts.best, facts.of_frame))
}

/// The move of a window to another display.
pub open spec fn display_move(facts: MoveFacts) -> Result<DisplayMove, MoveRefused> {
    if facts.dragging {
        Err(MoveRefused::Dragging)
    } else if facts.window is None {
        Err(MoveRefused::NoWindow)
    } else {
        let window = facts.window->0;
        if !facts.known {
            Err(MoveRefused::UnknownWindow(window))
        } else if move_source(facts) is None || !facts.source_active {
            Err(MoveRefused::NoSource(window))
        } else if !facts.found {
            Err(MoveRefused::NoDisplay)
        } else if facts.target is None || !facts.target_active {
            Err(MoveRefused::NoTarget)
        } else if move_source(facts) == facts.target {
            Err(MoveRefused::SameSpace)
        } else {
            Ok(DisplayMove { window, source: move_source(facts)->0, target: facts.target->0 })
        }
    }
}

/// The move of a window to another display, from one active desktop to another.
pub fn move_window_to_display(facts: MoveFacts) -> (moved: Result<DisplayMove, MoveRefused>)
    ensures
        moved == display_move(facts),
{
    if facts.dragging {
        return Err(MoveRefused::Dragging);
    }
    let window = match facts.window {
        Some(window) => window,
        None => {
            return Err(MoveRefused::NoWindow);
        },
    };
    if !facts.known {
        return Err(MoveRefused::UnknownWindow(window));
    }
    let source = match facts.assigned {
        Some(space) => Some(space),
        None => match facts.best {
            Some(space) => Some(space),
            None => facts.of_frame,
        },
    };
    match source {
        Some(source) => {
            if !facts.source_active {
                return Err(MoveRefused::NoSource(window));
            }
            if !facts.found {
                return Err(MoveRefused::NoDisplay);
            }
            match facts.target {
                Some(target) => if !facts.target_active {
                    Err(MoveRefused::NoTarget)
                } else if source == target {
                    Err(MoveRefused::SameSpace)
                } else {
                    Ok(DisplayMove { window, source, target })
                },
                None => Err(MoveRefused::NoTarget),
            }
        },
        None => Err(MoveRefused::NoSource(window)),
    }
}

/// A desktop that the layout of a screen is for.
pub open spec fn visible_on(active: Set<SpaceId>, include_inactive: bool) -> spec_fn(Screen) -> Option<
    SpaceId,
> {
    |screen: Screen|
        match screen.space {
            Some(space) => if include_inactive || active.contains(space) {
                Some(space)
            } else {
                None
            },
            None => None,
        }
}

/// The desktops that screens show, in the order of the screens: all, or those on
/// which the manager is active.
pub fn visible_spaces(screens: &[Screen], active: &IdSet<SpaceId>, with_inactive: bool) -> (spaces:
    Vec<SpaceId>)
    requires
        active.wf(),
    ensures
        spaces@ == screens@.filter_map(visible_on(active@, with_inactive)),
{
    let ghost f = visible_on(active@, with_inactive);
    let mut spaces: Vec<SpaceId> = Vec::new();
    let mut i: usize = 0;
    while i < screens.len()
        invariant
            active.wf(),
            f == visible_on(active@, with_inactive),
            i <= screens@.len(),
            spaces@ == screens@.take(i as int).filter_map(f),
        decreases screens@.len() - i,
    {
        proof {
            screens@.lemma_filter_map_take_succ(f, i as int);
        }
        match screens[i].space {
            Some(space) => {
                if with_inactive || active.contains(space) {
                    spaces.push(space);
                }
            },
            None => {},
        }
        assert(spaces@ =~= screens@.take(i + 1).filter_map(f));
        i = i + 1;
    }
    assert(screens@.take(i as int) =~= screens@);
    spaces
}

/// A window that can be moved is: not dragged, known, on an active desktop, with
/// the display found and another active desktop shown there.
pub open spec fn can_move(facts: MoveFacts, window: WindowId, target: SpaceId) -> bool {
    &&& !facts.dragging
    &&& facts.window == Some(window)
    &&& facts.known
    &&& facts.source_active
    &&& facts.found
    &&& facts.target == Some(target)
    &&& facts.target_active
}

/// The desktop is the first known for the window: the one the layout has it on,
/// else the one it is on, else that of its frame.
pub open spec fn first_known(facts: MoveFacts, space: SpaceId) -> bool {
    ||| facts.assigned == Some(space)
    ||| facts.assigned is None && facts.best == Some(space)
    ||| facts.assigned is None && facts.best is None && facts.of_frame == Some(space)
}

/// A window that can be moved is moved from the first desktop known for it to the
/// one that the display shows; it is refused for being there only if those two are
/// the same.
pub proof fn a_window_that_can_move_moves(
    facts: MoveFacts,
    window: WindowId,
    source: SpaceId,
    target: SpaceId,
)
    requires
        can_move(facts, window, target),
        first_known(facts, source),
    ensures
        source != target ==> display_move(facts) == Ok::<DisplayMove, MoveRefused>(
            DisplayMove { window, source, target },
        ),
        source == target ==> display_move(facts) == Err::<DisplayMove, MoveRefused>(
            MoveRefused::SameSpace,
        ),
{
}

/// Each refusal of a window's move has its own ground, and comes where that is the
/// first that holds.
pub proof fn why_a_window_does_not_move(facts: MoveFacts, window: WindowId)
    ensures
        display_move(facts) == Err::<DisplayMove, MoveRefused>(MoveRefused::Dragging)
            <==> facts.dragging,
        display_move(facts) == Err::<DisplayMove, MoveRefused>(MoveRefused::NoWindow)
            <==> !facts.dragging && facts.window is None,
        display_move(facts) == Err::<DisplayMove, MoveRefused>(MoveRefused::UnknownWindow(window))
            <==> !facts.dragging && facts.window == Some(window) && !facts.known,
        display_move(facts) == Err::<DisplayMove, MoveRefused>(MoveRefused::NoSource(window))
            <==> !facts.dragging && facts.window == Some(window) && facts.known && (
        !facts.source_active || (facts.assigned is None && facts.best is None
            && facts.of_frame is None)),
        display_move(facts) == Err::<DisplayMove, MoveRefused>(MoveRefused::NoDisplay)
            <==> !facts.dragging && facts.window is Some && facts.known && facts.source_active && (
        facts.assigned is Some || facts.best is Some || facts.of_frame is Some) && !facts.found,
        display_move(facts) == Err::<DisplayMove, MoveRefused>(MoveRefused::NoTarget)
            <==> !facts.dragging && facts.window is Some && facts.known && facts.source_active && (
        facts.assigned is Some || facts.best is Some || facts.of_frame is Some) && facts.found && (
        facts.target is None || !facts.target_active),
        display_move(facts) == Err::<DisplayMove, MoveRefused>(MoveRefused::SameSpace) ==> (
        facts.target matches Some(target) && first_known(facts, target)),
        display_move(facts) is Ok ==> facts.window is Some && facts.target is Some && can_move(
            facts,
            facts.window->0,
            facts.target->0,
        ) && !first_known(facts, facts.target->0),
{
}

/// A workspace goes from an active desktop to another with a workspace at its
/// place, and never without one; each refusal has its own ground.
pub proof fn when_a_workspace_moves(
    facts: WorkspaceMoveFacts,
    source: SpaceId,
    target: SpaceId,
    ordinal: usize,
)
    ensures
        workspace_move(facts) == Ok::<WorkspaceMove, WorkspaceMoveRefused>(
            WorkspaceMove { source, target, ordinal },
        ) <==> facts.source == Some(source) && facts.source_active && facts.ordinal == Some(ordinal)
            && facts.found && facts.target == Some(target) && facts.target_active && source != target
            && ordinal < facts.target_workspaces,
        workspace_move(facts) == Err::<WorkspaceMove, WorkspaceMoveRefused>(
            WorkspaceMoveRefused::NoSource,
        ) <==> facts.source is None || !facts.source_active || facts.ordinal is None,
        facts.source is Some && facts.source_active && facts.ordinal is Some ==> (workspace_move(
            facts,
        ) == Err::<WorkspaceMove, WorkspaceMoveRefused>(WorkspaceMoveRefused::NoDisplay)
            <==> !facts.found),
        facts.source is Some && facts.source_active && facts.ordinal is Some && facts.found ==> (
        workspace_move(facts) == Err::<WorkspaceMove, WorkspaceMoveRefused>(
            WorkspaceMoveRefused::NoTarget,
        ) <==> facts.target is None || !facts.target_active),
        facts.source == Some(source) && facts.source_active && facts.ordinal is Some && facts.found
            && facts.target == Some(target) && facts.target_active ==> (workspace_move(facts)
            == Err::<WorkspaceMove, WorkspaceMoveRefused>(WorkspaceMoveRefused::SameSpace)
            <==> source == target),
        facts.source == Some(source) && facts.source_active && facts.ordinal == Some(ordinal)
            && facts.found && facts.target == Some(target) && facts.target_active && source
            != target && ordinal >= facts.target_workspaces ==> workspace_move(facts) == Err::<
            WorkspaceMove,
            WorkspaceMoveRefused,
        >(WorkspaceMoveRefused::NoCounterpart(ordinal)),
{
}

/// Moving a workspace takes one step for each of its windows, and one to show it.
pub proof fn a_workspace_moves_whole(moved: WorkspaceMove, windows: Seq<WindowId>, i: int)
    requires
        0 <= i < windows.len(),
    ensures
        workspace_steps(moved, windows).len() == windows.len() + 1,
        workspace_steps(moved, windows)[i] == (WorkspaceStep::Assign {
            window: windows[i],
            space: moved.target,
            ordinal: moved.ordinal,
        }),
{
}

/// A display named by its UUID is one of that name, and there is one if any has it.
pub proof fn a_display_is_found_by_its_name(screens: Seq<Screen>, uuid: Seq<char>)
    ensures
        match named_screen(screens, uuid) {
            Some(at) => 0 <= at < screens.len() && screens[at].display_uuid@ == uuid && forall|i: int|
                0 <= i < at ==> (#[trigger] screens[i]).display_uuid@ != uuid,
            None => forall|i: int|
                0 <= i < screens.len() ==> (#[trigger] screens[i]).display_uuid@ != uuid,
        },
    decreases screens.len(),
{
    if screens.len() > 0 && screens[0].display_uuid@ != uuid {
        let rest = screens.skip(1);
        a_display_is_found_by_its_name(rest, uuid);
        assert forall|i: int| 0 < i < screens.len() implies #[trigger] screens[i] == rest[i - 1] by {
        }
    }
}

/// In a direction the display is one that lies there, and none lies nearer.
pub proof fn a_display_in_a_direction_is_the_nearest(
    screens: Seq<Screen>,
    selector: DisplaySelector,
    order: Seq<usize>,
    distances: Seq<Option<Distance>>,
    at: Option<usize>,
    i: int,
)
    requires
        selector is Direction,
        selected(screens, selector, order, distances, at),
        0 <= i < distances.len(),
        distances[i] is Some,
    ensures
        at matches Some(at) && at < distances.len() && (distances[at as int] matches Some(near) && {
            ||| near.along < (distances[i]->0).along
            ||| near.along == (distances[i]->0).along && near.aside < (distances[i]->0).aside
            ||| near == distances[i]->0 && at <= i
        }),
{
}

/// A direction that leads nowhere is followed from the opposite edge only where
/// that is asked for; any other way to name a display has no edge.
pub proof fn the_far_edge_is_asked_for(
    screens: Seq<Screen>,
    selector: DisplaySelector,
    wrap_around: bool,
    order: Seq<usize>,
    distances: Seq<Option<Distance>>,
    from_edge: Seq<Option<Distance>>,
    at: Option<usize>,
    i: int,
)
    requires
        selected_around(screens, selector, wrap_around, order, distances, from_edge, at),
    ensures
        selector is Direction && !wrap_around && (forall|k: int|
            0 <= k < distances.len() ==> (#[trigger] distances[k]) is None) ==> at is None,
        selector is Direction && 0 <= i < distances.len() && distances[i] is Some ==> (
        at matches Some(at) && at < distances.len() && distances[at as int] is Some),
        selector is Direction && wrap_around && (forall|k: int|
            0 <= k < distances.len() ==> (#[trigger] distances[k]) is None) && 0 <= i
            < from_edge.len() && from_edge[i] is Some ==> (at matches Some(at) && at < from_edge.len()
            && from_edge[at as int] is Some),
        !(selector is Direction) ==> selected(screens, selector, order, distances, at),
{
}

/// The desktops that screens show are those of the screens, and while all are
/// asked for every one of them.
pub proof fn what_is_visible(
    screens: Seq<Screen>,
    active: Set<SpaceId>,
    with_inactive: bool,
    space: SpaceId,
)
    ensures
        screens.filter_map(visible_on(active, with_inactive)).contains(space) <==> (with_inactive
            || active.contains(space)) && exists|i: int|
            0 <= i < screens.len() && (#[trigger] screens[i]).space == Some(space),
{
    let f = visible_on(active, with_inactive);
    crate::lists::lemma_filter_map_holds(screens, f, space);
    if screens.filter_map(f).contains(space) {
        let i = choose|i: int| 0 <= i < screens.len() && f(#[trigger] screens[i]) == Some(space);
        assert(screens[i].space == Some(space));
    }
    if (with_inactive || active.contains(space)) && exists|i: int|
        0 <= i < screens.len() && (#[trigger] screens[i]).space == Some(space) {
        let i = choose|i: int| 0 <= i < screens.len() && (#[trigger] screens[i]).space == Some(space);
        assert(f(screens[i]) == Some(space));
    }
}

/// From left to right: a screen that is listed later in the order lies further
/// right, or in the same column and no higher, or in the same place and is listed
/// later.
pub proof fn screens_go_from_left_to_right(origins: Seq<Place>, order: Seq<usize>, a: int, b: int)
    requires
        each_once(order, origins.len() as int),
        in_order(origins, order),
        0 <= a < b < order.len(),
    ensures
        ({
            let first = origins[order[a] as int];
            let second = origins[order[b] as int];
            ||| first.x < second.x
            ||| first.x == second.x && first.y < second.y
            ||| first == second && order[a] < order[b]
        }),
{
}

/// A display named by its number is the one at that place from left to right.
pub proof fn a_display_is_found_by_its_number(
    screens: Seq<Screen>,
    index: usize,
    order: Seq<usize>,
    distances: Seq<Option<Distance>>,
    at: Option<usize>,
)
    requires
        selected(screens, DisplaySelector::Index(index), order, distances, at),
    ensures
        index < order.len() ==> at == Some(order[index as int]),
        index >= order.len() ==> at is None,
{
}

/// From the far edge too the nearest display is taken, and of those as near the first.
pub proof fn from_the_far_edge_the_nearest_is_taken(
    screens: Seq<Screen>,
    selector: DisplaySelector,
    order: Seq<usize>,
    distances: Seq<Option<Distance>>,
    from_edge: Seq<Option<Distance>>,
    at: Option<usize>,
    i: int,
)
    requires
        selector is Direction,
        selected_around(screens, selector, true, order, distances, from_edge, at),
        forall|k: int| 0 <= k < distances.len() ==> (#[trigger] distances[k]) is None,
        0 <= i < from_edge.len(),
    ensures
        from_edge[i] is Some ==> (at matches Some(at) && at < from_edge.len() && (
        from_edge[at as int] matches Some(near) && {
            ||| near.along < (from_edge[i]->0).along
            ||| near.along == (from_edge[i]->0).along && near.aside < (from_edge[i]->0).aside
            ||| near == from_edge[i]->0 && at <= i
        })),
        (forall|k: int| 0 <= k < from_edge.len() ==> (#[trigger] from_edge[k]) is None)
            ==> at is None,
{
    if from_edge[i] is Some {
        a_display_in_a_direction_is_the_nearest(screens, selector, order, from_edge, at, i);
    }
}

/// A workspace without windows is shown all the same.
pub proof fn an_empty_workspace_moves(moved: WorkspaceMove, windows: Seq<WindowId>)
    ensures
        workspace_steps(moved, windows).last() == (WorkspaceStep::Activate {
            space: moved.target,
            ordinal: moved.ordinal,
        }),
        windows.len() == 0 ==> workspace_steps(moved, windows).len() == 1,
{
}

} // verus!
