//! Which desktops a layout pass arranges, for which screens, and how the frames
//! are written.

use vstd::prelude::*;

use crate::drag::{in_hand, DragManager};
use crate::ids::{SpaceId, WindowId};
use crate::lists::{holds, IdSet};
use crate::screens::{desktops_on, listed_under, Listing, Screen};

verus! {

/// What the layout engine knows of desktops.
#[derive(Debug)]
pub struct LayoutManager {
    /// Those it has on a display.
    pub placed: Vec<SpaceId>,
    /// Those it has a tree for.
    pub laid_out: Vec<SpaceId>,
    /// Those whose layout scrolls.
    pub scrolling: Vec<SpaceId>,
}

/// A desktop to arrange, for which of the screens, and whether that is showing
/// it.
#[derive(Clone, Copy, Debug, PartialEq, Eq, Structural)]
pub struct ArrangeSpace {
    pub space: SpaceId,
    pub screen: usize,
    pub shown: bool,
}

/// A desktop to lay out, and whether its tiled windows are kept on its screen.
#[derive(Clone, Copy, Debug, PartialEq, Eq, Structural)]
pub struct LayoutJob {
    pub arrange: ArrangeSpace,
    pub bounded: bool,
}

/// How frames are written.
#[derive(Clone, Copy, Debug, PartialEq, Eq, Structural)]
pub enum LayoutWrite {
    /// As one workspace gives way to another.
    WorkspaceSwitch,
    /// At once, while a switch is still settling.
    Instant,
    Animated,
}

/// What a layout pass does.
#[derive(Debug)]
pub struct LayoutPlan {
    pub jobs: Vec<LayoutJob>,
    /// The window that is not laid out.
    pub skip: Option<WindowId>,
    pub write: LayoutWrite,
}

/// A desktop that came across from a display that left: one the screen's display
/// owns and does not show, that the engine has a tree for and no display.
pub open spec fn adopted(layouts: LayoutManager, shown: Option<SpaceId>, screen: usize) -> spec_fn(
    SpaceId,
) -> Option<ArrangeSpace> {
    |space: SpaceId|
        if shown != Some(space) && !layouts.placed@.contains(space) && layouts.laid_out@.contains(
            space,
        ) {
            Some(ArrangeSpace { space, screen, shown: false })
        } else {
            None
        }
}

/// The desktops arranged for one screen: the one it shows, then those its
/// display has adopted.
pub open spec fn arranged_for(
    layouts: LayoutManager,
    listing: Listing,
    screen: Screen,
    at: usize,
) -> Seq<ArrangeSpace> {
    let first = match screen.space {
        Some(space) => seq![ArrangeSpace { space, screen: at, shown: true }],
        None => seq![],
    };
    if screen.display_uuid@.len() == 0 {
        first
    } else {
        first + listed_under(listing, screen.display_uuid@).filter_map(
            adopted(layouts, screen.space, at),
        )
    }
}

/// The desktops arranged for the first `n` screens.
pub open spec fn arranged(
    layouts: LayoutManager,
    listing: Listing,
    screens: Seq<Screen>,
    n: int,
) -> Seq<ArrangeSpace>
    decreases n,
{
    if n <= 0 {
        seq![]
    } else {
        arranged(layouts, listing, screens, n - 1) + arranged_for(
            layouts,
            listing,
            screens[n - 1],
            (n - 1) as usize,
        )
    }
}

/// How many screens show a desktop on which the manager is active.
pub open spec fn active_screens(screens: Seq<Screen>, active: Set<SpaceId>) -> nat
    decreases screens.len(),
{
    if screens.len() == 0 {
        0
    } else {
        active_screens(screens.drop_last(), active) + if screens.last().space matches Some(space)
            && active.contains(space) {
            1nat
        } else {
            0
        }
    }
}

/// A desktop that the pass lays out: in its scope, and active if it is shown.
/// With several active screens, tiled windows of a scrolling layout are kept on
/// their screen.
pub open spec fn job_for(
    layouts: LayoutManager,
    scope: Option<SpaceId>,
    active: Set<SpaceId>,
    several: bool,
) -> spec_fn(ArrangeSpace) -> Option<LayoutJob> {
    |arrange: ArrangeSpace|
        if (scope matches Some(scope) && scope != arrange.space) || (arrange.shown
            && !active.contains(arrange.space)) {
            None
        } else {
            Some(
                LayoutJob {
                    arrange,
                    bounded: several && layouts.scrolling@.contains(arrange.space),
                },
            )
        }
}

/// The desktops a pass lays out; none, when no window is known.
pub open spec fn jobs_of(
    layouts: LayoutManager,
    listing: Listing,
    screens: Seq<Screen>,
    active: Set<SpaceId>,
    scope: Option<SpaceId>,
    any_window: bool,
) -> Seq<LayoutJob> {
    if any_window {
        arranged(layouts, listing, screens, screens.len() as int).filter_map(
            job_for(layouts, scope, active, active_screens(screens, active) > 1),
        )
    } else {
        seq![]
    }
}

/// The window that is not laid out: the one in the user's hand; else the one
/// that was to be skipped; else the one last dragged; else a float whose drop is
/// still settling.
pub open spec fn skipped<F, P>(drag: DragManager<F, P>, seam_floats: bool) -> Option<WindowId> {
    match in_hand(drag.drag_state, drag.held_window) {
        Some(window) => Some(window),
        None => match drag.skip_layout_for_window {
            Some(window) => Some(window),
            None => match drag.drag_swap.dragged {
                Some(window) => Some(window),
                None => match drag.seam_finish {
                    Some(finish) => if seam_floats {
                        Some(finish.window)
                    } else {
                        None
                    },
                    None => None,
                },
            },
        },
    }
}

/// Takes the window that is not laid out; one that was to be skipped once is
/// skipped this once.
pub fn take_skipped<F, P>(drag: &mut DragManager<F, P>, seam_floats: bool) -> (skip: Option<WindowId>)
    ensures
        skip == skipped(*old(drag), seam_floats),
        *final(drag) == (DragManager {
            skip_layout_for_window: if in_hand(
                old(drag).drag_state,
                old(drag).held_window,
            ) is None {
                None
            } else {
                old(drag).skip_layout_for_window
            },
            ..*old(drag)
        }),
{
    match drag.window_in_drag() {
        Some(window) => Some(window),
        None => match drag.skip_layout_for_window.take() {
            Some(window) => Some(window),
            None => match drag.drag_swap.dragged {
                Some(window) => Some(window),
                None => match &drag.seam_finish {
                    Some(finish) => if seam_floats {
                        Some(finish.window)
                    } else {
                        None
                    },
                    None => None,
                },
            },
        },
    }
}

/// How frames are written.
pub open spec fn write_of(is_switch: bool, switch_settling: bool) -> LayoutWrite {
    if is_switch {
        LayoutWrite::WorkspaceSwitch
    } else if switch_settling {
        LayoutWrite::Instant
    } else {
        LayoutWrite::Animated
    }
}

fn count_active(screens: &[Screen], active: &IdSet<SpaceId>) -> (several: bool)
    ensures
        several == (active_screens(screens@, active@) > 1),
{
    let mut count: usize = 0;
    let mut i: usize = 0;
    while i < screens.len()
        invariant
            i <= screens@.len(),
            count <= i,
            count == active_screens(screens@.take(i as int), active@),
        decreases screens@.len() - i,
    {
        proof {
            assert(screens@.take(i + 1).drop_last() =~= screens@.take(i as int));
            assert(screens@.take(i + 1).last() == screens@[i as int]);
        }
        match screens[i].space {
            Some(space) => {
                if active.contains(space) {
                    count = count + 1;
                }
            },
            None => {},
        }
        i = i + 1;
    }
    assert(screens@.take(i as int) =~= screens@);
    count > 1
}

impl LayoutManager {
    /// The desktops a pass arranges, with the screen each is arranged for: what
    /// each screen shows, and what its display adopted from one that left.
    pub fn spaces_to_arrange(&self, screens: &[Screen], listing: &Listing) -> (arrange: Vec<
        ArrangeSpace,
    >)
        requires
            listing.wf(),
        ensures
            arrange@ == arranged(*self, *listing, screens@, screens@.len() as int),
    {
        let mut arrange: Vec<ArrangeSpace> = Vec::new();
        let mut i: usize = 0;
        while i < screens.len()
            invariant
                listing.wf(),
                i <= screens@.len(),
                arrange@ == arranged(*self, *listing, screens@, i as int),
            decreases screens@.len() - i,
        {
            let ghost before = arrange@;
            let shown = screens[i].space;
            match shown {
                Some(space) => {
                    arrange.push(ArrangeSpace { space, screen: i, shown: true });
                },
                None => {},
            }
            let ghost first = match shown {
                Some(space) => seq![ArrangeSpace { space, screen: i, shown: true }],
                None => seq![],
            };
            assert(arrange@ =~= before + first);
            if screens[i].display_uuid.as_str().unicode_len() > 0 {
                let owned = desktops_on(listing, &screens[i].display_uuid);
                let ghost f = adopted(*self, shown, i);
                let ghost with_shown = arrange@;
                let mut j: usize = 0;
                assert(with_shown + owned@.take(0).filter_map(f) =~= with_shown);
                while j < owned.len()
                    invariant
                        f == adopted(*self, shown, i),
                        j <= owned@.len(),
                        arrange@ == with_shown + owned@.take(j as int).filter_map(f),
                    decreases owned@.len() - j,
                {
                    proof {
                        owned@.lemma_filter_map_take_succ(f, j as int);
                    }
                    let space = owned[j];
                    let here = match shown {
                        Some(shown) => shown == space,
                        None => false,
                    };
                    if !here && !holds(self.placed.as_slice(), space) && holds(
                        self.laid_out.as_slice(),
                        space,
                    ) {
                        arrange.push(ArrangeSpace { space, screen: i, shown: false });
                    }
                    assert(arrange@ =~= with_shown + owned@.take(j + 1).filter_map(f));
                    j = j + 1;
                }
                assert(owned@.take(j as int) =~= owned@);
                assert(with_shown + owned@.filter_map(f) =~= before + (first + owned@.filter_map(
                    f,
                )));
            }
            i = i + 1;
        }
        arrange
    }

    /// The desktops a pass lays out.
    pub fn calculate_layout(
        &self,
        screens: &[Screen],
        listing: &Listing,
        active: &IdSet<SpaceId>,
        scope: Option<SpaceId>,
        any_window: bool,
    ) -> (jobs: Vec<LayoutJob>)
        requires
            listing.wf(),
        ensures
            jobs@ == jobs_of(*self, *listing, screens@, active@, scope, any_window),
    {
        let mut jobs: Vec<LayoutJob> = Vec::new();
        if !any_window {
            return jobs;
        }
        let several = count_active(screens, active);
        let all = self.spaces_to_arrange(screens, listing);
        let ghost f = job_for(*self, scope, active@, several);
        let mut i: usize = 0;
        while i < all.len()
            invariant
                f == job_for(*self, scope, active@, several),
                i <= all@.len(),
                jobs@ == all@.take(i as int).filter_map(f),
            decreases all@.len() - i,
        {
            proof {
                all@.lemma_filter_map_take_succ(f, i as int);
            }
            let arrange = all[i];
            let out_of_scope = match scope {
                Some(scope) => scope != arrange.space,
                None => false,
            };
            if !(out_of_scope || (arrange.shown && !active.contains(arrange.space))) {
                let bounded = several && holds(self.scrolling.as_slice(), arrange.space);
                jobs.push(LayoutJob { arrange, bounded });
            }
            assert(jobs@ =~= all@.take(i + 1).filter_map(f));
            i = i + 1;
        }
        assert(all@.take(i as int) =~= all@);
        jobs
    }

    /// What a layout pass does.
    pub fn update_layout<F, P>(
        &self,
        drag: &mut DragManager<F, P>,
        screens: &[Screen],
        listing: &Listing,
        active: &IdSet<SpaceId>,
        request: LayoutRequest,
    ) -> (plan: LayoutPlan)
        requires
            listing.wf(),
        ensures
            plan.jobs@ == jobs_of(
                *self,
                *listing,
                screens@,
                active@,
                request.scope,
                request.any_window,
            ),
            plan.skip == skipped(*old(drag), request.seam_floats),
            plan.write == write_of(request.is_workspace_switch, request.switch_settling),
            *final(drag) == (DragManager {
                skip_layout_for_window: if in_hand(
                    old(drag).drag_state,
                    old(drag).held_window,
                ) is None {
                    None
                } else {
                    old(drag).skip_layout_for_window
                },
                ..*old(drag)
            }),
    {
        let jobs = self.calculate_layout(
            screens,
            listing,
            active,
            request.scope,
            request.any_window,
        );
        let skip = take_skipped(drag, request.seam_floats);
        let write = if request.is_workspace_switch {
            LayoutWrite::WorkspaceSwitch
        } else if request.switch_settling {
            LayoutWrite::Instant
        } else {
            LayoutWrite::Animated
        };
        LayoutPlan { jobs, skip, write }
    }
}

/// What is asked of a layout pass.
#[derive(Clone, Copy, Debug, PartialEq, Eq, Structural)]
pub struct LayoutRequest {
    pub scope: Option<SpaceId>,
    /// A window is known at all.
    pub any_window: bool,
    /// The window of a watched drop floats.
    pub seam_floats: bool,
    pub is_workspace_switch: bool,
    /// A workspace switch has not come to rest.
    pub switch_settling: bool,
}

/// What of a layout is told to others.
#[derive(Clone, Copy, Debug, PartialEq, Eq, Structural)]
pub struct LayoutNews {
    /// The line that shows stacks gets the groups.
    pub stack_line: bool,
    /// The stacks are broadcast.
    pub broadcast: bool,
    /// What is told says that a window fills the screen: commands are for the
    /// desktop, and its workspace has such a window.
    pub fullscreen: bool,
}

/// What the news of a desktop's layout depends on.
#[derive(Clone, Copy, Debug, PartialEq, Eq, Structural)]
pub struct NewsFacts {
    pub space: SpaceId,
    /// The desktop that commands are for.
    pub command_space: Option<SpaceId>,
    /// A screen shows the desktop.
    pub has_screen: bool,
    pub stack_line_enabled: bool,
    pub has_stack_line: bool,
    pub has_workspace: bool,
    /// A window fills the active workspace.
    pub workspace_fullscreen: bool,
    pub stacks: usize,
}

/// What of a desktop's layout is told to others: nothing, unless a screen shows
/// it; its stacks are broadcast if it has a workspace and any.
pub fn layout_news(facts: NewsFacts) -> (news: LayoutNews)
    ensures
        news == (LayoutNews {
            stack_line: facts.has_screen && facts.stack_line_enabled && facts.has_stack_line,
            broadcast: facts.has_screen && facts.has_workspace && facts.stacks > 0,
            fullscreen: facts.has_screen && facts.command_space == Some(facts.space)
                && facts.workspace_fullscreen,
        }),
{
    let commanded = match facts.command_space {
        Some(space) => space == facts.space,
        None => false,
    };
    LayoutNews {
        stack_line: facts.has_screen && facts.stack_line_enabled && facts.has_stack_line,
        broadcast: facts.has_screen && facts.has_workspace && facts.stacks > 0,
        fullscreen: facts.has_screen && commanded && facts.workspace_fullscreen,
    }
}

/// Being a tiled window of the active workspace, which is kept on its screen.
pub open spec fn kept_on_screen(active: Seq<WindowId>, floating: Seq<WindowId>) -> spec_fn(
    WindowId,
) -> bool {
    |wid: WindowId| active.contains(wid) && !floating.contains(wid)
}

/// The windows of a scrolling layout that are kept on their screen.
pub fn windows_to_bound(layout: &[WindowId], active: &[WindowId], floating: &[WindowId]) -> (wids:
    Vec<WindowId>)
    ensures
        wids@ == layout@.filter(kept_on_screen(active@, floating@)),
{
    let ghost p = kept_on_screen(active@, floating@);
    let mut wids: Vec<WindowId> = Vec::new();
    let mut i: usize = 0;
    while i < layout.len()
        invariant
            p == kept_on_screen(active@, floating@),
            i <= layout@.len(),
            wids@ == layout@.take(i as int).filter(p),
        decreases layout@.len() - i,
    {
        proof {
            assert(layout@.take(i + 1) =~= layout@.take(i as int).push(layout@[i as int]));
            layout@.take(i as int).lemma_filter_push(layout@[i as int], p);
        }
        if holds(active, layout[i]) && !holds(floating, layout[i]) {
            wids.push(layout[i]);
        }
        i = i + 1;
    }
    assert(layout@.take(i as int) =~= layout@);
    wids
}

/// The window in the user's hand is never laid out.
pub proof fn the_window_in_hand_is_not_laid_out<F, P>(
    drag: DragManager<F, P>,
    seam_floats: bool,
    window: WindowId,
)
    requires
        in_hand(drag.drag_state, drag.held_window) == Some(window),
    ensures
        skipped(drag, seam_floats) == Some(window),
{
}

/// A desktop nobody is looking at is left alone, unless it came across from a
/// display that left and has not been arranged since.
pub proof fn a_placed_desktop_is_not_arranged_unseen(
    layouts: LayoutManager,
    listed: Seq<SpaceId>,
    shown: Option<SpaceId>,
    screen: usize,
    i: int,
)
    requires
        0 <= i < listed.filter_map(adopted(layouts, shown, screen)).len(),
    ensures
        !layouts.placed@.contains(listed.filter_map(adopted(layouts, shown, screen))[i].space),
    decreases listed.len(),
{
    if i < listed.drop_last().filter_map(adopted(layouts, shown, screen)).len() {
        a_placed_desktop_is_not_arranged_unseen(layouts, listed.drop_last(), shown, screen, i);
    }
}

/// One more screen has the desktop it shows arranged first, and then those that its
/// display has adopted; a display without an id adopts nothing.
pub proof fn what_is_arranged_for_a_screen(
    layouts: LayoutManager,
    listing: Listing,
    screens: Seq<Screen>,
    n: int,
    space: SpaceId,
)
    requires
        0 <= n < screens.len() <= usize::MAX,
    ensures
        arranged(layouts, listing, screens, 0).len() == 0,
        ({
            let screen = screens[n];
            let own = arranged_for(layouts, listing, screen, n as usize);
            &&& arranged(layouts, listing, screens, n + 1) == arranged(layouts, listing, screens, n)
                + own
            &&& screen.space is Some ==> own.len() > 0 && own[0] == (ArrangeSpace {
                space: screen.space->0,
                screen: n as usize,
                shown: true,
            })
            &&& own.contains(ArrangeSpace { space, screen: n as usize, shown: true })
                <==> screen.space == Some(space)
            &&& own.contains(ArrangeSpace { space, screen: n as usize, shown: false })
                <==> screen.display_uuid@.len() > 0 && screen.space != Some(space) && listed_under(
                listing,
                screen.display_uuid@,
            ).contains(space) && !layouts.placed@.contains(space) && layouts.laid_out@.contains(
                space,
            )
        }),
{
    let screen = screens[n];
    let at = n as usize;
    let own = arranged_for(layouts, listing, screen, at);
    let listed = listed_under(listing, screen.display_uuid@);
    let f = adopted(layouts, screen.space, at);
    let more = listed.filter_map(f);
    let first = match screen.space {
        Some(space) => seq![ArrangeSpace { space, screen: at, shown: true }],
        None => seq![],
    };
    let shown = ArrangeSpace { space, screen: at, shown: true };
    let unseen = ArrangeSpace { space, screen: at, shown: false };
    crate::screens::lemma_concat_contains(first, more, shown);
    crate::screens::lemma_concat_contains(first, more, unseen);
    crate::lists::lemma_filter_map_holds(listed, f, shown);
    crate::lists::lemma_filter_map_holds(listed, f, unseen);
    if screen.space == Some(space) {
        assert(first[0] == shown);
    }
    assert(!first.contains(unseen));
    if more.contains(unseen) {
        let i = choose|i: int| 0 <= i < listed.len() && f(#[trigger] listed[i]) == Some(unseen);
        assert(listed[i] == space);
    }
    if more.contains(shown) {
        let i = choose|i: int| 0 <= i < listed.len() && f(#[trigger] listed[i]) == Some(shown);
        assert(false);
    }
    if screen.space != Some(space) && listed.contains(space) && !layouts.placed@.contains(space)
        && layouts.laid_out@.contains(space) {
        let i = listed.index_of(space);
        assert(f(listed[i]) == Some(unseen));
    }
}

/// One more desktop is laid out if it is in scope, and active where it is shown; with
/// several active screens a scrolling one is kept on its screen.
pub proof fn what_is_laid_out(
    layouts: LayoutManager,
    list: Seq<ArrangeSpace>,
    one: ArrangeSpace,
    scope: Option<SpaceId>,
    active: Set<SpaceId>,
    several: bool,
)
    ensures
        ({
            let f = job_for(layouts, scope, active, several);
            let due = (scope is None || scope == Some(one.space)) && (!one.shown || active.contains(
                one.space,
            ));
            &&& due ==> list.push(one).filter_map(f) == list.filter_map(f).push(
                LayoutJob {
                    arrange: one,
                    bounded: several && layouts.scrolling@.contains(one.space),
                },
            )
            &&& !due ==> list.push(one).filter_map(f) == list.filter_map(f)
        }),
{
    crate::lists::lemma_filter_map_push(list, one, job_for(layouts, scope, active, several));
}

/// No desktop is laid out while no window is known; else those that are due.
pub proof fn without_windows_nothing_is_laid_out(
    layouts: LayoutManager,
    listing: Listing,
    screens: Seq<Screen>,
    active: Set<SpaceId>,
    scope: Option<SpaceId>,
)
    ensures
        jobs_of(layouts, listing, screens, active, scope, false).len() == 0,
        jobs_of(layouts, listing, screens, active, scope, true) == arranged(
            layouts,
            listing,
            screens,
            screens.len() as int,
        ).filter_map(job_for(layouts, scope, active, active_screens(screens, active) > 1)),
{
}

/// Each screen that shows a desktop on which the manager is active counts, and no other.
pub proof fn which_screens_count(screens: Seq<Screen>, screen: Screen, active: Set<SpaceId>)
    ensures
        active_screens(Seq::empty(), active) == 0,
        screen.space is Some && active.contains(screen.space->0) ==> active_screens(
            screens.push(screen),
            active,
        ) == active_screens(screens, active) + 1,
        screen.space is None || !active.contains(screen.space->0) ==> active_screens(
            screens.push(screen),
            active,
        ) == active_screens(screens, active),
{
    assert(screens.push(screen).drop_last() =~= screens);
}

/// Without a window in the hand, the one to skip is skipped; else the one last dragged;
/// else the one of a drop that still settles, if it floats.
pub proof fn who_is_skipped<F, P>(drag: DragManager<F, P>, seam_floats: bool)
    requires
        in_hand(drag.drag_state, drag.held_window) is None,
    ensures
        drag.skip_layout_for_window is Some ==> skipped(drag, seam_floats)
            == drag.skip_layout_for_window,
        drag.skip_layout_for_window is None && drag.drag_swap.dragged is Some ==> skipped(
            drag,
            seam_floats,
        ) == drag.drag_swap.dragged,
        drag.skip_layout_for_window is None && drag.drag_swap.dragged is None
            && drag.seam_finish is Some && seam_floats ==> skipped(drag, seam_floats) == Some(
            drag.seam_finish->0.window,
        ),
        drag.skip_layout_for_window is None && drag.drag_swap.dragged is None && (
        drag.seam_finish is None || !seam_floats) ==> skipped(drag, seam_floats) is None,
{
}

/// Frames are written as a workspace gives way where it does, at once while a switch
/// settles, and otherwise with animation.
pub proof fn how_frames_are_written(switch_settling: bool)
    ensures
        write_of(true, switch_settling) == LayoutWrite::WorkspaceSwitch,
        write_of(false, true) == LayoutWrite::Instant,
        write_of(false, false) == LayoutWrite::Animated,
{
}

/// One more window is kept on its screen if it is of the active workspace and tiled.
pub proof fn which_windows_are_kept_on_screen(
    layout: Seq<WindowId>,
    one: WindowId,
    active: Seq<WindowId>,
    floating: Seq<WindowId>,
)
    ensures
        active.contains(one) && !floating.contains(one) ==> layout.push(one).filter(
            kept_on_screen(active, floating),
        ) == layout.filter(kept_on_screen(active, floating)).push(one),
        !active.contains(one) || floating.contains(one) ==> layout.push(one).filter(
            kept_on_screen(active, floating),
        ) == layout.filter(kept_on_screen(active, floating)),
{
    crate::lists::lemma_filter_push(layout, one, kept_on_screen(active, floating));
}

/// One more listed desktop is arranged unseen, behind those before it, if the screen does
/// not show it, no screen has it and it was laid out.
pub proof fn which_desktops_are_arranged_unseen(
    layouts: LayoutManager,
    listed: Seq<SpaceId>,
    one: SpaceId,
    shown: Option<SpaceId>,
    screen: usize,
)
    ensures
        ({
            let f = adopted(layouts, shown, screen);
            let due = shown != Some(one) && !layouts.placed@.contains(one)
                && layouts.laid_out@.contains(one);
            &&& due ==> listed.push(one).filter_map(f) == listed.filter_map(f).push(
                ArrangeSpace { space: one, screen, shown: false },
            )
            &&& !due ==> listed.push(one).filter_map(f) == listed.filter_map(f)
        }),
{
    crate::lists::lemma_filter_map_push(listed, one, adopted(layouts, shown, screen));
}

} // verus!
