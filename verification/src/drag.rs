//! A window in the user's hand: the drag, the drop, and what follows it.
//!
//! `F` is a window's frame and `P` a point on the screen; both are kept and
//! handed back as they are, and whatever is read from them comes in as an
//! answer.

use vstd::prelude::*;

use crate::clock::{elapsed, later, Nanos};
use crate::ids::{SpaceId, WindowId, WindowServerId};
use crate::layout::Direction;

verus! {

/// What a drop on a window does.
#[derive(Clone, Copy, Debug, PartialEq, Eq, Structural)]
pub enum DropAction {
    /// The two windows trade places.
    Swap,
    /// The dragged one is put on this side of the other.
    Insert(Direction),
}

/// A drag that has been reported.
#[derive(Clone, Copy, Debug)]
pub struct DragSession<F> {
    pub window: WindowId,
    pub last_frame: F,
    pub origin_space: Option<SpaceId>,
    pub settled_space: Option<SpaceId>,
    pub layout_dirty: bool,
}

#[derive(Clone, Copy, Debug)]
pub enum DragState<F> {
    Inactive,
    Active { session: DragSession<F> },
    /// Over a window that a drop would change places with.
    PendingSwap { session: DragSession<F>, target: WindowId },
}

/// How long after a drop, and after each correction, its placement is looked at
/// again.
pub const SEAM_SETTLE: Nanos = 250_000_000;

/// How often a correction is written at most.
pub const SEAM_ATTEMPTS: u8 = 2;

/// A drop that was left straddling two displays.
#[derive(Clone, Copy, Debug)]
pub struct SeamFinish<F, P> {
    pub window: WindowId,
    /// Where the user let go.
    pub dropped_at: F,
    /// Where the pointer let go.
    pub pointer: Option<P>,
    /// The correction that was written, once one was needed.
    pub fitted: Option<F>,
    pub at: Nanos,
    pub attempts: u8,
}

impl<F, P> SeamFinish<F, P> {
    /// A correction has been written exactly if there was an attempt, and there
    /// were no more than allowed.
    pub open spec fn wf(&self) -> bool {
        (self.fitted is None <==> self.attempts == 0) && self.attempts <= SEAM_ATTEMPTS
    }
}

/// A drop zone the pointer has entered but not yet dwelt in.
#[derive(Clone, Copy, Debug, PartialEq, Eq, Structural)]
pub struct ZoneCandidate {
    pub dragged: WindowId,
    pub target: WindowId,
    pub action: DropAction,
    pub since: Nanos,
}

impl ZoneCandidate {
    /// How long the pointer has to stay in a new zone before the preview
    /// follows it there.
    pub const DWELL: Nanos = 150_000_000;
}

/// What the overlay shows of a drop.
#[derive(Clone, Copy, Debug)]
pub struct DropPreview<F> {
    pub dragged: WindowId,
    pub target: WindowId,
    pub action: DropAction,
    pub screen: F,
    pub region: F,
}

/// The desktop a dropped window belongs to, whatever the window server reports,
/// until the write that puts it there has landed.
#[derive(Clone, Copy, Debug, PartialEq, Eq, Structural)]
pub struct DropPin {
    pub window: WindowServerId,
    pub space: SpaceId,
    pub until: Nanos,
    /// When the window server may next be asked whether the write landed.
    pub next_probe: Nanos,
}

impl DropPin {
    /// How long a frame write is given to land before the window server is
    /// believed again.
    pub const HOLD: Nanos = 1_500_000_000;

    /// How often the window server is asked whether it agrees yet.
    pub const PROBE_EVERY: Nanos = 200_000_000;
}

/// How often a dragged float's desktop is matched to the display under it.
pub const SPACE_SYNC_EVERY: Nanos = 100_000_000;

/// The window that a drag is over.
#[derive(Clone, Copy, Debug)]
pub struct DragSwap<F> {
    pub dragged: Option<WindowId>,
    pub target: Option<WindowId>,
    pub origin_frame: Option<F>,
}

/// Manages drag operations and window swapping.
#[derive(Debug)]
pub struct DragManager<F, P> {
    pub drag_state: DragState<F>,
    pub drag_swap: DragSwap<F>,
    pub skip_layout_for_window: Option<WindowId>,
    /// Whether the drop overlay is on screen.
    pub drop_overlay_shown: bool,
    pub zone_candidate: Option<ZoneCandidate>,
    /// The last preview the overlay was aimed at.
    pub drop_preview_cache: Option<DropPreview<F>>,
    pub drop_pin: Option<DropPin>,
    /// A window whose frame was reported moving with the button down, until the
    /// button comes up.
    pub held_window: Option<WindowId>,
    /// A floating window whose own notifications are silenced while the user
    /// drags it.
    pub notifications_silenced: Option<WindowId>,
    /// When a dragged float's desktop was last matched.
    pub space_sync_at: Option<Nanos>,
    pub seam_finish: Option<SeamFinish<F, P>>,
}

/// The drag session, in whichever state carries one.
pub open spec fn session_of<F>(state: DragState<F>) -> Option<DragSession<F>> {
    match state {
        DragState::Active { session } => Some(session),
        DragState::PendingSwap { session, .. } => Some(session),
        DragState::Inactive => None,
    }
}

/// The dragged window and the one under it.
pub open spec fn pending_swap_of<F>(state: DragState<F>) -> Option<(WindowId, WindowId)> {
    match state {
        DragState::PendingSwap { session, target } => Some((session.window, target)),
        _ => None,
    }
}

/// The window in the user's hand: the dragged one, else the held one.
pub open spec fn in_hand<F>(state: DragState<F>, held: Option<WindowId>) -> Option<WindowId> {
    match session_of(state) {
        Some(session) => Some(session.window),
        None => held,
    }
}

/// The preview is of this drop.
pub open spec fn previews<F>(
    cached: Option<DropPreview<F>>,
    dragged: WindowId,
    target: WindowId,
) -> bool {
    cached matches Some(cached) && cached.dragged == dragged && cached.target == target
}

/// What a drop is shown to do: what the pointer says, but not before it has
/// stayed in the new zone for a while.
pub open spec fn sticky_action<F>(
    cached: Option<DropPreview<F>>,
    candidate: Option<ZoneCandidate>,
    dragged: WindowId,
    target: WindowId,
    raw: DropAction,
    now: Nanos,
) -> (DropAction, Option<ZoneCandidate>) {
    if !previews(cached, dragged, target) || cached->0.action == raw {
        (raw, None)
    } else if candidate matches Some(entered) && entered.dragged == dragged && entered.target
        == target && entered.action == raw {
        if elapsed(now, candidate->0.since) >= ZoneCandidate::DWELL {
            (raw, None)
        } else {
            (cached->0.action, candidate)
        }
    } else {
        (cached->0.action, Some(ZoneCandidate { dragged, target, action: raw, since: now }))
    }
}

/// How the preview of a drop is had.
#[derive(Clone, Copy, Debug, PartialEq, Eq, Structural)]
pub enum PreviewSource {
    /// There is nothing to promise.
    Nothing,
    /// It is the one shown last.
    Cached,
    /// The region for this is to be worked out.
    Region(DropAction),
}

/// What the overlay is told.
#[derive(Clone, Copy, Debug, PartialEq, Eq, Structural)]
pub enum OverlayStep {
    Nothing,
    Hide,
    Aim,
}

impl<F, P> DragManager<F, P> {
    pub open spec fn wf(&self) -> bool {
        self.seam_finish matches Some(finish) ==> finish.wf()
    }

    pub fn new() -> (manager: DragManager<F, P>)
        ensures
            manager.wf(),
            manager == (DragManager::<F, P> {
                drag_state: DragState::Inactive,
                drag_swap: DragSwap { dragged: None, target: None, origin_frame: None },
                skip_layout_for_window: None,
                drop_overlay_shown: false,
                zone_candidate: None,
                drop_preview_cache: None,
                drop_pin: None,
                held_window: None,
                notifications_silenced: None,
                space_sync_at: None,
                seam_finish: None,
            }),
    {
        DragManager {
            drag_state: DragState::Inactive,
            drag_swap: DragSwap { dragged: None, target: None, origin_frame: None },
            skip_layout_for_window: None,
            drop_overlay_shown: false,
            zone_candidate: None,
            drop_preview_cache: None,
            drop_pin: None,
            held_window: None,
            notifications_silenced: None,
            space_sync_at: None,
            seam_finish: None,
        }
    }

    /// Forgets which window a drag was over.
    pub fn reset(&mut self)
        ensures
            *final(self) == (DragManager {
                drag_swap: DragSwap { dragged: None, target: None, origin_frame: None },
                ..*old(self)
            }),
    {
        self.drag_swap = DragSwap { dragged: None, target: None, origin_frame: None };
    }

    pub fn last_target(&self) -> (target: Option<WindowId>)
        ensures
            target == self.drag_swap.target,
    {
        self.drag_swap.target
    }

    pub fn dragged(&self) -> (window: Option<WindowId>)
        ensures
            window == self.drag_swap.dragged,
    {
        self.drag_swap.dragged
    }

    pub fn is_in_drag(&self) -> (dragging: bool)
        ensures
            dragging == (session_of(self.drag_state) is Some),
    {
        match &self.drag_state {
            DragState::Inactive => false,
            _ => true,
        }
    }

    pub fn get_pending_drag_swap(&self) -> (pending: Option<(WindowId, WindowId)>)
        ensures
            pending == pending_swap_of(self.drag_state),
    {
        match &self.drag_state {
            DragState::PendingSwap { session, target } => Some((session.window, *target)),
            _ => None,
        }
    }

    /// The window the user is dragging, while the drag lasts.
    pub fn window_in_drag(&self) -> (window: Option<WindowId>)
        ensures
            window == in_hand(self.drag_state, self.held_window),
    {
        match &self.drag_state {
            DragState::Active { session } => Some(session.window),
            DragState::PendingSwap { session, .. } => Some(session.window),
            DragState::Inactive => self.held_window,
        }
    }

    /// A window has changed desktop. With the button down, and the one it is
    /// assigned to active and another, it is taken to be in the user's hand.
    pub fn hold_if_dragged_across_spaces(
        &mut self,
        window: WindowId,
        target_space: SpaceId,
        button_down: bool,
        assigned: Option<SpaceId>,
        assigned_active: bool,
    )
        ensures
            *final(self) == (DragManager {
                held_window: if in_hand(old(self).drag_state, old(self).held_window) is None
                    && button_down && assigned_active && (assigned matches Some(space) && space
                    != target_space) {
                    Some(window)
                } else {
                    old(self).held_window
                },
                ..*old(self)
            }),
    {
        if self.window_in_drag().is_some() || !button_down || !assigned_active {
            return;
        }
        match assigned {
            Some(space) => {
                if space != target_space {
                    self.held_window = Some(window);
                }
            },
            None => {},
        }
    }

    /// A frame report came in: with the button down, a known window is held.
    pub fn note_frame_report(&mut self, window: WindowId, button_down: bool, known: bool)
        ensures
            *final(self) == (DragManager {
                held_window: if button_down && known {
                    Some(window)
                } else {
                    old(self).held_window
                },
                ..*old(self)
            }),
    {
        if button_down && known {
            self.held_window = Some(window);
        }
    }

    /// What a drop is shown to do, with the pointer saying `raw`, and the zone
    /// that it has entered.
    fn dwell(&self, dragged: WindowId, target: WindowId, raw: DropAction, now: Nanos) -> (shown: (
        DropAction,
        Option<ZoneCandidate>,
    ))
        ensures
            shown == sticky_action(
                self.drop_preview_cache,
                self.zone_candidate,
                dragged,
                target,
                raw,
                now,
            ),
    {
        let shown = match &self.drop_preview_cache {
            Some(cached) => if cached.dragged == dragged && cached.target == target {
                Some(cached.action)
            } else {
                None
            },
            None => None,
        };
        let shown = match shown {
            Some(shown) => shown,
            None => {
                return (raw, None);
            },
        };
        if raw == shown {
            return (raw, None);
        }
        match self.zone_candidate {
            Some(entered) => {
                if entered.dragged == dragged && entered.target == target && entered.action == raw {
                    if elapsed(now, entered.since) >= ZoneCandidate::DWELL {
                        return (raw, None);
                    }
                    return (shown, Some(entered));
                }
            },
            None => {},
        }
        (shown, Some(ZoneCandidate { dragged, target, action: raw, since: now }))
    }

    /// What a drop is shown to do, with the pointer saying `raw`.
    pub fn sticky_drop_action(
        &mut self,
        dragged: WindowId,
        target: WindowId,
        raw: DropAction,
        now: Nanos,
    ) -> (action: DropAction)
        ensures
            (action, final(self).zone_candidate) == sticky_action(
                old(self).drop_preview_cache,
                old(self).zone_candidate,
                dragged,
                target,
                raw,
                now,
            ),
            *final(self) == (DragManager {
                zone_candidate: final(self).zone_candidate,
                ..*old(self)
            }),
    {
        let (action, candidate) = self.dwell(dragged, target, raw, now);
        self.zone_candidate = candidate;
        action
    }

    /// How the preview of a drop on `target` would be had, with the pointer
    /// saying `raw` (nothing, where the drop would change nothing).
    pub fn preview_source(
        &self,
        enabled: bool,
        dragged: WindowId,
        target: WindowId,
        raw: Option<DropAction>,
        now: Nanos,
    ) -> (source: PreviewSource)
        ensures
            source == self.source_of(enabled, dragged, target, raw, now),
    {
        if !enabled {
            return PreviewSource::Nothing;
        }
        let raw = match raw {
            Some(raw) => raw,
            None => {
                return PreviewSource::Nothing;
            },
        };
        let (action, _) = self.dwell(dragged, target, raw, now);
        match &self.drop_preview_cache {
            Some(cached) => {
                if cached.dragged == dragged && cached.target == target && cached.action == action {
                    return PreviewSource::Cached;
                }
            },
            None => {},
        }
        PreviewSource::Region(action)
    }

    /// How the preview of a drop on `target` is had.
    pub open spec fn source_of(
        self,
        enabled: bool,
        dragged: WindowId,
        target: WindowId,
        raw: Option<DropAction>,
        now: Nanos,
    ) -> PreviewSource {
        match raw {
            Some(raw) if enabled => {
                let (action, _) = sticky_action(
                    self.drop_preview_cache,
                    self.zone_candidate,
                    dragged,
                    target,
                    raw,
                    now,
                );
                if previews(self.drop_preview_cache, dragged, target)
                    && self.drop_preview_cache->0.action == action {
                    PreviewSource::Cached
                } else {
                    PreviewSource::Region(action)
                }
            },
            _ => PreviewSource::Nothing,
        }
    }

    /// How the preview of a drop on `target` is had, with the pointer saying
    /// `raw`; the zone that the pointer has entered is kept in mind.
    pub fn drop_preview_for(
        &mut self,
        enabled: bool,
        dragged: WindowId,
        target: WindowId,
        raw: Option<DropAction>,
        now: Nanos,
    ) -> (source: PreviewSource)
        ensures
            source == old(self).source_of(enabled, dragged, target, raw, now),
            *final(self) == (DragManager {
                zone_candidate: match raw {
                    Some(raw) if enabled => sticky_action(
                        old(self).drop_preview_cache,
                        old(self).zone_candidate,
                        dragged,
                        target,
                        raw,
                        now,
                    ).1,
                    _ => old(self).zone_candidate,
                },
                ..*old(self)
            }),
    {
        let source = self.preview_source(enabled, dragged, target, raw, now);
        match raw {
            Some(raw) => {
                if enabled {
                    let _ = self.sticky_drop_action(dragged, target, raw, now);
                }
            },
            None => {},
        }
        source
    }

    /// Shows a preview that was worked out, unless it is the one shown.
    pub fn preview_drop_region(&mut self, preview: DropPreview<F>) -> (step: OverlayStep)
        ensures
            step == if old(self).drop_overlay_shown && previews(
                old(self).drop_preview_cache,
                preview.dragged,
                preview.target,
            ) && old(self).drop_preview_cache->0.action == preview.action {
                OverlayStep::Nothing
            } else {
                OverlayStep::Aim
            },
            *final(self) == (DragManager {
                drop_preview_cache: Some(preview),
                drop_overlay_shown: true,
                ..*old(self)
            }),
    {
        let unchanged = self.drop_overlay_shown && match &self.drop_preview_cache {
            Some(cached) => cached.dragged == preview.dragged && cached.target == preview.target
                && cached.action == preview.action,
            None => false,
        };
        self.drop_preview_cache = Some(preview);
        self.drop_overlay_shown = true;
        if unchanged {
            OverlayStep::Nothing
        } else {
            OverlayStep::Aim
        }
    }

    /// There is nothing to show: forgets the preview, and takes it down if it
    /// is up.
    pub fn hide_drop_region(&mut self) -> (step: OverlayStep)
        ensures
            step == if old(self).drop_overlay_shown {
                OverlayStep::Hide
            } else {
                OverlayStep::Nothing
            },
            *final(self) == (DragManager {
                drop_preview_cache: None,
                zone_candidate: None,
                drop_overlay_shown: false,
                ..*old(self)
            }),
    {
        self.drop_preview_cache = None;
        self.zone_candidate = None;
        let shown = self.drop_overlay_shown;
        self.drop_overlay_shown = false;
        if shown {
            OverlayStep::Hide
        } else {
            OverlayStep::Nothing
        }
    }

    /// The overlay lives as long as a pending drop does: without one it is
    /// taken down.
    pub fn reconcile_overlay(&mut self) -> (step: OverlayStep)
        ensures
            if old(self).drop_overlay_shown && pending_swap_of(old(self).drag_state) is None {
                &&& step == OverlayStep::Hide
                &&& *final(self) == (DragManager {
                    drop_preview_cache: None,
                    zone_candidate: None,
                    drop_overlay_shown: false,
                    ..*old(self)
                })
            } else {
                step == OverlayStep::Nothing && *final(self) == *old(self)
            },
            pending_swap_of(final(self).drag_state) is None ==> !final(self).drop_overlay_shown,
    {
        if self.drop_overlay_shown && self.get_pending_drag_swap().is_none() {
            return self.hide_drop_region();
        }
        OverlayStep::Nothing
    }
}

/// What is known of a window that the one dragged might be dropped on.
#[derive(Clone, Copy, Debug, PartialEq, Eq, Structural)]
pub struct CandidateWindow {
    pub window: WindowId,
    pub admitted: bool,
    pub floating: bool,
    /// It is in the tree of the desktop under the pointer.
    pub tiled_here: bool,
    /// It is in one stack with the dragged window.
    pub shares_stack: bool,
    /// The pointer is over it.
    pub under_pointer: bool,
    /// The pointer is over it or the gap around it.
    pub near_pointer: bool,
}

/// Being in the layout of the desktop, and in no stack with the dragged window:
/// only such a window can be swapped with or split.
pub open spec fn can_be_dropped_on(dragged: WindowId) -> spec_fn(CandidateWindow) -> bool {
    |other: CandidateWindow|
        other.window != dragged && other.admitted && !other.floating && other.tiled_here
            && !other.shares_stack
}

/// The windows that `dragged` could be dropped on; none, unless it is in the
/// layout itself.
pub open spec fn drop_candidates(
    dragged: WindowId,
    dragged_tiled: bool,
    windows: Seq<CandidateWindow>,
) -> Seq<CandidateWindow> {
    if dragged_tiled {
        windows.filter(can_be_dropped_on(dragged))
    } else {
        seq![]
    }
}

/// The windows that `dragged` could be dropped on.
pub fn collect_drag_swap_candidates(
    dragged: WindowId,
    dragged_tiled: bool,
    windows: &[CandidateWindow],
) -> (candidates: Vec<CandidateWindow>)
    ensures
        candidates@ == drop_candidates(dragged, dragged_tiled, windows@),
{
    let mut candidates: Vec<CandidateWindow> = Vec::new();
    if !dragged_tiled {
        return candidates;
    }
    let ghost p = can_be_dropped_on(dragged);
    let mut i: usize = 0;
    while i < windows.len()
        invariant
            p == can_be_dropped_on(dragged),
            i <= windows@.len(),
            candidates@ == windows@.take(i as int).filter(p),
        decreases windows@.len() - i,
    {
        proof {
            assert(windows@.take(i + 1) =~= windows@.take(i as int).push(windows@[i as int]));
            windows@.take(i as int).lemma_filter_push(windows@[i as int], p);
        }
        let other = windows[i];
        if other.window != dragged && other.admitted && !other.floating && other.tiled_here
            && !other.shares_stack {
            candidates.push(other);
        }
        i = i + 1;
    }
    assert(windows@.take(i as int) =~= windows@);
    candidates
}

/// The first candidate under the pointer.
pub open spec fn first_under(candidates: Seq<CandidateWindow>) -> Option<WindowId>
    decreases candidates.len(),
{
    if candidates.len() == 0 {
        None
    } else if candidates[0].under_pointer {
        Some(candidates[0].window)
    } else {
        first_under(candidates.skip(1))
    }
}

/// The first candidate that is `window` has the pointer near.
pub open spec fn still_near(candidates: Seq<CandidateWindow>, window: WindowId) -> bool
    decreases candidates.len(),
{
    if candidates.len() == 0 {
        false
    } else if candidates[0].window == window {
        candidates[0].near_pointer
    } else {
        still_near(candidates.skip(1), window)
    }
}

/// The window a drop would be on: the one under the pointer; in the gap around
/// the last one, that one still.
pub open spec fn target_under_pointer(
    candidates: Seq<CandidateWindow>,
    dragged: WindowId,
    pending: Option<(WindowId, WindowId)>,
) -> Option<WindowId> {
    match first_under(candidates) {
        Some(target) => Some(target),
        None => match pending {
            Some((window, target)) => if window == dragged && still_near(candidates, target) {
                Some(target)
            } else {
                None
            },
            None => None,
        },
    }
}

/// The window a drop would be on.
pub fn find_target_under_pointer(
    candidates: &[CandidateWindow],
    dragged: WindowId,
    pending: Option<(WindowId, WindowId)>,
) -> (target: Option<WindowId>)
    ensures
        target == target_under_pointer(candidates@, dragged, pending),
{
    let mut i: usize = 0;
    assert(candidates@.skip(0) =~= candidates@);
    while i < candidates.len()
        invariant
            i <= candidates@.len(),
            first_under(candidates@) == first_under(candidates@.skip(i as int)),
        decreases candidates@.len() - i,
    {
        if candidates[i].under_pointer {
            return Some(candidates[i].window);
        }
        assert(candidates@.skip(i as int).skip(1) =~= candidates@.skip(i + 1));
        i = i + 1;
    }
    let (window, target) = match pending {
        Some(pending) => pending,
        None => {
            return None;
        },
    };
    if window != dragged {
        return None;
    }
    let mut i: usize = 0;
    while i < candidates.len()
        invariant
            first_under(candidates@) is None,
            pending == Some((window, target)),
            window == dragged,
            i <= candidates@.len(),
            still_near(candidates@, target) == still_near(candidates@.skip(i as int), target),
        decreases candidates@.len() - i,
    {
        if candidates[i].window == target {
            return if candidates[i].near_pointer {
                Some(target)
            } else {
                None
            };
        }
        assert(candidates@.skip(i as int).skip(1) =~= candidates@.skip(i + 1));
        i = i + 1;
    }
    None
}

/// What is known of a drag when its target is looked for.
#[derive(Clone, Copy, Debug, PartialEq, Eq, Structural)]
pub struct DropFacts {
    /// The window is known.
    pub known: bool,
    /// The active desktop under the pointer.
    pub pointer_space: Option<SpaceId>,
    /// The desktop the window's frame is on.
    pub frame_space: Option<SpaceId>,
    /// The desktop the frame it was picked up from is on.
    pub origin_frame_space: Option<SpaceId>,
}

/// The desktop whose tree is dropped into: the pointer's, else where the drag
/// has settled, else the frame's.
pub open spec fn drop_space<F>(state: DragState<F>, facts: DropFacts) -> Option<SpaceId> {
    match facts.pointer_space {
        Some(space) => Some(space),
        None => match session_of(state) {
            Some(session) => match session.settled_space {
                Some(space) => Some(space),
                None => facts.frame_space,
            },
            None => facts.frame_space,
        },
    }
}

/// The desktop the dragged window's own layout is on: where it was picked up,
/// else the one dropped into.
pub open spec fn membership_space<F>(
    state: DragState<F>,
    facts: DropFacts,
    space: SpaceId,
) -> SpaceId {
    let origin = match session_of(state) {
        Some(session) => session.origin_space,
        None => None,
    };
    match origin {
        Some(space) => space,
        None => match facts.origin_frame_space {
            Some(space) => space,
            None => space,
        },
    }
}

/// What the search for the window that a drop is on reads of the layout and the
/// pointer.
#[derive(Clone, Copy, Debug, PartialEq, Eq, Structural)]
pub struct DropLook {
    /// The dragged window is in the active workspace of the desktop its own
    /// layout is on.
    pub in_active_workspace: bool,
    /// It is in the tree of that desktop.
    pub dragged_tiled: bool,
    /// The pointer can be read.
    pub pointer: bool,
    /// The window that its frame overlaps most, for when the pointer cannot be.
    pub overlapped: Option<WindowId>,
}

/// What the overlay could show of a drop.
#[derive(Clone, Copy, Debug)]
pub struct DropAim<F> {
    pub enabled: bool,
    /// What the drop does by where the pointer is, if it does anything.
    pub raw: Option<DropAction>,
    /// The screen and the region that the drop would land in, where they had to
    /// be worked out and could be.
    pub landing: Option<(F, F)>,
}

/// The drag of `window` is over `target`, or over none. The frame at which its
/// drag was first looked at is kept.
pub open spec fn swap_over<F>(
    swap: DragSwap<F>,
    window: WindowId,
    frame: F,
    target: Option<WindowId>,
) -> DragSwap<F> {
    DragSwap {
        dragged: Some(window),
        target,
        origin_frame: if swap.dragged == Some(window) {
            swap.origin_frame
        } else {
            Some(frame)
        },
    }
}

impl<F: Copy, P> DragManager<F, P> {
    /// The session, in whichever state carries one.
    pub fn current_drag_session(&self) -> (session: Option<DragSession<F>>)
        ensures
            session == session_of(self.drag_state),
    {
        match &self.drag_state {
            DragState::Active { session } => Some(*session),
            DragState::PendingSwap { session, .. } => Some(*session),
            DragState::Inactive => None,
        }
    }

    /// The session of a drag that is over no window.
    pub fn get_active_drag_session(&self) -> (session: Option<DragSession<F>>)
        ensures
            session == match self.drag_state {
                DragState::Active { session } => Some(session),
                _ => None,
            },
    {
        match &self.drag_state {
            DragState::Active { session } => Some(*session),
            _ => None,
        }
    }

    /// Takes the session; the drag is over.
    pub fn take_active_drag_session(&mut self) -> (session: Option<DragSession<F>>)
        ensures
            session == session_of(old(self).drag_state),
            *final(self) == (DragManager { drag_state: DragState::Inactive, ..*old(self) }),
    {
        let session = self.current_drag_session();
        self.drag_state = DragState::Inactive;
        session
    }

    pub fn origin_frame(&self) -> (frame: Option<F>)
        ensures
            frame == self.drag_swap.origin_frame,
    {
        self.drag_swap.origin_frame
    }

    /// Begins a drag of `window`, unless one is reported already.
    pub fn ensure_active_drag(&mut self, window: WindowId, frame: F, space: Option<SpaceId>)
        ensures
            *final(self) == (DragManager {
                drag_state: match old(self).drag_state {
                    DragState::Active { session } if session.window == window => old(self).drag_state,
                    _ => DragState::Active {
                        session: DragSession {
                            window,
                            last_frame: frame,
                            origin_space: space,
                            settled_space: space,
                            layout_dirty: false,
                        },
                    },
                },
                skip_layout_for_window: Some(window),
                ..*old(self)
            }),
    {
        let same = match &self.drag_state {
            DragState::Active { session } => session.window == window,
            _ => false,
        };
        if !same {
            self.drag_state = DragState::Active {
                session: DragSession {
                    window,
                    last_frame: frame,
                    origin_space: space,
                    settled_space: space,
                    layout_dirty: false,
                },
            };
        }
        self.skip_layout_for_window = Some(window);
    }

    /// Where a drop of the dragged window is looked for: the desktop dropped
    /// into, and the one its own layout is on. Nothing, when it is not dragged,
    /// not known, or nowhere.
    pub fn drop_spaces(&self, facts: DropFacts) -> (spaces: Option<(SpaceId, SpaceId)>)
        ensures
            spaces == if session_of(self.drag_state) is None || !facts.known {
                None
            } else {
                match drop_space(self.drag_state, facts) {
                    Some(space) => Some(
                        (space, membership_space(self.drag_state, facts, space)),
                    ),
                    None => None,
                }
            },
    {
        let session = match self.current_drag_session() {
            Some(session) => session,
            None => {
                return None;
            },
        };
        if !facts.known {
            return None;
        }
        let space = match facts.pointer_space {
            Some(space) => space,
            None => match session.settled_space {
                Some(space) => space,
                None => match facts.frame_space {
                    Some(space) => space,
                    None => {
                        return None;
                    },
                },
            },
        };
        let membership = match session.origin_space {
            Some(space) => space,
            None => match facts.origin_frame_space {
                Some(space) => space,
                None => space,
            },
        };
        Some((space, membership))
    }

    /// The window that a drop is on, where one is looked for.
    pub open spec fn target_of(
        self,
        window: WindowId,
        look: DropLook,
        windows: Seq<CandidateWindow>,
    ) -> Option<WindowId> {
        if look.pointer {
            target_under_pointer(
                drop_candidates(window, look.dragged_tiled, windows),
                window,
                pending_swap_of(self.drag_state),
            )
        } else {
            look.overlapped
        }
    }

    /// A drop of the window is looked for: it is dragged, known, somewhere, and
    /// in the active workspace of its own desktop.
    pub open spec fn looks_for_drop(self, facts: DropFacts, look: DropLook) -> bool {
        session_of(self.drag_state) is Some && facts.known && drop_space(self.drag_state, facts)
            is Some && look.in_active_workspace
    }

    /// The window that a drop would be on, for its preview to be worked out.
    pub fn find_drop_target(
        &self,
        window: WindowId,
        facts: DropFacts,
        look: DropLook,
        windows: &[CandidateWindow],
    ) -> (target: Option<WindowId>)
        ensures
            target == if self.looks_for_drop(facts, look) {
                self.target_of(window, look, windows@)
            } else {
                None
            },
    {
        if self.drop_spaces(facts).is_none() || !look.in_active_workspace {
            return None;
        }
        if !look.pointer {
            return look.overlapped;
        }
        let candidates = collect_drag_swap_candidates(window, look.dragged_tiled, windows);
        find_target_under_pointer(&candidates, window, self.get_pending_drag_swap())
    }

    /// The drag of `window` is over `target`, or over none. The frame at which
    /// its drag was first looked at is kept.
    pub fn set_target(&mut self, window: WindowId, frame: F, target: Option<WindowId>)
        ensures
            *final(self) == (DragManager {
                drag_swap: swap_over(old(self).drag_swap, window, frame, target),
                ..*old(self)
            }),
    {
        let same = match self.drag_swap.dragged {
            Some(dragged) => dragged == window,
            None => false,
        };
        if !same {
            self.drag_swap.dragged = Some(window);
            self.drag_swap.origin_frame = Some(frame);
        }
        self.drag_swap.target = target;
    }

    /// The overlay with nothing to show, and what it is told.
    pub open spec fn hidden(self) -> (DragManager<F, P>, OverlayStep) {
        (
            DragManager {
                drop_preview_cache: None,
                zone_candidate: None,
                drop_overlay_shown: false,
                ..self
            },
            if self.drop_overlay_shown {
                OverlayStep::Hide
            } else {
                OverlayStep::Nothing
            },
        )
    }

    /// The overlay with the drop of `dragged` on `target` to show, and what it
    /// is told.
    pub open spec fn aimed(
        self,
        dragged: WindowId,
        target: WindowId,
        aim: DropAim<F>,
        now: Nanos,
    ) -> (DragManager<F, P>, OverlayStep) {
        match aim.raw {
            Some(raw) if aim.enabled => {
                let (action, candidate) = sticky_action(
                    self.drop_preview_cache,
                    self.zone_candidate,
                    dragged,
                    target,
                    raw,
                    now,
                );
                let dwelt = DragManager { zone_candidate: candidate, ..self };
                if self.source_of(aim.enabled, dragged, target, aim.raw, now)
                    == PreviewSource::Cached {
                    (
                        DragManager { drop_overlay_shown: true, ..dwelt },
                        if self.drop_overlay_shown {
                            OverlayStep::Nothing
                        } else {
                            OverlayStep::Aim
                        },
                    )
                } else {
                    match aim.landing {
                        Some((screen, region)) => (
                            DragManager {
                                drop_preview_cache: Some(
                                    DropPreview { dragged, target, action, screen, region },
                                ),
                                drop_overlay_shown: true,
                                ..dwelt
                            },
                            OverlayStep::Aim,
                        ),
                        None => dwelt.hidden(),
                    }
                }
            },
            _ => self.hidden(),
        }
    }

    /// Shows the drop of `dragged` on `target`, or takes the overlay down where
    /// there is nothing to promise.
    pub fn aim_overlay(&mut self, dragged: WindowId, target: WindowId, aim: DropAim<F>, now: Nanos) -> (
    step: OverlayStep)
        ensures
            (*final(self), step) == old(self).aimed(dragged, target, aim, now),
    {
        match self.drop_preview_for(aim.enabled, dragged, target, aim.raw, now) {
            PreviewSource::Nothing => self.hide_drop_region(),
            PreviewSource::Cached => {
                let shown = self.drop_overlay_shown;
                self.drop_overlay_shown = true;
                if shown {
                    OverlayStep::Nothing
                } else {
                    OverlayStep::Aim
                }
            },
            PreviewSource::Region(action) => match aim.landing {
                Some((screen, region)) => self.preview_drop_region(
                    DropPreview { dragged, target, action, screen, region },
                ),
                None => self.hide_drop_region(),
            },
        }
    }

    /// The drag of `window` once it was looked for the window that a drop is on.
    pub open spec fn evaluated(
        self,
        window: WindowId,
        frame: F,
        facts: DropFacts,
        look: DropLook,
        windows: Seq<CandidateWindow>,
        aim: DropAim<F>,
        now: Nanos,
    ) -> (DragManager<F, P>, OverlayStep) {
        let target = self.target_of(window, look, windows);
        let over = DragManager {
            drag_swap: swap_over(self.drag_swap, window, frame, target),
            ..self
        };
        if !self.looks_for_drop(facts, look) {
            (self, OverlayStep::Nothing)
        } else {
            match target {
                Some(target) => {
                    let (shown, step) = if look.pointer {
                        over.aimed(window, target, aim, now)
                    } else {
                        over.hidden()
                    };
                    (
                        DragManager {
                            drag_state: DragState::PendingSwap {
                                session: session_of(self.drag_state)->0,
                                target,
                            },
                            skip_layout_for_window: Some(window),
                            ..shown
                        },
                        step,
                    )
                },
                None => {
                    let (shown, step) = over.hidden();
                    (
                        DragManager {
                            drag_state: match self.drag_state {
                                DragState::PendingSwap {
                                    session,
                                    ..
                                } if session.window == window => DragState::Active { session },
                                _ => self.drag_state,
                            },
                            skip_layout_for_window: if self.skip_layout_for_window == Some(
                                window,
                            ) {
                                None
                            } else {
                                self.skip_layout_for_window
                            },
                            ..shown
                        },
                        step,
                    )
                },
            }
        }
    }

    /// Decides what a drop of `window` would do right now, and shows it. Without
    /// a drag nothing changes. Over a window the drag becomes a pending swap, and
    /// the dragged window is not laid out; over none a pending swap of it ends,
    /// and the overlay comes down.
    pub fn evaluate_drop_target(
        &mut self,
        window: WindowId,
        frame: F,
        facts: DropFacts,
        look: DropLook,
        windows: &[CandidateWindow],
        aim: DropAim<F>,
        now: Nanos,
    ) -> (step: OverlayStep)
        ensures
            (*final(self), step) == old(self).evaluated(
                window,
                frame,
                facts,
                look,
                windows@,
                aim,
                now,
            ),
            session_of(old(self).drag_state) is None ==> *final(self) == *old(self),
    {
        if self.drop_spaces(facts).is_none() || !look.in_active_workspace {
            return OverlayStep::Nothing;
        }
        let target = self.find_drop_target(window, facts, look, windows);
        self.set_target(window, frame, target);
        match target {
            Some(target) => {
                let step = if look.pointer {
                    self.aim_overlay(window, target, aim, now)
                } else {
                    self.hide_drop_region()
                };
                match self.take_active_drag_session() {
                    Some(session) => {
                        self.drag_state = DragState::PendingSwap { session, target };
                        self.skip_layout_for_window = Some(window);
                    },
                    None => {},
                }
                step
            },
            None => {
                let step = self.hide_drop_region();
                let pending = match self.get_pending_drag_swap() {
                    Some((dragged, _)) => dragged == window,
                    None => false,
                };
                if pending {
                    match self.take_active_drag_session() {
                        Some(session) => {
                            self.drag_state = DragState::Active { session };
                        },
                        None => {},
                    }
                }
                let skipped = match self.skip_layout_for_window {
                    Some(skipped) => skipped == window,
                    None => false,
                };
                if skipped {
                    self.skip_layout_for_window = None;
                }
                step
            },
        }
    }
}

/// While a drop is looked for, the overlay is shown only with a window that the
/// drop would be on.
pub proof fn an_overlay_has_a_target<F: Copy, P>(
    manager: DragManager<F, P>,
    window: WindowId,
    frame: F,
    facts: DropFacts,
    look: DropLook,
    windows: Seq<CandidateWindow>,
    aim: DropAim<F>,
    now: Nanos,
)
    requires
        manager.looks_for_drop(facts, look),
    ensures
        ({
            let (after, step) = manager.evaluated(window, frame, facts, look, windows, aim, now);
            &&& after.drop_overlay_shown ==> pending_swap_of(after.drag_state) is Some
            &&& step == OverlayStep::Aim ==> after.drop_overlay_shown
            &&& session_of(after.drag_state) == session_of(manager.drag_state)
        }),
{
}

/// What is known of a drop, to say what it does.
#[derive(Clone, Copy, Debug, PartialEq, Eq, Structural)]
pub struct DropPair {
    pub dragged_floating: bool,
    pub target_floating: bool,
    /// The desktop of the target, and whether its tree holds it.
    pub target_space: Option<SpaceId>,
    pub target_tiled: bool,
    /// The same of the dragged window.
    pub dragged_space: Option<SpaceId>,
    pub dragged_tiled: bool,
    /// What the pointer's place over the target says, if the target is known.
    pub zone: Option<DropAction>,
    /// The side of the target the pointer is nearest to.
    pub edge: Direction,
    /// A window can be put beside another in the target's layout.
    pub can_insert: bool,
}

/// What a drop does: the two windows are in layouts; within one desktop an
/// insert that the layout cannot express is a swap; from another desktop every
/// drop is an insert.
pub open spec fn drop_does(pair: DropPair) -> Option<DropAction> {
    if pair.dragged_floating || pair.target_floating || pair.target_space is None
        || !pair.target_tiled || pair.dragged_space is None || !pair.dragged_tiled
        || pair.zone is None {
        None
    } else if pair.dragged_space == pair.target_space {
        if pair.zone->0 is Insert && !pair.can_insert {
            Some(DropAction::Swap)
        } else {
            pair.zone
        }
    } else if !pair.can_insert {
        None
    } else {
        match pair.zone->0 {
            DropAction::Insert(direction) => Some(DropAction::Insert(direction)),
            DropAction::Swap => Some(DropAction::Insert(pair.edge)),
        }
    }
}

/// What a drop does, or nothing when it would not rearrange anything.
pub fn drop_action_for(pair: DropPair) -> (action: Option<DropAction>)
    ensures
        action == drop_does(pair),
{
    if pair.dragged_floating || pair.target_floating || !pair.target_tiled || !pair.dragged_tiled {
        return None;
    }
    let (here, there, zone) = match (pair.target_space, pair.dragged_space, pair.zone) {
        (Some(here), Some(there), Some(zone)) => (here, there, zone),
        _ => {
            return None;
        },
    };
    if here == there {
        return match zone {
            DropAction::Insert(_) => if pair.can_insert {
                Some(zone)
            } else {
                Some(DropAction::Swap)
            },
            DropAction::Swap => Some(zone),
        };
    }
    if !pair.can_insert {
        return None;
    }
    match zone {
        DropAction::Insert(direction) => Some(DropAction::Insert(direction)),
        DropAction::Swap => Some(DropAction::Insert(pair.edge)),
    }
}

/// A drop from another display never swaps: what it does, if anything, is an
/// insert.
pub proof fn a_drop_across_displays_inserts(pair: DropPair)
    requires
        pair.dragged_space != pair.target_space,
    ensures
        drop_does(pair) matches Some(action) ==> action is Insert,
{
}

/// What is known when the button comes up.
#[derive(Clone, Copy, Debug, PartialEq, Eq, Structural)]
pub struct MouseUpFacts {
    /// The desktop of the window under the drag.
    pub target_space: Option<SpaceId>,
    /// The dragged window's number with the window server.
    pub dragged_sys_id: Option<WindowServerId>,
    /// The desktop of the dragged window.
    pub dragged_space: Option<SpaceId>,
    /// The desktop of the frame it was picked up from.
    pub origin_frame_space: Option<SpaceId>,
    /// The first desktop that a screen shows.
    pub first_space: Option<SpaceId>,
    /// The desktop under the pointer.
    pub pointer_space: Option<SpaceId>,
    /// The desktop of the frame the drag last reported.
    pub last_frame_space: Option<SpaceId>,
    /// The desktop of the window of the drag.
    pub session_space: Option<SpaceId>,
    /// What the drop does by where the pointer is.
    pub pointed_action: Option<DropAction>,
}

/// What the drop comes to.
#[derive(Clone, Copy, Debug, PartialEq, Eq)]
pub struct MouseUpPlan {
    pub pending_swap: Option<(WindowId, WindowId)>,
    pub drop_action: Option<DropAction>,
    /// The desktop the swap is made on.
    pub swap_space: Option<SpaceId>,
    /// The desktop the dragged window belongs to now.
    pub final_space: Option<SpaceId>,
    /// A held window without a drag, which goes where the window server has it.
    pub settle: Option<WindowId>,
    pub hide_overlay: bool,
}

/// The first of the two that is there.
pub open spec fn first_of<T>(a: Option<T>, b: Option<T>) -> Option<T> {
    match a {
        Some(a) => Some(a),
        None => b,
    }
}

/// The desktop of the window under a drag that is over one.
pub open spec fn target_space_of<F>(state: DragState<F>, facts: MouseUpFacts) -> Option<SpaceId> {
    if pending_swap_of(state) is Some {
        facts.target_space
    } else {
        None
    }
}

/// What the drop comes to. A drop on a window is a statement about that
/// window's desktop; otherwise the dragged window goes where the pointer lets
/// go of it, else where it had settled, else where it is. What was shown last is
/// what is done.
pub open spec fn drop_comes_to<F>(
    state: DragState<F>,
    held: Option<WindowId>,
    cached: Option<DropPreview<F>>,
    overlay: bool,
    facts: MouseUpFacts,
) -> MouseUpPlan {
    let pending = pending_swap_of(state);
    let target_space = target_space_of(state, facts);
    MouseUpPlan {
        pending_swap: pending,
        drop_action: match pending {
            Some((dragged, target)) => if previews(cached, dragged, target) {
                Some(cached->0.action)
            } else {
                facts.pointed_action
            },
            None => None,
        },
        swap_space: first_of(
            target_space,
            first_of(
                if pending is Some {
                    facts.dragged_space
                } else {
                    None
                },
                first_of(facts.origin_frame_space, facts.first_space),
            ),
        ),
        final_space: match session_of(state) {
            Some(session) => first_of(
                target_space,
                first_of(
                    facts.pointer_space,
                    first_of(
                        session.settled_space,
                        first_of(facts.last_frame_space, facts.session_space),
                    ),
                ),
            ),
            None => None,
        },
        settle: match (held, session_of(state)) {
            (Some(window), Some(session)) => if session.window != window {
                Some(window)
            } else {
                None
            },
            (Some(window), None) => Some(window),
            (None, _) => None,
        },
        hide_overlay: overlay,
    }
}

/// The pin that a drop sets: the dropped window belongs to the target's desktop
/// until the write has landed.
pub open spec fn pin_of<F>(state: DragState<F>, facts: MouseUpFacts, now: Nanos) -> Option<DropPin> {
    match (pending_swap_of(state), facts.target_space, facts.dragged_sys_id) {
        (Some(_), Some(space), Some(window)) => Some(
            DropPin {
                window,
                space,
                until: later(now, DropPin::HOLD),
                next_probe: later(now, DropPin::PROBE_EVERY),
            },
        ),
        _ => None,
    }
}

fn either<T: Copy>(a: Option<T>, b: Option<T>) -> (first: Option<T>)
    ensures
        first == first_of(a, b),
{
    match a {
        Some(a) => Some(a),
        None => b,
    }
}

impl<F: Copy, P> DragManager<F, P> {
    /// The button came up: what the drop comes to. The held window is let go,
    /// the overlay comes down, and the dropped window is pinned. The drag itself
    /// is for the caller to end.
    pub fn mouse_up(&mut self, facts: MouseUpFacts, now: Nanos) -> (plan: MouseUpPlan)
        ensures
            plan == drop_comes_to(
                old(self).drag_state,
                old(self).held_window,
                old(self).drop_preview_cache,
                old(self).drop_overlay_shown,
                facts,
            ),
            *final(self) == (DragManager {
                held_window: None,
                drop_preview_cache: None,
                zone_candidate: None,
                drop_overlay_shown: false,
                drop_pin: match pin_of(old(self).drag_state, facts, now) {
                    Some(pin) => Some(pin),
                    None => old(self).drop_pin,
                },
                ..*old(self)
            }),
    {
        let pending = self.get_pending_drag_swap();
        let session = self.current_drag_session();
        let target_space = if pending.is_some() {
            facts.target_space
        } else {
            None
        };
        let held = self.held_window;
        self.held_window = None;
        match (pending, facts.target_space, facts.dragged_sys_id) {
            (Some(_), Some(space), Some(window)) => {
                self.drop_pin = Some(
                    DropPin {
                        window,
                        space,
                        until: later(now, DropPin::HOLD),
                        next_probe: later(now, DropPin::PROBE_EVERY),
                    },
                );
            },
            _ => {},
        }
        let dragged_space = if pending.is_some() {
            facts.dragged_space
        } else {
            None
        };
        let swap_space = either(
            target_space,
            either(dragged_space, either(facts.origin_frame_space, facts.first_space)),
        );
        let final_space = match &session {
            Some(session) => either(
                target_space,
                either(
                    facts.pointer_space,
                    either(
                        session.settled_space,
                        either(facts.last_frame_space, facts.session_space),
                    ),
                ),
            ),
            None => None,
        };
        let drop_action = match pending {
            Some((dragged, target)) => match &self.drop_preview_cache {
                Some(cached) => if cached.dragged == dragged && cached.target == target {
                    Some(cached.action)
                } else {
                    facts.pointed_action
                },
                None => facts.pointed_action,
            },
            None => None,
        };
        let settle = match (held, &session) {
            (Some(window), Some(session)) => if session.window != window {
                Some(window)
            } else {
                None
            },
            (Some(window), None) => Some(window),
            (None, _) => None,
        };
        let hide_overlay = match self.hide_drop_region() {
            OverlayStep::Hide => true,
            _ => false,
        };
        MouseUpPlan {
            pending_swap: pending,
            drop_action,
            swap_space,
            final_space,
            settle,
            hide_overlay,
        }
    }

    /// A float that was moved by hand was let go straddling two displays: its
    /// placement is watched.
    pub fn watch_seam(&mut self, window: WindowId, dropped_at: F, pointer: Option<P>, now: Nanos)
        requires
            old(self).wf(),
        ensures
            final(self).wf(),
            *final(self) == (DragManager {
                seam_finish: Some(
                    SeamFinish { window, dropped_at, pointer, fitted: None, at: now, attempts: 0 },
                ),
                ..*old(self)
            }),
    {
        self.seam_finish = Some(
            SeamFinish { window, dropped_at, pointer, fitted: None, at: now, attempts: 0 },
        );
    }
}

/// The drop does what the overlay showed.
pub proof fn a_drop_does_what_was_shown<F>(
    state: DragState<F>,
    held: Option<WindowId>,
    cached: DropPreview<F>,
    overlay: bool,
    facts: MouseUpFacts,
)
    requires
        pending_swap_of(state) == Some((cached.dragged, cached.target)),
    ensures
        drop_comes_to(state, held, Some(cached), overlay, facts).drop_action == Some(cached.action),
{
}

/// A drop on a window lands on that window's desktop, wherever the dragged
/// window's frame, the pointer or the window server have it.
pub proof fn a_drop_lands_on_its_targets_desktop<F>(
    state: DragState<F>,
    held: Option<WindowId>,
    cached: Option<DropPreview<F>>,
    overlay: bool,
    facts: MouseUpFacts,
)
    requires
        pending_swap_of(state) is Some,
        facts.target_space is Some,
    ensures
        drop_comes_to(state, held, cached, overlay, facts).swap_space == facts.target_space,
        drop_comes_to(state, held, cached, overlay, facts).final_space == facts.target_space,
{
}

/// What becomes of the pin after an event, before the window server is asked.
pub open spec fn pin_after(pin: DropPin, stored: Option<SpaceId>, now: Nanos) -> Option<DropPin> {
    if now >= pin.until || stored == Some(pin.space) {
        None
    } else if now < pin.next_probe {
        Some(pin)
    } else {
        Some(DropPin { next_probe: later(now, DropPin::PROBE_EVERY), ..pin })
    }
}

impl<F, P> DragManager<F, P> {
    /// Lets the pin go when its hold has run out, or when `stored`, where the
    /// last report has the window, agrees with it. Otherwise the window to ask
    /// the window server about is returned, now and then.
    pub fn release_drop_pin_if_landed(&mut self, stored: Option<SpaceId>, now: Nanos) -> (ask: Option<
        WindowServerId,
    >)
        ensures
            match old(self).drop_pin {
                Some(pin) => {
                    &&& *final(self) == (DragManager {
                        drop_pin: pin_after(pin, stored, now),
                        ..*old(self)
                    })
                    &&& ask == if now < pin.until && stored != Some(pin.space) && now
                        >= pin.next_probe {
                        Some(pin.window)
                    } else {
                        None
                    }
                },
                None => ask is None && *final(self) == *old(self),
            },
    {
        let pin = match self.drop_pin {
            Some(pin) => pin,
            None => {
                return None;
            },
        };
        let agrees = match stored {
            Some(space) => space == pin.space,
            None => false,
        };
        if now >= pin.until || agrees {
            self.drop_pin = None;
            return None;
        }
        if now < pin.next_probe {
            return None;
        }
        self.drop_pin = Some(
            DropPin {
                window: pin.window,
                space: pin.space,
                until: pin.until,
                next_probe: later(now, DropPin::PROBE_EVERY),
            },
        );
        Some(pin.window)
    }

    /// The window server has answered where the pinned window is: lets the pin
    /// go if it agrees.
    pub fn drop_pin_probed(&mut self, live: Option<SpaceId>)
        ensures
            *final(self) == (DragManager {
                drop_pin: match old(self).drop_pin {
                    Some(pin) => if live == Some(pin.space) {
                        None
                    } else {
                        Some(pin)
                    },
                    None => None,
                },
                ..*old(self)
            }),
    {
        let agrees = match (self.drop_pin, live) {
            (Some(pin), Some(space)) => space == pin.space,
            _ => false,
        };
        if agrees {
            self.drop_pin = None;
        }
    }
}

/// A pin never outlives its hold.
pub proof fn a_pin_ends_with_its_hold(pin: DropPin, stored: Option<SpaceId>, now: Nanos)
    requires
        now >= pin.until,
    ensures
        pin_after(pin, stored, now) is None,
{
}

/// What is known of a watched drop.
#[derive(Clone, Copy, Debug, PartialEq, Eq, Structural)]
pub struct SeamFacts {
    pub floating: bool,
    pub button_down: bool,
    pub known: bool,
    /// It is further from where it was dropped than settling explains.
    pub moved: bool,
    /// It rests on the display it was fitted to, and no other.
    pub landed: bool,
}

/// The frame to write for a watched drop, if one is: the correction already
/// written, while it has not landed and there are attempts left; else `refit`,
/// if the drop was moved. Without one, whether it is watched on.
pub open spec fn seam_step<F, P>(
    finish: SeamFinish<F, P>,
    dragging: bool,
    facts: SeamFacts,
    refit: Option<F>,
    now: Nanos,
) -> (Option<F>, bool) {
    if !facts.floating || dragging || facts.button_down {
        (None, false)
    } else if elapsed(now, finish.at) < SEAM_SETTLE {
        (None, true)
    } else if !facts.known {
        (None, false)
    } else {
        match finish.fitted {
            None => if facts.moved && refit is Some {
                (refit, true)
            } else {
                (None, false)
            },
            Some(fitted) => if facts.landed || finish.attempts >= SEAM_ATTEMPTS {
                (None, false)
            } else {
                (Some(fitted), true)
            },
        }
    }
}

impl<F: Copy, P: Copy> DragManager<F, P> {
    /// Looks at a drop that was left straddling two displays. One that stayed
    /// where the user put it is left alone; one that was relocated is put on one
    /// display, as `refit` has it, and again if that is overwritten. It is the
    /// user's as soon as they take hold of anything, and the layout's as soon as
    /// it does not float. The frame to write is returned.
    pub fn assert_seam_finish(&mut self, facts: SeamFacts, refit: Option<F>, now: Nanos) -> (write:
        Option<(WindowId, F)>)
        requires
            old(self).wf(),
        ensures
            final(self).wf(),
            match old(self).seam_finish {
                Some(finish) => {
                    let dragging = in_hand(old(self).drag_state, old(self).held_window) is Some;
                    let (frame, watched) = seam_step(finish, dragging, facts, refit, now);
                    &&& write == match frame {
                        Some(frame) => Some((finish.window, frame)),
                        None => None,
                    }
                    &&& *final(self) == (DragManager {
                        seam_finish: match frame {
                            Some(frame) => Some(
                                SeamFinish {
                                    fitted: Some(frame),
                                    at: now,
                                    attempts: (finish.attempts + 1) as u8,
                                    ..finish
                                },
                            ),
                            None => if watched {
                                Some(finish)
                            } else {
                                None
                            },
                        },
                        ..*old(self)
                    })
                },
                None => write is None && *final(self) == *old(self),
            },
    {
        let finish = match self.seam_finish {
            Some(finish) => finish,
            None => {
                return None;
            },
        };
        if !facts.floating || self.window_in_drag().is_some() || facts.button_down {
            self.seam_finish = None;
            return None;
        }
        if elapsed(now, finish.at) < SEAM_SETTLE {
            return None;
        }
        if !facts.known {
            self.seam_finish = None;
            return None;
        }
        let target = match finish.fitted {
            None => if facts.moved {
                refit
            } else {
                None
            },
            Some(fitted) => if facts.landed || finish.attempts >= SEAM_ATTEMPTS {
                None
            } else {
                Some(fitted)
            },
        };
        match target {
            Some(frame) => {
                self.seam_finish = Some(
                    SeamFinish {
                        window: finish.window,
                        dropped_at: finish.dropped_at,
                        pointer: finish.pointer,
                        fitted: Some(frame),
                        at: now,
                        attempts: finish.attempts + 1,
                    },
                );
                Some((finish.window, frame))
            },
            None => {
                self.seam_finish = None;
                None
            },
        }
    }
}

/// A watched drop is never written while the user holds a window or a button.
pub proof fn a_drop_is_not_written_under_the_hand<F, P>(
    finish: SeamFinish<F, P>,
    dragging: bool,
    facts: SeamFacts,
    refit: Option<F>,
    now: Nanos,
)
    requires
        dragging || facts.button_down,
    ensures
        seam_step(finish, dragging, facts, refit, now).0 is None,
{
}

/// The window whose notifications are silenced: a float in the user's hand.
pub open spec fn to_silence<F>(
    state: DragState<F>,
    held: Option<WindowId>,
    floating: bool,
) -> Option<WindowId> {
    if floating {
        in_hand(state, held)
    } else {
        None
    }
}

impl<F, P> DragManager<F, P> {
    /// Silences the notifications of a float in the user's hand, `floating`
    /// saying whether it is one. The windows to be heard again and to be
    /// silenced are returned.
    pub fn sync_drag_notification_silence(&mut self, floating: bool) -> (change: (
        Option<WindowId>,
        Option<WindowId>,
    ))
        ensures
            ({
                let target = to_silence(old(self).drag_state, old(self).held_window, floating);
                &&& *final(self) == (DragManager { notifications_silenced: target, ..*old(self) })
                &&& change == if target == old(self).notifications_silenced {
                    (None, None)
                } else {
                    (old(self).notifications_silenced, target)
                }
            }),
    {
        let target = if floating {
            self.window_in_drag()
        } else {
            None
        };
        let current = self.notifications_silenced;
        let same = match (target, current) {
            (Some(a), Some(b)) => a == b,
            (None, None) => true,
            _ => false,
        };
        if same {
            return (None, None);
        }
        self.notifications_silenced = target;
        (current, target)
    }

    /// Whether the desktop of a dragged float is to be matched to the display
    /// under it: not more than ten times a second.
    pub fn space_sync_due(&mut self, floating: bool, now: Nanos) -> (due: bool)
        ensures
            due == (in_hand(old(self).drag_state, old(self).held_window) is Some && floating && !(
            old(self).space_sync_at matches Some(at) && elapsed(now, at) < SPACE_SYNC_EVERY)),
            *final(self) == (DragManager {
                space_sync_at: if due {
                    Some(now)
                } else {
                    old(self).space_sync_at
                },
                ..*old(self)
            }),
    {
        if self.window_in_drag().is_none() || !floating {
            return false;
        }
        match self.space_sync_at {
            Some(at) => {
                if elapsed(now, at) < SPACE_SYNC_EVERY {
                    return false;
                }
            },
            None => {},
        }
        self.space_sync_at = Some(now);
        true
    }
}

/// A window that could be dragged by the strip at its top.
#[derive(Clone, Copy, Debug, PartialEq, Eq, Structural)]
pub struct StripWindow {
    pub window: WindowId,
    pub number: Option<WindowServerId>,
    pub floating: bool,
}

/// A float that the window server knows.
pub open spec fn with_strip() -> spec_fn(StripWindow) -> Option<(WindowServerId, WindowId)> {
    |window: StripWindow|
        match window.number {
            Some(number) => if window.floating {
                Some((number, window.window))
            } else {
                None
            },
            None => None,
        }
}

/// The windows whose drag by their strip is taken over: the floats that the
/// window server knows, or none.
pub fn float_drag_strips(takes_over: bool, windows: &[StripWindow]) -> (strips: Vec<
    (WindowServerId, WindowId),
>)
    ensures
        strips@ == if takes_over {
            windows@.filter_map(with_strip())
        } else {
            seq![]
        },
{
    let mut strips: Vec<(WindowServerId, WindowId)> = Vec::new();
    if !takes_over {
        return strips;
    }
    let ghost f = with_strip();
    let mut i: usize = 0;
    while i < windows.len()
        invariant
            f == with_strip(),
            i <= windows@.len(),
            strips@ == windows@.take(i as int).filter_map(f),
        decreases windows@.len() - i,
    {
        proof {
            windows@.lemma_filter_map_take_succ(f, i as int);
        }
        match windows[i].number {
            Some(number) => {
                if windows[i].floating {
                    strips.push((number, windows[i].window));
                }
            },
            None => {},
        }
        i = i + 1;
    }
    assert(windows@.take(i as int) =~= windows@);
    strips
}

/// The desktop to move a dragged float to: that of the display holding most of
/// it, if it is active and the window server has the float on another.
pub fn dragged_float_space(
    majority: Option<SpaceId>,
    majority_active: bool,
    live: Option<SpaceId>,
) -> (space: Option<SpaceId>)
    ensures
        space == if majority_active && majority is Some && live != majority {
            majority
        } else {
            None
        },
{
    if !majority_active {
        return None;
    }
    match (majority, live) {
        (Some(space), Some(live)) => if live == space {
            None
        } else {
            Some(space)
        },
        (majority, None) => majority,
        (None, _) => None,
    }
}

/// Where a held window goes whose drag was never reported: where the window
/// server has it, if that is another desktop than it is assigned to, and
/// active.
pub fn settle_held_window(
    resolved: Option<SpaceId>,
    resolved_active: bool,
    assigned: Option<SpaceId>,
) -> (space: Option<SpaceId>)
    ensures
        space == if resolved is Some && resolved_active && assigned != resolved {
            resolved
        } else {
            None
        },
{
    let space = match resolved {
        Some(space) => space,
        None => {
            return None;
        },
    };
    let there = match assigned {
        Some(assigned) => assigned == space,
        None => false,
    };
    if there || !resolved_active {
        None
    } else {
        Some(space)
    }
}

/// What a drag with a modifier held does.
#[derive(Clone, Copy, Debug, PartialEq, Eq, Structural)]
pub enum MouseAction {
    Move,
    Resize,
    Ignore,
}

/// Which edges of a window follow the pointer.
#[derive(Clone, Copy, Debug, PartialEq, Eq, Structural)]
pub struct ResizeEdges {
    pub left: bool,
    pub top: bool,
}

/// A drag with a modifier held.
#[derive(Clone, Copy, Debug)]
pub struct ModifierDrag<F> {
    pub window: WindowId,
    pub action: MouseAction,
    /// The window's frame when the drag began, which every movement applies to.
    pub origin_frame: F,
    pub edges: ResizeEdges,
}

/// What a movement during such a drag does.
#[derive(Clone, Copy, Debug, PartialEq, Eq, Structural)]
pub enum ModifierStep {
    Nothing,
    /// The frame is written: the window floats.
    Write,
    /// The layout is told of a resize: the window is tiled.
    ReportResize,
}

/// What a movement does: a float is moved or resized; a tiled window is resized
/// through its layout, and not moved.
pub fn modifier_step(action: MouseAction, known: bool, floating: bool) -> (step: ModifierStep)
    ensures
        step == if !known || action == MouseAction::Ignore {
            ModifierStep::Nothing
        } else if floating {
            ModifierStep::Write
        } else if action == MouseAction::Resize {
            ModifierStep::ReportResize
        } else {
            ModifierStep::Nothing
        },
{
    if !known || action == MouseAction::Ignore {
        ModifierStep::Nothing
    } else if floating {
        ModifierStep::Write
    } else if action == MouseAction::Resize {
        ModifierStep::ReportResize
    } else {
        ModifierStep::Nothing
    }
}

/// The session is that of the drag, over a window or not; without a drag there is
/// none, and a window is in the hand if it is dragged or, without a drag, held.
pub proof fn what_is_in_the_hand<F>(
    session: DragSession<F>,
    target: WindowId,
    held: Option<WindowId>,
)
    ensures
        in_hand(DragState::Active { session }, held) == Some(session.window),
        in_hand(DragState::PendingSwap { session, target }, held) == Some(session.window),
        in_hand(DragState::<F>::Inactive, held) == held,
        pending_swap_of(DragState::PendingSwap { session, target }) == Some(
            (session.window, target),
        ),
        pending_swap_of(DragState::Active { session }) is None,
        pending_swap_of(DragState::<F>::Inactive) is None,
{
}

/// What a drop is shown to do follows the pointer at once where nothing was shown of
/// it or it says the same; else once it has stayed long enough in the new zone, and not
/// before; another zone begins the time anew.
pub proof fn when_a_preview_follows_the_pointer<F>(
    shown: DropPreview<F>,
    candidate: Option<ZoneCandidate>,
    raw: DropAction,
    now: Nanos,
)
    ensures
        sticky_action::<F>(None, candidate, shown.dragged, shown.target, raw, now) == (
            raw,
            None::<ZoneCandidate>,
        ),
        shown.action == raw ==> sticky_action(
            Some(shown),
            candidate,
            shown.dragged,
            shown.target,
            raw,
            now,
        ) == (raw, None::<ZoneCandidate>),
        ({
            let same = candidate matches Some(entered) && entered.dragged == shown.dragged
                && entered.target == shown.target && entered.action == raw;
            let shows = sticky_action(
                Some(shown),
                candidate,
                shown.dragged,
                shown.target,
                raw,
                now,
            );
            &&& shown.action != raw && same && now - candidate->0.since >= 150
                * crate::clock::MILLISECOND ==> shows == (raw, None::<ZoneCandidate>)
            &&& shown.action != raw && same && now - candidate->0.since < 150
                * crate::clock::MILLISECOND ==> shows == (shown.action, candidate)
            &&& shown.action != raw && !same ==> shows.0 == shown.action && (
            shows.1 matches Some(entered) && entered.since == now && entered.action == raw
                && entered.dragged == shown.dragged && entered.target == shown.target)
        }),
{
}

/// A preview of another drop does not hold the pointer back.
pub proof fn a_new_target_is_shown_at_once<F>(
    shown: DropPreview<F>,
    candidate: Option<ZoneCandidate>,
    dragged: WindowId,
    target: WindowId,
    raw: DropAction,
    now: Nanos,
)
    requires
        shown.dragged != dragged || shown.target != target,
    ensures
        sticky_action(Some(shown), candidate, dragged, target, raw, now) == (
            raw,
            None::<ZoneCandidate>,
        ),
{
}

/// A preview is had only where the drop does something and previews are on: the one
/// that is shown where it shows the same, else one that is worked out.
pub proof fn how_a_preview_is_had<F: Copy, P>(
    manager: DragManager<F, P>,
    enabled: bool,
    dragged: WindowId,
    target: WindowId,
    raw: Option<DropAction>,
    now: Nanos,
)
    ensures
        !enabled || raw is None ==> manager.source_of(enabled, dragged, target, raw, now)
            == PreviewSource::Nothing,
        enabled && raw is Some && manager.drop_preview_cache is None ==> manager.source_of(
            enabled,
            dragged,
            target,
            raw,
            now,
        ) == PreviewSource::Region(raw->0),
        enabled && raw is Some && (manager.drop_preview_cache matches Some(shown) && (shown.dragged
            != dragged || shown.target != target)) ==> manager.source_of(
            enabled,
            dragged,
            target,
            raw,
            now,
        ) == PreviewSource::Region(raw->0),
        enabled && raw is Some && (manager.drop_preview_cache matches Some(shown) && shown.dragged
            == dragged && shown.target == target && shown.action == raw->0) ==> manager.source_of(
            enabled,
            dragged,
            target,
            raw,
            now,
        ) == PreviewSource::Cached,
{
}

/// One more window can be dropped on if it is another, admitted, tiled there, and in no
/// stack with the dragged one; and none can by a window that is not tiled itself.
pub proof fn what_can_be_dropped_on(
    dragged: WindowId,
    windows: Seq<CandidateWindow>,
    one: CandidateWindow,
)
    ensures
        drop_candidates(dragged, false, windows).len() == 0,
        drop_candidates(dragged, true, Seq::empty()).len() == 0,
        one.window != dragged && one.admitted && !one.floating && one.tiled_here
            && !one.shares_stack ==> drop_candidates(dragged, true, windows.push(one))
            == drop_candidates(dragged, true, windows).push(one),
        one.window == dragged || !one.admitted || one.floating || !one.tiled_here
            || one.shares_stack ==> drop_candidates(dragged, true, windows.push(one))
            == drop_candidates(dragged, true, windows),
{
    crate::lists::lemma_filter_push(windows, one, can_be_dropped_on(dragged));
}

proof fn lemma_first_under(candidates: Seq<CandidateWindow>, at: int)
    requires
        0 <= at <= candidates.len(),
        at < candidates.len() ==> candidates[at].under_pointer,
        forall|i: int| 0 <= i < at ==> !(#[trigger] candidates[i]).under_pointer,
    ensures
        at < candidates.len() ==> first_under(candidates) == Some(candidates[at].window),
        at == candidates.len() ==> first_under(candidates) is None,
    decreases candidates.len(),
{
    if at > 0 {
        let rest = candidates.skip(1);
        assert(!candidates[0].under_pointer);
        assert forall|i: int| 0 <= i < at - 1 implies !(#[trigger] rest[i]).under_pointer by {
            assert(rest[i] == candidates[i + 1]);
        }
        lemma_first_under(rest, at - 1);
    }
}

proof fn lemma_still_near(candidates: Seq<CandidateWindow>, window: WindowId, at: int)
    requires
        0 <= at <= candidates.len(),
        at < candidates.len() ==> candidates[at].window == window,
        forall|i: int| 0 <= i < at ==> (#[trigger] candidates[i]).window != window,
    ensures
        still_near(candidates, window) == (at < candidates.len() && candidates[at].near_pointer),
    decreases candidates.len(),
{
    if at > 0 {
        let rest = candidates.skip(1);
        assert(candidates[0].window != window);
        assert forall|i: int| 0 <= i < at - 1 implies (#[trigger] rest[i]).window != window by {
            assert(rest[i] == candidates[i + 1]);
        }
        lemma_still_near(rest, window, at - 1);
    }
}

/// A drop is on the first window under the pointer; where there is none, on the one it
/// was on while the pointer stays near that; and else on none.
pub proof fn what_a_drop_is_on(
    candidates: Seq<CandidateWindow>,
    dragged: WindowId,
    pending: Option<(WindowId, WindowId)>,
    at: int,
    near: int,
)
    requires
        0 <= at <= candidates.len(),
        at < candidates.len() ==> candidates[at].under_pointer,
        forall|i: int| 0 <= i < at ==> !(#[trigger] candidates[i]).under_pointer,
        pending matches Some((_, target)) ==> {
            &&& 0 <= near <= candidates.len()
            &&& near < candidates.len() ==> candidates[near].window == target
            &&& forall|i: int| 0 <= i < near ==> (#[trigger] candidates[i]).window != target
        },
    ensures
        at < candidates.len() ==> target_under_pointer(candidates, dragged, pending) == Some(
            candidates[at].window,
        ),
        at == candidates.len() && (pending matches Some((window, _)) && window == dragged && near
            < candidates.len() && candidates[near].near_pointer) ==> target_under_pointer(
            candidates,
            dragged,
            pending,
        ) == Some((pending->0).1),
        at == candidates.len() && (pending is None || (pending->0).0 != dragged || near
            == candidates.len() || !candidates[near].near_pointer) ==> target_under_pointer(
            candidates,
            dragged,
            pending,
        ) is None,
{
    lemma_first_under(candidates, at);
    if pending is Some {
        lemma_still_near(candidates, (pending->0).1, near);
    }
}

/// A drop goes into the desktop under the pointer, else where the drag has settled,
/// else that of the frame; the window's own layout is where it was picked up, else that
/// of the frame it was picked up from, else the one dropped into.
pub proof fn where_a_drop_goes<F>(session: DragSession<F>, facts: DropFacts, space: SpaceId)
    ensures
        ({
            let state = DragState::Active { session };
            &&& facts.pointer_space is Some ==> drop_space(state, facts) == facts.pointer_space
            &&& facts.pointer_space is None && session.settled_space is Some ==> drop_space(
                state,
                facts,
            ) == session.settled_space
            &&& facts.pointer_space is None && session.settled_space is None ==> drop_space(
                state,
                facts,
            ) == facts.frame_space
            &&& session.origin_space is Some ==> membership_space(state, facts, space)
                == session.origin_space->0
            &&& session.origin_space is None && facts.origin_frame_space is Some
                ==> membership_space(state, facts, space) == facts.origin_frame_space->0
            &&& session.origin_space is None && facts.origin_frame_space is None
                ==> membership_space(state, facts, space) == space
        }),
{
}

/// The frame at which a drag was first looked at is kept while it is of one window.
pub proof fn where_a_drag_began<F>(
    swap: DragSwap<F>,
    window: WindowId,
    frame: F,
    target: Option<WindowId>,
)
    ensures
        swap_over(swap, window, frame, target).dragged == Some(window),
        swap_over(swap, window, frame, target).target == target,
        swap.dragged == Some(window) ==> swap_over(swap, window, frame, target).origin_frame
            == swap.origin_frame,
        swap.dragged != Some(window) ==> swap_over(swap, window, frame, target).origin_frame == Some(
            frame,
        ),
{
}

/// With the pointer over a window the drag is over that one and it is not laid out; off
/// every window the drag is over none; and where no drop is looked for nothing changes.
pub proof fn what_becomes_of_a_drag<F: Copy, P>(
    manager: DragManager<F, P>,
    window: WindowId,
    frame: F,
    facts: DropFacts,
    look: DropLook,
    windows: Seq<CandidateWindow>,
    aim: DropAim<F>,
    now: Nanos,
)
    ensures
        ({
            let (after, step) = manager.evaluated(window, frame, facts, look, windows, aim, now);
            let looked = session_of(manager.drag_state) is Some && facts.known && drop_space(
                manager.drag_state,
                facts,
            ) is Some && look.in_active_workspace;
            let target = manager.target_of(window, look, windows);
            &&& !looked ==> after == manager && step == OverlayStep::Nothing
            &&& looked && target is Some ==> pending_swap_of(after.drag_state) == Some(
                (session_of(manager.drag_state)->0.window, target->0),
            ) && after.skip_layout_for_window == Some(window) && after.drag_swap.target == target
            &&& looked && target is None ==> after.drag_swap.target is None
                && !after.drop_overlay_shown && after.drop_preview_cache is None
            &&& looked && target is None && session_of(manager.drag_state)->0.window == window
                ==> pending_swap_of(after.drag_state) is None
            &&& looked && target is None ==> after.skip_layout_for_window != Some(window)
            &&& looked && target is None && manager.drop_overlay_shown ==> step == OverlayStep::Hide
            &&& looked && target is Some && !look.pointer ==> !after.drop_overlay_shown
            &&& looked && !look.pointer ==> target == look.overlapped
            &&& after.held_window == manager.held_window && after.drop_pin == manager.drop_pin
                && after.seam_finish == manager.seam_finish
        }),
{
}

/// The overlay shows a drop that does something where its region is known, and comes
/// down where there is nothing to promise.
pub proof fn what_the_overlay_shows<F: Copy, P>(
    manager: DragManager<F, P>,
    dragged: WindowId,
    target: WindowId,
    aim: DropAim<F>,
    now: Nanos,
)
    ensures
        ({
            let (after, step) = manager.aimed(dragged, target, aim, now);
            let source = manager.source_of(aim.enabled, dragged, target, aim.raw, now);
            &&& !aim.enabled || aim.raw is None ==> !after.drop_overlay_shown
                && after.drop_preview_cache is None
            &&& source == PreviewSource::Cached ==> after.drop_overlay_shown
                && after.drop_preview_cache == manager.drop_preview_cache && step == (
            if manager.drop_overlay_shown {
                OverlayStep::Nothing
            } else {
                OverlayStep::Aim
            })
            &&& source is Region && aim.landing is Some ==> step == OverlayStep::Aim
                && after.drop_overlay_shown && (after.drop_preview_cache matches Some(shown)
                && shown.dragged == dragged && shown.target == target && (shown.screen,
            shown.region) == aim.landing->0 && source == PreviewSource::Region(shown.action))
            &&& source is Region && aim.landing is None ==> !after.drop_overlay_shown
                && after.drop_preview_cache is None
            &&& !after.drop_overlay_shown && manager.drop_overlay_shown ==> step
                == OverlayStep::Hide
            &&& !after.drop_overlay_shown && !manager.drop_overlay_shown ==> step
                == OverlayStep::Nothing
        }),
{
}

/// What a drop does: nothing unless both windows are tiled on a desktop and the pointer
/// says something; on one desktop what the pointer says, a swap standing for an insert
/// that the layout cannot make; from another desktop an insert, at the nearest side
/// where the pointer says a swap.
pub proof fn what_a_drop_does(pair: DropPair, direction: Direction)
    ensures
        ({
            let both = !pair.dragged_floating && !pair.target_floating && pair.target_space is Some
                && pair.target_tiled && pair.dragged_space is Some && pair.dragged_tiled
                && pair.zone is Some;
            let same = pair.dragged_space == pair.target_space;
            &&& !both ==> drop_does(pair) is None
            &&& both && same && pair.zone == Some(DropAction::Swap) ==> drop_does(pair) == Some(
                DropAction::Swap,
            )
            &&& both && same && pair.zone == Some(DropAction::Insert(direction)) && pair.can_insert
                ==> drop_does(pair) == Some(DropAction::Insert(direction))
            &&& both && same && pair.zone == Some(DropAction::Insert(direction)) && !pair.can_insert
                ==> drop_does(pair) == Some(DropAction::Swap)
            &&& both && !same && !pair.can_insert ==> drop_does(pair) is None
            &&& both && !same && pair.can_insert && pair.zone == Some(DropAction::Insert(direction))
                ==> drop_does(pair) == Some(DropAction::Insert(direction))
            &&& both && !same && pair.can_insert && pair.zone == Some(DropAction::Swap)
                ==> drop_does(pair) == Some(DropAction::Insert(pair.edge))
        }),
{
}

/// When the button comes up over no window the dragged one goes where the pointer is,
/// else where it had settled, else to the desktop of its last frame, else to where it
/// is; over a window the drop does what was shown of it, else what the pointer says; a
/// held window that was not dragged goes where it is.
pub proof fn what_a_release_comes_to<F>(
    session: DragSession<F>,
    target: WindowId,
    held: Option<WindowId>,
    cached: Option<DropPreview<F>>,
    overlay: bool,
    facts: MouseUpFacts,
)
    ensures
        ({
            let plan = drop_comes_to(DragState::Active { session }, held, cached, overlay, facts);
            &&& plan.pending_swap is None && plan.drop_action is None
            &&& facts.pointer_space is Some ==> plan.final_space == facts.pointer_space
            &&& facts.pointer_space is None && session.settled_space is Some ==> plan.final_space
                == session.settled_space
            &&& facts.pointer_space is None && session.settled_space is None
                && facts.last_frame_space is Some ==> plan.final_space == facts.last_frame_space
            &&& facts.pointer_space is None && session.settled_space is None
                && facts.last_frame_space is None ==> plan.final_space == facts.session_space
            &&& facts.origin_frame_space is Some ==> plan.swap_space == facts.origin_frame_space
            &&& facts.origin_frame_space is None ==> plan.swap_space == facts.first_space
            &&& held is Some && held != Some(session.window) ==> plan.settle == held
            &&& held is None || held == Some(session.window) ==> plan.settle is None
            &&& plan.hide_overlay == overlay
        }),
        ({
            let plan = drop_comes_to(
                DragState::PendingSwap { session, target },
                held,
                cached,
                overlay,
                facts,
            );
            &&& plan.pending_swap == Some((session.window, target))
            &&& !(cached matches Some(shown) && shown.dragged == session.window && shown.target
                == target) ==> plan.drop_action == facts.pointed_action
            &&& facts.target_space is None && facts.dragged_space is Some ==> plan.swap_space
                == facts.dragged_space
            &&& facts.target_space is None && facts.pointer_space is Some ==> plan.final_space
                == facts.pointer_space
            &&& held is Some && held != Some(session.window) ==> plan.settle == held
        }),
        ({
            let plan = drop_comes_to(DragState::Inactive, held, cached, overlay, facts);
            plan.pending_swap is None && plan.drop_action is None && plan.final_space is None
                && plan.settle == held
        }),
{
}

/// A dropped window is pinned to the desktop of what it was dropped on, for so long,
/// with the window server asked now and then; nothing else is pinned.
pub proof fn what_is_pinned<F>(
    session: DragSession<F>,
    target: WindowId,
    facts: MouseUpFacts,
    now: Nanos,
)
    ensures
        pin_of(DragState::Active { session }, facts, now) is None,
        pin_of(DragState::<F>::Inactive, facts, now) is None,
        ({
            let pin = pin_of(DragState::PendingSwap { session, target }, facts, now);
            &&& facts.target_space is None || facts.dragged_sys_id is None ==> pin is None
            &&& facts.target_space is Some && facts.dragged_sys_id is Some && now
                <= 1_000_000_000_000_000 ==> pin == Some(
                DropPin {
                    window: facts.dragged_sys_id->0,
                    space: facts.target_space->0,
                    until: (now + 1500 * crate::clock::MILLISECOND) as u64,
                    next_probe: (now + 200 * crate::clock::MILLISECOND) as u64,
                },
            )
        }),
{
}

/// A pin is let go once the window is reported where it was dropped; until its time is
/// up it stays, and is asked about no more often than it may be.
pub proof fn what_becomes_of_a_pin(pin: DropPin, stored: Option<SpaceId>, now: Nanos)
    ensures
        stored == Some(pin.space) ==> pin_after(pin, stored, now) is None,
        now < pin.until && stored != Some(pin.space) ==> (pin_after(
            pin,
            stored,
            now,
        ) matches Some(after) && after.window == pin.window && after.space == pin.space
            && after.until == pin.until && (now < pin.next_probe ==> after.next_probe
            == pin.next_probe) && (now >= pin.next_probe && now <= 1_000_000_000_000_000
            ==> after.next_probe == now + 200 * crate::clock::MILLISECOND)),
{
}

/// A watched drop is left to rest for a while; then one that was moved is put on one
/// display, and that again while it has not landed, so many times; a drop that stayed,
/// one that landed, one that is not known and one that does not float are let go.
pub proof fn what_is_done_for_a_watched_drop<F, P>(
    finish: SeamFinish<F, P>,
    facts: SeamFacts,
    refit: Option<F>,
    now: Nanos,
)
    requires
        !facts.button_down,
    ensures
        ({
            let step = seam_step(finish, false, facts, refit, now);
            let rested = now - finish.at >= 250 * crate::clock::MILLISECOND;
            &&& !facts.floating ==> step == (None::<F>, false)
            &&& facts.floating && !rested ==> step == (None::<F>, true)
            &&& facts.floating && rested && !facts.known ==> step == (None::<F>, false)
            &&& facts.floating && rested && facts.known && finish.fitted is None && facts.moved
                && refit is Some ==> step == (refit, true)
            &&& facts.floating && rested && facts.known && finish.fitted is None && (!facts.moved
                || refit is None) ==> step == (None::<F>, false)
            &&& facts.floating && rested && facts.known && finish.fitted is Some && !facts.landed
                && finish.attempts < 2 ==> step == (finish.fitted, true)
            &&& facts.floating && rested && facts.known && finish.fitted is Some && (facts.landed
                || finish.attempts >= 2) ==> step == (None::<F>, false)
        }),
{
}

/// A float in the hand is silenced, and nothing else is.
pub proof fn who_is_silenced<F>(state: DragState<F>, held: Option<WindowId>)
    ensures
        to_silence(state, held, true) == in_hand(state, held),
        to_silence(state, held, false) is None,
{
}

/// One more window can be dragged by its strip if it floats and the window server knows
/// it.
pub proof fn who_has_a_strip(windows: Seq<StripWindow>, one: StripWindow)
    ensures
        Seq::<StripWindow>::empty().filter_map(with_strip()).len() == 0,
        one.floating && one.number is Some ==> windows.push(one).filter_map(with_strip())
            == windows.filter_map(with_strip()).push((one.number->0, one.window)),
        !one.floating || one.number is None ==> windows.push(one).filter_map(with_strip())
            == windows.filter_map(with_strip()),
{
    crate::lists::lemma_filter_map_push(windows, one, with_strip());
}

/// The preview is of a drop if both of its windows are those of the drop.
pub proof fn which_drop_is_previewed<F>(
    cached: DropPreview<F>,
    dragged: WindowId,
    target: WindowId,
)
    ensures
        !previews::<F>(None, dragged, target),
        previews(Some(cached), cached.dragged, cached.target),
        cached.dragged != dragged ==> !previews(Some(cached), dragged, target),
        cached.target != target ==> !previews(Some(cached), dragged, target),
{
}

/// A release over a window falls back, for the desktop of the swap, on that of the dragged
/// window, on that of the frame it came from and on the first; and for where it ends up on
/// the pointer, on where the drag settled, on the last frame and on the session.
pub proof fn what_a_release_falls_back_on<F>(
    session: DragSession<F>,
    target: WindowId,
    held: Option<WindowId>,
    cached: Option<DropPreview<F>>,
    overlay: bool,
    facts: MouseUpFacts,
)
    requires
        facts.target_space is None,
    ensures
        ({
            let plan = drop_comes_to(
                DragState::PendingSwap { session, target },
                held,
                cached,
                overlay,
                facts,
            );
            &&& facts.dragged_space is None && facts.origin_frame_space is Some ==> plan.swap_space
                == facts.origin_frame_space
            &&& facts.dragged_space is None && facts.origin_frame_space is None
                ==> plan.swap_space == facts.first_space
            &&& facts.pointer_space is None && session.settled_space is Some ==> plan.final_space
                == session.settled_space
            &&& facts.pointer_space is None && session.settled_space is None
                && facts.last_frame_space is Some ==> plan.final_space == facts.last_frame_space
            &&& facts.pointer_space is None && session.settled_space is None
                && facts.last_frame_space is None ==> plan.final_space == facts.session_space
            &&& held is None || held == Some(session.window) ==> plan.settle is None
            &&& plan.hide_overlay == overlay
        }),
        ({
            let plan = drop_comes_to(DragState::Inactive, held, cached, overlay, facts);
            &&& facts.origin_frame_space is Some ==> plan.swap_space == facts.origin_frame_space
            &&& facts.origin_frame_space is None ==> plan.swap_space == facts.first_space
            &&& plan.hide_overlay == overlay
        }),
{
}

/// A look for a drop keeps everything else of the drag: the drag of another window goes on
/// as it was, a layout that is skipped for another window is skipped still, where the drag
/// began is noted once, and what the pointer does not point at is aimed at as if alone.
pub proof fn what_a_look_for_a_drop_keeps<F: Copy, P>(
    manager: DragManager<F, P>,
    window: WindowId,
    frame: F,
    facts: DropFacts,
    look: DropLook,
    windows: Seq<CandidateWindow>,
    aim: DropAim<F>,
    now: Nanos,
)
    requires
        manager.looks_for_drop(facts, look),
    ensures
        ({
            let (after, step) = manager.evaluated(window, frame, facts, look, windows, aim, now);
            let target = manager.target_of(window, look, windows);
            let over = DragManager {
                drag_swap: swap_over(manager.drag_swap, window, frame, target),
                ..manager
            };
            &&& session_of(after.drag_state) == session_of(manager.drag_state)
            &&& after.drag_swap.dragged == Some(window)
            &&& manager.drag_swap.dragged == Some(window) ==> after.drag_swap.origin_frame
                == manager.drag_swap.origin_frame
            &&& manager.drag_swap.dragged != Some(window) ==> after.drag_swap.origin_frame == Some(
                frame,
            )
            &&& target is None && session_of(manager.drag_state)->0.window != window
                ==> after.drag_state == manager.drag_state
            &&& target is None && manager.skip_layout_for_window != Some(window)
                ==> after.skip_layout_for_window == manager.skip_layout_for_window
            &&& target is None ==> after.zone_candidate is None
            &&& (target is None || !look.pointer) && !manager.drop_overlay_shown ==> step
                == OverlayStep::Nothing
            &&& (target is None || !look.pointer) && manager.drop_overlay_shown ==> step
                == OverlayStep::Hide
            &&& target is Some && !look.pointer ==> after.drop_preview_cache is None
                && after.zone_candidate is None
            &&& target is Some && look.pointer ==> {
                let (shown, does) = over.aimed(window, target->0, aim, now);
                &&& step == does
                &&& after.drop_overlay_shown == shown.drop_overlay_shown
                &&& after.drop_preview_cache == shown.drop_preview_cache
                &&& after.zone_candidate == shown.zone_candidate
            }
            &&& after.notifications_silenced == manager.notifications_silenced
                && after.space_sync_at == manager.space_sync_at
        }),
{
}

/// What the pointer has entered is kept with the overlay, and forgotten when that is
/// hidden. Nothing else of the drag changes for it.
pub proof fn what_aiming_keeps<F: Copy, P>(
    manager: DragManager<F, P>,
    dragged: WindowId,
    target: WindowId,
    aim: DropAim<F>,
    now: Nanos,
)
    ensures
        ({
            let (after, step) = manager.aimed(dragged, target, aim, now);
            &&& !after.drop_overlay_shown ==> after.zone_candidate is None
            &&& after.drop_overlay_shown ==> aim.raw is Some && after.zone_candidate
                == sticky_action(
                manager.drop_preview_cache,
                manager.zone_candidate,
                dragged,
                target,
                aim.raw->0,
                now,
            ).1
            &&& after.drag_state == manager.drag_state && after.drag_swap == manager.drag_swap
                && after.skip_layout_for_window == manager.skip_layout_for_window && after.drop_pin
                == manager.drop_pin && after.held_window == manager.held_window
                && after.notifications_silenced == manager.notifications_silenced
                && after.space_sync_at == manager.space_sync_at && after.seam_finish
                == manager.seam_finish
        }),
{
}

/// A preview stays while the pointer has not dwelt elsewhere, and gives way once it has.
pub proof fn when_a_preview_is_kept<F: Copy, P>(
    manager: DragManager<F, P>,
    shown: DropPreview<F>,
    raw: DropAction,
    now: Nanos,
)
    requires
        manager.drop_preview_cache == Some(shown),
        shown.action != raw,
    ensures
        ({
            let dwelt = manager.zone_candidate is Some && manager.zone_candidate->0.dragged
                == shown.dragged && manager.zone_candidate->0.target == shown.target
                && manager.zone_candidate->0.action == raw && now
                - manager.zone_candidate->0.since >= 150 * crate::clock::MILLISECOND;
            let source = manager.source_of(true, shown.dragged, shown.target, Some(raw), now);
            &&& dwelt ==> source == PreviewSource::Region(raw)
            &&& !dwelt ==> source == PreviewSource::Cached
        }),
{
}

/// A drag has its session whether or not it is over a window; where there is none, a drop
/// goes by the pointer and the frame alone. With the window in hand the drop before is not
/// watched on.
pub proof fn what_a_drag_has<F, P>(
    session: DragSession<F>,
    target: WindowId,
    facts: DropFacts,
    space: SpaceId,
    finish: SeamFinish<F, P>,
    seam: SeamFacts,
    refit: Option<F>,
    now: Nanos,
)
    ensures
        session_of(DragState::Active { session }) == Some(session),
        session_of(DragState::PendingSwap { session, target }) == Some(session),
        session_of(DragState::<F>::Inactive) is None,
        drop_space(DragState::PendingSwap { session, target }, facts) == drop_space(
            DragState::Active { session },
            facts,
        ),
        membership_space(DragState::PendingSwap { session, target }, facts, space)
            == membership_space(DragState::Active { session }, facts, space),
        facts.pointer_space is Some ==> drop_space(DragState::<F>::Inactive, facts)
            == facts.pointer_space,
        facts.pointer_space is None ==> drop_space(DragState::<F>::Inactive, facts)
            == facts.frame_space,
        facts.origin_frame_space is Some ==> membership_space(DragState::<F>::Inactive, facts, space)
            == facts.origin_frame_space->0,
        facts.origin_frame_space is None ==> membership_space(DragState::<F>::Inactive, facts, space)
            == space,
        seam_step(finish, true, seam, refit, now) == (None::<F>, false),
        seam.button_down ==> seam_step(finish, false, seam, refit, now) == (None::<F>, false),
{
}

} // verus!
