//! The region that a drag would drop into, and the frames of its motion.
//!
//! Motion is advanced by hand, one frame at a time, and only while the region
//! still travels: a drag that does not move costs nothing.

use vstd::prelude::*;

verus! {

/// The time between two frames, in nanoseconds. About 60 a second.
pub const FRAME_INTERVAL_NS: i64 = 16_000_000;

/// What the overlay is told.
#[derive(Clone, Copy, Debug, PartialEq, Eq, Structural)]
pub enum Event {
    /// Point at a region of a screen. Whether that is the screen of the window.
    Aim { same_screen: bool },
    /// The drag ended, or left every target.
    Hide,
    /// The next frame is due.
    Tick,
    /// The settings are new; whether the overlay is to be shown at all.
    ConfigUpdated { enabled: bool },
}

/// What is done with the window of the overlay.
#[derive(Clone, Copy, Debug, PartialEq, Eq, Structural)]
pub enum Step {
    Nothing,
    /// The window is dropped: colours are part of it.
    Forget,
    Hide,
    /// The window draws its next frame, and says whether there are more.
    Draw,
    /// The window is pointed at the region.
    Aim,
    /// A window is made on the screen, in place of the one on another if there
    /// is one, which is hidden.
    Replace { hide: bool },
}

/// The overlay.
#[derive(Clone, Copy, Debug, PartialEq, Eq, Structural)]
pub struct DropOverlay {
    pub enabled: bool,
    pub has_window: bool,
    /// A frame is scheduled: timers do not pile up.
    pub tick_scheduled: bool,
}

/// The overlay after an event, and what is done with its window.
pub open spec fn after_event(overlay: DropOverlay, event: Event) -> (DropOverlay, Step) {
    match event {
        Event::ConfigUpdated { enabled } => (
            DropOverlay { enabled, has_window: false, ..overlay },
            Step::Forget,
        ),
        Event::Hide => (
            overlay,
            if overlay.has_window {
                Step::Hide
            } else {
                Step::Nothing
            },
        ),
        Event::Tick => (
            DropOverlay { tick_scheduled: false, ..overlay },
            if overlay.has_window {
                Step::Draw
            } else {
                Step::Nothing
            },
        ),
        Event::Aim { same_screen } => if !overlay.enabled {
            (overlay, Step::Nothing)
        } else if overlay.has_window && same_screen {
            (overlay, Step::Aim)
        } else {
            (
                DropOverlay { has_window: false, ..overlay },
                Step::Replace { hide: overlay.has_window },
            )
        },
    }
}

impl DropOverlay {
    pub fn new(enabled: bool) -> (overlay: DropOverlay)
        ensures
            overlay == (DropOverlay { enabled, has_window: false, tick_scheduled: false }),
    {
        DropOverlay { enabled, has_window: false, tick_scheduled: false }
    }

    /// Takes in an event.
    pub fn handle_event(&mut self, event: Event) -> (step: Step)
        ensures
            (*final(self), step) == after_event(*old(self), event),
    {
        match event {
            Event::ConfigUpdated { enabled } => {
                self.enabled = enabled;
                self.has_window = false;
                Step::Forget
            },
            Event::Hide => if self.has_window {
                Step::Hide
            } else {
                Step::Nothing
            },
            Event::Tick => {
                self.tick_scheduled = false;
                if self.has_window {
                    Step::Draw
                } else {
                    Step::Nothing
                }
            },
            Event::Aim { same_screen } => {
                if !self.enabled {
                    return Step::Nothing;
                }
                if self.has_window && same_screen {
                    return Step::Aim;
                }
                let hide = self.has_window;
                self.has_window = false;
                Step::Replace { hide }
            },
        }
    }

    /// A window was made, or could not be. One that was is pointed at the
    /// region.
    pub fn replaced(&mut self, made: bool) -> (aim: bool)
        ensures
            aim == made,
            *final(self) == (DropOverlay { has_window: made, ..*old(self) }),
    {
        self.has_window = made;
        made
    }

    /// There are more frames to draw, or not. Whether one is to be scheduled is
    /// returned.
    pub fn schedule_tick(&mut self, animating: bool) -> (schedule: bool)
        ensures
            schedule == (animating && !old(self).tick_scheduled),
            *final(self) == (DropOverlay {
                tick_scheduled: old(self).tick_scheduled || animating,
                ..*old(self)
            }),
    {
        if !animating || self.tick_scheduled {
            return false;
        }
        self.tick_scheduled = true;
        true
    }
}

/// However often the overlay is aimed, one frame at most is scheduled: no event
/// but the frame itself makes room for another.
pub proof fn frames_do_not_pile_up(overlay: DropOverlay, event: Event)
    requires
        overlay.tick_scheduled,
        event != Event::Tick,
    ensures
        after_event(overlay, event).0.tick_scheduled,
{
}

/// An overlay that is switched off shows nothing.
pub proof fn a_disabled_overlay_is_not_shown(overlay: DropOverlay, same_screen: bool)
    requires
        !overlay.enabled,
    ensures
        after_event(overlay, Event::Aim { same_screen }) == (overlay, Step::Nothing),
{
}

/// New settings drop the window and count from now on; hiding and drawing need one.
pub proof fn what_an_event_does_to_the_overlay(overlay: DropOverlay, enabled: bool)
    ensures
        ({
            let (after, step) = after_event(overlay, Event::ConfigUpdated { enabled });
            &&& step == Step::Forget
            &&& after.enabled == enabled
            &&& !after.has_window
            &&& after.tick_scheduled == overlay.tick_scheduled
        }),
        after_event(overlay, Event::Hide).0 == overlay,
        overlay.has_window ==> after_event(overlay, Event::Hide).1 == Step::Hide,
        !overlay.has_window ==> after_event(overlay, Event::Hide).1 == Step::Nothing,
        !after_event(overlay, Event::Tick).0.tick_scheduled,
        after_event(overlay, Event::Tick).0.has_window == overlay.has_window,
        after_event(overlay, Event::Tick).0.enabled == overlay.enabled,
        overlay.has_window ==> after_event(overlay, Event::Tick).1 == Step::Draw,
        !overlay.has_window ==> after_event(overlay, Event::Tick).1 == Step::Nothing,
{
}

/// Where the overlay is shown, its window on that screen is aimed; without one there a
/// window is made, and one on another screen is hidden.
pub proof fn where_the_overlay_is_aimed(overlay: DropOverlay, same_screen: bool)
    requires
        overlay.enabled,
    ensures
        ({
            let (after, step) = after_event(overlay, Event::Aim { same_screen });
            &&& overlay.has_window && same_screen ==> step == Step::Aim && after == overlay
            &&& overlay.has_window && !same_screen ==> step == (Step::Replace { hide: true })
                && !after.has_window
            &&& !overlay.has_window ==> step == (Step::Replace { hide: false })
                && !after.has_window
            &&& after.enabled && after.tick_scheduled == overlay.tick_scheduled
        }),
{
}

} // verus!
