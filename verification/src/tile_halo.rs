//! The halo that flashes around a window that was tiled or floated.
//!
//! A flash has a fixed length: frames are drawn until the window says that it is
//! over.

use vstd::prelude::*;

verus! {

/// What the flash confirms.
#[derive(Clone, Copy, Debug, PartialEq, Eq, Structural)]
pub enum HaloKind {
    Tiled,
    Floated,
}

/// What the halo is told.
#[derive(Clone, Copy, Debug, PartialEq, Eq, Structural)]
pub enum Event {
    /// Flash around a window on a screen. Whether that is the screen of the
    /// halo's window.
    Flash { kind: HaloKind, same_screen: bool },
    /// The next frame is due.
    Tick,
    /// The settings are new: whether there are flashes, and for floats too.
    ConfigUpdated { enabled: bool, on_float: bool },
}

/// What is done with the window of the halo.
#[derive(Clone, Copy, Debug, PartialEq, Eq, Structural)]
pub enum Step {
    Nothing,
    /// The window is hidden and dropped: colours are part of it.
    HideAndForget,
    /// The window draws its next frame, and says whether there are more.
    Draw,
    Flash,
    /// A window is made on the screen, in place of the one on another if there
    /// is one, which is hidden.
    Replace { hide: bool },
}

/// The halo.
#[derive(Clone, Copy, Debug, PartialEq, Eq, Structural)]
pub struct TileHalo {
    pub enabled: bool,
    pub on_float: bool,
    pub has_window: bool,
    /// A frame is scheduled: timers do not pile up.
    pub tick_scheduled: bool,
}

/// The halo after an event, and what is done with its window.
pub open spec fn after_event(halo: TileHalo, event: Event) -> (TileHalo, Step) {
    match event {
        Event::ConfigUpdated { enabled, on_float } => (
            TileHalo { enabled, on_float, has_window: false, ..halo },
            if halo.has_window {
                Step::HideAndForget
            } else {
                Step::Nothing
            },
        ),
        Event::Tick => (
            TileHalo { tick_scheduled: false, ..halo },
            if halo.has_window {
                Step::Draw
            } else {
                Step::Nothing
            },
        ),
        Event::Flash { kind, same_screen } => if !halo.enabled || (kind == HaloKind::Floated
            && !halo.on_float) {
            (halo, Step::Nothing)
        } else if halo.has_window && same_screen {
            (halo, Step::Flash)
        } else {
            (TileHalo { has_window: false, ..halo }, Step::Replace { hide: halo.has_window })
        },
    }
}

impl TileHalo {
    pub fn new(enabled: bool, on_float: bool) -> (halo: TileHalo)
        ensures
            halo == (TileHalo { enabled, on_float, has_window: false, tick_scheduled: false }),
    {
        TileHalo { enabled, on_float, has_window: false, tick_scheduled: false }
    }

    /// Takes in an event.
    pub fn handle_event(&mut self, event: Event) -> (step: Step)
        ensures
            (*final(self), step) == after_event(*old(self), event),
    {
        match event {
            Event::ConfigUpdated { enabled, on_float } => {
                self.enabled = enabled;
                self.on_float = on_float;
                let had = self.has_window;
                self.has_window = false;
                if had {
                    Step::HideAndForget
                } else {
                    Step::Nothing
                }
            },
            Event::Tick => {
                self.tick_scheduled = false;
                if self.has_window {
                    Step::Draw
                } else {
                    Step::Nothing
                }
            },
            Event::Flash { kind, same_screen } => {
                if !self.enabled {
                    return Step::Nothing;
                }
                if kind == HaloKind::Floated && !self.on_float {
                    return Step::Nothing;
                }
                if self.has_window && same_screen {
                    return Step::Flash;
                }
                let hide = self.has_window;
                self.has_window = false;
                Step::Replace { hide }
            },
        }
    }

    /// A window was made, or could not be. One that was flashes.
    pub fn replaced(&mut self, made: bool) -> (flash: bool)
        ensures
            flash == made,
            *final(self) == (TileHalo { has_window: made, ..*old(self) }),
    {
        self.has_window = made;
        made
    }

    /// There are more frames to draw, or not. Whether one is to be scheduled is
    /// returned.
    pub fn schedule_tick(&mut self, animating: bool) -> (schedule: bool)
        ensures
            schedule == (animating && !old(self).tick_scheduled),
            *final(self) == (TileHalo {
                tick_scheduled: old(self).tick_scheduled || animating,
                ..*old(self)
            }),
    {
        if !animating || self.tick_scheduled {
            return false;
        }
        self.tick_scheduled = true;
        true
    }
}

/// One frame at most is scheduled: no event but the frame itself makes room for
/// another.
pub proof fn frames_do_not_pile_up(halo: TileHalo, event: Event)
    requires
        halo.tick_scheduled,
        event != Event::Tick,
    ensures
        after_event(halo, event).0.tick_scheduled,
{
}

/// New settings drop the window, which is hidden if there is one, and count from now on;
/// drawing needs one.
pub proof fn what_an_event_does_to_the_halo(halo: TileHalo, enabled: bool, on_float: bool)
    ensures
        ({
            let (after, step) = after_event(halo, Event::ConfigUpdated { enabled, on_float });
            &&& halo.has_window ==> step == Step::HideAndForget
            &&& !halo.has_window ==> step == Step::Nothing
            &&& after.enabled == enabled && after.on_float == on_float
            &&& !after.has_window
            &&& after.tick_scheduled == halo.tick_scheduled
        }),
        !after_event(halo, Event::Tick).0.tick_scheduled,
        after_event(halo, Event::Tick).0.has_window == halo.has_window,
        after_event(halo, Event::Tick).0.enabled == halo.enabled,
        after_event(halo, Event::Tick).0.on_float == halo.on_float,
        halo.has_window ==> after_event(halo, Event::Tick).1 == Step::Draw,
        !halo.has_window ==> after_event(halo, Event::Tick).1 == Step::Nothing,
{
}

/// A flash is shown where flashes are, and for a float where those are too: by the window
/// on that screen, or by one that is made there in place of one on another.
pub proof fn when_the_halo_flashes(halo: TileHalo, kind: HaloKind, same_screen: bool)
    ensures
        ({
            let (after, step) = after_event(halo, Event::Flash { kind, same_screen });
            let shown = halo.enabled && (kind == HaloKind::Tiled || halo.on_float);
            &&& !shown ==> step == Step::Nothing && after == halo
            &&& shown && halo.has_window && same_screen ==> step == Step::Flash && after == halo
            &&& shown && halo.has_window && !same_screen ==> step == (Step::Replace {
                hide: true,
            }) && !after.has_window
            &&& shown && !halo.has_window ==> step == (Step::Replace { hide: false })
                && !after.has_window
            &&& after.enabled == halo.enabled && after.on_float == halo.on_float
                && after.tick_scheduled == halo.tick_scheduled
        }),
{
}

} // verus!
