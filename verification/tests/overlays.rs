use rift::drop_overlay::{DropOverlay, Event, Step, FRAME_INTERVAL_NS};
use rift::tile_halo::{Event as HaloEvent, HaloKind, Step as HaloStep, TileHalo};
use rift::version::display_version;

#[test]
fn an_overlay_gets_a_window_on_the_screen_it_aims_at() {
    let mut overlay = DropOverlay::new(true);
    assert_eq!(overlay.handle_event(Event::Hide), Step::Nothing);
    assert_eq!(overlay.handle_event(Event::Tick), Step::Nothing);
    assert_eq!(overlay.handle_event(Event::Aim { same_screen: true }), Step::Replace { hide: false });
    assert!(overlay.replaced(true));
    assert_eq!(overlay.handle_event(Event::Aim { same_screen: true }), Step::Aim);
    assert_eq!(overlay.handle_event(Event::Tick), Step::Draw);
    assert_eq!(overlay.handle_event(Event::Hide), Step::Hide);
    assert_eq!(overlay.handle_event(Event::Aim { same_screen: false }), Step::Replace { hide: true });
    assert!(!overlay.replaced(false));
    assert_eq!(overlay.handle_event(Event::Hide), Step::Nothing);
    assert_eq!(overlay.handle_event(Event::ConfigUpdated { enabled: false }), Step::Forget);
    assert_eq!(overlay.handle_event(Event::Aim { same_screen: true }), Step::Nothing);
}

#[test]
fn frames_do_not_pile_up() {
    assert_eq!(FRAME_INTERVAL_NS, 16 * 1_000_000);
    let mut overlay = DropOverlay::new(true);
    assert!(!overlay.schedule_tick(false));
    assert!(overlay.schedule_tick(true));
    assert!(!overlay.schedule_tick(true));
    overlay.handle_event(Event::Tick);
    assert!(overlay.schedule_tick(true));
    let mut halo = TileHalo::new(true, true);
    assert!(halo.schedule_tick(true));
    assert!(!halo.schedule_tick(true));
    halo.handle_event(HaloEvent::Tick);
    assert!(halo.schedule_tick(true));
}

#[test]
fn a_halo_flashes_for_floats_only_if_asked_to() {
    let flash = |kind| HaloEvent::Flash { kind, same_screen: true };
    let mut halo = TileHalo::new(true, false);
    assert_eq!(halo.handle_event(flash(HaloKind::Floated)), HaloStep::Nothing);
    assert_eq!(halo.handle_event(flash(HaloKind::Tiled)), HaloStep::Replace { hide: false });
    assert!(halo.replaced(true));
    assert_eq!(halo.handle_event(flash(HaloKind::Tiled)), HaloStep::Flash);
    assert_eq!(halo.handle_event(HaloEvent::Tick), HaloStep::Draw);
    assert_eq!(
        halo.handle_event(HaloEvent::ConfigUpdated { enabled: false, on_float: true }),
        HaloStep::HideAndForget
    );
    assert_eq!(halo.handle_event(HaloEvent::Tick), HaloStep::Nothing);
    assert_eq!(halo.handle_event(flash(HaloKind::Floated)), HaloStep::Nothing);
}

#[test]
fn the_version_says_what_was_built() {
    let version = "1.2.3".to_string();
    let tags = |names: &[&str]| names.iter().map(|n| n.to_string()).collect::<Vec<String>>();
    let commit = Some("abc".to_string());
    assert_eq!(display_version(&version, &tags(&["v1.2.3"]), false, &commit), "1.2.3");
    assert_eq!(display_version(&version, &tags(&["x", "1.2.3"]), false, &commit), "1.2.3");
    assert_eq!(display_version(&version, &tags(&["v1.2.4"]), false, &commit), "1.2.3+abc");
    assert_eq!(display_version(&version, &tags(&["v1.2.3"]), true, &commit), "1.2.3+abc.dirty");
    assert_eq!(display_version(&version, &tags(&[]), true, &None), "1.2.3+unknown.dirty");
}
