use rift::desktops::{
    create_space_after_active, move_to_send, window_to_send, Created, DesktopError, Sent,
};
use rift::ids::{SpaceId, WindowId, WindowServerId};

fn spaces(numbers: &[u64]) -> Vec<SpaceId> {
    numbers.iter().map(|n| SpaceId::new(*n)).collect()
}

#[test]
fn a_desktop_is_made_next_to_the_active_one() {
    let make = |made, before: &[u64], after: &[u64], active| {
        create_space_after_active(made, &spaces(before), &spaces(after), SpaceId::new(active))
    };
    assert_eq!(make(true, &[1, 2], &[1, 2, 9], 2), Ok(Created::Focus(SpaceId::new(9))));
    assert_eq!(make(true, &[1, 2], &[1, 2, 9], 1), Ok(Created::MoveAfter(SpaceId::new(9))));
    assert_eq!(make(true, &[], &[9], 1), Ok(Created::MoveAfter(SpaceId::new(9))));
    assert_eq!(make(true, &[1, 2], &[1, 2], 2), Err(DesktopError::CreatedNotFound));
    assert_eq!(make(false, &[1, 2], &[1, 2, 9], 2), Err(DesktopError::CannotCreate));
}

#[test]
fn the_focused_window_is_sent() {
    let front = WindowId::new(1, 1);
    let under = WindowId::new(1, 2);
    let space = SpaceId::new(4);
    assert_eq!(window_to_send(2, Some(space), Some(front), Some(under)), Ok((front, space)));
    assert_eq!(window_to_send(2, Some(space), None, Some(under)), Ok((under, space)));
    assert_eq!(window_to_send(2, Some(space), None, None), Err(DesktopError::NoFocusedWindow));
    assert_eq!(window_to_send(2, None, Some(front), None), Err(DesktopError::NoSuchSpace(2)));
    let window = WindowServerId::new(7);
    assert_eq!(move_to_send(space, Some(window)), Ok(Sent { window, space }));
    assert_eq!(move_to_send(space, None), Err(DesktopError::NoServerId));
}

#[test]
fn a_failure_says_what_would_help() {
    assert_eq!(DesktopError::NoSuchSpace(12).message(), "there is no macOS space 12");
    assert_eq!(
        DesktopError::CannotCreate.message(),
        "creating a space needs the scripting addition; run `sudo rift sa load` (`rift sa status` to check)"
    );
    assert_eq!(
        DesktopError::CannotDestroy.message(),
        "destroying a space needs the scripting addition; run `sudo rift sa load` (`rift sa status` to check)"
    );
    assert_eq!(
        DesktopError::CannotMove.message(),
        "moving a window to a space needs the scripting addition; run `sudo rift sa load` (`rift sa status` to check)"
    );
    assert_eq!(
        DesktopError::CreatedNotFound.message(),
        "created a space but could not find it on the display"
    );
    assert_eq!(DesktopError::NoFocusedWindow.message(), "there is no focused window to move");
    assert_eq!(
        DesktopError::NoServerId.message(),
        "that window has no window-server id, so it cannot be moved"
    );
}
