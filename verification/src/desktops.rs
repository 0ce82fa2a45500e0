//! Commands on desktops: making one, leaving one, sending a window to one.

use vstd::prelude::*;

use crate::ids::{SpaceId, WindowId, WindowServerId};
use crate::lists::holds;
use crate::text::{decimal, number_text};

verus! {

/// Why a command on a desktop could not be carried out.
#[derive(Clone, Copy, Debug, PartialEq, Eq, Structural)]
pub enum DesktopError {
    /// A desktop cannot be made without the scripting addition.
    CannotCreate,
    CannotDestroy,
    CannotMove,
    /// A desktop was made, and is not on the display.
    CreatedNotFound,
    NoSuchSpace(usize),
    NoFocusedWindow,
    NoServerId,
}

impl DesktopError {
    /// What is told of it.
    pub open spec fn spec_message(&self) -> Seq<char> {
        match *self {
            DesktopError::CannotCreate =>
                "creating a space needs the scripting addition; run `sudo rift sa load` (`rift sa status` to check)"@,
            DesktopError::CannotDestroy =>
                "destroying a space needs the scripting addition; run `sudo rift sa load` (`rift sa status` to check)"@,
            DesktopError::CannotMove =>
                "moving a window to a space needs the scripting addition; run `sudo rift sa load` (`rift sa status` to check)"@,
            DesktopError::CreatedNotFound => "created a space but could not find it on the display"@,
            DesktopError::NoSuchSpace(index) => "there is no macOS space "@ + decimal(index as nat),
            DesktopError::NoFocusedWindow => "there is no focused window to move"@,
            DesktopError::NoServerId =>
                "that window has no window-server id, so it cannot be moved"@,
        }
    }

    /// What is told of it.
    pub fn message(&self) -> (text: String)
        ensures
            text@ == self.spec_message(),
    {
        match self {
            DesktopError::CannotCreate =>
                "creating a space needs the scripting addition; run `sudo rift sa load` (`rift sa status` to check)".to_owned(),
            DesktopError::CannotDestroy =>
                "destroying a space needs the scripting addition; run `sudo rift sa load` (`rift sa status` to check)".to_owned(),
            DesktopError::CannotMove =>
                "moving a window to a space needs the scripting addition; run `sudo rift sa load` (`rift sa status` to check)".to_owned(),
            DesktopError::CreatedNotFound =>
                "created a space but could not find it on the display".to_owned(),
            DesktopError::NoSuchSpace(index) => {
                let mut text = "there is no macOS space ".to_owned();
                text.append(number_text(*index as u64).as_str());
                text
            },
            DesktopError::NoFocusedWindow => "there is no focused window to move".to_owned(),
            DesktopError::NoServerId =>
                "that window has no window-server id, so it cannot be moved".to_owned(),
        }
    }
}

/// The first of `after` that is not among `before`.
pub open spec fn first_new(before: Seq<SpaceId>, after: Seq<SpaceId>) -> Option<SpaceId>
    decreases after.len(),
{
    if after.len() == 0 {
        None
    } else if before.contains(after[0]) {
        first_new(before, after.skip(1))
    } else {
        Some(after[0])
    }
}

/// The desktop that was made, and where it goes.
#[derive(Clone, Copy, Debug, PartialEq, Eq, Structural)]
pub enum Created {
    /// It is next to the active one already, and is focused.
    Focus(SpaceId),
    /// It is moved behind the active one, and focused.
    MoveAfter(SpaceId),
}

/// What becomes of a desktop that was made at the end of the display.
pub open spec fn created(
    made: bool,
    before: Seq<SpaceId>,
    after: Seq<SpaceId>,
    active: SpaceId,
) -> Result<Created, DesktopError> {
    if !made {
        Err(DesktopError::CannotCreate)
    } else {
        match first_new(before, after) {
            None => Err(DesktopError::CreatedNotFound),
            Some(space) => if before.len() > 0 && before.last() == active {
                Ok(Created::Focus(space))
            } else {
                Ok(Created::MoveAfter(space))
            },
        }
    }
}

/// A desktop was to be made after the active one: `before` and `after` are those
/// of the display before and after that. A desktop is made at the end of its
/// display, so it is moved unless the active one was the last.
pub fn create_space_after_active(
    made: bool,
    before: &[SpaceId],
    after: &[SpaceId],
    active: SpaceId,
) -> (what: Result<Created, DesktopError>)
    ensures
        what == created(made, before@, after@, active),
{
    if !made {
        return Err(DesktopError::CannotCreate);
    }
    let mut i: usize = 0;
    assert(after@.skip(0) =~= after@);
    while i < after.len()
        invariant
            i <= after@.len(),
            made,
            first_new(before@, after@) == first_new(before@, after@.skip(i as int)),
        decreases after@.len() - i,
    {
        if !holds(before, after[i]) {
            let last = before.len() > 0 && before[before.len() - 1] == active;
            return if last {
                Ok(Created::Focus(after[i]))
            } else {
                Ok(Created::MoveAfter(after[i]))
            };
        }
        assert(after@.skip(i as int).skip(1) =~= after@.skip(i + 1));
        i = i + 1;
    }
    Err(DesktopError::CreatedNotFound)
}

/// Which window goes to which desktop.
#[derive(Clone, Copy, Debug, PartialEq, Eq, Structural)]
pub struct Sent {
    pub window: WindowServerId,
    pub space: SpaceId,
}

/// The window that a command sends to the desktop at an index: the focused one,
/// else the one under the pointer.
pub fn window_to_send(
    index: usize,
    space: Option<SpaceId>,
    main_window: Option<WindowId>,
    under_pointer: Option<WindowId>,
) -> (window: Result<(WindowId, SpaceId), DesktopError>)
    ensures
        window == match space {
            None => Err(DesktopError::NoSuchSpace(index)),
            Some(space) => match crate::drag::first_of(main_window, under_pointer) {
                None => Err(DesktopError::NoFocusedWindow),
                Some(window) => Ok((window, space)),
            },
        },
{
    match space {
        None => Err(DesktopError::NoSuchSpace(index)),
        Some(space) => match main_window {
            Some(window) => Ok((window, space)),
            None => match under_pointer {
                Some(window) => Ok((window, space)),
                None => Err(DesktopError::NoFocusedWindow),
            },
        },
    }
}

/// The move that the window server is told of: it goes by the window's number.
pub fn move_to_send(space: SpaceId, sys_id: Option<WindowServerId>) -> (sent: Result<
    Sent,
    DesktopError,
>)
    ensures
        sent == match sys_id {
            Some(window) => Ok(Sent { window, space }),
            None => Err(DesktopError::NoServerId),
        },
{
    match sys_id {
        Some(window) => Ok(Sent { window, space }),
        None => Err(DesktopError::NoServerId),
    }
}

/// A desktop that is made ends up next to the active one: what is told to move
/// is new, and only where the active one was not the last.
pub proof fn a_created_desktop_is_new(
    before: Seq<SpaceId>,
    after: Seq<SpaceId>,
    active: SpaceId,
)
    ensures
        match created(true, before, after, active) {
            Ok(Created::Focus(space)) => after.contains(space) && !before.contains(space)
                && before.last() == active,
            Ok(Created::MoveAfter(space)) => after.contains(space) && !before.contains(space),
            Err(error) => error == DesktopError::CreatedNotFound && forall|i: int|
                0 <= i < after.len() ==> before.contains(#[trigger] after[i]),
        },
{
    lemma_first_new(before, after);
}

proof fn lemma_first_new(before: Seq<SpaceId>, after: Seq<SpaceId>)
    ensures
        match first_new(before, after) {
            Some(space) => after.contains(space) && !before.contains(space),
            None => forall|i: int|
                0 <= i < after.len() ==> before.contains(#[trigger] after[i]),
        },
    decreases after.len(),
{
    if after.len() > 0 {
        let rest = after.skip(1);
        lemma_first_new(before, rest);
        if before.contains(after[0]) {
            match first_new(before, rest) {
                Some(space) => {
                    let i = rest.index_of(space);
                    assert(after[i + 1] == space);
                },
                None => {
                    assert forall|i: int| 0 <= i < after.len() implies before.contains(
                        #[trigger] after[i],
                    ) by {
                        if i > 0 {
                            assert(rest[i - 1] == after[i]);
                        }
                    }
                },
            }
        }
    }
}

proof fn lemma_first_new_at(before: Seq<SpaceId>, after: Seq<SpaceId>, at: int)
    requires
        0 <= at <= after.len(),
        at < after.len() ==> !before.contains(after[at]),
        forall|i: int| 0 <= i < at ==> before.contains(#[trigger] after[i]),
    ensures
        at < after.len() ==> first_new(before, after) == Some(after[at]),
        at == after.len() ==> first_new(before, after) is None,
    decreases after.len(),
{
    if at > 0 {
        let rest = after.skip(1);
        assert(before.contains(after[0]));
        assert forall|i: int| 0 <= i < at - 1 implies before.contains(#[trigger] rest[i]) by {
            assert(rest[i] == after[i + 1]);
        }
        lemma_first_new_at(before, rest, at - 1);
    }
}

/// What becomes of a desktop that was to be made: the first that is new is focused where
/// the active one was the last, and else moved behind it first; without the means, or
/// with none that is new, it is an error.
pub proof fn what_becomes_of_a_made_desktop(
    before: Seq<SpaceId>,
    after: Seq<SpaceId>,
    active: SpaceId,
    at: int,
)
    requires
        0 <= at <= after.len(),
        at < after.len() ==> !before.contains(after[at]),
        forall|i: int| 0 <= i < at ==> before.contains(#[trigger] after[i]),
    ensures
        created(false, before, after, active) == Err::<Created, DesktopError>(
            DesktopError::CannotCreate,
        ),
        at == after.len() ==> created(true, before, after, active) == Err::<Created, DesktopError>(
            DesktopError::CreatedNotFound,
        ),
        at < after.len() && before.len() > 0 && before[before.len() - 1] == active ==> created(
            true,
            before,
            after,
            active,
        ) == Ok::<Created, DesktopError>(Created::Focus(after[at])),
        at < after.len() && (before.len() == 0 || before[before.len() - 1] != active) ==> created(
            true,
            before,
            after,
            active,
        ) == Ok::<Created, DesktopError>(Created::MoveAfter(after[at])),
{
    lemma_first_new_at(before, after, at);
}

/// What is told of an error names what cannot be done and what would make it possible, or
/// the number of the desktop that is not there.
pub proof fn what_is_told_of_an_error(index: usize)
    ensures
        DesktopError::NoSuchSpace(index).spec_message() == "there is no macOS space "@ + decimal(
            index as nat,
        ),
        DesktopError::NoFocusedWindow.spec_message() == "there is no focused window to move"@,
        DesktopError::NoServerId.spec_message()
            == "that window has no window-server id, so it cannot be moved"@,
        DesktopError::CreatedNotFound.spec_message()
            == "created a space but could not find it on the display"@,
        DesktopError::CannotCreate.spec_message()
            == "creating a space needs the scripting addition; run `sudo rift sa load` (`rift sa status` to check)"@,
        DesktopError::CannotDestroy.spec_message()
            == "destroying a space needs the scripting addition; run `sudo rift sa load` (`rift sa status` to check)"@,
        DesktopError::CannotMove.spec_message()
            == "moving a window to a space needs the scripting addition; run `sudo rift sa load` (`rift sa status` to check)"@,
{
}

} // verus!
