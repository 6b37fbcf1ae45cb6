//! Pointer ownership: whether the pointer is on this machine or with a peer,
//! decided anew from every sample.

use crate::display::{Client, ClientMousePosition, DisplayError, DisplayManager, Edge};
use crate::input::MousePosition;
use crate::protocol::ProtocolError;
use crate::topology::{fits_i32, Topology};
use vstd::prelude::*;
use vstd::string::*;

verus! {

/// By how many pixels a position on an edge is pushed over to the neighbour.
pub const EDGE_PUSH: i32 = 5;

/// What goes wrong when a pointer sample is handled.
#[derive(Debug)]
pub enum MouseHandlerError {
    DisplayError(DisplayError),
    ProtocolError(ProtocolError),
    /// The indicator could not be reached.
    SendError,
    /// The local machine has no entry in the topology.
    OwnDisplayError,
}

impl MouseHandlerError {
    /// The error in words: a fixed sentence, or a fixed beginning followed
    /// by the words of the error within.
    pub fn message(&self) -> (words: String)
        ensures
            match self {
                MouseHandlerError::DisplayError(error) => words@ == "DisplayError: "@
                    + error.spec_message(),
                MouseHandlerError::ProtocolError(_) => "Protocol Error: "@.is_prefix_of(words@),
                MouseHandlerError::SendError => words@ == "Was unable to send to main thread"@,
                MouseHandlerError::OwnDisplayError => words@ == "Was unable to find own display"@,
            },
    {
        match self {
            MouseHandlerError::DisplayError(error) => {
                let detail = error.message();
                String::from_str("DisplayError: ").concat(detail.as_str())
            },
            MouseHandlerError::ProtocolError(error) => {
                let detail = error.message();
                let words = String::from_str("Protocol Error: ").concat(detail.as_str());
                proof {
                    assert(words@.subrange(0, "Protocol Error: "@.len() as int)
                        =~= "Protocol Error: "@);
                }
                words
            },
            MouseHandlerError::SendError => String::from_str("Was unable to send to main thread"),
            MouseHandlerError::OwnDisplayError => String::from_str(
                "Was unable to find own display",
            ),
        }
    }
}

/// What is to be done with the local cursor and the indicator.
#[derive(Debug, Clone, Copy, PartialEq, Eq, Structural)]
pub enum PointerAction {
    /// The pointer is with a peer: park the cursor on the anchor and show
    /// the indicator.
    Park,
    /// The pointer is here: hide the indicator.
    Release,
    /// The pointer is here: put the cursor on the point and hide the
    /// indicator.
    Place(MousePosition),
    /// Nothing changes.
    Idle,
}

impl PointerAction {
    /// What the action asks of the indicator: to show, to go, or nothing.
    pub open spec fn spec_indicator(self) -> Option<bool> {
        match self {
            PointerAction::Park => Some(true),
            PointerAction::Release => Some(false),
            PointerAction::Place(_) => Some(false),
            PointerAction::Idle => None,
        }
    }

    /// What the action asks of the indicator: `Some(true)` to show it,
    /// `Some(false)` to hide it, `None` to leave it.
    pub fn indicator(&self) -> (request: Option<bool>)
        ensures
            request == self.spec_indicator(),
    {
        match self {
            PointerAction::Park => Some(true),
            PointerAction::Release => Some(false),
            PointerAction::Place(_) => Some(false),
            PointerAction::Idle => None,
        }
    }

    /// Where the action puts the local cursor: on the anchor, on a point of
    /// the local desktop, or nowhere.
    pub open spec fn spec_cursor(self, display_size: (i32, i32)) -> Option<MousePosition> {
        match self {
            PointerAction::Park => Some(
                MousePosition {
                    x: spec_half(display_size.0 as int) as i32,
                    y: spec_half(display_size.1 as int) as i32,
                },
            ),
            PointerAction::Place(point) => Some(point),
            PointerAction::Release => None,
            PointerAction::Idle => None,
        }
    }

    /// Where the action puts the local cursor.
    pub fn cursor(&self, display_size: (i32, i32)) -> (target: Option<MousePosition>)
        ensures
            target == self.spec_cursor(display_size),
    {
        match self {
            PointerAction::Park => Some(
                MousePosition { x: display_size.0 / 2, y: display_size.1 / 2 },
            ),
            PointerAction::Place(point) => Some(*point),
            PointerAction::Release => None,
            PointerAction::Idle => None,
        }
    }
}

/// The outcome of a pointer sample: what to do locally, and the global
/// position to hold from now on and to tell the peers.
#[derive(Debug, Clone, Copy, PartialEq, Eq, Structural)]
pub struct PointerStep {
    pub action: PointerAction,
    pub position: MousePosition,
}

/// Half of a length, rounded towards zero.
pub open spec fn spec_half(v: int) -> int {
    if v >= 0 {
        v / 2
    } else {
        -((-v) / 2)
    }
}

/// The anchor on which the cursor is parked: the middle of the main display.
pub open spec fn spec_anchor(display_size: (i32, i32)) -> (int, int) {
    (spec_half(display_size.0 as int), spec_half(display_size.1 as int))
}

/// The owner of a point of the flattened space that may lie beyond the range
/// of positions, in which case it has none.
pub open spec fn resolve(topology: Topology, target: (int, int)) -> Option<ClientMousePosition> {
    if fits_i32(target.0) && fits_i32(target.1) {
        topology.local_position_of(MousePosition { x: target.0 as i32, y: target.1 as i32 })
    } else {
        None
    }
}

/// Where a sample takes the pointer. While the pointer is here, the sample
/// is a point of the local desktop and is mapped into the flattened space;
/// while it is with a peer, the sample's displacement from the anchor is
/// added to the position held; a position held that no machine owns gives
/// way to the origin.
pub open spec fn target_of(
    topology: Topology,
    current: MousePosition,
    sample: MousePosition,
    display_size: (i32, i32),
) -> Result<(int, int), MouseHandlerError> {
    match topology.local_position_of(current) {
        Some(owner) => match owner.client {
            Client::IsSelf => match topology.global_position_of(sample) {
                Some(global) => Ok((global.x as int, global.y as int)),
                None => Err(MouseHandlerError::DisplayError(DisplayError::InvalidMousePosition)),
            },
            Client::IsNetworked(_) => Ok(
                (
                    current.x + (sample.x - spec_anchor(display_size).0),
                    current.y + (sample.y - spec_anchor(display_size).1),
                ),
            ),
        },
        None => Ok((0, 0)),
    }
}

/// A target on the local machine that touches an edge with a neighbour
/// beyond it is pushed over that edge; every other target stays.
pub open spec fn pushed(topology: Topology, target: (int, int)) -> (int, int) {
    match resolve(topology, target) {
        Some(found) => match (found.client, topology.own_index()) {
            (Client::IsSelf, Some(index)) => match topology.edge_of(
                found.mouse_position.x as int,
                index,
            ) {
                Some(Edge::Left) => (target.0 - EDGE_PUSH, target.1),
                Some(Edge::Right) => (target.0 + EDGE_PUSH, target.1),
                None => target,
            },
            _ => target,
        },
        None => target,
    }
}

/// A peer owns the position.
pub open spec fn with_peer(topology: Topology, position: MousePosition) -> bool {
    match topology.local_position_of(position) {
        Some(owner) => owner.client is IsNetworked,
        None => false,
    }
}

/// The outcome of a sample. A goal that some machine owns is accepted and
/// becomes the position: the cursor is parked when a peer owns the goal; it
/// is put on the goal when the pointer comes back from a peer to this
/// machine, and released when it was here already. A goal that no machine
/// owns is dropped: the position stays, and the cursor is parked again if
/// the pointer is with a peer.
pub open spec fn spec_step(
    topology: Topology,
    current: MousePosition,
    sample: MousePosition,
    display_size: (i32, i32),
) -> Result<PointerStep, MouseHandlerError> {
    match target_of(topology, current, sample, display_size) {
        Err(e) => Err(e),
        Ok(target) => {
            let goal = pushed(topology, target);
            match resolve(topology, goal) {
                Some(found) => Ok(
                    PointerStep {
                        action: match found.client {
                            Client::IsNetworked(_) => PointerAction::Park,
                            Client::IsSelf => if with_peer(topology, current) {
                                PointerAction::Place(found.mouse_position)
                            } else {
                                PointerAction::Release
                            },
                        },
                        position: MousePosition { x: goal.0 as i32, y: goal.1 as i32 },
                    },
                ),
                None => Ok(
                    PointerStep {
                        action: if with_peer(topology, current) {
                            PointerAction::Park
                        } else {
                            PointerAction::Idle
                        },
                        position: current,
                    },
                ),
            }
        },
    }
}

/// What the position held asks of the local cursor: to be put where the
/// position lies on this machine, or to be parked while a peer owns it.
pub open spec fn spec_apply(topology: Topology, current: MousePosition) -> Result<
    PointerAction,
    MouseHandlerError,
> {
    match topology.local_position_of(current) {
        Some(found) => Ok(
            match found.client {
                Client::IsSelf => PointerAction::Place(found.mouse_position),
                Client::IsNetworked(_) => PointerAction::Park,
            },
        ),
        None => Err(MouseHandlerError::DisplayError(DisplayError::InvalidMousePosition)),
    }
}

/// The owner of a point that may lie beyond the range of positions.
fn resolve_target(display_manager: &DisplayManager, x: i64, y: i64) -> (found: Option<
    ClientMousePosition,
>)
    ensures
        found == resolve(display_manager@, (x as int, y as int)),
{
    if x < i32::MIN as i64 || x > i32::MAX as i64 || y < i32::MIN as i64 || y > i32::MAX as i64 {
        return None;
    }
    match display_manager.get_local_mouse_position(&MousePosition { x: x as i32, y: y as i32 }) {
        Ok(found) => Some(found),
        Err(_) => None,
    }
}

/// The pointer-ownership state: the global position last accepted.
#[derive(Debug)]
pub struct Handler {
    current_position: MousePosition,
}

impl View for Handler {
    type V = MousePosition;

    closed spec fn view(&self) -> MousePosition {
        self.current_position
    }
}

impl Handler {
    /// A handler that holds the origin.
    pub fn new() -> (handler: Handler)
        ensures
            handler@ == (MousePosition { x: 0, y: 0 }),
    {
        Handler { current_position: MousePosition { x: 0, y: 0 } }
    }

    /// The global position held.
    pub fn current_position(&self) -> (position: MousePosition)
        ensures
            position == self@,
    {
        self.current_position
    }

    /// Decides what a sample from the local pointer does. Nothing is
    /// changed: the step is taken up with `accept` once its action has been
    /// carried out.
    pub fn mouse_movement(
        &self,
        display_manager: &DisplayManager,
        mouse_position: MousePosition,
        display_size: (i32, i32),
    ) -> (r: Result<PointerStep, MouseHandlerError>)
        ensures
            r == spec_step(display_manager@, self@, mouse_position, display_size),
    {
        let ghost topology = display_manager@;
        let last_position = display_manager.get_local_mouse_position(&self.current_position);
        let parked = match last_position {
            Ok(ClientMousePosition { client: Client::IsNetworked(_), .. }) => true,
            _ => false,
        };
        let mut target: (i64, i64) = match last_position {
            Ok(last) => match last.client {
                Client::IsSelf => match display_manager.get_global_mouse_position(mouse_position) {
                    Ok(global) => (global.x as i64, global.y as i64),
                    Err(e) => {
                        return Err(MouseHandlerError::DisplayError(e));
                    },
                },
                Client::IsNetworked(_) => {
                    let dx: i64 = mouse_position.x as i64 - (display_size.0 / 2) as i64;
                    let dy: i64 = mouse_position.y as i64 - (display_size.1 / 2) as i64;
                    (self.current_position.x as i64 + dx, self.current_position.y as i64 + dy)
                },
            },
            Err(_) => (0, 0),
        };
        assert(Ok::<(int, int), MouseHandlerError>((target.0 as int, target.1 as int)) == target_of(
            topology,
            self@,
            mouse_position,
            display_size,
        ));
        let ghost start = (target.0 as int, target.1 as int);
        let computed = resolve_target(display_manager, target.0, target.1);
        let resolved = match computed {
            Some(found) => match found.client {
                Client::IsSelf => {
                    proof {
                        topology.lemma_owner_is_listed(
                            MousePosition { x: target.0 as i32, y: target.1 as i32 },
                        );
                    }
                    let own_index = match display_manager.get_own_client_displays_index() {
                        Some(index) => index,
                        None => {
                            return Err(MouseHandlerError::OwnDisplayError);
                        },
                    };
                    match display_manager.is_on_edge(&found.mouse_position, own_index) {
                        Ok(Some(Edge::Left)) => {
                            target.0 = target.0 - EDGE_PUSH as i64;
                            resolve_target(display_manager, target.0, target.1)
                        },
                        Ok(Some(Edge::Right)) => {
                            target.0 = target.0 + EDGE_PUSH as i64;
                            resolve_target(display_manager, target.0, target.1)
                        },
                        Ok(None) => computed,
                        Err(e) => {
                            return Err(MouseHandlerError::DisplayError(e));
                        },
                    }
                },
                Client::IsNetworked(_) => computed,
            },
            None => computed,
        };
        assert((target.0 as int, target.1 as int) == pushed(topology, start));
        match resolved {
            Some(found) => {
                let action = match found.client {
                    Client::IsNetworked(_) => PointerAction::Park,
                    Client::IsSelf => if parked {
                        PointerAction::Place(found.mouse_position)
                    } else {
                        PointerAction::Release
                    },
                };
                Ok(
                    PointerStep {
                        action,
                        position: MousePosition { x: target.0 as i32, y: target.1 as i32 },
                    },
                )
            },
            None => Ok(
                PointerStep {
                    action: if parked {
                        PointerAction::Park
                    } else {
                        PointerAction::Idle
                    },
                    position: self.current_position,
                },
            ),
        }
    }

    /// Takes up the position of a step.
    pub fn accept(&mut self, step: &PointerStep)
        ensures
            final(self)@ == step.position,
    {
        self.current_position = step.position;
    }

    /// The owner of the position held, and the position on its desktop.
    pub fn get_local_mouse_position(&self, display_manager: &DisplayManager) -> (r: Result<
        ClientMousePosition,
        MouseHandlerError,
    >)
        ensures
            match display_manager@.local_position_of(self@) {
                Some(found) => r == Ok::<ClientMousePosition, MouseHandlerError>(found),
                None => r == Err::<ClientMousePosition, MouseHandlerError>(
                    MouseHandlerError::DisplayError(DisplayError::InvalidMousePosition),
                ),
            },
    {
        match display_manager.get_local_mouse_position(&self.current_position) {
            Ok(found) => Ok(found),
            Err(e) => Err(MouseHandlerError::DisplayError(e)),
        }
    }

    /// What the position held asks of the local cursor.
    pub fn apply_current_position(&self, display_manager: &DisplayManager) -> (r: Result<
        PointerAction,
        MouseHandlerError,
    >)
        ensures
            r == spec_apply(display_manager@, self@),
    {
        match display_manager.get_local_mouse_position(&self.current_position) {
            Ok(found) => match found.client {
                Client::IsSelf => Ok(PointerAction::Place(found.mouse_position)),
                Client::IsNetworked(_) => Ok(PointerAction::Park),
            },
            Err(e) => Err(MouseHandlerError::DisplayError(e)),
        }
    }

    /// Takes up a position that a peer announced, and says what it asks of
    /// the local cursor. The position is held even where no machine owns it.
    pub fn set_current_position(
        &mut self,
        display_manager: &DisplayManager,
        current_position: MousePosition,
    ) -> (r: Result<PointerAction, MouseHandlerError>)
        ensures
            final(self)@ == current_position,
            r == spec_apply(display_manager@, current_position),
    {
        self.current_position = current_position;
        self.apply_current_position(display_manager)
    }
}

} // verus!
