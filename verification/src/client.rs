//! The thin client-side reducer: a presentation-only mirror of the server's
//! accepted facts. It trusts every event the server sends, owns no
//! authoritative state, and only tells the rendering edge what to do.

use vstd::prelude::*;
use crate::event::{EventView, GameEvent, Position};

verus! {

/// What a client does with one event received from the server.
#[derive(Debug, Clone, PartialEq)]
pub enum ClientAction {
    /// Materialize the local avatar and camera at the given coordinates and
    /// load the indicated level.
    SpawnLocal { player_id: u8, position: Position, lvl: usize },
    /// Record the new participant for display.
    NoteJoined { player_id: u8, name: Vec<u8>, position: Position },
    /// Hand the event to the presentation collaborators unchanged.
    Forward { event: GameEvent },
}

/// Mathematical image of a [`ClientAction`].
pub enum ClientActionView {
    SpawnLocal { player_id: u8, position: Position, lvl: usize },
    NoteJoined { player_id: u8, name: Seq<u8>, position: Position },
    Forward { event: EventView },
}

impl View for ClientAction {
    type V = ClientActionView;

    open spec fn view(&self) -> ClientActionView {
        match *self {
            ClientAction::SpawnLocal { player_id, position, lvl } => ClientActionView::SpawnLocal {
                player_id,
                position,
                lvl,
            },
            ClientAction::NoteJoined { player_id, name, position } => ClientActionView::NoteJoined {
                player_id,
                name: name@,
                position,
            },
            ClientAction::Forward { event } => ClientActionView::Forward { event: event@ },
        }
    }
}

/// The reducer's decision for one event: a spawn places the local player,
/// a join is recorded, and everything else is forwarded unchanged.
pub open spec fn reduce_spec(e: EventView) -> ClientActionView {
    match e {
        EventView::Spawn { player_id, position, lvl } => ClientActionView::SpawnLocal {
            player_id,
            position,
            lvl,
        },
        EventView::PlayerJoined { player_id, name, position, client_id } => {
            ClientActionView::NoteJoined { player_id, name, position }
        },
        _ => ClientActionView::Forward { event: e },
    }
}

/// Turns one server-sent event into the client's presentation action,
/// exactly as [`reduce_spec`] says. The reducer never validates: it
/// mirrors what the single source of truth decided.
pub fn reduce(event: GameEvent) -> (r: ClientAction)
    ensures
        r@ == reduce_spec(event@),
{
    match event {
        GameEvent::Spawn { player_id, position, lvl } => ClientAction::SpawnLocal {
            player_id,
            position,
            lvl,
        },
        GameEvent::PlayerJoined { player_id, name, position, client_id } => {
            ClientAction::NoteJoined { player_id, name, position }
        },
        other => ClientAction::Forward { event: other },
    }
}

} // verus!
