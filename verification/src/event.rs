//! The event taxonomy: the closed set of state-transition messages exchanged
//! between the server and its clients. Pure data; the rules that accept or
//! refuse an event live in the state machine.

use vstd::prelude::*;

verus! {

/// A point in the maze, one IEEE 754 binary32 bit pattern per axis.
///
/// The state machine never computes with coordinates: it stores them and
/// checks that each encodes a finite number. They are therefore held as raw
/// bit patterns; the rendering edge converts them to floats.
#[derive(Debug, Clone, Copy, PartialEq, Eq, Structural)]
pub struct Position {
    pub x: u32,
    pub y: u32,
    pub z: u32,
}

/// Whether `bits`, read as an IEEE 754 binary32 pattern, encodes a finite
/// number: the exponent field is not all ones (all ones marks an infinity or
/// a NaN).
pub open spec fn finite_bits(bits: u32) -> bool {
    (bits >> 23) & 0xff != 0xff
}

/// Whether all three coordinates of `p` encode finite numbers.
pub open spec fn position_finite(p: Position) -> bool {
    finite_bits(p.x) && finite_bits(p.y) && finite_bits(p.z)
}

impl Position {
    /// Runtime check for [`position_finite`].
    pub fn is_finite(&self) -> (r: bool)
        ensures
            r == position_finite(*self),
    {
        (self.x >> 23) & 0xff != 0xff && (self.y >> 23) & 0xff != 0xff && (self.z >> 23) & 0xff
            != 0xff
    }
}

/// A view direction, two IEEE 754 binary32 bit patterns, held and checked
/// like the coordinates of a [`Position`].
#[derive(Debug, Clone, Copy, PartialEq, Eq, Structural)]
pub struct Vision {
    pub x: u32,
    pub y: u32,
}

/// Whether both components of `v` encode finite numbers.
pub open spec fn vision_finite(v: Vision) -> bool {
    finite_bits(v.x) && finite_bits(v.y)
}

impl Vision {
    /// Runtime check for [`vision_finite`].
    pub fn is_finite(&self) -> (r: bool)
        ensures
            r == vision_finite(*self),
    {
        (self.x >> 23) & 0xff != 0xff && (self.y >> 23) & 0xff != 0xff
    }
}

/// One participant's record: the server-assigned id, the username as UTF-8
/// bytes, and the last accepted position.
#[derive(Debug, Clone, PartialEq)]
pub struct Player {
    pub player_id: u8,
    pub name: Vec<u8>,
    pub position: Position,
}

/// Mathematical image of a [`Player`].
pub struct PlayerView {
    pub player_id: u8,
    pub name: Seq<u8>,
    pub position: Position,
}

impl View for Player {
    type V = PlayerView;

    open spec fn view(&self) -> PlayerView {
        PlayerView { player_id: self.player_id, name: self.name@, position: self.position }
    }
}

/// An event that progresses the shared game state forward. Each variant is a
/// request while in flight and a fact once the server has accepted and
/// rebroadcast it.
#[derive(Debug, Clone, PartialEq)]
pub enum GameEvent {
    /// The lobby filled; play begins with the listed participants.
    BeginGame { player_list: Vec<Player> },
    /// The session is over; no further mutating event is accepted.
    EndGame,
    /// Unicast answer to a join attempt that found the session full.
    AccessForbidden,
    /// A collision involving the given player.
    Impact { id: u8 },
    /// The given player was eliminated and leaves the maze.
    Death { player_id: u8 },
    /// A new participant; the server-assigned `player_id` is authoritative.
    PlayerJoined { player_id: u8, name: Vec<u8>, position: Position, client_id: u64 },
    /// Removal notice, synthesized by the server from a transport disconnect.
    PlayerDisconnected { player_id: u8 },
    /// Client-originated position update, with an advisory snapshot for
    /// rendering.
    PlayerMove { player_id: u8, at: Position, player_list: Vec<Player>, vision: Vision },
    /// Placement fact unicast to a newly connected player.
    Spawn { player_id: u8, position: Position, lvl: usize },
    /// Countdown fact, in seconds.
    Timer { duration: u8 },
    /// Tells a newly connected peer which player id it was assigned.
    SetId { player_id: u8 },
}

/// Mathematical image of a [`GameEvent`].
pub enum EventView {
    BeginGame { player_list: Seq<PlayerView> },
    EndGame,
    AccessForbidden,
    Impact { id: u8 },
    Death { player_id: u8 },
    PlayerJoined { player_id: u8, name: Seq<u8>, position: Position, client_id: u64 },
    PlayerDisconnected { player_id: u8 },
    PlayerMove { player_id: u8, at: Position, player_list: Seq<PlayerView>, vision: Vision },
    Spawn { player_id: u8, position: Position, lvl: usize },
    Timer { duration: u8 },
    SetId { player_id: u8 },
}

/// Image of a roster: each element viewed.
pub open spec fn view_players(l: Seq<Player>) -> Seq<PlayerView> {
    l.map_values(|p: Player| p@)
}

impl View for GameEvent {
    type V = EventView;

    open spec fn view(&self) -> EventView {
        match *self {
            GameEvent::BeginGame { player_list } => EventView::BeginGame {
                player_list: view_players(player_list@),
            },
            GameEvent::EndGame => EventView::EndGame,
            GameEvent::AccessForbidden => EventView::AccessForbidden,
            GameEvent::Impact { id } => EventView::Impact { id },
            GameEvent::Death { player_id } => EventView::Death { player_id },
            GameEvent::PlayerJoined { player_id, name, position, client_id } => {
                EventView::PlayerJoined { player_id, name: name@, position, client_id }
            },
            GameEvent::PlayerDisconnected { player_id } => EventView::PlayerDisconnected {
                player_id,
            },
            GameEvent::PlayerMove { player_id, at, player_list, vision } => {
                EventView::PlayerMove {
                    player_id,
                    at,
                    player_list: view_players(player_list@),
                    vision,
                }
            },
            GameEvent::Spawn { player_id, position, lvl } => EventView::Spawn {
                player_id,
                position,
                lvl,
            },
            GameEvent::Timer { duration } => EventView::Timer { duration },
            GameEvent::SetId { player_id } => EventView::SetId { player_id },
        }
    }
}

/// A byte-for-byte copy of `v`.
pub fn clone_bytes(v: &Vec<u8>) -> (r: Vec<u8>)
    ensures
        r@ == v@,
{
    let r = v.clone();
    proof {
        assert forall|i: int| 0 <= i < v@.len() implies r@[i] == v@[i] by {
            assert(vstd::pervasive::cloned::<u8>(v@[i], r@[i]));
        }
        assert(r@ =~= v@);
    }
    r
}

/// A field-for-field copy of one player record.
pub fn clone_player(p: &Player) -> (r: Player)
    ensures
        r@ == p@,
{
    Player { player_id: p.player_id, name: clone_bytes(&p.name), position: p.position }
}

/// An element-for-element copy of a roster.
pub fn clone_players(l: &Vec<Player>) -> (r: Vec<Player>)
    ensures
        view_players(r@) == view_players(l@),
{
    let mut r: Vec<Player> = Vec::new();
    let n = l.len();
    let mut i: usize = 0;
    proof {
        assert(view_players(r@) =~= view_players(l@).take(0));
    }
    while i < n
        invariant
            i <= n,
            n == l@.len(),
            view_players(r@) == view_players(l@).take(i as int),
        decreases n - i,
    {
        let p = clone_player(&l[i]);
        let ghost r0 = r@;
        let ghost pv = p@;
        r.push(p);
        proof {
            assert(pv == l@[i as int]@);
            assert(view_players(r@) =~= view_players(r0).push(pv));
            assert(view_players(r0).push(pv) =~= view_players(l@).take(i as int + 1));
        }
        i += 1;
    }
    proof {
        assert(view_players(l@).take(n as int) =~= view_players(l@));
    }
    r
}

} // verus!
