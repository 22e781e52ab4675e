//! Per-tick decision logic of the server loop.
//!
//! The loop itself lives at the I/O edge: it drives the transport, drains
//! connect/disconnect notifications and per-peer messages, and hands each
//! one to the functions here. They own every decision — id allocation,
//! ownership and validation checks, state transitions, and which facts go
//! back out to whom — and return those facts as [`ServerAction`] values for
//! the edge to perform.

use vstd::prelude::*;
use crate::codec::{decode_event, spec_decode};
use crate::event::{clone_bytes, clone_players, EventView, GameEvent, Position};
use crate::state::{
    GameState, Stage, StateView, lemma_lowest_free_id, lowest_free_id, step, valid, wf, winner,
};

verus! {

/// One transport-facing instruction produced by a decision: which peers are
/// to receive which event. The I/O edge performs these in order.
#[derive(Debug, Clone, PartialEq)]
pub enum ServerAction {
    /// Send the event to every connected peer.
    Broadcast { event: GameEvent },
    /// Send the event to every connected peer but the named one.
    BroadcastExcept { client_id: u64, event: GameEvent },
    /// Send the event to the named peer alone.
    Send { client_id: u64, event: GameEvent },
}

/// Mathematical image of a [`ServerAction`].
pub enum ActionView {
    Broadcast { event: EventView },
    BroadcastExcept { client_id: u64, event: EventView },
    Send { client_id: u64, event: EventView },
}

impl View for ServerAction {
    type V = ActionView;

    open spec fn view(&self) -> ActionView {
        match *self {
            ServerAction::Broadcast { event } => ActionView::Broadcast { event: event@ },
            ServerAction::BroadcastExcept { client_id, event } => ActionView::BroadcastExcept {
                client_id,
                event: event@,
            },
            ServerAction::Send { client_id, event } => ActionView::Send {
                client_id,
                event: event@,
            },
        }
    }
}

/// Image of an action list: each element viewed.
pub open spec fn view_actions(l: Seq<ServerAction>) -> Seq<ActionView> {
    l.map_values(|a: ServerAction| a@)
}

/// One row of the join table: a transport identity and the game identity it
/// was assigned. The two keys meet only here, never inside the state
/// machine.
#[derive(Debug, Clone, Copy, PartialEq, Eq, Structural)]
pub struct ClientLink {
    pub client_id: u64,
    pub player_id: u8,
}

/// Mathematical image of a [`SessionServer`].
pub struct ServerView {
    pub game: StateView,
    pub clients: Seq<ClientLink>,
}

/// Some row of the join table carries the transport identity `client_id`.
pub open spec fn has_client(clients: Seq<ClientLink>, client_id: u64) -> bool {
    exists|i: int| 0 <= i < clients.len() && clients[i].client_id == client_id
}

/// The row carrying `client_id`; meaningful under [`has_client`] and unique
/// under [`clients_unique`].
pub open spec fn client_slot(clients: Seq<ClientLink>, client_id: u64) -> int {
    choose|i: int| 0 <= i < clients.len() && clients[i].client_id == client_id
}

/// No two rows of the join table carry the same transport identity.
pub open spec fn clients_unique(clients: Seq<ClientLink>) -> bool {
    forall|i: int, j: int|
        0 <= i < j < clients.len() ==> clients[i].client_id != clients[j].client_id
}

/// The join table with the row carrying `client_id` removed (unchanged when
/// absent).
pub open spec fn remove_client(clients: Seq<ClientLink>, client_id: u64) -> Seq<ClientLink> {
    if has_client(clients, client_id) {
        clients.remove(client_slot(clients, client_id))
    } else {
        clients
    }
}

/// Well-formedness of the loop's state: a well-formed game and a join table
/// without duplicate transport identities.
pub open spec fn wf_server(s: ServerView) -> bool {
    wf(s.game) && clients_unique(s.clients)
}

/// Where every new player is placed: the maze origin.
pub open spec fn initial_position() -> Position {
    Position { x: 0, y: 0, z: 0 }
}

/// A connect is refused — answered with `AccessForbidden` instead of an id —
/// exactly when play has left the lobby or the session is full.
pub open spec fn join_refused(g: StateView) -> bool {
    g.stage != Stage::Lobby || g.players.len() >= g.player_limit
}

/// The join fact synthesized for an accepted connect: the lowest free id,
/// the presented name, the initial position, and the transport identity.
pub open spec fn join_event(g: StateView, client_id: u64, name: Seq<u8>) -> EventView {
    EventView::PlayerJoined {
        player_id: lowest_free_id(g.players, g.player_limit),
        name,
        position: initial_position(),
        client_id,
    }
}

/// `e` is an event the sender owns: the only client-originated kind,
/// `PlayerMove`, and only about the player id that `client_id` was
/// assigned. Everything else is a server-authored fact and refused when a
/// client submits it.
pub open spec fn owns_event(clients: Seq<ClientLink>, client_id: u64, e: EventView) -> bool {
    match e {
        EventView::PlayerMove { player_id, at, player_list, vision } => has_client(
            clients,
            client_id,
        ) && clients[client_slot(clients, client_id)].player_id == player_id,
        _ => false,
    }
}

/// The server loop's state: the authoritative game state and the join
/// table between transport identities and player ids.
#[derive(Debug)]
pub struct SessionServer {
    pub game: GameState,
    pub clients: Vec<ClientLink>,
}

impl View for SessionServer {
    type V = ServerView;

    open spec fn view(&self) -> ServerView {
        ServerView { game: self.game@, clients: self.clients@ }
    }
}

/// Under unique transport identities, the slot chosen by [`client_slot`] is
/// the one and only row carrying `client_id`.
proof fn lemma_client_slot_of_match(clients: Seq<ClientLink>, client_id: u64, i: int)
    requires
        clients_unique(clients),
        0 <= i < clients.len(),
        clients[i].client_id == client_id,
    ensures
        has_client(clients, client_id),
        client_slot(clients, client_id) == i,
{
    assert(has_client(clients, client_id));
    let j = client_slot(clients, client_id);
    assert(0 <= j < clients.len() && clients[j].client_id == client_id);
    if i < j {
        assert(clients[i].client_id != clients[j].client_id);
    } else if j < i {
        assert(clients[j].client_id != clients[i].client_id);
    }
}

/// Removing one row keeps the transport identities unique.
proof fn lemma_remove_client_unique(clients: Seq<ClientLink>, client_id: u64)
    requires
        clients_unique(clients),
        has_client(clients, client_id),
    ensures
        clients_unique(remove_client(clients, client_id)),
{
    let k = client_slot(clients, client_id);
    assert(0 <= k < clients.len() && clients[k].client_id == client_id);
    let r = clients.remove(k);
    assert forall|i: int, j: int| 0 <= i < j < r.len() implies r[i].client_id
        != r[j].client_id by {
        let i0 = if i < k {
            i
        } else {
            i + 1
        };
        let j0 = if j < k {
            j
        } else {
            j + 1
        };
        assert(r[i] == clients[i0]);
        assert(r[j] == clients[j0]);
        assert(clients[i0].client_id != clients[j0].client_id);
    }
}

impl SessionServer {
    /// A fresh loop state around a fresh session.
    pub fn new(player_limit: u8, level: usize, goal: Position) -> (s: SessionServer)
        ensures
            s@.game.players.len() == 0,
            s@.game.stage == Stage::Lobby,
            s@.game.player_limit == player_limit,
            s@.game.level == level,
            s@.game.goal == goal,
            s@.clients.len() == 0,
            wf_server(s@),
    {
        let s = SessionServer {
            game: GameState::new(player_limit, level, goal),
            clients: Vec::new(),
        };
        s
    }

    /// The slot of the row carrying `client_id`, scanning from the front.
    fn find_client(&self, client_id: u64) -> (r: Option<usize>)
        ensures
            match r {
                Some(i) => 0 <= i < self@.clients.len() && self@.clients[i as int].client_id
                    == client_id,
                None => !has_client(self@.clients, client_id),
            },
    {
        let n = self.clients.len();
        let mut i: usize = 0;
        while i < n
            invariant
                n == self@.clients.len(),
                i <= n,
                forall|j: int| 0 <= j < i ==> (#[trigger] self@.clients[j].client_id) != client_id,
            decreases n - i,
        {
            if self.clients[i].client_id == client_id {
                return Some(i);
            }
            i += 1;
        }
        None
    }

    /// Decides a transport connect notification.
    ///
    /// A connect while the lobby is open and below capacity allocates the
    /// lowest free player id, applies the join, announces it to everyone
    /// else, tells the new peer its id and where to spawn, and — when the
    /// lobby just filled — announces the begin of play to everyone, exactly
    /// once. Any other connect is answered with `AccessForbidden` alone and
    /// changes nothing.
    pub fn on_client_connected(&mut self, client_id: u64, name: &Vec<u8>) -> (actions: Vec<
        ServerAction,
    >)
        requires
            wf_server(old(self)@),
            !has_client(old(self)@.clients, client_id),
        ensures
            wf_server(final(self)@),
            ({
                let s = old(self)@;
                if join_refused(s.game) {
                    &&& final(self)@.game == s.game
                    &&& final(self)@.clients == s.clients
                    &&& view_actions(actions@) == seq![
                        (ActionView::Send { client_id, event: EventView::AccessForbidden }),
                    ]
                } else {
                    let pid = lowest_free_id(s.game.players, s.game.player_limit);
                    let ev = join_event(s.game, client_id, name@);
                    let g2 = step(s.game, ev);
                    &&& valid(s.game, ev)
                    &&& final(self)@.game == g2
                    &&& final(self)@.clients == s.clients.push(
                        (ClientLink { client_id, player_id: pid }),
                    )
                    &&& view_actions(actions@) == (if g2.stage == Stage::InGame {
                        seq![
                            (ActionView::BroadcastExcept { client_id, event: ev }),
                            (ActionView::Send {
                                client_id,
                                event: (EventView::SetId { player_id: pid }),
                            }),
                            (ActionView::Send {
                                client_id,
                                event: (EventView::Spawn {
                                    player_id: pid,
                                    position: initial_position(),
                                    lvl: s.game.level,
                                }),
                            }),
                            (ActionView::Broadcast {
                                event: (EventView::BeginGame { player_list: g2.players }),
                            }),
                        ]
                    } else {
                        seq![
                            (ActionView::BroadcastExcept { client_id, event: ev }),
                            (ActionView::Send {
                                client_id,
                                event: (EventView::SetId { player_id: pid }),
                            }),
                            (ActionView::Send {
                                client_id,
                                event: (EventView::Spawn {
                                    player_id: pid,
                                    position: initial_position(),
                                    lvl: s.game.level,
                                }),
                            }),
                        ]
                    })
                }
            }),
    {
        let mut actions: Vec<ServerAction> = Vec::new();
        if !(self.game.stage == Stage::Lobby && self.game.players.len() < self.game.player_limit
            as usize) {
            actions.push(ServerAction::Send { client_id, event: GameEvent::AccessForbidden });
            proof {
                assert(view_actions(actions@) =~~= seq![
                    (ActionView::Send { client_id, event: EventView::AccessForbidden }),
                ]);
            }
            return actions;
        }
        let pid = self.game.generate_id();
        proof {
            lemma_lowest_free_id(self@.game.players, self@.game.player_limit, pid);
            assert(((0u32 >> 23) & 0xff) != 0xff) by (bit_vector);
        }
        let pos = Position { x: 0, y: 0, z: 0 };
        let level = self.game.level;
        let ev = GameEvent::PlayerJoined {
            player_id: pid,
            name: clone_bytes(name),
            position: pos,
            client_id,
        };
        proof {
            assert(ev@ == join_event(old(self)@.game, client_id, name@));
            assert(valid(old(self)@.game, ev@));
        }
        self.game.consume(&ev);
        self.clients.push(ClientLink { client_id, player_id: pid });
        proof {
            assert forall|i: int|
                0 <= i < old(self)@.clients.len() implies (#[trigger] old(
                self,
            )@.clients[i].client_id) != client_id by {
                assert(!has_client(old(self)@.clients, client_id));
            }
            assert(clients_unique(self@.clients));
        }
        actions.push(ServerAction::BroadcastExcept { client_id, event: ev });
        actions.push(ServerAction::Send { client_id, event: GameEvent::SetId { player_id: pid } });
        actions.push(
            ServerAction::Send {
                client_id,
                event: GameEvent::Spawn { player_id: pid, position: pos, lvl: level },
            },
        );
        if self.game.stage == Stage::InGame {
            let roster = clone_players(&self.game.players);
            actions.push(
                ServerAction::Broadcast { event: GameEvent::BeginGame { player_list: roster } },
            );
            proof {
                let s = old(self)@;
                let evv = join_event(s.game, client_id, name@);
                let g2 = step(s.game, evv);
                assert(view_actions(actions@) =~~= seq![
                    (ActionView::BroadcastExcept { client_id, event: evv }),
                    (ActionView::Send { client_id, event: (EventView::SetId { player_id: pid }) }),
                    (ActionView::Send {
                        client_id,
                        event: (EventView::Spawn {
                            player_id: pid,
                            position: initial_position(),
                            lvl: s.game.level,
                        }),
                    }),
                    (ActionView::Broadcast {
                        event: (EventView::BeginGame { player_list: g2.players }),
                    }),
                ]);
            }
        } else {
            proof {
                let s = old(self)@;
                let evv = join_event(s.game, client_id, name@);
                assert(view_actions(actions@) =~~= seq![
                    (ActionView::BroadcastExcept { client_id, event: evv }),
                    (ActionView::Send { client_id, event: (EventView::SetId { player_id: pid }) }),
                    (ActionView::Send {
                        client_id,
                        event: (EventView::Spawn {
                            player_id: pid,
                            position: initial_position(),
                            lvl: s.game.level,
                        }),
                    }),
                ]);
            }
        }
        actions
    }

    /// Decides a transport disconnect notification.
    ///
    /// A disconnect of a known peer removes its row, and — when the player
    /// it mapped to still exists and the stage admits a removal — applies
    /// the removal fact and announces it; should that end a running game,
    /// the end of play is announced too, exactly once. A disconnect of an
    /// unknown peer, or one whose player is already gone, is a no-op.
    pub fn on_client_disconnected(&mut self, client_id: u64) -> (actions: Vec<ServerAction>)
        requires
            wf_server(old(self)@),
        ensures
            wf_server(final(self)@),
            final(self)@.clients == remove_client(old(self)@.clients, client_id),
            ({
                let s = old(self)@;
                if has_client(s.clients, client_id) {
                    let pid = s.clients[client_slot(s.clients, client_id)].player_id;
                    let ev = EventView::PlayerDisconnected { player_id: pid };
                    if valid(s.game, ev) {
                        let g2 = step(s.game, ev);
                        &&& final(self)@.game == g2
                        &&& view_actions(actions@) == (if s.game.stage == Stage::InGame
                            && g2.stage == Stage::Ended {
                            seq![
                                (ActionView::Broadcast { event: ev }),
                                (ActionView::Broadcast { event: EventView::EndGame }),
                            ]
                        } else {
                            seq![(ActionView::Broadcast { event: ev })]
                        })
                    } else {
                        &&& final(self)@.game == s.game
                        &&& view_actions(actions@) == Seq::<ActionView>::empty()
                    }
                } else {
                    &&& final(self)@.game == s.game
                    &&& view_actions(actions@) == Seq::<ActionView>::empty()
                }
            }),
    {
        let mut actions: Vec<ServerAction> = Vec::new();
        proof {
            assert(view_actions(actions@) =~~= Seq::<ActionView>::empty());
        }
        match self.find_client(client_id) {
            None => actions,
            Some(i) => {
                proof {
                    lemma_client_slot_of_match(self@.clients, client_id, i as int);
                    lemma_remove_client_unique(self@.clients, client_id);
                }
                let pid = self.clients[i].player_id;
                self.clients.remove(i);
                let ev = GameEvent::PlayerDisconnected { player_id: pid };
                if self.game.validate(&ev) {
                    let was_in_game = self.game.stage == Stage::InGame;
                    self.game.consume(&ev);
                    actions.push(ServerAction::Broadcast { event: ev });
                    if was_in_game && self.game.stage == Stage::Ended {
                        actions.push(ServerAction::Broadcast { event: GameEvent::EndGame });
                        proof {
                            let evv = EventView::PlayerDisconnected { player_id: pid };
                            assert(view_actions(actions@) =~~= seq![
                                (ActionView::Broadcast { event: evv }),
                                (ActionView::Broadcast { event: EventView::EndGame }),
                            ]);
                        }
                    } else {
                        proof {
                            let evv = EventView::PlayerDisconnected { player_id: pid };
                            assert(view_actions(actions@) =~~= seq![
                                (ActionView::Broadcast { event: evv }),
                            ]);
                        }
                    }
                }
                actions
            },
        }
    }

    /// Decides one application message received from a peer.
    ///
    /// The bytes must decode to exactly one event; the sender must own that
    /// event ([`owns_event`]); the state machine must accept it. Then it is
    /// applied and rebroadcast to everyone but its origin, and — should the
    /// game now have a winner — the end of play is applied and announced to
    /// everyone, exactly once. Any failure along that chain drops the
    /// message without any action or state change: the sender is never
    /// disconnected for an invalid message.
    pub fn on_client_message(&mut self, client_id: u64, bytes: &Vec<u8>) -> (actions: Vec<
        ServerAction,
    >)
        requires
            wf_server(old(self)@),
        ensures
            wf_server(final(self)@),
            final(self)@.clients == old(self)@.clients,
            ({
                let s = old(self)@;
                match spec_decode(bytes@) {
                    None => final(self)@.game == s.game && view_actions(actions@) == Seq::<
                        ActionView,
                    >::empty(),
                    Some(ev) => if owns_event(s.clients, client_id, ev) && valid(s.game, ev) {
                        let g2 = step(s.game, ev);
                        if winner(g2) is Some {
                            &&& final(self)@.game == step(g2, EventView::EndGame)
                            &&& view_actions(actions@) == seq![
                                (ActionView::BroadcastExcept { client_id, event: ev }),
                                (ActionView::Broadcast { event: EventView::EndGame }),
                            ]
                        } else {
                            &&& final(self)@.game == g2
                            &&& view_actions(actions@) == seq![
                                (ActionView::BroadcastExcept { client_id, event: ev }),
                            ]
                        }
                    } else {
                        final(self)@.game == s.game && view_actions(actions@) == Seq::<
                            ActionView,
                        >::empty()
                    },
                }
            }),
    {
        let mut actions: Vec<ServerAction> = Vec::new();
        proof {
            assert(view_actions(actions@) =~~= Seq::<ActionView>::empty());
        }
        match decode_event(bytes) {
            None => actions,
            Some(ev) => {
                let owns: bool = match &ev {
                    GameEvent::PlayerMove { player_id, at, player_list, vision } => {
                        match self.find_client(client_id) {
                            Some(i) => {
                                proof {
                                    lemma_client_slot_of_match(
                                        self@.clients,
                                        client_id,
                                        i as int,
                                    );
                                }
                                self.clients[i].player_id == *player_id
                            },
                            None => false,
                        }
                    },
                    _ => false,
                };
                proof {
                    assert(owns == owns_event(old(self)@.clients, client_id, ev@));
                }
                if owns && self.game.validate(&ev) {
                    self.game.consume(&ev);
                    actions.push(ServerAction::BroadcastExcept { client_id, event: ev });
                    match self.game.determine_winner() {
                        Some(w) => {
                            let end = GameEvent::EndGame;
                            self.game.consume(&end);
                            actions.push(ServerAction::Broadcast { event: end });
                            proof {
                                let s = old(self)@;
                                let evv = spec_decode(bytes@).unwrap();
                                assert(view_actions(actions@) =~~= seq![
                                    (ActionView::BroadcastExcept { client_id, event: evv }),
                                    (ActionView::Broadcast { event: EventView::EndGame }),
                                ]);
                            }
                        },
                        None => {
                            proof {
                                let evv = spec_decode(bytes@).unwrap();
                                assert(view_actions(actions@) =~~= seq![
                                    (ActionView::BroadcastExcept { client_id, event: evv }),
                                ]);
                            }
                        },
                    }
                    actions
                } else {
                    actions
                }
            },
        }
    }
}

} // verus!
