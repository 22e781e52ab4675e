//! The authoritative state machine: the server-held truth about the session
//! and the rules that turn untrusted events into accepted transitions.
//!
//! Everything a caller may rely on is stated over the mathematical image of
//! the state ([`StateView`]): [`valid`] says which events are accepted,
//! [`step`] what an accepted event does, and the lemmas at the bottom prove
//! the session-wide invariants of those two functions.

use vstd::prelude::*;
use vstd::set_lib::{lemma_len_subset, lemma_int_range, set_int_range};
use crate::event::{
    EventView, GameEvent, Player, PlayerView, Position, clone_bytes, position_finite,
    view_players, vision_finite,
};

verus! {

/// The coarse lifecycle phase of a session.
#[derive(Debug, Clone, Copy, PartialEq, Eq, Structural)]
pub enum Stage {
    /// Accepting joins; play has not started.
    Lobby,
    /// Active play; movement and impact events are accepted.
    InGame,
    /// Terminal; only observable, no further mutating event is accepted.
    Ended,
}

/// `b` is reachable from `a` moving only forward through the lifecycle.
pub open spec fn stage_le(a: Stage, b: Stage) -> bool {
    match a {
        Stage::Lobby => true,
        Stage::InGame => b == Stage::InGame || b == Stage::Ended,
        Stage::Ended => b == Stage::Ended,
    }
}

/// Mathematical image of a [`GameState`].
pub struct StateView {
    pub players: Seq<PlayerView>,
    pub stage: Stage,
    pub player_limit: u8,
    pub level: usize,
    pub goal: Position,
}

/// Some player in `players` carries the id `id`.
pub open spec fn has_id(players: Seq<PlayerView>, id: u8) -> bool {
    exists|i: int| 0 <= i < players.len() && players[i].player_id == id
}

/// The position of the player carrying `id`; meaningful under [`has_id`] and
/// unique under [`ids_unique`].
pub open spec fn id_slot(players: Seq<PlayerView>, id: u8) -> int {
    choose|i: int| 0 <= i < players.len() && players[i].player_id == id
}

/// No two players carry the same id.
pub open spec fn ids_unique(players: Seq<PlayerView>) -> bool {
    forall|i: int, j: int|
        0 <= i < j < players.len() ==> players[i].player_id != players[j].player_id
}

/// Well-formedness of a state: ids are unique, drawn from
/// `[0, player_limit)`, and the roster never exceeds the limit.
pub open spec fn wf(s: StateView) -> bool {
    &&& ids_unique(s.players)
    &&& forall|i: int| 0 <= i < s.players.len() ==> (#[trigger] s.players[i].player_id)
        < s.player_limit
    &&& s.players.len() <= s.player_limit
}

/// Which events the state machine accepts in state `s`.
///
/// An event is accepted only when the player it refers to exists (a join
/// creates the entry instead), the current stage permits its kind, and its
/// payload is sane: coordinates finite, a countdown positive. The variants
/// that never mutate state and are only ever server-authored unicasts
/// (`AccessForbidden`, `SetId`) are never accepted as requests.
pub open spec fn valid(s: StateView, e: EventView) -> bool {
    match e {
        EventView::BeginGame { player_list } => s.stage == Stage::Lobby && s.players.len()
            == s.player_limit,
        EventView::EndGame => s.stage != Stage::Ended,
        EventView::AccessForbidden => false,
        EventView::Impact { id } => s.stage == Stage::InGame && has_id(s.players, id),
        EventView::Death { player_id } => s.stage == Stage::InGame && has_id(s.players, player_id),
        EventView::PlayerJoined { player_id, name, position, client_id } => {
            &&& s.stage == Stage::Lobby
            &&& s.players.len() < s.player_limit
            &&& player_id < s.player_limit
            &&& !has_id(s.players, player_id)
            &&& position_finite(position)
        },
        EventView::PlayerDisconnected { player_id } => s.stage != Stage::Ended && has_id(
            s.players,
            player_id,
        ),
        EventView::PlayerMove { player_id, at, player_list, vision } => {
            &&& s.stage == Stage::InGame
            &&& has_id(s.players, player_id)
            &&& position_finite(at)
            &&& vision_finite(vision)
        },
        EventView::Spawn { player_id, position, lvl } => {
            &&& s.stage != Stage::Ended
            &&& has_id(s.players, player_id)
            &&& position_finite(position)
        },
        EventView::Timer { duration } => s.stage == Stage::InGame && duration > 0,
        EventView::SetId { player_id } => false,
    }
}

/// `players` with the player carrying `id` removed (unchanged when absent).
pub open spec fn remove_id(players: Seq<PlayerView>, id: u8) -> Seq<PlayerView> {
    if has_id(players, id) {
        players.remove(id_slot(players, id))
    } else {
        players
    }
}

/// `players` with the position of the player carrying `id` replaced
/// (unchanged when absent).
pub open spec fn set_position(players: Seq<PlayerView>, id: u8, at: Position) -> Seq<PlayerView> {
    if has_id(players, id) {
        let i = id_slot(players, id);
        players.update(i, PlayerView { position: at, ..players[i] })
    } else {
        players
    }
}

/// What consuming an accepted event does to the state.
///
/// A join inserts the record and, once the lobby is full, starts play; a
/// disconnect removes the record and ends a running game whose population
/// drops to one or fewer; a death eliminates the record; a move or a spawn
/// replaces the player's position; the phase facts switch the stage. No
/// other field changes.
pub open spec fn step(s: StateView, e: EventView) -> StateView {
    match e {
        EventView::BeginGame { player_list } => (StateView { stage: Stage::InGame, ..s }),
        EventView::EndGame => (StateView { stage: Stage::Ended, ..s }),
        EventView::AccessForbidden => s,
        EventView::Impact { id } => s,
        EventView::Death { player_id } => (StateView {
            players: remove_id(s.players, player_id),
            ..s
        }),
        EventView::PlayerJoined { player_id, name, position, client_id } => {
            let players = s.players.push(PlayerView { player_id, name, position });
            let stage = if s.stage == Stage::Lobby && players.len() == s.player_limit {
                Stage::InGame
            } else {
                s.stage
            };
            StateView { players, stage, ..s }
        },
        EventView::PlayerDisconnected { player_id } => {
            let players = remove_id(s.players, player_id);
            let stage = if s.stage == Stage::InGame && players.len() <= 1 {
                Stage::Ended
            } else {
                s.stage
            };
            StateView { players, stage, ..s }
        },
        EventView::PlayerMove { player_id, at, player_list, vision } => (StateView {
            players: set_position(s.players, player_id, at),
            ..s
        }),
        EventView::Spawn { player_id, position, lvl } => (StateView {
            players: set_position(s.players, player_id, position),
            ..s
        }),
        EventView::Timer { duration } => s,
        EventView::SetId { player_id } => s,
    }
}

/// One attempt: the state moves by `step` when `e` is accepted and stays
/// put when it is rejected.
pub open spec fn step_checked(s: StateView, e: EventView) -> StateView {
    if valid(s, e) {
        step(s, e)
    } else {
        s
    }
}

/// The state after attempting a whole sequence of events in order.
pub open spec fn run(s: StateView, es: Seq<EventView>) -> StateView
    decreases es.len(),
{
    if es.len() == 0 {
        s
    } else {
        run(step_checked(s, es[0]), es.drop_first())
    }
}

/// The first player, in roster order, standing on the goal.
pub open spec fn first_at_goal(players: Seq<PlayerView>, goal: Position) -> Option<u8>
    decreases players.len(),
{
    if players.len() == 0 {
        None
    } else if players[0].position == goal {
        Some(players[0].player_id)
    } else {
        first_at_goal(players.drop_first(), goal)
    }
}

/// The winner once one is determined. The win condition of this design is
/// deterministic and evaluated identically on every tick: during a running
/// game, the first player in roster order whose accepted position is the
/// maze's goal; `None` otherwise and in every other stage.
pub open spec fn winner(s: StateView) -> Option<u8> {
    if s.stage == Stage::InGame {
        first_at_goal(s.players, s.goal)
    } else {
        None
    }
}

/// The authoritative aggregate root: the roster, the lifecycle stage, the
/// capacity the session was created with, and the per-maze data the win
/// condition reads — the level and the goal position.
#[derive(Debug, Clone, PartialEq)]
pub struct GameState {
    pub players: Vec<Player>,
    pub stage: Stage,
    pub player_limit: u8,
    pub level: usize,
    pub goal: Position,
}

impl View for GameState {
    type V = StateView;

    open spec fn view(&self) -> StateView {
        StateView {
            players: view_players(self.players@),
            stage: self.stage,
            player_limit: self.player_limit,
            level: self.level,
            goal: self.goal,
        }
    }
}

impl GameState {
    /// A fresh session: empty roster, `Stage::Lobby`, the given capacity
    /// and maze data.
    pub fn new(player_limit: u8, level: usize, goal: Position) -> (s: GameState)
        ensures
            s@.players.len() == 0,
            s@.stage == Stage::Lobby,
            s@.player_limit == player_limit,
            s@.level == level,
            s@.goal == goal,
            wf(s@),
    {
        let s = GameState { players: Vec::new(), stage: Stage::Lobby, player_limit, level, goal };
        proof {
            assert(s@.players =~= Seq::<PlayerView>::empty());
        }
        s
    }

    /// The index of the player carrying `id`, scanning from the front.
    fn find_player(&self, id: u8) -> (r: Option<usize>)
        ensures
            match r {
                Some(i) => 0 <= i < self@.players.len() && self@.players[i as int].player_id == id,
                None => !has_id(self@.players, id),
            },
    {
        let n = self.players.len();
        let mut i: usize = 0;
        while i < n
            invariant
                n == self@.players.len(),
                i <= n,
                forall|j: int| 0 <= j < i ==> (#[trigger] self@.players[j].player_id) != id,
            decreases n - i,
        {
            if self.players[i].player_id == id {
                return Some(i);
            }
            i += 1;
        }
        None
    }

    /// Pure acceptance predicate; reads the state, never changes it, and
    /// never fails: a violation merely returns `false`.
    pub fn validate(&self, e: &GameEvent) -> (r: bool)
        ensures
            r == valid(self@, e@),
    {
        match e {
            GameEvent::BeginGame { player_list } => {
                self.stage == Stage::Lobby && self.players.len() == self.player_limit as usize
            },
            GameEvent::EndGame => self.stage != Stage::Ended,
            GameEvent::AccessForbidden => false,
            GameEvent::Impact { id } => {
                self.stage == Stage::InGame && self.find_player(*id).is_some()
            },
            GameEvent::Death { player_id } => {
                self.stage == Stage::InGame && self.find_player(*player_id).is_some()
            },
            GameEvent::PlayerJoined { player_id, name, position, client_id } => {
                self.stage == Stage::Lobby && self.players.len() < self.player_limit as usize
                    && *player_id < self.player_limit && self.find_player(*player_id).is_none()
                    && position.is_finite()
            },
            GameEvent::PlayerDisconnected { player_id } => {
                self.stage != Stage::Ended && self.find_player(*player_id).is_some()
            },
            GameEvent::PlayerMove { player_id, at, player_list, vision } => {
                self.stage == Stage::InGame && self.find_player(*player_id).is_some()
                    && at.is_finite() && vision.is_finite()
            },
            GameEvent::Spawn { player_id, position, lvl } => {
                self.stage != Stage::Ended && self.find_player(*player_id).is_some()
                    && position.is_finite()
            },
            GameEvent::Timer { duration } => self.stage == Stage::InGame && *duration > 0,
            GameEvent::SetId { player_id } => false,
        }
    }

    /// Removes the player carrying `id` from the roster.
    fn remove_player(&mut self, id: u8)
        requires
            ids_unique(old(self)@.players),
            has_id(old(self)@.players, id),
        ensures
            final(self)@.players == remove_id(old(self)@.players, id),
            final(self).stage == old(self).stage,
            final(self).player_limit == old(self).player_limit,
            final(self).level == old(self).level,
            final(self).goal == old(self).goal,
    {
        match self.find_player(id) {
            Some(i) => {
                self.players.remove(i);
                proof {
                    let s = old(self)@.players;
                    lemma_slot_of_match(s, id, i as int);
                    assert(self@.players =~= s.remove(i as int));
                }
            },
            None => {
                proof {
                    assert(false);
                }
            },
        }
    }

    /// Replaces the position of the player carrying `id`.
    fn set_player_position(&mut self, id: u8, at: Position)
        requires
            ids_unique(old(self)@.players),
            has_id(old(self)@.players, id),
        ensures
            final(self)@.players == set_position(old(self)@.players, id, at),
            final(self).stage == old(self).stage,
            final(self).player_limit == old(self).player_limit,
            final(self).level == old(self).level,
            final(self).goal == old(self).goal,
    {
        match self.find_player(id) {
            Some(i) => {
                self.players[i].position = at;
                proof {
                    let s = old(self)@.players;
                    lemma_slot_of_match(s, id, i as int);
                    assert(self@.players =~= s.update(
                        i as int,
                        PlayerView { position: at, ..s[i as int] },
                    ));
                }
            },
            None => {
                proof {
                    assert(false);
                }
            },
        }
    }

    /// Applies a previously validated event; see [`step`] for exactly what
    /// each variant does. The caller guarantees single application, so no
    /// event is consumed twice.
    pub fn consume(&mut self, e: &GameEvent)
        requires
            wf(old(self)@),
            valid(old(self)@, e@),
        ensures
            final(self)@ == step(old(self)@, e@),
            wf(final(self)@),
    {
        proof {
            lemma_step_preserves_wf(old(self)@, e@);
        }
        match e {
            GameEvent::BeginGame { player_list } => {
                self.stage = Stage::InGame;
            },
            GameEvent::EndGame => {
                self.stage = Stage::Ended;
            },
            GameEvent::AccessForbidden => {},
            GameEvent::Impact { id } => {},
            GameEvent::Death { player_id } => {
                self.remove_player(*player_id);
            },
            GameEvent::PlayerJoined { player_id, name, position, client_id } => {
                let name_copy = clone_bytes(name);
                self.players.push(
                    Player { player_id: *player_id, name: name_copy, position: *position },
                );
                proof {
                    assert(self@.players =~= old(self)@.players.push(
                        PlayerView { player_id: *player_id, name: name@, position: *position },
                    ));
                }
                if self.stage == Stage::Lobby && self.players.len() == self.player_limit as usize {
                    self.stage = Stage::InGame;
                }
            },
            GameEvent::PlayerDisconnected { player_id } => {
                self.remove_player(*player_id);
                if self.stage == Stage::InGame && self.players.len() <= 1 {
                    self.stage = Stage::Ended;
                }
            },
            GameEvent::PlayerMove { player_id, at, player_list, vision } => {
                self.set_player_position(*player_id, *at);
            },
            GameEvent::Spawn { player_id, position, lvl } => {
                self.set_player_position(*player_id, *position);
            },
            GameEvent::Timer { duration } => {},
            GameEvent::SetId { player_id } => {},
        }
    }

    /// Allocates the lowest player id not currently in use. The caller must
    /// first check that the roster is below the session's capacity.
    pub fn generate_id(&self) -> (id: u8)
        requires
            wf(self@),
            self@.players.len() < self@.player_limit,
        ensures
            id < self@.player_limit,
            !has_id(self@.players, id),
            forall|j: u8| j < id ==> has_id(self@.players, j),
    {
        let mut cand: u8 = 0;
        while cand < self.player_limit
            invariant
                self@.players.len() < self@.player_limit,
                cand <= self.player_limit,
                self.player_limit == self@.player_limit,
                forall|j: u8| j < cand ==> has_id(self@.players, j),
            decreases self.player_limit - cand,
        {
            match self.find_player(cand) {
                None => {
                    return cand;
                },
                Some(i) => {
                    proof {
                        assert(has_id(self@.players, cand));
                    }
                },
            }
            cand += 1;
        }
        proof {
            lemma_free_id_exists(self@.players, self@.player_limit);
            let free: u8 = choose|id: u8| id < self@.player_limit && !has_id(self@.players, id);
            assert(has_id(self@.players, free));
        }
        0
    }

    /// Pure winner query, as [`winner`] states: the first player in roster
    /// order standing on the goal of a running game. Evaluated by the loop
    /// after every accepted event.
    pub fn determine_winner(&self) -> (r: Option<u8>)
        ensures
            r == winner(self@),
    {
        if !(self.stage == Stage::InGame) {
            return None;
        }
        let n = self.players.len();
        let mut i: usize = 0;
        proof {
            assert(self@.players.skip(0) =~= self@.players);
        }
        while i < n
            invariant
                self@.stage == Stage::InGame,
                n == self@.players.len(),
                i <= n,
                first_at_goal(self@.players, self@.goal) == first_at_goal(
                    self@.players.skip(i as int),
                    self@.goal,
                ),
            decreases n - i,
        {
            proof {
                assert(self@.players.skip(i as int)[0] == self@.players[i as int]);
                assert(self@.players.skip(i as int).drop_first() =~= self@.players.skip(
                    i as int + 1,
                ));
            }
            if self.players[i].position == self.goal {
                return Some(self.players[i].player_id);
            }
            i += 1;
        }
        proof {
            assert(self@.players.skip(n as int) =~= Seq::<PlayerView>::empty());
        }
        None
    }
}

/// `id` is the lowest free player id: unused, within the address space,
/// and every id below it is in use.
pub open spec fn is_lowest_free(players: Seq<PlayerView>, limit: u8, id: u8) -> bool {
    &&& id < limit
    &&& !has_id(players, id)
    &&& forall|j: u8| j < id ==> has_id(players, j)
}

/// The lowest free player id; meaningful whenever one exists, and then
/// unique by [`lemma_lowest_free_id`].
pub open spec fn lowest_free_id(players: Seq<PlayerView>, limit: u8) -> u8 {
    choose|id: u8| is_lowest_free(players, limit, id)
}

/// Any id that satisfies [`is_lowest_free`] is the one [`lowest_free_id`]
/// names.
pub proof fn lemma_lowest_free_id(players: Seq<PlayerView>, limit: u8, id: u8)
    requires
        is_lowest_free(players, limit, id),
    ensures
        lowest_free_id(players, limit) == id,
{
    let w = lowest_free_id(players, limit);
    assert(is_lowest_free(players, limit, w));
    if w < id {
        assert(has_id(players, w));
    } else if id < w {
        assert(has_id(players, id));
    }
}

/// Under unique ids, the slot chosen by [`id_slot`] is the one and only
/// index whose player carries `id`.
proof fn lemma_slot_of_match(players: Seq<PlayerView>, id: u8, i: int)
    requires
        ids_unique(players),
        0 <= i < players.len(),
        players[i].player_id == id,
    ensures
        has_id(players, id),
        id_slot(players, id) == i,
{
    assert(has_id(players, id));
    let j = id_slot(players, id);
    assert(0 <= j < players.len() && players[j].player_id == id);
    if i < j {
        assert(players[i].player_id != players[j].player_id);
    } else if j < i {
        assert(players[j].player_id != players[i].player_id);
    }
}

/// Pigeonhole: a roster of unique ids below `limit` that is itself below
/// `limit` in size leaves some id in `[0, limit)` free.
proof fn lemma_free_id_exists(players: Seq<PlayerView>, limit: u8)
    requires
        ids_unique(players),
        forall|i: int|
            0 <= i < players.len() ==> (#[trigger] players[i].player_id) < limit,
        players.len() < limit,
    ensures
        exists|id: u8| id < limit && !has_id(players, id),
{
    broadcast use vstd::seq_lib::seq_to_set_is_finite;
    broadcast use vstd::set::group_set_axioms;

    if !(exists|id: u8| id < limit && !has_id(players, id)) {
        assert forall|j: u8| j < limit implies has_id(players, j) by {
            assert(!(j < limit && !has_id(players, j)));
        }
        let ids = players.map_values(|p: PlayerView| p.player_id as int);
        assert forall|i: int, j: int|
            0 <= i < ids.len() && 0 <= j < ids.len() && i != j implies ids[i] != ids[j] by {
            if i < j {
                assert(players[i].player_id != players[j].player_id);
            } else {
                assert(players[j].player_id != players[i].player_id);
            }
        }
        assert(ids.no_duplicates());
        ids.unique_seq_to_set();
        let range = set_int_range(0, limit as int);
        lemma_int_range(0, limit as int);
        assert forall|x: int| range.contains(x) implies ids.to_set().contains(x) by {
            let id = x as u8;
            assert(has_id(players, id));
            let i = choose|i: int| 0 <= i < players.len() && players[i].player_id == id;
            assert(ids[i] == x);
            assert(ids.contains(x));
        }
        lemma_len_subset(range, ids.to_set());
        assert(limit <= players.len());
    }
}

/// Consuming an accepted event keeps the state well formed; in particular
/// the roster never outgrows the session's capacity, and the capacity and
/// level never change.
pub proof fn lemma_step_preserves_wf(s: StateView, e: EventView)
    requires
        wf(s),
        valid(s, e),
    ensures
        wf(step(s, e)),
        step(s, e).players.len() <= s.player_limit,
        step(s, e).player_limit == s.player_limit,
        step(s, e).level == s.level,
{
    match e {
        EventView::Death { player_id } => {
            lemma_remove_id_wf(s.players, player_id);
        },
        EventView::PlayerDisconnected { player_id } => {
            lemma_remove_id_wf(s.players, player_id);
        },
        EventView::PlayerMove { player_id, at, player_list, vision } => {
            lemma_set_position_wf(s.players, player_id, at, s.player_limit);
        },
        EventView::Spawn { player_id, position, lvl } => {
            lemma_set_position_wf(s.players, player_id, position, s.player_limit);
        },
        _ => {},
    }
}

/// Removing one player keeps ids unique, keeps every id below any bound the
/// roster respected, and shrinks the roster by one when the id was present.
proof fn lemma_remove_id_wf(players: Seq<PlayerView>, id: u8)
    requires
        ids_unique(players),
        has_id(players, id),
    ensures
        ids_unique(remove_id(players, id)),
        remove_id(players, id).len() == players.len() - 1,
        forall|i: int|
            0 <= i < remove_id(players, id).len() ==> exists|j: int|
                0 <= j < players.len() && #[trigger] remove_id(players, id)[i] == players[j],
{
    let k = id_slot(players, id);
    assert(0 <= k < players.len() && players[k].player_id == id);
    let r = players.remove(k);
    assert forall|i: int| 0 <= i < r.len() implies exists|j: int|
        0 <= j < players.len() && #[trigger] r[i] == players[j] by {
        if i < k {
            assert(r[i] == players[i]);
        } else {
            assert(r[i] == players[i + 1]);
        }
    }
    assert forall|i: int, j: int| 0 <= i < j < r.len() implies r[i].player_id
        != r[j].player_id by {
        let i0 = if i < k { i } else { i + 1 };
        let j0 = if j < k { j } else { j + 1 };
        assert(r[i] == players[i0]);
        assert(r[j] == players[j0]);
        assert(players[i0].player_id != players[j0].player_id);
    }
}

/// Over every sequence of attempted events, a well-formed state stays well
/// formed: the roster never outgrows the capacity the session was created
/// with (its length is a `nat`, so it can never go below zero either), and
/// the capacity itself never moves.
pub proof fn lemma_run_player_count_bounded(s: StateView, es: Seq<EventView>)
    requires
        wf(s),
    ensures
        wf(run(s, es)),
        run(s, es).players.len() <= run(s, es).player_limit,
        run(s, es).player_limit == s.player_limit,
    decreases es.len(),
{
    if es.len() > 0 {
        let s1 = step_checked(s, es[0]);
        if valid(s, es[0]) {
            lemma_step_preserves_wf(s, es[0]);
        }
        lemma_run_player_count_bounded(s1, es.drop_first());
    }
}

/// An event that `valid` rejects, and which is therefore never consumed,
/// leaves the state exactly as it was before the attempt.
pub proof fn lemma_rejected_event_is_noop(s: StateView, e: EventView)
    requires
        !valid(s, e),
    ensures
        step_checked(s, e) == s,
{
}

/// One attempt never moves the stage backward through the lifecycle.
pub proof fn lemma_stage_monotone(s: StateView, e: EventView)
    ensures
        stage_le(s.stage, step_checked(s, e).stage),
{
}

/// No sequence of attempts moves the stage backward: every observed stage
/// history is a forward walk `Lobby`, then possibly `InGame`, then possibly
/// `Ended`.
pub proof fn lemma_run_stage_monotone(s: StateView, es: Seq<EventView>)
    ensures
        stage_le(s.stage, run(s, es).stage),
    decreases es.len(),
{
    if es.len() > 0 {
        lemma_stage_monotone(s, es[0]);
        lemma_run_stage_monotone(step_checked(s, es[0]), es.drop_first());
    }
}

/// `Ended` is terminal: once there, every event is rejected and no attempt
/// moves the state at all.
pub proof fn lemma_ended_is_terminal(s: StateView, e: EventView)
    requires
        s.stage == Stage::Ended,
    ensures
        !valid(s, e),
        step_checked(s, e) == s,
{
}

/// Replacing one player's position changes no id: uniqueness and every
/// bound on the ids survive, and the length does not move.
proof fn lemma_set_position_wf(players: Seq<PlayerView>, id: u8, at: Position, limit: u8)
    requires
        ids_unique(players),
        forall|i: int|
            0 <= i < players.len() ==> (#[trigger] players[i].player_id) < limit,
    ensures
        ids_unique(set_position(players, id, at)),
        set_position(players, id, at).len() == players.len(),
        forall|i: int|
            0 <= i < set_position(players, id, at).len() ==> (#[trigger] set_position(
                players,
                id,
                at,
            )[i].player_id) < limit,
{
    if has_id(players, id) {
        let k = id_slot(players, id);
        let r = set_position(players, id, at);
        assert forall|i: int| 0 <= i < r.len() implies (#[trigger] r[i].player_id)
            == players[i].player_id by {
            if i != k {
                assert(r[i] == players[i]);
            }
        }
    }
}

} // verus!
