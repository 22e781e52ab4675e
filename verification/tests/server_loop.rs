use maze_store::client::{reduce, ClientAction};
use maze_store::codec::encode_event;
use maze_store::event::{GameEvent, Position, Vision};
use maze_store::server::{ServerAction, SessionServer};
use maze_store::state::Stage;

fn pos(x: f32, y: f32, z: f32) -> Position {
    Position { x: x.to_bits(), y: y.to_bits(), z: z.to_bits() }
}

fn goal() -> Position {
    pos(9.0, 9.0, 0.0)
}

fn count_begin(actions: &[ServerAction]) -> usize {
    actions
        .iter()
        .filter(|a| {
            matches!(
                a,
                ServerAction::Broadcast { event: GameEvent::BeginGame { .. } }
            )
        })
        .count()
}

fn count_end(actions: &[ServerAction]) -> usize {
    actions
        .iter()
        .filter(|a| matches!(a, ServerAction::Broadcast { event: GameEvent::EndGame }))
        .count()
}

fn move_bytes(player_id: u8, at: Position) -> Vec<u8> {
    encode_event(&GameEvent::PlayerMove {
        player_id,
        at,
        player_list: vec![],
        vision: Vision { x: 0, y: 0 },
    })
}

#[test]
fn two_joins_fill_the_lobby_and_begin_once() {
    let mut server = SessionServer::new(2, 1, goal());
    let first = server.on_client_connected(10, &b"ada".to_vec());
    assert_eq!(server.game.stage, Stage::Lobby);
    assert_eq!(count_begin(&first), 0);
    assert_eq!(first.len(), 3);
    assert!(matches!(
        first[0],
        ServerAction::BroadcastExcept { client_id: 10, event: GameEvent::PlayerJoined { player_id: 0, .. } }
    ));
    assert!(matches!(
        first[1],
        ServerAction::Send { client_id: 10, event: GameEvent::SetId { player_id: 0 } }
    ));
    assert!(matches!(
        first[2],
        ServerAction::Send { client_id: 10, event: GameEvent::Spawn { player_id: 0, lvl: 1, .. } }
    ));

    let second = server.on_client_connected(20, &b"bob".to_vec());
    assert_eq!(server.game.stage, Stage::InGame);
    assert_eq!(server.game.players.len(), 2);
    assert_eq!(count_begin(&second), 1);
    assert_eq!(second.len(), 4);
    assert!(matches!(
        second[3],
        ServerAction::Broadcast { event: GameEvent::BeginGame { .. } }
    ));
}

#[test]
fn join_when_full_is_refused() {
    let mut server = SessionServer::new(2, 1, goal());
    server.on_client_connected(10, &b"ada".to_vec());
    server.on_client_connected(20, &b"bob".to_vec());
    let refused = server.on_client_connected(30, &b"eve".to_vec());
    assert_eq!(refused.len(), 1);
    assert!(matches!(
        refused[0],
        ServerAction::Send { client_id: 30, event: GameEvent::AccessForbidden }
    ));
    assert_eq!(server.game.players.len(), 2);
}

#[test]
fn disconnect_of_one_of_two_ends_the_game_once() {
    let mut server = SessionServer::new(2, 1, goal());
    server.on_client_connected(10, &b"ada".to_vec());
    server.on_client_connected(20, &b"bob".to_vec());
    assert_eq!(server.game.stage, Stage::InGame);
    let actions = server.on_client_disconnected(10);
    assert_eq!(server.game.players.len(), 1);
    assert_eq!(server.game.stage, Stage::Ended);
    assert_eq!(actions.len(), 2);
    assert!(matches!(
        actions[0],
        ServerAction::Broadcast { event: GameEvent::PlayerDisconnected { player_id: 0 } }
    ));
    assert_eq!(count_end(&actions), 1);
}

#[test]
fn disconnect_of_unknown_peer_is_a_no_op() {
    let mut server = SessionServer::new(2, 1, goal());
    server.on_client_connected(10, &b"ada".to_vec());
    let before_players = server.game.players.len();
    let actions = server.on_client_disconnected(99);
    assert!(actions.is_empty());
    assert_eq!(server.game.players.len(), before_players);
    assert_eq!(server.game.stage, Stage::Lobby);
}

#[test]
fn move_in_lobby_is_rejected_without_broadcast() {
    let mut server = SessionServer::new(2, 1, goal());
    server.on_client_connected(10, &b"ada".to_vec());
    assert_eq!(server.game.stage, Stage::Lobby);
    assert!(!server.game.validate(&GameEvent::PlayerMove {
        player_id: 0,
        at: pos(1.0, 0.0, 0.0),
        player_list: vec![],
        vision: Vision { x: 0, y: 0 },
    }));
    let before = server.game.players[0].position;
    let actions = server.on_client_message(10, &move_bytes(0, pos(1.0, 0.0, 0.0)));
    assert!(actions.is_empty());
    assert_eq!(server.game.players[0].position, before);
}

#[test]
fn move_of_someone_elses_player_is_dropped() {
    let mut server = SessionServer::new(2, 1, goal());
    server.on_client_connected(10, &b"ada".to_vec());
    server.on_client_connected(20, &b"bob".to_vec());
    let actions = server.on_client_message(20, &move_bytes(0, pos(1.0, 0.0, 0.0)));
    assert!(actions.is_empty());
    assert_eq!(server.game.players[0].position, pos(0.0, 0.0, 0.0));
}

#[test]
fn accepted_move_is_rebroadcast_to_others() {
    let mut server = SessionServer::new(2, 1, goal());
    server.on_client_connected(10, &b"ada".to_vec());
    server.on_client_connected(20, &b"bob".to_vec());
    let actions = server.on_client_message(10, &move_bytes(0, pos(1.0, 2.0, 3.0)));
    assert_eq!(actions.len(), 1);
    assert!(matches!(
        actions[0],
        ServerAction::BroadcastExcept { client_id: 10, event: GameEvent::PlayerMove { player_id: 0, .. } }
    ));
    assert_eq!(server.game.players[0].position, pos(1.0, 2.0, 3.0));
}

#[test]
fn undecodable_message_is_dropped() {
    let mut server = SessionServer::new(2, 1, goal());
    server.on_client_connected(10, &b"ada".to_vec());
    server.on_client_connected(20, &b"bob".to_vec());
    let actions = server.on_client_message(10, &vec![255u8, 1, 2]);
    assert!(actions.is_empty());
}

#[test]
fn winner_ends_the_game_with_one_broadcast() {
    let mut server = SessionServer::new(4, 1, goal());
    server.on_client_connected(100, &b"p0".to_vec());
    server.on_client_connected(101, &b"p1".to_vec());
    server.on_client_connected(102, &b"p2".to_vec());
    server.on_client_connected(103, &b"p3".to_vec());
    assert_eq!(server.game.stage, Stage::InGame);

    let actions = server.on_client_message(103, &move_bytes(3, goal()));
    assert_eq!(server.game.determine_winner(), None);
    assert_eq!(server.game.stage, Stage::Ended);
    assert_eq!(actions.len(), 2);
    assert!(matches!(
        actions[0],
        ServerAction::BroadcastExcept { client_id: 103, event: GameEvent::PlayerMove { player_id: 3, .. } }
    ));
    assert_eq!(count_end(&actions), 1);

    let after = server.on_client_message(100, &move_bytes(0, pos(1.0, 0.0, 0.0)));
    assert!(after.is_empty());
}

#[test]
fn disconnect_of_already_removed_player_only_drops_the_row() {
    let mut server = SessionServer::new(2, 1, goal());
    server.on_client_connected(10, &b"ada".to_vec());
    server.on_client_connected(20, &b"bob".to_vec());
    let death = GameEvent::Death { player_id: 0 };
    assert!(server.game.validate(&death));
    server.game.consume(&death);
    assert_eq!(server.game.players.len(), 1);
    let actions = server.on_client_disconnected(10);
    assert!(actions.is_empty());
    assert_eq!(server.game.players.len(), 1);
    assert!(server.clients.iter().all(|link| link.client_id != 10));
}

#[test]
fn reducer_spawns_and_records_joins() {
    let spawn = GameEvent::Spawn { player_id: 2, position: pos(1.0, 2.0, 3.0), lvl: 4 };
    match reduce(spawn) {
        ClientAction::SpawnLocal { player_id, position, lvl } => {
            assert_eq!(player_id, 2);
            assert_eq!(position, pos(1.0, 2.0, 3.0));
            assert_eq!(lvl, 4);
        },
        other => panic!("unexpected action: {:?}", other),
    }
    let joined = GameEvent::PlayerJoined {
        player_id: 1,
        name: b"ada".to_vec(),
        position: pos(0.0, 0.0, 0.0),
        client_id: 10,
    };
    match reduce(joined) {
        ClientAction::NoteJoined { player_id, name, .. } => {
            assert_eq!(player_id, 1);
            assert_eq!(name, b"ada".to_vec());
        },
        other => panic!("unexpected action: {:?}", other),
    }
    match reduce(GameEvent::EndGame) {
        ClientAction::Forward { event } => assert_eq!(event, GameEvent::EndGame),
        other => panic!("unexpected action: {:?}", other),
    }
}
