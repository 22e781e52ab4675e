use maze_store::event::{GameEvent, Player, Position, Vision};
use maze_store::state::{GameState, Stage};

fn pos(x: f32, y: f32, z: f32) -> Position {
    Position { x: x.to_bits(), y: y.to_bits(), z: z.to_bits() }
}

fn player(id: u8, name: &str, at: Position) -> Player {
    Player { player_id: id, name: name.as_bytes().to_vec(), position: at }
}

fn lobby_state(limit: u8) -> GameState {
    GameState::new(limit, 1, pos(9.0, 9.0, 0.0))
}

fn join(id: u8, name: &str) -> GameEvent {
    GameEvent::PlayerJoined {
        player_id: id,
        name: name.as_bytes().to_vec(),
        position: pos(0.0, 0.0, 0.0),
        client_id: 100 + id as u64,
    }
}

#[test]
fn player_count_stays_within_limit() {
    let mut gs = lobby_state(2);
    let events = vec![
        join(0, "ada"),
        join(1, "bob"),
        join(0, "eve"),
        join(2, "mal"),
        GameEvent::Timer { duration: 10 },
        GameEvent::PlayerMove {
            player_id: 0,
            at: pos(1.0, 0.0, 0.0),
            player_list: vec![],
            vision: Vision { x: 0, y: 0 },
        },
    ];
    for e in &events {
        assert!(gs.players.len() <= 2);
        if gs.validate(e) {
            gs.consume(e);
        }
        assert!(gs.players.len() <= 2);
    }
    assert_eq!(gs.players.len(), 2);
}

#[test]
fn validate_is_pure() {
    let mut gs = lobby_state(2);
    gs.consume(&join(0, "ada"));
    let e = GameEvent::PlayerMove {
        player_id: 0,
        at: pos(1.0, 2.0, 3.0),
        player_list: vec![],
        vision: Vision { x: 0, y: 0 },
    };
    let before = gs.clone();
    let first = gs.validate(&e);
    let second = gs.validate(&e);
    assert_eq!(first, second);
    assert_eq!(gs, before);
}

#[test]
fn rejected_event_leaves_state_identical() {
    let mut gs = lobby_state(2);
    gs.consume(&join(0, "ada"));
    let before = gs.clone();
    let e = GameEvent::PlayerMove {
        player_id: 0,
        at: pos(1.0, 0.0, 0.0),
        player_list: vec![],
        vision: Vision { x: 0, y: 0 },
    };
    assert!(!gs.validate(&e));
    assert_eq!(gs, before);
}

#[test]
fn stage_never_regresses() {
    let mut gs = lobby_state(2);
    let mut stages = vec![gs.stage];
    let events = vec![
        join(0, "ada"),
        join(1, "bob"),
        GameEvent::Timer { duration: 3 },
        GameEvent::EndGame,
        join(0, "eve"),
    ];
    for e in &events {
        if gs.validate(e) {
            gs.consume(e);
        }
        stages.push(gs.stage);
    }
    let rank = |s: Stage| match s {
        Stage::Lobby => 0,
        Stage::InGame => 1,
        Stage::Ended => 2,
    };
    for w in stages.windows(2) {
        assert!(rank(w[0]) <= rank(w[1]));
    }
    assert_eq!(gs.stage, Stage::Ended);
}

#[test]
fn ended_accepts_nothing() {
    let mut gs = lobby_state(2);
    gs.consume(&join(0, "ada"));
    gs.consume(&GameEvent::EndGame);
    assert_eq!(gs.stage, Stage::Ended);
    let attempts = vec![
        join(1, "bob"),
        GameEvent::EndGame,
        GameEvent::PlayerDisconnected { player_id: 0 },
        GameEvent::Timer { duration: 1 },
        GameEvent::Death { player_id: 0 },
    ];
    for e in &attempts {
        assert!(!gs.validate(e));
    }
}

#[test]
fn join_becomes_in_game_when_full() {
    let mut gs = lobby_state(2);
    assert!(gs.validate(&join(0, "ada")));
    gs.consume(&join(0, "ada"));
    assert_eq!(gs.stage, Stage::Lobby);
    assert!(gs.validate(&join(1, "bob")));
    gs.consume(&join(1, "bob"));
    assert_eq!(gs.stage, Stage::InGame);
    assert!(!gs.validate(&join(0, "eve")));
}

#[test]
fn non_finite_coordinates_are_rejected() {
    let mut gs = lobby_state(2);
    gs.consume(&join(0, "ada"));
    gs.consume(&join(1, "bob"));
    let nan_move = GameEvent::PlayerMove {
        player_id: 0,
        at: Position { x: f32::NAN.to_bits(), y: 0, z: 0 },
        player_list: vec![],
        vision: Vision { x: 0, y: 0 },
    };
    assert!(!gs.validate(&nan_move));
    let inf_join = GameEvent::PlayerJoined {
        player_id: 0,
        name: b"eve".to_vec(),
        position: Position { x: f32::INFINITY.to_bits(), y: 0, z: 0 },
        client_id: 7,
    };
    let mut fresh = lobby_state(2);
    assert!(!fresh.validate(&inf_join));
    let fine_move = GameEvent::PlayerMove {
        player_id: 0,
        at: pos(1.0, 2.0, 3.0),
        player_list: vec![],
        vision: Vision { x: 0, y: 0 },
    };
    assert!(gs.validate(&fine_move));
}

#[test]
fn zero_duration_timer_is_rejected() {
    let mut gs = lobby_state(2);
    gs.consume(&join(0, "ada"));
    gs.consume(&join(1, "bob"));
    assert!(!gs.validate(&GameEvent::Timer { duration: 0 }));
    assert!(gs.validate(&GameEvent::Timer { duration: 1 }));
}

#[test]
fn server_only_facts_are_never_accepted_as_requests() {
    let mut gs = lobby_state(3);
    gs.consume(&join(0, "ada"));
    assert!(!gs.validate(&GameEvent::AccessForbidden));
    assert!(!gs.validate(&GameEvent::SetId { player_id: 0 }));
    assert!(!gs.validate(&GameEvent::BeginGame { player_list: vec![] }));
    gs.consume(&join(1, "bob"));
    gs.consume(&join(2, "eve"));
    assert_eq!(gs.stage, Stage::InGame);
    assert!(!gs.validate(&GameEvent::AccessForbidden));
    assert!(!gs.validate(&GameEvent::SetId { player_id: 0 }));
}

#[test]
fn disconnect_during_game_ends_it() {
    let mut gs = lobby_state(2);
    gs.consume(&join(0, "ada"));
    gs.consume(&join(1, "bob"));
    assert_eq!(gs.stage, Stage::InGame);
    let leave = GameEvent::PlayerDisconnected { player_id: 1 };
    assert!(gs.validate(&leave));
    gs.consume(&leave);
    assert_eq!(gs.players.len(), 1);
    assert_eq!(gs.stage, Stage::Ended);
}

#[test]
fn disconnect_in_lobby_keeps_lobby() {
    let mut gs = lobby_state(3);
    gs.consume(&join(0, "ada"));
    gs.consume(&join(1, "bob"));
    let leave = GameEvent::PlayerDisconnected { player_id: 0 };
    assert!(gs.validate(&leave));
    gs.consume(&leave);
    assert_eq!(gs.stage, Stage::Lobby);
    assert_eq!(gs.players.len(), 1);
}

#[test]
fn generate_id_returns_lowest_free() {
    let goal = pos(9.0, 9.0, 0.0);
    let mut gs = GameState {
        players: vec![
            player(0, "ada", pos(0.0, 0.0, 0.0)),
            player(1, "bob", pos(0.0, 0.0, 0.0)),
        ],
        stage: Stage::Lobby,
        player_limit: 3,
        level: 1,
        goal,
    };
    assert_eq!(gs.generate_id(), 2);
    let leave = GameEvent::PlayerDisconnected { player_id: 1 };
    assert!(gs.validate(&leave));
    gs.consume(&leave);
    assert_eq!(gs.generate_id(), 1);
}

#[test]
fn death_eliminates_player() {
    let mut gs = lobby_state(2);
    gs.consume(&join(0, "ada"));
    gs.consume(&join(1, "bob"));
    let death = GameEvent::Death { player_id: 0 };
    assert!(gs.validate(&death));
    gs.consume(&death);
    assert_eq!(gs.players.len(), 1);
    assert_eq!(gs.players[0].player_id, 1);
    assert_eq!(gs.stage, Stage::InGame);
}

#[test]
fn winner_is_first_player_on_goal() {
    let goal = pos(9.0, 9.0, 0.0);
    let mut gs = GameState::new(2, 1, goal);
    gs.consume(&join(0, "ada"));
    gs.consume(&join(1, "bob"));
    assert_eq!(gs.determine_winner(), None);
    let reach = GameEvent::PlayerMove {
        player_id: 1,
        at: goal,
        player_list: vec![],
        vision: Vision { x: 0, y: 0 },
    };
    assert!(gs.validate(&reach));
    gs.consume(&reach);
    assert_eq!(gs.determine_winner(), Some(1));
}

#[test]
fn move_updates_only_that_player() {
    let mut gs = lobby_state(2);
    gs.consume(&join(0, "ada"));
    gs.consume(&join(1, "bob"));
    let there = pos(4.0, 5.0, 6.0);
    let e = GameEvent::PlayerMove {
        player_id: 0,
        at: there,
        player_list: vec![],
        vision: Vision { x: 0, y: 0 },
    };
    assert!(gs.validate(&e));
    gs.consume(&e);
    assert_eq!(gs.players[0].position, there);
    assert_eq!(gs.players[1].position, pos(0.0, 0.0, 0.0));
    assert_eq!(gs.players[0].name, b"ada".to_vec());
}
