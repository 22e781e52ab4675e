use maze_store::codec::{decode_event, encode_event};
use maze_store::event::{GameEvent, Player, Position, Vision};

fn pos(x: f32, y: f32, z: f32) -> Position {
    Position { x: x.to_bits(), y: y.to_bits(), z: z.to_bits() }
}

fn roster() -> Vec<Player> {
    vec![
        Player { player_id: 0, name: b"ada".to_vec(), position: pos(1.0, 2.0, 3.0) },
        Player { player_id: 3, name: "josé".as_bytes().to_vec(), position: pos(-1.5, 0.0, 8.25) },
    ]
}

fn all_variants() -> Vec<GameEvent> {
    vec![
        GameEvent::BeginGame { player_list: roster() },
        GameEvent::BeginGame { player_list: vec![] },
        GameEvent::EndGame,
        GameEvent::AccessForbidden,
        GameEvent::Impact { id: 2 },
        GameEvent::Death { player_id: 5 },
        GameEvent::PlayerJoined {
            player_id: 1,
            name: b"".to_vec(),
            position: pos(0.5, -0.5, 100.0),
            client_id: u64::MAX,
        },
        GameEvent::PlayerDisconnected { player_id: 7 },
        GameEvent::PlayerMove {
            player_id: 2,
            at: pos(3.0, 4.0, 5.0),
            player_list: roster(),
            vision: Vision { x: 0.25f32.to_bits(), y: (-0.75f32).to_bits() },
        },
        GameEvent::Spawn { player_id: 0, position: pos(7.0, 8.0, 9.0), lvl: 3 },
        GameEvent::Timer { duration: 255 },
        GameEvent::SetId { player_id: 4 },
    ]
}

#[test]
fn round_trip_every_variant() {
    for e in all_variants() {
        let bytes = encode_event(&e);
        let back = decode_event(&bytes);
        assert_eq!(back, Some(e));
    }
}

#[test]
fn timer_has_exact_bytes() {
    let bytes = encode_event(&GameEvent::Timer { duration: 5 });
    assert_eq!(bytes, vec![9u8, 5]);
}

#[test]
fn disconnect_has_exact_bytes() {
    let bytes = encode_event(&GameEvent::PlayerDisconnected { player_id: 7 });
    assert_eq!(bytes, vec![6u8, 7]);
}

#[test]
fn empty_begin_game_has_exact_bytes() {
    let bytes = encode_event(&GameEvent::BeginGame { player_list: vec![] });
    assert_eq!(bytes, vec![0u8, 0, 0, 0, 0, 0, 0, 0, 0]);
}

#[test]
fn spawn_is_little_endian() {
    let e = GameEvent::Spawn {
        player_id: 1,
        position: Position { x: 0x04030201, y: 0, z: 0 },
        lvl: 3,
    };
    let bytes = encode_event(&e);
    let mut expected = vec![8u8, 1];
    expected.extend_from_slice(&[1, 2, 3, 4]);
    expected.extend_from_slice(&[0; 4]);
    expected.extend_from_slice(&[0; 4]);
    expected.extend_from_slice(&[3, 0, 0, 0, 0, 0, 0, 0]);
    assert_eq!(bytes, expected);
}

#[test]
fn joined_name_is_length_prefixed() {
    let e = GameEvent::PlayerJoined {
        player_id: 2,
        name: b"ab".to_vec(),
        position: Position { x: 0, y: 0, z: 0 },
        client_id: 9,
    };
    let bytes = encode_event(&e);
    let mut expected = vec![5u8, 2];
    expected.extend_from_slice(&[2, 0, 0, 0, 0, 0, 0, 0]);
    expected.extend_from_slice(b"ab");
    expected.extend_from_slice(&[0; 12]);
    expected.extend_from_slice(&[9, 0, 0, 0, 0, 0, 0, 0]);
    assert_eq!(bytes, expected);
}

#[test]
fn empty_buffer_does_not_decode() {
    assert_eq!(decode_event(&vec![]), None);
}

#[test]
fn unknown_tag_does_not_decode() {
    assert_eq!(decode_event(&vec![11u8]), None);
    assert_eq!(decode_event(&vec![255u8, 0, 0]), None);
}

#[test]
fn truncated_buffer_does_not_decode() {
    assert_eq!(decode_event(&vec![9u8]), None);
    let mut bytes = encode_event(&GameEvent::BeginGame { player_list: roster() });
    bytes.pop();
    assert_eq!(decode_event(&bytes), None);
}

#[test]
fn trailing_bytes_do_not_decode() {
    let mut bytes = encode_event(&GameEvent::EndGame);
    bytes.push(0);
    assert_eq!(decode_event(&bytes), None);
    let mut bytes2 = encode_event(&GameEvent::Timer { duration: 1 });
    bytes2.push(7);
    assert_eq!(decode_event(&bytes2), None);
}

#[test]
fn oversized_name_length_does_not_decode() {
    let mut bytes = vec![5u8, 2];
    bytes.extend_from_slice(&[200, 0, 0, 0, 0, 0, 0, 0]);
    bytes.extend_from_slice(b"ab");
    assert_eq!(decode_event(&bytes), None);
}
