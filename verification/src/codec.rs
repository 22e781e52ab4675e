//! The wire codec: every application message is the fixed little-endian
//! binary encoding of one [`GameEvent`], tagged by a one-byte discriminant,
//! with no padding. Both peers use this same deterministic encoding, and the
//! decoder accepts a buffer only when it is exactly one well-formed event.
//!
//! The format, field by field: a one-byte tag; integers little-endian
//! (`u8` one byte, `u32` four, `u64` and lengths eight); a byte string as
//! its length followed by its bytes; a position as three `u32` bit
//! patterns; a roster as its count followed by its players, each one id,
//! name and position.

use vstd::prelude::*;
use vstd::bytes::{
    lemma_auto_spec_u32_to_from_le_bytes, lemma_auto_spec_u64_to_from_le_bytes,
    spec_u32_from_le_bytes, spec_u32_to_le_bytes, spec_u64_from_le_bytes, spec_u64_to_le_bytes,
    u32_from_le_bytes, u32_to_le_bytes, u64_from_le_bytes, u64_to_le_bytes,
};
use vstd::slice::{slice_subrange, slice_to_vec};
use crate::event::{EventView, GameEvent, Player, PlayerView, Position, Vision, view_players};

verus! {

// ---------------------------------------------------------------- encoding

/// One byte.
pub open spec fn enc_u8(v: u8) -> Seq<u8> {
    seq![v]
}

/// Four bytes, little-endian.
pub open spec fn enc_u32(v: u32) -> Seq<u8> {
    spec_u32_to_le_bytes(v)
}

/// Eight bytes, little-endian.
pub open spec fn enc_u64(v: u64) -> Seq<u8> {
    spec_u64_to_le_bytes(v)
}

/// Length-prefixed byte string.
pub open spec fn enc_bytes(b: Seq<u8>) -> Seq<u8> {
    enc_u64(b.len() as u64) + b
}

/// Three coordinates.
pub open spec fn enc_position(p: Position) -> Seq<u8> {
    enc_u32(p.x) + enc_u32(p.y) + enc_u32(p.z)
}

/// Two view components.
pub open spec fn enc_vision(v: Vision) -> Seq<u8> {
    enc_u32(v.x) + enc_u32(v.y)
}

/// Id, name, position.
pub open spec fn enc_player(p: PlayerView) -> Seq<u8> {
    enc_u8(p.player_id) + enc_bytes(p.name) + enc_position(p.position)
}

/// Players back to back.
pub open spec fn enc_players(l: Seq<PlayerView>) -> Seq<u8>
    decreases l.len(),
{
    if l.len() == 0 {
        Seq::empty()
    } else {
        enc_player(l[0]) + enc_players(l.drop_first())
    }
}

/// Count-prefixed roster.
pub open spec fn enc_roster(l: Seq<PlayerView>) -> Seq<u8> {
    enc_u64(l.len() as u64) + enc_players(l)
}

/// The encoding of one event: its tag, then its fields in declaration
/// order.
pub open spec fn spec_encode(e: EventView) -> Seq<u8> {
    match e {
        EventView::BeginGame { player_list } => enc_u8(0) + enc_roster(player_list),
        EventView::EndGame => enc_u8(1),
        EventView::AccessForbidden => enc_u8(2),
        EventView::Impact { id } => enc_u8(3) + enc_u8(id),
        EventView::Death { player_id } => enc_u8(4) + enc_u8(player_id),
        EventView::PlayerJoined { player_id, name, position, client_id } => enc_u8(5) + enc_u8(
            player_id,
        ) + enc_bytes(name) + enc_position(position) + enc_u64(client_id),
        EventView::PlayerDisconnected { player_id } => enc_u8(6) + enc_u8(player_id),
        EventView::PlayerMove { player_id, at, player_list, vision } => enc_u8(7) + enc_u8(
            player_id,
        ) + enc_position(at) + enc_roster(player_list) + enc_vision(vision),
        EventView::Spawn { player_id, position, lvl } => enc_u8(8) + enc_u8(player_id)
            + enc_position(position) + enc_u64(lvl as u64),
        EventView::Timer { duration } => enc_u8(9) + enc_u8(duration),
        EventView::SetId { player_id } => enc_u8(10) + enc_u8(player_id),
    }
}

// ---------------------------------------------------------------- decoding

/// Reads one byte; yields it and the remainder.
pub open spec fn dec_u8(s: Seq<u8>) -> Option<(u8, Seq<u8>)> {
    if s.len() >= 1 {
        Some((s[0], s.drop_first()))
    } else {
        None
    }
}

/// Reads four little-endian bytes.
pub open spec fn dec_u32(s: Seq<u8>) -> Option<(u32, Seq<u8>)> {
    if s.len() >= 4 {
        Some((spec_u32_from_le_bytes(s.take(4)), s.skip(4)))
    } else {
        None
    }
}

/// Reads eight little-endian bytes.
pub open spec fn dec_u64(s: Seq<u8>) -> Option<(u64, Seq<u8>)> {
    if s.len() >= 8 {
        Some((spec_u64_from_le_bytes(s.take(8)), s.skip(8)))
    } else {
        None
    }
}

/// Reads a length-prefixed byte string.
pub open spec fn dec_bytes(s: Seq<u8>) -> Option<(Seq<u8>, Seq<u8>)> {
    match dec_u64(s) {
        Some((n, r)) => if n <= r.len() {
            Some((r.take(n as int), r.skip(n as int)))
        } else {
            None
        },
        None => None,
    }
}

/// Reads three coordinates.
pub open spec fn dec_position(s: Seq<u8>) -> Option<(Position, Seq<u8>)> {
    match dec_u32(s) {
        Some((x, r1)) => match dec_u32(r1) {
            Some((y, r2)) => match dec_u32(r2) {
                Some((z, r3)) => Some(((Position { x, y, z }), r3)),
                None => None,
            },
            None => None,
        },
        None => None,
    }
}

/// Reads two view components.
pub open spec fn dec_vision(s: Seq<u8>) -> Option<(Vision, Seq<u8>)> {
    match dec_u32(s) {
        Some((x, r1)) => match dec_u32(r1) {
            Some((y, r2)) => Some(((Vision { x, y }), r2)),
            None => None,
        },
        None => None,
    }
}

/// Reads one player record.
pub open spec fn dec_player(s: Seq<u8>) -> Option<(PlayerView, Seq<u8>)> {
    match dec_u8(s) {
        Some((player_id, r1)) => match dec_bytes(r1) {
            Some((name, r2)) => match dec_position(r2) {
                Some((position, r3)) => Some(((PlayerView { player_id, name, position }), r3)),
                None => None,
            },
            None => None,
        },
        None => None,
    }
}

/// Reads exactly `n` player records.
pub open spec fn dec_players(s: Seq<u8>, n: nat) -> Option<(Seq<PlayerView>, Seq<u8>)>
    decreases n,
{
    if n == 0 {
        Some((Seq::empty(), s))
    } else {
        match dec_player(s) {
            Some((p, r)) => match dec_players(r, (n - 1) as nat) {
                Some((l, r2)) => Some((seq![p] + l, r2)),
                None => None,
            },
            None => None,
        }
    }
}

/// Reads a count-prefixed roster.
pub open spec fn dec_roster(s: Seq<u8>) -> Option<(Seq<PlayerView>, Seq<u8>)> {
    match dec_u64(s) {
        Some((n, r)) => dec_players(r, n as nat),
        None => None,
    }
}

/// The decoding of a buffer: `Some` exactly when the buffer is one
/// well-formed event and nothing else; any truncated, oversized or
/// unknown-tag buffer yields `None`.
pub open spec fn spec_decode(s: Seq<u8>) -> Option<EventView> {
    match dec_u8(s) {
        None => None,
        Some((tag, r)) => if tag == 0 {
            match dec_roster(r) {
                Some((player_list, r2)) => if r2.len() == 0 {
                    Some(EventView::BeginGame { player_list })
                } else {
                    None
                },
                None => None,
            }
        } else if tag == 1 {
            if r.len() == 0 {
                Some(EventView::EndGame)
            } else {
                None
            }
        } else if tag == 2 {
            if r.len() == 0 {
                Some(EventView::AccessForbidden)
            } else {
                None
            }
        } else if tag == 3 {
            match dec_u8(r) {
                Some((id, r2)) => if r2.len() == 0 {
                    Some(EventView::Impact { id })
                } else {
                    None
                },
                None => None,
            }
        } else if tag == 4 {
            match dec_u8(r) {
                Some((player_id, r2)) => if r2.len() == 0 {
                    Some(EventView::Death { player_id })
                } else {
                    None
                },
                None => None,
            }
        } else if tag == 5 {
            match dec_u8(r) {
                Some((player_id, r1)) => match dec_bytes(r1) {
                    Some((name, r2)) => match dec_position(r2) {
                        Some((position, r3)) => match dec_u64(r3) {
                            Some((client_id, r4)) => if r4.len() == 0 {
                                Some(
                                    EventView::PlayerJoined {
                                        player_id,
                                        name,
                                        position,
                                        client_id,
                                    },
                                )
                            } else {
                                None
                            },
                            None => None,
                        },
                        None => None,
                    },
                    None => None,
                },
                None => None,
            }
        } else if tag == 6 {
            match dec_u8(r) {
                Some((player_id, r2)) => if r2.len() == 0 {
                    Some(EventView::PlayerDisconnected { player_id })
                } else {
                    None
                },
                None => None,
            }
        } else if tag == 7 {
            match dec_u8(r) {
                Some((player_id, r1)) => match dec_position(r1) {
                    Some((at, r2)) => match dec_roster(r2) {
                        Some((player_list, r3)) => match dec_vision(r3) {
                            Some((vision, r4)) => if r4.len() == 0 {
                                Some(EventView::PlayerMove { player_id, at, player_list, vision })
                            } else {
                                None
                            },
                            None => None,
                        },
                        None => None,
                    },
                    None => None,
                },
                None => None,
            }
        } else if tag == 8 {
            match dec_u8(r) {
                Some((player_id, r1)) => match dec_position(r1) {
                    Some((position, r2)) => match dec_u64(r2) {
                        Some((lvl64, r3)) => if r3.len() == 0 && lvl64 <= usize::MAX {
                            Some(EventView::Spawn { player_id, position, lvl: lvl64 as usize })
                        } else {
                            None
                        },
                        None => None,
                    },
                    None => None,
                },
                None => None,
            }
        } else if tag == 9 {
            match dec_u8(r) {
                Some((duration, r2)) => if r2.len() == 0 {
                    Some(EventView::Timer { duration })
                } else {
                    None
                },
                None => None,
            }
        } else if tag == 10 {
            match dec_u8(r) {
                Some((player_id, r2)) => if r2.len() == 0 {
                    Some(EventView::SetId { player_id })
                } else {
                    None
                },
                None => None,
            }
        } else {
            None
        },
    }
}

// ------------------------------------------------------------- boundedness

/// A roster whose count and whose names' lengths fit the wire's length
/// fields. Every roster held in a `Vec` satisfies this.
pub open spec fn roster_bounded(l: Seq<PlayerView>) -> bool {
    l.len() <= u64::MAX && forall|i: int|
        0 <= i < l.len() ==> (#[trigger] l[i].name).len() <= u64::MAX
}

/// An event whose variable-length fields fit the wire's length fields.
/// Every event held in a [`GameEvent`] satisfies this.
pub open spec fn event_bounded(e: EventView) -> bool {
    match e {
        EventView::BeginGame { player_list } => roster_bounded(player_list),
        EventView::PlayerJoined { player_id, name, position, client_id } => name.len() <= u64::MAX,
        EventView::PlayerMove { player_id, at, player_list, vision } => roster_bounded(player_list),
        _ => true,
    }
}

// -------------------------------------------------------------- round trip

proof fn lemma_dec_enc_u8(v: u8, rest: Seq<u8>)
    ensures
        dec_u8(enc_u8(v) + rest) == Some((v, rest)),
{
    let s = enc_u8(v) + rest;
    assert(s[0] == v);
    assert(s.drop_first() =~= rest);
}

proof fn lemma_dec_enc_u32(v: u32, rest: Seq<u8>)
    ensures
        dec_u32(enc_u32(v) + rest) == Some((v, rest)),
{
    lemma_auto_spec_u32_to_from_le_bytes();
    let s = enc_u32(v) + rest;
    assert(s.take(4) =~= enc_u32(v));
    assert(s.skip(4) =~= rest);
}

proof fn lemma_dec_enc_u64(v: u64, rest: Seq<u8>)
    ensures
        dec_u64(enc_u64(v) + rest) == Some((v, rest)),
{
    lemma_auto_spec_u64_to_from_le_bytes();
    let s = enc_u64(v) + rest;
    assert(s.take(8) =~= enc_u64(v));
    assert(s.skip(8) =~= rest);
}

proof fn lemma_dec_enc_bytes(b: Seq<u8>, rest: Seq<u8>)
    requires
        b.len() <= u64::MAX,
    ensures
        dec_bytes(enc_bytes(b) + rest) == Some((b, rest)),
{
    let n = b.len() as u64;
    assert(enc_bytes(b) + rest =~= enc_u64(n) + (b + rest));
    lemma_dec_enc_u64(n, b + rest);
    assert((b + rest).take(n as int) =~= b);
    assert((b + rest).skip(n as int) =~= rest);
}

proof fn lemma_dec_enc_position(p: Position, rest: Seq<u8>)
    ensures
        dec_position(enc_position(p) + rest) == Some((p, rest)),
{
    assert(enc_position(p) + rest =~= enc_u32(p.x) + (enc_u32(p.y) + (enc_u32(p.z) + rest)));
    lemma_dec_enc_u32(p.x, enc_u32(p.y) + (enc_u32(p.z) + rest));
    lemma_dec_enc_u32(p.y, enc_u32(p.z) + rest);
    lemma_dec_enc_u32(p.z, rest);
}

proof fn lemma_dec_enc_vision(v: Vision, rest: Seq<u8>)
    ensures
        dec_vision(enc_vision(v) + rest) == Some((v, rest)),
{
    assert(enc_vision(v) + rest =~= enc_u32(v.x) + (enc_u32(v.y) + rest));
    lemma_dec_enc_u32(v.x, enc_u32(v.y) + rest);
    lemma_dec_enc_u32(v.y, rest);
}

proof fn lemma_dec_enc_player(p: PlayerView, rest: Seq<u8>)
    requires
        p.name.len() <= u64::MAX,
    ensures
        dec_player(enc_player(p) + rest) == Some((p, rest)),
{
    assert(enc_player(p) + rest =~= enc_u8(p.player_id) + (enc_bytes(p.name) + (enc_position(
        p.position,
    ) + rest)));
    lemma_dec_enc_u8(p.player_id, enc_bytes(p.name) + (enc_position(p.position) + rest));
    lemma_dec_enc_bytes(p.name, enc_position(p.position) + rest);
    lemma_dec_enc_position(p.position, rest);
}

proof fn lemma_dec_enc_players(l: Seq<PlayerView>, rest: Seq<u8>)
    requires
        forall|i: int| 0 <= i < l.len() ==> (#[trigger] l[i].name).len() <= u64::MAX,
    ensures
        dec_players(enc_players(l) + rest, l.len()) == Some((l, rest)),
    decreases l.len(),
{
    if l.len() == 0 {
        assert(enc_players(l) + rest =~= rest);
        assert(Seq::<PlayerView>::empty() =~= l);
    } else {
        let tail = l.drop_first();
        assert(enc_players(l) + rest =~= enc_player(l[0]) + (enc_players(tail) + rest));
        lemma_dec_enc_player(l[0], enc_players(tail) + rest);
        assert(forall|i: int|
            0 <= i < tail.len() ==> (#[trigger] tail[i].name).len() <= u64::MAX);
        lemma_dec_enc_players(tail, rest);
        assert(seq![l[0]] + tail =~= l);
    }
}

proof fn lemma_dec_enc_roster(l: Seq<PlayerView>, rest: Seq<u8>)
    requires
        roster_bounded(l),
    ensures
        dec_roster(enc_roster(l) + rest) == Some((l, rest)),
{
    let n = l.len() as u64;
    assert(enc_roster(l) + rest =~= enc_u64(n) + (enc_players(l) + rest));
    lemma_dec_enc_u64(n, enc_players(l) + rest);
    lemma_dec_enc_players(l, rest);
}

/// Round trip: decoding the encoding of any bounded event yields exactly
/// that event. Together with [`spec_decode`]'s strictness this pins the
/// wire format down: both peers read back precisely what was sent.
pub proof fn lemma_encode_decode(e: EventView)
    requires
        event_bounded(e),
    ensures
        spec_decode(spec_encode(e)) == Some(e),
{
    let empty = Seq::<u8>::empty();
    match e {
        EventView::BeginGame { player_list } => {
            assert(spec_encode(e) =~= enc_u8(0) + (enc_roster(player_list) + empty));
            lemma_dec_enc_u8(0, enc_roster(player_list) + empty);
            lemma_dec_enc_roster(player_list, empty);
        },
        EventView::EndGame => {
            assert(spec_encode(e) =~= enc_u8(1) + empty);
            lemma_dec_enc_u8(1, empty);
        },
        EventView::AccessForbidden => {
            assert(spec_encode(e) =~= enc_u8(2) + empty);
            lemma_dec_enc_u8(2, empty);
        },
        EventView::Impact { id } => {
            assert(spec_encode(e) =~= enc_u8(3) + (enc_u8(id) + empty));
            lemma_dec_enc_u8(3, enc_u8(id) + empty);
            lemma_dec_enc_u8(id, empty);
        },
        EventView::Death { player_id } => {
            assert(spec_encode(e) =~= enc_u8(4) + (enc_u8(player_id) + empty));
            lemma_dec_enc_u8(4, enc_u8(player_id) + empty);
            lemma_dec_enc_u8(player_id, empty);
        },
        EventView::PlayerJoined { player_id, name, position, client_id } => {
            assert(spec_encode(e) =~= enc_u8(5) + (enc_u8(player_id) + (enc_bytes(name) + (
            enc_position(position) + (enc_u64(client_id) + empty)))));
            lemma_dec_enc_u8(
                5,
                enc_u8(player_id) + (enc_bytes(name) + (enc_position(position) + (enc_u64(
                    client_id,
                ) + empty))),
            );
            lemma_dec_enc_u8(
                player_id,
                enc_bytes(name) + (enc_position(position) + (enc_u64(client_id) + empty)),
            );
            lemma_dec_enc_bytes(name, enc_position(position) + (enc_u64(client_id) + empty));
            lemma_dec_enc_position(position, enc_u64(client_id) + empty);
            lemma_dec_enc_u64(client_id, empty);
        },
        EventView::PlayerDisconnected { player_id } => {
            assert(spec_encode(e) =~= enc_u8(6) + (enc_u8(player_id) + empty));
            lemma_dec_enc_u8(6, enc_u8(player_id) + empty);
            lemma_dec_enc_u8(player_id, empty);
        },
        EventView::PlayerMove { player_id, at, player_list, vision } => {
            assert(spec_encode(e) =~= enc_u8(7) + (enc_u8(player_id) + (enc_position(at) + (
            enc_roster(player_list) + (enc_vision(vision) + empty)))));
            lemma_dec_enc_u8(
                7,
                enc_u8(player_id) + (enc_position(at) + (enc_roster(player_list) + (enc_vision(
                    vision,
                ) + empty))),
            );
            lemma_dec_enc_u8(
                player_id,
                enc_position(at) + (enc_roster(player_list) + (enc_vision(vision) + empty)),
            );
            lemma_dec_enc_position(at, enc_roster(player_list) + (enc_vision(vision) + empty));
            lemma_dec_enc_roster(player_list, enc_vision(vision) + empty);
            lemma_dec_enc_vision(vision, empty);
        },
        EventView::Spawn { player_id, position, lvl } => {
            assert(spec_encode(e) =~= enc_u8(8) + (enc_u8(player_id) + (enc_position(position) + (
            enc_u64(lvl as u64) + empty))));
            lemma_dec_enc_u8(
                8,
                enc_u8(player_id) + (enc_position(position) + (enc_u64(lvl as u64) + empty)),
            );
            lemma_dec_enc_u8(player_id, enc_position(position) + (enc_u64(lvl as u64) + empty));
            lemma_dec_enc_position(position, enc_u64(lvl as u64) + empty);
            lemma_dec_enc_u64(lvl as u64, empty);
        },
        EventView::Timer { duration } => {
            assert(spec_encode(e) =~= enc_u8(9) + (enc_u8(duration) + empty));
            lemma_dec_enc_u8(9, enc_u8(duration) + empty);
            lemma_dec_enc_u8(duration, empty);
        },
        EventView::SetId { player_id } => {
            assert(spec_encode(e) =~= enc_u8(10) + (enc_u8(player_id) + empty));
            lemma_dec_enc_u8(10, enc_u8(player_id) + empty);
            lemma_dec_enc_u8(player_id, empty);
        },
    }
}

// ------------------------------------------------------------ exec encode

/// Appending one more player to a roster appends its encoding.
proof fn lemma_enc_players_snoc(l: Seq<PlayerView>, p: PlayerView)
    ensures
        enc_players(l.push(p)) == enc_players(l) + enc_player(p),
    decreases l.len(),
{
    if l.len() == 0 {
        assert(l.push(p)[0] == p);
        assert(l.push(p).drop_first() =~= Seq::<PlayerView>::empty());
        assert(enc_players(l.push(p).drop_first()) == Seq::<u8>::empty());
        assert(enc_players(l.push(p)) == enc_player(p) + Seq::<u8>::empty());
        assert(enc_player(p) + Seq::<u8>::empty() =~= enc_player(p));
        assert(enc_players(l) + enc_player(p) =~= enc_player(p));
    } else {
        assert(l.push(p)[0] == l[0]);
        assert(l.push(p).drop_first() =~= l.drop_first().push(p));
        lemma_enc_players_snoc(l.drop_first(), p);
        assert(enc_player(l[0]) + (enc_players(l.drop_first()) + enc_player(p)) =~= (enc_player(
            l[0],
        ) + enc_players(l.drop_first())) + enc_player(p));
        assert(enc_players(l.push(p)) =~= enc_players(l) + enc_player(p));
    }
}

fn put_u8(out: &mut Vec<u8>, v: u8)
    ensures
        final(out)@ == old(out)@ + enc_u8(v),
{
    out.push(v);
    proof {
        assert(out@ =~= old(out)@ + enc_u8(v));
    }
}

fn put_u32(out: &mut Vec<u8>, v: u32)
    ensures
        final(out)@ == old(out)@ + enc_u32(v),
{
    let mut b = u32_to_le_bytes(v);
    out.append(&mut b);
}

fn put_u64(out: &mut Vec<u8>, v: u64)
    ensures
        final(out)@ == old(out)@ + enc_u64(v),
{
    let mut b = u64_to_le_bytes(v);
    out.append(&mut b);
}

fn put_bytes(out: &mut Vec<u8>, b: &Vec<u8>)
    ensures
        final(out)@ == old(out)@ + enc_bytes(b@),
{
    put_u64(out, b.len() as u64);
    let n = b.len();
    let mut i: usize = 0;
    while i < n
        invariant
            n == b@.len(),
            i <= n,
            out@ == old(out)@ + enc_u64(b@.len() as u64) + b@.take(i as int),
        decreases n - i,
    {
        out.push(b[i]);
        proof {
            assert(out@ =~= old(out)@ + enc_u64(b@.len() as u64) + b@.take(i as int + 1));
        }
        i += 1;
    }
    proof {
        assert(b@.take(n as int) =~= b@);
        assert(old(out)@ + enc_u64(b@.len() as u64) + b@ =~= old(out)@ + enc_bytes(b@));
    }
}

fn put_position(out: &mut Vec<u8>, p: &Position)
    ensures
        final(out)@ == old(out)@ + enc_position(*p),
{
    put_u32(out, p.x);
    put_u32(out, p.y);
    put_u32(out, p.z);
    proof {
        assert(old(out)@ + enc_u32(p.x) + enc_u32(p.y) + enc_u32(p.z) =~= old(out)@ + enc_position(
            *p,
        ));
    }
}

fn put_vision(out: &mut Vec<u8>, v: &Vision)
    ensures
        final(out)@ == old(out)@ + enc_vision(*v),
{
    put_u32(out, v.x);
    put_u32(out, v.y);
    proof {
        assert(old(out)@ + enc_u32(v.x) + enc_u32(v.y) =~= old(out)@ + enc_vision(*v));
    }
}

fn put_player(out: &mut Vec<u8>, p: &Player)
    ensures
        final(out)@ == old(out)@ + enc_player(p@),
{
    put_u8(out, p.player_id);
    put_bytes(out, &p.name);
    put_position(out, &p.position);
    proof {
        assert(old(out)@ + enc_u8(p.player_id) + enc_bytes(p.name@) + enc_position(p.position)
            =~= old(out)@ + enc_player(p@));
    }
}

fn put_roster(out: &mut Vec<u8>, l: &Vec<Player>)
    ensures
        final(out)@ == old(out)@ + enc_roster(view_players(l@)),
{
    put_u64(out, l.len() as u64);
    let n = l.len();
    let mut i: usize = 0;
    while i < n
        invariant
            n == l@.len(),
            i <= n,
            out@ == old(out)@ + enc_u64(l@.len() as u64) + enc_players(
                view_players(l@).take(i as int),
            ),
        decreases n - i,
    {
        put_player(out, &l[i]);
        proof {
            let v = view_players(l@);
            assert(v.take(i as int).push(v[i as int]) =~= v.take(i as int + 1));
            lemma_enc_players_snoc(v.take(i as int), v[i as int]);
            assert(l@[i as int]@ == v[i as int]);
            assert(out@ =~= old(out)@ + enc_u64(l@.len() as u64) + enc_players(
                v.take(i as int + 1),
            ));
        }
        i += 1;
    }
    proof {
        let v = view_players(l@);
        assert(v.take(n as int) =~= v);
        assert(old(out)@ + enc_u64(l@.len() as u64) + enc_players(v) =~= old(out)@ + enc_roster(
            v,
        ));
    }
}

/// Encodes one event for the wire; the bytes are exactly [`spec_encode`] of
/// the event's image.
pub fn encode_event(e: &GameEvent) -> (out: Vec<u8>)
    ensures
        out@ == spec_encode(e@),
{
    let mut out: Vec<u8> = Vec::new();
    proof {
        assert(out@ =~= Seq::<u8>::empty());
    }
    match e {
        GameEvent::BeginGame { player_list } => {
            put_u8(&mut out, 0);
            put_roster(&mut out, player_list);
        },
        GameEvent::EndGame => {
            put_u8(&mut out, 1);
        },
        GameEvent::AccessForbidden => {
            put_u8(&mut out, 2);
        },
        GameEvent::Impact { id } => {
            put_u8(&mut out, 3);
            put_u8(&mut out, *id);
        },
        GameEvent::Death { player_id } => {
            put_u8(&mut out, 4);
            put_u8(&mut out, *player_id);
        },
        GameEvent::PlayerJoined { player_id, name, position, client_id } => {
            put_u8(&mut out, 5);
            put_u8(&mut out, *player_id);
            put_bytes(&mut out, name);
            put_position(&mut out, position);
            put_u64(&mut out, *client_id);
        },
        GameEvent::PlayerDisconnected { player_id } => {
            put_u8(&mut out, 6);
            put_u8(&mut out, *player_id);
        },
        GameEvent::PlayerMove { player_id, at, player_list, vision } => {
            put_u8(&mut out, 7);
            put_u8(&mut out, *player_id);
            put_position(&mut out, at);
            put_roster(&mut out, player_list);
            put_vision(&mut out, vision);
        },
        GameEvent::Spawn { player_id, position, lvl } => {
            put_u8(&mut out, 8);
            put_u8(&mut out, *player_id);
            put_position(&mut out, position);
            put_u64(&mut out, *lvl as u64);
        },
        GameEvent::Timer { duration } => {
            put_u8(&mut out, 9);
            put_u8(&mut out, *duration);
        },
        GameEvent::SetId { player_id } => {
            put_u8(&mut out, 10);
            put_u8(&mut out, *player_id);
        },
    }
    proof {
        assert(out@ =~= spec_encode(e@));
    }
    out
}

// ------------------------------------------------------------ exec decode

fn take_u8(s: &Vec<u8>, i: usize) -> (r: Option<(u8, usize)>)
    requires
        i <= s@.len(),
    ensures
        match r {
            Some(v) => {
                &&& i < v.1 <= s@.len()
                &&& dec_u8(s@.skip(i as int)) == Some((v.0, s@.skip(v.1 as int)))
            },
            None => dec_u8(s@.skip(i as int)) is None,
        },
{
    if i < s.len() {
        let v = s[i];
        proof {
            assert(s@.skip(i as int)[0] == s@[i as int]);
            assert(s@.skip(i as int).drop_first() =~= s@.skip(i as int + 1));
        }
        Some((v, i + 1))
    } else {
        None
    }
}

fn take_u32(s: &Vec<u8>, i: usize) -> (r: Option<(u32, usize)>)
    requires
        i <= s@.len(),
    ensures
        match r {
            Some(v) => {
                &&& i < v.1 <= s@.len()
                &&& dec_u32(s@.skip(i as int)) == Some((v.0, s@.skip(v.1 as int)))
            },
            None => dec_u32(s@.skip(i as int)) is None,
        },
{
    if s.len() - i >= 4 {
        let sub = slice_subrange(s.as_slice(), i, i + 4);
        let v = u32_from_le_bytes(sub);
        proof {
            assert(s@.skip(i as int).take(4) =~= s@.subrange(i as int, i as int + 4));
            assert(s@.skip(i as int).skip(4) =~= s@.skip(i as int + 4));
        }
        Some((v, i + 4))
    } else {
        None
    }
}

fn take_u64(s: &Vec<u8>, i: usize) -> (r: Option<(u64, usize)>)
    requires
        i <= s@.len(),
    ensures
        match r {
            Some(v) => {
                &&& i < v.1 <= s@.len()
                &&& dec_u64(s@.skip(i as int)) == Some((v.0, s@.skip(v.1 as int)))
            },
            None => dec_u64(s@.skip(i as int)) is None,
        },
{
    if s.len() - i >= 8 {
        let sub = slice_subrange(s.as_slice(), i, i + 8);
        let v = u64_from_le_bytes(sub);
        proof {
            assert(s@.skip(i as int).take(8) =~= s@.subrange(i as int, i as int + 8));
            assert(s@.skip(i as int).skip(8) =~= s@.skip(i as int + 8));
        }
        Some((v, i + 8))
    } else {
        None
    }
}

fn take_bytes(s: &Vec<u8>, i: usize) -> (r: Option<(Vec<u8>, usize)>)
    requires
        i <= s@.len(),
    ensures
        match r {
            Some(v) => {
                &&& i < v.1 <= s@.len()
                &&& dec_bytes(s@.skip(i as int)) == Some((v.0@, s@.skip(v.1 as int)))
            },
            None => dec_bytes(s@.skip(i as int)) is None,
        },
{
    match take_u64(s, i) {
        None => None,
        Some((n, j)) => {
            if n <= (s.len() - j) as u64 {
                let m = n as usize;
                let sub = slice_subrange(s.as_slice(), j, j + m);
                let out = slice_to_vec(sub);
                proof {
                    assert(s@.skip(j as int).take(n as int) =~= s@.subrange(
                        j as int,
                        j as int + m,
                    ));
                    assert(s@.skip(j as int).skip(n as int) =~= s@.skip(j as int + m));
                }
                Some((out, j + m))
            } else {
                None
            }
        },
    }
}

fn take_position(s: &Vec<u8>, i: usize) -> (r: Option<(Position, usize)>)
    requires
        i <= s@.len(),
    ensures
        match r {
            Some(v) => {
                &&& i < v.1 <= s@.len()
                &&& dec_position(s@.skip(i as int)) == Some((v.0, s@.skip(v.1 as int)))
            },
            None => dec_position(s@.skip(i as int)) is None,
        },
{
    match take_u32(s, i) {
        None => None,
        Some((x, j1)) => match take_u32(s, j1) {
            None => None,
            Some((y, j2)) => match take_u32(s, j2) {
                None => None,
                Some((z, j3)) => Some((Position { x, y, z }, j3)),
            },
        },
    }
}

fn take_vision(s: &Vec<u8>, i: usize) -> (r: Option<(Vision, usize)>)
    requires
        i <= s@.len(),
    ensures
        match r {
            Some(v) => {
                &&& i < v.1 <= s@.len()
                &&& dec_vision(s@.skip(i as int)) == Some((v.0, s@.skip(v.1 as int)))
            },
            None => dec_vision(s@.skip(i as int)) is None,
        },
{
    match take_u32(s, i) {
        None => None,
        Some((x, j1)) => match take_u32(s, j1) {
            None => None,
            Some((y, j2)) => Some((Vision { x, y }, j2)),
        },
    }
}

fn take_player(s: &Vec<u8>, i: usize) -> (r: Option<(Player, usize)>)
    requires
        i <= s@.len(),
    ensures
        match r {
            Some(v) => {
                &&& i < v.1 <= s@.len()
                &&& dec_player(s@.skip(i as int)) == Some((v.0@, s@.skip(v.1 as int)))
            },
            None => dec_player(s@.skip(i as int)) is None,
        },
{
    match take_u8(s, i) {
        None => None,
        Some((player_id, j1)) => match take_bytes(s, j1) {
            None => None,
            Some((name, j2)) => match take_position(s, j2) {
                None => None,
                Some((position, j3)) => Some((Player { player_id, name, position }, j3)),
            },
        },
    }
}

fn take_roster(s: &Vec<u8>, i: usize) -> (r: Option<(Vec<Player>, usize)>)
    requires
        i <= s@.len(),
    ensures
        match r {
            Some(v) => {
                &&& i < v.1 <= s@.len()
                &&& dec_roster(s@.skip(i as int)) == Some((view_players(v.0@), s@.skip(
                    v.1 as int,
                )))
            },
            None => dec_roster(s@.skip(i as int)) is None,
        },
{
    match take_u64(s, i) {
        None => None,
        Some((n, j0)) => {
            let mut acc: Vec<Player> = Vec::new();
            let mut j = j0;
            let mut k: u64 = 0;
            proof {
                assert(view_players(acc@) =~= Seq::<PlayerView>::empty());
                assert(view_players(acc@) + Seq::<PlayerView>::empty() =~= view_players(acc@));
            }
            while k < n
                invariant
                    k <= n,
                    i < j0 <= j <= s@.len(),
                    dec_roster(s@.skip(i as int)) == dec_players(s@.skip(j0 as int), n as nat),
                    dec_players(s@.skip(j0 as int), n as nat) == (match dec_players(
                        s@.skip(j as int),
                        (n - k) as nat,
                    ) {
                        Some(lr) => Some((view_players(acc@) + lr.0, lr.1)),
                        None => None::<(Seq<PlayerView>, Seq<u8>)>,
                    }),
                decreases n - k,
            {
                match take_player(s, j) {
                    None => {
                        return None;
                    },
                    Some((p, j2)) => {
                        let ghost acc0 = view_players(acc@);
                        let ghost pv = p@;
                        acc.push(p);
                        proof {
                            assert(view_players(acc@) =~= acc0.push(pv));
                            assert forall|l: Seq<PlayerView>|
                                true implies #[trigger] (view_players(acc@) + l) == acc0 + (
                            seq![pv] + l) by {
                                assert(view_players(acc@) + l =~= acc0 + (seq![pv] + l));
                            }
                        }
                        j = j2;
                        k = k + 1;
                    },
                }
            }
            proof {
                assert(view_players(acc@) + Seq::<PlayerView>::empty() =~= view_players(acc@));
            }
            Some((acc, j))
        },
    }
}

/// Decodes a wire buffer; yields an event exactly when [`spec_decode`]
/// does, and `None` on any malformed buffer.
pub fn decode_event(s: &Vec<u8>) -> (r: Option<GameEvent>)
    ensures
        match r {
            Some(e) => spec_decode(s@) == Some(e@),
            None => spec_decode(s@) is None,
        },
{
    proof {
        assert(s@.skip(0) =~= s@);
    }
    match take_u8(s, 0) {
        None => None,
        Some((tag, j)) => {
            if tag == 0 {
                match take_roster(s, j) {
                    None => None,
                    Some((player_list, j2)) => {
                        if j2 == s.len() {
                            Some(GameEvent::BeginGame { player_list })
                        } else {
                            None
                        }
                    },
                }
            } else if tag == 1 {
                if j == s.len() {
                    Some(GameEvent::EndGame)
                } else {
                    None
                }
            } else if tag == 2 {
                if j == s.len() {
                    Some(GameEvent::AccessForbidden)
                } else {
                    None
                }
            } else if tag == 3 {
                match take_u8(s, j) {
                    None => None,
                    Some((id, j2)) => {
                        if j2 == s.len() {
                            Some(GameEvent::Impact { id })
                        } else {
                            None
                        }
                    },
                }
            } else if tag == 4 {
                match take_u8(s, j) {
                    None => None,
                    Some((player_id, j2)) => {
                        if j2 == s.len() {
                            Some(GameEvent::Death { player_id })
                        } else {
                            None
                        }
                    },
                }
            } else if tag == 5 {
                match take_u8(s, j) {
                    None => None,
                    Some((player_id, j1)) => match take_bytes(s, j1) {
                        None => None,
                        Some((name, j2)) => match take_position(s, j2) {
                            None => None,
                            Some((position, j3)) => match take_u64(s, j3) {
                                None => None,
                                Some((client_id, j4)) => {
                                    if j4 == s.len() {
                                        Some(
                                            GameEvent::PlayerJoined {
                                                player_id,
                                                name,
                                                position,
                                                client_id,
                                            },
                                        )
                                    } else {
                                        None
                                    }
                                },
                            },
                        },
                    },
                }
            } else if tag == 6 {
                match take_u8(s, j) {
                    None => None,
                    Some((player_id, j2)) => {
                        if j2 == s.len() {
                            Some(GameEvent::PlayerDisconnected { player_id })
                        } else {
                            None
                        }
                    },
                }
            } else if tag == 7 {
                match take_u8(s, j) {
                    None => None,
                    Some((player_id, j1)) => match take_position(s, j1) {
                        None => None,
                        Some((at, j2)) => match take_roster(s, j2) {
                            None => None,
                            Some((player_list, j3)) => match take_vision(s, j3) {
                                None => None,
                                Some((vision, j4)) => {
                                    if j4 == s.len() {
                                        Some(
                                            GameEvent::PlayerMove {
                                                player_id,
                                                at,
                                                player_list,
                                                vision,
                                            },
                                        )
                                    } else {
                                        None
                                    }
                                },
                            },
                        },
                    },
                }
            } else if tag == 8 {
                match take_u8(s, j) {
                    None => None,
                    Some((player_id, j1)) => match take_position(s, j1) {
                        None => None,
                        Some((position, j2)) => match take_u64(s, j2) {
                            None => None,
                            Some((lvl64, j3)) => {
                                if j3 == s.len() && lvl64 <= usize::MAX as u64 {
                                    Some(
                                        GameEvent::Spawn {
                                            player_id,
                                            position,
                                            lvl: lvl64 as usize,
                                        },
                                    )
                                } else {
                                    None
                                }
                            },
                        },
                    },
                }
            } else if tag == 9 {
                match take_u8(s, j) {
                    None => None,
                    Some((duration, j2)) => {
                        if j2 == s.len() {
                            Some(GameEvent::Timer { duration })
                        } else {
                            None
                        }
                    },
                }
            } else if tag == 10 {
                match take_u8(s, j) {
                    None => None,
                    Some((player_id, j2)) => {
                        if j2 == s.len() {
                            Some(GameEvent::SetId { player_id })
                        } else {
                            None
                        }
                    },
                }
            } else {
                None
            }
        },
    }
}

} // verus!
