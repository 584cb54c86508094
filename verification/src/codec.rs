//! Wire codec for the game record and for requests.
//!
//! The record is one contiguous structure, read whole on every invocation
//! and written back whole after every mutation, so the encoding is the
//! single source of truth for state.  Fields are laid out in declaration
//! order: integers little-endian, booleans as one byte (`0` or `1`),
//! identities as 32 raw bytes, byte strings and the seat list prefixed by a
//! little-endian `u32` count, and tagged unions as one tag byte in variant
//! order followed by the variant's fields.
//!
//! Encoding and decoding are specified by the `spec_*` functions below;
//! the round-trip lemmas prove that decoding inverts encoding.

use vstd::prelude::*;

use vstd::bytes::lemma_auto_spec_u32_to_from_le_bytes;
use vstd::bytes::lemma_auto_spec_u64_to_from_le_bytes;
use vstd::bytes::spec_u32_from_le_bytes;
use vstd::bytes::spec_u32_to_le_bytes;
use vstd::bytes::spec_u64_from_le_bytes;
use vstd::bytes::spec_u64_to_le_bytes;
use vstd::bytes::u32_from_le_bytes;
use vstd::bytes::u32_to_le_bytes;
use vstd::bytes::u64_from_le_bytes;
use vstd::bytes::u64_to_le_bytes;

use crate::instruction::PokerInstruction;
use crate::state::GameStage;
use crate::state::GameState;
use crate::state::GameStateV;
use crate::state::Player;
use crate::state::PlayerV;
use crate::state::Pubkey;
use crate::state::MAX_NAME_LEN;

verus! {

/// One byte for a boolean.
pub open spec fn spec_encode_bool(b: bool) -> Seq<u8> {
    if b {
        seq![1u8]
    } else {
        seq![0u8]
    }
}

/// The tag byte of a stage, in declaration order.
pub open spec fn spec_stage_tag(s: GameStage) -> u8 {
    match s {
        GameStage::Waiting => 0,
        GameStage::PreFlop => 1,
        GameStage::Flop => 2,
        GameStage::Turn => 3,
        GameStage::River => 4,
        GameStage::Showdown => 5,
    }
}

/// One tag byte for a stage.
pub open spec fn spec_encode_stage(s: GameStage) -> Seq<u8> {
    seq![spec_stage_tag(s)]
}

/// A seat on the wire: identity, length-prefixed label, stack, commitment,
/// and the two flags.
pub open spec fn spec_encode_player(p: PlayerV) -> Seq<u8> {
    p.pubkey + spec_u32_to_le_bytes(p.name.len() as u32) + p.name + spec_u64_to_le_bytes(p.chips)
        + spec_u64_to_le_bytes(p.current_bet) + spec_encode_bool(p.is_active) + spec_encode_bool(
        p.has_folded,
    )
}

/// The seat list's items, in order.
pub open spec fn spec_encode_players(ps: Seq<PlayerV>) -> Seq<u8>
    decreases ps.len(),
{
    if ps.len() == 0 {
        Seq::empty()
    } else {
        spec_encode_player(ps[0]) + spec_encode_players(ps.drop_first())
    }
}

/// The whole record, fields in declaration order.
pub open spec fn spec_encode_record(g: GameStateV) -> Seq<u8> {
    g.authority + g.usdc_mint + g.pot_token_account + seq![g.pot_bump]
        + seq![g.max_players] + seq![g.current_players] + spec_u32_to_le_bytes(
        g.players.len() as u32,
    ) + spec_encode_players(g.players) + spec_u64_to_le_bytes(g.current_bet)
        + spec_u64_to_le_bytes(g.pot_total) + spec_encode_stage(g.game_stage)
        + seq![g.current_player_turn] + seq![g.dealer_index] + spec_u64_to_le_bytes(g.small_blind)
        + spec_u64_to_le_bytes(g.big_blind)
}

/// A request on the wire: tag byte, then the variant's fields.
pub open spec fn spec_encode_instruction(ix: PokerInstruction) -> Seq<u8> {
    match ix {
        PokerInstruction::InitializeGame { max_players } => seq![0u8] + seq![max_players],
        PokerInstruction::BuyIn { amount } => seq![1u8] + spec_u64_to_le_bytes(amount),
        PokerInstruction::StartRound => seq![2u8],
        PokerInstruction::Fold => seq![3u8],
        PokerInstruction::Call => seq![4u8],
        PokerInstruction::Raise { amount } => seq![5u8] + spec_u64_to_le_bytes(amount),
        PokerInstruction::EndRound { winner_index } => seq![6u8] + seq![winner_index],
        PokerInstruction::CashOut => seq![7u8],
        PokerInstruction::DealStep => seq![8u8],
    }
}

/// Read one byte; yields the byte and the remainder.
pub open spec fn spec_decode_u8(s: Seq<u8>) -> Option<(u8, Seq<u8>)> {
    if s.len() >= 1 {
        Some((s[0], s.drop_first()))
    } else {
        None
    }
}

/// Read one strict boolean byte (`0` or `1`; anything else is malformed).
pub open spec fn spec_decode_bool(s: Seq<u8>) -> Option<(bool, Seq<u8>)> {
    match spec_decode_u8(s) {
        None => None,
        Some((b, r)) => if b == 0 {
            Some((false, r))
        } else if b == 1 {
            Some((true, r))
        } else {
            None
        },
    }
}

/// Read a little-endian `u32`.
pub open spec fn spec_decode_u32(s: Seq<u8>) -> Option<(u32, Seq<u8>)> {
    if s.len() >= 4 {
        Some((spec_u32_from_le_bytes(s.take(4)), s.skip(4)))
    } else {
        None
    }
}

/// Read a little-endian `u64`.
pub open spec fn spec_decode_u64(s: Seq<u8>) -> Option<(u64, Seq<u8>)> {
    if s.len() >= 8 {
        Some((spec_u64_from_le_bytes(s.take(8)), s.skip(8)))
    } else {
        None
    }
}

/// Read `n` raw bytes.
pub open spec fn spec_decode_bytes(s: Seq<u8>, n: int) -> Option<(Seq<u8>, Seq<u8>)> {
    if 0 <= n <= s.len() {
        Some((s.take(n), s.skip(n)))
    } else {
        None
    }
}

/// Read a stage tag.
pub open spec fn spec_decode_stage(s: Seq<u8>) -> Option<(GameStage, Seq<u8>)> {
    match spec_decode_u8(s) {
        None => None,
        Some((t, r)) => if t == 0 {
            Some((GameStage::Waiting, r))
        } else if t == 1 {
            Some((GameStage::PreFlop, r))
        } else if t == 2 {
            Some((GameStage::Flop, r))
        } else if t == 3 {
            Some((GameStage::Turn, r))
        } else if t == 4 {
            Some((GameStage::River, r))
        } else if t == 5 {
            Some((GameStage::Showdown, r))
        } else {
            None
        },
    }
}

/// Read one seat.
pub open spec fn spec_decode_player(s: Seq<u8>) -> Option<(PlayerV, Seq<u8>)> {
    match spec_decode_bytes(s, 32) {
        None => None,
        Some((pubkey, s)) => match spec_decode_u32(s) {
            None => None,
            Some((name_len, s)) => match spec_decode_bytes(s, name_len as int) {
                None => None,
                Some((name, s)) => match spec_decode_u64(s) {
                    None => None,
                    Some((chips, s)) => match spec_decode_u64(s) {
                        None => None,
                        Some((current_bet, s)) => match spec_decode_bool(s) {
                            None => None,
                            Some((is_active, s)) => match spec_decode_bool(s) {
                                None => None,
                                Some((has_folded, s)) => Some(
                                    (
                                        PlayerV {
                                            pubkey,
                                            name,
                                            chips,
                                            current_bet,
                                            is_active,
                                            has_folded,
                                        },
                                        s,
                                    ),
                                ),
                            },
                        },
                    },
                },
            },
        },
    }
}

/// Read `n` seats.
pub open spec fn spec_decode_players(s: Seq<u8>, n: nat) -> Option<(Seq<PlayerV>, Seq<u8>)>
    decreases n,
{
    if n == 0 {
        Some((Seq::empty(), s))
    } else {
        match spec_decode_player(s) {
            None => None,
            Some((p, s2)) => match spec_decode_players(s2, (n - 1) as nat) {
                None => None,
                Some((ps, s3)) => Some((seq![p] + ps, s3)),
            },
        }
    }
}

/// Read a whole record; malformed unless every byte is consumed.
pub open spec fn spec_decode_record(s: Seq<u8>) -> Option<GameStateV> {
    match spec_decode_bytes(s, 32) {
        None => None,
        Some((authority, s)) => match spec_decode_bytes(s, 32) {
            None => None,
            Some((usdc_mint, s)) => match spec_decode_bytes(s, 32) {
                None => None,
                Some((pot_token_account, s)) => match spec_decode_u8(s) {
                    None => None,
                    Some((pot_bump, s)) => match spec_decode_u8(s) {
                        None => None,
                        Some((max_players, s)) => match spec_decode_u8(s) {
                            None => None,
                            Some((current_players, s)) => match spec_decode_u32(s) {
                                None => None,
                                Some((count, s)) => match spec_decode_players(s, count as nat) {
                                    None => None,
                                    Some((players, s)) => match spec_decode_u64(s) {
                                        None => None,
                                        Some((current_bet, s)) => match spec_decode_u64(s) {
                                            None => None,
                                            Some((pot_total, s)) => match spec_decode_stage(s) {
                                                None => None,
                                                Some((game_stage, s)) => match spec_decode_u8(s) {
                                                    None => None,
                                                    Some((current_player_turn, s)) => match spec_decode_u8(
                                                        s,
                                                    ) {
                                                        None => None,
                                                        Some((dealer_index, s)) => match spec_decode_u64(
                                                            s,
                                                        ) {
                                                            None => None,
                                                            Some((small_blind, s)) => match spec_decode_u64(
                                                                s,
                                                            ) {
                                                                None => None,
                                                                Some((big_blind, s)) => if s.len()
                                                                    == 0 {
                                                                    Some(
                                                                        GameStateV {
                                                                            authority,
                                                                            usdc_mint,
                                                                            pot_token_account,
                                                                            pot_bump,
                                                                            max_players,
                                                                            current_players,
                                                                            players,
                                                                            current_bet,
                                                                            pot_total,
                                                                            game_stage,
                                                                            current_player_turn,
                                                                            dealer_index,
                                                                            small_blind,
                                                                            big_blind,
                                                                        },
                                                                    )
                                                                } else {
                                                                    None
                                                                },
                                                            },
                                                        },
                                                    },
                                                },
                                            },
                                        },
                                    },
                                },
                            },
                        },
                    },
                },
            },
        },
    }
}

/// Read a whole request; malformed unless every byte is consumed.
pub open spec fn spec_decode_instruction(s: Seq<u8>) -> Option<PokerInstruction> {
    match spec_decode_u8(s) {
        None => None,
        Some((tag, s)) => if tag == 0 {
            match spec_decode_u8(s) {
                None => None,
                Some((max_players, s)) => if s.len() == 0 {
                    Some(PokerInstruction::InitializeGame { max_players })
                } else {
                    None
                },
            }
        } else if tag == 1 {
            match spec_decode_u64(s) {
                None => None,
                Some((amount, s)) => if s.len() == 0 {
                    Some(PokerInstruction::BuyIn { amount })
                } else {
                    None
                },
            }
        } else if tag == 2 {
            if s.len() == 0 {
                Some(PokerInstruction::StartRound)
            } else {
                None
            }
        } else if tag == 3 {
            if s.len() == 0 {
                Some(PokerInstruction::Fold)
            } else {
                None
            }
        } else if tag == 4 {
            if s.len() == 0 {
                Some(PokerInstruction::Call)
            } else {
                None
            }
        } else if tag == 5 {
            match spec_decode_u64(s) {
                None => None,
                Some((amount, s)) => if s.len() == 0 {
                    Some(PokerInstruction::Raise { amount })
                } else {
                    None
                },
            }
        } else if tag == 6 {
            match spec_decode_u8(s) {
                None => None,
                Some((winner_index, s)) => if s.len() == 0 {
                    Some(PokerInstruction::EndRound { winner_index })
                } else {
                    None
                },
            }
        } else if tag == 7 {
            if s.len() == 0 {
                Some(PokerInstruction::CashOut)
            } else {
                None
            }
        } else if tag == 8 {
            if s.len() == 0 {
                Some(PokerInstruction::DealStep)
            } else {
                None
            }
        } else {
            None
        },
    }
}

/// Reading `pre.len()` raw bytes off `pre + rest` yields `pre` and `rest`.
proof fn lemma_decode_bytes_prefix(pre: Seq<u8>, rest: Seq<u8>)
    ensures
        spec_decode_bytes(pre + rest, pre.len() as int) == Some((pre, rest)),
{
    assert((pre + rest).take(pre.len() as int) =~= pre);
    assert((pre + rest).skip(pre.len() as int) =~= rest);
}

/// Reading one byte off `seq![b] + rest` yields `b` and `rest`.
proof fn lemma_decode_u8_prefix(b: u8, rest: Seq<u8>)
    ensures
        spec_decode_u8(seq![b] + rest) == Some((b, rest)),
{
    assert((seq![b] + rest).drop_first() =~= rest);
}

/// Reading a boolean off its encoding followed by `rest` yields it back.
proof fn lemma_decode_bool_prefix(b: bool, rest: Seq<u8>)
    ensures
        spec_decode_bool(spec_encode_bool(b) + rest) == Some((b, rest)),
{
    if b {
        lemma_decode_u8_prefix(1u8, rest);
    } else {
        lemma_decode_u8_prefix(0u8, rest);
    }
}

/// Reading a `u32` off its encoding followed by `rest` yields it back.
proof fn lemma_decode_u32_prefix(x: u32, rest: Seq<u8>)
    ensures
        spec_decode_u32(spec_u32_to_le_bytes(x) + rest) == Some((x, rest)),
{
    lemma_auto_spec_u32_to_from_le_bytes();
    let s = spec_u32_to_le_bytes(x) + rest;
    assert(s.take(4) =~= spec_u32_to_le_bytes(x));
    assert(s.skip(4) =~= rest);
}

/// Reading a `u64` off its encoding followed by `rest` yields it back.
proof fn lemma_decode_u64_prefix(x: u64, rest: Seq<u8>)
    ensures
        spec_decode_u64(spec_u64_to_le_bytes(x) + rest) == Some((x, rest)),
{
    lemma_auto_spec_u64_to_from_le_bytes();
    let s = spec_u64_to_le_bytes(x) + rest;
    assert(s.take(8) =~= spec_u64_to_le_bytes(x));
    assert(s.skip(8) =~= rest);
}

/// Reading a stage off its encoding followed by `rest` yields it back.
proof fn lemma_decode_stage_prefix(st: GameStage, rest: Seq<u8>)
    ensures
        spec_decode_stage(spec_encode_stage(st) + rest) == Some((st, rest)),
{
    lemma_decode_u8_prefix(spec_stage_tag(st), rest);
}

/// Reading a seat off its encoding followed by `rest` yields it back.
proof fn lemma_decode_player_prefix(p: PlayerV, rest: Seq<u8>)
    requires
        p.pubkey.len() == 32,
        p.name.len() <= u32::MAX,
    ensures
        spec_decode_player(spec_encode_player(p) + rest) == Some((p, rest)),
{
    let t5 = spec_encode_bool(p.has_folded) + rest;
    let t4 = spec_encode_bool(p.is_active) + t5;
    let t3 = spec_u64_to_le_bytes(p.current_bet) + t4;
    let t2 = spec_u64_to_le_bytes(p.chips) + t3;
    let t1 = p.name + t2;
    let t0 = spec_u32_to_le_bytes(p.name.len() as u32) + t1;
    assert(spec_encode_player(p) + rest =~= p.pubkey + t0);
    lemma_decode_bytes_prefix(p.pubkey, t0);
    lemma_decode_u32_prefix(p.name.len() as u32, t1);
    lemma_decode_bytes_prefix(p.name, t2);
    lemma_decode_u64_prefix(p.chips, t3);
    lemma_decode_u64_prefix(p.current_bet, t4);
    lemma_decode_bool_prefix(p.is_active, t5);
    lemma_decode_bool_prefix(p.has_folded, rest);
}

/// Reading `ps.len()` seats off their encoding followed by `rest` yields
/// them back.
#[verifier::rlimit(100)]
proof fn lemma_decode_players_prefix(ps: Seq<PlayerV>, rest: Seq<u8>)
    requires
        forall|i: int|
            0 <= i < ps.len() ==> (#[trigger] ps[i]).pubkey.len() == 32 && ps[i].name.len()
                <= u32::MAX,
    ensures
        spec_decode_players(spec_encode_players(ps) + rest, ps.len() as nat) == Some((ps, rest)),
    decreases ps.len(),
{
    if ps.len() == 0 {
        assert(spec_encode_players(ps) + rest =~= rest);
        assert(spec_decode_players(rest, 0) == Some((Seq::<PlayerV>::empty(), rest)));
        assert(ps =~= Seq::<PlayerV>::empty());
    } else {
        let tail = spec_encode_players(ps.drop_first()) + rest;
        assert(spec_encode_players(ps) + rest =~= spec_encode_player(ps[0]) + tail);
        lemma_decode_player_prefix(ps[0], tail);
        lemma_decode_players_prefix(ps.drop_first(), rest);
        assert(seq![ps[0]] + ps.drop_first() =~= ps);
    }
}

/// Read one byte at `pos`.
fn read_u8(bytes: &Vec<u8>, pos: usize) -> (r: Option<(u8, usize)>)
    requires
        pos <= bytes@.len(),
    ensures
        match r {
            Some((x, p2)) => {
                &&& spec_decode_u8(bytes@.skip(pos as int)) == Some((x, bytes@.skip(p2 as int)))
                &&& pos < p2 <= bytes@.len()
            },
            None => spec_decode_u8(bytes@.skip(pos as int)) is None,
        },
{
    if pos < bytes.len() {
        let x = bytes[pos];
        proof {
            let s = bytes@.skip(pos as int);
            assert(s[0] == bytes@[pos as int]);
            assert(s.drop_first() =~= bytes@.skip(pos as int + 1));
        }
        Some((x, pos + 1))
    } else {
        None
    }
}

/// Read one strict boolean byte at `pos`.
fn read_bool(bytes: &Vec<u8>, pos: usize) -> (r: Option<(bool, usize)>)
    requires
        pos <= bytes@.len(),
    ensures
        match r {
            Some((x, p2)) => {
                &&& spec_decode_bool(bytes@.skip(pos as int)) == Some((x, bytes@.skip(p2 as int)))
                &&& pos < p2 <= bytes@.len()
            },
            None => spec_decode_bool(bytes@.skip(pos as int)) is None,
        },
{
    match read_u8(bytes, pos) {
        None => None,
        Some((b, p2)) => {
            if b == 0 {
                Some((false, p2))
            } else if b == 1 {
                Some((true, p2))
            } else {
                None
            }
        },
    }
}

/// Read a little-endian `u32` at `pos`.
fn read_u32(bytes: &Vec<u8>, pos: usize) -> (r: Option<(u32, usize)>)
    requires
        pos <= bytes@.len(),
    ensures
        match r {
            Some((x, p2)) => {
                &&& spec_decode_u32(bytes@.skip(pos as int)) == Some((x, bytes@.skip(p2 as int)))
                &&& pos < p2 <= bytes@.len()
            },
            None => spec_decode_u32(bytes@.skip(pos as int)) is None,
        },
{
    if bytes.len() - pos >= 4 {
        let sub = vstd::slice::slice_subrange(bytes.as_slice(), pos, pos + 4);
        let x = u32_from_le_bytes(sub);
        proof {
            let s = bytes@.skip(pos as int);
            assert(s.take(4) =~= bytes@.subrange(pos as int, pos as int + 4));
            assert(s.skip(4) =~= bytes@.skip(pos as int + 4));
        }
        Some((x, pos + 4))
    } else {
        None
    }
}

/// Read a little-endian `u64` at `pos`.
fn read_u64(bytes: &Vec<u8>, pos: usize) -> (r: Option<(u64, usize)>)
    requires
        pos <= bytes@.len(),
    ensures
        match r {
            Some((x, p2)) => {
                &&& spec_decode_u64(bytes@.skip(pos as int)) == Some((x, bytes@.skip(p2 as int)))
                &&& pos < p2 <= bytes@.len()
            },
            None => spec_decode_u64(bytes@.skip(pos as int)) is None,
        },
{
    if bytes.len() - pos >= 8 {
        let sub = vstd::slice::slice_subrange(bytes.as_slice(), pos, pos + 8);
        let x = u64_from_le_bytes(sub);
        proof {
            let s = bytes@.skip(pos as int);
            assert(s.take(8) =~= bytes@.subrange(pos as int, pos as int + 8));
            assert(s.skip(8) =~= bytes@.skip(pos as int + 8));
        }
        Some((x, pos + 8))
    } else {
        None
    }
}

/// Read a 32-byte identity at `pos`.
fn read_pubkey(bytes: &Vec<u8>, pos: usize) -> (r: Option<(Pubkey, usize)>)
    requires
        pos <= bytes@.len(),
    ensures
        match r {
            Some((k, p2)) => {
                &&& spec_decode_bytes(bytes@.skip(pos as int), 32) == Some(
                    (k@, bytes@.skip(p2 as int)),
                )
                &&& pos < p2 <= bytes@.len()
            },
            None => spec_decode_bytes(bytes@.skip(pos as int), 32) is None,
        },
{
    if bytes.len() - pos >= 32 {
        let mut k: Pubkey = [0u8; 32];
        let mut i: usize = 0;
        while i < 32
            invariant
                pos + 32 <= bytes@.len(),
                bytes@.len() <= usize::MAX,
                0 <= i <= 32,
                forall|m: int| 0 <= m < i ==> k@[m] == bytes@[pos + m],
            decreases 32 - i,
        {
            k[i] = bytes[pos + i];
            i += 1;
        }
        proof {
            let s = bytes@.skip(pos as int);
            assert(k@ =~= s.take(32));
            assert(s.skip(32) =~= bytes@.skip(pos as int + 32));
        }
        Some((k, pos + 32))
    } else {
        None
    }
}

/// Read a length-prefixed byte string at `pos`.
fn read_name(bytes: &Vec<u8>, pos: usize) -> (r: Option<(Vec<u8>, usize)>)
    requires
        pos <= bytes@.len(),
    ensures
        match r {
            Some((v, p2)) => {
                &&& spec_decode_u32(bytes@.skip(pos as int)) matches Some((n, s1))
                &&& spec_decode_bytes(s1, n as int) == Some((v@, bytes@.skip(p2 as int)))
                &&& pos < p2 <= bytes@.len()
            },
            None => {
                ||| spec_decode_u32(bytes@.skip(pos as int)) is None
                ||| (spec_decode_u32(bytes@.skip(pos as int)) matches Some((n, s1))
                    && spec_decode_bytes(s1, n as int) is None)
            },
        },
{
    match read_u32(bytes, pos) {
        None => None,
        Some((n, p1)) => {
            if bytes.len() - p1 < n as usize {
                proof {
                    assert(bytes@.skip(p1 as int).len() < n as int);
                }
                return None;
            }
            let end = p1 + n as usize;
            let mut v: Vec<u8> = Vec::new();
            let mut i: usize = p1;
            while i < end
                invariant
                    p1 <= i <= end,
                    end <= bytes@.len(),
                    v@ =~= bytes@.subrange(p1 as int, i as int),
                decreases end - i,
            {
                v.push(bytes[i]);
                assert(v@ =~= bytes@.subrange(p1 as int, i as int + 1));
                i += 1;
            }
            proof {
                let s1 = bytes@.skip(p1 as int);
                assert(v@ =~= s1.take(n as int));
                assert(s1.skip(n as int) =~= bytes@.skip(end as int));
            }
            Some((v, end))
        },
    }
}

/// Read a stage tag at `pos`.
fn read_stage(bytes: &Vec<u8>, pos: usize) -> (r: Option<(GameStage, usize)>)
    requires
        pos <= bytes@.len(),
    ensures
        match r {
            Some((st, p2)) => {
                &&& spec_decode_stage(bytes@.skip(pos as int)) == Some(
                    (st, bytes@.skip(p2 as int)),
                )
                &&& pos < p2 <= bytes@.len()
            },
            None => spec_decode_stage(bytes@.skip(pos as int)) is None,
        },
{
    match read_u8(bytes, pos) {
        None => None,
        Some((t, p2)) => {
            if t == 0 {
                Some((GameStage::Waiting, p2))
            } else if t == 1 {
                Some((GameStage::PreFlop, p2))
            } else if t == 2 {
                Some((GameStage::Flop, p2))
            } else if t == 3 {
                Some((GameStage::Turn, p2))
            } else if t == 4 {
                Some((GameStage::River, p2))
            } else if t == 5 {
                Some((GameStage::Showdown, p2))
            } else {
                None
            }
        },
    }
}

/// Read one seat at `pos`.
fn read_player(bytes: &Vec<u8>, pos: usize) -> (r: Option<(Player, usize)>)
    requires
        pos <= bytes@.len(),
    ensures
        match r {
            Some((p, p2)) => {
                &&& spec_decode_player(bytes@.skip(pos as int)) == Some(
                    (p@, bytes@.skip(p2 as int)),
                )
                &&& pos < p2 <= bytes@.len()
            },
            None => spec_decode_player(bytes@.skip(pos as int)) is None,
        },
{
    let (pubkey, pos) = match read_pubkey(bytes, pos) {
        None => {
            return None;
        },
        Some(x) => x,
    };
    let (name, pos) = match read_name(bytes, pos) {
        None => {
            return None;
        },
        Some(x) => x,
    };
    let (chips, pos) = match read_u64(bytes, pos) {
        None => {
            return None;
        },
        Some(x) => x,
    };
    let (current_bet, pos) = match read_u64(bytes, pos) {
        None => {
            return None;
        },
        Some(x) => x,
    };
    let (is_active, pos) = match read_bool(bytes, pos) {
        None => {
            return None;
        },
        Some(x) => x,
    };
    let (has_folded, pos) = match read_bool(bytes, pos) {
        None => {
            return None;
        },
        Some(x) => x,
    };
    Some((Player { pubkey, name, chips, current_bet, is_active, has_folded }, pos))
}

/// Decode a whole record; `None` on any malformation, trailing bytes
/// included.
#[verifier::loop_isolation(false)]
pub fn decode_game_state(bytes: &Vec<u8>) -> (r: Option<GameState>)
    ensures
        match r {
            Some(g) => spec_decode_record(bytes@) == Some(g@),
            None => spec_decode_record(bytes@) is None,
        },
{
    proof {
        assert(bytes@.skip(0) =~= bytes@);
    }
    let (authority, pos) = match read_pubkey(bytes, 0) {
        None => {
            return None;
        },
        Some(x) => x,
    };
    let (usdc_mint, pos) = match read_pubkey(bytes, pos) {
        None => {
            return None;
        },
        Some(x) => x,
    };
    let (pot_token_account, pos) = match read_pubkey(bytes, pos) {
        None => {
            return None;
        },
        Some(x) => x,
    };
    let (pot_bump, pos) = match read_u8(bytes, pos) {
        None => {
            return None;
        },
        Some(x) => x,
    };
    let (max_players, pos) = match read_u8(bytes, pos) {
        None => {
            return None;
        },
        Some(x) => x,
    };
    let (current_players, pos) = match read_u8(bytes, pos) {
        None => {
            return None;
        },
        Some(x) => x,
    };
    let (count, pos) = match read_u32(bytes, pos) {
        None => {
            return None;
        },
        Some(x) => x,
    };
    let ghost list_start = pos as int;
    let mut players: Vec<Player> = Vec::new();
    let mut pos = pos;
    let mut k: u32 = 0;
    proof {
        assert(players@.map_values(|p: Player| p@) =~= Seq::<PlayerV>::empty());
    }
    while k < count
        invariant
            pos <= bytes@.len(),
            0 <= k <= count,
            players@.len() == k as int,
            (match spec_decode_players(bytes@.skip(list_start), count as nat) {
                None => spec_decode_players(bytes@.skip(pos as int), (count - k) as nat) is None,
                Some((ps, rest)) => spec_decode_players(
                    bytes@.skip(pos as int),
                    (count - k) as nat,
                ) matches Some((tail, r2)) && ps == players@.map_values(|p: Player| p@) + tail
                    && rest == r2,
            }),
        decreases count - k,
    {
        let ghost players_pre = players@;
        let ghost pos_pre = pos as int;
        match read_player(bytes, pos) {
            None => {
                return None;
            },
            Some((p, p2)) => {
                let ghost pv = p@;
                players.push(p);
                pos = p2;
                proof {
                    assert(players@.map_values(|q: Player| q@) =~= players_pre.map_values(
                        |q: Player| q@,
                    ).push(pv));
                    let m = (count - k) as nat;
                    assert(spec_decode_player(bytes@.skip(pos_pre)) == Some(
                        (pv, bytes@.skip(p2 as int)),
                    ));
                    match spec_decode_players(bytes@.skip(p2 as int), (m - 1) as nat) {
                        None => {
                            assert(spec_decode_players(bytes@.skip(pos_pre), m) is None);
                        },
                        Some((tail2, r3)) => {
                            assert(spec_decode_players(bytes@.skip(pos_pre), m) == Some(
                                (seq![pv] + tail2, r3),
                            ));
                            assert(players_pre.map_values(|q: Player| q@) + (seq![pv] + tail2)
                                =~= players_pre.map_values(|q: Player| q@).push(pv) + tail2);
                        },
                    }
                }
            },
        }
        k += 1;
    }
    proof {
        assert(spec_decode_players(bytes@.skip(pos as int), 0) == Some(
            (Seq::<PlayerV>::empty(), bytes@.skip(pos as int)),
        ));
        assert(players@.map_values(|p: Player| p@) + Seq::<PlayerV>::empty() =~= players@.map_values(
            |p: Player| p@,
        ));
    }
    let (current_bet, pos) = match read_u64(bytes, pos) {
        None => {
            return None;
        },
        Some(x) => x,
    };
    let (pot_total, pos) = match read_u64(bytes, pos) {
        None => {
            return None;
        },
        Some(x) => x,
    };
    let (game_stage, pos) = match read_stage(bytes, pos) {
        None => {
            return None;
        },
        Some(x) => x,
    };
    let (current_player_turn, pos) = match read_u8(bytes, pos) {
        None => {
            return None;
        },
        Some(x) => x,
    };
    let (dealer_index, pos) = match read_u8(bytes, pos) {
        None => {
            return None;
        },
        Some(x) => x,
    };
    let (small_blind, pos) = match read_u64(bytes, pos) {
        None => {
            return None;
        },
        Some(x) => x,
    };
    let (big_blind, pos) = match read_u64(bytes, pos) {
        None => {
            return None;
        },
        Some(x) => x,
    };
    if pos != bytes.len() {
        proof {
            assert(bytes@.skip(pos as int).len() != 0);
        }
        return None;
    }
    let g = GameState {
        authority,
        usdc_mint,
        pot_token_account,
        pot_bump,
        max_players,
        current_players,
        players,
        current_bet,
        pot_total,
        game_stage,
        current_player_turn,
        dealer_index,
        small_blind,
        big_blind,
    };
    proof {
        assert(bytes@.skip(pos as int).len() == 0);
        assert(spec_decode_record(bytes@) == Some(g@));
    }
    Some(g)
}

/// Decode a request; `None` on any malformation, trailing bytes included.
pub fn decode_instruction(bytes: &Vec<u8>) -> (r: Option<PokerInstruction>)
    ensures
        match r {
            Some(ix) => spec_decode_instruction(bytes@) == Some(ix),
            None => spec_decode_instruction(bytes@) is None,
        },
{
    proof {
        assert(bytes@.skip(0) =~= bytes@);
    }
    let (tag, pos) = match read_u8(bytes, 0) {
        None => {
            return None;
        },
        Some(x) => x,
    };
    if tag == 0 {
        match read_u8(bytes, pos) {
            None => None,
            Some((max_players, p2)) => {
                if p2 == bytes.len() {
                    assert(bytes@.skip(p2 as int).len() == 0);
                    Some(PokerInstruction::InitializeGame { max_players })
                } else {
                    assert(bytes@.skip(p2 as int).len() != 0);
                    None
                }
            },
        }
    } else if tag == 1 {
        match read_u64(bytes, pos) {
            None => None,
            Some((amount, p2)) => {
                if p2 == bytes.len() {
                    assert(bytes@.skip(p2 as int).len() == 0);
                    Some(PokerInstruction::BuyIn { amount })
                } else {
                    assert(bytes@.skip(p2 as int).len() != 0);
                    None
                }
            },
        }
    } else if tag == 2 {
        if pos == bytes.len() {
            assert(bytes@.skip(pos as int).len() == 0);
            Some(PokerInstruction::StartRound)
        } else {
            assert(bytes@.skip(pos as int).len() != 0);
            None
        }
    } else if tag == 3 {
        if pos == bytes.len() {
            assert(bytes@.skip(pos as int).len() == 0);
            Some(PokerInstruction::Fold)
        } else {
            assert(bytes@.skip(pos as int).len() != 0);
            None
        }
    } else if tag == 4 {
        if pos == bytes.len() {
            assert(bytes@.skip(pos as int).len() == 0);
            Some(PokerInstruction::Call)
        } else {
            assert(bytes@.skip(pos as int).len() != 0);
            None
        }
    } else if tag == 5 {
        match read_u64(bytes, pos) {
            None => None,
            Some((amount, p2)) => {
                if p2 == bytes.len() {
                    assert(bytes@.skip(p2 as int).len() == 0);
                    Some(PokerInstruction::Raise { amount })
                } else {
                    assert(bytes@.skip(p2 as int).len() != 0);
                    None
                }
            },
        }
    } else if tag == 6 {
        match read_u8(bytes, pos) {
            None => None,
            Some((winner_index, p2)) => {
                if p2 == bytes.len() {
                    assert(bytes@.skip(p2 as int).len() == 0);
                    Some(PokerInstruction::EndRound { winner_index })
                } else {
                    assert(bytes@.skip(p2 as int).len() != 0);
                    None
                }
            },
        }
    } else if tag == 7 {
        if pos == bytes.len() {
            assert(bytes@.skip(pos as int).len() == 0);
            Some(PokerInstruction::CashOut)
        } else {
            assert(bytes@.skip(pos as int).len() != 0);
            None
        }
    } else if tag == 8 {
        if pos == bytes.len() {
            assert(bytes@.skip(pos as int).len() == 0);
            Some(PokerInstruction::DealStep)
        } else {
            assert(bytes@.skip(pos as int).len() != 0);
            None
        }
    } else {
        None
    }
}

/// Decoding inverts encoding: a well-formed record comes back identical
/// from its own wire image.
#[verifier::rlimit(100)]
pub proof fn lemma_record_round_trip(g: GameStateV)
    requires
        g.wf(),
    ensures
        spec_decode_record(spec_encode_record(g)) == Some(g),
{
    let empty = Seq::<u8>::empty();
    let t13 = spec_u64_to_le_bytes(g.big_blind) + empty;
    let t12 = spec_u64_to_le_bytes(g.small_blind) + t13;
    let t11 = seq![g.dealer_index] + t12;
    let t10 = seq![g.current_player_turn] + t11;
    let t9 = spec_encode_stage(g.game_stage) + t10;
    let t8 = spec_u64_to_le_bytes(g.pot_total) + t9;
    let t7 = spec_u64_to_le_bytes(g.current_bet) + t8;
    let t6 = spec_encode_players(g.players) + t7;
    let t5 = spec_u32_to_le_bytes(g.players.len() as u32) + t6;
    let t4 = seq![g.current_players] + t5;
    let t3 = seq![g.max_players] + t4;
    let t2 = seq![g.pot_bump] + t3;
    let t1 = g.pot_token_account + t2;
    let t0 = g.usdc_mint + t1;
    assert(spec_encode_record(g) =~= g.authority + t0);
    lemma_decode_bytes_prefix(g.authority, t0);
    lemma_decode_bytes_prefix(g.usdc_mint, t1);
    lemma_decode_bytes_prefix(g.pot_token_account, t2);
    lemma_decode_u8_prefix(g.pot_bump, t3);
    lemma_decode_u8_prefix(g.max_players, t4);
    lemma_decode_u8_prefix(g.current_players, t5);
    lemma_decode_u32_prefix(g.players.len() as u32, t6);
    lemma_decode_players_prefix(g.players, t7);
    lemma_decode_u64_prefix(g.current_bet, t8);
    lemma_decode_u64_prefix(g.pot_total, t9);
    lemma_decode_stage_prefix(g.game_stage, t10);
    lemma_decode_u8_prefix(g.current_player_turn, t11);
    lemma_decode_u8_prefix(g.dealer_index, t12);
    lemma_decode_u64_prefix(g.small_blind, t13);
    lemma_decode_u64_prefix(g.big_blind, empty);
}

/// Splitting a seat list splits its encoding.
proof fn lemma_encode_players_append(a: Seq<PlayerV>, b: Seq<PlayerV>)
    ensures
        spec_encode_players(a + b) == spec_encode_players(a) + spec_encode_players(b),
    decreases a.len(),
{
    if a.len() == 0 {
        assert(a + b =~= b);
        assert(spec_encode_players(a) + spec_encode_players(b) =~= spec_encode_players(b));
    } else {
        assert((a + b)[0] == a[0]);
        assert((a + b).drop_first() =~= a.drop_first() + b);
        lemma_encode_players_append(a.drop_first(), b);
        assert(spec_encode_players(a + b) =~= spec_encode_player(a[0]) + (spec_encode_players(
            a.drop_first(),
        ) + spec_encode_players(b)));
        assert(spec_encode_player(a[0]) + (spec_encode_players(a.drop_first())
            + spec_encode_players(b)) =~= spec_encode_players(a) + spec_encode_players(b));
    }
}

/// Append an identity's 32 bytes.
fn push_pubkey(out: &mut Vec<u8>, k: &Pubkey)
    ensures
        final(out)@ == old(out)@ + k@,
{
    let mut i: usize = 0;
    while i < 32
        invariant
            0 <= i <= 32,
            out@ == old(out)@ + k@.take(i as int),
        decreases 32 - i,
    {
        out.push(k[i]);
        assert(out@ =~= old(out)@ + k@.take(i as int + 1));
        i += 1;
    }
    assert(k@.take(32) =~= k@);
}

/// Append a byte string's bytes, without a length prefix.
fn push_raw(out: &mut Vec<u8>, v: &Vec<u8>)
    ensures
        final(out)@ == old(out)@ + v@,
{
    let n = v.len();
    let mut i: usize = 0;
    while i < n
        invariant
            n == v@.len(),
            0 <= i <= n,
            out@ == old(out)@ + v@.take(i as int),
        decreases n - i,
    {
        out.push(v[i]);
        assert(out@ =~= old(out)@ + v@.take(i as int + 1));
        i += 1;
    }
    assert(v@.take(n as int) =~= v@);
}

/// Append a little-endian `u32`.
fn push_u32(out: &mut Vec<u8>, x: u32)
    ensures
        final(out)@ == old(out)@ + spec_u32_to_le_bytes(x),
{
    let mut b = u32_to_le_bytes(x);
    out.append(&mut b);
}

/// Append a little-endian `u64`.
fn push_u64(out: &mut Vec<u8>, x: u64)
    ensures
        final(out)@ == old(out)@ + spec_u64_to_le_bytes(x),
{
    let mut b = u64_to_le_bytes(x);
    out.append(&mut b);
}

/// Append a boolean byte.
fn push_bool(out: &mut Vec<u8>, b: bool)
    ensures
        final(out)@ == old(out)@ + spec_encode_bool(b),
{
    out.push(if b {
        1
    } else {
        0
    });
    assert(out@ =~= old(out)@ + spec_encode_bool(b));
}

/// Append a stage's tag byte.
fn push_stage(out: &mut Vec<u8>, s: GameStage)
    ensures
        final(out)@ == old(out)@ + spec_encode_stage(s),
{
    let tag: u8 = match s {
        GameStage::Waiting => 0,
        GameStage::PreFlop => 1,
        GameStage::Flop => 2,
        GameStage::Turn => 3,
        GameStage::River => 4,
        GameStage::Showdown => 5,
    };
    out.push(tag);
    assert(out@ =~= old(out)@ + spec_encode_stage(s));
}

/// Append one seat.
fn push_player(out: &mut Vec<u8>, p: &Player)
    requires
        p@.name.len() <= u32::MAX,
    ensures
        final(out)@ == old(out)@ + spec_encode_player(p@),
{
    push_pubkey(out, &p.pubkey);
    push_u32(out, p.name.len() as u32);
    push_raw(out, &p.name);
    push_u64(out, p.chips);
    push_u64(out, p.current_bet);
    push_bool(out, p.is_active);
    push_bool(out, p.has_folded);
    assert(out@ =~= old(out)@ + spec_encode_player(p@));
}

/// Encode the whole record for write-back.
pub fn encode_game_state(state: &GameState) -> (out: Vec<u8>)
    requires
        state@.wf(),
    ensures
        out@ == spec_encode_record(state@),
{
    let mut out: Vec<u8> = Vec::new();
    push_pubkey(&mut out, &state.authority);
    push_pubkey(&mut out, &state.usdc_mint);
    push_pubkey(&mut out, &state.pot_token_account);
    out.push(state.pot_bump);
    out.push(state.max_players);
    out.push(state.current_players);
    push_u32(&mut out, state.players.len() as u32);
    let ghost header = out@;
    let n = state.players.len();
    let mut i: usize = 0;
    proof {
        assert(state@.players.take(0) =~= Seq::<PlayerV>::empty());
        assert(out@ =~= header + spec_encode_players(state@.players.take(0)));
    }
    while i < n
        invariant
            state@.wf(),
            n == state@.players.len(),
            n == state.players@.len(),
            0 <= i <= n,
            out@ == header + spec_encode_players(state@.players.take(i as int)),
        decreases n - i,
    {
        proof {
            assert(state@.players[i as int] == state.players@[i as int]@);
            assert(state@.players[i as int].name.len() <= MAX_NAME_LEN as int);
        }
        push_player(&mut out, &state.players[i]);
        proof {
            let ps = state@.players;
            let one = seq![ps[i as int]];
            assert(ps.take(i as int + 1) =~= ps.take(i as int) + one);
            lemma_encode_players_append(ps.take(i as int), one);
            assert(one[0] == ps[i as int]);
            assert(one.drop_first() =~= Seq::<PlayerV>::empty());
            assert(spec_encode_players(Seq::<PlayerV>::empty()) =~= Seq::<u8>::empty());
            assert(spec_encode_players(one) =~= spec_encode_player(ps[i as int]));
            assert(out@ =~= header + spec_encode_players(ps.take(i as int + 1)));
        }
        i += 1;
    }
    proof {
        assert(state@.players.take(n as int) =~= state@.players);
    }
    push_u64(&mut out, state.current_bet);
    push_u64(&mut out, state.pot_total);
    push_stage(&mut out, state.game_stage);
    out.push(state.current_player_turn);
    out.push(state.dealer_index);
    push_u64(&mut out, state.small_blind);
    push_u64(&mut out, state.big_blind);
    proof {
        assert(out@ =~= spec_encode_record(state@));
    }
    out
}

/// Encode a request.
pub fn encode_instruction(ix: &PokerInstruction) -> (out: Vec<u8>)
    ensures
        out@ == spec_encode_instruction(*ix),
{
    let mut out: Vec<u8> = Vec::new();
    match ix {
        PokerInstruction::InitializeGame { max_players } => {
            out.push(0);
            out.push(*max_players);
        },
        PokerInstruction::BuyIn { amount } => {
            out.push(1);
            push_u64(&mut out, *amount);
        },
        PokerInstruction::StartRound => {
            out.push(2);
        },
        PokerInstruction::Fold => {
            out.push(3);
        },
        PokerInstruction::Call => {
            out.push(4);
        },
        PokerInstruction::Raise { amount } => {
            out.push(5);
            push_u64(&mut out, *amount);
        },
        PokerInstruction::EndRound { winner_index } => {
            out.push(6);
            out.push(*winner_index);
        },
        PokerInstruction::CashOut => {
            out.push(7);
        },
        PokerInstruction::DealStep => {
            out.push(8);
        },
    }
    proof {
        assert(out@ =~= spec_encode_instruction(*ix));
    }
    out
}

/// Decoding inverts encoding for requests.
pub proof fn lemma_instruction_round_trip(ix: PokerInstruction)
    ensures
        spec_decode_instruction(spec_encode_instruction(ix)) == Some(ix),
{
    let empty = Seq::<u8>::empty();
    match ix {
        PokerInstruction::InitializeGame { max_players } => {
            assert(spec_encode_instruction(ix) =~= seq![0u8] + (seq![max_players] + empty));
            lemma_decode_u8_prefix(0u8, seq![max_players] + empty);
            lemma_decode_u8_prefix(max_players, empty);
        },
        PokerInstruction::BuyIn { amount } => {
            assert(spec_encode_instruction(ix) =~= seq![1u8] + (spec_u64_to_le_bytes(amount)
                + empty));
            lemma_decode_u8_prefix(1u8, spec_u64_to_le_bytes(amount) + empty);
            lemma_decode_u64_prefix(amount, empty);
        },
        PokerInstruction::StartRound => {
            assert(spec_encode_instruction(ix) =~= seq![2u8] + empty);
            lemma_decode_u8_prefix(2u8, empty);
        },
        PokerInstruction::Fold => {
            assert(spec_encode_instruction(ix) =~= seq![3u8] + empty);
            lemma_decode_u8_prefix(3u8, empty);
        },
        PokerInstruction::Call => {
            assert(spec_encode_instruction(ix) =~= seq![4u8] + empty);
            lemma_decode_u8_prefix(4u8, empty);
        },
        PokerInstruction::Raise { amount } => {
            assert(spec_encode_instruction(ix) =~= seq![5u8] + (spec_u64_to_le_bytes(amount)
                + empty));
            lemma_decode_u8_prefix(5u8, spec_u64_to_le_bytes(amount) + empty);
            lemma_decode_u64_prefix(amount, empty);
        },
        PokerInstruction::EndRound { winner_index } => {
            assert(spec_encode_instruction(ix) =~= seq![6u8] + (seq![winner_index] + empty));
            lemma_decode_u8_prefix(6u8, seq![winner_index] + empty);
            lemma_decode_u8_prefix(winner_index, empty);
        },
        PokerInstruction::CashOut => {
            assert(spec_encode_instruction(ix) =~= seq![7u8] + empty);
            lemma_decode_u8_prefix(7u8, empty);
        },
        PokerInstruction::DealStep => {
            assert(spec_encode_instruction(ix) =~= seq![8u8] + empty);
            lemma_decode_u8_prefix(8u8, empty);
        },
    }
}

} // verus!
