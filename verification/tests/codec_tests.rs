//! Wire-codec tests: record and request round trips, and rejection of
//! malformed bytes.

use poker_core::codec::{
    decode_game_state, decode_instruction, encode_game_state, encode_instruction,
};
use poker_core::engine::{buy_in, initialize_game, raise, start_round, Action, CallContext};
use poker_core::instruction::PokerInstruction;
use poker_core::state::{GameStage, GameState};

fn key(tag: u8) -> [u8; 32] {
    let mut k = [0u8; 32];
    k[0] = tag;
    k
}

fn ctx_for(caller: [u8; 32]) -> CallContext {
    CallContext {
        caller,
        caller_is_signer: true,
        usdc_mint: key(0xB0),
        pot_token_account: key(0xC0),
        derived_pot_key: key(0xC0),
        derived_pot_bump: 251,
        settle_destination: [0u8; 32],
    }
}

fn empty_record() -> GameState {
    GameState {
        authority: [0u8; 32],
        usdc_mint: [0u8; 32],
        pot_token_account: [0u8; 32],
        pot_bump: 0,
        max_players: 0,
        current_players: 0,
        players: Vec::new(),
        current_bet: 0,
        pot_total: 0,
        game_stage: GameStage::Waiting,
        current_player_turn: 0,
        dealer_index: 0,
        small_blind: 0,
        big_blind: 0,
    }
}

fn busy_table() -> GameState {
    let mut state = empty_record();
    assert!(initialize_game(&mut state, &ctx_for(key(0xA0)), 5).is_ok());
    assert!(buy_in(&mut state, &ctx_for(key(1)), 1_000_000).is_ok());
    assert!(buy_in(&mut state, &ctx_for(key(2)), 2_000_000).is_ok());
    assert!(buy_in(&mut state, &ctx_for(key(3)), 600_000).is_ok());
    assert!(start_round(&mut state, &ctx_for(key(0xA0))).is_ok());
    assert!(raise(&mut state, &ctx_for(key(3)), 60_000).is_ok());
    state
}

#[test]
fn record_round_trips_for_empty_table() {
    let mut state = empty_record();
    assert!(initialize_game(&mut state, &ctx_for(key(0xA0)), 5).is_ok());
    let bytes = encode_game_state(&state);
    let decoded = decode_game_state(&bytes).expect("a fresh record must decode");
    assert_eq!(decoded, state);
}

#[test]
fn record_round_trips_mid_hand() {
    let state = busy_table();
    let bytes = encode_game_state(&state);
    let decoded = decode_game_state(&bytes).expect("a mid-hand record must decode");
    assert_eq!(decoded, state);
}

#[test]
fn record_layout_is_stable() {
    let mut state = empty_record();
    assert!(initialize_game(&mut state, &ctx_for(key(0xA0)), 5).is_ok());
    let bytes = encode_game_state(&state);
    // 3 identities, 3 single bytes, an empty seat list's length prefix,
    // 2 amounts, stage, 2 pointers, 2 blinds.
    assert_eq!(bytes.len(), 32 * 3 + 3 + 4 + 8 + 8 + 1 + 1 + 1 + 8 + 8);
    assert_eq!(&bytes[0..32], &key(0xA0));
    assert_eq!(bytes[96], 251); // derived-authority bump
    assert_eq!(bytes[97], 5); // capacity
    assert_eq!(bytes[98], 0); // seated count
    assert_eq!(&bytes[99..103], &[0, 0, 0, 0]); // seat list length
    assert_eq!(&bytes[119..120], &[0]); // stage tag: Waiting
    assert_eq!(&bytes[122..130], &25_000u64.to_le_bytes());
    assert_eq!(&bytes[130..138], &50_000u64.to_le_bytes());
}

#[test]
fn truncated_record_is_rejected() {
    let state = busy_table();
    let mut bytes = encode_game_state(&state);
    bytes.pop();
    assert!(decode_game_state(&bytes).is_none());
}

#[test]
fn trailing_bytes_in_record_are_rejected() {
    let state = busy_table();
    let mut bytes = encode_game_state(&state);
    bytes.push(0);
    assert!(decode_game_state(&bytes).is_none());
}

#[test]
fn corrupt_flag_byte_is_rejected() {
    let state = busy_table();
    let mut bytes = encode_game_state(&state);
    // The first seat's `is_active` flag sits 2 bytes before the end of the
    // first seat entry; corrupt it to a non-boolean value.
    let first_seat_end = 99 + 4 + 32 + 4 + state.players[0].name.len() + 8 + 8 + 2;
    bytes[first_seat_end - 2] = 7;
    assert!(decode_game_state(&bytes).is_none());
}

#[test]
fn corrupt_stage_tag_is_rejected() {
    let mut state = empty_record();
    assert!(initialize_game(&mut state, &ctx_for(key(0xA0)), 5).is_ok());
    let mut bytes = encode_game_state(&state);
    bytes[119] = 6;
    assert!(decode_game_state(&bytes).is_none());
}

#[test]
fn instructions_round_trip() {
    let cases = vec![
        PokerInstruction::InitializeGame { max_players: 6 },
        PokerInstruction::BuyIn { amount: 1_000_000 },
        PokerInstruction::StartRound,
        PokerInstruction::Fold,
        PokerInstruction::Call,
        PokerInstruction::Raise { amount: 75_000 },
        PokerInstruction::EndRound { winner_index: 3 },
        PokerInstruction::CashOut,
        PokerInstruction::DealStep,
    ];
    for ix in cases {
        let bytes = encode_instruction(&ix);
        assert_eq!(decode_instruction(&bytes), Some(ix));
    }
}

#[test]
fn instruction_encoding_is_tag_prefixed() {
    let bytes = encode_instruction(&PokerInstruction::BuyIn { amount: 1_000_000 });
    assert_eq!(bytes[0], 1);
    assert_eq!(&bytes[1..9], &1_000_000u64.to_le_bytes());
    assert_eq!(encode_instruction(&PokerInstruction::CashOut), vec![7]);
}

#[test]
fn malformed_instructions_are_rejected() {
    assert_eq!(decode_instruction(&vec![]), None);
    assert_eq!(decode_instruction(&vec![9]), None); // unknown tag
    assert_eq!(decode_instruction(&vec![1, 0, 0]), None); // truncated amount
    assert_eq!(decode_instruction(&vec![2, 0]), None); // trailing byte
}
