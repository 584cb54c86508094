//! Behavioural tests for the instruction handlers: table setup, betting,
//! lifecycle, and the router.

use poker_core::engine::{
    advance_deal, buy_in, call, cash_out, check_well_formed, end_round, fold, initialize_game,
    process_instruction, raise, start_round, street_complete, Action, CallContext,
};
use poker_core::error::PokerError;
use poker_core::instruction::PokerInstruction;
use poker_core::state::{GameStage, GameState, BIG_BLIND, MAX_BUY_IN, MIN_BUY_IN, SMALL_BLIND};

fn key(tag: u8) -> [u8; 32] {
    let mut k = [0u8; 32];
    k[0] = tag;
    k
}

const AUTHORITY: u8 = 0xA0;
const MINT: u8 = 0xB0;
const POT: u8 = 0xC0;

fn ctx_for(caller: [u8; 32]) -> CallContext {
    CallContext {
        caller,
        caller_is_signer: true,
        usdc_mint: key(MINT),
        pot_token_account: key(POT),
        derived_pot_key: key(POT),
        derived_pot_bump: 254,
        settle_destination: [0u8; 32],
    }
}

fn fresh_table(max_players: u8) -> GameState {
    let mut state = empty_record();
    let r = initialize_game(&mut state, &ctx_for(key(AUTHORITY)), max_players);
    assert_eq!(r, Ok(Action::NoTransfer));
    state
}

/// A placeholder record for initialization to overwrite.
fn empty_record() -> GameState {
    GameState {
        authority: [0u8; 32],
        usdc_mint: [0u8; 32],
        pot_token_account: [0u8; 32],
        pot_bump: 0,
        max_players: 0,
        current_players: 0,
        players: Vec::new(),
        current_bet: 0,
        pot_total: 0,
        game_stage: GameStage::Waiting,
        current_player_turn: 0,
        dealer_index: 0,
        small_blind: 0,
        big_blind: 0,
    }
}

fn two_player_table(stack1: u64, stack2: u64) -> GameState {
    let mut state = fresh_table(6);
    assert_eq!(
        buy_in(&mut state, &ctx_for(key(1)), stack1),
        Ok(Action::DepositToPool { amount: stack1 })
    );
    assert_eq!(
        buy_in(&mut state, &ctx_for(key(2)), stack2),
        Ok(Action::DepositToPool { amount: stack2 })
    );
    state
}

fn pot_equals_commitments(state: &GameState) -> bool {
    let total: u64 = state.players.iter().map(|p| p.current_bet).sum();
    state.pot_total == total
}

#[test]
fn initialize_sets_up_empty_table() {
    let state = fresh_table(6);
    assert_eq!(state.authority, key(AUTHORITY));
    assert_eq!(state.usdc_mint, key(MINT));
    assert_eq!(state.pot_token_account, key(POT));
    assert_eq!(state.pot_bump, 254);
    assert_eq!(state.max_players, 6);
    assert_eq!(state.current_players, 0);
    assert!(state.players.is_empty());
    assert_eq!(state.current_bet, 0);
    assert_eq!(state.pot_total, 0);
    assert_eq!(state.game_stage, GameStage::Waiting);
    assert_eq!(state.small_blind, SMALL_BLIND);
    assert_eq!(state.big_blind, BIG_BLIND);
    assert!(check_well_formed(&state));
}

#[test]
fn initialize_requires_signer() {
    let mut state = empty_record();
    let mut ctx = ctx_for(key(AUTHORITY));
    ctx.caller_is_signer = false;
    assert_eq!(
        initialize_game(&mut state, &ctx, 6),
        Err(PokerError::Unauthenticated)
    );
}

#[test]
fn initialize_rejects_wrong_pot_account() {
    let mut state = empty_record();
    let mut ctx = ctx_for(key(AUTHORITY));
    ctx.pot_token_account = key(0xC1);
    assert_eq!(
        initialize_game(&mut state, &ctx, 6),
        Err(PokerError::InvalidArgument)
    );
}

#[test]
fn buy_in_seats_player_with_generated_name() {
    let state = two_player_table(1_000_000, 1_000_000);
    assert_eq!(state.current_players, 2);
    assert_eq!(state.players.len(), 2);
    assert_eq!(state.players[0].pubkey, key(1));
    assert_eq!(state.players[0].name, b"Player_1".to_vec());
    assert_eq!(state.players[1].name, b"Player_2".to_vec());
    assert_eq!(state.players[0].chips, 1_000_000);
    assert_eq!(state.players[0].current_bet, 0);
    assert!(state.players[0].is_active);
    assert!(!state.players[0].has_folded);
    assert!(check_well_formed(&state));
}

#[test]
fn buy_in_tops_up_existing_seat() {
    let mut state = two_player_table(1_000_000, 1_000_000);
    let r = buy_in(&mut state, &ctx_for(key(1)), 600_000);
    assert_eq!(r, Ok(Action::DepositToPool { amount: 600_000 }));
    assert_eq!(state.current_players, 2);
    assert_eq!(state.players[0].chips, 1_600_000);
    assert_eq!(state.players[1].chips, 1_000_000);
}

#[test]
fn buy_in_above_maximum_fails_without_mutation() {
    let mut state = two_player_table(1_000_000, 1_000_000);
    let before = state.clone();
    let r = buy_in(&mut state, &ctx_for(key(3)), MAX_BUY_IN + 1);
    assert_eq!(r, Err(PokerError::InvalidArgument));
    assert_eq!(state, before);
}

#[test]
fn buy_in_bounds_are_inclusive() {
    let mut state = fresh_table(6);
    assert!(buy_in(&mut state, &ctx_for(key(1)), MAX_BUY_IN).is_ok());
    assert!(buy_in(&mut state, &ctx_for(key(2)), MIN_BUY_IN).is_ok());
    assert_eq!(
        buy_in(&mut state, &ctx_for(key(3)), MIN_BUY_IN - 1),
        Err(PokerError::InvalidArgument)
    );
    assert_eq!(state.current_players, 2);
}

#[test]
fn buy_in_when_full_fails_with_seat_full() {
    let mut state = fresh_table(2);
    assert!(buy_in(&mut state, &ctx_for(key(1)), 1_000_000).is_ok());
    assert!(buy_in(&mut state, &ctx_for(key(2)), 1_000_000).is_ok());
    let r = buy_in(&mut state, &ctx_for(key(3)), 1_000_000);
    assert_eq!(r, Err(PokerError::SeatFull));
    // A full roster rejects even a seated caller's top-up.
    let r = buy_in(&mut state, &ctx_for(key(1)), 1_000_000);
    assert_eq!(r, Err(PokerError::SeatFull));
    assert_eq!(state.current_players, 2);
}

#[test]
fn start_round_posts_blinds() {
    // Two seats, dealer at seat 0: the seat after the dealer posts the
    // small blind, the next one the big blind.
    let mut state = two_player_table(1_000_000, 1_000_000);
    let r = start_round(&mut state, &ctx_for(key(AUTHORITY)));
    assert_eq!(r, Ok(Action::NoTransfer));
    let sb = ((state.dealer_index as usize) + 1) % 2;
    let bb = ((state.dealer_index as usize) + 2) % 2;
    assert_eq!(sb, 1);
    assert_eq!(bb, 0);
    assert_eq!(state.players[sb].chips, 1_000_000 - SMALL_BLIND);
    assert_eq!(state.players[sb].current_bet, SMALL_BLIND);
    assert_eq!(state.players[bb].chips, 1_000_000 - BIG_BLIND);
    assert_eq!(state.players[bb].current_bet, BIG_BLIND);
    assert_eq!(state.current_bet, BIG_BLIND);
    assert_eq!(state.pot_total, SMALL_BLIND + BIG_BLIND);
    assert_eq!(state.game_stage, GameStage::PreFlop);
    assert_eq!(state.current_player_turn, ((bb + 1) % 2) as u8);
    assert!(pot_equals_commitments(&state));
    assert!(check_well_formed(&state));
}

#[test]
fn start_round_needs_two_players() {
    let mut state = fresh_table(6);
    assert!(buy_in(&mut state, &ctx_for(key(1)), 1_000_000).is_ok());
    assert_eq!(
        start_round(&mut state, &ctx_for(key(AUTHORITY))),
        Err(PokerError::InvalidState)
    );
}

#[test]
fn start_round_is_authority_only() {
    let mut state = two_player_table(1_000_000, 1_000_000);
    assert_eq!(
        start_round(&mut state, &ctx_for(key(1))),
        Err(PokerError::Unauthorized)
    );
}

#[test]
fn start_round_rejected_mid_hand() {
    let mut state = two_player_table(1_000_000, 1_000_000);
    assert!(start_round(&mut state, &ctx_for(key(AUTHORITY))).is_ok());
    assert_eq!(
        start_round(&mut state, &ctx_for(key(AUTHORITY))),
        Err(PokerError::InvalidState)
    );
}

#[test]
fn call_matches_current_bet_exactly() {
    // Seat 1 (small blind) raises; seat 0 must pay exactly the difference
    // to the new current bet, leaving both commitments equal.
    let mut state = two_player_table(1_000_000, 1_000_000);
    assert!(start_round(&mut state, &ctx_for(key(AUTHORITY))).is_ok());
    let raise_by = 100_000;
    let r = raise(&mut state, &ctx_for(key(2)), raise_by);
    assert_eq!(r, Ok(Action::NoTransfer));
    assert_eq!(state.current_bet, BIG_BLIND + raise_by);
    let caller_commitment_before = state.players[0].current_bet;
    let caller_chips_before = state.players[0].chips;
    let expected_debit = state.current_bet - caller_commitment_before;
    let r = call(&mut state, &ctx_for(key(1)));
    assert_eq!(r, Ok(Action::NoTransfer));
    assert_eq!(state.players[0].chips, caller_chips_before - expected_debit);
    assert_eq!(state.players[0].current_bet, state.players[1].current_bet);
    assert!(pot_equals_commitments(&state));
    assert!(check_well_formed(&state));
}

#[test]
fn call_with_no_seat_fails_with_not_found() {
    let mut state = two_player_table(1_000_000, 1_000_000);
    assert!(start_round(&mut state, &ctx_for(key(AUTHORITY))).is_ok());
    let before = state.clone();
    assert_eq!(
        call(&mut state, &ctx_for(key(9))),
        Err(PokerError::NotFound)
    );
    assert_eq!(state, before);
}

#[test]
fn raise_with_no_seat_fails_with_not_found() {
    let mut state = two_player_table(1_000_000, 1_000_000);
    assert!(start_round(&mut state, &ctx_for(key(AUTHORITY))).is_ok());
    let before = state.clone();
    assert_eq!(
        raise(&mut state, &ctx_for(key(9)), BIG_BLIND),
        Err(PokerError::NotFound)
    );
    assert_eq!(state, before);
}

#[test]
fn raise_below_big_blind_fails() {
    let mut state = two_player_table(1_000_000, 1_000_000);
    assert!(start_round(&mut state, &ctx_for(key(AUTHORITY))).is_ok());
    let before = state.clone();
    assert_eq!(
        raise(&mut state, &ctx_for(key(2)), BIG_BLIND - 1),
        Err(PokerError::InvalidArgument)
    );
    assert_eq!(state, before);
}

#[test]
fn call_without_funds_fails() {
    let mut state = two_player_table(500_000, 5_000_000);
    assert!(start_round(&mut state, &ctx_for(key(AUTHORITY))).is_ok());
    // Seat 1 (small blind, the large stack) raises far beyond seat 0's
    // remaining stack.
    assert!(raise(&mut state, &ctx_for(key(2)), 600_000).is_ok());
    let before = state.clone();
    assert_eq!(
        call(&mut state, &ctx_for(key(1))),
        Err(PokerError::InsufficientFunds)
    );
    assert_eq!(state, before);
}

#[test]
fn betting_is_rejected_outside_a_street() {
    let mut state = two_player_table(1_000_000, 1_000_000);
    assert_eq!(
        call(&mut state, &ctx_for(key(1))),
        Err(PokerError::InvalidState)
    );
    assert_eq!(
        raise(&mut state, &ctx_for(key(1)), BIG_BLIND),
        Err(PokerError::InvalidState)
    );
    assert_eq!(
        fold(&mut state, &ctx_for(key(1))),
        Err(PokerError::InvalidState)
    );
}

#[test]
fn fold_marks_seat_and_advances_turn() {
    let mut state = two_player_table(1_000_000, 1_000_000);
    assert!(start_round(&mut state, &ctx_for(key(AUTHORITY))).is_ok());
    let turn_before = state.current_player_turn;
    let r = fold(&mut state, &ctx_for(key(1)));
    assert_eq!(r, Ok(Action::NoTransfer));
    assert!(state.players[0].has_folded);
    assert!(!state.players[0].is_active);
    assert_eq!(
        state.current_player_turn,
        ((turn_before as usize + 1) % 2) as u8
    );
    assert!(check_well_formed(&state));
}

#[test]
fn stage_advances_one_street_at_a_time() {
    let mut state = two_player_table(1_000_000, 1_000_000);
    let auth = ctx_for(key(AUTHORITY));
    assert_eq!(
        advance_deal(&mut state, &auth),
        Err(PokerError::InvalidState)
    );
    assert!(start_round(&mut state, &auth).is_ok());
    assert_eq!(state.game_stage, GameStage::PreFlop);
    assert!(advance_deal(&mut state, &auth).is_ok());
    assert_eq!(state.game_stage, GameStage::Flop);
    assert!(advance_deal(&mut state, &auth).is_ok());
    assert_eq!(state.game_stage, GameStage::Turn);
    assert!(advance_deal(&mut state, &auth).is_ok());
    assert_eq!(state.game_stage, GameStage::River);
    assert!(advance_deal(&mut state, &auth).is_ok());
    assert_eq!(state.game_stage, GameStage::Showdown);
    assert_eq!(
        advance_deal(&mut state, &auth),
        Err(PokerError::InvalidState)
    );
}

fn play_to_showdown(state: &mut GameState) {
    let auth = ctx_for(key(AUTHORITY));
    assert!(start_round(state, &auth).is_ok());
    for _ in 0..4 {
        assert!(advance_deal(state, &auth).is_ok());
    }
    assert_eq!(state.game_stage, GameStage::Showdown);
}

#[test]
fn settle_pays_pot_and_rotates_dealer() {
    let mut state = two_player_table(1_000_000, 1_000_000);
    play_to_showdown(&mut state);
    let pot = state.pot_total;
    assert_eq!(pot, SMALL_BLIND + BIG_BLIND);
    let winner_chips_before = state.players[0].chips;
    let dealer_before = state.dealer_index;
    let mut auth = ctx_for(key(AUTHORITY));
    auth.settle_destination = state.players[0].pubkey;
    let r = end_round(&mut state, &auth, 0);
    assert_eq!(r, Ok(Action::NoTransfer));
    assert_eq!(state.players[0].chips, winner_chips_before + pot);
    assert_eq!(state.pot_total, 0);
    assert_eq!(state.current_bet, 0);
    for p in &state.players {
        assert_eq!(p.current_bet, 0);
        assert!(p.is_active);
        assert!(!p.has_folded);
    }
    assert_eq!(state.game_stage, GameStage::Waiting);
    assert_eq!(state.dealer_index, ((dealer_before as usize + 1) % 2) as u8);
    assert!(check_well_formed(&state));
}

#[test]
fn settle_with_bad_index_fails_with_not_found() {
    let mut state = two_player_table(1_000_000, 1_000_000);
    play_to_showdown(&mut state);
    let before = state.clone();
    let mut auth = ctx_for(key(AUTHORITY));
    auth.settle_destination = state.players[0].pubkey;
    assert_eq!(end_round(&mut state, &auth, 2), Err(PokerError::NotFound));
    assert_eq!(state, before);
}

#[test]
fn settle_with_wrong_destination_fails() {
    let mut state = two_player_table(1_000_000, 1_000_000);
    play_to_showdown(&mut state);
    let mut auth = ctx_for(key(AUTHORITY));
    auth.settle_destination = state.players[1].pubkey;
    assert_eq!(
        end_round(&mut state, &auth, 0),
        Err(PokerError::MismatchedWinner)
    );
}

#[test]
fn settle_outside_showdown_fails() {
    let mut state = two_player_table(1_000_000, 1_000_000);
    assert!(start_round(&mut state, &ctx_for(key(AUTHORITY))).is_ok());
    let mut auth = ctx_for(key(AUTHORITY));
    auth.settle_destination = state.players[0].pubkey;
    assert_eq!(end_round(&mut state, &auth, 0), Err(PokerError::InvalidState));
}

#[test]
fn cash_out_mid_hand_fails_without_mutation() {
    let mut state = two_player_table(1_000_000, 1_000_000);
    assert!(start_round(&mut state, &ctx_for(key(AUTHORITY))).is_ok());
    let before = state.clone();
    assert_eq!(
        cash_out(&mut state, &ctx_for(key(1))),
        Err(PokerError::InvalidState)
    );
    assert_eq!(state, before);
}

#[test]
fn cash_out_removes_seat_and_pays_stack() {
    let mut state = two_player_table(1_000_000, 1_000_000);
    let r = cash_out(&mut state, &ctx_for(key(1)));
    assert_eq!(r, Ok(Action::PayoutFromPool { amount: 1_000_000 }));
    assert_eq!(state.current_players, 1);
    assert_eq!(state.players.len(), 1);
    assert_eq!(state.players[0].pubkey, key(2));
    assert!(check_well_formed(&state));
}

#[test]
fn cash_out_without_seat_fails_with_not_found() {
    let mut state = two_player_table(1_000_000, 1_000_000);
    assert_eq!(
        cash_out(&mut state, &ctx_for(key(9))),
        Err(PokerError::NotFound)
    );
}

#[test]
fn all_in_then_empty_stack_blocks_blinds_and_cash_out() {
    let mut state = two_player_table(1_000_000, 1_000_000);
    assert!(start_round(&mut state, &ctx_for(key(AUTHORITY))).is_ok());
    // Seat 1 (small blind) goes all in: commitment difference plus raise
    // equals its whole remaining stack.
    let stack = state.players[1].chips;
    let diff = state.current_bet - state.players[1].current_bet;
    let raise_by = stack - diff;
    assert!(raise(&mut state, &ctx_for(key(2)), raise_by).is_ok());
    assert_eq!(state.players[1].chips, 0);
    assert!(pot_equals_commitments(&state));
    // Seat 0 wins the showdown; seat 1 is left with nothing.
    let mut auth = ctx_for(key(AUTHORITY));
    for _ in 0..4 {
        assert!(advance_deal(&mut state, &auth).is_ok());
    }
    auth.settle_destination = state.players[0].pubkey;
    assert!(end_round(&mut state, &auth, 0).is_ok());
    assert_eq!(state.players[1].chips, 0);
    // The broke seat cannot cover a blind...
    assert_eq!(
        start_round(&mut state, &ctx_for(key(AUTHORITY))),
        Err(PokerError::InsufficientFunds)
    );
    // ...and has nothing to cash out.
    assert_eq!(
        cash_out(&mut state, &ctx_for(key(2))),
        Err(PokerError::InsufficientFunds)
    );
}

#[test]
fn unsigned_requests_are_rejected_everywhere() {
    let mut state = two_player_table(1_000_000, 1_000_000);
    let mut ctx = ctx_for(key(1));
    ctx.caller_is_signer = false;
    assert_eq!(buy_in(&mut state, &ctx, 1_000_000), Err(PokerError::Unauthenticated));
    assert_eq!(fold(&mut state, &ctx), Err(PokerError::Unauthenticated));
    assert_eq!(call(&mut state, &ctx), Err(PokerError::Unauthenticated));
    assert_eq!(raise(&mut state, &ctx, BIG_BLIND), Err(PokerError::Unauthenticated));
    assert_eq!(cash_out(&mut state, &ctx), Err(PokerError::Unauthenticated));
    let mut auth = ctx_for(key(AUTHORITY));
    auth.caller_is_signer = false;
    assert_eq!(start_round(&mut state, &auth), Err(PokerError::Unauthenticated));
    assert_eq!(advance_deal(&mut state, &auth), Err(PokerError::Unauthenticated));
    assert_eq!(end_round(&mut state, &auth, 0), Err(PokerError::Unauthenticated));
}

#[test]
fn street_complete_reflects_matched_bets() {
    let mut state = two_player_table(1_000_000, 1_000_000);
    assert!(start_round(&mut state, &ctx_for(key(AUTHORITY))).is_ok());
    // The small blind has not yet matched the big blind.
    assert!(!street_complete(&state));
    assert!(call(&mut state, &ctx_for(key(2))).is_ok());
    assert!(street_complete(&state));
}

#[test]
fn check_well_formed_rejects_corrupt_accounting() {
    let mut state = two_player_table(1_000_000, 1_000_000);
    assert!(check_well_formed(&state));
    state.pot_total = 7;
    assert!(!check_well_formed(&state));
}

#[test]
fn pot_always_equals_commitments_through_a_hand() {
    let mut state = two_player_table(1_000_000, 1_000_000);
    assert!(pot_equals_commitments(&state));
    assert!(start_round(&mut state, &ctx_for(key(AUTHORITY))).is_ok());
    assert!(pot_equals_commitments(&state));
    assert!(raise(&mut state, &ctx_for(key(2)), 75_000).is_ok());
    assert!(pot_equals_commitments(&state));
    assert!(call(&mut state, &ctx_for(key(1))).is_ok());
    assert!(pot_equals_commitments(&state));
    assert!(fold(&mut state, &ctx_for(key(1))).is_ok());
    assert!(pot_equals_commitments(&state));
}

#[test]
fn buy_in_beyond_record_headroom_fails() {
    // A record already holding nearly the whole representable value range
    // cannot take a further deposit; the handler refuses rather than let
    // the accounting overflow.
    let mut state = fresh_table(6);
    assert!(buy_in(&mut state, &ctx_for(key(1)), 1_000_000).is_ok());
    state.players[0].chips = u64::MAX - 1_000;
    assert!(check_well_formed(&state));
    let before = state.clone();
    assert_eq!(
        buy_in(&mut state, &ctx_for(key(2)), MIN_BUY_IN),
        Err(PokerError::InvalidArgument)
    );
    assert_eq!(state, before);
}

#[test]
fn lifecycle_is_authority_only() {
    let mut state = two_player_table(1_000_000, 1_000_000);
    assert!(start_round(&mut state, &ctx_for(key(AUTHORITY))).is_ok());
    assert_eq!(
        advance_deal(&mut state, &ctx_for(key(1))),
        Err(PokerError::Unauthorized)
    );
    for _ in 0..4 {
        assert!(advance_deal(&mut state, &ctx_for(key(AUTHORITY))).is_ok());
    }
    let mut ctx = ctx_for(key(1));
    ctx.settle_destination = state.players[0].pubkey;
    assert_eq!(end_round(&mut state, &ctx, 0), Err(PokerError::Unauthorized));
}

#[test]
fn check_well_formed_rejects_duplicate_identities() {
    let mut state = two_player_table(1_000_000, 1_000_000);
    state.players[1].pubkey = state.players[0].pubkey;
    assert!(!check_well_formed(&state));
}

#[test]
fn router_dispatches_and_rejects_garbage() {
    let mut state = two_player_table(1_000_000, 1_000_000);
    let auth = ctx_for(key(AUTHORITY));
    let data = poker_core::codec::encode_instruction(&PokerInstruction::StartRound);
    assert_eq!(
        process_instruction(&mut state, &auth, &data),
        Ok(Action::NoTransfer)
    );
    assert_eq!(state.game_stage, GameStage::PreFlop);
    let data = poker_core::codec::encode_instruction(&PokerInstruction::Raise { amount: 80_000 });
    assert_eq!(
        process_instruction(&mut state, &ctx_for(key(2)), &data),
        Ok(Action::NoTransfer)
    );
    assert_eq!(state.current_bet, BIG_BLIND + 80_000);
    let garbage: Vec<u8> = vec![200, 1, 2, 3];
    let before = state.clone();
    assert_eq!(
        process_instruction(&mut state, &auth, &garbage),
        Err(PokerError::MalformedInstruction)
    );
    assert_eq!(state, before);
}
