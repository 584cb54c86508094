//! Instruction handlers: roster management, betting, round lifecycle, and
//! the router that dispatches decoded requests.
//!
//! Each handler takes the game record by exclusive reference for the
//! duration of one call (the host serializes calls per record), validates in
//! the fixed order authentication → authorization → state shape → funds,
//! and either applies its whole mutation or returns an error with the record
//! untouched.  The `Action` a handler returns names the single external
//! value movement the host must perform atomically with the write-back.
//!
//! Every handler's contract is an exact transition relation over the
//! record's view, so the full behaviour — which error on which input, and
//! the complete new record on success — is pinned down.

use vstd::prelude::*;

use crate::codec::decode_instruction;
use crate::codec::spec_decode_instruction;
use crate::error::PokerError;
use crate::instruction::PokerInstruction;
use crate::state::bets_of;
use crate::state::chips_of;
use crate::state::lemma_sum_by_element_bound;
use crate::state::lemma_sum_by_nonneg;
use crate::state::lemma_sum_by_push;
use crate::state::lemma_sum_by_remove;
use crate::state::lemma_sum_by_update;
use crate::state::lemma_sum_by_zero;
use crate::state::spec_is_street;
use crate::state::stage_index;
use crate::state::sum_by;
use crate::state::GameStage;
use crate::state::GameState;
use crate::state::GameStateV;
use crate::state::Player;
use crate::state::PlayerV;
use crate::state::Pubkey;
use crate::state::pubkey_eq;
use crate::state::BIG_BLIND;
use crate::state::MAX_BUY_IN;
use crate::state::MAX_NAME_LEN;
use crate::state::MIN_BUY_IN;
use crate::state::SMALL_BLIND;

verus! {

/// Host-supplied facts about one call: who signed it, and the addresses the
/// host resolved for this table.  The host authenticates the caller; the
/// core only compares identities for equality.
#[derive(Clone, Copy, Debug)]
pub struct CallContext {
    /// The authenticated caller identity.
    pub caller: Pubkey,
    /// Whether the caller actually signed the request.
    pub caller_is_signer: bool,
    /// Mint of the custodial token, for record creation.
    pub usdc_mint: Pubkey,
    /// The pooled escrow account the request names.
    pub pot_token_account: Pubkey,
    /// The escrow address derived from the record's storage identity.
    pub derived_pot_key: Pubkey,
    /// Bump byte of the derived pool authority.
    pub derived_pot_bump: u8,
    /// External destination for a settlement payout; must match the winning
    /// seat's identity.
    pub settle_destination: Pubkey,
}

/// The one external value movement a successful handler asks the host to
/// perform atomically with the record write-back.
#[derive(Clone, Copy, Debug, PartialEq, Eq, Structural)]
pub enum Action {
    /// No external movement.
    NoTransfer,
    /// Move `amount` from the caller's external balance into the pool.
    DepositToPool { amount: u64 },
    /// Move `amount` from the pool to the caller's external balance, under
    /// the derived pool authority.
    PayoutFromPool { amount: u64 },
}

/// The stage one street after `s` (identity outside the streets).
pub open spec fn spec_next_stage(s: GameStage) -> GameStage {
    match s {
        GameStage::Waiting => GameStage::Waiting,
        GameStage::PreFlop => GameStage::Flop,
        GameStage::Flop => GameStage::Turn,
        GameStage::Turn => GameStage::River,
        GameStage::River => GameStage::Showdown,
        GameStage::Showdown => GameStage::Showdown,
    }
}

/// Stages only move forward, except the settlement reset from `Showdown`
/// back to `Waiting`, which empties the pot.
pub open spec fn stage_steps_forward(pre: GameStateV, post: GameStateV) -> bool {
    ||| stage_index(pre.game_stage) <= stage_index(post.game_stage)
    ||| (pre.game_stage is Showdown && post.game_stage is Waiting && post.pot_total == 0)
}

/// Turn and dealer pointers advance by one seat, wrapping over the roster.
pub open spec fn spec_next_index(t: u8, n: int) -> int
    recommends
        n > 0,
{
    (t + 1) % n
}

/// Decimal digits of `n`, most significant first.
pub open spec fn spec_decimal(n: nat) -> Seq<u8>
    decreases n,
{
    if n < 10 {
        seq![(48 + n) as u8]
    } else {
        spec_decimal(n / 10).push((48 + n % 10) as u8)
    }
}

/// Display label of the seat joining as participant number `n`.
pub open spec fn spec_player_name(n: nat) -> Seq<u8> {
    seq![80u8, 108u8, 97u8, 121u8, 101u8, 114u8, 95u8] + spec_decimal(n)
}

/// Numbers below one thousand print in at most three digits.
proof fn lemma_decimal_len(n: nat)
    requires
        n < 1000,
    ensures
        spec_decimal(n).len() <= (if n < 10 { 1int } else if n < 100 { 2int } else { 3int }),
    decreases n,
{
    if n >= 10 {
        assert(n / 10 < 100 && (n < 100 ==> n / 10 < 10)) by (nonlinear_arith)
            requires n < 1000;
        lemma_decimal_len(n / 10);
    }
}

/// Append the decimal digits of `n`.
fn push_decimal(out: &mut Vec<u8>, n: usize)
    requires
        n < 1000,
    ensures
        final(out)@ == old(out)@ + spec_decimal(n as nat),
    decreases n,
{
    if n < 10 {
        out.push((48 + n) as u8);
        assert(out@ =~= old(out)@ + spec_decimal(n as nat));
    } else {
        push_decimal(out, n / 10);
        out.push((48 + n % 10) as u8);
        assert(out@ =~= old(out)@ + spec_decimal(n as nat));
    }
}

/// Build the display label for participant number `n`.
fn make_player_name(n: usize) -> (r: Vec<u8>)
    requires
        n < 1000,
    ensures
        r@ == spec_player_name(n as nat),
        r@.len() <= 10,
{
    let mut out: Vec<u8> = Vec::new();
    out.push(80);
    out.push(108);
    out.push(97);
    out.push(121);
    out.push(101);
    out.push(114);
    out.push(95);
    assert(out@ =~= seq![80u8, 108u8, 97u8, 121u8, 101u8, 114u8, 95u8]);
    push_decimal(&mut out, n);
    proof {
        lemma_decimal_len(n as nat);
    }
    out
}

/// Find the seat an identity holds.
fn find_seat(state: &GameState, key: &Pubkey) -> (r: Option<usize>)
    requires
        state@.wf(),
    ensures
        match r {
            Some(i) => {
                &&& state@.has_seat(key@)
                &&& i as int == state@.seat_index(key@)
                &&& 0 <= i < state@.players.len()
                &&& state@.players[i as int].pubkey == key@
            },
            None => !state@.has_seat(key@),
        },
{
    let n = state.players.len();
    let mut i: usize = 0;
    while i < n
        invariant
            state@.wf(),
            n == state@.players.len(),
            0 <= i <= n,
            forall|k: int| 0 <= k < i ==> (#[trigger] state@.players[k]).pubkey != key@,
        decreases n - i,
    {
        if pubkey_eq(&state.players[i].pubkey, key) {
            proof {
                assert(state@.players[i as int].pubkey == key@);
                assert(state@.has_seat(key@));
                let j = state@.seat_index(key@);
                assert(0 <= j < state@.players.len() && state@.players[j].pubkey == key@);
                assert(j == i as int);
            }
            return Some(i);
        }
        i += 1;
    }
    None
}

/// Advance a wrapping seat pointer by one.
fn next_index(t: u8, n: u8) -> (r: u8)
    requires
        n > 0,
    ensures
        r as int == spec_next_index(t, n as int),
{
    (((t as usize) + 1) % (n as usize)) as u8
}

/// Sum of all stacks, which the record's invariant keeps within `u64`.
fn total_chips(state: &GameState) -> (r: u64)
    requires
        state@.wf(),
    ensures
        r as int == sum_by(state@.players, chips_of()),
        r as int + state@.pot_total <= u64::MAX,
{
    let ghost ps = state@.players;
    let n = state.players.len();
    let mut acc: u64 = 0;
    let mut i: usize = 0;
    proof {
        assert(ps.skip(0) =~= ps);
    }
    while i < n
        invariant
            state@.wf(),
            ps == state@.players,
            n == ps.len(),
            0 <= i <= n,
            acc as int + sum_by(ps.skip(i as int), chips_of()) == sum_by(ps, chips_of()),
        decreases n - i,
    {
        proof {
            let rest = ps.skip(i as int);
            assert(rest[0] == ps[i as int]);
            assert(rest.drop_first() =~= ps.skip(i as int + 1));
            lemma_sum_by_nonneg(ps.skip(i as int + 1), chips_of());
            assert(chips_of()(ps[i as int]) == ps[i as int].chips as int);
        }
        acc = acc + state.players[i].chips;
        i += 1;
    }
    proof {
        assert(ps.skip(n as int) =~= Seq::<PlayerV>::empty());
    }
    acc
}

/// The record a table starts from: empty roster, stage `Waiting`, the
/// configured blind schedule, and the caller as authority.
pub open spec fn spec_fresh_record(ctx: CallContext, max_players: u8) -> GameStateV {
    GameStateV {
        authority: ctx.caller@,
        usdc_mint: ctx.usdc_mint@,
        pot_token_account: ctx.pot_token_account@,
        pot_bump: ctx.derived_pot_bump,
        max_players,
        current_players: 0,
        players: Seq::empty(),
        current_bet: 0,
        pot_total: 0,
        game_stage: GameStage::Waiting,
        current_player_turn: 0,
        dealer_index: 0,
        small_blind: SMALL_BLIND,
        big_blind: BIG_BLIND,
    }
}

/// Exact behaviour of record creation.  The caller must sign, and the named
/// escrow account must be the one derived from the record's storage
/// identity; then the record is overwritten with a fresh table.
pub open spec fn initialize_transition(
    pre: GameStateV,
    ctx: CallContext,
    max_players: u8,
    post: GameStateV,
    r: Result<Action, PokerError>,
) -> bool {
    if !ctx.caller_is_signer {
        r == Err::<Action, PokerError>(PokerError::Unauthenticated) && post == pre
    } else if ctx.derived_pot_key@ != ctx.pot_token_account@ {
        r == Err::<Action, PokerError>(PokerError::InvalidArgument) && post == pre
    } else {
        r == Ok::<Action, PokerError>(Action::NoTransfer) && post == spec_fresh_record(
            ctx,
            max_players,
        )
    }
}

/// Create the table record.  No precondition: this is the one handler that
/// may run against an uninitialized record, which it overwrites whole.
pub fn initialize_game(state: &mut GameState, ctx: &CallContext, max_players: u8) -> (r: Result<
    Action,
    PokerError,
>)
    ensures
        initialize_transition(old(state)@, *ctx, max_players, final(state)@, r),
        r is Ok ==> final(state)@.wf(),
{
    if !ctx.caller_is_signer {
        return Err(PokerError::Unauthenticated);
    }
    if !pubkey_eq(&ctx.derived_pot_key, &ctx.pot_token_account) {
        return Err(PokerError::InvalidArgument);
    }
    let fresh = GameState {
        authority: ctx.caller,
        usdc_mint: ctx.usdc_mint,
        pot_token_account: ctx.pot_token_account,
        pot_bump: ctx.derived_pot_bump,
        max_players,
        current_players: 0,
        players: Vec::new(),
        current_bet: 0,
        pot_total: 0,
        game_stage: GameStage::Waiting,
        current_player_turn: 0,
        dealer_index: 0,
        small_blind: SMALL_BLIND,
        big_blind: BIG_BLIND,
    };
    *state = fresh;
    proof {
        assert(state@.players =~= Seq::<PlayerV>::empty());
        assert(state@ =~= spec_fresh_record(*ctx, max_players));
        assert(sum_by(state@.players, bets_of()) == 0);
        assert(sum_by(state@.players, chips_of()) == 0);
    }
    Ok(Action::NoTransfer)
}

/// The seat a newcomer receives for a buy-in of `amount`.
pub open spec fn spec_new_seat(key: Seq<u8>, name: Seq<u8>, amount: u64) -> PlayerV {
    PlayerV {
        pubkey: key,
        name,
        chips: amount,
        current_bet: 0,
        is_active: true,
        has_folded: false,
    }
}

/// Exact behaviour of a buy-in.  The amount must lie within the configured
/// bounds and fit the record's headroom; a full roster rejects even seated
/// callers; a seated caller tops up, a new caller gets a fresh seat.  On
/// success the host owes the pool a deposit of `amount`.
pub open spec fn buy_in_transition(
    pre: GameStateV,
    ctx: CallContext,
    amount: u64,
    post: GameStateV,
    r: Result<Action, PokerError>,
) -> bool {
    let key = ctx.caller@;
    if !ctx.caller_is_signer {
        r == Err::<Action, PokerError>(PokerError::Unauthenticated) && post == pre
    } else if amount > MAX_BUY_IN {
        r == Err::<Action, PokerError>(PokerError::InvalidArgument) && post == pre
    } else if amount < MIN_BUY_IN {
        r == Err::<Action, PokerError>(PokerError::InvalidArgument) && post == pre
    } else if pre.current_players >= pre.max_players {
        r == Err::<Action, PokerError>(PokerError::SeatFull) && post == pre
    } else if pre.total_value() + amount > u64::MAX {
        r == Err::<Action, PokerError>(PokerError::InvalidArgument) && post == pre
    } else if pre.has_seat(key) {
        let i = pre.seat_index(key);
        let p = pre.players[i];
        r == Ok::<Action, PokerError>(Action::DepositToPool { amount }) && post == GameStateV {
            players: pre.players.update(i, PlayerV { chips: (p.chips + amount) as u64, ..p }),
            ..pre
        }
    } else {
        let seat = spec_new_seat(key, spec_player_name((pre.current_players + 1) as nat), amount);
        r == Ok::<Action, PokerError>(Action::DepositToPool { amount }) && post == GameStateV {
            players: pre.players.push(seat),
            current_players: (pre.current_players + 1) as u8,
            ..pre
        }
    }
}

/// Join the table, or top up an existing seat's stack.
pub fn buy_in(state: &mut GameState, ctx: &CallContext, amount: u64) -> (r: Result<
    Action,
    PokerError,
>)
    requires
        old(state)@.wf(),
    ensures
        buy_in_transition(old(state)@, *ctx, amount, final(state)@, r),
        final(state)@.wf(),
        stage_steps_forward(old(state)@, final(state)@),
{
    if !ctx.caller_is_signer {
        return Err(PokerError::Unauthenticated);
    }
    if amount > MAX_BUY_IN {
        return Err(PokerError::InvalidArgument);
    }
    if amount < MIN_BUY_IN {
        return Err(PokerError::InvalidArgument);
    }
    if state.current_players >= state.max_players {
        return Err(PokerError::SeatFull);
    }
    let stacks = total_chips(state);
    let headroom = u64::MAX - state.pot_total - stacks;
    if amount > headroom {
        return Err(PokerError::InvalidArgument);
    }
    let ghost pre = state@;
    match find_seat(state, &ctx.caller) {
        Some(i) => {
            proof {
                lemma_sum_by_element_bound(pre.players, chips_of(), i as int);
            }
            let new_chips = state.players[i].chips + amount;
            state.players[i].chips = new_chips;
            proof {
                let p = pre.players[i as int];
                let p2 = PlayerV { chips: (p.chips + amount) as u64, ..p };
                assert(state@.players =~= pre.players.update(i as int, p2));
                lemma_sum_by_update(pre.players, chips_of(), i as int, p2);
                lemma_sum_by_update(pre.players, bets_of(), i as int, p2);
                assert(state@ =~= GameStateV {
                    players: pre.players.update(i as int, p2),
                    ..pre
                });
            }
            Ok(Action::DepositToPool { amount })
        },
        None => {
            let name = make_player_name(state.current_players as usize + 1);
            let seat = Player {
                pubkey: ctx.caller,
                name,
                chips: amount,
                current_bet: 0,
                is_active: true,
                has_folded: false,
            };
            let ghost seat_v = seat@;
            state.players.push(seat);
            state.current_players = state.current_players + 1;
            proof {
                assert(state@.players =~= pre.players.push(seat_v));
                lemma_sum_by_push(pre.players, chips_of(), seat_v);
                lemma_sum_by_push(pre.players, bets_of(), seat_v);
                assert(state@ =~= GameStateV {
                    players: pre.players.push(seat_v),
                    current_players: (pre.current_players + 1) as u8,
                    ..pre
                });
            }
            Ok(Action::DepositToPool { amount })
        },
    }
}

/// Exact behaviour of a fold.  Legal only on a betting street and for a
/// seated caller; marks the seat folded and inactive and advances the turn
/// pointer by one, wrapping over the roster.
pub open spec fn fold_transition(
    pre: GameStateV,
    ctx: CallContext,
    post: GameStateV,
    r: Result<Action, PokerError>,
) -> bool {
    let key = ctx.caller@;
    if !ctx.caller_is_signer {
        r == Err::<Action, PokerError>(PokerError::Unauthenticated) && post == pre
    } else if !spec_is_street(pre.game_stage) {
        r == Err::<Action, PokerError>(PokerError::InvalidState) && post == pre
    } else if !pre.has_seat(key) {
        r == Err::<Action, PokerError>(PokerError::NotFound) && post == pre
    } else {
        let i = pre.seat_index(key);
        let p = pre.players[i];
        r == Ok::<Action, PokerError>(Action::NoTransfer) && post == GameStateV {
            players: pre.players.update(i, PlayerV { has_folded: true, is_active: false, ..p }),
            current_player_turn: spec_next_index(
                pre.current_player_turn,
                pre.current_players as int,
            ) as u8,
            ..pre
        }
    }
}

/// Fold the caller's hand.
pub fn fold(state: &mut GameState, ctx: &CallContext) -> (r: Result<Action, PokerError>)
    requires
        old(state)@.wf(),
    ensures
        fold_transition(old(state)@, *ctx, final(state)@, r),
        final(state)@.wf(),
        stage_steps_forward(old(state)@, final(state)@),
{
    if !ctx.caller_is_signer {
        return Err(PokerError::Unauthenticated);
    }
    if !is_street(state.game_stage) {
        return Err(PokerError::InvalidState);
    }
    let ghost pre = state@;
    match find_seat(state, &ctx.caller) {
        None => Err(PokerError::NotFound),
        Some(i) => {
            state.players[i].has_folded = true;
            state.players[i].is_active = false;
            state.current_player_turn = next_index(
                state.current_player_turn,
                state.current_players,
            );
            proof {
                let p = pre.players[i as int];
                let p2 = PlayerV { has_folded: true, is_active: false, ..p };
                assert(state@.players =~= pre.players.update(i as int, p2));
                lemma_sum_by_update(pre.players, chips_of(), i as int, p2);
                lemma_sum_by_update(pre.players, bets_of(), i as int, p2);
                assert(state@ =~= GameStateV {
                    players: pre.players.update(i as int, p2),
                    current_player_turn: spec_next_index(
                        pre.current_player_turn,
                        pre.current_players as int,
                    ) as u8,
                    ..pre
                });
            }
            Ok(Action::NoTransfer)
        },
    }
}

/// Exact behaviour of a call.  The caller owes the difference between the
/// table's current bet and the seat's commitment; the stack must cover it;
/// the difference moves from stack to pot and the turn advances.
pub open spec fn call_transition(
    pre: GameStateV,
    ctx: CallContext,
    post: GameStateV,
    r: Result<Action, PokerError>,
) -> bool {
    let key = ctx.caller@;
    if !ctx.caller_is_signer {
        r == Err::<Action, PokerError>(PokerError::Unauthenticated) && post == pre
    } else if !spec_is_street(pre.game_stage) {
        r == Err::<Action, PokerError>(PokerError::InvalidState) && post == pre
    } else if !pre.has_seat(key) {
        r == Err::<Action, PokerError>(PokerError::NotFound) && post == pre
    } else {
        let i = pre.seat_index(key);
        let p = pre.players[i];
        let needed = pre.current_bet - p.current_bet;
        if needed > p.chips {
            r == Err::<Action, PokerError>(PokerError::InsufficientFunds) && post == pre
        } else {
            r == Ok::<Action, PokerError>(Action::NoTransfer) && post == GameStateV {
                players: pre.players.update(
                    i,
                    PlayerV { chips: (p.chips - needed) as u64, current_bet: pre.current_bet, ..p },
                ),
                pot_total: (pre.pot_total + needed) as u64,
                current_player_turn: spec_next_index(
                    pre.current_player_turn,
                    pre.current_players as int,
                ) as u8,
                ..pre
            }
        }
    }
}

/// Match the table's current bet.
pub fn call(state: &mut GameState, ctx: &CallContext) -> (r: Result<Action, PokerError>)
    requires
        old(state)@.wf(),
    ensures
        call_transition(old(state)@, *ctx, final(state)@, r),
        final(state)@.wf(),
        stage_steps_forward(old(state)@, final(state)@),
{
    if !ctx.caller_is_signer {
        return Err(PokerError::Unauthenticated);
    }
    if !is_street(state.game_stage) {
        return Err(PokerError::InvalidState);
    }
    let ghost pre = state@;
    match find_seat(state, &ctx.caller) {
        None => Err(PokerError::NotFound),
        Some(i) => {
            let needed = state.current_bet - state.players[i].current_bet;
            if needed > state.players[i].chips {
                return Err(PokerError::InsufficientFunds);
            }
            proof {
                lemma_sum_by_element_bound(pre.players, chips_of(), i as int);
            }
            if needed > 0 {
                let new_chips = state.players[i].chips - needed;
                let new_bet = state.players[i].current_bet + needed;
                state.players[i].chips = new_chips;
                state.players[i].current_bet = new_bet;
                state.pot_total = state.pot_total + needed;
            }
            state.current_player_turn = next_index(
                state.current_player_turn,
                state.current_players,
            );
            proof {
                let p = pre.players[i as int];
                let needed_s = pre.current_bet - p.current_bet;
                let p2 = PlayerV {
                    chips: (p.chips - needed_s) as u64,
                    current_bet: pre.current_bet,
                    ..p
                };
                assert(state@.players =~= pre.players.update(i as int, p2));
                lemma_sum_by_update(pre.players, chips_of(), i as int, p2);
                lemma_sum_by_update(pre.players, bets_of(), i as int, p2);
                assert(state@ =~= GameStateV {
                    players: pre.players.update(i as int, p2),
                    pot_total: (pre.pot_total + needed_s) as u64,
                    current_player_turn: spec_next_index(
                        pre.current_player_turn,
                        pre.current_players as int,
                    ) as u8,
                    ..pre
                });
            }
            Ok(Action::NoTransfer)
        },
    }
}

/// Exact behaviour of a raise.  The caller owes the difference to the
/// current bet plus the raise; the raise must reach the big blind and the
/// stack must cover the whole commitment; the table's current bet grows by
/// the raise and the turn advances.
pub open spec fn raise_transition(
    pre: GameStateV,
    ctx: CallContext,
    amount: u64,
    post: GameStateV,
    r: Result<Action, PokerError>,
) -> bool {
    let key = ctx.caller@;
    if !ctx.caller_is_signer {
        r == Err::<Action, PokerError>(PokerError::Unauthenticated) && post == pre
    } else if !spec_is_street(pre.game_stage) {
        r == Err::<Action, PokerError>(PokerError::InvalidState) && post == pre
    } else if !pre.has_seat(key) {
        r == Err::<Action, PokerError>(PokerError::NotFound) && post == pre
    } else {
        let i = pre.seat_index(key);
        let p = pre.players[i];
        let needed = pre.current_bet - p.current_bet + amount;
        if needed > p.chips {
            r == Err::<Action, PokerError>(PokerError::InsufficientFunds) && post == pre
        } else if amount < pre.big_blind {
            r == Err::<Action, PokerError>(PokerError::InvalidArgument) && post == pre
        } else {
            r == Ok::<Action, PokerError>(Action::NoTransfer) && post == GameStateV {
                players: pre.players.update(
                    i,
                    PlayerV {
                        chips: (p.chips - needed) as u64,
                        current_bet: (pre.current_bet + amount) as u64,
                        ..p
                    },
                ),
                current_bet: (pre.current_bet + amount) as u64,
                pot_total: (pre.pot_total + needed) as u64,
                current_player_turn: spec_next_index(
                    pre.current_player_turn,
                    pre.current_players as int,
                ) as u8,
                ..pre
            }
        }
    }
}

/// Raise the table's current bet by `amount`.
pub fn raise(state: &mut GameState, ctx: &CallContext, amount: u64) -> (r: Result<
    Action,
    PokerError,
>)
    requires
        old(state)@.wf(),
    ensures
        raise_transition(old(state)@, *ctx, amount, final(state)@, r),
        final(state)@.wf(),
        stage_steps_forward(old(state)@, final(state)@),
{
    if !ctx.caller_is_signer {
        return Err(PokerError::Unauthenticated);
    }
    if !is_street(state.game_stage) {
        return Err(PokerError::InvalidState);
    }
    let ghost pre = state@;
    match find_seat(state, &ctx.caller) {
        None => Err(PokerError::NotFound),
        Some(i) => {
            let call_part = state.current_bet - state.players[i].current_bet;
            let needed_wide: u128 = call_part as u128 + amount as u128;
            if needed_wide > state.players[i].chips as u128 {
                return Err(PokerError::InsufficientFunds);
            }
            if amount < state.big_blind {
                return Err(PokerError::InvalidArgument);
            }
            proof {
                lemma_sum_by_element_bound(pre.players, chips_of(), i as int);
            }
            let needed = needed_wide as u64;
            let new_chips = state.players[i].chips - needed;
            let new_bet = state.current_bet + amount;
            state.players[i].chips = new_chips;
            state.players[i].current_bet = new_bet;
            state.current_bet = new_bet;
            state.pot_total = state.pot_total + needed;
            state.current_player_turn = next_index(
                state.current_player_turn,
                state.current_players,
            );
            proof {
                let p = pre.players[i as int];
                let needed_s = pre.current_bet - p.current_bet + amount;
                let p2 = PlayerV {
                    chips: (p.chips - needed_s) as u64,
                    current_bet: (pre.current_bet + amount) as u64,
                    ..p
                };
                assert(state@.players =~= pre.players.update(i as int, p2));
                lemma_sum_by_update(pre.players, chips_of(), i as int, p2);
                lemma_sum_by_update(pre.players, bets_of(), i as int, p2);
                assert(state@ =~= GameStateV {
                    players: pre.players.update(i as int, p2),
                    current_bet: (pre.current_bet + amount) as u64,
                    pot_total: (pre.pot_total + needed_s) as u64,
                    current_player_turn: spec_next_index(
                        pre.current_player_turn,
                        pre.current_players as int,
                    ) as u8,
                    ..pre
                });
            }
            Ok(Action::NoTransfer)
        },
    }
}

/// One past `a`, modulo `n`, written without the modulo.
proof fn lemma_mod_succ(a: int, n: int)
    requires
        n >= 2,
        a >= 0,
    ensures
        (a + 1) % n == if a % n == n - 1 {
            0int
        } else {
            a % n + 1
        },
{
    vstd::arithmetic::div_mod::lemma_mod_division_less_than_divisor(a, n);
    vstd::arithmetic::div_mod::lemma_add_mod_noop(a, 1, n);
    vstd::arithmetic::div_mod::lemma_small_mod(1nat, n as nat);
    if a % n == n - 1 {
        vstd::arithmetic::div_mod::lemma_mod_self_0(n);
    } else {
        vstd::arithmetic::div_mod::lemma_small_mod((a % n + 1) as nat, n as nat);
    }
}

/// The small- and big-blind seats of the coming hand: one and two seats
/// after the dealer, wrapping over the roster.  Distinct whenever at least
/// two seats are taken.
pub proof fn lemma_blind_seats(d: int, n: int)
    requires
        n >= 2,
        d >= 0,
    ensures
        0 <= (d + 1) % n < n,
        0 <= (d + 2) % n < n,
        (d + 1) % n != (d + 2) % n,
        (d + 2) % n == (if (d + 1) % n == n - 1 {
            0int
        } else {
            (d + 1) % n + 1
        }),
{
    vstd::arithmetic::div_mod::lemma_mod_division_less_than_divisor(d + 1, n);
    vstd::arithmetic::div_mod::lemma_mod_division_less_than_divisor(d + 2, n);
    lemma_mod_succ(d + 1, n);
}

/// The seat `i` holds once the blinds of the coming hand are posted: blind
/// seats are debited and committed, and every seat's folded flag is
/// cleared.
pub open spec fn spec_blinds_seat(pre: GameStateV, i: int) -> PlayerV {
    let n = pre.current_players as int;
    let sb_i = (pre.dealer_index + 1) % n;
    let bb_i = (pre.dealer_index + 2) % n;
    let p = pre.players[i];
    let q = if i == sb_i {
        PlayerV { chips: (p.chips - pre.small_blind) as u64, current_bet: pre.small_blind, ..p }
    } else if i == bb_i {
        PlayerV { chips: (p.chips - pre.big_blind) as u64, current_bet: pre.big_blind, ..p }
    } else {
        p
    };
    PlayerV { has_folded: false, ..q }
}

/// The record after a round start: blinds posted, current bet at the big
/// blind, pot holding both blinds, stage `PreFlop`, turn at the seat after
/// the big blind.
pub open spec fn start_round_post(pre: GameStateV) -> GameStateV {
    let n = pre.current_players as int;
    let bb_i = (pre.dealer_index + 2) % n;
    GameStateV {
        players: Seq::new(pre.players.len(), |i: int| spec_blinds_seat(pre, i)),
        current_bet: pre.big_blind,
        pot_total: (pre.small_blind + pre.big_blind) as u64,
        game_stage: GameStage::PreFlop,
        current_player_turn: ((bb_i + 1) % n) as u8,
        ..pre
    }
}

/// Exact behaviour of a round start.  Authority only, from `Waiting` with
/// at least two seats; both blind seats must cover their blinds.
pub open spec fn start_round_transition(
    pre: GameStateV,
    ctx: CallContext,
    post: GameStateV,
    r: Result<Action, PokerError>,
) -> bool {
    let n = pre.current_players as int;
    let sb_i = (pre.dealer_index + 1) % n;
    let bb_i = (pre.dealer_index + 2) % n;
    if !ctx.caller_is_signer {
        r == Err::<Action, PokerError>(PokerError::Unauthenticated) && post == pre
    } else if ctx.caller@ != pre.authority {
        r == Err::<Action, PokerError>(PokerError::Unauthorized) && post == pre
    } else if !(pre.game_stage is Waiting) {
        r == Err::<Action, PokerError>(PokerError::InvalidState) && post == pre
    } else if pre.current_players < 2 {
        r == Err::<Action, PokerError>(PokerError::InvalidState) && post == pre
    } else if pre.players[sb_i].chips < pre.small_blind {
        r == Err::<Action, PokerError>(PokerError::InsufficientFunds) && post == pre
    } else if pre.players[bb_i].chips < pre.big_blind {
        r == Err::<Action, PokerError>(PokerError::InsufficientFunds) && post == pre
    } else {
        r == Ok::<Action, PokerError>(Action::NoTransfer) && post == start_round_post(pre)
    }
}

/// Start a hand: post blinds and enter `PreFlop`.  Authority only.
pub fn start_round(state: &mut GameState, ctx: &CallContext) -> (r: Result<Action, PokerError>)
    requires
        old(state)@.wf(),
    ensures
        start_round_transition(old(state)@, *ctx, final(state)@, r),
        final(state)@.wf(),
        stage_steps_forward(old(state)@, final(state)@),
{
    if !ctx.caller_is_signer {
        return Err(PokerError::Unauthenticated);
    }
    if !pubkey_eq(&ctx.caller, &state.authority) {
        return Err(PokerError::Unauthorized);
    }
    if state.game_stage != GameStage::Waiting {
        return Err(PokerError::InvalidState);
    }
    if state.current_players < 2 {
        return Err(PokerError::InvalidState);
    }
    let ghost pre = state@;
    let n = state.current_players as usize;
    proof {
        lemma_blind_seats(pre.dealer_index as int, n as int);
    }
    let sb_i = ((state.dealer_index as usize) + 1) % n;
    let bb_i = ((state.dealer_index as usize) + 2) % n;
    if state.players[sb_i].chips < state.small_blind {
        return Err(PokerError::InsufficientFunds);
    }
    if state.players[bb_i].chips < state.big_blind {
        return Err(PokerError::InsufficientFunds);
    }
    proof {
        let zeroed = PlayerV { chips: 0, ..pre.players[sb_i as int] };
        lemma_sum_by_update(pre.players, chips_of(), sb_i as int, zeroed);
        lemma_sum_by_element_bound(pre.players.update(sb_i as int, zeroed), chips_of(), bb_i as int);
        assert(pre.players[sb_i as int].chips + pre.players[bb_i as int].chips <= sum_by(
            pre.players,
            chips_of(),
        ));
    }
    let sb_chips = state.players[sb_i].chips - state.small_blind;
    state.players[sb_i].chips = sb_chips;
    let sb_amount = state.small_blind;
    state.players[sb_i].current_bet = sb_amount;
    let bb_chips = state.players[bb_i].chips - state.big_blind;
    state.players[bb_i].chips = bb_chips;
    let bb_amount = state.big_blind;
    state.players[bb_i].current_bet = bb_amount;
    state.current_bet = state.big_blind;
    state.pot_total = state.small_blind + state.big_blind;
    state.game_stage = GameStage::PreFlop;
    state.current_player_turn = ((bb_i + 1) % n) as u8;
    let ghost mid = state@.players;
    let mut j: usize = 0;
    while j < n
        invariant
            state@.players.len() == n,
            mid.len() == n,
            forall|k: int|
                0 <= k < j ==> state@.players[k] == (PlayerV { has_folded: false, ..mid[k] }),
            forall|k: int| j <= k < n ==> state@.players[k] == mid[k],
            sum_by(state@.players, chips_of()) == sum_by(mid, chips_of()),
            sum_by(state@.players, bets_of()) == sum_by(mid, bets_of()),
            state@.current_bet == pre.big_blind,
            state@.pot_total == (pre.small_blind + pre.big_blind) as u64,
            state@.game_stage == GameStage::PreFlop,
            state@.current_player_turn == (((pre.dealer_index + 2) % (n as int) + 1) % (
            n as int)) as u8,
            state@.authority == pre.authority,
            state@.usdc_mint == pre.usdc_mint,
            state@.pot_token_account == pre.pot_token_account,
            state@.pot_bump == pre.pot_bump,
            state@.max_players == pre.max_players,
            state@.current_players == pre.current_players,
            state@.dealer_index == pre.dealer_index,
            state@.small_blind == pre.small_blind,
            state@.big_blind == pre.big_blind,
        decreases n - j,
    {
        let ghost before = state@.players;
        state.players[j].has_folded = false;
        proof {
            let p2 = PlayerV { has_folded: false, ..before[j as int] };
            assert(state@.players =~= before.update(j as int, p2));
            lemma_sum_by_update(before, chips_of(), j as int, p2);
            lemma_sum_by_update(before, bets_of(), j as int, p2);
        }
        j += 1;
    }
    proof {
        lemma_blind_seats(pre.dealer_index as int, n as int);
        let sb = (pre.dealer_index + 1) % (n as int);
        let bb = (pre.dealer_index + 2) % (n as int);
        let sb_seat = PlayerV {
            chips: (pre.players[sb].chips - pre.small_blind) as u64,
            current_bet: pre.small_blind,
            ..pre.players[sb]
        };
        let bb_seat = PlayerV {
            chips: (pre.players[bb].chips - pre.big_blind) as u64,
            current_bet: pre.big_blind,
            ..pre.players[bb]
        };
        assert(mid =~= pre.players.update(sb, sb_seat).update(bb, bb_seat));
        lemma_sum_by_update(pre.players, bets_of(), sb, sb_seat);
        lemma_sum_by_update(pre.players.update(sb, sb_seat), bets_of(), bb, bb_seat);
        lemma_sum_by_update(pre.players, chips_of(), sb, sb_seat);
        lemma_sum_by_update(pre.players.update(sb, sb_seat), chips_of(), bb, bb_seat);
        assert(state@.players =~= Seq::new(pre.players.len(), |i: int| spec_blinds_seat(pre, i)));
        assert(state@ =~= start_round_post(pre));
        assert(sum_by(state@.players, bets_of()) == pre.small_blind + pre.big_blind);
        assert(state@.wf());
    }
    Ok(Action::NoTransfer)
}

/// Exact behaviour of a deal step.  Authority only; moves the stage forward
/// by exactly one street, and is legal only while a street is open (blinds
/// enter `PreFlop`, settlement leaves `Showdown`).
pub open spec fn deal_step_transition(
    pre: GameStateV,
    ctx: CallContext,
    post: GameStateV,
    r: Result<Action, PokerError>,
) -> bool {
    if !ctx.caller_is_signer {
        r == Err::<Action, PokerError>(PokerError::Unauthenticated) && post == pre
    } else if ctx.caller@ != pre.authority {
        r == Err::<Action, PokerError>(PokerError::Unauthorized) && post == pre
    } else if !spec_is_street(pre.game_stage) {
        r == Err::<Action, PokerError>(PokerError::InvalidState) && post == pre
    } else {
        r == Ok::<Action, PokerError>(Action::NoTransfer) && post == GameStateV {
            game_stage: spec_next_stage(pre.game_stage),
            ..pre
        }
    }
}

/// Move the stage forward by one street.  Authority only; does not itself
/// reveal cards or compute a winner.
pub fn advance_deal(state: &mut GameState, ctx: &CallContext) -> (r: Result<Action, PokerError>)
    requires
        old(state)@.wf(),
    ensures
        deal_step_transition(old(state)@, *ctx, final(state)@, r),
        final(state)@.wf(),
        stage_steps_forward(old(state)@, final(state)@),
{
    if !ctx.caller_is_signer {
        return Err(PokerError::Unauthenticated);
    }
    if !pubkey_eq(&ctx.caller, &state.authority) {
        return Err(PokerError::Unauthorized);
    }
    let next = match state.game_stage {
        GameStage::PreFlop => GameStage::Flop,
        GameStage::Flop => GameStage::Turn,
        GameStage::Turn => GameStage::River,
        GameStage::River => GameStage::Showdown,
        _ => {
            return Err(PokerError::InvalidState);
        },
    };
    state.game_stage = next;
    proof {
        assert(state@ =~= GameStateV { game_stage: spec_next_stage(old(state)@.game_stage), ..old(
            state,
        )@ });
    }
    Ok(Action::NoTransfer)
}

/// The seat `i` holds after settlement in favour of seat `w`: the winner's
/// stack grows by the whole pot, and every seat's street bookkeeping is
/// reset for the next hand.
pub open spec fn spec_settled_seat(pre: GameStateV, w: int, i: int) -> PlayerV {
    let p = pre.players[i];
    PlayerV {
        pubkey: p.pubkey,
        name: p.name,
        chips: if i == w {
            (p.chips + pre.pot_total) as u64
        } else {
            p.chips
        },
        current_bet: 0,
        is_active: true,
        has_folded: false,
    }
}

/// The record after settlement in favour of seat `w`: pot paid out, bets
/// and pot zeroed, stage back to `Waiting`, dealer rotated by one.
pub open spec fn end_round_post(pre: GameStateV, w: int) -> GameStateV {
    GameStateV {
        players: Seq::new(pre.players.len(), |i: int| spec_settled_seat(pre, w, i)),
        current_bet: 0,
        pot_total: 0,
        game_stage: GameStage::Waiting,
        dealer_index: spec_next_index(pre.dealer_index, pre.current_players as int) as u8,
        ..pre
    }
}

/// Exact behaviour of settlement.  Authority only, at `Showdown`; the
/// winner index must name a seat and the supplied destination must be that
/// seat's identity; then the whole pot moves to the winner's stack, held in
/// custody until cash-out.
pub open spec fn end_round_transition(
    pre: GameStateV,
    ctx: CallContext,
    winner_index: u8,
    post: GameStateV,
    r: Result<Action, PokerError>,
) -> bool {
    if !ctx.caller_is_signer {
        r == Err::<Action, PokerError>(PokerError::Unauthenticated) && post == pre
    } else if ctx.caller@ != pre.authority {
        r == Err::<Action, PokerError>(PokerError::Unauthorized) && post == pre
    } else if !(pre.game_stage is Showdown) {
        r == Err::<Action, PokerError>(PokerError::InvalidState) && post == pre
    } else if winner_index as int >= pre.players.len() {
        r == Err::<Action, PokerError>(PokerError::NotFound) && post == pre
    } else if ctx.settle_destination@ != pre.players[winner_index as int].pubkey {
        r == Err::<Action, PokerError>(PokerError::MismatchedWinner) && post == pre
    } else {
        r == Ok::<Action, PokerError>(Action::NoTransfer) && post == end_round_post(
            pre,
            winner_index as int,
        )
    }
}

/// Settle the hand: pay the pot to the winning seat and reset for the next
/// hand.  Authority only.
pub fn end_round(state: &mut GameState, ctx: &CallContext, winner_index: u8) -> (r: Result<
    Action,
    PokerError,
>)
    requires
        old(state)@.wf(),
    ensures
        end_round_transition(old(state)@, *ctx, winner_index, final(state)@, r),
        final(state)@.wf(),
        stage_steps_forward(old(state)@, final(state)@),
{
    if !ctx.caller_is_signer {
        return Err(PokerError::Unauthenticated);
    }
    if !pubkey_eq(&ctx.caller, &state.authority) {
        return Err(PokerError::Unauthorized);
    }
    if state.game_stage != GameStage::Showdown {
        return Err(PokerError::InvalidState);
    }
    let w = winner_index as usize;
    if w >= state.players.len() {
        return Err(PokerError::NotFound);
    }
    if !pubkey_eq(&ctx.settle_destination, &state.players[w].pubkey) {
        return Err(PokerError::MismatchedWinner);
    }
    let ghost pre = state@;
    proof {
        lemma_sum_by_element_bound(pre.players, chips_of(), w as int);
    }
    let pot = state.pot_total;
    let n = state.players.len();
    let mut j: usize = 0;
    while j < n
        invariant
            state@.players.len() == n,
            pre.players.len() == n,
            0 <= w < n,
            pot == pre.pot_total,
            forall|k: int| 0 <= k < j ==> state@.players[k] == spec_settled_seat(pre, w as int, k),
            forall|k: int| j <= k < n ==> state@.players[k] == pre.players[k],
            sum_by(state@.players, chips_of()) == sum_by(pre.players, chips_of()) + (if j > w {
                pre.pot_total as int
            } else {
                0int
            }),
            sum_by(pre.players, chips_of()) + pre.pot_total <= u64::MAX,
            pre.players[w as int].chips + pre.pot_total <= u64::MAX,
            state@.current_bet == pre.current_bet,
            state@.pot_total == pre.pot_total,
            state@.game_stage == pre.game_stage,
            state@.current_player_turn == pre.current_player_turn,
            state@.dealer_index == pre.dealer_index,
            state@.authority == pre.authority,
            state@.usdc_mint == pre.usdc_mint,
            state@.pot_token_account == pre.pot_token_account,
            state@.pot_bump == pre.pot_bump,
            state@.max_players == pre.max_players,
            state@.current_players == pre.current_players,
            state@.small_blind == pre.small_blind,
            state@.big_blind == pre.big_blind,
        decreases n - j,
    {
        let ghost before = state@.players;
        if j == w {
            let new_chips = state.players[j].chips + pot;
            state.players[j].chips = new_chips;
            state.players[j].current_bet = 0;
            state.players[j].is_active = true;
            state.players[j].has_folded = false;
        } else {
            state.players[j].current_bet = 0;
            state.players[j].is_active = true;
            state.players[j].has_folded = false;
        }
        proof {
            let p2 = spec_settled_seat(pre, w as int, j as int);
            assert(state@.players =~= before.update(j as int, p2));
            lemma_sum_by_update(before, chips_of(), j as int, p2);
        }
        j += 1;
    }
    state.current_bet = 0;
    state.pot_total = 0;
    state.game_stage = GameStage::Waiting;
    state.dealer_index = next_index(state.dealer_index, state.current_players);
    proof {
        assert(state@.players =~= Seq::new(
            pre.players.len(),
            |i: int| spec_settled_seat(pre, w as int, i),
        ));
        assert(state@ =~= end_round_post(pre, w as int));
        lemma_sum_by_zero(state@.players, bets_of());
        assert(state@.wf());
    }
    Ok(Action::NoTransfer)
}

/// Exact behaviour of a cash-out.  Legal only between hands (`Waiting`),
/// for a seated caller with a non-empty stack; the seat leaves the roster
/// and the host owes the caller a payout of the whole stack.
pub open spec fn cash_out_transition(
    pre: GameStateV,
    ctx: CallContext,
    post: GameStateV,
    r: Result<Action, PokerError>,
) -> bool {
    let key = ctx.caller@;
    if !ctx.caller_is_signer {
        r == Err::<Action, PokerError>(PokerError::Unauthenticated) && post == pre
    } else if !(pre.game_stage is Waiting) {
        r == Err::<Action, PokerError>(PokerError::InvalidState) && post == pre
    } else if !pre.has_seat(key) {
        r == Err::<Action, PokerError>(PokerError::NotFound) && post == pre
    } else {
        let i = pre.seat_index(key);
        let p = pre.players[i];
        if p.chips == 0 {
            r == Err::<Action, PokerError>(PokerError::InsufficientFunds) && post == pre
        } else {
            r == Ok::<Action, PokerError>(Action::PayoutFromPool { amount: p.chips }) && post
                == GameStateV {
                players: pre.players.remove(i),
                current_players: (pre.current_players - 1) as u8,
                ..pre
            }
        }
    }
}

/// Leave the table and withdraw the seat's whole stack.
pub fn cash_out(state: &mut GameState, ctx: &CallContext) -> (r: Result<Action, PokerError>)
    requires
        old(state)@.wf(),
    ensures
        cash_out_transition(old(state)@, *ctx, final(state)@, r),
        final(state)@.wf(),
        stage_steps_forward(old(state)@, final(state)@),
{
    if !ctx.caller_is_signer {
        return Err(PokerError::Unauthenticated);
    }
    if state.game_stage != GameStage::Waiting {
        return Err(PokerError::InvalidState);
    }
    let ghost pre = state@;
    match find_seat(state, &ctx.caller) {
        None => Err(PokerError::NotFound),
        Some(i) => {
            let amount = state.players[i].chips;
            if amount == 0 {
                return Err(PokerError::InsufficientFunds);
            }
            state.players.remove(i);
            state.current_players = state.current_players - 1;
            proof {
                assert(state@.players =~= pre.players.remove(i as int));
                lemma_sum_by_remove(pre.players, chips_of(), i as int);
                lemma_sum_by_remove(pre.players, bets_of(), i as int);
                assert(state@ =~= GameStateV {
                    players: pre.players.remove(i as int),
                    current_players: (pre.current_players - 1) as u8,
                    ..pre
                });
                assert forall|a: int, b: int|
                    0 <= a < state@.players.len() && 0 <= b < state@.players.len() && a != b
                        implies (#[trigger] state@.players[a]).pubkey != (
                    #[trigger] state@.players[b]).pubkey by {
                    let a0 = if a < i as int {
                        a
                    } else {
                        a + 1
                    };
                    let b0 = if b < i as int {
                        b
                    } else {
                        b + 1
                    };
                    assert(state@.players[a] == pre.players[a0]);
                    assert(state@.players[b] == pre.players[b0]);
                }
            }
            Ok(Action::PayoutFromPool { amount })
        },
    }
}

/// True when the stage is a betting street.
pub fn is_street(stage: GameStage) -> (r: bool)
    ensures
        r == spec_is_street(stage),
{
    match stage {
        GameStage::PreFlop => true,
        GameStage::Flop => true,
        GameStage::Turn => true,
        GameStage::River => true,
        _ => false,
    }
}

/// Every seat still in the hand has matched the table's current bet.
pub open spec fn spec_street_complete(g: GameStateV) -> bool {
    forall|i: int|
        0 <= i < g.players.len() ==> ((#[trigger] g.players[i]).is_active
            && !g.players[i].has_folded ==> g.players[i].current_bet == g.current_bet)
}

/// The explicit street-completion condition: betting actions advance the
/// turn unconditionally, so closing a street (a deal step) is the
/// authority's decision; this tells it whether every seat still in the hand
/// has matched the current bet.
pub fn street_complete(state: &GameState) -> (r: bool)
    ensures
        r == spec_street_complete(state@),
{
    let n = state.players.len();
    let mut i: usize = 0;
    while i < n
        invariant
            n == state@.players.len(),
            0 <= i <= n,
            forall|k: int|
                0 <= k < i ==> ((#[trigger] state@.players[k]).is_active
                    && !state@.players[k].has_folded ==> state@.players[k].current_bet
                    == state@.current_bet),
        decreases n - i,
    {
        if state.players[i].is_active && !state.players[i].has_folded && state.players[i].current_bet
            != state.current_bet {
            assert(state@.players[i as int].is_active && !state@.players[i as int].has_folded
                && state@.players[i as int].current_bet != state@.current_bet);
            return false;
        }
        i += 1;
    }
    true
}

/// Exact behaviour of the router: decode the request bytes, then behave as
/// the matching handler's transition relation says.  Malformed bytes leave
/// the record untouched.
pub open spec fn process_transition(
    pre: GameStateV,
    ctx: CallContext,
    data: Seq<u8>,
    post: GameStateV,
    r: Result<Action, PokerError>,
) -> bool {
    match spec_decode_instruction(data) {
        None => r == Err::<Action, PokerError>(PokerError::MalformedInstruction) && post == pre,
        Some(ix) => match ix {
            PokerInstruction::InitializeGame { max_players } => initialize_transition(
                pre,
                ctx,
                max_players,
                post,
                r,
            ),
            PokerInstruction::BuyIn { amount } => buy_in_transition(pre, ctx, amount, post, r),
            PokerInstruction::StartRound => start_round_transition(pre, ctx, post, r),
            PokerInstruction::Fold => fold_transition(pre, ctx, post, r),
            PokerInstruction::Call => call_transition(pre, ctx, post, r),
            PokerInstruction::Raise { amount } => raise_transition(pre, ctx, amount, post, r),
            PokerInstruction::EndRound { winner_index } => end_round_transition(
                pre,
                ctx,
                winner_index,
                post,
                r,
            ),
            PokerInstruction::CashOut => cash_out_transition(pre, ctx, post, r),
            PokerInstruction::DealStep => deal_step_transition(pre, ctx, post, r),
        },
    }
}

/// Decode an opaque request and dispatch it to the matching handler with
/// the authenticated caller context.  Performs no business validation of
/// its own.
pub fn process_instruction(state: &mut GameState, ctx: &CallContext, data: &Vec<u8>) -> (r: Result<
    Action,
    PokerError,
>)
    requires
        old(state)@.wf(),
    ensures
        process_transition(old(state)@, *ctx, data@, final(state)@, r),
        final(state)@.wf(),
        (spec_decode_instruction(data@) matches Some(ix) && !(ix is InitializeGame))
            ==> stage_steps_forward(old(state)@, final(state)@),
{
    match decode_instruction(data) {
        None => Err(PokerError::MalformedInstruction),
        Some(ix) => match ix {
            PokerInstruction::InitializeGame { max_players } => initialize_game(
                state,
                ctx,
                max_players,
            ),
            PokerInstruction::BuyIn { amount } => buy_in(state, ctx, amount),
            PokerInstruction::StartRound => start_round(state, ctx),
            PokerInstruction::Fold => fold(state, ctx),
            PokerInstruction::Call => call(state, ctx),
            PokerInstruction::Raise { amount } => raise(state, ctx, amount),
            PokerInstruction::EndRound { winner_index } => end_round(state, ctx, winner_index),
            PokerInstruction::CashOut => cash_out(state, ctx),
            PokerInstruction::DealStep => advance_deal(state, ctx),
        },
    }
}

/// Decide the record invariant at run time, so that a record decoded from
/// untrusted bytes can be checked before any handler runs against it.
pub fn check_well_formed(state: &GameState) -> (r: bool)
    ensures
        r == state@.wf(),
{
    let n = state.players.len();
    if n != state.current_players as usize {
        return false;
    }
    if state.current_players > state.max_players {
        return false;
    }
    if state.current_bet > state.pot_total {
        return false;
    }
    if state.small_blind > state.big_blind {
        return false;
    }
    if state.game_stage == GameStage::Waiting && (state.pot_total != 0 || state.current_bet != 0) {
        return false;
    }
    let mut i: usize = 0;
    while i < n
        invariant
            n == state@.players.len(),
            0 <= i <= n,
            forall|k: int|
                0 <= k < i ==> (#[trigger] state@.players[k]).current_bet <= state@.current_bet
                    && state@.players[k].name.len() <= MAX_NAME_LEN as int,
        decreases n - i,
    {
        if state.players[i].current_bet > state.current_bet {
            assert(state@.players[i as int].current_bet > state@.current_bet);
            return false;
        }
        if state.players[i].name.len() > MAX_NAME_LEN {
            assert(state@.players[i as int].name.len() > MAX_NAME_LEN as int);
            return false;
        }
        i += 1;
    }
    i = 0;
    while i < n
        invariant
            n == state@.players.len(),
            0 <= i <= n,
            forall|a: int, b: int|
                0 <= a < i && a < b < n ==> (#[trigger] state@.players[a]).pubkey != (
                #[trigger] state@.players[b]).pubkey,
        decreases n - i,
    {
        let mut j: usize = i + 1;
        while j < n
            invariant
                n == state@.players.len(),
                0 <= i < n,
                i < j <= n,
                forall|b: int|
                    i < b < j ==> state@.players[i as int].pubkey != (
                    #[trigger] state@.players[b]).pubkey,
            decreases n - j,
        {
            if pubkey_eq(&state.players[i].pubkey, &state.players[j].pubkey) {
                assert(state@.players[i as int].pubkey == state@.players[j as int].pubkey);
                return false;
            }
            j += 1;
        }
        i += 1;
    }
    let ghost ps = state@.players;
    let mut bet_sum: u128 = 0;
    let mut chip_sum: u128 = 0;
    i = 0;
    proof {
        assert(ps.skip(0) =~= ps);
    }
    while i < n
        invariant
            ps == state@.players,
            n == ps.len(),
            n <= 255,
            0 <= i <= n,
            bet_sum as int == sum_by(ps, bets_of()) - sum_by(ps.skip(i as int), bets_of()),
            chip_sum as int == sum_by(ps, chips_of()) - sum_by(ps.skip(i as int), chips_of()),
            bet_sum <= i * 0xffff_ffff_ffff_ffff,
            chip_sum <= i * 0xffff_ffff_ffff_ffff,
        decreases n - i,
    {
        proof {
            let rest = ps.skip(i as int);
            assert(rest[0] == ps[i as int]);
            assert(rest.drop_first() =~= ps.skip(i as int + 1));
        }
        bet_sum = bet_sum + state.players[i].current_bet as u128;
        chip_sum = chip_sum + state.players[i].chips as u128;
        i += 1;
    }
    proof {
        assert(ps.skip(n as int) =~= Seq::<PlayerV>::empty());
    }
    if state.pot_total as u128 != bet_sum {
        return false;
    }
    if state.pot_total as u128 + chip_sum > u64::MAX as u128 {
        return false;
    }
    proof {
        assert forall|a: int, b: int|
            0 <= a < ps.len() && 0 <= b < ps.len() && a != b implies (#[trigger] ps[a]).pubkey != (
        #[trigger] ps[b]).pubkey by {
            if a < b {
            } else {
            }
        }
        assert forall|k: int| 0 <= k < ps.len() implies (#[trigger] ps[k]).pubkey.len() == 32 by {
            assert(ps[k] == state.players@[k]@);
        }
        assert(state@.wf());
    }
    true
}

} // verus!

