//! The persistent game record and its mathematical model.
//!
//! `GameState` is the single record a table lives in; `GameStateV` is its
//! spec-level view.  `GameStateV::wf` is the well-formedness invariant that
//! every reachable record satisfies: the roster count matches the seat list,
//! no identity holds two seats, every seat's street commitment is covered by
//! the table's current bet, and the pot equals the sum of all street
//! commitments (the escrow accounting invariant).

use vstd::prelude::*;

verus! {

/// Largest single buy-in, in minor currency units.
pub const MAX_BUY_IN: u64 = 5_000_000;

/// Small blind, in minor currency units.
pub const SMALL_BLIND: u64 = 25_000;

/// Big blind, in minor currency units.
pub const BIG_BLIND: u64 = 50_000;

/// Smallest admissible buy-in: ten big blinds.
pub const MIN_BUY_IN: u64 = 500_000;

/// Upper bound on a seat's display-label length, in bytes.
pub const MAX_NAME_LEN: usize = 32;

/// A fixed-width public-key-like identity.  The core only ever compares
/// identities for equality; it never manages credentials.
pub type Pubkey = [u8; 32];

/// Stage of a hand.  Stages only ever move forward in declaration order;
/// settlement resets the table to `Waiting`.
#[derive(Clone, Copy, Debug, PartialEq, Eq, Structural)]
pub enum GameStage {
    Waiting,
    PreFlop,
    Flop,
    Turn,
    River,
    Showdown,
}

/// Position of a stage in the fixed forward order.
pub open spec fn stage_index(s: GameStage) -> int {
    match s {
        GameStage::Waiting => 0,
        GameStage::PreFlop => 1,
        GameStage::Flop => 2,
        GameStage::Turn => 3,
        GameStage::River => 4,
        GameStage::Showdown => 5,
    }
}

/// True when a stage is a betting street.
pub open spec fn spec_is_street(s: GameStage) -> bool {
    s is PreFlop || s is Flop || s is Turn || s is River
}

/// A participant's seat: custodial stack and per-street bookkeeping.
#[derive(Clone, Debug, PartialEq, Eq)]
pub struct Player {
    /// Identity of the seat holder.
    pub pubkey: Pubkey,
    /// Display label, as length-prefixed bytes on the wire.
    pub name: Vec<u8>,
    /// Spendable balance held by the game on the participant's behalf.
    pub chips: u64,
    /// Amount already committed to the pot this hand.
    pub current_bet: u64,
    /// False once the seat folded or was removed.
    pub is_active: bool,
    /// True after the seat folded this hand.
    pub has_folded: bool,
}

/// Spec-level view of a seat.
#[verifier::ext_equal]
pub struct PlayerV {
    pub pubkey: Seq<u8>,
    pub name: Seq<u8>,
    pub chips: u64,
    pub current_bet: u64,
    pub is_active: bool,
    pub has_folded: bool,
}

impl View for Player {
    type V = PlayerV;

    open spec fn view(&self) -> PlayerV {
        PlayerV {
            pubkey: self.pubkey@,
            name: self.name@,
            chips: self.chips,
            current_bet: self.current_bet,
            is_active: self.is_active,
            has_folded: self.has_folded,
        }
    }
}

/// The persistent game record: one per table.
#[derive(Clone, Debug, PartialEq, Eq)]
pub struct GameState {
    /// The table operator; only holder permitted to start rounds, advance
    /// the deal and settle showdowns.
    pub authority: Pubkey,
    /// Mint of the custodial token.
    pub usdc_mint: Pubkey,
    /// Address of the pooled escrow account.
    pub pot_token_account: Pubkey,
    /// Bump byte of the derived pool authority.
    pub pot_bump: u8,
    /// Capacity bound of the roster.
    pub max_players: u8,
    /// Number of occupied seats; always equals `players.len()`.
    pub current_players: u8,
    /// The roster, in turn order.
    pub players: Vec<Player>,
    /// Highest cumulative commitment any seat must match.
    pub current_bet: u64,
    /// Sum of all value committed to the pool this hand.
    pub pot_total: u64,
    /// Stage of the hand.
    pub game_stage: GameStage,
    /// Seat index whose action is next (bookkeeping only; turn order is not
    /// enforced on callers).
    pub current_player_turn: u8,
    /// Rotates by one seat at the end of every settled round.
    pub dealer_index: u8,
    /// Configured small blind.
    pub small_blind: u64,
    /// Configured big blind.
    pub big_blind: u64,
}

/// Spec-level view of the record.
#[verifier::ext_equal]
pub struct GameStateV {
    pub authority: Seq<u8>,
    pub usdc_mint: Seq<u8>,
    pub pot_token_account: Seq<u8>,
    pub pot_bump: u8,
    pub max_players: u8,
    pub current_players: u8,
    pub players: Seq<PlayerV>,
    pub current_bet: u64,
    pub pot_total: u64,
    pub game_stage: GameStage,
    pub current_player_turn: u8,
    pub dealer_index: u8,
    pub small_blind: u64,
    pub big_blind: u64,
}

impl View for GameState {
    type V = GameStateV;

    open spec fn view(&self) -> GameStateV {
        GameStateV {
            authority: self.authority@,
            usdc_mint: self.usdc_mint@,
            pot_token_account: self.pot_token_account@,
            pot_bump: self.pot_bump,
            max_players: self.max_players,
            current_players: self.current_players,
            players: self.players@.map_values(|p: Player| p@),
            current_bet: self.current_bet,
            pot_total: self.pot_total,
            game_stage: self.game_stage,
            current_player_turn: self.current_player_turn,
            dealer_index: self.dealer_index,
            small_blind: self.small_blind,
            big_blind: self.big_blind,
        }
    }
}

/// The stack a seat holds, as a mathematical integer.
pub open spec fn chips_of() -> spec_fn(PlayerV) -> int {
    |p: PlayerV| p.chips as int
}

/// The street commitment a seat holds, as a mathematical integer.
pub open spec fn bets_of() -> spec_fn(PlayerV) -> int {
    |p: PlayerV| p.current_bet as int
}

/// Sum of `f` over all seats.
pub open spec fn sum_by(ps: Seq<PlayerV>, f: spec_fn(PlayerV) -> int) -> int
    decreases ps.len(),
{
    if ps.len() <= 0 {
        0
    } else {
        f(ps[0]) + sum_by(ps.drop_first(), f)
    }
}

/// Replacing one seat changes the sum by the difference at that seat.
pub proof fn lemma_sum_by_update(ps: Seq<PlayerV>, f: spec_fn(PlayerV) -> int, i: int, p: PlayerV)
    requires
        0 <= i < ps.len(),
    ensures
        sum_by(ps.update(i, p), f) == sum_by(ps, f) - f(ps[i]) + f(p),
    decreases ps.len(),
{
    if i == 0 {
        assert(ps.update(0, p).drop_first() =~= ps.drop_first());
    } else {
        assert(ps.update(i, p).drop_first() =~= ps.drop_first().update(i - 1, p));
        lemma_sum_by_update(ps.drop_first(), f, i - 1, p);
    }
}

/// Appending a seat adds its contribution to the sum.
pub proof fn lemma_sum_by_push(ps: Seq<PlayerV>, f: spec_fn(PlayerV) -> int, p: PlayerV)
    ensures
        sum_by(ps.push(p), f) == sum_by(ps, f) + f(p),
    decreases ps.len(),
{
    if ps.len() == 0 {
        assert(ps.push(p)[0] == p);
        assert(ps.push(p).drop_first() =~= Seq::<PlayerV>::empty());
        assert(sum_by(ps.push(p), f) == f(p) + sum_by(Seq::<PlayerV>::empty(), f));
    } else {
        assert(ps.push(p)[0] == ps[0]);
        assert(ps.push(p).drop_first() =~= ps.drop_first().push(p));
        lemma_sum_by_push(ps.drop_first(), f, p);
        assert(sum_by(ps.push(p), f) == f(ps[0]) + sum_by(ps.drop_first().push(p), f));
    }
}

/// Removing a seat subtracts its contribution from the sum.
pub proof fn lemma_sum_by_remove(ps: Seq<PlayerV>, f: spec_fn(PlayerV) -> int, i: int)
    requires
        0 <= i < ps.len(),
    ensures
        sum_by(ps.remove(i), f) == sum_by(ps, f) - f(ps[i]),
    decreases ps.len(),
{
    if i == 0 {
        assert(ps.remove(0) =~= ps.drop_first());
    } else {
        assert(ps.remove(i).drop_first() =~= ps.drop_first().remove(i - 1));
        lemma_sum_by_remove(ps.drop_first(), f, i - 1);
    }
}

/// A sum of non-negative contributions is at least each single contribution.
pub proof fn lemma_sum_by_element_bound(ps: Seq<PlayerV>, f: spec_fn(PlayerV) -> int, i: int)
    requires
        0 <= i < ps.len(),
        forall|j: int| 0 <= j < ps.len() ==> f(#[trigger] ps[j]) >= 0,
    ensures
        f(ps[i]) <= sum_by(ps, f),
        sum_by(ps, f) >= 0,
    decreases ps.len(),
{
    lemma_sum_by_nonneg(ps.drop_first(), f);
    if i > 0 {
        lemma_sum_by_element_bound(ps.drop_first(), f, i - 1);
    }
}

/// A sum of contributions that are all zero is zero.
pub proof fn lemma_sum_by_zero(ps: Seq<PlayerV>, f: spec_fn(PlayerV) -> int)
    requires
        forall|j: int| 0 <= j < ps.len() ==> f(#[trigger] ps[j]) == 0,
    ensures
        sum_by(ps, f) == 0,
    decreases ps.len(),
{
    if ps.len() > 0 {
        lemma_sum_by_zero(ps.drop_first(), f);
    }
}

/// A sum of non-negative contributions is non-negative.
pub proof fn lemma_sum_by_nonneg(ps: Seq<PlayerV>, f: spec_fn(PlayerV) -> int)
    requires
        forall|j: int| 0 <= j < ps.len() ==> f(#[trigger] ps[j]) >= 0,
    ensures
        sum_by(ps, f) >= 0,
    decreases ps.len(),
{
    if ps.len() > 0 {
        lemma_sum_by_nonneg(ps.drop_first(), f);
    }
}

impl GameStateV {
    /// Everything the record owes: pot plus all stacks.  Bounded by
    /// `u64::MAX` on every reachable record, so internal movements never
    /// overflow.
    pub open spec fn total_value(self) -> int {
        self.pot_total + sum_by(self.players, chips_of())
    }

    /// True when `key` holds a seat.
    pub open spec fn has_seat(self, key: Seq<u8>) -> bool {
        exists|i: int| 0 <= i < self.players.len() && (#[trigger] self.players[i]).pubkey == key
    }

    /// The seat index `key` holds (unique on well-formed records).
    pub open spec fn seat_index(self, key: Seq<u8>) -> int {
        choose|i: int| 0 <= i < self.players.len() && (#[trigger] self.players[i]).pubkey == key
    }

    /// Well-formedness: the invariant of every reachable record.
    pub open spec fn wf(self) -> bool {
        &&& self.players.len() == self.current_players as int
        &&& self.current_players <= self.max_players
        &&& forall|i: int, j: int|
            0 <= i < self.players.len() && 0 <= j < self.players.len() && i != j
                ==> (#[trigger] self.players[i]).pubkey != (#[trigger] self.players[j]).pubkey
        &&& forall|i: int|
            0 <= i < self.players.len() ==> (#[trigger] self.players[i]).current_bet
                <= self.current_bet
        &&& self.current_bet <= self.pot_total
        &&& self.small_blind <= self.big_blind
        &&& self.pot_total == sum_by(self.players, bets_of())
        &&& self.game_stage is Waiting ==> self.pot_total == 0 && self.current_bet == 0
        &&& self.total_value() <= u64::MAX
        &&& self.authority.len() == 32
        &&& self.usdc_mint.len() == 32
        &&& self.pot_token_account.len() == 32
        &&& forall|i: int|
            0 <= i < self.players.len() ==> (#[trigger] self.players[i]).pubkey.len() == 32
                && self.players[i].name.len() <= MAX_NAME_LEN as int
    }
}

/// The pot always equals the sum of all seats' street commitments: value
/// moved out of stacks during the hand, blinds included, and nothing else.
pub proof fn lemma_pot_matches_commitments(g: GameStateV)
    requires
        g.wf(),
    ensures
        g.pot_total == sum_by(g.players, bets_of()),
{
}

/// The seat count always matches the roster, and no two seats share an
/// identity.
pub proof fn lemma_roster_consistent(g: GameStateV)
    requires
        g.wf(),
    ensures
        g.players.len() == g.current_players as int,
        forall|i: int, j: int|
            0 <= i < g.players.len() && 0 <= j < g.players.len() && i != j
                ==> (#[trigger] g.players[i]).pubkey != (#[trigger] g.players[j]).pubkey,
{
}

/// Compare two identities for equality.
pub fn pubkey_eq(a: &Pubkey, b: &Pubkey) -> (r: bool)
    ensures
        r == (a@ == b@),
{
    let mut i: usize = 0;
    while i < 32
        invariant
            0 <= i <= 32,
            forall|k: int| 0 <= k < i ==> a@[k] == b@[k],
        decreases 32 - i,
    {
        if a[i] != b[i] {
            assert(a@ != b@);
            return false;
        }
        i += 1;
    }
    proof {
        assert(a@ =~= b@);
    }
    true
}

} // verus!
