//! Authoritative game state: a `(GameState, command log)` pair is enough to
//! replay or audit a game. Hidden information (generator state, deck order)
//! lives here and never reaches clients; see `view::ClientView`.
use vstd::prelude::*;

use crate::content::{
    GameContent, RentModel, TileKind, content_valid, group_upto, in_group, is_property, prop_of,
    props_upto,
};
use crate::rng;
use crate::tuning::{
    FORECAST_QUEUE_LEN, MORTGAGE_VALUE_PCT, VP_PER_CONGLOMERATE, VP_PER_FULL_GROUP,
    VP_PER_GROUP_SCALED,
};

mod market;

pub use market::{
    ActiveMarketEvent, ActiveModel, ForecastModel, MarketForecast, ScheduledEvent, ScheduledModel,
    Spotlight, active_view, schedule_base,
};

verus! {

/// Player identity issued by the identity service, or a guest id.
pub type PlayerId = String;

#[derive(Debug, Clone, PartialEq)]
pub struct GameState {
    pub phase: GamePhase,
    /// Seating order, fixed at game start. Bankrupt players stay (flagged)
    /// so indices remain stable in events and views.
    pub players: Vec<Player>,
    /// Index into `players` of the acting player.
    pub current: usize,
    pub turn: TurnPhase,
    /// Dynamic tile state, parallel to `GameContent::board`.
    pub tiles: Vec<TileState>,
    pub chance_deck: DeckState,
    pub community_deck: DeckState,
    /// SplitMix64 generator state; part of the state so games replay.
    pub rng: u64,
    /// Completed turn transitions.
    pub turn_count: u32,
    /// Open trade offers; validity is re-checked at acceptance time.
    pub pending_trades: Vec<TradeOffer>,
    pub trade_seq: u32,
    /// Shared stock of subsidiary levels; `None` = unlimited.
    pub subsidiaries_available: Option<u64>,
    /// Shared stock of conglomerate (top) levels; `None` = unlimited.
    pub conglomerates_available: Option<u64>,
    /// Public market forecast queue.
    pub forecast: MarketForecast,
    /// The property currently in the Exposition spotlight, if any.
    pub spotlight: Option<Spotlight>,
}

/// A standing offer: `from` gives `give_*` and receives `receive_*`.
#[derive(Debug, Clone, PartialEq, Eq)]
pub struct TradeOffer {
    pub id: u32,
    pub from: usize,
    pub to: usize,
    pub give_cash: i64,
    pub give_tiles: Vec<usize>,
    pub receive_cash: i64,
    pub receive_tiles: Vec<usize>,
}

#[derive(Debug, Clone, Copy, PartialEq, Eq, Structural)]
pub enum GamePhase {
    Active,
    Finished { winner: usize },
}

#[derive(Debug, Clone, PartialEq, Eq)]
pub enum TurnPhase {
    /// Waiting for the current player to play a movement card, or - while
    /// jailed - to choose a jail exit.
    AwaitMove,
    /// Landed on an unowned property: a sealed-bid window is open. One
    /// slot per seat; `None` = not yet submitted. The landing player is the
    /// discoverer with an implicit list-price floor bid.
    BlindAuction { tile: usize, bids: Vec<Option<i64>> },
    /// A jailed player offered a bribe: a simultaneous vote among living
    /// opponents. One slot per seat; the briber never votes.
    BribeVote { briber: usize, amount: i64, votes: Vec<Option<bool>> },
    /// Movement resolved; building allowed; waiting for end of turn.
    AwaitEnd,
}

#[derive(Debug, Clone, PartialEq)]
pub struct Player {
    pub id: PlayerId,
    pub name: String,
    pub cash: i64,
    pub position: usize,
    /// Whether this player is in jail; escape is a choice, not a roll.
    pub jailed: bool,
    /// Get-out-of-jail-free cards held.
    pub jail_cards: u8,
    pub bankrupt: bool,
    /// Movement values currently held; refills the instant it empties.
    pub hand: Vec<u8>,
    /// `Some(queue)` while serving a locked, public Legal Route: `queue[0]`
    /// is the only card a movement command accepts next, and this player's
    /// tiles charge no rent meanwhile.
    pub jail_route: Option<Vec<u8>>,
    /// Hands fully cycled: the round metronome.
    pub hands_cycled: u32,
    /// Permanent victory points banked from round-bonus wins.
    pub round_bonus_vp: i64,
}

#[derive(Debug, Clone, Copy, PartialEq, Eq, Structural)]
pub struct TileState {
    /// Index into `players`, if owned.
    pub owner: Option<usize>,
    /// 0..=5, where 5 renders as a hotel.
    pub houses: u8,
    /// Mortgaged tiles collect no rent; ownership still counts for groups.
    pub mortgaged: bool,
    /// Rent-boost level; reset when the tile changes hands.
    pub boosts: u8,
}

impl Default for TileState {
    fn default() -> (r: Self)
        ensures
            r == (TileState { owner: None, houses: 0, mortgaged: false, boosts: 0 }),
    {
        TileState { owner: None, houses: 0, mortgaged: false, boosts: 0 }
    }
}

/// Cyclic deck: cards are drawn in shuffled order and recycled without
/// reshuffling.
#[derive(Debug, Clone, PartialEq, Eq)]
pub struct DeckState {
    pub order: Vec<u16>,
    pub next: usize,
}

// -- Mathematical models ------------------------------------------------

pub struct PlayerModel {
    pub id: Seq<char>,
    pub name: Seq<char>,
    pub cash: i64,
    pub position: usize,
    pub jailed: bool,
    pub jail_cards: u8,
    pub bankrupt: bool,
    pub hand: Seq<u8>,
    pub jail_route: Option<Seq<u8>>,
    pub hands_cycled: u32,
    pub round_bonus_vp: i64,
}

pub open spec fn route_view(r: Option<Vec<u8>>) -> Option<Seq<u8>> {
    match r {
        Some(v) => Some(v@),
        None => None,
    }
}

impl View for Player {
    type V = PlayerModel;

    open spec fn view(&self) -> PlayerModel {
        PlayerModel {
            id: self.id@,
            name: self.name@,
            cash: self.cash,
            position: self.position,
            jailed: self.jailed,
            jail_cards: self.jail_cards,
            bankrupt: self.bankrupt,
            hand: self.hand@,
            jail_route: route_view(self.jail_route),
            hands_cycled: self.hands_cycled,
            round_bonus_vp: self.round_bonus_vp,
        }
    }
}

pub struct TradeModel {
    pub id: u32,
    pub from: usize,
    pub to: usize,
    pub give_cash: i64,
    pub give_tiles: Seq<usize>,
    pub receive_cash: i64,
    pub receive_tiles: Seq<usize>,
}

impl View for TradeOffer {
    type V = TradeModel;

    open spec fn view(&self) -> TradeModel {
        TradeModel {
            id: self.id,
            from: self.from,
            to: self.to,
            give_cash: self.give_cash,
            give_tiles: self.give_tiles@,
            receive_cash: self.receive_cash,
            receive_tiles: self.receive_tiles@,
        }
    }
}

pub enum TurnModel {
    AwaitMove,
    BlindAuction { tile: usize, bids: Seq<Option<i64>> },
    BribeVote { briber: usize, amount: i64, votes: Seq<Option<bool>> },
    AwaitEnd,
}

impl View for TurnPhase {
    type V = TurnModel;

    open spec fn view(&self) -> TurnModel {
        match self {
            TurnPhase::AwaitMove => TurnModel::AwaitMove,
            TurnPhase::BlindAuction { tile, bids } => TurnModel::BlindAuction {
                tile: *tile,
                bids: bids@,
            },
            TurnPhase::BribeVote { briber, amount, votes } => TurnModel::BribeVote {
                briber: *briber,
                amount: *amount,
                votes: votes@,
            },
            TurnPhase::AwaitEnd => TurnModel::AwaitEnd,
        }
    }
}

pub struct DeckModel {
    pub order: Seq<u16>,
    pub next: usize,
}

impl View for DeckState {
    type V = DeckModel;

    open spec fn view(&self) -> DeckModel {
        DeckModel { order: self.order@, next: self.next }
    }
}

pub struct GameModel {
    pub phase: GamePhase,
    pub players: Seq<PlayerModel>,
    pub current: usize,
    pub turn: TurnModel,
    pub tiles: Seq<TileState>,
    pub chance_deck: DeckModel,
    pub community_deck: DeckModel,
    pub rng: u64,
    pub turn_count: u32,
    pub pending_trades: Seq<TradeModel>,
    pub trade_seq: u32,
    pub subsidiaries_available: Option<u64>,
    pub conglomerates_available: Option<u64>,
    pub forecast: ForecastModel,
    pub spotlight: Option<Spotlight>,
}

impl View for GameState {
    type V = GameModel;

    open spec fn view(&self) -> GameModel {
        GameModel {
            phase: self.phase,
            players: self.players@.map_values(|p: Player| p@),
            current: self.current,
            turn: self.turn@,
            tiles: self.tiles@,
            chance_deck: self.chance_deck@,
            community_deck: self.community_deck@,
            rng: self.rng,
            turn_count: self.turn_count,
            pending_trades: self.pending_trades@.map_values(|t: TradeOffer| t@),
            trade_seq: self.trade_seq,
            subsidiaries_available: self.subsidiaries_available,
            conglomerates_available: self.conglomerates_available,
            forecast: self.forecast@,
            spotlight: self.spotlight,
        }
    }
}

// -- Model predicates ----------------------------------------------------

/// Seat `p` exists and is not bankrupt.
pub open spec fn alive(s: GameModel, p: int) -> bool {
    0 <= p < s.players.len() && !s.players[p].bankrupt
}

/// Living seats below `n`, in seat order.
pub open spec fn alive_upto(s: GameModel, n: int) -> Seq<usize>
    decreases n,
{
    if n <= 0 {
        Seq::empty()
    } else if alive(s, n - 1) {
        alive_upto(s, n - 1).push((n - 1) as usize)
    } else {
        alive_upto(s, n - 1)
    }
}

pub open spec fn owned_by(s: GameModel, t: int, p: int) -> bool {
    0 <= t < s.tiles.len() && s.tiles[t].owner == Some(p as usize)
}

/// `player` owns every tile of group `g`, and the group is non-empty.
pub open spec fn owns_full_group_spec(c: &GameContent, s: GameModel, p: int, g: Seq<char>) -> bool {
    &&& exists|t: int| in_group(c, t, g)
    &&& forall|t: int| in_group(c, t, g) ==> owned_by(s, t, p)
}

/// Tile `i` is the first tile of its colour group on the board.
pub open spec fn group_leader(c: &GameContent, i: int) -> bool {
    is_property(c, i) && forall|j: int| 0 <= j < i ==> !in_group(c, j, prop_of(c, i).group@)
}

/// Complete colour groups owned by `p`, counting each group once (at its
/// first tile), over the tiles below `n`.
pub open spec fn full_groups_upto(c: &GameContent, s: GameModel, p: int, n: int) -> nat
    decreases n,
{
    if n <= 0 {
        0
    } else {
        full_groups_upto(c, s, p, n - 1) + if group_leader(c, n - 1) && owns_full_group_spec(
            c,
            s,
            p,
            prop_of(c, n - 1).group@,
        ) {
            1nat
        } else {
            0nat
        }
    }
}

pub open spec fn full_groups_spec(c: &GameContent, s: GameModel, p: int) -> nat {
    full_groups_upto(c, s, p, c.board@.len() as int)
}

/// Build cap: the rules' limit, never above 5 (hotel).
pub open spec fn cap_of(c: &GameContent) -> u8 {
    if c.rules.max_houses_per_property < 5 {
        c.rules.max_houses_per_property
    } else {
        5
    }
}

/// Equity of tile `t` for `p`: an unmortgaged property counts its price,
/// a mortgaged one its mortgage value; each house counts its build cost.
pub open spec fn tile_worth(c: &GameContent, s: GameModel, p: int, t: int) -> int {
    if owned_by(s, t, p) && is_property(c, t) {
        let prop = prop_of(c, t);
        (if s.tiles[t].mortgaged {
            prop.price * MORTGAGE_VALUE_PCT / 100
        } else {
            prop.price as int
        }) + s.tiles[t].houses * prop.house_cost
    } else {
        0
    }
}

pub open spec fn worth_upto(c: &GameContent, s: GameModel, p: int, n: int) -> int
    decreases n,
{
    if n <= 0 {
        0
    } else {
        worth_upto(c, s, p, n - 1) + tile_worth(c, s, p, n - 1)
    }
}

/// Total assets of `p`: cash plus property equity.
pub open spec fn net_worth_spec(c: &GameContent, s: GameModel, p: int) -> int {
    s.players[p].cash + worth_upto(c, s, p, s.tiles.len() as int)
}

/// Victory-point contribution of tile `t` for `p`: 2 at the top build
/// level, 1 for a group-scaled tile.
pub open spec fn tile_points(c: &GameContent, s: GameModel, p: int, t: int) -> int {
    if owned_by(s, t, p) && is_property(c, t) {
        (if s.tiles[t].houses >= cap_of(c) {
            VP_PER_CONGLOMERATE as int
        } else {
            0
        }) + (if prop_of(c, t).rent_model == RentModel::GroupScaled {
            VP_PER_GROUP_SCALED as int
        } else {
            0
        })
    } else {
        0
    }
}

pub open spec fn points_upto(c: &GameContent, s: GameModel, p: int, n: int) -> int
    decreases n,
{
    if n <= 0 {
        0
    } else {
        points_upto(c, s, p, n - 1) + tile_points(c, s, p, n - 1)
    }
}

/// Race-to-target score: 3 per complete colour group, 2 per top-level
/// tile, 1 per group-scaled tile owned, plus the banked round bonus.
pub open spec fn victory_points_spec(c: &GameContent, s: GameModel, p: int) -> int {
    VP_PER_FULL_GROUP * full_groups_spec(c, s, p) + points_upto(c, s, p, s.tiles.len() as int)
        + s.players[p].round_bonus_vp
}

// -- Shared building pools ----------------------------------------------------

/// Subsidiary units a tile at `h` levels (of `cap`) holds: one per level
/// below the top; none at the top, where one conglomerate stands instead.
pub open spec fn subs_held(h: u8, cap: u8) -> int {
    if h == 0 || h == cap {
        0
    } else {
        h as int
    }
}

/// Conglomerate units a tile at `h` levels (of `cap`) holds.
pub open spec fn congs_held(h: u8, cap: u8) -> int {
    if h > 0 && h == cap {
        1
    } else {
        0
    }
}

pub open spec fn subs_held_upto(tiles: Seq<TileState>, cap: u8, n: int) -> int
    decreases n,
{
    if n <= 0 {
        0
    } else {
        subs_held_upto(tiles, cap, n - 1) + subs_held(tiles[n - 1].houses, cap)
    }
}

pub open spec fn congs_held_upto(tiles: Seq<TileState>, cap: u8, n: int) -> int
    decreases n,
{
    if n <= 0 {
        0
    } else {
        congs_held_upto(tiles, cap, n - 1) + congs_held(tiles[n - 1].houses, cap)
    }
}

/// Everything a pool owns: what is on the shelf plus what stands on the
/// board. `None` while the pool is unlimited.
pub open spec fn stock(avail: Option<u64>, held: int) -> Option<int> {
    match avail {
        Some(a) => Some(a + held),
        None => None,
    }
}

pub open spec fn subsidiary_stock(c: &GameContent, s: GameModel) -> Option<int> {
    stock(s.subsidiaries_available, subs_held_upto(s.tiles, cap_of(c), s.tiles.len() as int))
}

pub open spec fn conglomerate_stock(c: &GameContent, s: GameModel) -> Option<int> {
    stock(s.conglomerates_available, congs_held_upto(s.tiles, cap_of(c), s.tiles.len() as int))
}

pub proof fn lemma_held_nonneg_pub(tiles: Seq<TileState>, cap: u8, n: int)
    ensures
        subs_held_upto(tiles, cap, n) >= 0,
        congs_held_upto(tiles, cap, n) >= 0,
    decreases n,
{
    lemma_held_nonneg(tiles, cap, n);
}

proof fn lemma_held_nonneg(tiles: Seq<TileState>, cap: u8, n: int)
    ensures
        subs_held_upto(tiles, cap, n) >= 0,
        congs_held_upto(tiles, cap, n) >= 0,
        n >= 0 ==> congs_held_upto(tiles, cap, n) <= n,
        n >= 0 ==> subs_held_upto(tiles, cap, n) <= 255 * n,
    decreases n,
{
    if n > 0 {
        lemma_held_nonneg(tiles, cap, n - 1);
    }
}

/// Changing one tile's level changes the held units by that tile's
/// difference alone.
pub proof fn lemma_held_update(tiles: Seq<TileState>, cap: u8, i: int, t: TileState, n: int)
    requires
        0 <= i < tiles.len(),
        n <= tiles.len(),
    ensures
        subs_held_upto(tiles.update(i, t), cap, n) == subs_held_upto(tiles, cap, n) + if i < n {
            subs_held(t.houses, cap) - subs_held(tiles[i].houses, cap)
        } else {
            0
        },
        congs_held_upto(tiles.update(i, t), cap, n) == congs_held_upto(tiles, cap, n) + if i < n {
            congs_held(t.houses, cap) - congs_held(tiles[i].houses, cap)
        } else {
            0
        },
    decreases n,
{
    if n > 0 {
        lemma_held_update(tiles, cap, i, t, n - 1);
    }
}

/// Tiles whose level did not change leave the held units unchanged.
pub proof fn lemma_held_same(a: Seq<TileState>, b: Seq<TileState>, cap: u8, n: int)
    requires
        n <= a.len(),
        n <= b.len(),
        forall|t: int| 0 <= t < n ==> (#[trigger] a[t]).houses == b[t].houses,
    ensures
        subs_held_upto(a, cap, n) == subs_held_upto(b, cap, n),
        congs_held_upto(a, cap, n) == congs_held_upto(b, cap, n),
    decreases n,
{
    if n > 0 {
        lemma_held_same(a, b, cap, n - 1);
    }
}

/// Both pools' stock within the counters' limit.
pub open spec fn pools_fit(c: &GameContent, s: GameModel) -> bool {
    &&& match subsidiary_stock(c, s) {
        Some(x) => x <= count_limit(),
        None => true,
    }
    &&& match conglomerate_stock(c, s) {
        Some(x) => x <= count_limit(),
        None => true,
    }
}

/// Highest level among the tiles `list`.
pub open spec fn max_houses(tiles: Seq<TileState>, list: Seq<usize>) -> u8
    decreases list.len(),
{
    if list.len() == 0 {
        0
    } else {
        let rest = max_houses(tiles, list.drop_last());
        let h = tiles[list.last() as int].houses;
        if h > rest {
            h
        } else {
            rest
        }
    }
}

/// Lowest level among the tiles `list`; 0 for an empty list.
pub open spec fn min_houses(tiles: Seq<TileState>, list: Seq<usize>) -> u8
    decreases list.len(),
{
    if list.len() == 0 {
        0
    } else if list.len() == 1 {
        tiles[list[0] as int].houses
    } else {
        let rest = min_houses(tiles, list.drop_last());
        let h = tiles[list.last() as int].houses;
        if h < rest {
            h
        } else {
            rest
        }
    }
}

/// Total levels standing on the first `n` tiles.
pub open spec fn levels_upto(tiles: Seq<TileState>, n: int) -> int
    decreases n,
{
    if n <= 0 {
        0
    } else {
        levels_upto(tiles, n - 1) + tiles[n - 1].houses
    }
}

pub proof fn lemma_levels_update(tiles: Seq<TileState>, i: int, t: TileState, n: int)
    requires
        0 <= i < tiles.len(),
        n <= tiles.len(),
    ensures
        levels_upto(tiles.update(i, t), n) == levels_upto(tiles, n) + if i < n {
            t.houses - tiles[i].houses
        } else {
            0
        },
    decreases n,
{
    if n > 0 {
        lemma_levels_update(tiles, i, t, n - 1);
    }
}

pub proof fn lemma_levels_bound(tiles: Seq<TileState>, n: int, cap: int)
    requires
        0 <= n <= tiles.len(),
        0 <= cap,
        forall|t: int| 0 <= t < tiles.len() ==> (#[trigger] tiles[t]).houses <= cap,
    ensures
        0 <= levels_upto(tiles, n) <= cap * n,
    decreases n,
{
    if n > 0 {
        lemma_levels_bound(tiles, n - 1, cap);
        assert(cap * (n - 1) + cap == cap * n) by (nonlinear_arith);
    }
}

/// `s` with seat `p` replaced by `m`.
pub open spec fn with_player(s: GameModel, p: int, m: PlayerModel) -> GameModel {
    GameModel { players: s.players.update(p, m), ..s }
}

/// Cash held by the first `n` seats.
pub open spec fn cash_upto(players: Seq<PlayerModel>, n: int) -> int
    decreases n,
{
    if n <= 0 {
        0
    } else {
        cash_upto(players, n - 1) + players[n - 1].cash
    }
}

/// All the cash at the table.
pub open spec fn total_cash(s: GameModel) -> int {
    cash_upto(s.players, s.players.len() as int)
}

pub proof fn lemma_cash_upto_update(players: Seq<PlayerModel>, i: int, m: PlayerModel, n: int)
    requires
        0 <= i < players.len(),
        n <= players.len(),
    ensures
        cash_upto(players.update(i, m), n) == cash_upto(players, n) + if i < n {
            m.cash - players[i].cash
        } else {
            0
        },
    decreases n,
{
    if n > 0 {
        lemma_cash_upto_update(players, i, m, n - 1);
    }
}

/// `s` with seat `p`'s cash set to `cash`.
pub open spec fn with_cash(s: GameModel, p: int, cash: int) -> GameModel {
    with_player(s, p, PlayerModel { cash: cash as i64, ..s.players[p] })
}

/// `s` with tile `t` replaced by `ts`.
pub open spec fn with_tile(s: GameModel, t: int, ts: TileState) -> GameModel {
    GameModel { tiles: s.tiles.update(t, ts), ..s }
}

/// The fewest hands cycled among the living seats below `n`.
pub open spec fn min_cycles_upto(s: GameModel, n: int) -> Option<u32>
    decreases n,
{
    if n <= 0 {
        None
    } else {
        let prev = min_cycles_upto(s, n - 1);
        if alive(s, n - 1) {
            match prev {
                Some(m) => if s.players[n - 1].hands_cycled < m {
                    Some(s.players[n - 1].hands_cycled)
                } else {
                    Some(m)
                },
                None => Some(s.players[n - 1].hands_cycled),
            }
        } else {
            prev
        }
    }
}

/// The round number: the fewest hands cycled among survivors (0 if none).
pub open spec fn round_spec(s: GameModel) -> u32 {
    match min_cycles_upto(s, s.players.len() as int) {
        Some(m) => m,
        None => 0,
    }
}

/// The living seat below `n` with the strictly highest `key`, the lowest
/// seat on ties.
pub open spec fn best_upto(s: GameModel, key: spec_fn(int) -> int, n: int) -> Option<int>
    decreases n,
{
    if n <= 0 {
        None
    } else {
        let prev = best_upto(s, key, n - 1);
        if alive(s, n - 1) {
            match prev {
                Some(b) => if key(n - 1) > key(b) {
                    Some(n - 1)
                } else {
                    prev
                },
                None => Some(n - 1),
            }
        } else {
            prev
        }
    }
}

pub proof fn lemma_best_alive(s: GameModel, key: spec_fn(int) -> int, n: int)
    ensures
        best_upto(s, key, n) matches Some(b) ==> 0 <= b < n && alive(s, b),
    decreases n,
{
    if n > 0 {
        lemma_best_alive(s, key, n - 1);
    }
}

/// Law: the best living seat by `key` ranks at least as high as every
/// living seat and is the lowest of those that tie with it; there is none
/// only when no seat is alive.
pub proof fn law_best_is_lowest_of_the_top(s: GameModel, key: spec_fn(int) -> int, n: int)
    requires
        0 <= n,
    ensures
        best_upto(s, key, n) matches Some(w) ==> {
            &&& 0 <= w < n
            &&& alive(s, w)
            &&& forall|j: int| 0 <= j < n && alive(s, j) ==> key(j) <= key(w) && (key(j) == key(w) ==> w <= j)
        },
        best_upto(s, key, n) is None <==> forall|j: int| 0 <= j < n ==> !alive(s, j),
    decreases n,
{
    if n > 0 {
        law_best_is_lowest_of_the_top(s, key, n - 1);
    }
}

/// The cash of each seat, as a ranking key.
pub open spec fn cash_key(s: GameModel) -> spec_fn(int) -> int {
    |p: int| s.players[p].cash as int
}

pub proof fn lemma_alive_upto(s: GameModel, n: int)
    requires
        0 <= n <= s.players.len(),
        s.players.len() <= usize::MAX,
    ensures
        alive_upto(s, n).len() <= n,
        forall|j: int| 0 <= j < alive_upto(s, n).len() ==> #[trigger] alive_upto(s, n)[j] < n
            && alive(s, alive_upto(s, n)[j] as int),
    decreases n,
{
    if n > 0 {
        lemma_alive_upto(s, n - 1);
        let prev = alive_upto(s, n - 1);
        if alive(s, n - 1) {
            assert forall|j: int| 0 <= j < alive_upto(s, n).len() implies #[trigger] alive_upto(s, n)[j] < n
                && alive(s, alive_upto(s, n)[j] as int) by {
                if j < prev.len() {
                    assert(alive_upto(s, n)[j] == prev[j]);
                }
            }
        }
    }
}

// -- Structural validity and machine limits -------------------------------

pub open spec fn deck_ok(d: DeckModel, cards: nat) -> bool {
    &&& forall|k: int| 0 <= k < d.order.len() ==> (#[trigger] d.order[k] as int) < cards
    &&& d.order.len() > 0 ==> d.next < d.order.len()
}

pub open spec fn trade_ok(c: &GameContent, n: nat, t: TradeModel) -> bool {
    &&& t.from < n
    &&& t.to < n
    &&& forall|k: int| 0 <= k < t.give_tiles.len() ==> (#[trigger] t.give_tiles[k]) < c.board@.len()
    &&& forall|k: int| 0 <= k < t.receive_tiles.len() ==> (#[trigger] t.receive_tiles[k])
        < c.board@.len()
}

/// Shape invariants the engine relies on to index safely.
pub open spec fn state_wf(c: &GameContent, s: GameModel) -> bool {
    let n = s.players.len();
    &&& 2 <= n
    &&& s.current < n
    &&& s.tiles.len() == c.board@.len()
    &&& forall|t: int| 0 <= t < s.tiles.len() ==> match (#[trigger] s.tiles[t]).owner {
        Some(o) => o < n,
        None => true,
    }
    &&& forall|t: int| 0 <= t < s.tiles.len() ==> (#[trigger] s.tiles[t]).houses <= cap_of(c)
        && s.tiles[t].boosts <= 3
    &&& forall|p: int| 0 <= p < n ==> (#[trigger] s.players[p]).position < c.board@.len()
    &&& forall|p: int| 0 <= p < n ==> match (#[trigger] s.players[p]).jail_route {
        Some(r) => r.len() > 0,
        None => true,
    }
    &&& deck_ok(s.chance_deck, c.chance@.len())
    &&& deck_ok(s.community_deck, c.community@.len())
    &&& match s.turn {
        TurnModel::BlindAuction { tile, bids } => is_property(c, tile as int) && bids.len() == n,
        TurnModel::BribeVote { briber, votes, amount } => briber < n && votes.len() == n && amount >= 0,
        _ => true,
    }
    &&& forall|k: int| 0 <= k < s.pending_trades.len() ==> trade_ok(c, n, #[trigger] s.pending_trades[k])
}


// -- Machine limits ---------------------------------------------------------
//
// The engine does plain `i64`/`u32`/`u8` arithmetic. These limits are what
// keeps every intermediate value of one command inside its type: content
// and state within them never overflow. `k` counts the money and counter
// movements performed so far inside one command.

pub open spec fn cash_step() -> int {
    1_000_000_000_000
}

pub open spec fn cash_limit() -> int {
    1_000_000_000_000_000
}

pub open spec fn count_limit() -> int {
    0x4000_0000
}

pub open spec fn budget_limit() -> int {
    20000
}

pub open spec fn amount_limit() -> int {
    1_000_000_000
}

pub open spec fn gap_limit() -> int {
    65536
}

pub open spec fn max_players() -> int {
    64
}

pub open spec fn max_tiles() -> int {
    4096
}

pub open spec fn within(x: int, b: int) -> bool {
    -b <= x <= b
}

pub open spec fn cash_bound(k: int) -> int {
    cash_limit() + k * cash_step()
}

pub open spec fn player_bounded(p: PlayerModel, k: int) -> bool {
    &&& within(p.cash as int, cash_bound(k))
    &&& p.hands_cycled <= count_limit() + k
    &&& within(p.round_bonus_vp as int, count_limit() + 2 * k)
    &&& p.jail_cards <= 205
}


pub open spec fn trade_bounded(t: TradeModel, k: int) -> bool {
    within(t.give_cash as int, cash_bound(k)) && within(t.receive_cash as int, cash_bound(k))
}

pub open spec fn turn_bounded(t: TurnModel, k: int) -> bool {
    match t {
        TurnModel::BlindAuction { bids, .. } => forall|i: int|
            0 <= i < bids.len() ==> match #[trigger] bids[i] {
                Some(b) => within(b as int, cash_bound(k)),
                None => true,
            },
        TurnModel::BribeVote { amount, .. } => within(amount as int, cash_bound(k)),
        _ => true,
    }
}

pub open spec fn forecast_bounded(f: ForecastModel, k: int) -> bool {
    &&& f.queue.len() <= 16 + k
    &&& forall|i: int|
        0 <= i < f.queue.len() ==> (#[trigger] f.queue[i]).starts_at_turn <= count_limit() + k
            * gap_limit() && f.queue[i].duration <= gap_limit()
    &&& match f.active {
        Some(a) => within(a.magnitude_pct as int, 100),
        None => true,
    }
}

/// Every value of the state within the limits reachable after `k`
/// movements of one command.
pub open spec fn state_bounded(s: GameModel, k: int) -> bool {
    &&& 0 <= k <= budget_limit()
    &&& s.players.len() <= max_players()
    &&& forall|p: int| 0 <= p < s.players.len() ==> player_bounded(#[trigger] s.players[p], k)
    &&& s.turn_count <= count_limit() + k
    &&& s.trade_seq <= count_limit() + k
    &&& forecast_bounded(s.forecast, k)
    &&& turn_bounded(s.turn, k)
    &&& forall|i: int| 0 <= i < s.pending_trades.len() ==> trade_bounded(#[trigger] s.pending_trades[i], k)
}

/// A state the engine accepts: well formed and within the limits at the
/// start of a command.
/// What play keeps of the seats that left the game: they own no tile, no
/// open offer names them, and they hold no jail card.
pub open spec fn sound(s: GameModel) -> bool {
    &&& forall|t: int| 0 <= t < s.tiles.len() ==> match (#[trigger] s.tiles[t]).owner {
        Some(o) => !s.players[o as int].bankrupt,
        None => true,
    }
    &&& forall|k: int| 0 <= k < s.pending_trades.len() ==> !s.players[(#[trigger] s.pending_trades[k]).from as int].bankrupt
        && !s.players[s.pending_trades[k].to as int].bankrupt
    &&& forall|p: int| 0 <= p < s.players.len() && (#[trigger] s.players[p]).bankrupt ==> s.players[p].jail_cards == 0
}

pub open spec fn state_fits(c: &GameContent, s: GameModel) -> bool {
    &&& state_wf(c, s)
    &&& pools_fit(c, s)
    &&& state_bounded(s, 0)
    &&& forall|p: int| 0 <= p < s.players.len() ==> (#[trigger] s.players[p]).jail_cards <= 200
    &&& sound(s)
}

pub proof fn lemma_bounded_mono(s: GameModel, k: int, k2: int)
    requires
        state_bounded(s, k),
        k <= k2 <= budget_limit(),
    ensures
        state_bounded(s, k2),
{
    assert forall|p: int| 0 <= p < s.players.len() implies player_bounded(
        #[trigger] s.players[p],
        k2,
    ) by {
        assert(player_bounded(s.players[p], k));
        assert(cash_bound(k) <= cash_bound(k2)) by (nonlinear_arith)
            requires
                k <= k2,
        ;
    }
    assert(cash_bound(k) <= cash_bound(k2)) by (nonlinear_arith)
        requires
            k <= k2,
    ;
    assert(k * gap_limit() <= k2 * gap_limit()) by (nonlinear_arith)
        requires
            k <= k2,
    ;
    assert forall|i: int| 0 <= i < s.pending_trades.len() implies trade_bounded(
        #[trigger] s.pending_trades[i],
        k2,
    ) by {
        assert(trade_bounded(s.pending_trades[i], k));
    }
    match s.turn {
        TurnModel::BlindAuction { bids, .. } => {
            assert forall|i: int| 0 <= i < bids.len() implies match #[trigger] bids[i] {
                Some(b) => within(b as int, cash_bound(k2)),
                None => true,
            } by {
                assert(match bids[i] {
                    Some(b) => within(b as int, cash_bound(k)),
                    None => true,
                });
            }
        },
        _ => {},
    }
}

/// Content within the limits the engine's arithmetic is proved for.
pub open spec fn tile_fits(t: crate::content::TileDef) -> bool {
    match t.kind {
        crate::content::TileKind::Property(p) => {
            &&& 0 <= p.price <= amount_limit()
            &&& 0 <= p.house_cost <= amount_limit()
            &&& forall|i: int| 0 <= i < 6 ==> 0 <= #[trigger] p.rents@[i] <= amount_limit()
        },
        crate::content::TileKind::Tax { amount } => within(amount as int, amount_limit()),
        _ => true,
    }
}

pub open spec fn card_fits(card: crate::content::CardDef) -> bool {
    match card.effect {
        crate::content::CardEffect::Money { amount } => within(amount as int, amount_limit()),
        crate::content::CardEffect::CollectFromEach { amount } => within(
            amount as int,
            amount_limit(),
        ),
        crate::content::CardEffect::PayEach { amount } => within(amount as int, amount_limit()),
        _ => true,
    }
}

pub open spec fn event_fits(e: crate::content::MarketEventDef) -> bool {
    within(e.magnitude_pct as int, 100) && e.duration_turns <= gap_limit()
}

pub open spec fn rules_fit(r: crate::content::RuleParams) -> bool {
    &&& within(r.starting_balance as int, cash_limit())
    &&& within(r.go_salary as int, amount_limit())
    &&& within(r.bankruptcy_threshold as int, amount_limit())
    &&& within(r.expropriation as int, 10_000)
    &&& within(r.rent_boost as int, 10_000)
    &&& within(r.spotlight_rent_pct as int, 1000)
    &&& within(r.spotlight_duration_turns as int, gap_limit())
    &&& within(r.subsidiary_pool_factor as int, 1_000_000)
    &&& within(r.conglomerate_pool_factor as int, 1_000_000)
}

pub open spec fn content_fits(c: &GameContent) -> bool {
    &&& c.board@.len() <= max_tiles()
    &&& c.chance@.len() <= max_tiles()
    &&& c.community@.len() <= max_tiles()
    &&& c.market_events@.len() <= max_tiles()
    &&& c.forecast_gap_turns <= gap_limit()
    &&& rules_fit(c.rules)
    &&& forall|i: int| 0 <= i < c.board@.len() ==> tile_fits(#[trigger] c.board@[i])
    &&& forall|i: int| 0 <= i < c.chance@.len() ==> card_fits(#[trigger] c.chance@[i])
    &&& forall|i: int| 0 <= i < c.community@.len() ==> card_fits(#[trigger] c.community@[i])
    &&& forall|i: int| 0 <= i < c.market_events@.len() ==> event_fits(#[trigger] c.market_events@[i])
}


fn within_exec(x: i64, b: i64) -> (r: bool)
    requires
        b >= 0,
    ensures
        r == within(x as int, b as int),
{
    -b <= x && x <= b
}

fn tile_fits_exec(t: &crate::content::TileDef) -> (r: bool)
    ensures
        r == tile_fits(*t),
{
    match &t.kind {
        crate::content::TileKind::Property(p) => {
            if !(0 <= p.price && p.price <= 1_000_000_000 && 0 <= p.house_cost && p.house_cost <= 1_000_000_000) {
                return false;
            }
            let mut i: usize = 0;
            while i < 6
                invariant
                    i <= 6,
                    p.rents@.len() == 6,
                    t.kind == crate::content::TileKind::Property(*p),
                    0 <= p.price <= amount_limit(),
                    0 <= p.house_cost <= amount_limit(),
                    forall|j: int| 0 <= j < i ==> 0 <= #[trigger] p.rents@[j] <= amount_limit(),
                decreases 6 - i,
            {
                if !(0 <= p.rents[i] && p.rents[i] <= 1_000_000_000) {
                    assert(!(0 <= p.rents@[i as int] <= amount_limit()));
                    return false;
                }
                i = i + 1;
            }
            true
        },
        crate::content::TileKind::Tax { amount } => within_exec(*amount, 1_000_000_000),
        _ => true,
    }
}

fn card_fits_exec(card: &crate::content::CardDef) -> (r: bool)
    ensures
        r == card_fits(*card),
{
    match &card.effect {
        crate::content::CardEffect::Money { amount } => within_exec(*amount, 1_000_000_000),
        crate::content::CardEffect::CollectFromEach { amount } => within_exec(*amount, 1_000_000_000),
        crate::content::CardEffect::PayEach { amount } => within_exec(*amount, 1_000_000_000),
        _ => true,
    }
}

fn cards_fit_exec(cards: &Vec<crate::content::CardDef>) -> (r: bool)
    ensures
        r == (forall|i: int| 0 <= i < cards@.len() ==> card_fits(#[trigger] cards@[i])),
{
    let mut i: usize = 0;
    while i < cards.len()
        invariant
            i <= cards@.len(),
            forall|j: int| 0 <= j < i ==> card_fits(#[trigger] cards@[j]),
        decreases cards@.len() - i,
    {
        if !card_fits_exec(&cards[i]) {
            return false;
        }
        i = i + 1;
    }
    true
}

impl crate::content::GameContent {
    /// Whether every amount of the content lies within the limits the
    /// engine's arithmetic is proved for.
    pub fn fits(&self) -> (r: bool)
        ensures
            r == content_fits(self),
    {
        let r = &self.rules;
        if !(self.board.len() <= 4096 && self.chance.len() <= 4096 && self.community.len() <= 4096
            && self.market_events.len() <= 4096 && self.forecast_gap_turns <= 65536) {
            return false;
        }
        if !(within_exec(r.starting_balance, 1_000_000_000_000_000) && within_exec(r.go_salary, 1_000_000_000)
            && within_exec(r.bankruptcy_threshold, 1_000_000_000) && within_exec(r.expropriation, 10_000)
            && within_exec(r.rent_boost, 10_000) && within_exec(r.spotlight_rent_pct, 1000) && within_exec(
            r.spotlight_duration_turns,
            65536,
        ) && within_exec(r.subsidiary_pool_factor, 1_000_000) && within_exec(r.conglomerate_pool_factor, 1_000_000)) {
            return false;
        }
        let mut i: usize = 0;
        while i < self.board.len()
            invariant
                i <= self.board@.len(),
                forall|j: int| 0 <= j < i ==> tile_fits(#[trigger] self.board@[j]),
            decreases self.board@.len() - i,
        {
            if !tile_fits_exec(&self.board[i]) {
                return false;
            }
            i = i + 1;
        }
        if !cards_fit_exec(&self.chance) || !cards_fit_exec(&self.community) {
            return false;
        }
        let mut k: usize = 0;
        while k < self.market_events.len()
            invariant
                k <= self.market_events@.len(),
                forall|j: int| 0 <= j < k ==> event_fits(#[trigger] self.market_events@[j]),
            decreases self.market_events@.len() - k,
        {
            let e = &self.market_events[k];
            if !(within_exec(e.magnitude_pct, 100) && e.duration_turns <= 65536) {
                return false;
            }
            k = k + 1;
        }
        true
    }
}

// -- The opening position -------------------------------------------------

/// The movement hand `lo..=hi`, ascending.
pub open spec fn full_hand(lo: u8, hi: u8) -> Seq<u8> {
    if lo <= hi {
        Seq::new((hi - lo + 1) as nat, |i: int| (lo + i) as u8)
    } else {
        Seq::empty()
    }
}

/// `k` is `factor * sqrt(n)` rounded to the nearest integer (for `n >= 1`).
pub open spec fn rounds_root(k: int, factor: int, n: int) -> bool {
    k * (k - 1) < factor * factor * n <= k * (k + 1)
}

/// The shared pool a positive factor opens for `n` seats; `None`
/// (unlimited) otherwise.
pub open spec fn pool_opened(r: Option<u64>, factor: i64, n: int) -> bool {
    if factor > 0 {
        r matches Some(k) && rounds_root(k as int, factor as int, n)
    } else {
        r is None
    }
}

/// The forecast queue and generator after `k` opening draws, each
/// scheduled a gap after the previous one (the first a gap after turn 0).
pub open spec fn seed_forecast(c: &GameContent, q: Seq<ScheduledModel>, r: u64, k: nat) -> (
    Seq<ScheduledModel>,
    u64,
)
    decreases k,
{
    if k == 0 || c.market_events@.len() == 0 {
        (q, r)
    } else {
        let idx = (rng::draw(r) % (c.market_events@.len() as u64)) as int;
        let def = c.market_events@[idx];
        let base = if q.len() == 0 {
            0
        } else {
            q.last().starts_at_turn as int
        };
        seed_forecast(
            c,
            q.push(
                ScheduledModel {
                    event_id: def.id@,
                    starts_at_turn: (base + c.forecast_gap_turns) as u32,
                    duration: def.duration_turns,
                },
            ),
            rng::advance(r),
            (k - 1) as nat,
        )
    }
}

/// Player `i` of a new game.
pub open spec fn opening_player(c: &GameContent, id: Seq<char>, name: Seq<char>) -> PlayerModel {
    PlayerModel {
        id,
        name,
        cash: c.rules.starting_balance,
        position: 0,
        jailed: false,
        jail_cards: 0,
        bankrupt: false,
        hand: full_hand(c.rules.velocity_min, c.rules.velocity_max),
        jail_route: None,
        hands_cycled: 0,
        round_bonus_vp: 0,
    }
}

/// The generator-independent parts of a new game.
pub open spec fn opening_position(c: &GameContent, players: Seq<(String, String)>, s: GameModel) -> bool {
    &&& s.phase == GamePhase::Active
    &&& s.players.len() == players.len()
    &&& forall|i: int|
        0 <= i < players.len() ==> #[trigger] s.players[i] == opening_player(
            c,
            players[i].0@,
            players[i].1@,
        )
    &&& s.turn == TurnModel::AwaitMove
    &&& s.tiles == Seq::new(c.board@.len(), |i: int| TileState { owner: None, houses: 0, mortgaged: false, boosts: 0 })
    &&& s.turn_count == 0
    &&& s.pending_trades.len() == 0
    &&& s.trade_seq == 0
    &&& pool_opened(s.subsidiaries_available, c.rules.subsidiary_pool_factor, players.len() as int)
    &&& pool_opened(s.conglomerates_available, c.rules.conglomerate_pool_factor, players.len() as int)
    &&& s.forecast.active is None
    &&& s.spotlight is None
}

/// What the seed decides at the start: both decks shuffled in turn, the
/// first forecast drawn, then the starting seat.
pub open spec fn opening_draws(c: &GameContent, n: int, seed: u64, s: GameModel) -> bool {
    let (co, r1) = rng::shuffled(identity_order(c.chance@.len() as int), seed);
    let (cm, r2) = rng::shuffled(identity_order(c.community@.len() as int), r1);
    let (q, rf) = seed_forecast(c, Seq::empty(), r2, 3);
    &&& s.chance_deck == DeckModel { order: co, next: 0 }
    &&& s.community_deck == DeckModel { order: cm, next: 0 }
    &&& s.forecast.queue == q
    &&& s.current == rng::draw(rf) % (n as u64)
    &&& s.rng == rng::advance(rf)
}

proof fn lemma_root_unique(a: int, b: int, factor: int, n: int)
    requires
        a >= 0,
        b >= 0,
        rounds_root(a, factor, n),
        rounds_root(b, factor, n),
    ensures
        a == b,
{
    if a < b {
        assert(a * (a + 1) <= (b - 1) * b) by (nonlinear_arith)
            requires
                0 <= a,
                a + 1 <= b,
        ;
    } else if b < a {
        assert(b * (b + 1) <= (a - 1) * a) by (nonlinear_arith)
            requires
                0 <= b,
                b + 1 <= a,
        ;
    }
}

/// Law: the players, the content and the seed fix the whole opening
/// position; two games opened alike are the same game.
#[verifier::spinoff_prover]
#[verifier::rlimit(40)]
pub proof fn law_same_seed_same_opening(
    c: &GameContent,
    players: Seq<(String, String)>,
    seed: u64,
    a: GameModel,
    b: GameModel,
)
    requires
        opening_position(c, players, a),
        opening_draws(c, players.len() as int, seed, a),
        opening_position(c, players, b),
        opening_draws(c, players.len() as int, seed, b),
    ensures
        a == b,
{
    assert(a.players =~= b.players);
    assert(a.pending_trades =~= b.pending_trades);
    match (a.subsidiaries_available, b.subsidiaries_available) {
        (Some(x), Some(y)) => lemma_root_unique(x as int, y as int, c.rules.subsidiary_pool_factor as int, players.len() as int),
        _ => {},
    }
    match (a.conglomerates_available, b.conglomerates_available) {
        (Some(x), Some(y)) => lemma_root_unique(x as int, y as int, c.rules.conglomerate_pool_factor as int, players.len() as int),
        _ => {},
    }
    assert(a.forecast == b.forecast);
}

// -- Executable state operations ---------------------------------------------

/// `0, 1, .., n - 1` as deck entries.
pub open spec fn identity_order(n: int) -> Seq<u16> {
    Seq::new(n as nat, |i: int| i as u16)
}

/// Sum of the weights `1..=m`.
pub open spec fn tri(m: int) -> int
    decreases m,
{
    if m <= 0 {
        0
    } else {
        m + tri(m - 1)
    }
}

/// The bracket that a draw `r` (below the total weight) selects, where
/// bracket `p` of `lo..=hi` weighs `hi - p + 1`: the lightest brackets are
/// the heaviest percents.
pub open spec fn weighted_pick(lo: int, hi: int, r: int) -> int
    decreases hi - lo,
{
    if lo >= hi {
        hi
    } else if r < hi - lo + 1 {
        lo
    } else {
        weighted_pick(lo + 1, hi, r - (hi - lo + 1))
    }
}

proof fn lemma_weighted_pick_range(lo: int, hi: int, r: int)
    requires
        lo <= hi,
    ensures
        lo <= weighted_pick(lo, hi, r) <= hi,
    decreases hi - lo,
{
    if lo < hi && r >= hi - lo + 1 {
        lemma_weighted_pick_range(lo + 1, hi, r - (hi - lo + 1));
    }
}

proof fn lemma_tri_nonneg(m: int)
    ensures
        tri(m) >= 0,
        m >= 1 ==> tri(m) >= 1,
    decreases m,
{
    if m > 0 {
        lemma_tri_nonneg(m - 1);
    }
}

proof fn lemma_tri_bound(m: int)
    requires
        0 <= m <= 1000,
    ensures
        tri(m) <= 1000 * m,
    decreases m,
{
    if m > 0 {
        lemma_tri_bound(m - 1);
    }
}

/// Draws a value of `lo..=hi` where value `p` weighs `hi - p + 1`: a
/// descending triangle, so the high end is the rarest.
pub(crate) fn descending_pick(state: &mut u64, lo: u64, hi: u64) -> (r: u64)
    requires
        lo <= hi <= 1000,
    ensures
        r as int == weighted_pick(lo as int, hi as int, (rng::draw(*old(state)) % (tri(hi - lo + 1) as u64)) as int),
        lo <= r <= hi,
        *final(state) == rng::advance(*old(state)),
{
    let n = hi - lo + 1;
    let mut total: u64 = 0;
    let mut w: u64 = 1;
    while w <= n
        invariant
            1 <= n <= 1001,
            1 <= w <= n + 1,
            total == tri(w - 1),
        decreases n + 1 - w,
    {
        proof {
            lemma_tri_bound((w - 1) as int);
        }
        total = total + w;
        w = w + 1;
    }
    proof {
        lemma_tri_nonneg(n as int);
    }
    let mut r = rng::below(state, total);
    let ghost r0 = r;
    assert(total == tri(hi - lo + 1));
    let mut p: u64 = lo;
    while p <= hi
        invariant
            lo <= p <= hi + 1,
            hi <= 1000,
            p <= hi ==> (r as int) < tri(hi - p + 1),
            p <= hi ==> weighted_pick(p as int, hi as int, r as int) == weighted_pick(lo as int, hi as int, r0 as int),
            p > hi ==> false,
            r0 as int == (rng::draw(*old(state)) % (tri(hi - lo + 1) as u64)) as int,
            *state == rng::advance(*old(state)),
        decreases hi + 1 - p,
    {
        let weight = hi - p + 1;
        if r < weight {
            proof {
                lemma_weighted_pick_range(lo as int, hi as int, r0 as int);
            }
            return p;
        }
        proof {
            assert(tri(hi - p + 1) == (hi - p + 1) + tri(hi - p));
        }
        r = r - weight;
        p = p + 1;
    }
    lo
}

/// An element-for-element copy of a vector of plain values.
pub(crate) fn copy_vec<T: Copy>(v: &Vec<T>) -> (r: Vec<T>)
    ensures
        r@ == v@,
{
    let mut out: Vec<T> = Vec::new();
    let n = v.len();
    let mut i: usize = 0;
    while i < n
        invariant
            n == v@.len(),
            i <= n,
            out@ == v@.subrange(0, i as int),
        decreases n - i,
    {
        out.push(v[i]);
        i = i + 1;
        assert(out@ =~= v@.subrange(0, i as int));
    }
    assert(out@ =~= v@);
    out
}

impl Player {
    /// A copy with the same model.
    pub(crate) fn copy_of(&self) -> (r: Self)
        ensures
            r@ == self@,
    {
        let route = match &self.jail_route {
            Some(q) => Some(copy_vec(q)),
            None => None,
        };
        Player {
            id: self.id.clone(),
            name: self.name.clone(),
            cash: self.cash,
            position: self.position,
            jailed: self.jailed,
            jail_cards: self.jail_cards,
            bankrupt: self.bankrupt,
            hand: copy_vec(&self.hand),
            jail_route: route,
            hands_cycled: self.hands_cycled,
            round_bonus_vp: self.round_bonus_vp,
        }
    }
}

impl TradeOffer {
    pub(crate) fn copy_of(&self) -> (r: Self)
        ensures
            r@ == self@,
    {
        TradeOffer {
            id: self.id,
            from: self.from,
            to: self.to,
            give_cash: self.give_cash,
            give_tiles: copy_vec(&self.give_tiles),
            receive_cash: self.receive_cash,
            receive_tiles: copy_vec(&self.receive_tiles),
        }
    }
}

impl TurnPhase {
    pub(crate) fn copy_of(&self) -> (r: Self)
        ensures
            r@ == self@,
    {
        match self {
            TurnPhase::AwaitMove => TurnPhase::AwaitMove,
            TurnPhase::BlindAuction { tile, bids } => TurnPhase::BlindAuction {
                tile: *tile,
                bids: copy_vec(bids),
            },
            TurnPhase::BribeVote { briber, amount, votes } => TurnPhase::BribeVote {
                briber: *briber,
                amount: *amount,
                votes: copy_vec(votes),
            },
            TurnPhase::AwaitEnd => TurnPhase::AwaitEnd,
        }
    }
}

/// Highest level among a colour group's tiles (0 for an empty group).
pub(crate) fn group_max_houses(content: &GameContent, tiles: &Vec<TileState>, group: &str) -> (r: u8)
    requires
        tiles@.len() == content.board@.len(),
    ensures
        r == max_houses(tiles@, group_upto(content, group@, content.board@.len() as int)),
{
    let list = content.group_tiles(group);
    let ghost l = list@;
    let mut best: u8 = 0;
    let mut k: usize = 0;
    while k < list.len()
        invariant
            l == list@,
            tiles@.len() == content.board@.len(),
            k <= l.len(),
            forall|j: int| 0 <= j < l.len() ==> (#[trigger] l[j]) < content.board@.len(),
            best == max_houses(tiles@, l.subrange(0, k as int)),
        decreases l.len() - k,
    {
        let h = tiles[list[k]].houses;
        assert(l.subrange(0, k + 1).drop_last() =~= l.subrange(0, k as int));
        if h > best {
            best = h;
        }
        k = k + 1;
    }
    assert(l.subrange(0, l.len() as int) =~= l);
    best
}

/// Lowest level among a colour group's tiles (0 for an empty group).
pub(crate) fn group_min_houses(content: &GameContent, tiles: &Vec<TileState>, group: &str) -> (r: u8)
    requires
        tiles@.len() == content.board@.len(),
    ensures
        r == min_houses(tiles@, group_upto(content, group@, content.board@.len() as int)),
{
    let list = content.group_tiles(group);
    let ghost l = list@;
    if list.len() == 0 {
        return 0;
    }
    let mut best: u8 = tiles[list[0]].houses;
    let mut k: usize = 1;
    assert(l.subrange(0, 1) =~= seq![l[0]]);
    while k < list.len()
        invariant
            l == list@,
            tiles@.len() == content.board@.len(),
            1 <= k <= l.len(),
            forall|j: int| 0 <= j < l.len() ==> (#[trigger] l[j]) < content.board@.len(),
            best == min_houses(tiles@, l.subrange(0, k as int)),
        decreases l.len() - k,
    {
        let h = tiles[list[k]].houses;
        assert(l.subrange(0, k + 1).drop_last() =~= l.subrange(0, k as int));
        if h < best {
            best = h;
        }
        k = k + 1;
    }
    assert(l.subrange(0, l.len() as int) =~= l);
    best
}

impl DeckState {
    /// A deck of `len` cards in an order shuffled by the generator.
    fn shuffled(len: usize, rng: &mut u64) -> (r: Self)
        requires
            len <= 4096,
        ensures
            (r.order@, *final(rng)) == rng::shuffled(identity_order(len as int), *old(rng)),
            r.next == 0,
            deck_ok(r@, len as nat),
    {
        let mut order: Vec<u16> = Vec::new();
        let mut i: usize = 0;
        while i < len
            invariant
                i <= len <= 4096,
                order@ == identity_order(i as int),
            decreases len - i,
        {
            order.push(i as u16);
            i = i + 1;
            assert(order@ =~= identity_order(i as int));
        }
        let ghost before = order@;
        rng::shuffle(order.as_mut_slice(), rng);
        proof {
            assert(order@.to_multiset() == before.to_multiset());
            broadcast use vstd::seq_lib::group_to_multiset_ensures;
            assert forall|k: int| 0 <= k < order@.len() implies (#[trigger] order@[k] as int)
                < len by {
                assert(order@.contains(order@[k]));
                assert(order@.to_multiset().count(order@[k]) > 0);
                assert(before.to_multiset().count(order@[k]) > 0);
                assert(before.contains(order@[k]));
                let j = choose|j: int| 0 <= j < before.len() && before[j] == order@[k];
                assert(before[j] == j as u16);
            }
        }
        DeckState { order, next: 0 }
    }

    /// Returns the content index of the next card and advances the cursor,
    /// cycling back to the start after the last card.
    pub fn draw(&mut self) -> (r: Option<usize>)
        requires
            old(self).order@.len() > 0 ==> old(self).next < old(self).order@.len(),
        ensures
            old(self).order@.len() == 0 ==> r is None && final(self)@ == old(self)@,
            old(self).order@.len() > 0 ==> {
                &&& r == Some(old(self).order@[old(self).next as int] as usize)
                &&& final(self).order@ == old(self).order@
                &&& final(self).next == (old(self).next + 1) % (old(self).order@.len() as int)
            },
    {
        let len = self.order.len();
        if len == 0 {
            return None;
        }
        let card = self.order[self.next] as usize;
        self.next = (self.next + 1) % len;
        Some(card)
    }
}

/// `factor * sqrt(n)` rounded to the nearest integer; `None` (an unlimited
/// pool) when the factor is not positive.
fn pool_size(factor: i64, n: usize) -> (r: Option<u64>)
    requires
        factor <= 1_000_000,
        n >= 1,
    ensures
        pool_opened(r, factor, n as int),
{
    if factor <= 0 {
        return None;
    }
    let f = factor as u128;
    proof {
        assert(f * f <= 1_000_000_000_000) by (nonlinear_arith)
            requires
                f <= 1_000_000,
        ;
        assert(f * f * n <= 1_000_000_000_000 * 0x1_0000_0000_0000_0000) by (nonlinear_arith)
            requires
                f * f <= 1_000_000_000_000,
                n <= 0x1_0000_0000_0000_0000,
        ;
        assert(f * f >= 1) by (nonlinear_arith)
            requires
                f >= 1,
        ;
        assert(f * f * n >= 1) by (nonlinear_arith)
            requires
                f * f >= 1,
                n >= 1,
        ;
    }
    let ff: u128 = f * f;
    let target: u128 = ff * (n as u128);
    let mut lo: u128 = 1;
    let mut hi: u128 = 0x20_0000_0000_0000;
    proof {
        assert(hi * (hi - 1) >= 1_000_000_000_000 * 0x1_0000_0000_0000_0000) by (nonlinear_arith)
            requires
                hi == 0x20_0000_0000_0000,
        ;
    }
    while hi - lo > 1
        invariant
            1 <= lo < hi <= 0x20_0000_0000_0000,
            lo * (lo - 1) < target,
            target <= hi * (hi - 1),
            target == f * f * n,
        decreases hi - lo,
    {
        let mid = lo + (hi - lo) / 2;
        proof {
            assert(mid * (mid - 1) <= 0x20_0000_0000_0000 * 0x20_0000_0000_0000) by (nonlinear_arith)
                requires
                    1 <= mid <= 0x20_0000_0000_0000,
            ;
        }
        if mid * (mid - 1) < target {
            lo = mid;
        } else {
            hi = mid;
        }
    }
    proof {
        assert(hi == lo + 1);
        assert(hi * (hi - 1) == lo * (lo + 1)) by (nonlinear_arith)
            requires
                hi == lo + 1,
        ;
    }
    Some(lo as u64)
}

/// The movement hand `lo..=hi`.
pub(crate) fn make_hand(lo: u8, hi: u8) -> (r: Vec<u8>)
    ensures
        r@ == full_hand(lo, hi),
{
    let mut out: Vec<u8> = Vec::new();
    if lo > hi {
        assert(out@ =~= full_hand(lo, hi));
        return out;
    }
    let len: usize = (hi - lo) as usize + 1;
    let mut j: usize = 0;
    while j < len
        invariant
            lo <= hi,
            len == hi - lo + 1,
            j <= len,
            out@ == full_hand(lo, hi).subrange(0, j as int),
        decreases len - j,
    {
        out.push(lo + (j as u8));
        j = j + 1;
        assert(out@ =~= full_hand(lo, hi).subrange(0, j as int));
    }
    assert(out@ =~= full_hand(lo, hi));
    out
}

impl GameState {
    /// The initial state of a new game. The seed drives every future
    /// draw: deck order, market events, and the first player, who is drawn
    /// rather than fixed to seat 0. Turn order is the seating order.
    pub(crate) fn new(content: &GameContent, players: Vec<(String, String)>, seed: u64) -> (r: Self)
        requires
            players@.len() >= 2,
            content_valid(content),
            content_fits(content),
        ensures
            opening_position(content, players@, r@),
            opening_draws(content, players@.len() as int, seed, r@),
            state_wf(content, r@),
    {
        let n = players.len();
        let mut rng = seed;
        let chance_deck = DeckState::shuffled(content.chance.len(), &mut rng);
        let community_deck = DeckState::shuffled(content.community.len(), &mut rng);
        let ghost r2 = rng;
        let mut forecast = MarketForecast::default();
        assert(forecast@.queue =~= Seq::<ScheduledModel>::empty());
        let mut k: usize = 0;
        while k < FORECAST_QUEUE_LEN
            invariant
                k <= FORECAST_QUEUE_LEN == 3,
                content_fits(content),
                forecast.active is None,
                forecast@.queue.len() <= k,
                forall|j: int| 0 <= j < forecast@.queue.len() ==> (#[trigger] forecast@.queue[j]).starts_at_turn == (j + 1) * content.forecast_gap_turns,
                seed_forecast(content, Seq::empty(), r2, 3) == seed_forecast(
                    content,
                    forecast@.queue,
                    rng,
                    (3 - k) as nat,
                ),
            decreases 3 - k,
        {
            let ghost before = forecast@;
            let ghost len = forecast@.queue.len() as int;
            let ghost gap = content.forecast_gap_turns as int;
            proof {
                assert(len * gap <= 3 * 65536) by (nonlinear_arith)
                    requires
                        0 <= len <= 3,
                        0 <= gap <= 65536,
                ;
                assert((len + 1) * gap == len * gap + gap) by (nonlinear_arith);
                if len > 0 {
                    assert(forecast@.queue.last().starts_at_turn == len * gap);
                }
            }
            forecast.draw_next(content, &mut rng, 0);
            proof {
                if content.market_events@.len() > 0 {
                    assert forall|j: int| 0 <= j < forecast@.queue.len() implies (#[trigger] forecast@.queue[j]).starts_at_turn == (j + 1) * content.forecast_gap_turns by {
                        if j < before.queue.len() {
                            assert(forecast@.queue[j] == before.queue[j]);
                        }
                    }
                }
            }
            k = k + 1;
        }
        let first = rng::below(&mut rng, n as u64) as usize;
        let hand = make_hand(content.rules.velocity_min, content.rules.velocity_max);
        let mut seats: Vec<Player> = Vec::new();
        let mut i: usize = 0;
        while i < n
            invariant
                n == players@.len(),
                i <= n,
                seats@.len() == i,
                hand@ == full_hand(content.rules.velocity_min, content.rules.velocity_max),
                forall|j: int|
                    0 <= j < i ==> (#[trigger] seats@[j])@ == opening_player(
                        content,
                        players@[j].0@,
                        players@[j].1@,
                    ),
            decreases n - i,
        {
            let p = Player {
                id: players[i].0.clone(),
                name: players[i].1.clone(),
                cash: content.rules.starting_balance,
                position: 0,
                jailed: false,
                jail_cards: 0,
                bankrupt: false,
                hand: copy_vec(&hand),
                jail_route: None,
                hands_cycled: 0,
                round_bonus_vp: 0,
            };
            seats.push(p);
            i = i + 1;
        }
        let mut tiles: Vec<TileState> = Vec::new();
        let m = content.board.len();
        let mut t: usize = 0;
        while t < m
            invariant
                m == content.board@.len(),
                t <= m,
                tiles@ == Seq::new(t as nat, |i: int| TileState { owner: None, houses: 0, mortgaged: false, boosts: 0 }),
            decreases m - t,
        {
            tiles.push(TileState::default());
            t = t + 1;
            assert(tiles@ =~= Seq::new(t as nat, |i: int| TileState { owner: None, houses: 0, mortgaged: false, boosts: 0 }));
        }
        let subs = pool_size(content.rules.subsidiary_pool_factor, n);
        let congs = pool_size(content.rules.conglomerate_pool_factor, n);
        let r = GameState {
            phase: GamePhase::Active,
            players: seats,
            current: first,
            turn: TurnPhase::AwaitMove,
            tiles,
            chance_deck,
            community_deck,
            rng,
            turn_count: 0,
            pending_trades: Vec::new(),
            trade_seq: 0,
            subsidiaries_available: subs,
            conglomerates_available: congs,
            forecast,
            spotlight: None,
        };
        proof {
            assert(r@.players.len() == n);
            assert(r@.pending_trades =~= Seq::<TradeModel>::empty());
        }
        r
    }

    /// A copy with the same model.
    pub(crate) fn copy_of(&self) -> (r: Self)
        ensures
            r@ == self@,
    {
        let mut players: Vec<Player> = Vec::new();
        let n = self.players.len();
        let mut i: usize = 0;
        while i < n
            invariant
                n == self.players@.len(),
                i <= n,
                players@.len() == i,
                forall|k: int| 0 <= k < i ==> (#[trigger] players@[k])@ == self.players@[k]@,
            decreases n - i,
        {
            let p = self.players[i].copy_of();
            players.push(p);
            i = i + 1;
        }
        assert(players@.map_values(|p: Player| p@) =~= self.players@.map_values(|p: Player| p@));
        let mut trades: Vec<TradeOffer> = Vec::new();
        let m = self.pending_trades.len();
        let mut j: usize = 0;
        while j < m
            invariant
                m == self.pending_trades@.len(),
                j <= m,
                trades@.len() == j,
                forall|k: int| 0 <= k < j ==> (#[trigger] trades@[k])@ == self.pending_trades@[k]@,
            decreases m - j,
        {
            let t = self.pending_trades[j].copy_of();
            trades.push(t);
            j = j + 1;
        }
        assert(trades@.map_values(|t: TradeOffer| t@) =~= self.pending_trades@.map_values(
            |t: TradeOffer| t@,
        ));
        GameState {
            phase: self.phase,
            players,
            current: self.current,
            turn: self.turn.copy_of(),
            tiles: copy_vec(&self.tiles),
            chance_deck: DeckState { order: copy_vec(&self.chance_deck.order), next: self.chance_deck.next },
            community_deck: DeckState {
                order: copy_vec(&self.community_deck.order),
                next: self.community_deck.next,
            },
            rng: self.rng,
            turn_count: self.turn_count,
            pending_trades: trades,
            trade_seq: self.trade_seq,
            subsidiaries_available: self.subsidiaries_available,
            conglomerates_available: self.conglomerates_available,
            forecast: self.forecast.copy_of(),
            spotlight: self.spotlight,
        }
    }

    /// Replaces seat `p`.
    pub(crate) fn set_player(&mut self, p: usize, pl: Player)
        requires
            p < old(self)@.players.len(),
        ensures
            final(self)@ == with_player(old(self)@, p as int, pl@),
    {
        let ghost before = self.players@;
        self.players.set(p, pl);
        proof {
            assert(self.players@.map_values(|q: Player| q@) =~= before.map_values(|q: Player| q@).update(
                p as int,
                pl@,
            ));
        }
    }

    /// Sets seat `p`'s cash.
    pub(crate) fn set_cash(&mut self, p: usize, cash: i64)
        requires
            p < old(self)@.players.len(),
        ensures
            final(self)@ == with_cash(old(self)@, p as int, cash as int),
    {
        let ghost before = self.players@;
        self.players[p].cash = cash;
        proof {
            assert(self.players@.map_values(|q: Player| q@) =~= before.map_values(|q: Player| q@).update(
                p as int,
                PlayerModel { cash, ..before[p as int]@ },
            ));
        }
    }

    /// Replaces the turn phase.
    pub(crate) fn set_turn(&mut self, t: TurnPhase)
        ensures
            final(self)@ == (GameModel { turn: t@, ..old(self)@ }),
    {
        self.turn = t;
    }

    /// Replaces tile `t`'s state.
    pub(crate) fn set_tile(&mut self, t: usize, ts: TileState)
        requires
            t < old(self)@.tiles.len(),
        ensures
            final(self)@ == with_tile(old(self)@, t as int, ts),
    {
        self.tiles.set(t, ts);
    }

    /// Whether `n` subsidiary units could be taken right now; an unlimited
    /// pool always answers yes.
    pub(crate) fn subsidiaries_free(&self, n: u64) -> (r: bool)
        ensures
            r == match self.subsidiaries_available {
                Some(a) => a >= n,
                None => true,
            },
    {
        match self.subsidiaries_available {
            Some(avail) => avail >= n,
            None => true,
        }
    }

    /// Takes one subsidiary from the pool; fails only when the pool is
    /// limited and empty.
    pub(crate) fn take_subsidiary(&mut self) -> (r: Result<(), ()>)
        ensures
            old(self).subsidiaries_available == Some(0u64) ==> r is Err && *final(self) == *old(self),
            old(self).subsidiaries_available != Some(0u64) ==> r is Ok && *final(self) == (GameState {
                subsidiaries_available: match old(self).subsidiaries_available {
                    Some(a) => Some((a - 1) as u64),
                    None => None,
                },
                ..*old(self)
            }),
    {
        match self.subsidiaries_available {
            Some(0) => Err(()),
            Some(n) => {
                self.subsidiaries_available = Some(n - 1);
                Ok(())
            },
            None => Ok(()),
        }
    }

    /// Takes one conglomerate from the pool; fails only when the pool is
    /// limited and empty.
    pub(crate) fn take_conglomerate(&mut self) -> (r: Result<(), ()>)
        ensures
            old(self).conglomerates_available == Some(0u64) ==> r is Err && *final(self) == *old(self),
            old(self).conglomerates_available != Some(0u64) ==> r is Ok && *final(self) == (GameState {
                conglomerates_available: match old(self).conglomerates_available {
                    Some(a) => Some((a - 1) as u64),
                    None => None,
                },
                ..*old(self)
            }),
    {
        match self.conglomerates_available {
            Some(0) => Err(()),
            Some(n) => {
                self.conglomerates_available = Some(n - 1);
                Ok(())
            },
            None => Ok(()),
        }
    }

    /// Returns `n` subsidiaries to the pool; a return never fails.
    pub(crate) fn return_subsidiaries(&mut self, n: u64)
        requires
            match old(self).subsidiaries_available {
                Some(a) => a + n <= u64::MAX,
                None => true,
            },
        ensures
            *final(self) == (GameState {
                subsidiaries_available: match old(self).subsidiaries_available {
                    Some(a) => Some((a + n) as u64),
                    None => None,
                },
                ..*old(self)
            }),
    {
        if let Some(avail) = self.subsidiaries_available {
            self.subsidiaries_available = Some(avail + n);
        }
    }

    /// Returns one conglomerate to the pool.
    pub(crate) fn return_conglomerate(&mut self)
        requires
            match old(self).conglomerates_available {
                Some(a) => a + 1 <= u64::MAX,
                None => true,
            },
        ensures
            *final(self) == (GameState {
                conglomerates_available: match old(self).conglomerates_available {
                    Some(a) => Some((a + 1) as u64),
                    None => None,
                },
                ..*old(self)
            }),
    {
        if let Some(avail) = self.conglomerates_available {
            self.conglomerates_available = Some(avail + 1);
        }
    }

    /// Consumes `n` subsidiaries already confirmed free; saturates rather
    /// than fails.
    pub(crate) fn consume_subsidiaries(&mut self, n: u64)
        ensures
            *final(self) == (GameState {
                subsidiaries_available: match old(self).subsidiaries_available {
                    Some(a) => Some(if a >= n { (a - n) as u64 } else { 0u64 }),
                    None => None,
                },
                ..*old(self)
            }),
    {
        if let Some(avail) = self.subsidiaries_available {
            self.subsidiaries_available = Some(avail.saturating_sub(n));
        }
    }

    /// Releases whatever pool units a tile holds at `houses` levels (of
    /// `cap`): one conglomerate at the top level, otherwise that many
    /// subsidiaries; nothing at zero.
    pub(crate) fn release_tile_pools(&mut self, houses: u8, cap: u8)
        requires
            match old(self).subsidiaries_available {
                Some(a) => a + 255 <= u64::MAX,
                None => true,
            },
            match old(self).conglomerates_available {
                Some(a) => a + 1 <= u64::MAX,
                None => true,
            },
        ensures
            *final(self) == (GameState {
                subsidiaries_available: match old(self).subsidiaries_available {
                    Some(a) => Some((a + subs_held(houses, cap)) as u64),
                    None => None,
                },
                conglomerates_available: match old(self).conglomerates_available {
                    Some(a) => Some((a + congs_held(houses, cap)) as u64),
                    None => None,
                },
                ..*old(self)
            }),
    {
        if houses == 0 {
            return;
        }
        if houses == cap {
            self.return_conglomerate();
        } else {
            self.return_subsidiaries(houses as u64);
        }
    }

    /// Draws the audit bracket: a percent in `min_pct..=max_pct` where
    /// percent `p` weighs `max_pct - p + 1`, so the heaviest bracket is the
    /// rarest.
    pub(crate) fn draw_networth_tax_pct(&mut self, min_pct: u8, max_pct: u8) -> (r: u8)
        requires
            min_pct <= max_pct <= 100,
        ensures
            r as int == weighted_pick(
                min_pct as int,
                max_pct as int,
                (rng::draw(old(self).rng) % (tri(max_pct - min_pct + 1) as u64)) as int,
            ),
            min_pct <= r <= max_pct,
            *final(self) == (GameState { rng: rng::advance(old(self).rng), ..*old(self) }),
    {
        let mut g = self.rng;
        let pct = descending_pick(&mut g, min_pct as u64, max_pct as u64);
        self.rng = g;
        pct as u8
    }

    /// Draws a uniformly random property tile for the Exposition corner;
    /// `None`, with no draw, when the board has no property tiles.
    pub(crate) fn draw_spotlight_tile(&mut self, content: &GameContent) -> (r: Option<usize>)
        ensures
            props_upto(content, content.board@.len() as int).len() == 0 ==> r is None && *final(self)
                == *old(self),
            props_upto(content, content.board@.len() as int).len() > 0 ==> {
                let cands = props_upto(content, content.board@.len() as int);
                &&& r == Some(cands[(rng::draw(old(self).rng) % (cands.len() as u64)) as int])
                &&& *final(self) == (GameState { rng: rng::advance(old(self).rng), ..*old(self) })
            },
            r matches Some(t) ==> is_property(content, t as int),
    {
        let candidates = content.property_tiles();
        if candidates.len() == 0 {
            return None;
        }
        let idx = rng::below(&mut self.rng, candidates.len() as u64) as usize;
        Some(candidates[idx])
    }

    /// Seats still in the game, in seat order.
    pub fn alive_players(&self) -> (r: Vec<usize>)
        ensures
            r@ == alive_upto(self@, self@.players.len() as int),
    {
        let n = self.players.len();
        let mut out: Vec<usize> = Vec::new();
        let mut i: usize = 0;
        while i < n
            invariant
                n == self.players@.len(),
                i <= n,
                out@ == alive_upto(self@, i as int),
            decreases n - i,
        {
            if !self.players[i].bankrupt {
                out.push(i);
            }
            i = i + 1;
        }
        out
    }

    /// True when `player` owns every tile of `group` (monopoly).
    pub fn owns_full_group(&self, content: &GameContent, player: usize, group: &str) -> (r: bool)
        requires
            self@.tiles.len() == content.board@.len(),
        ensures
            r == owns_full_group_spec(content, self@, player as int, group@),
    {
        let tiles = content.group_tiles(group);
        if tiles.len() == 0 {
            proof {
                assert forall|t: int| !in_group(content, t, group@) by {
                    if in_group(content, t, group@) {
                        assert(tiles@.contains(t as usize));
                    }
                }
            }
            return false;
        }
        assert(in_group(content, tiles@[0] as int, group@));
        let m = tiles.len();
        let mut k: usize = 0;
        while k < m
            invariant
                m == tiles@.len(),
                k <= m,
                self@.tiles.len() == content.board@.len(),
                forall|j: int| 0 <= j < m ==> in_group(content, #[trigger] tiles@[j] as int, group@),
                forall|i: int| in_group(content, i, group@) ==> #[trigger] tiles@.contains(i as usize),
                forall|j: int| 0 <= j < k ==> owned_by(self@, #[trigger] tiles@[j] as int, player as int),
            decreases m - k,
        {
            let t = tiles[k];
            if self.tiles[t].owner != Some(player) {
                return false;
            }
            k = k + 1;
        }
        proof {
            assert forall|t: int| in_group(content, t, group@) implies owned_by(self@, t, player as int) by {
                assert(0 <= t < content.board@.len());
                assert(content.board.len() == content.board@.len());
                assert(t <= usize::MAX);
                assert(tiles@.contains(t as usize));
                let j = choose|j: int| 0 <= j < tiles@.len() && tiles@[j] == t as usize;
                assert(0 <= j < k);
                assert(owned_by(self@, tiles@[j] as int, player as int));
                assert(tiles@[j] as int == t);
            }
        }
        true
    }

    /// Number of distinct colour groups `player` owns completely.
    /// Mortgaged tiles still count for ownership.
    pub fn full_groups_owned(&self, content: &GameContent, player: usize) -> (r: usize)
        requires
            self@.tiles.len() == content.board@.len(),
        ensures
            r == full_groups_spec(content, self@, player as int),
            r <= content.board@.len(),
    {
        let n = content.board.len();
        let mut count: usize = 0;
        let mut i: usize = 0;
        while i < n
            invariant
                n == content.board@.len(),
                self@.tiles.len() == n,
                i <= n,
                count == full_groups_upto(content, self@, player as int, i as int),
                count <= i,
            decreases n - i,
        {
            if let TileKind::Property(p) = &content.board[i].kind {
                let tiles = content.group_tiles(p.group.as_str());
                proof {
                    let ii: int = i as int;
                    assert(in_group(content, ii, p.group@));
                    assert(tiles@.contains(ii as usize));
                }
                let leader = tiles[0] == i;
                proof {
                    assert(leader == group_leader(content, i as int)) by {
                        let k = choose|k: int| 0 <= k < tiles@.len() && tiles@[k] == i;
                        if leader {
                            assert forall|j: int| 0 <= j < i implies !in_group(
                                content,
                                j,
                                prop_of(content, i as int).group@,
                            ) by {
                                if in_group(content, j, p.group@) {
                                    assert(content.board.len() == content.board@.len());
                                    assert(tiles@.contains(j as usize));
                                    let m = choose|m: int|
                                        0 <= m < tiles@.len() && tiles@[m] == j as usize;
                                    if m > 0 {
                                        assert(tiles@[0] < tiles@[m]);
                                    }
                                }
                            }
                        } else {
                            assert(k > 0);
                            assert(tiles@[0] < tiles@[k]);
                            assert(in_group(content, tiles@[0] as int, p.group@));
                        }
                    }
                }
                if leader && self.owns_full_group(content, player, p.group.as_str()) {
                    count = count + 1;
                }
            }
            i = i + 1;
        }
        count
    }

    /// Race-to-target score: 3 per complete colour group, 2 per top-level
    /// tile, 1 per group-scaled tile owned, plus the banked round bonus.
    /// Fully reversible except the round bonus.
    pub fn victory_points(&self, content: &GameContent, player: usize) -> (r: i64)
        requires
            player < self@.players.len(),
            self@.tiles.len() == content.board@.len(),
            content.board@.len() <= max_tiles(),
            within(self@.players[player as int].round_bonus_vp as int, 0x1000_0000_0000_0000),
        ensures
            r == victory_points_spec(content, self@, player as int),
    {
        let cap = if content.rules.max_houses_per_property < 5 {
            content.rules.max_houses_per_property
        } else {
            5
        };
        let groups = self.full_groups_owned(content, player);
        proof {
            lemma_full_groups_bound(content, self@, player as int, content.board@.len() as int);
        }
        let mut points: i64 = VP_PER_FULL_GROUP * (groups as i64);
        let n = self.tiles.len();
        let mut i: usize = 0;
        while i < n
            invariant
                n == self@.tiles.len(),
                n == content.board@.len(),
                n <= max_tiles(),
                i <= n,
                cap == cap_of(content),
                groups == full_groups_spec(content, self@, player as int),
                points == VP_PER_FULL_GROUP * groups + points_upto(content, self@, player as int, i as int),
                0 <= points_upto(content, self@, player as int, i as int) <= 3 * i,
                groups <= n,
            decreases n - i,
        {
            let t = self.tiles[i];
            if t.owner == Some(player) {
                if let Some(prop) = content.property(i) {
                    if t.houses >= cap {
                        points = points + VP_PER_CONGLOMERATE;
                    }
                    if prop.rent_model == RentModel::GroupScaled {
                        points = points + VP_PER_GROUP_SCALED;
                    }
                }
            }
            i = i + 1;
        }
        points + self.players[player].round_bonus_vp
    }

    /// Total assets of `player`: cash plus property equity. An unmortgaged
    /// property counts its full price; a mortgaged one its mortgage value
    /// (the owner already took the other half in cash, so mortgaging is
    /// net-worth neutral); each house counts its build cost.
    pub fn net_worth(&self, content: &GameContent, player: usize) -> (r: i64)
        requires
            player < self@.players.len(),
            self@.tiles.len() == content.board@.len(),
            content_fits(content),
            within(self@.players[player as int].cash as int, cash_bound(budget_limit())),
            forall|t: int| 0 <= t < self@.tiles.len() ==> (#[trigger] self@.tiles[t]).houses <= 5,
        ensures
            r == net_worth_spec(content, self@, player as int),
            within(r as int, 0x100_0000_0000_0000),
    {
        let n = self.tiles.len();
        let mut worth: i64 = self.players[player].cash;
        let mut i: usize = 0;
        while i < n
            invariant
                n == self@.tiles.len(),
                n == content.board@.len(),
                content_fits(content),
                i <= n,
                player < self@.players.len(),
                forall|t: int| 0 <= t < self@.tiles.len() ==> (#[trigger] self@.tiles[t]).houses <= 5,
                worth == self@.players[player as int].cash + worth_upto(content, self@, player as int, i as int),
                within(self@.players[player as int].cash as int, cash_bound(budget_limit())),
                within(worth_upto(content, self@, player as int, i as int), 6_000_000_000 * i),
                n <= 4096,
            decreases n - i,
        {
            let t = self.tiles[i];
            if t.owner == Some(player) {
                if let Some(prop) = content.property(i) {
                    proof {
                        assert(tile_fits(content.board@[i as int]));
                        assert(within(prop.price as int, amount_limit()));
                        assert(6_000_000_000 * i <= 6_000_000_000 * 4096) by (nonlinear_arith)
                            requires
                                i < 4096,
                        ;
                        assert(t.houses * prop.house_cost <= 5 * amount_limit()) by (nonlinear_arith)
                            requires
                                t.houses <= 5,
                                prop.house_cost <= amount_limit(),
                        ;
                        assert(t.houses * prop.house_cost >= -5 * amount_limit()) by (nonlinear_arith)
                            requires
                                t.houses <= 5,
                                prop.house_cost >= -amount_limit(),
                        ;
                    }
                    if t.mortgaged {
                        worth = worth + prop.price * MORTGAGE_VALUE_PCT / 100;
                    } else {
                        worth = worth + prop.price;
                    }
                    worth = worth + (t.houses as i64) * prop.house_cost;
                }
            }
            i = i + 1;
        }
        proof {
            assert(6_000_000_000 * n <= 6_000_000_000 * 4096) by (nonlinear_arith)
                requires
                    n <= 4096,
            ;
        }
        worth
    }
}

proof fn lemma_full_groups_bound(c: &GameContent, s: GameModel, p: int, n: int)
    ensures
        n >= 0 ==> full_groups_upto(c, s, p, n) <= n,
    decreases n,
{
    if n > 0 {
        lemma_full_groups_bound(c, s, p, n - 1);
    }
}

} // verus!
