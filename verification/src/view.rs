//! Public projection of `GameState` pushed to clients. It leaves out the
//! generator state and the deck order, which would make draws predictable.
//! Cash is public; trade offers are visible only to their two parties, so
//! the session layer builds one view per seat with `for_seat`.
use vstd::prelude::*;

use crate::content::GameContent;
use crate::state::{
    GameModel, GamePhase, GameState, MarketForecast, Spotlight, TileState, TradeModel, TradeOffer,
    TurnModel, TurnPhase, copy_vec, max_tiles, state_wf, victory_points_spec, within,
};

verus! {

#[derive(Debug, Clone, PartialEq)]
pub struct ClientView {
    pub phase: GamePhase,
    pub players: Vec<PlayerView>,
    pub current: usize,
    pub turn: TurnPhase,
    pub tiles: Vec<TileState>,
    pub turn_count: u32,
    pub pending_trades: Vec<TradeOffer>,
    /// Shared building pools, public so everyone watches the shelf empty;
    /// `None` = unlimited.
    pub subsidiaries_available: Option<u64>,
    pub conglomerates_available: Option<u64>,
    /// Public market forecast: draws already made, never the generator.
    pub forecast: MarketForecast,
    /// The spotlit property, if any: fully public.
    pub spotlight: Option<Spotlight>,
}

#[derive(Debug, Clone, PartialEq)]
pub struct PlayerView {
    pub id: String,
    pub name: String,
    pub cash: i64,
    pub position: usize,
    pub in_jail: bool,
    /// Held get-out-of-jail-free cards (public, like cash).
    pub jail_cards: u8,
    pub bankrupt: bool,
    /// Race-to-target score; see `GameState::victory_points`.
    pub victory_points: i64,
    /// Movement values currently held; public like cash.
    pub hand: Vec<u8>,
    /// `Some(queue)` while serving a locked, public Legal Route.
    pub jail_route: Option<Vec<u8>>,
    /// Hands fully cycled: the round number is the minimum of this across
    /// surviving players.
    pub hands_cycled: u32,
}

/// States a view can be taken of: well formed, on a board of at most
/// 4096 tiles, with banked bonuses an `i64` sum cannot overflow.
pub open spec fn viewable(c: &GameContent, s: GameModel) -> bool {
    &&& state_wf(c, s)
    &&& c.board@.len() <= max_tiles()
    &&& forall|p: int|
        0 <= p < s.players.len() ==> within(
            (#[trigger] s.players[p]).round_bonus_vp as int,
            0x1000_0000_0000_0000,
        )
}

/// Seat `i` of the view shows seat `i` of the state, with its score.
pub open spec fn shows_player(c: &GameContent, s: GameModel, v: PlayerView, i: int) -> bool {
    let p = s.players[i];
    &&& v.id@ == p.id
    &&& v.name@ == p.name
    &&& v.cash == p.cash
    &&& v.position == p.position
    &&& v.in_jail == p.jailed
    &&& v.jail_cards == p.jail_cards
    &&& v.bankrupt == p.bankrupt
    &&& v.victory_points == victory_points_spec(c, s, i)
    &&& v.hand@ == p.hand
    &&& crate::state::route_view(v.jail_route) == p.jail_route
    &&& v.hands_cycled == p.hands_cycled
}

/// The public fields every projection shares.
pub open spec fn shows_public(c: &GameContent, s: GameModel, v: ClientView) -> bool {
    &&& v.phase == s.phase
    &&& v.players@.len() == s.players.len()
    &&& forall|i: int| 0 <= i < s.players.len() ==> shows_player(c, s, #[trigger] v.players@[i], i)
    &&& v.current == s.current
    &&& v.tiles@ == s.tiles
    &&& v.turn_count == s.turn_count
    &&& v.subsidiaries_available == s.subsidiaries_available
    &&& v.conglomerates_available == s.conglomerates_available
    &&& v.forecast@ == s.forecast
    &&& v.spotlight == s.spotlight
}

/// The open offers among the first `n` that `seat` proposed or received.
pub open spec fn seat_trades(ts: Seq<TradeModel>, seat: int, n: int) -> Seq<TradeModel>
    decreases n,
{
    if n <= 0 {
        Seq::empty()
    } else if ts[n - 1].from == seat || ts[n - 1].to == seat {
        seat_trades(ts, seat, n - 1).push(ts[n - 1])
    } else {
        seat_trades(ts, seat, n - 1)
    }
}

/// Only `seat`'s own entry of a sealed window stays visible.
pub open spec fn mask_seat<T>(xs: Seq<Option<T>>, seat: int) -> Seq<Option<T>> {
    Seq::new(xs.len(), |i: int| if i == seat { xs[i] } else { None })
}

pub open spec fn mask_turn(t: TurnModel, seat: int) -> TurnModel {
    match t {
        TurnModel::BlindAuction { tile, bids } => TurnModel::BlindAuction {
            tile,
            bids: mask_seat(bids, seat),
        },
        TurnModel::BribeVote { briber, amount, votes } => TurnModel::BribeVote {
            briber,
            amount,
            votes: mask_seat(votes, seat),
        },
        _ => t,
    }
}

/// Law: a seat's view of a sealed window shows its own bid or vote as it
/// stands and no other seat's; every other turn shows as it is.
pub proof fn law_view_hides_sealed_entries(t: TurnModel, seat: int)
    ensures
        t matches TurnModel::BlindAuction { tile, bids } ==> mask_turn(t, seat) matches TurnModel::BlindAuction {
            tile: vt,
            bids: vb,
        } && vt == tile && vb.len() == bids.len() && (0 <= seat < bids.len() ==> vb[seat] == bids[seat]) && forall|i: int|
            0 <= i < bids.len() && i != seat ==> #[trigger] vb[i] is None,
        t matches TurnModel::BribeVote { briber, amount, votes } ==> mask_turn(t, seat) matches TurnModel::BribeVote {
            briber: vbr,
            amount: va,
            votes: vv,
        } && vbr == briber && va == amount && vv.len() == votes.len() && (0 <= seat < votes.len() ==> vv[seat] == votes[seat])
            && forall|i: int| 0 <= i < votes.len() && i != seat ==> #[trigger] vv[i] is None,
        !(t is BlindAuction) && !(t is BribeVote) ==> mask_turn(t, seat) == t,
{
}

/// Law: a seat sees exactly the open offers it proposed or received, in
/// their order.
pub proof fn law_view_offers(ts: Seq<TradeModel>, seat: int, n: int)
    requires
        0 <= n <= ts.len(),
    ensures
        forall|k: int| 0 <= k < seat_trades(ts, seat, n).len() ==> (#[trigger] seat_trades(ts, seat, n)[k]).from == seat
            || seat_trades(ts, seat, n)[k].to == seat,
        forall|k: int| 0 <= k < n && (ts[k].from == seat || ts[k].to == seat) ==> seat_trades(ts, seat, n).contains(
            #[trigger] ts[k],
        ),
        forall|k: int| 0 <= k < seat_trades(ts, seat, n).len() ==> ts.subrange(0, n).contains(
            #[trigger] seat_trades(ts, seat, n)[k],
        ),
    decreases n,
{
    if n > 0 {
        law_view_offers(ts, seat, n - 1);
        let prev = seat_trades(ts, seat, n - 1);
        let cur = seat_trades(ts, seat, n);
        assert forall|k: int| 0 <= k < n && (ts[k].from == seat || ts[k].to == seat) implies cur.contains(#[trigger] ts[k]) by {
            if k < n - 1 {
                let j = choose|j: int| 0 <= j < prev.len() && #[trigger] prev[j] == ts[k];
                assert(cur[j] == ts[k]);
            } else {
                assert(cur[cur.len() - 1] == ts[k]);
            }
        }
        assert forall|k: int| 0 <= k < cur.len() implies ts.subrange(0, n).contains(#[trigger] cur[k]) by {
            if k < prev.len() {
                let j = choose|j: int| 0 <= j < ts.subrange(0, n - 1).len() && #[trigger] ts.subrange(0, n - 1)[j] == prev[k];
                assert(ts.subrange(0, n)[j] == cur[k]);
            } else {
                assert(ts.subrange(0, n)[n - 1] == cur[k]);
            }
        }
    }
}

fn mask_vec<T: Copy>(xs: &Vec<Option<T>>, seat: usize) -> (r: Vec<Option<T>>)
    ensures
        r@ == mask_seat(xs@, seat as int),
{
    let mut out: Vec<Option<T>> = Vec::new();
    let n = xs.len();
    let mut i: usize = 0;
    while i < n
        invariant
            n == xs@.len(),
            i <= n,
            out@ == mask_seat(xs@, seat as int).subrange(0, i as int),
        decreases n - i,
    {
        if i == seat {
            out.push(xs[i]);
        } else {
            out.push(None);
        }
        i = i + 1;
        assert(out@ =~= mask_seat(xs@, seat as int).subrange(0, i as int));
    }
    assert(out@ =~= mask_seat(xs@, seat as int));
    out
}

impl ClientView {
    /// Projection for one seat: everything public plus only the trade
    /// offers this seat proposed or received. Sealed bids and bribe votes
    /// of other seats stay hidden while the window is open.
    pub fn for_seat(state: &GameState, content: &GameContent, seat: usize) -> (r: Self)
        requires
            viewable(content, state@),
        ensures
            shows_public(content, state@, r),
            r.turn@ == mask_turn(state@.turn, seat as int),
            r.pending_trades@.map_values(|t: TradeOffer| t@) == seat_trades(
                state@.pending_trades,
                seat as int,
                state@.pending_trades.len() as int,
            ),
    {
        let mut view = Self::of(state, content);
        let mut trades: Vec<TradeOffer> = Vec::new();
        let n = state.pending_trades.len();
        let mut i: usize = 0;
        while i < n
            invariant
                n == state@.pending_trades.len(),
                n == state.pending_trades@.len(),
                i <= n,
                trades@.map_values(|t: TradeOffer| t@) == seat_trades(
                    state@.pending_trades,
                    seat as int,
                    i as int,
                ),
            decreases n - i,
        {
            let t = &state.pending_trades[i];
            assert(state@.pending_trades[i as int] == t@);
            if t.from == seat || t.to == seat {
                let ghost before = trades@;
                trades.push(t.copy_of());
                assert(trades@.map_values(|t: TradeOffer| t@) =~= before.map_values(
                    |t: TradeOffer| t@,
                ).push(t@));
            }
            i = i + 1;
        }
        view.pending_trades = trades;
        view.turn = match &state.turn {
            TurnPhase::BlindAuction { tile, bids } => TurnPhase::BlindAuction {
                tile: *tile,
                bids: mask_vec(bids, seat),
            },
            TurnPhase::BribeVote { briber, amount, votes } => TurnPhase::BribeVote {
                briber: *briber,
                amount: *amount,
                votes: mask_vec(votes, seat),
            },
            TurnPhase::AwaitMove => TurnPhase::AwaitMove,
            TurnPhase::AwaitEnd => TurnPhase::AwaitEnd,
        };
        view
    }

    /// Omniscient projection with every open offer: for test and replay
    /// tooling; the server sends `for_seat` views.
    pub fn of(state: &GameState, content: &GameContent) -> (r: Self)
        requires
            viewable(content, state@),
        ensures
            shows_public(content, state@, r),
            r.turn@ == state@.turn,
            r.pending_trades@.map_values(|t: TradeOffer| t@) == state@.pending_trades,
    {
        let mut players: Vec<PlayerView> = Vec::new();
        let n = state.players.len();
        let mut i: usize = 0;
        while i < n
            invariant
                n == state@.players.len(),
                viewable(content, state@),
                i <= n,
                players@.len() == i,
                forall|k: int| 0 <= k < i ==> shows_player(content, state@, #[trigger] players@[k], k),
            decreases n - i,
        {
            let p = &state.players[i];
            assert(state@.players[i as int] == p@);
            let vp = state.victory_points(content, i);
            let route = match &p.jail_route {
                Some(q) => Some(copy_vec(q)),
                None => None,
            };
            players.push(
                PlayerView {
                    id: p.id.clone(),
                    name: p.name.clone(),
                    cash: p.cash,
                    position: p.position,
                    in_jail: p.jailed,
                    jail_cards: p.jail_cards,
                    bankrupt: p.bankrupt,
                    victory_points: vp,
                    hand: copy_vec(&p.hand),
                    jail_route: route,
                    hands_cycled: p.hands_cycled,
                },
            );
            i = i + 1;
        }
        let copy = state.copy_of();
        ClientView {
            phase: state.phase,
            players,
            current: state.current,
            turn: copy.turn,
            tiles: copy.tiles,
            turn_count: state.turn_count,
            pending_trades: copy.pending_trades,
            subsidiaries_available: state.subsidiaries_available,
            conglomerates_available: state.conglomerates_available,
            forecast: copy.forecast,
            spotlight: state.spotlight,
        }
    }
}

} // verus!
