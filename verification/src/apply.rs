//! The command pipeline: validate, apply, emit events. `apply` works on a
//! copy of the caller's state, so rejected commands never leak partial
//! changes. Movement, payment and bankruptcy logic lives here; rule
//! fragments go through the injected strategies.
use vstd::prelude::*;

use crate::command::{CommandKind, PlayerCommand};
use crate::content::{GameContent, content_valid};
use crate::error::{CommandError, RejectionModel};
use crate::event::Event;
use crate::state::{
    GameModel, GamePhase, GameState, PlayerModel, TurnModel, TurnPhase, budget_limit, cash_bound,
    conglomerate_stock, content_fits, pools_fit, state_bounded, state_wf, subsidiary_stock,
    with_cash, within,
};
use crate::strategy::{BankruptcyResolver, RentCalculator};

mod auction;
mod cash;
mod estate;
mod trade;
mod jail;
mod landing;
mod movement;
mod turn;

pub use auction::{announces, auction_outcome, bid_error, law_auction_settlement, law_auction_winner, law_effective_bid, raw_bids, resolution_events};
pub use estate::{
    boost_error, build_error, built, expropriate_error, expropriated, law_build_then_sell,
    law_mortgage_keeps_worth, law_mortgage_then_redeem, mortgage_error, sell_error, sold,
    unmortgage_error,
};
pub use jail::{bribe_error, bribe_outcome, bribe_resolved, card_exit_error, law_bribe_keeps_cash, law_bribe_needs_strict_majority, law_bribe_split, route_error, vote_error};
pub use movement::{arrived, move_events, movement_error, plain_move, quiet_move, walked};
pub use jail::route_chosen;
pub use cash::{bankrupt_events, forfeits, owned_upto, forfeited, law_payment_keeps_cash, offers_without, paid, resigned, retired};
pub use turn::{advance_events, alive_after, firing_events, law_next_alive, law_wealth_tax, next_alive, tick_events};
pub use landing::law_forward_card_move;
pub use trade::{accept_error, accepted, law_trade_keeps_cash, propose_error, withdraw_error};

verus! {

/// The executor of one command: the rules it runs under, the state it
/// works on, and the events it has emitted so far.
pub struct Exec<'e, R: RentCalculator, B: BankruptcyResolver> {
    pub content: &'e GameContent,
    pub rent: &'e R,
    pub bankruptcy: &'e B,
    pub st: GameState,
    pub ev: Vec<Event>,
}

/// Content and state the executor's arithmetic is proved for, after `k`
/// money movements of the current command.
pub open spec fn ready(c: &GameContent, s: GameModel, k: int) -> bool {
    &&& content_valid(c)
    &&& content_fits(c)
    &&& state_wf(c, s)
    &&& state_bounded(s, k)
    &&& pools_fit(c, s)
    &&& crate::state::sound(s)
}


/// The parts of the state that money movements leave alone.
pub open spec fn calm(old: GameModel, new: GameModel) -> bool {
    &&& new.turn == old.turn
    &&& new.forecast == old.forecast
    &&& new.current == old.current
    &&& new.rng == old.rng
    &&& new.chance_deck == old.chance_deck
    &&& new.community_deck == old.community_deck
    &&& new.turn_count == old.turn_count
    &&& new.trade_seq == old.trade_seq
    &&& new.spotlight == old.spotlight
    &&& (new.phase is Active ==> old.phase is Active)
}

/// No one holds so many jail cards that receiving one more could overflow.
pub open spec fn cards_low(s: GameModel) -> bool {
    forall|p: int| 0 <= p < s.players.len() ==> (#[trigger] s.players[p]).jail_cards <= 204
}

impl<'e, R: RentCalculator, B: BankruptcyResolver> Exec<'e, R, B> {
    pub open spec fn ok(&self, k: int) -> bool {
        ready(self.content, self.st@, k)
    }

    /// Same rules, the shared pools' stock unchanged, and the events so far
    /// still at the front of the list.
    pub open spec fn kept(&self, old: &Self) -> bool {
        &&& self.content == old.content
        &&& crate::event::extends(old.ev@, self.ev@)
        &&& self.rent == old.rent
        &&& self.bankruptcy == old.bankruptcy
        &&& subsidiary_stock(self.content, self.st@) == subsidiary_stock(old.content, old.st@)
        &&& conglomerate_stock(self.content, self.st@) == conglomerate_stock(old.content, old.st@)
    }
}

/// A cash change within the bounds keeps the state ready.
pub proof fn lemma_cash_ready(c: &GameContent, s: GameModel, p: int, cash: int, k: int)
    requires
        ready(c, s, k),
        0 <= p < s.players.len(),
        within(cash, cash_bound(k)),
    ensures
        ready(c, with_cash(s, p, cash), k),
        subsidiary_stock(c, with_cash(s, p, cash)) == subsidiary_stock(c, s),
        conglomerate_stock(c, with_cash(s, p, cash)) == conglomerate_stock(c, s),
        cards_low(s) ==> cards_low(with_cash(s, p, cash)),
        with_cash(s, p, cash).players.len() == s.players.len(),
{
    let t = with_cash(s, p, cash);
    assert forall|q: int| 0 <= q < t.players.len() implies #[trigger] t.players[q].position == s.players[q].position
        && t.players[q].jail_route == s.players[q].jail_route && t.players[q].jail_cards == s.players[q].jail_cards by {
    }
    assert forall|q: int| 0 <= q < t.players.len() implies crate::state::player_bounded(#[trigger] t.players[q], k) by {
        assert(crate::state::player_bounded(s.players[q], k));
    }
}

/// What a liquidation may do keeps the state ready, twenty steps on.
pub proof fn lemma_liquidation_ready(c: &GameContent, s: GameModel, t: GameModel, debtor: int, k: int)
    requires
        ready(c, s, k),
        k + 20 <= crate::state::budget_limit(),
        0 <= debtor < s.players.len(),
        state_wf(c, t),
        pools_fit(c, t),
        crate::strategy::liquidation_frame(s, t, debtor),
    ensures
        ready(c, t, k + 20),
        cards_low(s) ==> cards_low(t),
{
    crate::state::lemma_bounded_mono(s, k, k + 20);
    assert forall|q: int| 0 <= q < t.players.len() implies crate::state::player_bounded(#[trigger] t.players[q], k + 20) by {
        assert(crate::state::player_bounded(s.players[q], k + 20));
        if q == debtor {
            assert(cash_bound(k + 20) == cash_bound(k) + 20 * crate::state::cash_step());
        }
    }
    if cards_low(s) {
        assert forall|q: int| 0 <= q < t.players.len() implies (#[trigger] t.players[q]).jail_cards <= 204 by {
            assert(s.players[q].jail_cards <= 204);
        }
    }
}

/// A tile change that keeps the tile well formed keeps the state well
/// formed and bounded.
pub proof fn lemma_tile_ready(c: &GameContent, s: GameModel, t: int, ts: crate::state::TileState, k: int)
    requires
        state_wf(c, s),
        state_bounded(s, k),
        0 <= t < s.tiles.len(),
        match ts.owner {
            Some(o) => o < s.players.len(),
            None => true,
        },
        ts.houses <= crate::state::cap_of(c),
        ts.boosts <= 3,
    ensures
        state_wf(c, crate::state::with_tile(s, t, ts)),
        state_bounded(crate::state::with_tile(s, t, ts), k),
        cards_low(s) ==> cards_low(crate::state::with_tile(s, t, ts)),
{
    let u = crate::state::with_tile(s, t, ts);
    assert forall|q: int| 0 <= q < u.tiles.len() implies match (#[trigger] u.tiles[q]).owner {
        Some(o) => o < u.players.len(),
        None => true,
    } && u.tiles[q].houses <= crate::state::cap_of(c) && u.tiles[q].boosts <= 3 by {
        if q != t {
            assert(u.tiles[q] == s.tiles[q]);
        }
    }
}

/// A seat change that keeps the seat well formed and within the bounds
/// keeps the state ready.
pub proof fn lemma_player_ready(c: &GameContent, s: GameModel, p: int, m: PlayerModel, k: int)
    requires
        ready(c, s, k),
        0 <= p < s.players.len(),
        m.position < c.board@.len(),
        match m.jail_route {
            Some(r) => r.len() > 0,
            None => true,
        },
        crate::state::player_bounded(m, k),
        m.bankrupt ==> m.jail_cards == 0,
        m.bankrupt && !s.players[p].bankrupt ==> forall|t: int| 0 <= t < s.tiles.len() ==> (#[trigger] s.tiles[t]).owner
            != Some(p as usize),
        m.bankrupt && !s.players[p].bankrupt ==> forall|j: int| 0 <= j < s.pending_trades.len() ==> (#[trigger] s.pending_trades[j]).from
            != p && s.pending_trades[j].to != p,
    ensures
        ready(c, crate::state::with_player(s, p, m), k),
        subsidiary_stock(c, crate::state::with_player(s, p, m)) == subsidiary_stock(c, s),
        conglomerate_stock(c, crate::state::with_player(s, p, m)) == conglomerate_stock(c, s),
        cards_low(s) && m.jail_cards <= 204 ==> cards_low(crate::state::with_player(s, p, m)),
{
    let u = crate::state::with_player(s, p, m);
    assert forall|q: int| 0 <= q < u.players.len() implies (#[trigger] u.players[q]).position < c.board@.len()
        && match u.players[q].jail_route {
        Some(r) => r.len() > 0,
        None => true,
    } && crate::state::player_bounded(u.players[q], k) by {
        if q != p {
            assert(u.players[q] == s.players[q]);
            assert(crate::state::player_bounded(s.players[q], k));
        }
    }
    if cards_low(s) && m.jail_cards <= 204 {
        assert forall|q: int| 0 <= q < u.players.len() implies (#[trigger] u.players[q]).jail_cards <= 204 by {
            if q != p {
                assert(u.players[q] == s.players[q]);
            }
        }
    }
}

/// Every handler's cost is at most a card play's: a state ready after any
/// of them is ready at that cost.
proof fn lemma_any_cost<R: RentCalculator, B: BankruptcyResolver>(e: &Exec<R, B>, k: int)
    requires
        k == crate::apply::movement::play_cost(),
        exists|j: int| 0 <= j <= k && e.ok(j),
    ensures
        e.ok(k),
{
    let j = choose|j: int| 0 <= j <= k && e.ok(j);
    crate::state::lemma_bounded_mono(e.st@, j, k);
}

/// The lowest index below `n` satisfying `pred`; -1 when none does.
pub open spec fn first_upto(n: int, pred: spec_fn(int) -> bool) -> int
    decreases n,
{
    if n <= 0 {
        -1
    } else {
        let r = first_upto(n - 1, pred);
        if r >= 0 {
            r
        } else if pred(n - 1) {
            n - 1
        } else {
            -1
        }
    }
}

proof fn lemma_first_is(n: int, pred: spec_fn(int) -> bool, w: int)
    requires
        0 <= w < n,
        pred(w),
        forall|q: int| 0 <= q < w ==> !#[trigger] pred(q),
    ensures
        first_upto(n, pred) == w,
    decreases n,
{
    if n - 1 > w {
        lemma_first_is(n - 1, pred, w);
    } else {
        lemma_first_none(w, pred);
    }
}

proof fn lemma_first_none(n: int, pred: spec_fn(int) -> bool)
    requires
        forall|q: int| 0 <= q < n ==> !#[trigger] pred(q),
    ensures
        first_upto(n, pred) == -1,
    decreases n,
{
    if n > 0 {
        lemma_first_none(n - 1, pred);
    }
}

/// A living seat that controls at least `need` complete groups.
pub open spec fn group_winner_test(c: &GameContent, s: GameModel, need: int) -> spec_fn(int) -> bool {
    |q: int| crate::state::alive(s, q) && crate::state::full_groups_spec(c, s, q) >= need
}

/// A living seat with at least `target` victory points.
pub open spec fn points_winner_test(c: &GameContent, s: GameModel, target: int) -> spec_fn(int) -> bool {
    |q: int| crate::state::alive(s, q) && crate::state::victory_points_spec(c, s, q) >= target
}

/// The group win: the lowest living seat controlling enough complete
/// groups wins.
pub open spec fn group_settled(c: &GameContent, s: GameModel) -> GameModel {
    let need = c.rules.win_full_groups as int;
    let w = first_upto(s.players.len() as int, group_winner_test(c, s, need));
    if s.phase is Active && need > 0 && w >= 0 {
        GameModel { phase: GamePhase::Finished { winner: w as usize }, ..s }
    } else {
        s
    }
}

/// The points race: the lowest living seat at the target wins.
pub open spec fn points_settled(c: &GameContent, s: GameModel) -> GameModel {
    let target = c.rules.win_victory_points as int;
    let w = first_upto(s.players.len() as int, points_winner_test(c, s, target));
    if s.phase is Active && target > 0 && w >= 0 {
        GameModel { phase: GamePhase::Finished { winner: w as usize }, ..s }
    } else {
        s
    }
}

/// The doom clock: once the conglomerate shelf is empty in a points race,
/// the best score (net worth breaking ties, then the lowest seat) wins.
pub open spec fn pool_settled(c: &GameContent, s: GameModel) -> GameModel {
    if s.phase is Active && c.rules.win_victory_points > 0 && s.conglomerates_available == Some(0u64) {
        match crate::state::best_upto(s, crate::apply::turn::score_key(c, s), s.players.len() as int) {
            Some(w) => GameModel { phase: GamePhase::Finished { winner: w as usize }, ..s },
            None => s,
        }
    } else {
        s
    }
}

/// The win conditions checked after every command, in order.
pub open spec fn wins_settled(c: &GameContent, s: GameModel) -> GameModel {
    pool_settled(c, points_settled(c, group_settled(c, s)))
}

/// The turn passes on after a command when its holder is bankrupt and no
/// window waits on the other seats.
pub open spec fn passes_turn(s: GameModel) -> bool {
    s.phase is Active && s.players[s.current as int].bankrupt && !(s.turn is BlindAuction || s.turn is BribeVote)
}

/// The state after an owner action on a tile.
pub open spec fn estate_handled(c: &GameContent, s: GameModel, p: int, kind: CommandKind) -> Option<GameModel> {
    match kind {
        CommandKind::Build { tile } => Some(built(c, s, p, crate::content::tile_index_spec(c, tile@)->0 as int)),
        CommandKind::SellHouse { tile } => Some(sold(c, s, p, crate::content::tile_index_spec(c, tile@)->0 as int)),
        CommandKind::Mortgage { tile } => {
            let t = crate::content::tile_index_spec(c, tile@)->0 as int;
            Some(crate::apply::estate::cash_and_tile(s, p,
                crate::apply::estate::mortgage_value(crate::content::prop_of(c, t).price as int), t,
                crate::state::TileState { mortgaged: true, ..s.tiles[t] }))
        },
        CommandKind::Unmortgage { tile } => {
            let t = crate::content::tile_index_spec(c, tile@)->0 as int;
            Some(crate::apply::estate::cash_and_tile(s, p,
                -crate::apply::estate::redeem_cost(crate::content::prop_of(c, t).price as int), t,
                crate::state::TileState { mortgaged: false, ..s.tiles[t] }))
        },
        CommandKind::BoostRent { tile } => {
            let t = crate::content::tile_index_spec(c, tile@)->0 as int;
            let ts = s.tiles[t];
            Some(crate::apply::estate::cash_and_tile(s, p,
                -(crate::content::prop_of(c, t).price * c.rules.rent_boost / 100), t,
                crate::state::TileState { boosts: (ts.boosts + 1) as u8, ..ts }))
        },
        CommandKind::Expropriate { tile } => Some(expropriated(c, s, p, crate::content::tile_index_spec(c, tile@)->0 as int)),
        _ => None,
    }
}

/// The state after a trade command.
pub open spec fn trade_handled(c: &GameContent, s: GameModel, p: int, kind: CommandKind) -> Option<GameModel> {
    match kind {
        CommandKind::ProposeTrade { to, give_cash, give_tiles, receive_cash, receive_tiles } => {
            let gi = give_tiles@.map_values(|x: String| x@);
            let ri = receive_tiles@.map_values(|x: String| x@);
            Some(GameModel {
                trade_seq: (s.trade_seq + 1) as u32,
                pending_trades: s.pending_trades.push(crate::apply::trade::proposed(s, p,
                    crate::apply::trade::seat_of(s, to@)->0, give_cash,
                    crate::apply::trade::resolve_ids(c, gi, gi.len() as int)->Ok_0, receive_cash,
                    crate::apply::trade::resolve_ids(c, ri, ri.len() as int)->Ok_0)),
                ..s
            })
        },
        CommandKind::AcceptTrade { trade } => Some(accepted(s, crate::apply::trade::offer_index(s, trade)->0)),
        CommandKind::DeclineTrade { trade } => Some(GameModel {
            pending_trades: s.pending_trades.remove(crate::apply::trade::offer_index(s, trade)->0),
            ..s
        }),
        CommandKind::CancelTrade { trade } => Some(GameModel {
            pending_trades: s.pending_trades.remove(crate::apply::trade::offer_index(s, trade)->0),
            ..s
        }),
        _ => None,
    }
}

/// The state after a bid, a bribe, a vote or a jail card.
pub open spec fn turn_handled(c: &GameContent, s: GameModel, p: int, kind: CommandKind) -> Option<GameModel> {
    match kind {
        CommandKind::SubmitBlindBid { amount } => {
            let tile = s.turn->BlindAuction_tile;
            let bids = s.turn->BlindAuction_bids.update(p, Some(amount));
            let s1 = GameModel { turn: TurnModel::BlindAuction { tile, bids }, ..s };
            if crate::apply::auction::all_bid(s1, bids) {
                Some(auction_outcome(c, s1, tile as int, bids))
            } else {
                Some(s1)
            }
        },
        CommandKind::OfferBribe { amount } => Some(GameModel {
            turn: TurnModel::BribeVote { briber: p as usize, amount, votes: Seq::new(s.players.len(), |i: int| None::<bool>) },
            ..s
        }),
        CommandKind::VoteOnBribe { accept } => {
            let briber = s.turn->BribeVote_briber;
            let amount = s.turn->BribeVote_amount;
            let votes = s.turn->BribeVote_votes.update(p, Some(accept));
            let s1 = GameModel { turn: TurnModel::BribeVote { briber, amount, votes }, ..s };
            if crate::apply::jail::all_voted(s1, briber as int, votes) {
                Some(bribe_outcome(s1, briber as int, amount as int, votes))
            } else {
                Some(s1)
            }
        },
        CommandKind::UseJailCard => Some(crate::state::with_player(s, p, PlayerModel {
            jail_cards: (s.players[p].jail_cards - 1) as u8,
            jailed: false,
            ..s.players[p]
        })),
        _ => None,
    }
}

/// The state right after the handler of `kind`, for the commands whose
/// effect is fixed by the state alone; `None` for those that move a token
/// or pass the turn.
pub open spec fn handled(c: &GameContent, s: GameModel, p: int, kind: CommandKind) -> Option<GameModel> {
    if kind is Build || kind is SellHouse || kind is Mortgage || kind is Unmortgage || kind is BoostRent
        || kind is Expropriate {
        estate_handled(c, s, p, kind)
    } else if kind is ProposeTrade || kind is AcceptTrade || kind is DeclineTrade || kind is CancelTrade {
        trade_handled(c, s, p, kind)
    } else {
        turn_handled(c, s, p, kind)
    }
}

/// The events an owner action on a tile emits.
pub open spec fn estate_events(c: &GameContent, s: GameModel, p: int, kind: CommandKind) -> Option<Seq<Event>> {
    let pl = p as usize;
    match kind {
        CommandKind::Build { tile } => {
            let t = crate::content::tile_index_spec(c, tile@)->0;
            Some(seq![Event::HouseBuilt {
                player: pl,
                tile: t,
                houses: (s.tiles[t as int].houses + 1) as u8,
                cost: crate::content::prop_of(c, t as int).house_cost,
            }])
        },
        CommandKind::SellHouse { tile } => {
            let t = crate::content::tile_index_spec(c, tile@)->0;
            Some(seq![Event::HouseSold {
                player: pl,
                tile: t,
                houses: (s.tiles[t as int].houses - 1) as u8,
                refund: (crate::content::prop_of(c, t as int).house_cost * crate::tuning::HOUSE_REFUND_PCT / 100) as i64,
            }])
        },
        CommandKind::Mortgage { tile } => {
            let t = crate::content::tile_index_spec(c, tile@)->0;
            Some(seq![Event::PropertyMortgaged {
                player: pl,
                tile: t,
                value: crate::apply::estate::mortgage_value(crate::content::prop_of(c, t as int).price as int) as i64,
            }])
        },
        CommandKind::Unmortgage { tile } => {
            let t = crate::content::tile_index_spec(c, tile@)->0;
            Some(seq![Event::PropertyUnmortgaged {
                player: pl,
                tile: t,
                cost: crate::apply::estate::redeem_cost(crate::content::prop_of(c, t as int).price as int) as i64,
            }])
        },
        CommandKind::BoostRent { tile } => {
            let t = crate::content::tile_index_spec(c, tile@)->0;
            Some(seq![Event::RentBoosted {
                player: pl,
                tile: t,
                boosts: (s.tiles[t as int].boosts + 1) as u8,
                cost: (crate::content::prop_of(c, t as int).price * c.rules.rent_boost / 100) as i64,
            }])
        },
        CommandKind::Expropriate { tile } => Some(seq![crate::apply::estate::seizure_event(
            c,
            s,
            p,
            crate::content::tile_index_spec(c, tile@)->0 as int,
        )]),
        _ => None,
    }
}

/// The events a trade command emits.
pub open spec fn offer_events(s: GameModel, p: int, kind: CommandKind) -> Option<Seq<Event>> {
    match kind {
        CommandKind::ProposeTrade { to, .. } => Some(seq![Event::TradeProposed {
            trade: s.trade_seq,
            from: p as usize,
            to: crate::apply::trade::seat_of(s, to@)->0 as usize,
        }]),
        CommandKind::AcceptTrade { trade } => Some(crate::apply::trade::trade_events(
            s.pending_trades[crate::apply::trade::offer_index(s, trade)->0],
        )),
        CommandKind::DeclineTrade { trade } => {
            let o = s.pending_trades[crate::apply::trade::offer_index(s, trade)->0];
            Some(seq![Event::TradeDeclined { trade, from: o.from, to: o.to }])
        },
        CommandKind::CancelTrade { trade } => {
            let o = s.pending_trades[crate::apply::trade::offer_index(s, trade)->0];
            Some(seq![Event::TradeCancelled { trade, from: o.from, to: o.to }])
        },
        _ => None,
    }
}

/// The events a bribe offer or a jail card emits.
pub open spec fn jail_events(p: int, kind: CommandKind) -> Option<Seq<Event>> {
    let pl = p as usize;
    match kind {
        CommandKind::OfferBribe { amount } => Some(seq![Event::BribeOffered { player: pl, amount }]),
        CommandKind::UseJailCard => Some(seq![Event::JailCardUsed { player: pl }, Event::LeftJail { player: pl }]),
        _ => None,
    }
}

/// The events a sealed bid or a bribe vote appends to `before`: the bid or
/// the vote, then the window's resolution once every seat has answered.
pub open spec fn window_events(
    c: &GameContent,
    s: GameModel,
    p: int,
    kind: CommandKind,
    before: Seq<Event>,
    after: Seq<Event>,
) -> bool {
    match kind {
        CommandKind::SubmitBlindBid { amount } => {
            let tile = s.turn->BlindAuction_tile;
            let bids = s.turn->BlindAuction_bids.update(p, Some(amount));
            let s1 = GameModel { turn: TurnModel::BlindAuction { tile, bids }, ..s };
            let e1 = before.push(Event::BlindBidSubmitted { player: p as usize });
            if crate::apply::auction::all_bid(s1, bids) {
                crate::apply::auction::resolution_events(c, s1, tile as int, bids, e1, after)
            } else {
                after == e1
            }
        },
        CommandKind::VoteOnBribe { accept } => {
            let briber = s.turn->BribeVote_briber;
            let amount = s.turn->BribeVote_amount;
            let votes = s.turn->BribeVote_votes.update(p, Some(accept));
            let s1 = GameModel { turn: TurnModel::BribeVote { briber, amount, votes }, ..s };
            let e1 = before.push(Event::BribeVoteCast { player: p as usize });
            if crate::apply::jail::all_voted(s1, briber as int, votes) {
                after == e1.push(crate::apply::jail::bribe_resolved(s1, briber as int, amount as int, votes))
            } else {
                after == e1
            }
        },
        _ => true,
    }
}

/// The events an owner action on a tile, a trade command, a bribe offer or
/// a jail card emits, in order; `None` for the other commands.
pub open spec fn handled_events(c: &GameContent, s: GameModel, p: int, kind: CommandKind) -> Option<Seq<Event>> {
    if kind is Build || kind is SellHouse || kind is Mortgage || kind is Unmortgage || kind is BoostRent
        || kind is Expropriate {
        estate_events(c, s, p, kind)
    } else if kind is ProposeTrade || kind is AcceptTrade || kind is DeclineTrade || kind is CancelTrade {
        offer_events(s, p, kind)
    } else {
        jail_events(p, kind)
    }
}

proof fn lemma_group_settled(c: &GameContent, s: GameModel, f: GameModel)
    requires
        f == (GameModel { phase: f.phase, ..s }),
        ({
            let need = c.rules.win_full_groups;
            if s.phase is Active && need > 0 {
                match f.phase {
                    GamePhase::Finished { winner } => crate::state::alive(s, winner as int)
                        && crate::state::full_groups_spec(c, s, winner as int) >= need
                        && forall|q: int| 0 <= q < winner && crate::state::alive(s, q) ==> crate::state::full_groups_spec(c, s, q) < need,
                    GamePhase::Active => forall|q: int| crate::state::alive(s, q) ==> crate::state::full_groups_spec(c, s, q) < need,
                }
            } else {
                f == s
            }
        }),
    ensures
        f == group_settled(c, s),
{
    let need = c.rules.win_full_groups as int;
    let pred = group_winner_test(c, s, need);
    let n = s.players.len() as int;
    if s.phase is Active && need > 0 {
        match f.phase {
            GamePhase::Finished { winner } => {
                assert forall|q: int| 0 <= q < winner implies !#[trigger] pred(q) by {}
                lemma_first_is(n, pred, winner as int);
            },
            GamePhase::Active => {
                assert forall|q: int| 0 <= q < n implies !#[trigger] pred(q) by {}
                lemma_first_none(n, pred);
            },
        }
    }
}

proof fn lemma_points_settled(c: &GameContent, s: GameModel, f: GameModel)
    requires
        f == (GameModel { phase: f.phase, ..s }),
        ({
            let target = c.rules.win_victory_points;
            if s.phase is Active && target > 0 {
                match f.phase {
                    GamePhase::Finished { winner } => crate::state::alive(s, winner as int)
                        && crate::state::victory_points_spec(c, s, winner as int) >= target
                        && forall|q: int| 0 <= q < winner && crate::state::alive(s, q) ==> crate::state::victory_points_spec(c, s, q) < target,
                    GamePhase::Active => forall|q: int| crate::state::alive(s, q) ==> crate::state::victory_points_spec(c, s, q) < target,
                }
            } else {
                f == s
            }
        }),
    ensures
        f == points_settled(c, s),
{
    let target = c.rules.win_victory_points as int;
    let pred = points_winner_test(c, s, target);
    let n = s.players.len() as int;
    if s.phase is Active && target > 0 {
        match f.phase {
            GamePhase::Finished { winner } => {
                assert forall|q: int| 0 <= q < winner implies !#[trigger] pred(q) by {}
                lemma_first_is(n, pred, winner as int);
            },
            GamePhase::Active => {
                assert forall|q: int| 0 <= q < n implies !#[trigger] pred(q) by {}
                lemma_first_none(n, pred);
            },
        }
    }
}

/// The seat whose id is `id`, the first such.
pub open spec fn seat_by_id(s: GameModel, id: Seq<char>) -> Option<int> {
    crate::apply::trade::seat_of(s, id)
}

/// Why the pipeline refuses a command before its handler runs, if it
/// does: a finished game, an unknown or bankrupt player, or a turn-bound
/// command out of turn.
pub open spec fn gate_error(s: GameModel, id: Seq<char>, kind: CommandKind) -> Option<CommandError> {
    if s.phase is Finished {
        Some(CommandError::GameFinished)
    } else {
        match seat_by_id(s, id) {
            None => Some(CommandError::UnknownPlayer),
            Some(p) => if s.players[p].bankrupt {
                Some(CommandError::Bankrupt)
            } else if !any_turn(kind) && !(kind is SubmitBlindBid && s.turn is BlindAuction) && !(
            kind is VoteOnBribe && s.turn is BribeVote) && p != s.current {
                Some(CommandError::NotYourTurn)
            } else {
                None
            },
        }
    }
}

/// Commands any seat may send at any time.
pub open spec fn any_turn(kind: CommandKind) -> bool {
    kind is Resign || kind is ProposeTrade || kind is AcceptTrade || kind is DeclineTrade
        || kind is CancelTrade
}

/// Why the handler of an owner action on a tile refuses it for seat `p`,
/// if it does.
pub open spec fn estate_error(c: &GameContent, s: GameModel, p: int, kind: CommandKind) -> Option<RejectionModel> {
    match kind {
        CommandKind::Build { tile } => build_error(c, s, p, tile@),
        CommandKind::SellHouse { tile } => sell_error(c, s, p, tile@),
        CommandKind::Expropriate { tile } => expropriate_error(c, s, p, tile@),
        CommandKind::BoostRent { tile } => boost_error(c, s, p, tile@),
        CommandKind::Mortgage { tile } => mortgage_error(c, s, p, tile@),
        CommandKind::Unmortgage { tile } => unmortgage_error(c, s, p, tile@),
        _ => None,
    }
}

/// A plain refusal as a rejection.
pub open spec fn plain(e: Option<CommandError>) -> Option<RejectionModel> {
    match e {
        Some(x) => Some(RejectionModel::Plain(x)),
        None => None,
    }
}

/// Why the handler of a trade command refuses it for seat `p`, if it does.
pub open spec fn trade_error(c: &GameContent, s: GameModel, p: int, kind: CommandKind) -> Option<RejectionModel> {
    match kind {
        CommandKind::ProposeTrade { to, give_cash, give_tiles, receive_cash, receive_tiles } => propose_error(
            c,
            s,
            p,
            to@,
            give_cash,
            give_tiles@.map_values(|x: String| x@),
            receive_cash,
            receive_tiles@.map_values(|x: String| x@),
        ),
        CommandKind::AcceptTrade { trade } => accept_error(c, s, p, trade),
        CommandKind::DeclineTrade { trade } => plain(withdraw_error(s, p, trade, true)),
        CommandKind::CancelTrade { trade } => plain(withdraw_error(s, p, trade, false)),
        _ => None,
    }
}

/// Why the handler of a movement, auction, jail or turn command refuses it
/// for seat `p`, if it does.
pub open spec fn turn_error(c: &GameContent, s: GameModel, p: int, kind: CommandKind) -> Option<RejectionModel> {
    match kind {
        CommandKind::PlayMovementCard { value } => plain(movement_error(s, p, value)),
        CommandKind::SubmitBlindBid { amount } => plain(bid_error(c, s, p, amount)),
        CommandKind::ChooseLegalRoute { order } => plain(route_error(c, s, p, order@)),
        CommandKind::OfferBribe { amount } => plain(bribe_error(s, p, amount)),
        CommandKind::VoteOnBribe { .. } => plain(vote_error(s, p)),
        CommandKind::UseJailCard => plain(card_exit_error(s, p)),
        CommandKind::EndTurn => if s.turn != TurnModel::AwaitEnd {
            Some(RejectionModel::Plain(CommandError::WrongPhase))
        } else {
            None
        },
        _ => None,
    }
}

/// Why the handler of `kind` refuses it for seat `p`, if it does.
pub open spec fn handler_error(c: &GameContent, s: GameModel, p: int, kind: CommandKind) -> Option<RejectionModel> {
    if kind is Build || kind is SellHouse || kind is Mortgage || kind is Unmortgage || kind is BoostRent
        || kind is Expropriate {
        estate_error(c, s, p, kind)
    } else if kind is ProposeTrade || kind is AcceptTrade || kind is DeclineTrade || kind is CancelTrade {
        trade_error(c, s, p, kind)
    } else {
        turn_error(c, s, p, kind)
    }
}

/// Why `apply` refuses the command, if it does.
pub open spec fn rejection(c: &GameContent, s: GameModel, cmd: PlayerCommand) -> Option<RejectionModel> {
    match gate_error(s, cmd.player@, cmd.kind) {
        Some(e) => Some(RejectionModel::Plain(e)),
        None => handler_error(c, s, seat_by_id(s, cmd.player@)->0, cmd.kind),
    }
}

impl<'e, R: RentCalculator, B: BankruptcyResolver> Exec<'e, R, B> {
    /// Runs a movement, auction, jail or turn command.
    #[verifier::spinoff_prover]
    #[verifier::rlimit(40)]
    fn dispatch_turn(&mut self, player: usize, kind: &CommandKind) -> (r: Result<(), CommandError>)
        requires
            !old(self).st@.players[player as int].bankrupt,
            old(self).ok(0),
            cards_low(old(self).st@),
            player < old(self).st@.players.len(),
            *kind is PlayMovementCard || *kind is SubmitBlindBid || *kind is ChooseLegalRoute || *kind is OfferBribe || *kind is VoteOnBribe || *kind is UseJailCard || *kind is EndTurn || *kind is Resign,
        ensures
            r is Err <==> turn_error(old(self).content, old(self).st@, player as int, *kind) is Some,
            r matches Err(e) ==> turn_error(old(self).content, old(self).st@, player as int, *kind) == Some(e@),
            r is Ok ==> final(self).ok(crate::apply::movement::play_cost()) && final(self).kept(old(self))
                && final(self).st@.players.len() == old(self).st@.players.len(),
            r is Ok && turn_handled(old(self).content, old(self).st@, player as int, *kind) is Some ==> Some(final(self).st@)
                == turn_handled(old(self).content, old(self).st@, player as int, *kind),
            r is Ok && jail_events(player as int, *kind) is Some ==> final(self).ev@ == old(self).ev@ + jail_events(player as int, *kind)->0,
            r is Ok ==> window_events(old(self).content, old(self).st@, player as int, *kind, old(self).ev@, final(self).ev@),
            r is Ok ==> match *kind {
                CommandKind::PlayMovementCard { value } => plain_move(old(self).content, old(self).rent, old(self).st@, final(self).st@, player as int, value),
                CommandKind::ChooseLegalRoute { order } => plain_move(
                    old(self).content,
                    old(self).rent,
                    crate::apply::jail::route_chosen(old(self).st@, player as int, order@),
                    final(self).st@,
                    player as int,
                    order@[0],
                ),
                _ => true,
            },
            r is Ok && *kind is EndTurn && old(self).st@.phase is Active ==> final(self).st@.current == next_alive(old(self).st@)
                && final(self).st@.turn_count == old(self).st@.turn_count + 1,
            r is Ok && *kind is Resign && !(old(self).st@.phase is Active && old(self).st@.turn is BlindAuction)
                ==> resigned(old(self).st@, final(self).st@, player as int) && calm(old(self).st@, final(self).st@),
            r is Ok ==> match *kind {
                CommandKind::PlayMovementCard { value } => old(self).st@.players[player as int].jail_route is None ==> move_events(
                    old(self).content,
                    old(self).rent,
                    old(self).st@,
                    player as int,
                    value,
                    old(self).ev@,
                    final(self).ev@,
                ),
                _ => true,
            },
            r is Ok && *kind is PlayMovementCard ==> final(self).st@.turn_count == old(self).st@.turn_count,
            r is Ok && *kind is EndTurn && old(self).st@.phase is Active ==> advance_events(old(self).content, old(self).st@, old(self).ev@, final(self).ev@),
            r is Ok && *kind is Resign && !(old(self).st@.phase is Active && old(self).st@.turn is BlindAuction)
                ==> final(self).ev@ == crate::apply::cash::bankrupt_events(
                old(self).st@,
                player as int,
                None,
                old(self).ev@.push(Event::PlayerResigned { player }),
            ),
    {
        if matches!(
            kind,
            CommandKind::PlayMovementCard { .. } | CommandKind::ChooseLegalRoute { .. } | CommandKind::EndTurn
                | CommandKind::Resign
        ) {
            self.dispatch_move(player, kind)
        } else {
            self.dispatch_window(player, kind)
        }
    }

    /// Runs a movement, route, end-of-turn or resignation command.
    #[verifier::spinoff_prover]
    #[verifier::rlimit(60)]
    fn dispatch_move(&mut self, player: usize, kind: &CommandKind) -> (r: Result<(), CommandError>)
        requires
            !old(self).st@.players[player as int].bankrupt,
            old(self).ok(0),
            cards_low(old(self).st@),
            player < old(self).st@.players.len(),
            *kind is PlayMovementCard || *kind is ChooseLegalRoute || *kind is EndTurn || *kind is Resign,
        ensures
            r is Err <==> turn_error(old(self).content, old(self).st@, player as int, *kind) is Some,
            r matches Err(e) ==> turn_error(old(self).content, old(self).st@, player as int, *kind) == Some(e@),
            r is Ok ==> final(self).ok(crate::apply::movement::play_cost()) && final(self).kept(old(self))
                && final(self).st@.players.len() == old(self).st@.players.len(),
            r is Ok && turn_handled(old(self).content, old(self).st@, player as int, *kind) is Some ==> Some(final(self).st@)
                == turn_handled(old(self).content, old(self).st@, player as int, *kind),
            r is Ok && jail_events(player as int, *kind) is Some ==> final(self).ev@ == old(self).ev@ + jail_events(player as int, *kind)->0,
            r is Ok ==> window_events(old(self).content, old(self).st@, player as int, *kind, old(self).ev@, final(self).ev@),
            r is Ok ==> match *kind {
                CommandKind::PlayMovementCard { value } => plain_move(old(self).content, old(self).rent, old(self).st@, final(self).st@, player as int, value),
                CommandKind::ChooseLegalRoute { order } => plain_move(
                    old(self).content,
                    old(self).rent,
                    crate::apply::jail::route_chosen(old(self).st@, player as int, order@),
                    final(self).st@,
                    player as int,
                    order@[0],
                ),
                _ => true,
            },
            r is Ok && *kind is EndTurn && old(self).st@.phase is Active ==> final(self).st@.current == next_alive(old(self).st@)
                && final(self).st@.turn_count == old(self).st@.turn_count + 1,
            r is Ok && *kind is Resign && !(old(self).st@.phase is Active && old(self).st@.turn is BlindAuction)
                ==> resigned(old(self).st@, final(self).st@, player as int) && calm(old(self).st@, final(self).st@),
            r is Ok ==> match *kind {
                CommandKind::PlayMovementCard { value } => old(self).st@.players[player as int].jail_route is None ==> move_events(
                    old(self).content,
                    old(self).rent,
                    old(self).st@,
                    player as int,
                    value,
                    old(self).ev@,
                    final(self).ev@,
                ),
                _ => true,
            },
            r is Ok && *kind is PlayMovementCard ==> final(self).st@.turn_count == old(self).st@.turn_count,
            r is Ok && *kind is EndTurn && old(self).st@.phase is Active ==> advance_events(old(self).content, old(self).st@, old(self).ev@, final(self).ev@),
            r is Ok && *kind is Resign && !(old(self).st@.phase is Active && old(self).st@.turn is BlindAuction)
                ==> final(self).ev@ == crate::apply::cash::bankrupt_events(
                old(self).st@,
                player as int,
                None,
                old(self).ev@.push(Event::PlayerResigned { player }),
            ),
    {
        match kind {
            CommandKind::PlayMovementCard { value } => {
                let r = self.play_movement_card(player, *value);
                if let Err(e) = r {
                    return Err(e);
                }
                proof {
                    lemma_any_cost(self, crate::apply::movement::play_cost());
                }
            },
            CommandKind::ChooseLegalRoute { order } => {
                let r = self.choose_legal_route(player, crate::state::copy_vec(order));
                if let Err(e) = r {
                    return Err(e);
                }
                proof {
                    lemma_any_cost(self, crate::apply::movement::play_cost());
                }
            },
            CommandKind::EndTurn => {
                let r = self.end_turn();
                if let Err(e) = r {
                    return Err(e);
                }
                proof {
                    lemma_any_cost(self, crate::apply::movement::play_cost());
                }
            },
            CommandKind::Resign => {
                let r = self.resign(player);
                if let Err(e) = r {
                    return Err(e);
                }
                proof {
                    lemma_any_cost(self, crate::apply::movement::play_cost());
                }
            },
            _ => {
                return Ok(());
            },
        }
        Ok(())
    }

    /// Runs a sealed bid, a bribe offer or vote, or a jail card.
    #[verifier::spinoff_prover]
    #[verifier::rlimit(60)]
    fn dispatch_window(&mut self, player: usize, kind: &CommandKind) -> (r: Result<(), CommandError>)
        requires
            !old(self).st@.players[player as int].bankrupt,
            old(self).ok(0),
            cards_low(old(self).st@),
            player < old(self).st@.players.len(),
            *kind is SubmitBlindBid || *kind is OfferBribe || *kind is VoteOnBribe || *kind is UseJailCard,
        ensures
            r is Err <==> turn_error(old(self).content, old(self).st@, player as int, *kind) is Some,
            r matches Err(e) ==> turn_error(old(self).content, old(self).st@, player as int, *kind) == Some(e@),
            r is Ok ==> final(self).ok(crate::apply::movement::play_cost()) && final(self).kept(old(self))
                && final(self).st@.players.len() == old(self).st@.players.len(),
            r is Ok && turn_handled(old(self).content, old(self).st@, player as int, *kind) is Some ==> Some(final(self).st@)
                == turn_handled(old(self).content, old(self).st@, player as int, *kind),
            r is Ok && jail_events(player as int, *kind) is Some ==> final(self).ev@ == old(self).ev@ + jail_events(player as int, *kind)->0,
            r is Ok ==> window_events(old(self).content, old(self).st@, player as int, *kind, old(self).ev@, final(self).ev@),
    {
        if matches!(kind, CommandKind::SubmitBlindBid { .. } | CommandKind::VoteOnBribe { .. }) {
            self.dispatch_vote(player, kind)
        } else {
            self.dispatch_jail(player, kind)
        }
    }

    /// Runs a sealed bid or a bribe vote.
    #[verifier::spinoff_prover]
    #[verifier::rlimit(60)]
    fn dispatch_vote(&mut self, player: usize, kind: &CommandKind) -> (r: Result<(), CommandError>)
        requires
            !old(self).st@.players[player as int].bankrupt,
            old(self).ok(0),
            cards_low(old(self).st@),
            player < old(self).st@.players.len(),
            *kind is SubmitBlindBid || *kind is VoteOnBribe,
        ensures
            r is Err <==> turn_error(old(self).content, old(self).st@, player as int, *kind) is Some,
            r matches Err(e) ==> turn_error(old(self).content, old(self).st@, player as int, *kind) == Some(e@),
            r is Ok ==> final(self).ok(crate::apply::movement::play_cost()) && final(self).kept(old(self))
                && final(self).st@.players.len() == old(self).st@.players.len(),
            r is Ok && turn_handled(old(self).content, old(self).st@, player as int, *kind) is Some ==> Some(final(self).st@)
                == turn_handled(old(self).content, old(self).st@, player as int, *kind),
            r is Ok && jail_events(player as int, *kind) is Some ==> final(self).ev@ == old(self).ev@ + jail_events(player as int, *kind)->0,
            r is Ok ==> window_events(old(self).content, old(self).st@, player as int, *kind, old(self).ev@, final(self).ev@),
    {
        match kind {
            CommandKind::SubmitBlindBid { amount } => {
                let r = self.submit_blind_bid(player, *amount);
                if let Err(e) = r {
                    return Err(e);
                }
                proof {
                    lemma_any_cost(self, crate::apply::movement::play_cost());
                }
            },
            CommandKind::VoteOnBribe { accept } => {
                let r = self.vote_on_bribe(player, *accept);
                if let Err(e) = r {
                    return Err(e);
                }
                proof {
                    lemma_any_cost(self, crate::apply::movement::play_cost());
                }
            },
            _ => {
                return Ok(());
            },
        }
        Ok(())
    }

    /// Runs a bribe offer or a jail card.
    #[verifier::spinoff_prover]
    #[verifier::rlimit(60)]
    fn dispatch_jail(&mut self, player: usize, kind: &CommandKind) -> (r: Result<(), CommandError>)
        requires
            !old(self).st@.players[player as int].bankrupt,
            old(self).ok(0),
            cards_low(old(self).st@),
            player < old(self).st@.players.len(),
            *kind is OfferBribe || *kind is UseJailCard,
        ensures
            r is Err <==> turn_error(old(self).content, old(self).st@, player as int, *kind) is Some,
            r matches Err(e) ==> turn_error(old(self).content, old(self).st@, player as int, *kind) == Some(e@),
            r is Ok ==> final(self).ok(crate::apply::movement::play_cost()) && final(self).kept(old(self))
                && final(self).st@.players.len() == old(self).st@.players.len(),
            r is Ok && turn_handled(old(self).content, old(self).st@, player as int, *kind) is Some ==> Some(final(self).st@)
                == turn_handled(old(self).content, old(self).st@, player as int, *kind),
            r is Ok && jail_events(player as int, *kind) is Some ==> final(self).ev@ == old(self).ev@ + jail_events(player as int, *kind)->0,
    {
        match kind {
            CommandKind::OfferBribe { amount } => {
                let r = self.offer_bribe(player, *amount);
                if let Err(e) = r {
                    return Err(e);
                }
                proof {
                    lemma_any_cost(self, crate::apply::movement::play_cost());
                }
            },
            CommandKind::UseJailCard => {
                let r = self.use_jail_card(player);
                if let Err(e) = r {
                    return Err(e);
                }
                proof {
                    lemma_any_cost(self, crate::apply::movement::play_cost());
                }
            },
            _ => {
                return Ok(());
            },
        }
        Ok(())
    }

    /// Runs a trade command.
    #[verifier::spinoff_prover]
    #[verifier::rlimit(60)]
    fn dispatch_trade(&mut self, player: usize, kind: &CommandKind) -> (r: Result<(), CommandError>)
        requires
            !old(self).st@.players[player as int].bankrupt,
            old(self).ok(0),
            cards_low(old(self).st@),
            player < old(self).st@.players.len(),
            *kind is ProposeTrade || *kind is AcceptTrade || *kind is DeclineTrade || *kind is CancelTrade,
        ensures
            r is Err <==> trade_error(old(self).content, old(self).st@, player as int, *kind) is Some,
            r matches Err(e) ==> trade_error(old(self).content, old(self).st@, player as int, *kind) == Some(e@),
            r is Ok ==> final(self).ok(crate::apply::movement::play_cost()) && final(self).kept(old(self))
                && final(self).st@.players.len() == old(self).st@.players.len(),
            r is Ok && trade_handled(old(self).content, old(self).st@, player as int, *kind) is Some ==> Some(final(self).st@)
                == trade_handled(old(self).content, old(self).st@, player as int, *kind),
            r is Ok && offer_events(old(self).st@, player as int, *kind) is Some ==> final(self).ev@ == old(self).ev@ + offer_events(old(self).st@, player as int, *kind)->0,
    {
        match kind {
            CommandKind::ProposeTrade { to, give_cash, give_tiles, receive_cash, receive_tiles } => {
                let r = self.propose_trade(player, to.as_str(), *give_cash, give_tiles, *receive_cash, receive_tiles);
                if let Err(e) = r {
                    return Err(e);
                }
                proof {
                    lemma_any_cost(self, crate::apply::movement::play_cost());
                }
            },
            CommandKind::AcceptTrade { trade } => {
                let r = self.accept_trade(player, *trade);
                if let Err(e) = r {
                    return Err(e);
                }
                proof {
                    lemma_any_cost(self, crate::apply::movement::play_cost());
                }
            },
            CommandKind::DeclineTrade { trade } => {
                let r = self.decline_trade(player, *trade);
                if let Err(e) = r {
                    return Err(e);
                }
                proof {
                    lemma_any_cost(self, crate::apply::movement::play_cost());
                }
            },
            CommandKind::CancelTrade { trade } => {
                let r = self.cancel_trade(player, *trade);
                if let Err(e) = r {
                    return Err(e);
                }
                proof {
                    lemma_any_cost(self, crate::apply::movement::play_cost());
                }
            },
            _ => {
                return Ok(());
            },
        }
        Ok(())
    }

    /// Runs an owner action on a tile.
    #[verifier::spinoff_prover]
    #[verifier::rlimit(60)]
    fn dispatch_estate(&mut self, player: usize, kind: &CommandKind) -> (r: Result<(), CommandError>)
        requires
            !old(self).st@.players[player as int].bankrupt,
            old(self).ok(0),
            cards_low(old(self).st@),
            player < old(self).st@.players.len(),
            *kind is Build || *kind is SellHouse || *kind is Expropriate || *kind is BoostRent || *kind is Mortgage || *kind is Unmortgage,
        ensures
            r is Err <==> estate_error(old(self).content, old(self).st@, player as int, *kind) is Some,
            r matches Err(e) ==> estate_error(old(self).content, old(self).st@, player as int, *kind) == Some(e@),
            r is Ok ==> final(self).ok(crate::apply::movement::play_cost()) && final(self).kept(old(self))
                && final(self).st@.players.len() == old(self).st@.players.len(),
            r is Ok && estate_handled(old(self).content, old(self).st@, player as int, *kind) is Some ==> Some(final(self).st@)
                == estate_handled(old(self).content, old(self).st@, player as int, *kind),
            r is Ok && estate_events(old(self).content, old(self).st@, player as int, *kind) is Some ==> final(self).ev@ == old(self).ev@ + estate_events(old(self).content, old(self).st@, player as int, *kind)->0,
    {
        match kind {
            CommandKind::Build { tile } => {
                let r = self.build(player, tile.as_str());
                if let Err(e) = r {
                    return Err(e);
                }
                proof {
                    lemma_any_cost(self, crate::apply::movement::play_cost());
                }
            },
            CommandKind::SellHouse { tile } => {
                let r = self.sell_house(player, tile.as_str());
                if let Err(e) = r {
                    return Err(e);
                }
                proof {
                    lemma_any_cost(self, crate::apply::movement::play_cost());
                }
            },
            CommandKind::Expropriate { tile } => {
                let r = self.expropriate(player, tile.as_str());
                if let Err(e) = r {
                    return Err(e);
                }
                proof {
                    lemma_any_cost(self, crate::apply::movement::play_cost());
                }
            },
            CommandKind::BoostRent { tile } => {
                let r = self.boost_rent(player, tile.as_str());
                if let Err(e) = r {
                    return Err(e);
                }
                proof {
                    lemma_any_cost(self, crate::apply::movement::play_cost());
                }
            },
            CommandKind::Mortgage { tile } => {
                let r = self.mortgage(player, tile.as_str());
                if let Err(e) = r {
                    return Err(e);
                }
                proof {
                    lemma_any_cost(self, crate::apply::movement::play_cost());
                }
            },
            CommandKind::Unmortgage { tile } => {
                let r = self.unmortgage(player, tile.as_str());
                if let Err(e) = r {
                    return Err(e);
                }
                proof {
                    lemma_any_cost(self, crate::apply::movement::play_cost());
                }
            },
            _ => {
                return Ok(());
            },
        }
        Ok(())
    }

    /// The checks every command passes before its handler: the game is
    /// running, the player exists and is solvent, and turn-bound commands
    /// come from the acting seat (or any seat while a window is open).
    fn gate(&self, cmd: &PlayerCommand) -> (r: Result<usize, CommandError>)
        requires
            self.ok(0),
        ensures
            r is Err <==> gate_error(self.st@, cmd.player@, cmd.kind) is Some,
            r matches Err(e) ==> gate_error(self.st@, cmd.player@, cmd.kind) == Some(e),
            r matches Ok(p) ==> Some(p as int) == seat_by_id(self.st@, cmd.player@) && p < self.st@.players.len(),
            r matches Ok(p) ==> !self.st@.players[p as int].bankrupt,
    {
        if matches!(self.st.phase, GamePhase::Finished { .. }) {
            return Err(CommandError::GameFinished);
        }
        let player = match self.seat_index(cmd.player.as_str()) {
            Some(p) => p,
            None => {
                return Err(CommandError::UnknownPlayer);
            },
        };
        proof {
            assert(self.st@.players[player as int] == self.st.players@[player as int]@);
        }
        if self.st.players[player].bankrupt {
            return Err(CommandError::Bankrupt);
        }
        let any = matches!(
            cmd.kind,
            CommandKind::Resign | CommandKind::ProposeTrade { .. } | CommandKind::AcceptTrade { .. }
                | CommandKind::DeclineTrade { .. } | CommandKind::CancelTrade { .. }
        );
        let in_open_bid = matches!(cmd.kind, CommandKind::SubmitBlindBid { .. }) && matches!(
            self.st.turn,
            TurnPhase::BlindAuction { .. }
        );
        let in_open_vote = matches!(cmd.kind, CommandKind::VoteOnBribe { .. }) && matches!(
            self.st.turn,
            TurnPhase::BribeVote { .. }
        );
        if !any && !in_open_bid && !in_open_vote && player != self.st.current {
            return Err(CommandError::NotYourTurn);
        }
        Ok(player)
    }

    /// After the handler: a seat that went bankrupt on its own turn passes
    /// it on (unless a window still waits on other seats), then the win
    /// conditions are checked; a points win outranks the doom clock.
    fn settle(&mut self)
        requires
            old(self).ok(crate::apply::movement::play_cost()),
        ensures
            final(self).ok(budget_limit()),
            final(self).kept(old(self)),
            !passes_turn(old(self).st@) ==> final(self).st@ == wins_settled(old(self).content, old(self).st@),
            final(self).st@.turn_count == old(self).st@.turn_count || final(self).st@.turn_count == old(self).st@.turn_count + 1,
            final(self).st@.turn_count == old(self).st@.turn_count ==> final(self).st@.current == old(self).st@.current,
            !passes_turn(old(self).st@) && wins_settled(old(self).content, old(self).st@) == old(self).st@
                ==> final(self).ev@ == old(self).ev@,
            final(self).st@.phase is Active && final(self).st@.turn_count
                == old(self).st@.turn_count ==> final(self).ev@ == old(self).ev@,
    {
        let ghost k = crate::apply::movement::play_cost();
        let ghost s0 = self.st@;
        if matches!(self.st.phase, GamePhase::Active) && self.st.players[self.st.current].bankrupt
            && !matches!(self.st.turn, TurnPhase::BlindAuction { .. } | TurnPhase::BribeVote { .. }) {
            self.advance_turn(Ghost(k));
        } else {
            proof {
                crate::state::lemma_bounded_mono(self.st@, k, k + crate::apply::turn::advance_cost());
            }
        }
        let ghost k2 = k + crate::apply::turn::advance_cost();
        let ghost s1 = self.st@;
        self.check_group_win(Ghost(k2));
        proof {
            lemma_group_settled(self.content, s1, self.st@);
        }
        let ghost s2 = self.st@;
        self.check_points_win(Ghost(k2));
        proof {
            lemma_points_settled(self.content, s2, self.st@);
        }
        self.check_pool_exhaustion_win(Ghost(k2));
        proof {
            crate::state::lemma_bounded_mono(self.st@, k2, budget_limit());
        }
    }
}

/// The single command pipeline: validate, apply, emit events. A refused
/// command changes nothing; an accepted one yields the successor state and
/// the events describing what happened, in order.
#[verifier::spinoff_prover]
#[verifier::rlimit(80)]
pub fn apply<R: RentCalculator, B: BankruptcyResolver>(
    content: &GameContent,
    rent: &R,
    bankruptcy: &B,
    state: &GameState,
    cmd: &PlayerCommand,
) -> (r: Result<(GameState, Vec<Event>), CommandError>)
    requires
        content_valid(content),
        content_fits(content),
        crate::state::state_fits(content, state@),
    ensures
        r is Err <==> rejection(content, state@, *cmd) is Some,
        r matches Err(e) ==> rejection(content, state@, *cmd) == Some(e@),
        r matches Ok((s, _)) ==> state_wf(content, s@) && state_bounded(s@, budget_limit()) && crate::state::sound(s@)
            && pools_fit(content, s@)
            && subsidiary_stock(content, s@) == subsidiary_stock(content, state@)
            && conglomerate_stock(content, s@) == conglomerate_stock(content, state@),
        r matches Ok((s, _)) ==> match handled(content, state@, seat_by_id(state@, cmd.player@)->0, cmd.kind) {
            Some(h) => !passes_turn(h) ==> s@ == wins_settled(content, h),
            None => true,
        },
        r matches Ok((s, _)) ==> match cmd.kind {
            CommandKind::PlayMovementCard { value } => {
                let p = seat_by_id(state@, cmd.player@)->0;
                quiet_move(content, rent, state@, s@, p, value)
            },
            CommandKind::ChooseLegalRoute { order } => {
                let p = seat_by_id(state@, cmd.player@)->0;
                quiet_move(content, rent, crate::apply::jail::route_chosen(state@, p, order@), s@, p, order@[0])
            },
            _ => true,
        },
        r matches Ok((s, es)) ==> match cmd.kind {
            CommandKind::PlayMovementCard { value } => {
                let p = seat_by_id(state@, cmd.player@)->0;
                state@.players[p].jail_route is None && s@.phase is Active && s@.turn_count == state@.turn_count
                    ==> move_events(content, rent, state@, p, value, Seq::empty(), es@)
            },
            _ => true,
        },
        r matches Ok((s, es)) ==> (cmd.kind is EndTurn && s@.phase is Active && s@.turn_count == state@.turn_count + 1
            ==> advance_events(content, state@, Seq::empty(), es@)),
        r matches Ok((s, _)) ==> (cmd.kind is EndTurn ==> state@.turn_count + 1 <= s@.turn_count <= state@.turn_count + 2
            && (s@.turn_count == state@.turn_count + 1 ==> s@.current == next_alive(state@))),
        r matches Ok((s, es)) ==> match (
            handled(content, state@, seat_by_id(state@, cmd.player@)->0, cmd.kind),
            handled_events(content, state@, seat_by_id(state@, cmd.player@)->0, cmd.kind),
        ) {
            (Some(h), Some(e)) => !passes_turn(h) && wins_settled(content, h) == h ==> es@ == e,
            _ => true,
        },
        r matches Ok((s, es)) ==> match handled(content, state@, seat_by_id(state@, cmd.player@)->0, cmd.kind) {
            Some(h) => !passes_turn(h) && wins_settled(content, h) == h ==> window_events(
                content,
                state@,
                seat_by_id(state@, cmd.player@)->0,
                cmd.kind,
                Seq::empty(),
                es@,
            ),
            None => true,
        },
        r matches Ok((s, es)) ==> (cmd.kind is Resign && s@.phase is Active && s@.turn_count == state@.turn_count ==> {
            let p = seat_by_id(state@, cmd.player@)->0;
            !(state@.turn is BlindAuction) ==> es@ == crate::apply::cash::bankrupt_events(
                state@,
                p,
                None,
                seq![Event::PlayerResigned { player: p as usize }],
            )
        }),
        r matches Ok((s, _)) ==> (cmd.kind is Resign ==> {
            let p = seat_by_id(state@, cmd.player@)->0;
            !(state@.turn is BlindAuction) && p != state@.current && !state@.players[state@.current as int].bankrupt
                ==> resigned(state@, s@, p)
        }),
{
    let mut exec = Exec { content, rent, bankruptcy, st: state.copy_of(), ev: Vec::new() };
    let player = match exec.gate(cmd) {
        Ok(p) => p,
        Err(e) => {
            return Err(e);
        },
    };
    proof {
        assert(cards_low(exec.st@)) by {
            assert forall|q: int| 0 <= q < exec.st@.players.len() implies (#[trigger] exec.st@.players[q]).jail_cards <= 204 by {
            }
        }
    }
    let handled = if matches!(
        cmd.kind,
        CommandKind::PlayMovementCard { .. } | CommandKind::SubmitBlindBid { .. } | CommandKind::ChooseLegalRoute { .. }
            | CommandKind::OfferBribe { .. } | CommandKind::VoteOnBribe { .. } | CommandKind::UseJailCard
            | CommandKind::EndTurn | CommandKind::Resign
    ) {
        exec.dispatch_turn(player, &cmd.kind)
    } else if matches!(
        cmd.kind,
        CommandKind::ProposeTrade { .. } | CommandKind::AcceptTrade { .. } | CommandKind::DeclineTrade { .. }
            | CommandKind::CancelTrade { .. }
    ) {
        exec.dispatch_trade(player, &cmd.kind)
    } else {
        exec.dispatch_estate(player, &cmd.kind)
    };
    if let Err(e) = handled {
        return Err(e);
    }
    let ghost h = exec.st@;
    exec.settle();
    proof {
        if let CommandKind::PlayMovementCard { value } = cmd.kind {
            crate::apply::movement::lemma_move_settled(content, rent, state@, h, exec.st@, player as int, value);
        }
        if let CommandKind::ChooseLegalRoute { order } = &cmd.kind {
            crate::apply::movement::lemma_move_settled(
                content,
                rent,
                crate::apply::jail::route_chosen(state@, player as int, order@),
                h,
                exec.st@,
                player as int,
                order@[0],
            );
        }
    }
    Ok((exec.st, exec.ev))
}

} // verus!
