//! Autopilot heuristics for playtesting and server-side bot seats: simple,
//! safe decisions over the public `ClientView`. Pure like the rest of the
//! engine: it reads a view and the content and returns a command, so the
//! server stays authoritative and a buggy bot can at worst have its
//! commands refused. Unpredictability comes from the caller's `noise` word,
//! which seeds a local generator for the bid jitter.
use vstd::prelude::*;

use crate::command::{CommandKind, CommandModel};
use crate::content::{GameContent, RentModel, TileKind, group_upto, in_group, is_property, prop_of};
use crate::rng;
use crate::state::{
    GamePhase, TileState, TradeOffer, TurnPhase, amount_limit, content_fits, descending_pick,
    full_hand, make_hand, max_houses, min_houses, tri, weighted_pick,
};
use crate::strategy::{count_owned, lemma_group_upto_in, scaled_index};
use crate::tuning::{MAX_RENT_BOOSTS, MORTGAGE_INTEREST_PCT, MORTGAGE_VALUE_PCT};
use crate::view::ClientView;

verus! {

/// Cash the bot refuses to dip under when bidding.
pub const RESERVE: i64 = 100;

/// Extra comfort required before sinking money into buildings.
pub const BUILD_RESERVE: i64 = 300;

/// Extra comfort required before redeeming mortgages.
pub const REDEEM_RESERVE: i64 = 500;

/// Minimum trade edge before the bot accepts an offer.
pub const TRADE_MARGIN: i64 = 25;

/// Sealed-bid jitter bounds, as percent of list price.
pub const BID_JITTER_MIN_PCT: u8 = 50;

pub const BID_JITTER_MAX_PCT: u8 = 200;

/// Landing-score weights for the movement-card choice.
pub const SCORE_GO_TO_JAIL: i64 = -1000;

pub const SCORE_BUYABLE_UNOWNED: i64 = 20;

pub const SCORE_OWN_TILE: i64 = 5;

pub const SCORE_NEUTRAL: i64 = 1;

/// Rival-tile penalty, percent of its price.
pub const RIVAL_TILE_PENALTY_PCT: i64 = 5;

/// Strategic premium on group-completing or completed tiles, percent of price.
pub const GROUP_PREMIUM_PCT: i64 = 50;

/// Baseline priority weight per tile, percent of price.
pub const PRIORITY_PRICE_PCT: i64 = 10;

/// Views the bot can read safely: a non-empty board the view matches,
/// buildings within the hotel level, owners that are seats, and amounts an
/// `i64` sum cannot overflow.
pub open spec fn bot_ready(c: &GameContent, v: &ClientView, me: int) -> bool {
    &&& content_fits(c)
    &&& c.board@.len() > 0
    &&& 0 <= me < v.players@.len()
    &&& v.tiles@.len() == c.board@.len()
    &&& forall|p: int| 0 <= p < v.players@.len() ==> -0x1000_0000_0000_0000 <= #[trigger] v.players@[p].cash <= 0x1000_0000_0000_0000
    &&& forall|t: int| 0 <= t < v.tiles@.len() ==> (#[trigger] v.tiles@[t]).houses <= 5 && match v.tiles@[t].owner {
        Some(o) => o < v.players@.len(),
        None => true,
    }
    &&& v.players@.len() <= i64::MAX
    &&& v.players@[me].position + 255 <= usize::MAX
    &&& match v.turn {
        TurnPhase::BlindAuction { bids, .. } => me < bids@.len(),
        TurnPhase::BribeVote { briber, votes, .. } => me != briber ==> me < votes@.len(),
        _ => true,
    }
    &&& forall|k: int| 0 <= k < v.pending_trades@.len() ==> {
        let t = #[trigger] v.pending_trades@[k];
        &&& -0x1000_0000_0000_0000 <= t.give_cash <= 0x1000_0000_0000_0000
        &&& -0x1000_0000_0000_0000 <= t.receive_cash <= 0x1000_0000_0000_0000
        &&& t.give_tiles@.len() <= 0x10_0000
        &&& t.receive_tiles@.len() <= 0x10_0000
    }
}

pub open spec fn glist(c: &GameContent, g: Seq<char>) -> Seq<usize> {
    group_upto(c, g, c.board@.len() as int)
}

pub open spec fn vcash(v: &ClientView, me: int) -> int {
    v.players@[me].cash as int
}

/// Every tile of the list is `me`'s.
pub open spec fn owns_all(v: &ClientView, list: Seq<usize>, me: int) -> bool {
    forall|k: int| 0 <= k < list.len() ==> v.tiles@[#[trigger] list[k] as int].owner == Some(me as usize)
}

/// Every tile of the list is `me`'s and unmortgaged.
pub open spec fn owns_all_clean(v: &ClientView, list: Seq<usize>, me: int) -> bool {
    forall|k: int| 0 <= k < list.len() ==> v.tiles@[#[trigger] list[k] as int].owner == Some(me as usize)
        && !v.tiles@[list[k] as int].mortgaged
}

/// Owning tile `t` would complete its group for `me`.
pub open spec fn completes(c: &GameContent, v: &ClientView, me: int, t: int) -> bool {
    is_property(c, t) && forall|k: int| 0 <= k < glist(c, prop_of(c, t).group@).len() ==> #[trigger] glist(
        c,
        prop_of(c, t).group@,
    )[k] == t || v.tiles@[glist(c, prop_of(c, t).group@)[k] as int].owner == Some(me as usize)
}

/// The rent the tile would charge now, ignoring boosts and events.
pub open spec fn base_rent(c: &GameContent, v: &ClientView, me: int, t: int) -> int {
    if !is_property(c, t) {
        0
    } else {
        let prop = prop_of(c, t);
        match prop.rent_model {
            RentModel::Houses => prop.rents@[v.tiles@[t].houses as int] as int,
            RentModel::GroupScaled => prop.rents@[scaled_index(count_owned(v.tiles@, glist(c, prop.group@), me))] as int,
        }
    }
}

/// How much the bot wants to invest in tile `t`.
pub open spec fn priority(c: &GameContent, v: &ClientView, me: int, t: int) -> int {
    if !is_property(c, t) {
        0
    } else {
        let prop = prop_of(c, t);
        base_rent(c, v, me, t) + (if owns_all(v, glist(c, prop.group@), me) {
            prop.price * GROUP_PREMIUM_PCT / 100
        } else {
            0
        }) + prop.price * PRIORITY_PRICE_PCT / 100
    }
}

/// What tile `t` is worth to `me` in a trade: its equity plus a premium
/// when it completes a group.
pub open spec fn net_value(c: &GameContent, v: &ClientView, me: int, t: int) -> int {
    if !is_property(c, t) {
        0
    } else {
        let prop = prop_of(c, t);
        (if v.tiles@[t].mortgaged {
            prop.price * MORTGAGE_VALUE_PCT / 100
        } else {
            prop.price as int
        }) + v.tiles@[t].houses * prop.house_cost + if completes(c, v, me, t) {
            prop.price * GROUP_PREMIUM_PCT / 100
        } else {
            0
        }
    }
}

pub open spec fn tiles_value(c: &GameContent, v: &ClientView, me: int, list: Seq<usize>) -> int
    decreases list.len(),
{
    if list.len() == 0 {
        0
    } else {
        tiles_value(c, v, me, list.drop_last()) + net_value(c, v, me, list.last() as int)
    }
}

/// The redemption cost of a mortgage on a property of price `price`.
pub open spec fn redeem(price: int) -> int {
    price * MORTGAGE_VALUE_PCT / 100 + (price * MORTGAGE_VALUE_PCT / 100) * MORTGAGE_INTEREST_PCT / 100
}

/// A command the bot may answer with, as a mathematical value.
pub open spec fn answer(r: Option<CommandKind>) -> Option<CommandModel> {
    match r {
        Some(cmd) => Some(cmd@),
        None => None,
    }
}

/// Index of the first of the first `n` pending offers addressed to `me`;
/// -1 when there is none.
pub open spec fn offer_upto(v: &ClientView, me: int, n: int) -> int
    decreases n,
{
    if n <= 0 {
        -1
    } else {
        let r = offer_upto(v, me, n - 1);
        if r >= 0 {
            r
        } else if v.pending_trades@[n - 1].to == me {
            n - 1
        } else {
            -1
        }
    }
}

/// `me` holds `cash` and every tile of `tiles`.
pub open spec fn can_pay(v: &ClientView, me: int, cash: i64, tiles: Seq<usize>) -> bool {
    &&& vcash(v, me) >= cash
    &&& forall|k: int| 0 <= k < tiles.len() ==> #[trigger] tiles[k] < v.tiles@.len()
        && v.tiles@[tiles[k] as int].owner == Some(me as usize)
}

/// The answer to an offer: declined when `me` could not pay its side,
/// accepted when what comes in beats what goes out by the trade margin.
pub open spec fn trade_reply(c: &GameContent, v: &ClientView, me: int, t: TradeOffer) -> CommandModel {
    if !can_pay(v, me, t.receive_cash, t.receive_tiles@) {
        CommandModel::DeclineTrade { trade: t.id }
    } else if t.give_cash + tiles_value(c, v, me, t.give_tiles@) >= t.receive_cash + tiles_value(
        c,
        v,
        me,
        t.receive_tiles@,
    ) + TRADE_MARGIN {
        CommandModel::AcceptTrade { trade: t.id }
    } else {
        CommandModel::DeclineTrade { trade: t.id }
    }
}

/// The jittered bid percent drawn from `noise`: `50..=200`, percent `p`
/// weighing `201 - p`, so high bids are rare.
pub open spec fn jitter_pct(noise: u64) -> int {
    weighted_pick(
        BID_JITTER_MIN_PCT as int,
        BID_JITTER_MAX_PCT as int,
        (rng::draw(noise) % (tri(BID_JITTER_MAX_PCT - BID_JITTER_MIN_PCT + 1) as u64)) as int,
    )
}

pub open spec fn min_int(a: int, b: int) -> int {
    if a < b {
        a
    } else {
        b
    }
}

/// The sealed bid on property `tile`: never under list price. The
/// discoverer bids when it can pay list price, up to its cash; another
/// seat bids when it can keep the reserve, up to cash minus the reserve;
/// otherwise 0 (abstain).
pub open spec fn bid_amount(c: &GameContent, v: &ClientView, me: int, noise: u64, tile: int) -> int {
    let price = prop_of(c, tile).price as int;
    let roll = price * jitter_pct(noise) / 100;
    let high = if roll > price {
        roll
    } else {
        price
    };
    if v.current == me {
        if vcash(v, me) - price >= 0 {
            min_int(high, vcash(v, me))
        } else {
            0
        }
    } else {
        let bid = min_int(high, vcash(v, me) - RESERVE);
        if bid >= price {
            bid
        } else {
            0
        }
    }
}

pub open spec fn bid_reply(
    c: &GameContent,
    v: &ClientView,
    me: int,
    noise: u64,
    tile: int,
    bids: Seq<Option<i64>>,
) -> Option<CommandModel> {
    if bids[me] is Some || !is_property(c, tile) {
        None
    } else {
        Some(CommandModel::SubmitBlindBid { amount: bid_amount(c, v, me, noise, tile) as i64 })
    }
}

/// Seats below `n` other than the briber still in the game.
pub open spec fn opponents_upto(v: &ClientView, briber: int, n: int) -> int
    decreases n,
{
    if n <= 0 {
        0
    } else {
        opponents_upto(v, briber, n - 1) + if n - 1 != briber && !v.players@[n - 1].bankrupt {
            1int
        } else {
            0int
        }
    }
}

/// The vote on an open bribe: accept when the per-opponent share is at
/// least half the reserve; silence for the briber or a seat that voted.
pub open spec fn vote_reply(v: &ClientView, me: int, briber: int, amount: i64, votes: Seq<Option<bool>>) -> Option<
    CommandModel,
> {
    if me == briber || votes[me] is Some {
        None
    } else {
        let n = opponents_upto(v, briber, v.players@.len() as int);
        let share = (amount as int) / (if n < 1 {
            1int
        } else {
            n
        });
        Some(CommandModel::VoteOnBribe { accept: share >= RESERVE / 2 })
    }
}

/// Jail triage: the card if held, a bribe of twice the reserve when that
/// leaves twice the reserve, else the ascending Legal Route over the full
/// hand.
pub open spec fn jail_reply(c: &GameContent, v: &ClientView, me: int) -> CommandModel {
    if v.players@[me].jail_cards > 0 {
        CommandModel::UseJailCard
    } else if vcash(v, me) - 2 * RESERVE >= 2 * RESERVE {
        CommandModel::OfferBribe { amount: (2 * RESERVE) as i64 }
    } else {
        CommandModel::ChooseLegalRoute { order: full_hand(c.rules.velocity_min, c.rules.velocity_max) }
    }
}

/// How attractive it is to land `value` tiles ahead of `from`.
pub open spec fn landing_score(c: &GameContent, v: &ClientView, me: int, from: int, value: u8) -> int {
    let to = (from + value) % (c.board@.len() as int);
    match c.board@[to].kind {
        TileKind::GoToJail => SCORE_GO_TO_JAIL as int,
        TileKind::Property(prop) => match v.tiles@[to].owner {
            None => if vcash(v, me) - prop.price >= RESERVE {
                SCORE_BUYABLE_UNOWNED as int
            } else {
                0
            },
            Some(o) => if o == me {
                SCORE_OWN_TILE as int
            } else {
                -(prop.price * RIVAL_TILE_PENALTY_PCT / 100)
            },
        },
        _ => SCORE_NEUTRAL as int,
    }
}

/// Card `a` is at least as good as card `b`: a higher landing score, or
/// the same score and a value no larger.
pub open spec fn card_at_least(c: &GameContent, v: &ClientView, me: int, from: int, a: u8, b: u8) -> bool {
    landing_score(c, v, me, from, a) > landing_score(c, v, me, from, b) || (landing_score(
        c,
        v,
        me,
        from,
        a,
    ) == landing_score(c, v, me, from, b) && a <= b)
}

/// The best card of the first `n` of `hand`: the highest landing score,
/// ties to the lowest value; `None` for an empty prefix.
pub open spec fn card_upto(c: &GameContent, v: &ClientView, me: int, from: int, hand: Seq<u8>, n: int) -> Option<u8>
    decreases n,
{
    if n <= 0 {
        None
    } else {
        match card_upto(c, v, me, from, hand, n - 1) {
            None => Some(hand[n - 1]),
            Some(b) => if card_at_least(c, v, me, from, hand[n - 1], b) {
                Some(hand[n - 1])
            } else {
                Some(b)
            },
        }
    }
}

/// The card the bot plays from its hand on a plain move.
pub open spec fn card_choice(c: &GameContent, v: &ClientView, me: int) -> Option<u8> {
    let p = v.players@[me];
    card_upto(c, v, me, p.position as int, p.hand@, p.hand@.len() as int)
}

/// The last index below `n` that passes `ok` with the greatest `key` (the
/// last of equals); -1 when none passes.
pub open spec fn last_best(n: int, ok: spec_fn(int) -> bool, key: spec_fn(int) -> int) -> int
    decreases n,
{
    if n <= 0 {
        -1
    } else {
        let r = last_best(n - 1, ok, key);
        if ok(n - 1) && (r < 0 || key(n - 1) >= key(r)) {
            n - 1
        } else {
            r
        }
    }
}

/// Tile `i` is a property that `me` owns.
pub open spec fn owned_prop(c: &GameContent, v: &ClientView, me: int, i: int) -> bool {
    is_property(c, i) && v.tiles@[i].owner == Some(me as usize)
}

pub open spec fn group_of(c: &GameContent, i: int) -> Seq<usize> {
    glist(c, prop_of(c, i).group@)
}

/// A house can be sold off tile `i` for cash: it stands at its group's
/// highest level.
pub open spec fn sell_test(c: &GameContent, v: &ClientView, me: int) -> spec_fn(int) -> bool {
    |i: int|
        owned_prop(c, v, me, i) && v.tiles@[i].houses > 0 && v.tiles@[i].houses == max_houses(
            v.tiles@,
            group_of(c, i),
        )
}

/// Tile `i` can be mortgaged: unmortgaged, and its group has no houses.
pub open spec fn mortgage_test(c: &GameContent, v: &ClientView, me: int) -> spec_fn(int) -> bool {
    |i: int|
        owned_prop(c, v, me, i) && !v.tiles@[i].mortgaged && max_houses(v.tiles@, group_of(c, i)) == 0
}

/// Tile `i` is mortgaged and redeeming it leaves the redeem reserve.
pub open spec fn redeem_test(c: &GameContent, v: &ClientView, me: int) -> spec_fn(int) -> bool {
    |i: int|
        owned_prop(c, v, me, i) && v.tiles@[i].mortgaged && vcash(v, me) - redeem(prop_of(c, i).price as int)
            >= REDEEM_RESERVE
}

/// A house can be built on tile `i`: house rent, under the level cap,
/// affordable above the build reserve, a full unmortgaged group, and the
/// group's lowest level.
pub open spec fn build_test(c: &GameContent, v: &ClientView, me: int) -> spec_fn(int) -> bool {
    |i: int|
        owned_prop(c, v, me, i) && prop_of(c, i).rent_model is Houses && v.tiles@[i].houses < min_int(
            c.rules.max_houses_per_property as int,
            5,
        ) && vcash(v, me) - prop_of(c, i).house_cost >= BUILD_RESERVE && owns_all_clean(
            v,
            group_of(c, i),
            me,
        ) && v.tiles@[i].houses == min_houses(v.tiles@, group_of(c, i))
}

/// The rent of tile `i` can be boosted: unmortgaged, under the boost cap,
/// affordable above the build reserve, and charging some rent.
pub open spec fn boost_test(c: &GameContent, v: &ClientView, me: int) -> spec_fn(int) -> bool {
    |i: int|
        owned_prop(c, v, me, i) && !v.tiles@[i].mortgaged && v.tiles@[i].boosts < MAX_RENT_BOOSTS && vcash(v, me)
            - prop_of(c, i).price * c.rules.rent_boost / 100 >= BUILD_RESERVE && base_rent(c, v, me, i) > 0
}

pub open spec fn houses_key(v: &ClientView) -> spec_fn(int) -> int {
    |i: int| v.tiles@[i].houses as int
}

pub open spec fn price_key(c: &GameContent) -> spec_fn(int) -> int {
    |i: int| prop_of(c, i).price as int
}

pub open spec fn priority_key(c: &GameContent, v: &ClientView, me: int) -> spec_fn(int) -> int {
    |i: int| priority(c, v, me, i)
}

/// Seizing the tile just landed on is allowed, affordable above the build
/// reserve, and completes a group: a rival's unmortgaged property.
pub open spec fn expropriate_ok(c: &GameContent, v: &ClientView, me: int) -> bool {
    let i = v.players@[me].position as int;
    &&& c.rules.expropriation > 0
    &&& v.turn is AwaitEnd
    &&& is_property(c, i)
    &&& v.tiles@[i].owner matches Some(o) && o != me && !v.players@[o as int].bankrupt
    &&& !v.tiles@[i].mortgaged
    &&& vcash(v, me) - prop_of(c, i).price * c.rules.expropriation / 100 >= BUILD_RESERVE
    &&& completes(c, v, me, i)
}

/// Housekeeping on the bot's own move, in order: raise cash when under the
/// reserve (sell the fullest level, else mortgage the dearest tile),
/// redeem, build, seize the landing tile, boost rent; the best candidate
/// of each by priority, the last of equals.
pub open spec fn asset_reply(c: &GameContent, v: &ClientView, me: int) -> Option<CommandModel> {
    let n = c.board@.len() as int;
    let sell = last_best(n, sell_test(c, v, me), houses_key(v));
    let mortgage = last_best(n, mortgage_test(c, v, me), price_key(c));
    let unmortgage = last_best(n, redeem_test(c, v, me), priority_key(c, v, me));
    let build = last_best(n, build_test(c, v, me), priority_key(c, v, me));
    let boost = last_best(n, boost_test(c, v, me), priority_key(c, v, me));
    let low = vcash(v, me) < RESERVE;
    if low && sell >= 0 {
        Some(CommandModel::SellHouse { tile: c.board@[sell].id@ })
    } else if low && mortgage >= 0 {
        Some(CommandModel::Mortgage { tile: c.board@[mortgage].id@ })
    } else if unmortgage >= 0 {
        Some(CommandModel::Unmortgage { tile: c.board@[unmortgage].id@ })
    } else if build >= 0 {
        Some(CommandModel::Build { tile: c.board@[build].id@ })
    } else if expropriate_ok(c, v, me) {
        Some(CommandModel::Expropriate { tile: c.board@[v.players@[me].position as int].id@ })
    } else if c.rules.rent_boost > 0 && boost >= 0 {
        Some(CommandModel::BoostRent { tile: c.board@[boost].id@ })
    } else {
        None
    }
}

pub open spec fn index_of(r: Option<usize>) -> int {
    match r {
        Some(i) => i as int,
        None => -1,
    }
}

proof fn lemma_last_best_range(n: int, ok: spec_fn(int) -> bool, key: spec_fn(int) -> int)
    requires
        0 <= n,
    ensures
        -1 <= last_best(n, ok, key) < n,
        last_best(n, ok, key) >= 0 ==> ok(last_best(n, ok, key)),
    decreases n,
{
    if n > 0 {
        lemma_last_best_range(n - 1, ok, key);
    }
}

/// The last best candidate below `n` has a key no smaller than any other
/// candidate's; no candidate means none passes the test.
proof fn lemma_last_best_max(n: int, ok: spec_fn(int) -> bool, key: spec_fn(int) -> int)
    requires
        0 <= n,
    ensures
        last_best(n, ok, key) >= 0 ==> forall|u: int| 0 <= u < n && #[trigger] ok(u) ==> key(u) <= key(last_best(n, ok, key)),
        last_best(n, ok, key) < 0 ==> forall|u: int| 0 <= u < n ==> !#[trigger] ok(u),
    decreases n,
{
    if n > 0 {
        lemma_last_best_max(n - 1, ok, key);
        lemma_last_best_range(n - 1, ok, key);
    }
}

/// Law: when the bot raises cash by mortgaging, the tile it names is one it
/// may mortgage (its own, unmortgaged, in a group without houses) and no
/// tile it may mortgage has a higher price.
pub proof fn law_bot_mortgages_dearest(c: &GameContent, v: &ClientView, me: int, noise: u64)
    requires
        bot_ready(c, v, me),
    ensures
        decision(c, v, me, noise) matches Some(CommandModel::Mortgage { tile }) ==> exists|i: int|
            0 <= i < c.board@.len() && c.board@[i].id@ == tile && #[trigger] mortgage_test(c, v, me)(i) && forall|u: int|
                0 <= u < c.board@.len() && #[trigger] mortgage_test(c, v, me)(u) ==> prop_of(c, u).price <= prop_of(c, i).price,
{
    let n = c.board@.len() as int;
    let ok = mortgage_test(c, v, me);
    let key = price_key(c);
    lemma_last_best_range(n, ok, key);
    lemma_last_best_max(n, ok, key);
    let i = last_best(n, ok, key);
    if i >= 0 {
        assert forall|u: int| 0 <= u < n && #[trigger] ok(u) implies prop_of(c, u).price <= prop_of(c, i).price by {
            assert(key(u) <= key(i));
        }
    }
}

/// Law: the bot votes once on a bribe that is not its own, accepting
/// exactly when the amount split over the briber's opponents gives it at
/// least half the reserve; jailed, it uses a jail card when it holds one,
/// else offers twice the reserve when that leaves it twice the reserve,
/// else walks the Legal Route over its full hand.
pub proof fn law_bot_jail_and_vote(c: &GameContent, v: &ClientView, me: int, briber: int, amount: i64, votes: Seq<Option<bool>>)
    ensures
        me == briber || votes[me] is Some ==> vote_reply(v, me, briber, amount, votes) is None,
        me != briber && votes[me] is None ==> ({
            let n = opponents_upto(v, briber, v.players@.len() as int);
            let share = (amount as int) / (if n < 1 { 1int } else { n });
            vote_reply(v, me, briber, amount, votes) == Some(CommandModel::VoteOnBribe { accept: share >= RESERVE / 2 })
        }),
        v.players@[me].jail_cards > 0 ==> jail_reply(c, v, me) == CommandModel::UseJailCard,
        v.players@[me].jail_cards == 0 && vcash(v, me) >= 4 * RESERVE ==> jail_reply(c, v, me)
            == (CommandModel::OfferBribe { amount: (2 * RESERVE) as i64 }),
        v.players@[me].jail_cards == 0 && vcash(v, me) < 4 * RESERVE ==> jail_reply(c, v, me)
            == (CommandModel::ChooseLegalRoute { order: full_hand(c.rules.velocity_min, c.rules.velocity_max) }),
{
}

/// The bot's move when it is its turn to play a card: a jail exit when
/// jailed, the route's front card while serving one, else housekeeping,
/// else the best card.
pub open spec fn move_reply(c: &GameContent, v: &ClientView, me: int) -> Option<CommandModel> {
    let p = v.players@[me];
    if p.in_jail {
        Some(jail_reply(c, v, me))
    } else if p.jail_route is Some && p.jail_route->0@.len() > 0 {
        Some(CommandModel::PlayMovementCard { value: p.jail_route->0@[0] })
    } else if asset_reply(c, v, me) is Some {
        asset_reply(c, v, me)
    } else {
        match card_choice(c, v, me) {
            Some(value) => Some(CommandModel::PlayMovementCard { value }),
            None => None,
        }
    }
}

/// What the bot does now: nothing once the game is over or it is bankrupt;
/// otherwise it answers the first offer addressed to it, then bids, votes,
/// or, on its own turn, moves or does its housekeeping before ending the
/// turn.
pub open spec fn decision(c: &GameContent, v: &ClientView, me: int, noise: u64) -> Option<CommandModel> {
    let k = offer_upto(v, me, v.pending_trades@.len() as int);
    if v.phase is Finished || v.players@[me].bankrupt {
        None
    } else if k >= 0 {
        Some(trade_reply(c, v, me, v.pending_trades@[k]))
    } else {
        match v.turn {
            TurnPhase::BlindAuction { tile, bids } => bid_reply(c, v, me, noise, tile as int, bids@),
            TurnPhase::BribeVote { briber, amount, votes } => vote_reply(v, me, briber as int, amount, votes@),
            TurnPhase::AwaitMove => if v.current != me {
                None
            } else {
                move_reply(c, v, me)
            },
            TurnPhase::AwaitEnd => if v.current != me {
                None
            } else if asset_reply(c, v, me) is Some {
                asset_reply(c, v, me)
            } else {
                Some(CommandModel::EndTurn)
            },
        }
    }
}

/// The movement card a seat would play on a plain move of its own turn;
/// `None` off its turn, outside the move phase, jailed or on a route.
pub open spec fn movement_choice(c: &GameContent, v: &ClientView, seat: int) -> Option<u8> {
    if v.current != seat || !(v.turn is AwaitMove) {
        None
    } else if v.players@[seat].in_jail || v.players@[seat].jail_route is Some {
        None
    } else {
        card_choice(c, v, seat)
    }
}

/// Law: a sealed bid is an abstention (0) or at least list price, and
/// never more than the seat can pay: its cash for the discoverer, its cash
/// less the reserve for any other seat.
#[verifier::spinoff_prover]
#[verifier::rlimit(40)]
pub proof fn law_bid_bounds(c: &GameContent, v: &ClientView, me: int, noise: u64, tile: int)
    requires
        bot_ready(c, v, me),
        is_property(c, tile),
    ensures
        ({
            let a = bid_amount(c, v, me, noise, tile);
            let cap = if v.current == me { vcash(v, me) } else { vcash(v, me) - RESERVE };
            a == 0 || (prop_of(c, tile).price <= a <= cap)
        }),
{
}

proof fn lemma_offer_stays(v: &ClientView, me: int, n: int, m: int)
    requires
        offer_upto(v, me, n) >= 0,
        n <= m,
    ensures
        offer_upto(v, me, m) == offer_upto(v, me, n),
    decreases m - n,
{
    if n < m {
        lemma_offer_stays(v, me, n, m - 1);
    }
}

proof fn lemma_opponents_bound(v: &ClientView, briber: int, n: int)
    requires
        0 <= n,
    ensures
        0 <= opponents_upto(v, briber, n) <= n,
    decreases n,
{
    if n > 0 {
        lemma_opponents_bound(v, briber, n - 1);
    }
}

proof fn lemma_tiles_value_bound(c: &GameContent, v: &ClientView, me: int, list: Seq<usize>)
    requires
        content_fits(c),
        v.tiles@.len() == c.board@.len(),
        forall|t: int| 0 <= t < v.tiles@.len() ==> (#[trigger] v.tiles@[t]).houses <= 5,
    ensures
        0 <= tiles_value(c, v, me, list) <= 10_000_000_000 * list.len(),
    decreases list.len(),
{
    if list.len() > 0 {
        lemma_tiles_value_bound(c, v, me, list.drop_last());
        let t = list.last() as int;
        if is_property(c, t) {
            assert(crate::state::tile_fits(c.board@[t]));
            let prop = prop_of(c, t);
            assert(v.tiles@[t].houses * prop.house_cost <= 5 * 1_000_000_000) by (nonlinear_arith)
                requires
                    v.tiles@[t].houses <= 5,
                    0 <= prop.house_cost <= 1_000_000_000,
            ;
            assert(v.tiles@[t].houses * prop.house_cost >= 0) by (nonlinear_arith)
                requires
                    0 <= prop.house_cost,
            ;
        }
    }
}

/// What the bot wants to do right now, if anything: the same inputs give
/// the same answer, and it answers `None` whenever it is not this seat's
/// move.
pub fn decide(content: &GameContent, view: &ClientView, me: usize, noise: u64) -> (r: Option<CommandKind>)
    requires
        bot_ready(content, view, me as int),
    ensures
        answer(r) == decision(content, view, me as int, noise),
{
    if matches!(view.phase, GamePhase::Finished { .. }) || view.players[me].bankrupt {
        return None;
    }
    let bot = Bot { content, view, me, noise };
    let reply = bot.trade_response();
    if reply.is_some() {
        return reply;
    }
    match &view.turn {
        TurnPhase::BlindAuction { tile, bids } => bot.blind_bid_action(*tile, bids),
        TurnPhase::BribeVote { briber, amount, votes } => bot.bribe_vote_action(*briber, *amount, votes),
        TurnPhase::AwaitMove => {
            if view.current != me {
                return None;
            }
            let player = &view.players[me];
            if player.in_jail {
                return Some(bot.jail_action());
            }
            if let Some(route) = &player.jail_route {
                if route.len() > 0 {
                    return Some(CommandKind::PlayMovementCard { value: route[0] });
                }
            }
            let housekeeping = bot.asset_action();
            if housekeeping.is_some() {
                return housekeeping;
            }
            match bot.choose_movement_card() {
                Some(value) => Some(CommandKind::PlayMovementCard { value }),
                None => None,
            }
        },
        TurnPhase::AwaitEnd => {
            if view.current != me {
                return None;
            }
            let housekeeping = bot.asset_action();
            if housekeeping.is_some() {
                return housekeeping;
            }
            Some(CommandKind::EndTurn)
        },
    }
}

/// Just the movement-card choice for `seat`, or `None` when it is not a
/// plain move (jailed, mid-route, or not this seat's turn to move). Never
/// spends money on the seat's behalf.
pub fn movement_card(content: &GameContent, view: &ClientView, seat: usize) -> (r: Option<u8>)
    requires
        view.current == seat && view.turn is AwaitMove ==> bot_ready(content, view, seat as int),
    ensures
        r == movement_choice(content, view, seat as int),
{
    if view.current != seat || !matches!(view.turn, TurnPhase::AwaitMove) {
        return None;
    }
    let player = &view.players[seat];
    if player.in_jail || player.jail_route.is_some() {
        return None;
    }
    let bot = Bot { content, view, me: seat, noise: 0 };
    bot.choose_movement_card()
}

/// Whether the bot can read this view: exactly the condition `decide`
/// needs, tested.
pub fn readable(content: &GameContent, view: &ClientView, me: usize) -> (r: bool)
    ensures
        r == bot_ready(content, view, me as int),
{
    if !content.fits() || content.board.len() == 0 || me >= view.players.len()
        || view.tiles.len() != content.board.len() {
        return false;
    }
    if view.players.len() as u64 > 0x7FFF_FFFF_FFFF_FFFF || view.players[me].position > usize::MAX - 255 {
        return false;
    }
    let turn_ok = match &view.turn {
        TurnPhase::BlindAuction { bids, .. } => me < bids.len(),
        TurnPhase::BribeVote { briber, votes, .. } => me == *briber || me < votes.len(),
        _ => true,
    };
    if !turn_ok {
        return false;
    }
    let mut p: usize = 0;
    while p < view.players.len()
        invariant
            p <= view.players@.len(),
            forall|q: int| 0 <= q < p ==> -0x1000_0000_0000_0000 <= #[trigger] view.players@[q].cash <= 0x1000_0000_0000_0000,
        decreases view.players@.len() - p,
    {
        let cash = view.players[p].cash;
        if cash < -0x1000_0000_0000_0000 || cash > 0x1000_0000_0000_0000 {
            return false;
        }
        p = p + 1;
    }
    let mut t: usize = 0;
    while t < view.tiles.len()
        invariant
            t <= view.tiles@.len(),
            forall|j: int| 0 <= j < t ==> (#[trigger] view.tiles@[j]).houses <= 5 && match view.tiles@[j].owner {
                Some(o) => o < view.players@.len(),
                None => true,
            },
        decreases view.tiles@.len() - t,
    {
        let ts = view.tiles[t];
        if ts.houses > 5 {
            return false;
        }
        match ts.owner {
            Some(o) => if o >= view.players.len() {
                return false;
            },
            None => {},
        }
        t = t + 1;
    }
    let mut k: usize = 0;
    while k < view.pending_trades.len()
        invariant
            k <= view.pending_trades@.len(),
            forall|j: int| 0 <= j < k ==> {
                let tr = #[trigger] view.pending_trades@[j];
                &&& -0x1000_0000_0000_0000 <= tr.give_cash <= 0x1000_0000_0000_0000
                &&& -0x1000_0000_0000_0000 <= tr.receive_cash <= 0x1000_0000_0000_0000
                &&& tr.give_tiles@.len() <= 0x10_0000
                &&& tr.receive_tiles@.len() <= 0x10_0000
            },
        decreases view.pending_trades@.len() - k,
    {
        let tr = &view.pending_trades[k];
        if tr.give_cash < -0x1000_0000_0000_0000 || tr.give_cash > 0x1000_0000_0000_0000
            || tr.receive_cash < -0x1000_0000_0000_0000 || tr.receive_cash > 0x1000_0000_0000_0000
            || tr.give_tiles.len() > 0x10_0000 || tr.receive_tiles.len() > 0x10_0000 {
            return false;
        }
        k = k + 1;
    }
    true
}

/// The board scans of the housekeeping step.
enum Scan {
    Sell,
    Mortgage,
    Redeem,
    Build,
    Boost,
}

spec fn scan_test(c: &GameContent, v: &ClientView, me: int, kind: Scan) -> spec_fn(int) -> bool {
    match kind {
        Scan::Sell => sell_test(c, v, me),
        Scan::Mortgage => mortgage_test(c, v, me),
        Scan::Redeem => redeem_test(c, v, me),
        Scan::Build => build_test(c, v, me),
        Scan::Boost => boost_test(c, v, me),
    }
}

spec fn scan_key(c: &GameContent, v: &ClientView, me: int, kind: Scan) -> spec_fn(int) -> int {
    match kind {
        Scan::Sell => houses_key(v),
        Scan::Mortgage => price_key(c),
        _ => priority_key(c, v, me),
    }
}

/// What lifting a mortgage on a property of price `price` costs: the
/// mortgage value plus interest.
fn mortgage_redeem_cost(price: i64) -> (r: i64)
    requires
        0 <= price <= amount_limit(),
    ensures
        r == redeem(price as int),
{
    let principal = price * MORTGAGE_VALUE_PCT / 100;
    principal + principal * MORTGAGE_INTEREST_PCT / 100
}

struct Bot<'a> {
    content: &'a GameContent,
    view: &'a ClientView,
    me: usize,
    /// Caller-provided randomness for the bid jitter.
    noise: u64,
}

impl<'a> Bot<'a> {
    spec fn ready(&self) -> bool {
        bot_ready(self.content, self.view, self.me as int)
    }

    fn cash(&self) -> (r: i64)
        requires
            self.ready(),
        ensures
            r == vcash(self.view, self.me as int),
    {
        self.view.players[self.me].cash
    }

    /// Whether every tile of `group` is `me`'s (also when `clean`,
    /// unmortgaged).
    fn owns_group(&self, group: &str, clean: bool) -> (r: bool)
        requires
            self.ready(),
        ensures
            clean ==> r == owns_all_clean(self.view, glist(self.content, group@), self.me as int),
            !clean ==> r == owns_all(self.view, glist(self.content, group@), self.me as int),
    {
        let list = self.content.group_tiles(group);
        let mut k: usize = 0;
        while k < list.len()
            invariant
                self.ready(),
                list@ == glist(self.content, group@),
                k <= list@.len(),
                forall|j: int| 0 <= j < list@.len() ==> (#[trigger] list@[j]) < self.content.board@.len(),
                forall|j: int| 0 <= j < k ==> self.view.tiles@[#[trigger] list@[j] as int].owner == Some(self.me)
                    && (clean ==> !self.view.tiles@[list@[j] as int].mortgaged),
            decreases list@.len() - k,
        {
            let t = self.view.tiles[list[k]];
            if t.owner != Some(self.me) || (clean && t.mortgaged) {
                return false;
            }
            k = k + 1;
        }
        true
    }

    /// Whether owning `tile` would complete its group for `me`.
    fn completes_group(&self, tile: usize) -> (r: bool)
        requires
            self.ready(),
        ensures
            r == completes(self.content, self.view, self.me as int, tile as int),
    {
        let prop = match self.content.property(tile) {
            Some(p) => p,
            None => {
                return false;
            },
        };
        let list = self.content.group_tiles(prop.group.as_str());
        let mut k: usize = 0;
        while k < list.len()
            invariant
                self.ready(),
                list@ == glist(self.content, prop_of(self.content, tile as int).group@),
                is_property(self.content, tile as int),
                k <= list@.len(),
                forall|j: int| 0 <= j < list@.len() ==> (#[trigger] list@[j]) < self.content.board@.len(),
                forall|j: int| 0 <= j < k ==> #[trigger] list@[j] == tile || self.view.tiles@[list@[j] as int].owner
                    == Some(self.me),
            decreases list@.len() - k,
        {
            let t = list[k];
            if t != tile && self.view.tiles[t].owner != Some(self.me) {
                return false;
            }
            k = k + 1;
        }
        true
    }

    /// The rent the tile would charge now, ignoring boosts and events.
    fn tile_base_rent(&self, tile: usize) -> (r: i64)
        requires
            self.ready(),
        ensures
            r == base_rent(self.content, self.view, self.me as int, tile as int),
            0 <= r <= amount_limit(),
    {
        let prop = match self.content.property(tile) {
            Some(p) => p,
            None => {
                return 0;
            },
        };
        proof {
            assert(crate::state::tile_fits(self.content.board@[tile as int]));
        }
        match prop.rent_model {
            RentModel::Houses => prop.rents[self.view.tiles[tile].houses as usize],
            RentModel::GroupScaled => {
                let owned = crate::strategy::group_owned_count(self.content, &self.view.tiles, prop.group.as_str(), self.me);
                let idx: usize = if owned == 0 { 0 } else if owned - 1 > 5 { 5 } else { owned - 1 };
                prop.rents[idx]
            },
        }
    }

    /// How much the bot wants to invest in `tile`.
    fn tile_priority(&self, tile: usize) -> (r: i64)
        requires
            self.ready(),
        ensures
            r == priority(self.content, self.view, self.me as int, tile as int),
            0 <= r <= 2 * amount_limit(),
    {
        let prop = match self.content.property(tile) {
            Some(p) => p,
            None => {
                return 0;
            },
        };
        proof {
            assert(crate::state::tile_fits(self.content.board@[tile as int]));
        }
        let group_bonus = if self.owns_group(prop.group.as_str(), false) {
            prop.price * GROUP_PREMIUM_PCT / 100
        } else {
            0
        };
        self.tile_base_rent(tile) + group_bonus + prop.price * PRIORITY_PRICE_PCT / 100
    }

    /// What `tile` is worth to `me` in a trade.
    fn tile_net_value(&self, tile: usize) -> (r: i64)
        requires
            self.ready(),
        ensures
            r == net_value(self.content, self.view, self.me as int, tile as int),
    {
        let prop = match self.content.property(tile) {
            Some(p) => p,
            None => {
                return 0;
            },
        };
        let t = self.view.tiles[tile];
        proof {
            assert(crate::state::tile_fits(self.content.board@[tile as int]));
            assert(t.houses * prop.house_cost <= 5 * 1_000_000_000) by (nonlinear_arith)
                requires
                    t.houses <= 5,
                    0 <= prop.house_cost <= 1_000_000_000,
            ;
            assert(t.houses * prop.house_cost >= 0) by (nonlinear_arith)
                requires
                    0 <= prop.house_cost,
            ;
        }
        let mortgage_value = if t.mortgaged {
            prop.price * MORTGAGE_VALUE_PCT / 100
        } else {
            prop.price
        };
        let improvement_value = (t.houses as i64) * prop.house_cost;
        let strategic = if self.completes_group(tile) {
            prop.price * GROUP_PREMIUM_PCT / 100
        } else {
            0
        };
        mortgage_value + improvement_value + strategic
    }

    /// The summed trade worth of `tiles`.
    fn tiles_worth(&self, tiles: &Vec<usize>) -> (r: i64)
        requires
            self.ready(),
            tiles@.len() <= 0x10_0000,
        ensures
            r == tiles_value(self.content, self.view, self.me as int, tiles@),
    {
        let mut sum: i64 = 0;
        let mut k: usize = 0;
        while k < tiles.len()
            invariant
                self.ready(),
                tiles@.len() <= 0x10_0000,
                k <= tiles@.len(),
                sum == tiles_value(self.content, self.view, self.me as int, tiles@.subrange(0, k as int)),
            decreases tiles@.len() - k,
        {
            proof {
                assert(tiles@.subrange(0, k + 1).drop_last() =~= tiles@.subrange(0, k as int));
                lemma_tiles_value_bound(self.content, self.view, self.me as int, tiles@.subrange(0, k + 1));
                assert(10_000_000_000 * (k + 1) <= 10_000_000_000 * 0x10_0000) by (nonlinear_arith)
                    requires
                        k + 1 <= 0x10_0000,
                ;
            }
            sum = sum + self.tile_net_value(tiles[k]);
            k = k + 1;
        }
        assert(tiles@.subrange(0, tiles@.len() as int) =~= tiles@);
        sum
    }
    /// Whether `me` holds `cash` and every tile of `tiles`.
    fn can_fulfill_trade_payment(&self, cash: i64, tiles: &Vec<usize>) -> (r: bool)
        requires
            self.ready(),
        ensures
            r == can_pay(self.view, self.me as int, cash, tiles@),
    {
        if self.cash() < cash {
            return false;
        }
        let mut k: usize = 0;
        while k < tiles.len()
            invariant
                self.ready(),
                k <= tiles@.len(),
                forall|j: int| 0 <= j < k ==> #[trigger] tiles@[j] < self.view.tiles@.len()
                    && self.view.tiles@[tiles@[j] as int].owner == Some(self.me),
            decreases tiles@.len() - k,
        {
            let tile = tiles[k];
            if tile >= self.view.tiles.len() || self.view.tiles[tile].owner != Some(self.me) {
                return false;
            }
            k = k + 1;
        }
        true
    }

    /// The answer to one offer addressed to `me`.
    fn reply_to(&self, offer: &TradeOffer) -> (r: CommandKind)
        requires
            self.ready(),
            -0x1000_0000_0000_0000 <= offer.give_cash <= 0x1000_0000_0000_0000,
            -0x1000_0000_0000_0000 <= offer.receive_cash <= 0x1000_0000_0000_0000,
            offer.give_tiles@.len() <= 0x10_0000,
            offer.receive_tiles@.len() <= 0x10_0000,
        ensures
            r@ == trade_reply(self.content, self.view, self.me as int, *offer),
    {
        if !self.can_fulfill_trade_payment(offer.receive_cash, &offer.receive_tiles) {
            return CommandKind::DeclineTrade { trade: offer.id };
        }
        let gain = self.tiles_worth(&offer.give_tiles);
        let loss = self.tiles_worth(&offer.receive_tiles);
        proof {
            lemma_tiles_value_bound(self.content, self.view, self.me as int, offer.give_tiles@);
            lemma_tiles_value_bound(self.content, self.view, self.me as int, offer.receive_tiles@);
            assert(10_000_000_000 * offer.give_tiles@.len() <= 10_000_000_000 * 0x10_0000) by (nonlinear_arith)
                requires
                    offer.give_tiles@.len() <= 0x10_0000,
            ;
            assert(10_000_000_000 * offer.receive_tiles@.len() <= 10_000_000_000 * 0x10_0000) by (nonlinear_arith)
                requires
                    offer.receive_tiles@.len() <= 0x10_0000,
            ;
        }
        let incoming = offer.give_cash + gain;
        let outgoing = offer.receive_cash + loss;
        if incoming >= outgoing + TRADE_MARGIN {
            CommandKind::AcceptTrade { trade: offer.id }
        } else {
            CommandKind::DeclineTrade { trade: offer.id }
        }
    }

    /// Answers the first pending offer addressed to `me`, if any.
    fn trade_response(&self) -> (r: Option<CommandKind>)
        requires
            self.ready(),
        ensures
            ({
                let k = offer_upto(self.view, self.me as int, self.view.pending_trades@.len() as int);
                &&& k < 0 ==> r is None
                &&& k >= 0 ==> answer(r) == Some(
                    trade_reply(self.content, self.view, self.me as int, self.view.pending_trades@[k]),
                )
            }),
    {
        let mut k: usize = 0;
        while k < self.view.pending_trades.len()
            invariant
                self.ready(),
                k <= self.view.pending_trades@.len(),
                offer_upto(self.view, self.me as int, k as int) < 0,
            decreases self.view.pending_trades@.len() - k,
        {
            if self.view.pending_trades[k].to == self.me {
                proof {
                    lemma_offer_stays(
                        self.view,
                        self.me as int,
                        k + 1,
                        self.view.pending_trades@.len() as int,
                    );
                }
                return Some(self.reply_to(&self.view.pending_trades[k]));
            }
            k = k + 1;
        }
        None
    }

    /// The sealed bid on `tile`, or silence once this seat has bid.
    fn blind_bid_action(&self, tile: usize, bids: &Vec<Option<i64>>) -> (r: Option<CommandKind>)
        requires
            self.ready(),
            self.me < bids@.len(),
        ensures
            answer(r) == bid_reply(self.content, self.view, self.me as int, self.noise, tile as int, bids@),
    {
        if bids[self.me].is_some() {
            return None;
        }
        let prop = match self.content.property(tile) {
            Some(p) => p,
            None => {
                return None;
            },
        };
        proof {
            assert(crate::state::tile_fits(self.content.board@[tile as int]));
        }
        let price = prop.price;
        let mut noise = self.noise;
        let pct = descending_pick(&mut noise, BID_JITTER_MIN_PCT as u64, BID_JITTER_MAX_PCT as u64) as i64;
        proof {
            assert(0 <= price * pct <= 1_000_000_000 * 200) by (nonlinear_arith)
                requires
                    0 <= price <= 1_000_000_000,
                    0 <= pct <= 200,
            ;
        }
        let roll = price * pct / 100;
        let high = if roll > price {
            roll
        } else {
            price
        };
        let cash = self.cash();
        let amount = if self.view.current == self.me {
            if cash - price >= 0 {
                if high < cash {
                    high
                } else {
                    cash
                }
            } else {
                0
            }
        } else {
            let cap = cash - RESERVE;
            let bid = if high < cap {
                high
            } else {
                cap
            };
            if bid >= price {
                bid
            } else {
                0
            }
        };
        Some(CommandKind::SubmitBlindBid { amount })
    }

    /// The vote on an open bribe.
    fn bribe_vote_action(&self, briber: usize, amount: i64, votes: &Vec<Option<bool>>) -> (r: Option<CommandKind>)
        requires
            self.ready(),
            self.me != briber ==> self.me < votes@.len(),
        ensures
            answer(r) == vote_reply(self.view, self.me as int, briber as int, amount, votes@),
    {
        if self.me == briber || votes[self.me].is_some() {
            return None;
        }
        let mut count: usize = 0;
        let mut i: usize = 0;
        while i < self.view.players.len()
            invariant
                self.ready(),
                i <= self.view.players@.len(),
                count == opponents_upto(self.view, briber as int, i as int),
            decreases self.view.players@.len() - i,
        {
            proof {
                lemma_opponents_bound(self.view, briber as int, i as int);
            }
            if i != briber && !self.view.players[i].bankrupt {
                count = count + 1;
            }
            i = i + 1;
        }
        proof {
            lemma_opponents_bound(self.view, briber as int, i as int);
        }
        let opponents: i64 = if count == 0 {
            1
        } else {
            count as i64
        };
        let accept = amount >= 0 && amount / opponents >= RESERVE / 2;
        proof {
            if amount < 0 {
                assert((amount as int) / (opponents as int) < 0) by (nonlinear_arith)
                    requires
                        amount < 0,
                        opponents > 0,
                ;
            }
        }
        Some(CommandKind::VoteOnBribe { accept })
    }

    /// Jail triage: card, then bribe, then Legal Route.
    fn jail_action(&self) -> (r: CommandKind)
        requires
            self.ready(),
        ensures
            r@ == jail_reply(self.content, self.view, self.me as int),
    {
        if self.view.players[self.me].jail_cards > 0 {
            return CommandKind::UseJailCard;
        }
        let bribe = RESERVE * 2;
        if self.cash() - bribe >= RESERVE * 2 {
            return CommandKind::OfferBribe { amount: bribe };
        }
        CommandKind::ChooseLegalRoute {
            order: make_hand(self.content.rules.velocity_min, self.content.rules.velocity_max),
        }
    }

    /// How attractive it is to land `value` tiles ahead of `from`.
    fn landing_score(&self, from: usize, value: u8) -> (r: i64)
        requires
            self.ready(),
            from + 255 <= usize::MAX,
        ensures
            r == landing_score(self.content, self.view, self.me as int, from as int, value),
    {
        let len = self.content.board.len();
        let to = (from + value as usize) % len;
        proof {
            assert(crate::state::tile_fits(self.content.board@[to as int]));
        }
        match &self.content.board[to].kind {
            TileKind::GoToJail => SCORE_GO_TO_JAIL,
            TileKind::Property(prop) => match self.view.tiles[to].owner {
                None => if self.cash() - prop.price >= RESERVE {
                    SCORE_BUYABLE_UNOWNED
                } else {
                    0
                },
                Some(o) => if o == self.me {
                    SCORE_OWN_TILE
                } else {
                    -(prop.price * RIVAL_TILE_PENALTY_PCT / 100)
                },
            },
            _ => SCORE_NEUTRAL,
        }
    }

    /// The card to play on a plain move: the best landing, ties to the
    /// lowest value.
    fn choose_movement_card(&self) -> (r: Option<u8>)
        requires
            self.ready(),
        ensures
            r == card_choice(self.content, self.view, self.me as int),
    {
        let player = &self.view.players[self.me];
        let from = player.position;
        let hand = &player.hand;
        let mut best: Option<u8> = None;
        let mut best_score: i64 = 0;
        let mut k: usize = 0;
        while k < hand.len()
            invariant
                self.ready(),
                player == self.view.players@[self.me as int],
                from == player.position,
                hand == player.hand,
                k <= hand@.len(),
                best == card_upto(self.content, self.view, self.me as int, from as int, hand@, k as int),
                best matches Some(b) ==> best_score == landing_score(
                    self.content,
                    self.view,
                    self.me as int,
                    from as int,
                    b,
                ),
            decreases hand@.len() - k,
        {
            let value = hand[k];
            let score = self.landing_score(from, value);
            match best {
                None => {
                    best = Some(value);
                    best_score = score;
                },
                Some(b) => {
                    if score > best_score || (score == best_score && value <= b) {
                        best = Some(value);
                        best_score = score;
                    }
                },
            }
            k = k + 1;
        }
        best
    }
    /// Whether tile `i` passes the scan `kind`.
    fn passes(&self, kind: &Scan, i: usize) -> (r: bool)
        requires
            self.ready(),
            i < self.content.board@.len(),
            *kind is Boost ==> self.content.rules.rent_boost > 0,
        ensures
            r == (scan_test(self.content, self.view, self.me as int, *kind))(i as int),
    {
        if self.view.tiles[i].owner != Some(self.me) {
            return false;
        }
        let prop = match self.content.property(i) {
            Some(p) => p,
            None => {
                return false;
            },
        };
        proof {
            assert(crate::state::tile_fits(self.content.board@[i as int]));
        }
        let t = self.view.tiles[i];
        match kind {
            Scan::Sell => t.houses > 0 && crate::state::group_max_houses(
                self.content,
                &self.view.tiles,
                prop.group.as_str(),
            ) == t.houses,
            Scan::Mortgage => !t.mortgaged && crate::state::group_max_houses(
                self.content,
                &self.view.tiles,
                prop.group.as_str(),
            ) == 0,
            Scan::Redeem => t.mortgaged && self.cash() - mortgage_redeem_cost(prop.price) >= REDEEM_RESERVE,
            Scan::Build => {
                let cap = if self.content.rules.max_houses_per_property < 5 {
                    self.content.rules.max_houses_per_property
                } else {
                    5
                };
                matches!(prop.rent_model, RentModel::Houses) && t.houses < cap && self.cash() - prop.house_cost
                    >= BUILD_RESERVE && self.owns_group(prop.group.as_str(), true)
                    && crate::state::group_min_houses(self.content, &self.view.tiles, prop.group.as_str())
                    == t.houses
            },
            Scan::Boost => {
                proof {
                    assert(0 <= prop.price * self.content.rules.rent_boost <= 1_000_000_000 * 10_000)
                        by (nonlinear_arith)
                        requires
                            0 <= prop.price <= 1_000_000_000,
                            0 < self.content.rules.rent_boost <= 10_000,
                    ;
                }
                let cost = prop.price * self.content.rules.rent_boost / 100;
                !t.mortgaged && t.boosts < MAX_RENT_BOOSTS && self.cash() - cost >= BUILD_RESERVE
                    && self.tile_base_rent(i) > 0
            },
        }
    }

    /// The ranking key of tile `i` in the scan `kind`.
    fn scan_rank(&self, kind: &Scan, i: usize) -> (r: i64)
        requires
            self.ready(),
            is_property(self.content, i as int),
        ensures
            r == (scan_key(self.content, self.view, self.me as int, *kind))(i as int),
    {
        match kind {
            Scan::Sell => self.view.tiles[i].houses as i64,
            Scan::Mortgage => {
                let prop = self.content.property(i).unwrap();
                prop.price
            },
            _ => self.tile_priority(i),
        }
    }

    /// The last tile with the greatest key among those passing `kind`.
    fn scan(&self, kind: Scan) -> (r: Option<usize>)
        requires
            self.ready(),
            kind is Boost ==> self.content.rules.rent_boost > 0,
        ensures
            index_of(r) == last_best(
                self.content.board@.len() as int,
                scan_test(self.content, self.view, self.me as int, kind),
                scan_key(self.content, self.view, self.me as int, kind),
            ),
    {
        let ghost ok = scan_test(self.content, self.view, self.me as int, kind);
        let ghost key = scan_key(self.content, self.view, self.me as int, kind);
        let n = self.content.board.len();
        let mut best: Option<usize> = None;
        let mut best_key: i64 = 0;
        let mut i: usize = 0;
        while i < n
            invariant
                self.ready(),
                kind is Boost ==> self.content.rules.rent_boost > 0,
                ok == scan_test(self.content, self.view, self.me as int, kind),
                key == scan_key(self.content, self.view, self.me as int, kind),
                n == self.content.board@.len(),
                i <= n,
                index_of(best) == last_best(i as int, ok, key),
                best matches Some(b) ==> best_key == key(b as int),
            decreases n - i,
        {
            if self.passes(&kind, i) {
                proof {
                    reveal_with_fuel(last_best, 1);
                }
                let k = self.scan_rank(&kind, i);
                if best.is_none() || k >= best_key {
                    best = Some(i);
                    best_key = k;
                }
            }
            i = i + 1;
        }
        best
    }

    /// Seizes the landing tile when that completes a group.
    fn expropriate_group_completer(&self) -> (r: bool)
        requires
            self.ready(),
        ensures
            r == expropriate_ok(self.content, self.view, self.me as int),
    {
        if self.content.rules.expropriation <= 0 || !matches!(self.view.turn, TurnPhase::AwaitEnd) {
            return false;
        }
        let i = self.view.players[self.me].position;
        let prop = match self.content.property(i) {
            Some(p) => p,
            None => {
                return false;
            },
        };
        let owner = match self.view.tiles[i].owner {
            Some(o) => o,
            None => {
                return false;
            },
        };
        proof {
            assert(crate::state::tile_fits(self.content.board@[i as int]));
            assert(0 <= prop.price * self.content.rules.expropriation <= 1_000_000_000 * 10_000) by (nonlinear_arith)
                requires
                    0 <= prop.price <= 1_000_000_000,
                    0 < self.content.rules.expropriation <= 10_000,
            ;
        }
        let cost = prop.price * self.content.rules.expropriation / 100;
        owner != self.me && !self.view.players[owner].bankrupt && !self.view.tiles[i].mortgaged && self.cash() - cost
            >= BUILD_RESERVE && self.completes_group(i)
    }

    /// Housekeeping on the bot's own move.
    fn asset_action(&self) -> (r: Option<CommandKind>)
        requires
            self.ready(),
        ensures
            answer(r) == asset_reply(self.content, self.view, self.me as int),
    {
        let n = self.content.board.len();
        let ghost me = self.me as int;
        let low = self.cash() < RESERVE;
        if low {
            let sell = self.scan(Scan::Sell);
            proof {
                lemma_last_best_range(n as int, sell_test(self.content, self.view, me), houses_key(self.view));
            }
            if let Some(i) = sell {
                return Some(CommandKind::SellHouse { tile: self.content.board[i].id.clone() });
            }
            let mortgage = self.scan(Scan::Mortgage);
            proof {
                lemma_last_best_range(n as int, mortgage_test(self.content, self.view, me), price_key(self.content));
            }
            if let Some(i) = mortgage {
                return Some(CommandKind::Mortgage { tile: self.content.board[i].id.clone() });
            }
        }
        let unmortgage = self.scan(Scan::Redeem);
        proof {
            lemma_last_best_range(n as int, redeem_test(self.content, self.view, me), priority_key(self.content, self.view, me));
        }
        if let Some(i) = unmortgage {
            return Some(CommandKind::Unmortgage { tile: self.content.board[i].id.clone() });
        }
        let build = self.scan(Scan::Build);
        proof {
            lemma_last_best_range(n as int, build_test(self.content, self.view, me), priority_key(self.content, self.view, me));
        }
        if let Some(i) = build {
            return Some(CommandKind::Build { tile: self.content.board[i].id.clone() });
        }
        if self.expropriate_group_completer() {
            let i = self.view.players[self.me].position;
            return Some(CommandKind::Expropriate { tile: self.content.board[i].id.clone() });
        }
        if self.content.rules.rent_boost <= 0 {
            return None;
        }
        let boost = self.scan(Scan::Boost);
        proof {
            lemma_last_best_range(n as int, boost_test(self.content, self.view, me), priority_key(self.content, self.view, me));
        }
        if let Some(i) = boost {
            return Some(CommandKind::BoostRent { tile: self.content.board[i].id.clone() });
        }
        None
    }
}

} // verus!
