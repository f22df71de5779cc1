//! Landing resolution: rent with its multiplier chain (boost, market
//! event, spotlight), card draws and chains, taxes, and the Exposition
//! spotlight.
use vstd::prelude::*;

use super::{Exec, cards_low, lemma_cash_ready, lemma_player_ready, lemma_tile_ready, ready};
use crate::content::{
    CardEffect, GameContent, MarketEffect, TileKind, card_error, is_property, lemma_valid_content,
    prop_of, tile_error, tile_index_spec,
};
use crate::event::{DeckKind, Event};
use crate::state::{
    GameModel, GameState, PlayerModel, Spotlight, TileState, TurnModel, TurnPhase, alive,
    alive_upto, amount_limit, budget_limit, cash_bound, cash_step, deck_ok, lemma_bounded_mono,
    player_bounded, state_wf, within,
};
use crate::strategy::{BankruptcyResolver, RentCalculator};
use crate::tuning::{MAX_CARD_CHAIN_DEPTH, RENT_BOOST_STEP_PCT, SPOTLIGHT_NO_EXPIRY};

verus! {

/// Money movements one landing at chain depth `depth` may still make:
/// each remaining level of a card chain may charge every other seat once.
pub open spec fn land_cost(depth: int) -> int {
    1500 * (5 - depth)
}

/// A rent raised by the tile's boost level, `RENT_BOOST_STEP_PCT` percent
/// per level.
pub open spec fn boosted(base: int, boosts: int) -> int {
    base * (100 + RENT_BOOST_STEP_PCT * boosts) / 100
}

/// `base` scaled by the active market event when it has `effect`, never
/// below zero.
pub open spec fn market_scaled(s: GameModel, effect: MarketEffect, base: int) -> int {
    match s.forecast.active {
        Some(a) => if a.effect == effect {
            let v = base * (100 + a.magnitude_pct) / 100;
            if v > 0 {
                v
            } else {
                0
            }
        } else {
            base
        },
        None => base,
    }
}

/// `base` scaled by the spotlight when it stands on `tile`, never below
/// zero.
pub open spec fn spotlight_scaled(c: &GameContent, s: GameModel, tile: int, base: int) -> int {
    match s.spotlight {
        Some(sp) => if sp.tile == tile {
            let v = base * (100 + c.rules.spotlight_rent_pct) / 100;
            if v > 0 {
                v
            } else {
                0
            }
        } else {
            base
        },
        None => base,
    }
}

/// `e` reports that `p` drew `card` from `deck`.
pub open spec fn reports_draw(e: Event, p: int, deck: DeckKind, card: crate::content::CardDef) -> bool {
    match e {
        Event::CardDrawn { player, deck: d, card: id, text } => player == p && d == deck && id@ == card.id@
            && text@ == card.text@,
        _ => false,
    }
}

/// `e` reports that `card` changed `p`'s cash by `delta`.
pub open spec fn reports_adjustment(e: Event, p: int, delta: int, card: crate::content::CardDef) -> bool {
    match e {
        Event::CashAdjusted { player, delta: d, reason } => player == p && d == delta && reason@ == card.id@,
        _ => false,
    }
}

/// The events a money or jail card drawn by `p` in state `s` appends to
/// `before`: the cash change (followed by distress events only where the
/// seat cannot cover a loss), the jail card, or the trip to jail.
pub open spec fn card_events(
    c: &GameContent,
    s: GameModel,
    p: int,
    card: crate::content::CardDef,
    before: Seq<Event>,
    after: Seq<Event>,
) -> bool {
    let n = before.len() as int;
    match card.effect {
        CardEffect::Money { amount } => {
            &&& n < after.len()
            &&& reports_adjustment(after[n], p, amount as int, card)
            &&& amount >= 0 || s.players[p].cash >= -amount + c.rules.bankruptcy_threshold ==> after.len() == n + 1
        },
        CardEffect::GetOutOfJail => after == before.push(Event::JailCardReceived { player: p as usize }),
        CardEffect::GoToJail => {
            let went = Event::WentToJail { player: p as usize, from: s.players[p].position };
            &&& n < after.len()
            &&& after.last() == went
            &&& s.players[p].jail_route is None ==> after == before.push(went)
        },
        _ => true,
    }
}

impl<'e, R: RentCalculator, B: BankruptcyResolver> Exec<'e, R, B> {
    /// A rent raised by the tile's boost level.
    pub fn boosted_rent(base: i64, boosts: u8) -> (r: i64)
        requires
            0 <= base <= 2 * amount_limit(),
            boosts <= 3,
        ensures
            r == boosted(base as int, boosts as int),
            0 <= r <= 5 * amount_limit(),
    {
        proof {
            assert(base * (100 + 50 * boosts) <= 2 * amount_limit() * 250) by (nonlinear_arith)
                requires
                    0 <= base <= 2 * amount_limit(),
                    boosts <= 3,
            ;
            assert(base * (100 + 50 * boosts) >= 0) by (nonlinear_arith)
                requires
                    0 <= base,
            ;
        }
        base * (100 + RENT_BOOST_STEP_PCT * (boosts as i64)) / 100
    }

    /// Applies the active market event's magnitude to `base` when it has
    /// `effect`; a no-op otherwise.
    pub fn apply_market_multiplier(&self, effect: MarketEffect, base: i64) -> (r: i64)
        requires
            exists|k: int| self.ok(k),
            0 <= base <= 0x10_0000_0000_0000,
        ensures
            r == market_scaled(self.st@, effect, base as int),
            0 <= r <= 2 * base,
    {
        let ghost k = choose|k: int| self.ok(k);
        match &self.st.forecast.active {
            Some(active) => {
                if active.effect == effect {
                    proof {
                        assert(crate::state::forecast_bounded(self.st@.forecast, k));
                        assert(self.st@.forecast.active == Some(active@));
                        assert(base * (100 + active.magnitude_pct) <= base * 200) by (nonlinear_arith)
                            requires
                                0 <= base,
                                active.magnitude_pct <= 100,
                        ;
                        assert(base * (100 + active.magnitude_pct) >= 0) by (nonlinear_arith)
                            requires
                                0 <= base,
                                active.magnitude_pct >= -100,
                        ;
                    }
                    let v = base * (100 + active.magnitude_pct) / 100;
                    if v > 0 {
                        v
                    } else {
                        0
                    }
                } else {
                    base
                }
            },
            None => base,
        }
    }

    /// Applies the spotlight's bonus to `base` when it stands on `tile`.
    pub fn apply_spotlight_multiplier(&self, tile: usize, base: i64) -> (r: i64)
        requires
            exists|k: int| self.ok(k),
            0 <= base <= 0x10_0000_0000_0000,
        ensures
            r == spotlight_scaled(self.content, self.st@, tile as int, base as int),
            0 <= r <= 11 * base,
    {
        match &self.st.spotlight {
            Some(sp) => {
                if sp.tile == tile {
                    let pct = self.content.rules.spotlight_rent_pct;
                    proof {
                        assert(base * (100 + pct) <= base * 1100) by (nonlinear_arith)
                            requires
                                0 <= base,
                                pct <= 1000,
                        ;
                        assert(base * (100 + pct) >= -base * 900) by (nonlinear_arith)
                            requires
                                0 <= base,
                                pct >= -1000,
                        ;
                    }
                    let v = base * (100 + pct) / 100;
                    if v > 0 {
                        v
                    } else {
                        0
                    }
                } else {
                    base
                }
            },
            None => base,
        }
    }
}

/// `s` once the Exposition corner has drawn a property into the
/// spotlight (the previous one bumped); unchanged on a board without
/// properties. A non-positive duration makes the spotlight permanent.
pub open spec fn spotlit(c: &GameContent, s: GameModel) -> GameModel {
    let cands = crate::content::props_upto(c, c.board@.len() as int);
    let duration = c.rules.spotlight_duration_turns;
    if cands.len() == 0 {
        s
    } else {
        GameModel {
            rng: crate::rng::advance(s.rng),
            spotlight: Some(Spotlight {
                tile: cands[(crate::rng::draw(s.rng) % (cands.len() as u64)) as int],
                expires_at_turn: if duration <= 0 {
                    SPOTLIGHT_NO_EXPIRY
                } else {
                    (s.turn_count + duration) as u32
                },
            }),
            ..s
        }
    }
}

/// The announcements of the Exposition corner: the bumped spotlight ends,
/// then the new one starts.
pub open spec fn spotlight_events(c: &GameContent, s: GameModel) -> Seq<Event> {
    let cands = crate::content::props_upto(c, c.board@.len() as int);
    if cands.len() == 0 {
        Seq::empty()
    } else {
        let started = Event::SpotlightStarted {
            tile: spotlit(c, s).spotlight->0.tile,
            rent_pct: c.rules.spotlight_rent_pct,
            duration_turns: c.rules.spotlight_duration_turns,
        };
        match s.spotlight {
            Some(old) => seq![Event::SpotlightEnded { tile: old.tile }, started],
            None => seq![started],
        }
    }
}

/// `s` once the audit of a net-worth-tax tile has drawn its percent.
pub open spec fn audited(s: GameModel) -> GameModel {
    GameModel { rng: crate::rng::advance(s.rng), ..s }
}

/// The percent the audit draws from `s`'s generator: one in
/// `min_pct..=max_pct`, the heavier brackets the rarer.
pub open spec fn audit_pct(s: GameModel, min_pct: u8, max_pct: u8) -> int {
    crate::state::weighted_pick(
        min_pct as int,
        max_pct as int,
        (crate::rng::draw(s.rng) % (crate::state::tri(max_pct - min_pct + 1) as u64)) as int,
    )
}

/// The audit's charge on `p` standing on a net-worth-tax tile: the drawn
/// percent of its net worth, rounded toward zero.
pub open spec fn audit_due(c: &GameContent, s: GameModel, p: int, min_pct: u8, max_pct: u8) -> int {
    let v = crate::state::net_worth_spec(c, audited(s), p) * audit_pct(s, min_pct, max_pct);
    if v >= 0 {
        v / 100
    } else {
        -((-v) / 100)
    }
}

impl<'e, R: RentCalculator, B: BankruptcyResolver> Exec<'e, R, B> {
    /// Landing on the Exposition corner: a random property enters the
    /// spotlight, bumping the previous one. A no-op on a board without
    /// properties. A non-positive duration makes the spotlight permanent.
    pub fn enter_spotlight(&mut self, Ghost(k): Ghost<int>)
        requires
            old(self).ok(k),
        ensures
            final(self).st@.turn_count == old(self).st@.turn_count,
            final(self).ok(k),
            final(self).kept(old(self)),
            final(self).st@ == spotlit(old(self).content, old(self).st@),
            final(self).ev@ == old(self).ev@ + spotlight_events(old(self).content, old(self).st@),
            final(self).st@ == (GameModel { rng: final(self).st@.rng, spotlight: final(self).st@.spotlight, ..old(self).st@ }),
            ({
                let s = old(self).st@;
                let cands = crate::content::props_upto(old(self).content, old(self).content.board@.len() as int);
                let duration = old(self).content.rules.spotlight_duration_turns;
                if cands.len() == 0 {
                    final(self).st@ == s
                } else {
                    final(self).st@ == (GameModel {
                        rng: crate::rng::advance(s.rng),
                        spotlight: Some(Spotlight {
                            tile: cands[(crate::rng::draw(s.rng) % (cands.len() as u64)) as int],
                            expires_at_turn: if duration <= 0 {
                                SPOTLIGHT_NO_EXPIRY
                            } else {
                                (s.turn_count + duration) as u32
                            },
                        }),
                        ..s
                    })
                }
            }),
    {
        let tile = match self.st.draw_spotlight_tile(self.content) {
            Some(t) => t,
            None => {
                return;
            },
        };
        if let Some(old) = self.st.spotlight {
            self.ev.push(Event::SpotlightEnded { tile: old.tile });
        }
        let duration = self.content.rules.spotlight_duration_turns;
        proof {
            assert(crate::state::rules_fit(self.content.rules));
        }
        let expires_at_turn = if duration <= 0 {
            SPOTLIGHT_NO_EXPIRY
        } else {
            self.st.turn_count + duration as u32
        };
        self.st.spotlight = Some(Spotlight { tile, expires_at_turn });
        self.ev.push(
            Event::SpotlightStarted {
                tile,
                rent_pct: self.content.rules.spotlight_rent_pct,
                duration_turns: duration,
            },
        );
    }

    /// Turn-transition tick: expires the spotlight once its window closes.
    pub fn tick_spotlight(&mut self, Ghost(k): Ghost<int>)
        requires
            old(self).ok(k),
        ensures
            final(self).ok(k),
            final(self).kept(old(self)),
            final(self).st@ == (GameModel { spotlight: final(self).st@.spotlight, ..old(self).st@ }),
            final(self).st@.spotlight == match old(self).st@.spotlight {
                Some(sp) => if old(self).st@.turn_count >= sp.expires_at_turn {
                    None
                } else {
                    Some(sp)
                },
                None => None,
            },
            final(self).ev@ == match old(self).st@.spotlight {
                Some(sp) => if old(self).st@.turn_count >= sp.expires_at_turn {
                    old(self).ev@.push(Event::SpotlightEnded { tile: sp.tile })
                } else {
                    old(self).ev@
                },
                None => old(self).ev@,
            },
    {
        if let Some(sp) = self.st.spotlight {
            if self.st.turn_count >= sp.expires_at_turn {
                self.st.spotlight = None;
                self.ev.push(Event::SpotlightEnded { tile: sp.tile });
            }
        }
    }

    /// Resolves the tile `p` stands on. Card chains past the depth cap end
    /// the turn without resolving.
    pub fn resolve_landing(&mut self, p: usize, depth: u8, Ghost(k): Ghost<int>)
        requires
            !old(self).st@.players[p as int].bankrupt,
            old(self).ok(k),
            depth <= 5,
            k + land_cost(depth as int) <= budget_limit(),
            p < old(self).st@.players.len(),
            cards_low(old(self).st@),
        ensures
            final(self).st@.turn_count == old(self).st@.turn_count,
            final(self).ok(k + land_cost(depth as int)),
            final(self).kept(old(self)),
            final(self).st@.players.len() == old(self).st@.players.len(),
            depth > MAX_CARD_CHAIN_DEPTH ==> final(self).st@ == (GameModel { turn: TurnModel::AwaitEnd, ..old(self).st@ }),
            depth <= MAX_CARD_CHAIN_DEPTH ==> (quiet_turn(
                old(self).content,
                old(self).st@,
                p as int,
                old(self).st@.players[p as int].position as int,
            ) matches Some(t) ==> final(self).st@ == (GameModel { turn: t, ..old(self).st@ })),
            depth <= MAX_CARD_CHAIN_DEPTH && old(self).content.board@[old(self).st@.players[p as int].position as int].kind is GoToJail
                ==> final(self).st@.players[p as int].jailed && crate::content::is_jail(
                old(self).content,
                final(self).st@.players[p as int].position as int,
            ) && final(self).st@.turn == TurnModel::AwaitEnd && final(self).st@.tiles == old(self).st@.tiles,
            ({
                let s = old(self).st@;
                let t = s.players[p as int].position as int;
                depth <= MAX_CARD_CHAIN_DEPTH && old(self).content.board@[t].kind is Property && charges_rent(s, p as int, t)
                    ==> rent_settled(old(self).content, s, final(self).st@, p as int, t, old(self).rent.spec_rent(old(self).content, s.tiles, t))
                    && (s.players[p as int].cash >= rent_due(old(self).content, s, t, old(self).rent.spec_rent(old(self).content, s.tiles, t))
                    + old(self).content.rules.bankruptcy_threshold ==> final(self).ev@ == old(self).ev@ + rent_events(
                    old(self).content,
                    s,
                    p as int,
                    t,
                    old(self).rent.spec_rent(old(self).content, s.tiles, t),
                ))
            }),
            ({
                let s = old(self).st@;
                let t = s.players[p as int].position as int;
                depth <= MAX_CARD_CHAIN_DEPTH ==> (old(self).content.board@[t].kind matches TileKind::Tax { amount } ==> (
                amount > 0 && s.players[p as int].cash >= amount + old(self).content.rules.bankruptcy_threshold
                    ==> final(self).st@ == (GameModel {
                    turn: TurnModel::AwaitEnd,
                    ..crate::apply::cash::paid(s, p as int, None, amount as int)
                })))
            }),
            ({
                let s = old(self).st@;
                let t = s.players[p as int].position as int;
                let deck = if old(self).content.board@[t].kind is Chance { DeckKind::Chance } else { DeckKind::Community };
                depth <= MAX_CARD_CHAIN_DEPTH && (old(self).content.board@[t].kind is Chance
                    || old(self).content.board@[t].kind is Community) && deck_of(s, deck).order.len() > 0 ==> card_settled(
                    old(self).content,
                    old(self).rent,
                    after_draw(s, deck),
                    final(self).st@,
                    p as int,
                    next_card(old(self).content, s, deck),
                    depth as int,
                )
            }),
            landed(old(self).content, old(self).rent, old(self).st@, final(self).st@, p as int, depth as int),
            landing_events(old(self).content, old(self).rent, old(self).st@, p as int, depth as int, old(self).ev@, final(self).ev@),
        decreases 5 - depth, 2int,
    {
        if depth > MAX_CARD_CHAIN_DEPTH {
            self.st.set_turn(TurnPhase::AwaitEnd);
            proof {
                lemma_bounded_mono(self.st@, k, k + land_cost(depth as int));
            }
            return;
        }
        let content = self.content;
        let tile = self.st.players[p].position;
        proof {
            lemma_valid_content(content);
            assert(self.st@.players[p as int].position == tile);
            assert(tile < content.board@.len());
            assert(crate::state::tile_fits(content.board@[tile as int]));
            assert(tile_error(content, tile as int) is None);
        }
        match &content.board[tile].kind {
            TileKind::Go | TileKind::Jail | TileKind::FreeParking => {
                self.st.set_turn(TurnPhase::AwaitEnd);
                proof {
                    lemma_bounded_mono(self.st@, k, k + land_cost(depth as int));
                }
            },
            TileKind::Spotlight => {
                self.enter_spotlight(Ghost(k));
                self.st.set_turn(TurnPhase::AwaitEnd);
                proof {
                    lemma_bounded_mono(self.st@, k, k + land_cost(depth as int));
                }
            },
            TileKind::GoToJail => {
                self.go_to_jail(p, Ghost(k));
                self.st.set_turn(TurnPhase::AwaitEnd);
                proof {
                    lemma_bounded_mono(self.st@, k + 2, k + land_cost(depth as int));
                }
            },
            TileKind::Tax { amount } => {
                let amount = *amount;
                self.ev.push(Event::TaxPaid { player: p, tile, amount });
                self.charge(p, None, amount, Ghost(k));
                self.st.set_turn(TurnPhase::AwaitEnd);
                proof {
                    lemma_bounded_mono(self.st@, k + 22, k + land_cost(depth as int));
                }
            },
            TileKind::NetWorthTax { min_pct, max_pct } => {
                let ghost before = self.st@;
                let pct = self.st.draw_networth_tax_pct(*min_pct, *max_pct);
                proof {
                    assert(self.st@ == (GameModel { rng: self.st@.rng, ..before }));
                    assert(player_bounded(self.st@.players[p as int], k));
                    crate::state::lemma_bounded_mono(self.st@, k, budget_limit());
                    assert(player_bounded(self.st@.players[p as int], budget_limit()));
                }
                let worth = self.st.net_worth(content, p);
                proof {
                    assert(worth * pct <= 0x100_0000_0000_0000 * 100) by (nonlinear_arith)
                        requires
                            worth <= 0x100_0000_0000_0000,
                            0 <= pct <= 100,
                    ;
                    assert(worth * pct >= -0x100_0000_0000_0000 * 100) by (nonlinear_arith)
                        requires
                            worth >= -0x100_0000_0000_0000,
                            0 <= pct <= 100,
                    ;
                }
                let amount = worth * (pct as i64) / 100;
                proof {
                    assert(self.st@ == audited(before));
                    assert(worth == crate::state::net_worth_spec(content, audited(before), p as int));
                    assert(pct == audit_pct(before, *min_pct, *max_pct));
                    assert(amount == audit_due(content, before, p as int, *min_pct, *max_pct));
                }
                self.ev.push(Event::TaxPaid { player: p, tile, amount });
                self.charge(p, None, amount, Ghost(k));
                self.st.set_turn(TurnPhase::AwaitEnd);
                proof {
                    lemma_bounded_mono(self.st@, k + 22, k + land_cost(depth as int));
                }
            },
            TileKind::Property(prop) => {
                self.land_on_property(p, tile, Ghost(k));
                proof {
                    lemma_bounded_mono(self.st@, k + 22, k + land_cost(depth as int));
                }
            },
            TileKind::Chance => {
                self.draw_card(p, DeckKind::Chance, depth, Ghost(k));
            },
            TileKind::Community => {
                self.draw_card(p, DeckKind::Community, depth, Ghost(k));
            },
        }
    }
}

/// The turn after landing on tile `t` when the landing moves no money,
/// draws nothing and sends nobody anywhere: a passive corner ends the
/// move; an unowned property opens a sealed-bid window with no bids yet;
/// the lander's own tile, a mortgaged one, or one whose owner serves a
/// Legal Route ends the move. `None` for every other landing.
pub open spec fn quiet_turn(c: &GameContent, s: GameModel, p: int, t: int) -> Option<TurnModel> {
    match c.board@[t].kind {
        TileKind::Go | TileKind::Jail | TileKind::FreeParking => Some(TurnModel::AwaitEnd),
        TileKind::Property(_) => match s.tiles[t].owner {
            None => Some(TurnModel::BlindAuction {
                tile: t as usize,
                bids: Seq::new(s.players.len(), |i: int| None::<i64>),
            }),
            Some(o) => if o == p || s.tiles[t].mortgaged || s.players[o as int].jail_route is Some {
                Some(TurnModel::AwaitEnd)
            } else {
                None
            },
        },
        _ => None,
    }
}

/// The events of a landing on property `t` that moves no money: an unowned
/// tile announces its sealed-bid window; the other quiet landings emit
/// nothing.
pub open spec fn quiet_events(c: &GameContent, s: GameModel, p: int, t: int, before: Seq<Event>, after: Seq<Event>) -> bool {
    match s.tiles[t].owner {
        None => after == before.push(Event::BlindAuctionOpened { tile: t as usize, discoverer: p as usize, floor: prop_of(c, t).price }),
        Some(o) => o == p || s.tiles[t].mortgaged || s.players[o as int].jail_route is Some ==> after == before,
    }
}

/// The events of resolving the tile `p` stands on at card-chain depth
/// `depth`, appended to `before`: none past the chain cap or on a passive
/// corner; the trip to jail; the tax notice (alone where the seat covers
/// it); a property's window notice or rent; a card's draw and effect.
pub open spec fn landing_events<R: RentCalculator>(
    c: &GameContent,
    rent: &R,
    s: GameModel,
    p: int,
    depth: int,
    before: Seq<Event>,
    after: Seq<Event>,
) -> bool {
    let t = s.players[p].position as int;
    let n = before.len() as int;
    if depth > MAX_CARD_CHAIN_DEPTH {
        after == before
    } else {
        match c.board@[t].kind {
            TileKind::Go | TileKind::Jail | TileKind::FreeParking => after == before,
            TileKind::GoToJail => {
                let went = Event::WentToJail { player: p as usize, from: s.players[p].position };
                &&& n < after.len()
                &&& after.last() == went
                &&& s.players[p].jail_route is None ==> after == before.push(went)
            },
            TileKind::Tax { amount } => {
                &&& n < after.len()
                &&& after[n] == (Event::TaxPaid { player: p as usize, tile: t as usize, amount })
                &&& amount <= 0 || s.players[p].cash >= amount + c.rules.bankruptcy_threshold ==> after.len() == n + 1
            },
            TileKind::NetWorthTax { min_pct, max_pct } => {
                let a = audit_due(c, s, p, min_pct, max_pct);
                &&& n < after.len()
                &&& after[n] == (Event::TaxPaid { player: p as usize, tile: t as usize, amount: a as i64 })
                &&& a <= 0 || s.players[p].cash >= a + c.rules.bankruptcy_threshold ==> after.len() == n + 1
            },
            TileKind::Spotlight => after == before + spotlight_events(c, s),
            TileKind::Property(_) => {
                let base = rent.spec_rent(c, s.tiles, t);
                &&& quiet_events(c, s, p, t, before, after)
                &&& charges_rent(s, p, t) && s.players[p].cash >= rent_due(c, s, t, base) + c.rules.bankruptcy_threshold
                    ==> after == before + rent_events(c, s, p, t, base)
            },
            TileKind::Chance | TileKind::Community => {
                let deck = if c.board@[t].kind is Chance { DeckKind::Chance } else { DeckKind::Community };
                let card = next_card(c, s, deck);
                deck_of(s, deck).order.len() > 0 ==> {
                    &&& n < after.len()
                    &&& reports_draw(after[n], p, deck, card)
                    &&& card_events(c, s, p, card, before.push(after[n]), after)
                }
            },
        }
    }
}

/// The deck a draw of `deck` takes from.
pub open spec fn deck_of(s: GameModel, deck: DeckKind) -> crate::state::DeckModel {
    match deck {
        DeckKind::Chance => s.chance_deck,
        DeckKind::Community => s.community_deck,
    }
}

/// `s` once a card of `deck` has been drawn: the deck's cursor moves on,
/// back to the first card after the last.
pub open spec fn after_draw(s: GameModel, deck: DeckKind) -> GameModel {
    let d = deck_of(s, deck);
    let moved = crate::state::DeckModel { next: ((d.next + 1) % (d.order.len() as int)) as usize, ..d };
    match deck {
        DeckKind::Chance => GameModel { chance_deck: moved, ..s },
        DeckKind::Community => GameModel { community_deck: moved, ..s },
    }
}

/// The card a draw of `deck` hands out next.
pub open spec fn next_card(c: &GameContent, s: GameModel, deck: DeckKind) -> crate::content::CardDef {
    let d = deck_of(s, deck);
    let i = d.order[d.next as int] as int;
    match deck {
        DeckKind::Chance => c.chance@[i],
        DeckKind::Community => c.community@[i],
    }
}

/// Stepping back `-st` tiles from `from` lands where going `len - back`
/// forward does, `back` being the step count reduced to the board.
proof fn lemma_wrap_back(from: int, st: int, len: int, back: int)
    requires
        len > 0,
        st < 0,
        back == (-st) % len,
    ensures
        (from + len - back) % len == (from + st) % len,
{
    let q = (-st) / len;
    vstd::arithmetic::div_mod::lemma_fundamental_div_mod(-st, len);
    assert(from + len - back == len * (q + 1) + (from + st)) by (nonlinear_arith)
        requires
            -st == len * q + back,
    ;
    vstd::arithmetic::div_mod::lemma_mod_multiples_vanish(q + 1, from + st, len);
}

/// `s` once a card has moved `p` straight to tile `to`, paying the Go
/// salary when `collect_go` lets the move wrap round the board.
pub open spec fn teleported(c: &GameContent, s: GameModel, p: int, to: int, collect_go: bool) -> GameModel {
    let moved = crate::state::with_player(s, p, PlayerModel { position: to as usize, ..s.players[p] });
    if collect_go && to < s.players[p].position {
        crate::state::with_cash(moved, p, s.players[p].cash + c.rules.go_salary)
    } else {
        moved
    }
}

/// `s` once a card has moved `p` forward by `steps` tiles, paying the Go
/// salary when the move wraps round the board.
pub open spec fn stepped(c: &GameContent, s: GameModel, p: int, steps: int) -> GameModel {
    let raw = s.players[p].position + steps;
    let moved = crate::state::with_player(s, p, PlayerModel {
        position: (raw % (c.board@.len() as int)) as usize,
        ..s.players[p]
    });
    if raw >= c.board@.len() {
        crate::state::with_cash(moved, p, s.players[p].cash + c.rules.go_salary)
    } else {
        moved
    }
}

/// Law: a card that moves `p` forward by `steps` tiles lands where a
/// forward move of that many tiles lands and pays the Go salary exactly
/// when the move wraps round the board, as a movement card of that value
/// does; nothing else about the seat or the table changes.
pub proof fn law_forward_card_move(c: &GameContent, s: GameModel, p: int, steps: int)
    requires
        0 <= p < s.players.len(),
        0 < c.board@.len() <= usize::MAX,
        0 <= steps,
        i64::MIN <= s.players[p].cash + c.rules.go_salary <= i64::MAX,
    ensures
        ({
            let f = stepped(c, s, p, steps);
            let len = c.board@.len() as int;
            let pos = s.players[p].position as int;
            &&& f.players[p].position == (pos + steps) % len
            &&& f.players[p].cash == s.players[p].cash + if pos + steps >= len { c.rules.go_salary as int } else { 0 }
            &&& f.players[p] == (PlayerModel { position: f.players[p].position, cash: f.players[p].cash, ..s.players[p] })
            &&& f.players.len() == s.players.len()
            &&& forall|q: int| 0 <= q < s.players.len() && q != p ==> #[trigger] f.players[q] == s.players[q]
            &&& f == (GameModel { players: f.players, ..s })
            &&& steps <= 255 ==> f.players[p].cash == crate::apply::movement::cash_on_arrival(c, s, p, steps as u8)
                && f.players[p].position == (pos + (steps as u8)) % len
        }),
{
}

/// `s` once each of `seats` other than `p`, in order, has paid `amount`
/// in full to `p`.
pub open spec fn collected(s: GameModel, p: int, amount: int, seats: Seq<usize>) -> GameModel
    decreases seats.len(),
{
    if seats.len() == 0 {
        s
    } else {
        let prev = collected(s, p, amount, seats.drop_last());
        let o = seats.last() as int;
        if o == p || amount <= 0 {
            prev
        } else {
            crate::apply::cash::paid(prev, o, Some(p as usize), amount)
        }
    }
}

/// Each of `seats` other than `p` can pay `amount` above the bankruptcy
/// threshold.
pub open spec fn others_cover(c: &GameContent, s: GameModel, p: int, amount: int, seats: Seq<usize>) -> bool {
    forall|j: int| 0 <= j < seats.len() && seats[j] != p ==> s.players[#[trigger] seats[j] as int].cash >= amount
        + c.rules.bankruptcy_threshold
}

/// Collecting changes only the cash of `p` and of the payers.
proof fn lemma_collected_frame(s: GameModel, p: int, amount: int, seats: Seq<usize>)
    requires
        0 <= p < s.players.len(),
        s.players.len() <= usize::MAX,
        forall|j: int| 0 <= j < seats.len() ==> (#[trigger] seats[j]) < s.players.len(),
    ensures
        collected(s, p, amount, seats) == (GameModel { players: collected(s, p, amount, seats).players, ..s }),
        collected(s, p, amount, seats).players.len() == s.players.len(),
        forall|q: int| 0 <= q < s.players.len() && q != p && !seats.contains(q as usize) ==> #[trigger] collected(
            s,
            p,
            amount,
            seats,
        ).players[q] == s.players[q],
    decreases seats.len(),
{
    if seats.len() > 0 {
        let d = seats.drop_last();
        lemma_collected_frame(s, p, amount, d);
        assert forall|q: int| 0 <= q < s.players.len() && q != p && !seats.contains(q as usize) implies #[trigger] collected(
            s,
            p,
            amount,
            seats,
        ).players[q] == s.players[q] by {
            assert(q as usize != seats.last());
            if d.contains(q as usize) {
                let j = choose|j: int| 0 <= j < d.len() && d[j] == q as usize;
                assert(seats[j] == q as usize);
            }
        }
    }
}

/// How many of `seats` are not `p`.
pub open spec fn count_others(seats: Seq<usize>, p: int) -> int
    decreases seats.len(),
{
    if seats.len() == 0 {
        0
    } else {
        count_others(seats.drop_last(), p) + if seats.last() as int == p {
            0int
        } else {
            1int
        }
    }
}

/// A prefix counts no more payees than the whole list.
proof fn lemma_count_prefix(seats: Seq<usize>, p: int, i: int)
    requires
        0 <= i <= seats.len(),
    ensures
        count_others(seats.take(i), p) <= count_others(seats, p),
    decreases seats.len(),
{
    if i == seats.len() {
        assert(seats.take(i) =~= seats);
    } else {
        let d = seats.drop_last();
        assert(seats.take(i) =~= d.take(i));
        lemma_count_prefix(d, p, i);
    }
}

/// `s` once `p` has paid `amount` in full to each of `seats` other than
/// itself, in order.
pub open spec fn paid_out(s: GameModel, p: int, amount: int, seats: Seq<usize>) -> GameModel
    decreases seats.len(),
{
    if seats.len() == 0 {
        s
    } else {
        let prev = paid_out(s, p, amount, seats.drop_last());
        let o = seats.last() as int;
        if o == p || amount <= 0 {
            prev
        } else {
            crate::apply::cash::paid(prev, p, Some(o as usize), amount)
        }
    }
}

/// Paying out changes only the cash of `p` and of the payees; `p` is out
/// `amount` for each payee so far.
proof fn lemma_paid_out_frame(s: GameModel, p: int, amount: int, seats: Seq<usize>)
    requires
        0 <= p < s.players.len(),
        s.players.len() <= usize::MAX,
        amount > 0,
        forall|j: int| 0 <= j < seats.len() ==> (#[trigger] seats[j]) < s.players.len(),
        i64::MIN <= s.players[p].cash - amount * count_others(seats, p),
    ensures
        paid_out(s, p, amount, seats) == (GameModel { players: paid_out(s, p, amount, seats).players, ..s }),
        paid_out(s, p, amount, seats).players.len() == s.players.len(),
        forall|q: int| 0 <= q < s.players.len() && q != p && !seats.contains(q as usize) ==> #[trigger] paid_out(
            s,
            p,
            amount,
            seats,
        ).players[q] == s.players[q],
        paid_out(s, p, amount, seats).players[p] == (PlayerModel {
            cash: (s.players[p].cash - amount * count_others(seats, p)) as i64,
            ..s.players[p]
        }),
        0 <= count_others(seats, p) <= seats.len(),
    decreases seats.len(),
{
    if seats.len() > 0 {
        let d = seats.drop_last();
        assert(count_others(d, p) <= count_others(seats, p));
        assert(amount * count_others(d, p) <= amount * count_others(seats, p)) by (nonlinear_arith)
            requires
                amount > 0,
                count_others(d, p) <= count_others(seats, p),
        ;
        lemma_paid_out_frame(s, p, amount, d);
        assert(amount * count_others(seats, p) == amount * count_others(d, p) + if seats.last() as int == p {
            0int
        } else {
            amount
        }) by (nonlinear_arith)
            requires
                count_others(seats, p) == count_others(d, p) + if seats.last() as int == p {
                    0int
                } else {
                    1int
                },
        ;
        assert forall|q: int| 0 <= q < s.players.len() && q != p && !seats.contains(q as usize) implies #[trigger] paid_out(
            s,
            p,
            amount,
            seats,
        ).players[q] == s.players[q] by {
            assert(q as usize != seats.last());
            if d.contains(q as usize) {
                let j = choose|j: int| 0 <= j < d.len() && d[j] == q as usize;
                assert(seats[j] == q as usize);
            }
        }
    }
}

/// `f` is `s` once `p` has carried out `card`, drawn at chain depth
/// `depth`: money from the bank, or to it when `p`'s cash covers it above
/// the bankruptcy threshold; a held jail card; jail; a move straight to a
/// tile or by some steps, whose landing is then resolved one level deeper.
/// The turn then awaits its end.
pub open spec fn card_settled<R: RentCalculator>(
    c: &GameContent,
    rent: &R,
    s: GameModel,
    f: GameModel,
    p: int,
    card: crate::content::CardDef,
    depth: int,
) -> bool
    decreases 5 - depth, 0int,
{
    match card.effect {
        CardEffect::Money { amount } => if amount >= 0 {
            &&& i64::MIN <= s.players[p].cash + amount <= i64::MAX
            &&& f == (GameModel { turn: TurnModel::AwaitEnd, ..crate::state::with_cash(s, p, s.players[p].cash + amount) })
        } else {
            s.players[p].cash >= -amount + c.rules.bankruptcy_threshold ==> f == (GameModel {
                turn: TurnModel::AwaitEnd,
                ..crate::apply::cash::paid(s, p, None, -amount)
            })
        },
        CardEffect::GetOutOfJail => f == (GameModel {
            turn: TurnModel::AwaitEnd,
            ..crate::state::with_player(s, p, PlayerModel { jail_cards: (s.players[p].jail_cards + 1) as u8, ..s.players[p] })
        }),
        CardEffect::GoToJail => f.players[p].jailed && f.players[p].jail_route is None && crate::content::is_jail(
            c,
            f.players[p].position as int,
        ) && f.turn == TurnModel::AwaitEnd && f.tiles == s.tiles && f.players[p].bankrupt == s.players[p].bankrupt
            && f.current == s.current,
        CardEffect::CollectFromEach { amount } => {
            let seats = crate::state::alive_upto(s, s.players.len() as int);
            s.phase is Active && others_cover(c, s, p, amount as int, seats) ==> f == (GameModel {
                turn: TurnModel::AwaitEnd,
                ..collected(s, p, amount as int, seats)
            })
        },
        CardEffect::PayEach { amount } => {
            let seats = crate::state::alive_upto(s, s.players.len() as int);
            s.phase is Active && !s.players[p].bankrupt && amount > 0 && s.players[p].cash >= amount * count_others(seats, p)
                + c.rules.bankruptcy_threshold ==> f == (GameModel {
                turn: TurnModel::AwaitEnd,
                ..paid_out(s, p, amount as int, seats)
            })
        },
        CardEffect::MoveTo { tile, collect_go } => 0 <= depth < 5 ==> landed(
            c,
            rent,
            teleported(c, s, p, tile_index_spec(c, tile@)->0 as int, collect_go),
            f,
            p,
            depth + 1,
        ),
        CardEffect::MoveBy { steps } => 0 <= depth < 5 ==> landed(
            c,
            rent,
            if steps >= 0 {
                stepped(c, s, p, steps as int)
            } else {
                teleported(c, s, p, (s.players[p].position + steps) % (c.board@.len() as int), false)
            },
            f,
            p,
            depth + 1,
        ),
        _ => true,
    }
}

/// `f` is `s` once the tile `p` stands on has been resolved at card-chain
/// depth `depth`: past the chain cap the turn just awaits its end; a quiet
/// landing sets the landing's turn; go-to-jail jails; a rival's rent or a
/// fixed tax covered above the bankruptcy threshold is paid in full; a card
/// tile draws the next card of its deck and carries it out.
pub open spec fn landed<R: RentCalculator>(c: &GameContent, rent: &R, s: GameModel, f: GameModel, p: int, depth: int) -> bool
    decreases 5 - depth, 1int,
{
    let t = s.players[p].position as int;
    if depth > MAX_CARD_CHAIN_DEPTH {
        f == (GameModel { turn: TurnModel::AwaitEnd, ..s })
    } else {
        let deck = if c.board@[t].kind is Chance { DeckKind::Chance } else { DeckKind::Community };
        &&& quiet_turn(c, s, p, t) matches Some(tt) ==> f == (GameModel { turn: tt, ..s })
        &&& c.board@[t].kind is GoToJail ==> f.players[p].jailed && crate::content::is_jail(c, f.players[p].position as int)
            && f.turn == TurnModel::AwaitEnd && f.tiles == s.tiles
        &&& c.board@[t].kind is Property && charges_rent(s, p, t) ==> rent_settled(c, s, f, p, t, rent.spec_rent(c, s.tiles, t))
        &&& c.board@[t].kind matches TileKind::Tax { amount } ==> (amount > 0 && s.players[p].cash >= amount
            + c.rules.bankruptcy_threshold ==> f == (GameModel {
            turn: TurnModel::AwaitEnd,
            ..crate::apply::cash::paid(s, p, None, amount as int)
        }))
        &&& (c.board@[t].kind is Chance || c.board@[t].kind is Community) && deck_of(s, deck).order.len() > 0
            ==> card_settled(c, rent, after_draw(s, deck), f, p, next_card(c, s, deck), depth)
        &&& c.board@[t].kind is Spotlight ==> f == (GameModel { turn: TurnModel::AwaitEnd, ..spotlit(c, s) })
        &&& c.board@[t].kind matches TileKind::NetWorthTax { min_pct, max_pct } ==> {
            let a = audit_due(c, s, p, min_pct, max_pct);
            &&& a <= 0 ==> f == (GameModel { turn: TurnModel::AwaitEnd, ..audited(s) })
            &&& a > 0 && s.players[p].cash >= a + c.rules.bankruptcy_threshold ==> f == (GameModel {
                turn: TurnModel::AwaitEnd,
                ..crate::apply::cash::paid(audited(s), p, None, a)
            })
        }
    }
}

/// A landing on property `t` charges rent: a rival owns it unmortgaged and
/// is not serving a Legal Route.
pub open spec fn charges_rent(s: GameModel, p: int, t: int) -> bool {
    match s.tiles[t].owner {
        Some(o) => o != p && !s.tiles[t].mortgaged && s.players[o as int].jail_route is None,
        None => false,
    }
}

/// Rent due on tile `t` from the base rent `base`: raised by the tile's
/// boosts, then scaled by the market event in force and the spotlight.
pub open spec fn rent_due(c: &GameContent, s: GameModel, t: int, base: int) -> int {
    spotlight_scaled(c, s, t, market_scaled(s, MarketEffect::RentMultiplier, boosted(base, s.tiles[t].boosts as int)))
}

/// `s` with the boost of tile `t`, if any, used up.
pub open spec fn unboosted(s: GameModel, t: int) -> GameModel {
    if s.tiles[t].boosts > 0 {
        crate::state::with_tile(s, t, TileState { boosts: 0, ..s.tiles[t] })
    } else {
        s
    }
}

/// `f` is `s` once `p`, landed on `t`, has paid in full the rent due from
/// the base rent `base` and the turn awaits its end; the rent is paid in
/// full whenever the lander's cash covers it above the bankruptcy
/// threshold.
pub open spec fn rent_settled(c: &GameContent, s: GameModel, f: GameModel, p: int, t: int, base: int) -> bool {
    let rent = rent_due(c, s, t, base);
    &&& 0 <= rent <= cash_step()
    &&& s.players[p].cash >= rent + c.rules.bankruptcy_threshold ==> f == (GameModel {
        turn: TurnModel::AwaitEnd,
        ..crate::apply::cash::paid(unboosted(s, t), p, s.tiles[t].owner, rent)
    })
}

/// The announcements of `p` paying rent on `t` from the base rent `base`:
/// the payment, then the boost used up, if there was one.
pub open spec fn rent_events(c: &GameContent, s: GameModel, p: int, t: int, base: int) -> Seq<Event> {
    let paid = seq![Event::RentPaid {
        from: p as usize,
        to: s.tiles[t].owner->0,
        tile: t as usize,
        amount: rent_due(c, s, t, base) as i64,
    }];
    if s.tiles[t].boosts > 0 {
        paid.push(Event::RentBoostConsumed { tile: t as usize })
    } else {
        paid
    }
}

impl<'e, R: RentCalculator, B: BankruptcyResolver> Exec<'e, R, B> {
    /// Landing on a property: an unowned one opens a sealed-bid window with
    /// the lander as discoverer; a rival's unmortgaged one charges rent,
    /// unless its owner serves a Legal Route (visitors play free). A boost
    /// is a one-shot trap: the first boosted rent consumes it.
    pub fn land_on_property(&mut self, p: usize, tile: usize, Ghost(k): Ghost<int>)
        requires
            old(self).ok(k),
            k + 22 <= budget_limit(),
            p < old(self).st@.players.len(),
            is_property(old(self).content, tile as int),
        ensures
            final(self).st@.turn_count == old(self).st@.turn_count,
            final(self).ok(k + 22),
            final(self).kept(old(self)),
            final(self).st@.players.len() == old(self).st@.players.len(),
            cards_low(old(self).st@) ==> cards_low(final(self).st@),
            quiet_turn(old(self).content, old(self).st@, p as int, tile as int) matches Some(t) ==> final(self).st@
                == (GameModel { turn: t, ..old(self).st@ }),
            quiet_events(old(self).content, old(self).st@, p as int, tile as int, old(self).ev@, final(self).ev@),
            ({
                let s = old(self).st@;
                let c = old(self).content;
                let base = old(self).rent.spec_rent(c, s.tiles, tile as int);
                charges_rent(s, p as int, tile as int) ==> rent_settled(c, s, final(self).st@, p as int, tile as int, base)
                    && (s.players[p as int].cash >= rent_due(c, s, tile as int, base) + c.rules.bankruptcy_threshold
                    ==> final(self).ev@ == old(self).ev@ + rent_events(c, s, p as int, tile as int, base))
            }),
    {
        let content = self.content;
        let ghost s0 = self.st@;
        let prop = content.property(tile).unwrap();
        let n = self.st.players.len();
        proof {
            assert(crate::state::tile_fits(content.board@[tile as int]));
        }
        match self.st.tiles[tile].owner {
            None => {
                self.ev.push(Event::BlindAuctionOpened { tile, discoverer: p, floor: prop.price });
                let mut bids: Vec<Option<i64>> = Vec::new();
                let mut i: usize = 0;
                while i < n
                    invariant
                        i <= n,
                        bids@.len() == i,
                        forall|j: int| 0 <= j < i ==> bids@[j] is None,
                    decreases n - i,
                {
                    bids.push(None);
                    i = i + 1;
                }
                self.st.set_turn(TurnPhase::BlindAuction { tile, bids });
                proof {
                    lemma_bounded_mono(self.st@, k, k + 22);
                    assert(bids@ =~= Seq::new(n as nat, |i: int| None::<i64>));
                }
            },
            Some(owner) => {
                let ts = self.st.tiles[tile];
                if owner == p || ts.mortgaged || self.st.players[owner].jail_route.is_some() {
                    self.st.set_turn(TurnPhase::AwaitEnd);
                    proof {
                        lemma_bounded_mono(self.st@, k, k + 22);
                    }
                } else {
                    let base = self.rent.rent(content, &self.st, tile);
                    let rent = Self::boosted_rent(base, ts.boosts);
                    let rent = self.apply_market_multiplier(MarketEffect::RentMultiplier, rent);
                    let rent = self.apply_spotlight_multiplier(tile, rent);
                    let ghost e0 = self.ev@;
                    self.ev.push(Event::RentPaid { from: p, to: owner, tile, amount: rent });
                    if ts.boosts > 0 {
                        let nts = TileState { boosts: 0, ..ts };
                        proof {
                            lemma_tile_ready(content, self.st@, tile as int, nts, k);
                            crate::state::lemma_held_update(self.st@.tiles, crate::state::cap_of(content), tile as int, nts, self.st@.tiles.len() as int);
                        }
                        self.st.set_tile(tile, nts);
                        self.ev.push(Event::RentBoostConsumed { tile });
                    }
                    proof {
                        assert(rent == rent_due(content, s0, tile as int, base as int));
                        assert(self.st@ == unboosted(s0, tile as int));
                        assert(self.st@.players == s0.players);
                    }
                    let ghost s1 = self.st@;
                    self.charge(p, Some(owner), rent, Ghost(k));
                    let ghost s2 = self.st@;
                    self.st.set_turn(TurnPhase::AwaitEnd);
                    proof {
                        if s0.players[p as int].cash >= rent + content.rules.bankruptcy_threshold {
                            assert(rent > 0 ==> s2 == crate::apply::cash::paid(s1, p as int, Some(owner), rent as int));
                            if rent <= 0 {
                                assert(s2 == s1);
                                assert(crate::apply::cash::paid(s1, p as int, Some(owner), rent as int).players =~= s1.players);
                            }
                            assert(self.st@ == (GameModel { turn: TurnModel::AwaitEnd, ..crate::apply::cash::paid(s1, p as int, Some(owner), rent as int) }));
                        }
                        assert(base == self.rent.spec_rent(content, s0.tiles, tile as int));
                        assert(0 <= base <= 2 * amount_limit());
                        if s0.players[p as int].cash >= rent + content.rules.bankruptcy_threshold {
                            assert(self.ev@ =~= e0 + rent_events(content, s0, p as int, tile as int, base as int));
                        }
                    }
                }
            },
        }
    }

    /// Draws the next card of `deck` and applies it.
    pub fn draw_card(&mut self, p: usize, deck: DeckKind, depth: u8, Ghost(k): Ghost<int>)
        requires
            !old(self).st@.players[p as int].bankrupt,
            old(self).ok(k),
            depth <= 4,
            k + land_cost(depth as int) <= budget_limit(),
            p < old(self).st@.players.len(),
            cards_low(old(self).st@),
        ensures
            final(self).st@.turn_count == old(self).st@.turn_count,
            final(self).ok(k + land_cost(depth as int)),
            final(self).kept(old(self)),
            final(self).st@.players.len() == old(self).st@.players.len(),
            deck_of(old(self).st@, deck).order.len() > 0 ==> card_settled(
                old(self).content,
                old(self).rent,
                after_draw(old(self).st@, deck),
                final(self).st@,
                p as int,
                next_card(old(self).content, old(self).st@, deck),
                depth as int,
            ),
            deck_of(old(self).st@, deck).order.len() > 0 ==> ({
                let card = next_card(old(self).content, old(self).st@, deck);
                let n = old(self).ev@.len() as int;
                &&& n < final(self).ev@.len()
                &&& reports_draw(final(self).ev@[n], p as int, deck, card)
                &&& card_events(old(self).content, old(self).st@, p as int, card, old(self).ev@.push(final(self).ev@[n]), final(self).ev@)
            }),
        decreases 5 - depth, 1int,
    {
        let content = self.content;
        let ghost s0 = self.st@;
        let idx = match deck {
            DeckKind::Chance => self.st.chance_deck.draw(),
            DeckKind::Community => self.st.community_deck.draw(),
        };
        proof {
            assert(self.st@ == (GameModel { chance_deck: self.st@.chance_deck, community_deck: self.st@.community_deck, ..s0 }));
            assert(state_wf(content, self.st@));
        }
        let i = match idx {
            Some(i) => i,
            None => {
                // Validated content never gets here: an empty deck is a no-op.
                self.st.set_turn(TurnPhase::AwaitEnd);
                proof {
                    lemma_bounded_mono(self.st@, k, k + land_cost(depth as int));
                }
                return;
            },
        };
        proof {
            lemma_valid_content(content);
        }
        let card = match deck {
            DeckKind::Chance => {
                proof {
                    assert(s0.chance_deck.order[s0.chance_deck.next as int] < content.chance@.len());
                }
                &content.chance[i]
            },
            DeckKind::Community => {
                proof {
                    assert(s0.community_deck.order[s0.community_deck.next as int] < content.community@.len());
                }
                &content.community[i]
            },
        };
        proof {
            assert(crate::state::card_fits(*card));
            assert(card_error(content, *card) is None);
        }
        proof {
            assert(self.st@ == after_draw(s0, deck));
            assert(*card == next_card(content, s0, deck));
        }
        self.ev.push(Event::CardDrawn { player: p, deck, card: card.id.clone(), text: card.text.clone() });
        self.apply_card_effect(p, card, depth, Ghost(k));
    }

    /// Applies a drawn card's effect; moves resolve the landing one level
    /// deeper in the chain.
    #[verifier::spinoff_prover]
    #[verifier::rlimit(60)]
    pub fn apply_card_effect(&mut self, p: usize, card: &crate::content::CardDef, depth: u8, Ghost(k): Ghost<int>)
        requires
            !old(self).st@.players[p as int].bankrupt,
            old(self).ok(k),
            depth <= 4,
            k + land_cost(depth as int) <= budget_limit(),
            p < old(self).st@.players.len(),
            cards_low(old(self).st@),
            crate::state::card_fits(*card),
            card_error(old(self).content, *card) is None,
        ensures
            final(self).st@.turn_count == old(self).st@.turn_count,
            final(self).ok(k + land_cost(depth as int)),
            final(self).kept(old(self)),
            final(self).st@.players.len() == old(self).st@.players.len(),
            card_settled(old(self).content, old(self).rent, old(self).st@, final(self).st@, p as int, *card, depth as int),
            card_events(old(self).content, old(self).st@, p as int, *card, old(self).ev@, final(self).ev@),
        decreases 5 - depth, 0int,
    {
        let content = self.content;
        let ghost kk = k + land_cost(depth as int);
        match &card.effect {
            CardEffect::Money { amount } => {
                let amount = *amount;
                if amount >= 0 {
                    let cash = self.st.players[p].cash;
                    proof {
                        assert(player_bounded(self.st@.players[p as int], k));
                        lemma_bounded_mono(self.st@, k, k + 1);
                        lemma_cash_ready(content, self.st@, p as int, cash + amount, k + 1);
                    }
                    self.st.set_cash(p, cash + amount);
                    self.ev.push(Event::CashAdjusted { player: p, delta: amount, reason: card.id.clone() });
                    proof {
                        lemma_bounded_mono(self.st@, k + 1, kk);
                    }
                } else {
                    self.ev.push(Event::CashAdjusted { player: p, delta: amount, reason: card.id.clone() });
                    self.charge(p, None, -amount, Ghost(k));
                    proof {
                        lemma_bounded_mono(self.st@, k + 22, kk);
                    }
                }
                self.st.set_turn(TurnPhase::AwaitEnd);
            },
            CardEffect::MoveTo { tile, collect_go } => {
                let to = content.tile_index(tile.as_str()).unwrap();
                let ghost s0 = self.st@;
                self.teleport(p, to, *collect_go, Ghost(k));
                proof {
                    assert(to == tile_index_spec(content, tile@)->0);
                    assert(self.st@ == teleported(content, s0, p as int, to as int, *collect_go));
                }
                self.resolve_landing(p, depth + 1, Ghost(k + 1));
                proof {
                    lemma_bounded_mono(self.st@, k + 1 + land_cost(depth + 1), kk);
                }
            },
            CardEffect::MoveBy { steps } => {
                let steps = *steps;
                let ghost s0 = self.st@;
                if steps >= 0 {
                    self.move_forward(p, steps as usize, Ghost(k));
                    proof {
                        assert(self.st@ == stepped(content, s0, p as int, steps as int));
                    }
                } else {
                    let len = content.board.len();
                    let from = self.st.players[p].position;
                    let back = ((-(steps as i16)) as usize) % len;
                    proof {
                        assert(from < len);
                        lemma_wrap_back(from as int, steps as int, len as int, back as int);
                    }
                    let to = (from + len - back) % len;
                    self.teleport(p, to, false, Ghost(k));
                    proof {
                        assert(to as int == (s0.players[p as int].position + steps) % (content.board@.len() as int));
                        assert(self.st@ == teleported(content, s0, p as int, (s0.players[p as int].position + steps) % (content.board@.len() as int), false));
                    }
                }
                self.resolve_landing(p, depth + 1, Ghost(k + 1));
                proof {
                    lemma_bounded_mono(self.st@, k + 1 + land_cost(depth + 1), kk);
                }
            },
            CardEffect::GoToJail => {
                self.go_to_jail(p, Ghost(k));
                self.st.set_turn(TurnPhase::AwaitEnd);
                proof {
                    lemma_bounded_mono(self.st@, k + 2, kk);
                }
            },
            CardEffect::GetOutOfJail => {
                let mut pl = self.st.players[p].copy_of();
                proof {
                    assert(player_bounded(self.st@.players[p as int], k));
                    assert(self.st@.players[p as int].jail_cards <= 204);
                }
                pl.jail_cards = pl.jail_cards + 1;
                proof {
                    lemma_player_ready(content, self.st@, p as int, pl@, k);
                }
                self.st.set_player(p, pl);
                self.ev.push(Event::JailCardReceived { player: p });
                self.st.set_turn(TurnPhase::AwaitEnd);
                proof {
                    lemma_bounded_mono(self.st@, k, kk);
                }
            },
            CardEffect::CollectFromEach { amount } => {
                let amount = *amount;
                let ghost s0 = self.st@;
                let others = self.st.alive_players();
                proof {
                    crate::state::lemma_alive_upto(self.st@, self.st@.players.len() as int);
                    crate::apply::turn::lemma_alive_increasing(s0, s0.players.len() as int);
                    assert(others@.take(0) =~= Seq::<usize>::empty());
                }
                let m = others.len();
                let mut i: usize = 0;
                while i < m
                    invariant
                        m == others@.len(),
                        m <= 64,
                        i <= m,
                        self.ok(k + 22 * i),
                        self.kept(old(self)),
                        self.st@.players.len() == old(self).st@.players.len(),
                        forall|j: int| 0 <= j < m ==> (#[trigger] others@[j]) < self.st@.players.len(),
                        p < self.st@.players.len(),
                        within(amount as int, amount_limit()),
                        k + land_cost(depth as int) <= budget_limit(),
                        land_cost(depth as int) >= 1500,
                        kk == k + land_cost(depth as int),
                        card.effect == (CardEffect::CollectFromEach { amount }),
                        s0 == old(self).st@,
                        !self.st@.players[p as int].bankrupt,
                        self.st@.turn_count == s0.turn_count,
                        others@ == crate::state::alive_upto(s0, s0.players.len() as int),
                        forall|a: int, b: int| 0 <= a < b < m ==> others@[a] < others@[b],
                        s0.phase is Active && others_cover(self.content, s0, p as int, amount as int, others@) ==> self.st@
                            == collected(s0, p as int, amount as int, others@.take(i as int)),
                    decreases m - i,
                {
                    let o = others[i];
                    let ghost pre = self.st@;
                    proof {
                        if s0.phase is Active && others_cover(self.content, s0, p as int, amount as int, others@) {
                            let t = others@.take(i as int);
                            lemma_collected_frame(s0, p as int, amount as int, t);
                            if o != p {
                                assert(!t.contains(o)) by {
                                    if t.contains(o) {
                                        let j = choose|j: int| 0 <= j < t.len() && t[j] == o;
                                        assert(others@[j] < others@[i as int]);
                                    }
                                }
                                assert(pre.players[o as int] == s0.players[o as int]);
                                assert(s0.players[others@[i as int] as int].cash >= amount + self.content.rules.bankruptcy_threshold);
                            }
                            assert(others@.take(i + 1).drop_last() =~= t);
                            assert(others@.take(i + 1).last() == o);
                        }
                    }
                    if o != p {
                        self.ev.push(Event::CashAdjusted { player: o, delta: -amount, reason: card.id.clone() });
                        self.charge(o, Some(p), amount, Ghost(k + 22 * i));
                        proof {
                            if s0.phase is Active && others_cover(self.content, s0, p as int, amount as int, others@) {
                                if amount > 0 {
                                    assert(self.st@ == crate::apply::cash::paid(pre, o as int, Some(p), amount as int));
                                }
                                assert(self.st@.phase == s0.phase);
                            }
                        }
                        if matches!(self.st.phase, crate::state::GamePhase::Finished { .. }) {
                            proof {
                                lemma_bounded_mono(self.st@, k + 22 * i + 22, kk);
                            }
                            return;
                        }
                    } else {
                        proof {
                            lemma_bounded_mono(self.st@, k + 22 * i, k + 22 * i + 22);
                        }
                    }
                    proof {
                        if s0.phase is Active && others_cover(self.content, s0, p as int, amount as int, others@) {
                            assert(self.st@ == collected(s0, p as int, amount as int, others@.take(i + 1)));
                        }
                    }
                    i = i + 1;
                }
                self.st.set_turn(TurnPhase::AwaitEnd);
                proof {
                    lemma_bounded_mono(self.st@, k + 22 * m, kk);
                    assert(others@.take(m as int) =~= others@);
                }
            },
            CardEffect::PayEach { amount } => {
                self.pay_each(p, &card.id, *amount, Ghost(k), Ghost(kk));
            },
        }
    }
}

impl<'e, R: RentCalculator, B: BankruptcyResolver> Exec<'e, R, B> {
    /// `p` pays `amount` to every other living seat in seat order, as a
    /// card asks; it stops once `p` is bankrupt or the game is over, and
    /// otherwise leaves the turn awaiting its end.
    #[verifier::spinoff_prover]
    #[verifier::rlimit(60)]
    fn pay_each(&mut self, p: usize, reason: &String, amount: i64, Ghost(k): Ghost<int>, Ghost(kk): Ghost<int>)
        requires
            old(self).ok(k),
            k + 1500 <= kk <= budget_limit(),
            p < old(self).st@.players.len(),
            within(amount as int, amount_limit()),
        ensures
            final(self).st@.turn_count == old(self).st@.turn_count,
            final(self).ok(kk),
            final(self).kept(old(self)),
            final(self).st@.players.len() == old(self).st@.players.len(),
            ({
                let s = old(self).st@;
                let seats = crate::state::alive_upto(s, s.players.len() as int);
                s.phase is Active && !s.players[p as int].bankrupt && amount > 0 && s.players[p as int].cash >= amount
                    * count_others(seats, p as int) + old(self).content.rules.bankruptcy_threshold ==> final(self).st@ == (GameModel {
                    turn: TurnModel::AwaitEnd,
                    ..paid_out(s, p as int, amount as int, seats)
                })
            }),
    {
        let ghost s0 = self.st@;
        let others = self.st.alive_players();
        proof {
            crate::state::lemma_alive_upto(self.st@, self.st@.players.len() as int);
            crate::apply::turn::lemma_alive_increasing(s0, s0.players.len() as int);
            assert(others@.take(0) =~= Seq::<usize>::empty());
        }
        let ghost cond = s0.phase is Active && !s0.players[p as int].bankrupt && amount > 0 && s0.players[p as int].cash
            >= amount * count_others(others@, p as int) + self.content.rules.bankruptcy_threshold;
        let m = others.len();
        let mut i: usize = 0;
        while i < m
            invariant
                m == others@.len(),
                m <= 64,
                i <= m,
                self.ok(k + 22 * i),
                self.st@.turn_count == s0.turn_count,
                forall|q: int| 0 <= q < s0.players.len() && q != p ==> #[trigger] self.st@.players[q].bankrupt == s0.players[q].bankrupt,
                self.kept(old(self)),
                self.st@.players.len() == old(self).st@.players.len(),
                forall|j: int| 0 <= j < m ==> (#[trigger] others@[j]) < self.st@.players.len(),
                p < self.st@.players.len(),
                within(amount as int, amount_limit()),
                k + 1500 <= kk <= budget_limit(),
                s0 == old(self).st@,
                others@ == crate::state::alive_upto(s0, s0.players.len() as int),
                forall|a: int, b: int| 0 <= a < b < m ==> others@[a] < others@[b],
                cond == (s0.phase is Active && !s0.players[p as int].bankrupt && amount > 0 && s0.players[p as int].cash
                    >= amount * count_others(others@, p as int) + self.content.rules.bankruptcy_threshold),
                cond ==> self.st@ == paid_out(s0, p as int, amount as int, others@.take(i as int)),
            decreases m - i,
        {
            let o = others[i];
            let ghost pre = self.st@;
            proof {
                if cond {
                    let t = others@.take(i as int);
                    lemma_count_prefix(others@, p as int, i as int);
                    assert(amount * count_others(t, p as int) <= amount * count_others(others@, p as int)) by (nonlinear_arith)
                        requires
                            amount > 0,
                            count_others(t, p as int) <= count_others(others@, p as int),
                    ;
                    lemma_paid_out_frame(s0, p as int, amount as int, t);
                    assert(others@.take(i + 1).drop_last() =~= t);
                    assert(others@.take(i + 1).last() == o);
                    if o != p {
                        assert(!t.contains(o)) by {
                            if t.contains(o) {
                                let j = choose|j: int| 0 <= j < t.len() && t[j] == o;
                                assert(others@[j] < others@[i as int]);
                            }
                        }
                        assert(pre.players[o as int] == s0.players[o as int]);
                        lemma_count_prefix(others@, p as int, i + 1);
                        assert(count_others(others@.take(i + 1), p as int) == count_others(t, p as int) + 1);
                        assert(amount * (count_others(t, p as int) + 1) <= amount * count_others(others@, p as int)) by (nonlinear_arith)
                            requires
                                amount > 0,
                                count_others(t, p as int) + 1 <= count_others(others@, p as int),
                        ;
                        assert(pre.players[p as int].cash >= amount + self.content.rules.bankruptcy_threshold) by (nonlinear_arith)
                            requires
                                pre.players[p as int].cash == s0.players[p as int].cash - amount * count_others(t, p as int),
                                s0.players[p as int].cash >= amount * count_others(others@, p as int) + self.content.rules.bankruptcy_threshold,
                                amount * (count_others(t, p as int) + 1) <= amount * count_others(others@, p as int),
                        ;
                    }
                }
            }
            if o != p {
                self.ev.push(Event::CashAdjusted { player: p, delta: -amount, reason: reason.clone() });
                proof {
                    crate::state::lemma_alive_upto(s0, s0.players.len() as int);
                    assert(others@[i as int] == o);
                    assert(alive(s0, o as int));
                    assert(self.st@.players[o as int].bankrupt == s0.players[o as int].bankrupt);
                }
                self.charge(p, Some(o), amount, Ghost(k + 22 * i));
                proof {
                    if cond {
                        assert(self.st@ == crate::apply::cash::paid(pre, p as int, Some(o), amount as int));
                        assert(self.st@.phase == s0.phase);
                        assert(!self.st@.players[p as int].bankrupt);
                    }
                }
                if self.st.players[p].bankrupt || matches!(self.st.phase, crate::state::GamePhase::Finished { .. }) {
                    proof {
                        lemma_bounded_mono(self.st@, k + 22 * i + 22, kk);
                    }
                    return;
                }
            } else {
                proof {
                    lemma_bounded_mono(self.st@, k + 22 * i, k + 22 * i + 22);
                }
            }
            proof {
                if cond {
                    assert(self.st@ == paid_out(s0, p as int, amount as int, others@.take(i + 1)));
                }
            }
            i = i + 1;
        }
        self.st.set_turn(TurnPhase::AwaitEnd);
        proof {
            lemma_bounded_mono(self.st@, k + 22 * m, kk);
            assert(others@.take(m as int) =~= others@);
        }
    }
}

} // verus!
