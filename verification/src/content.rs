//! Static game content, resolved once at room creation by the mod layer.
//!
//! The engine never hardcodes game data: every tile, card, and rule parameter
//! is resolved through this structure. Immutable for the lifetime of a room.
use vstd::prelude::*;

use crate::error::ContentError;

verus! {

/// Compares two string slices character by character.
pub(crate) fn str_eq(a: &str, b: &str) -> (r: bool)
    ensures
        r == (a@ == b@),
{
    let x = crate::mods::chars_of(a);
    let y = crate::mods::chars_of(b);
    if x.len() != y.len() {
        return false;
    }
    let mut i: usize = 0;
    while i < x.len()
        invariant
            i <= x@.len() == y@.len(),
            x@ == a@,
            y@ == b@,
            forall|j: int| 0 <= j < i ==> x@[j] == y@[j],
        decreases x@.len() - i,
    {
        if x[i] != y[i] {
            return false;
        }
        i = i + 1;
    }
    assert(x@ =~= y@);
    true
}

#[derive(Debug, Clone, PartialEq, Eq)]
pub struct GameContent {
    /// Board tiles in play order. Invariant: `board[0]` is the Go tile.
    pub board: Vec<TileDef>,
    pub chance: Vec<CardDef>,
    pub community: Vec<CardDef>,
    pub rules: RuleParams,
    /// Pool of market events the public forecast draws from; an empty pool
    /// leaves the forecast fully inert.
    pub market_events: Vec<MarketEventDef>,
    /// Turns between one scheduled market event and the next.
    pub forecast_gap_turns: u32,
}

#[derive(Debug, Clone, PartialEq, Eq)]
pub struct TileDef {
    /// Stable string key. Mods replace tiles by id (last-loaded-wins).
    pub id: String,
    pub name: String,
    pub kind: TileKind,
}

#[derive(Debug, Clone, PartialEq, Eq)]
pub enum TileKind {
    Go,
    Property(PropertyDef),
    Chance,
    Community,
    Tax { amount: i64 },
    Jail,
    GoToJail,
    FreeParking,
    /// The Exposition corner: landing here puts a random property tile in
    /// the spotlight (boosted rent for a while).
    Spotlight,
    /// Progressive audit: the lander pays a seeded-random percent of their
    /// net worth in `min_pct..=max_pct`, heavier brackets being rarer.
    NetWorthTax { min_pct: u8, max_pct: u8 },
}

#[derive(Debug, Clone, PartialEq, Eq)]
pub struct PropertyDef {
    /// Colour group key. Owning a full group doubles unimproved rent and
    /// unlocks building.
    pub group: String,
    pub price: i64,
    /// Ignored (and building rejected) unless `rent_model` is `Houses`.
    pub house_cost: i64,
    /// `Houses`: rent by house count, `rents[0]` unimproved .. `rents[5]`;
    /// `GroupScaled`: `rents[n-1]` where n = tiles of the group owned.
    pub rents: [i64; 6],
    pub rent_model: RentModel,
}

/// How rent is computed (stations use the scaled model).
#[derive(Debug, Clone, Copy, PartialEq, Eq, Structural)]
pub enum RentModel {
    Houses,
    GroupScaled,
}

impl Default for RentModel {
    fn default() -> (r: Self)
        ensures
            r == RentModel::Houses,
    {
        RentModel::Houses
    }
}

#[derive(Debug, Clone, PartialEq, Eq)]
pub struct CardDef {
    pub id: String,
    pub text: String,
    pub effect: CardEffect,
}

#[derive(Debug, Clone, PartialEq, Eq)]
pub enum CardEffect {
    /// Positive: bank pays the player. Negative: player pays the bank.
    Money { amount: i64 },
    MoveTo { tile: String, collect_go: bool },
    /// Relative move; negative steps move backward (no Go salary backward).
    MoveBy { steps: i8 },
    GoToJail,
    /// Holdable: increments the drawer's `jail_cards` count.
    GetOutOfJail,
    CollectFromEach { amount: i64 },
    PayEach { amount: i64 },
}

/// A scheduled market event definition.
#[derive(Debug, Clone, PartialEq, Eq)]
pub struct MarketEventDef {
    pub id: String,
    pub name: String,
    pub effect: MarketEffect,
    /// Percent applied to the affected amount; negative for a cut.
    pub magnitude_pct: i64,
    /// Turns the effect stays active once it fires; `0` marks a one-shot.
    pub duration_turns: u32,
}

/// What a market event does while active.
#[derive(Debug, Clone, Copy, PartialEq, Eq, Structural)]
pub enum MarketEffect {
    /// Scales rent on landing, composing with the rent boost.
    RentMultiplier,
    /// Scales takeover cost and sealed-bid settlement prices.
    AcquisitionMultiplier,
    /// One-shot: every alive player pays `net_worth * magnitude_pct / 100`.
    WealthTax,
}

/// Named rule parameters.
#[derive(Debug, Clone, Copy, PartialEq, Eq)]
pub struct RuleParams {
    pub starting_balance: i64,
    pub go_salary: i64,
    /// Build limit per property; house level 5 renders as a hotel.
    pub max_houses_per_property: u8,
    /// Cash floor after liquidation below which a player goes bankrupt.
    pub bankruptcy_threshold: i64,
    /// Expropriation cost as a percent of the target's price; 0 disables.
    pub expropriation: i64,
    /// Rent-boost cost as a percent of the tile's price, per boost; 0 disables.
    pub rent_boost: i64,
    /// Instant win by owning this many complete colour groups; 0 disables.
    pub win_full_groups: i64,
    /// Race to this many victory points; 0 disables.
    pub win_victory_points: i64,
    /// Shared subsidiary-pool sizing factor; 0 disables pooling.
    pub subsidiary_pool_factor: i64,
    /// Shared conglomerate-pool sizing factor; 0 disables pooling.
    pub conglomerate_pool_factor: i64,
    /// Rent bonus percent while a property is in the spotlight; 0 disables.
    pub spotlight_rent_pct: i64,
    /// Turns a spotlight stays active once drawn; `<= 0` = permanent.
    pub spotlight_duration_turns: i64,
    /// The movement hand is every integer in `velocity_min..=velocity_max`.
    pub velocity_min: u8,
    pub velocity_max: u8,
}

pub open spec fn default_rules() -> RuleParams {
    RuleParams {
        starting_balance: 1500,
        go_salary: 200,
        max_houses_per_property: 5,
        bankruptcy_threshold: 0,
        expropriation: 0,
        rent_boost: 0,
        win_full_groups: 0,
        win_victory_points: 0,
        subsidiary_pool_factor: 0,
        conglomerate_pool_factor: 0,
        spotlight_rent_pct: 0,
        spotlight_duration_turns: 0,
        velocity_min: 1,
        velocity_max: 5,
    }
}

impl Default for RuleParams {
    fn default() -> (r: Self)
        ensures
            r == default_rules(),
    {
        RuleParams {
            starting_balance: 1500,
            go_salary: 200,
            max_houses_per_property: 5,
            bankruptcy_threshold: 0,
            expropriation: 0,
            rent_boost: 0,
            win_full_groups: 0,
            win_victory_points: 0,
            subsidiary_pool_factor: 0,
            conglomerate_pool_factor: 0,
            spotlight_rent_pct: 0,
            spotlight_duration_turns: 0,
            velocity_min: 1,
            velocity_max: 5,
        }
    }
}

// -- Content predicates ---------------------------------------------------

pub open spec fn is_property(c: &GameContent, i: int) -> bool {
    0 <= i < c.board@.len() && c.board@[i].kind is Property
}

pub open spec fn prop_of(c: &GameContent, i: int) -> PropertyDef {
    c.board@[i].kind->Property_0
}

/// Tile `i` is a property of colour group `g`.
pub open spec fn in_group(c: &GameContent, i: int, g: Seq<char>) -> bool {
    is_property(c, i) && prop_of(c, i).group@ == g
}

/// Index of the first board tile whose id is `id`, if any.
pub open spec fn tile_index_spec(c: &GameContent, id: Seq<char>) -> Option<usize> {
    if exists|i: int| 0 <= i < c.board@.len() && c.board@[i].id@ == id {
        let i = choose|i: int|
            0 <= i < c.board@.len() && c.board@[i].id@ == id && forall|j: int|
                0 <= j < i ==> c.board@[j].id@ != id;
        Some(i as usize)
    } else {
        None
    }
}

pub open spec fn count_jails(board: Seq<TileDef>) -> nat
    decreases board.len(),
{
    if board.len() == 0 {
        0
    } else {
        count_jails(board.drop_last()) + if board.last().kind is Jail {
            1nat
        } else {
            0nat
        }
    }
}

pub open spec fn is_jail(c: &GameContent, i: int) -> bool {
    0 <= i < c.board@.len() && c.board@[i].kind is Jail
}

/// The problem with board tile `i` on its own, checked in order: a
/// duplicate id, a non-positive price or house cost, a bad audit bracket.
pub open spec fn tile_error(c: &GameContent, i: int) -> Option<ContentError> {
    let t = c.board@[i];
    if exists|j: int| 0 <= j < i && c.board@[j].id@ == t.id@ {
        Some(ContentError::DuplicateTileId(t.id))
    } else if t.kind is Property && (t.kind->Property_0.price <= 0 || (
    t.kind->Property_0.rent_model == RentModel::Houses && t.kind->Property_0.house_cost <= 0)) {
        Some(ContentError::InvalidProperty(t.id))
    } else if t.kind is NetWorthTax && (t.kind->min_pct < 1 || t.kind->min_pct > t.kind->max_pct
        || t.kind->max_pct > 100) {
        Some(ContentError::InvalidNetWorthTax(t.id))
    } else {
        None
    }
}

/// The first tile problem at or after index `i`.
pub open spec fn tiles_error_from(c: &GameContent, i: int) -> Option<ContentError>
    decreases c.board@.len() - i,
{
    if i < 0 || i >= c.board@.len() {
        None
    } else if tile_error(c, i) is Some {
        tile_error(c, i)
    } else {
        tiles_error_from(c, i + 1)
    }
}

pub open spec fn card_error(c: &GameContent, card: CardDef) -> Option<ContentError> {
    match card.effect {
        CardEffect::MoveTo { tile, .. } => if tile_index_spec(c, tile@) is None {
            Some(ContentError::CardTargetsUnknownTile { card: card.id, tile: tile })
        } else {
            None
        },
        _ => None,
    }
}

/// The first card (chance deck, then community deck) at or after `i` in
/// `cards` whose move targets a tile missing from the board.
pub open spec fn cards_error_from(c: &GameContent, cards: Seq<CardDef>, i: int) -> Option<
    ContentError,
>
    decreases cards.len() - i,
{
    if i < 0 || i >= cards.len() {
        None
    } else if card_error(c, cards[i]) is Some {
        card_error(c, cards[i])
    } else {
        cards_error_from(c, cards, i + 1)
    }
}

pub open spec fn has_kind_chance(c: &GameContent) -> bool {
    exists|i: int| 0 <= i < c.board@.len() && c.board@[i].kind is Chance
}

pub open spec fn has_kind_community(c: &GameContent) -> bool {
    exists|i: int| 0 <= i < c.board@.len() && c.board@[i].kind is Community
}

/// Indices below `n` of the tiles of colour group `g`, in board order.
pub open spec fn group_upto(c: &GameContent, g: Seq<char>, n: int) -> Seq<usize>
    decreases n,
{
    if n <= 0 {
        Seq::empty()
    } else if in_group(c, n - 1, g) {
        group_upto(c, g, n - 1).push((n - 1) as usize)
    } else {
        group_upto(c, g, n - 1)
    }
}

/// Indices below `n` of the property tiles, in board order.
pub open spec fn props_upto(c: &GameContent, n: int) -> Seq<usize>
    decreases n,
{
    if n <= 0 {
        Seq::empty()
    } else if is_property(c, n - 1) {
        props_upto(c, n - 1).push((n - 1) as usize)
    } else {
        props_upto(c, n - 1)
    }
}

/// The first violated board invariant, in the order they are checked.
pub open spec fn validation_error(c: &GameContent) -> Option<ContentError> {
    if c.board@.len() == 0 {
        Some(ContentError::EmptyBoard)
    } else if !(c.board@[0].kind is Go) {
        Some(ContentError::FirstTileNotGo)
    } else if c.rules.velocity_min < 1 || c.rules.velocity_max <= c.rules.velocity_min {
        Some(ContentError::InvalidVelocityRange)
    } else if count_jails(c.board@) != 1 {
        Some(ContentError::JailTileCount(count_jails(c.board@) as usize))
    } else if has_kind_chance(c) && c.chance@.len() == 0 {
        Some(ContentError::EmptyDeck("chance"))
    } else if has_kind_community(c) && c.community@.len() == 0 {
        Some(ContentError::EmptyDeck("community"))
    } else if tiles_error_from(c, 0) is Some {
        tiles_error_from(c, 0)
    } else {
        cards_error_from(c, c.chance@ + c.community@, 0)
    }
}

/// Every board tile passes its own checks: ids distinct, properties
/// priced (with a house cost under the house model), audit brackets within
/// `1..=100` and ordered.
pub open spec fn tiles_sound(c: &GameContent) -> bool {
    &&& forall|i: int, j: int| 0 <= j < i < c.board@.len() ==> #[trigger] c.board@[j].id@ != #[trigger] c.board@[i].id@
    &&& forall|i: int| 0 <= i < c.board@.len() && (#[trigger] c.board@[i]).kind is Property ==> c.board@[i].kind->Property_0.price
        > 0 && (c.board@[i].kind->Property_0.rent_model == RentModel::Houses ==> c.board@[i].kind->Property_0.house_cost > 0)
    &&& forall|i: int| 0 <= i < c.board@.len() && (#[trigger] c.board@[i]).kind is NetWorthTax ==> 1 <= c.board@[i].kind->min_pct
        <= c.board@[i].kind->max_pct <= 100
}

/// Every card that moves a token names a tile of the board.
pub open spec fn cards_sound(c: &GameContent, cards: Seq<CardDef>) -> bool {
    forall|k: int| 0 <= k < cards.len() && (#[trigger] cards[k]).effect is MoveTo ==> tile_index_spec(c, cards[k].effect->tile@)
        is Some
}

/// Law: content is valid exactly when the board is non-empty and starts
/// on Go, the velocity range is `1 <= min < max`, there is exactly one jail,
/// a deck drawn from the board is non-empty, the tiles pass their checks and
/// every moving card names a board tile.
pub proof fn law_valid_content(c: &GameContent)
    ensures
        content_valid(c) <==> {
            &&& c.board@.len() > 0
            &&& c.board@[0].kind is Go
            &&& 1 <= c.rules.velocity_min < c.rules.velocity_max
            &&& count_jails(c.board@) == 1
            &&& has_kind_chance(c) ==> c.chance@.len() > 0
            &&& has_kind_community(c) ==> c.community@.len() > 0
            &&& tiles_sound(c)
            &&& cards_sound(c, c.chance@ + c.community@)
        },
{
    lemma_tiles_none_iff(c, 0);
    lemma_cards_none_iff(c, c.chance@ + c.community@, 0);
    if tiles_sound(c) {
        assert forall|i: int| 0 <= i < c.board@.len() implies tile_error(c, i) is None by {
            let t = c.board@[i];
            if exists|j: int| 0 <= j < i && c.board@[j].id@ == t.id@ {
                let j = choose|j: int| 0 <= j < i && c.board@[j].id@ == t.id@;
                assert(c.board@[j].id@ != c.board@[i].id@);
            }
        }
    }
    if forall|i: int| 0 <= i < c.board@.len() ==> tile_error(c, i) is None {
        assert forall|i: int, j: int| 0 <= j < i < c.board@.len() implies #[trigger] c.board@[j].id@ != #[trigger] c.board@[i].id@ by {
            assert(tile_error(c, i) is None);
        }
        assert forall|i: int| 0 <= i < c.board@.len() && (#[trigger] c.board@[i]).kind is Property implies c.board@[i].kind->Property_0.price
            > 0 && (c.board@[i].kind->Property_0.rent_model == RentModel::Houses ==> c.board@[i].kind->Property_0.house_cost > 0) by {
            assert(tile_error(c, i) is None);
        }
        assert forall|i: int| 0 <= i < c.board@.len() && (#[trigger] c.board@[i]).kind is NetWorthTax implies 1 <= c.board@[i].kind->min_pct
            <= c.board@[i].kind->max_pct <= 100 by {
            assert(tile_error(c, i) is None);
        }
    }
    let cards = c.chance@ + c.community@;
    assert(cards_sound(c, cards) <==> forall|k: int| 0 <= k < cards.len() ==> card_error(c, #[trigger] cards[k]) is None);
}

/// No tile from `i` on has a problem exactly when the first one is none.
proof fn lemma_tiles_none_iff(c: &GameContent, i: int)
    requires
        0 <= i,
    ensures
        tiles_error_from(c, i) is None <==> forall|k: int| i <= k < c.board@.len() ==> tile_error(c, k) is None,
    decreases c.board@.len() - i,
{
    if i < c.board@.len() {
        lemma_tiles_none_iff(c, i + 1);
    }
}

/// No card from `i` on has a problem exactly when the first one is none.
proof fn lemma_cards_none_iff(c: &GameContent, cards: Seq<CardDef>, i: int)
    requires
        0 <= i,
    ensures
        cards_error_from(c, cards, i) is None <==> forall|k: int| i <= k < cards.len() ==> card_error(c, #[trigger] cards[k]) is None,
    decreases cards.len() - i,
{
    if i < cards.len() {
        lemma_cards_none_iff(c, cards, i + 1);
    }
}

/// Content that passed `validate`.
pub open spec fn content_valid(c: &GameContent) -> bool {
    validation_error(c) is None
}


proof fn lemma_tiles_error_skip(c: &GameContent, i: int)
    requires
        0 <= i <= c.board@.len(),
        forall|k: int| 0 <= k < i ==> tile_error(c, k) is None,
    ensures
        tiles_error_from(c, 0) == tiles_error_from(c, i),
    decreases i,
{
    if i > 0 {
        lemma_tiles_error_skip(c, i - 1);
    }
}

proof fn lemma_cards_error_skip(c: &GameContent, cards: Seq<CardDef>, i: int)
    requires
        0 <= i <= cards.len(),
        forall|k: int| 0 <= k < i ==> card_error(c, #[trigger] cards[k]) is None,
    ensures
        cards_error_from(c, cards, 0) == cards_error_from(c, cards, i),
    decreases i,
{
    if i > 0 {
        lemma_cards_error_skip(c, cards, i - 1);
    }
}

/// The first problem at or after `i` is none: no tile from `i` on has one.
proof fn lemma_tiles_from_ok(c: &GameContent, i: int, j: int)
    requires
        0 <= i <= j < c.board@.len(),
        tiles_error_from(c, i) is None,
    ensures
        tile_error(c, j) is None,
    decreases j - i,
{
    if i < j {
        lemma_tiles_from_ok(c, i + 1, j);
    }
}

proof fn lemma_cards_from_ok(c: &GameContent, cards: Seq<CardDef>, i: int, j: int)
    requires
        0 <= i <= j < cards.len(),
        cards_error_from(c, cards, i) is None,
    ensures
        card_error(c, cards[j]) is None,
    decreases j - i,
{
    if i < j {
        lemma_cards_from_ok(c, cards, i + 1, j);
    }
}

/// Valid content: every property has a positive price, every audit
/// bracket is well ordered, and every move card targets a board tile.
pub proof fn lemma_valid_content(c: &GameContent)
    requires
        content_valid(c),
    ensures
        forall|j: int| 0 <= j < c.board@.len() ==> #[trigger] tile_error(c, j) is None,
        forall|j: int| 0 <= j < c.chance@.len() ==> #[trigger] card_error(c, c.chance@[j]) is None,
        forall|j: int| 0 <= j < c.community@.len() ==> #[trigger] card_error(c, c.community@[j]) is None,
        c.board@.len() > 0,
{
    assert forall|j: int| 0 <= j < c.board@.len() implies #[trigger] tile_error(c, j) is None by {
        lemma_tiles_from_ok(c, 0, j);
    }
    let all = c.chance@ + c.community@;
    assert forall|j: int| 0 <= j < c.chance@.len() implies #[trigger] card_error(c, c.chance@[j]) is None by {
        lemma_cards_from_ok(c, all, 0, j);
        assert(all[j] == c.chance@[j]);
    }
    assert forall|j: int| 0 <= j < c.community@.len() implies #[trigger] card_error(c, c.community@[j]) is None by {
        lemma_cards_from_ok(c, all, 0, j + c.chance@.len());
        assert(all[j + c.chance@.len()] == c.community@[j]);
    }
}

proof fn lemma_count_jails_step(s: Seq<TileDef>, i: int)
    requires
        0 <= i < s.len(),
    ensures
        count_jails(s.subrange(0, i + 1)) == count_jails(s.subrange(0, i)) + if s[i].kind is Jail {
            1nat
        } else {
            0nat
        },
{
    assert(s.subrange(0, i + 1).drop_last() =~= s.subrange(0, i));
}

impl GameContent {
    /// Structural invariants required by `Engine::apply`, checked once at
    /// room creation so the hot path can index without re-validating.
    /// Returns the first violated invariant.
    fn jail_count(&self) -> (r: usize)
        ensures
            r == count_jails(self.board@),
    {
        let n = self.board.len();
        let mut jail_count: usize = 0;
        let mut i: usize = 0;
        while i < n
            invariant
                n == self.board@.len(),
                i <= n,
                jail_count == count_jails(self.board@.subrange(0, i as int)),
                jail_count <= i,
            decreases n - i,
        {
            proof {
                lemma_count_jails_step(self.board@, i as int);
            }
            if let TileKind::Jail = self.board[i].kind {
                jail_count = jail_count + 1;
            }
            i = i + 1;
        }
        assert(self.board@.subrange(0, n as int) =~= self.board@);
        jail_count
    }

    fn has_card_tiles(&self) -> (r: (bool, bool))
        ensures
            r.0 == has_kind_chance(self),
            r.1 == has_kind_community(self),
    {
        let n = self.board.len();
        let mut has_chance = false;
        let mut has_community = false;
        let mut i: usize = 0;
        while i < n
            invariant
                n == self.board@.len(),
                i <= n,
                has_chance == exists|k: int| 0 <= k < i && self.board@[k].kind is Chance,
                has_community == exists|k: int| 0 <= k < i && self.board@[k].kind is Community,
            decreases n - i,
        {
            match self.board[i].kind {
                TileKind::Chance => {
                    has_chance = true;
                },
                TileKind::Community => {
                    has_community = true;
                },
                _ => {},
            }
            i = i + 1;
        }
        (has_chance, has_community)
    }

    fn tile_problem(&self, i: usize) -> (r: Option<ContentError>)
        requires
            i < self.board@.len(),
        ensures
            r == tile_error(self, i as int),
    {
        let t = &self.board[i];
        let mut j: usize = 0;
        let mut dup = false;
        while j < i
            invariant
                i < self.board@.len(),
                j <= i,
                *t == self.board@[i as int],
                dup == exists|k: int| 0 <= k < j && self.board@[k].id@ == t.id@,
            decreases i - j,
        {
            if self.board[j].id == t.id {
                dup = true;
            }
            j = j + 1;
        }
        if dup {
            return Some(ContentError::DuplicateTileId(t.id.clone()));
        }
        if let TileKind::Property(p) = &t.kind {
            let bad_house_cost = match p.rent_model {
                RentModel::Houses => p.house_cost <= 0,
                _ => false,
            };
            if p.price <= 0 || bad_house_cost {
                return Some(ContentError::InvalidProperty(t.id.clone()));
            }
        }
        if let TileKind::NetWorthTax { min_pct, max_pct } = t.kind {
            if min_pct < 1 || min_pct > max_pct || max_pct > 100 {
                return Some(ContentError::InvalidNetWorthTax(t.id.clone()));
            }
        }
        None
    }

    fn first_tile_problem(&self) -> (r: Option<ContentError>)
        ensures
            r == tiles_error_from(self, 0),
    {
        let n = self.board.len();
        let mut i: usize = 0;
        while i < n
            invariant
                n == self.board@.len(),
                i <= n,
                forall|k: int| 0 <= k < i ==> tile_error(self, k) is None,
            decreases n - i,
        {
            let e = self.tile_problem(i);
            if e.is_some() {
                proof {
                    lemma_tiles_error_skip(self, i as int);
                }
                return e;
            }
            i = i + 1;
        }
        proof {
            lemma_tiles_error_skip(self, n as int);
        }
        None
    }

    fn card_problem(&self, card: &CardDef) -> (r: Option<ContentError>)
        ensures
            r == card_error(self, *card),
    {
        if let CardEffect::MoveTo { tile, .. } = &card.effect {
            if self.tile_index(tile.as_str()).is_none() {
                return Some(
                    ContentError::CardTargetsUnknownTile { card: card.id.clone(), tile: tile.clone() },
                );
            }
        }
        None
    }

    fn first_card_problem(&self) -> (r: Option<ContentError>)
        ensures
            r == cards_error_from(self, self.chance@ + self.community@, 0),
    {
        let ghost cards = self.chance@ + self.community@;
        let nc = self.chance.len();
        let mut i: usize = 0;
        while i < nc
            invariant
                nc == self.chance@.len(),
                cards == self.chance@ + self.community@,
                i <= nc,
                forall|k: int| 0 <= k < i ==> card_error(self, #[trigger] cards[k]) is None,
            decreases nc - i,
        {
            let e = self.card_problem(&self.chance[i]);
            if e.is_some() {
                proof {
                    lemma_cards_error_skip(self, cards, i as int);
                }
                return e;
            }
            i = i + 1;
        }
        let nm = self.community.len();
        let mut i: usize = 0;
        while i < nm
            invariant
                nc == self.chance@.len(),
                nm == self.community@.len(),
                cards == self.chance@ + self.community@,
                i <= nm,
                forall|k: int| 0 <= k < nc + i ==> card_error(self, #[trigger] cards[k]) is None,
            decreases nm - i,
        {
            assert(cards[nc + i] == self.community@[i as int]);
            let e = self.card_problem(&self.community[i]);
            if e.is_some() {
                proof {
                    lemma_cards_error_skip(self, cards, nc + i);
                }
                return e;
            }
            i = i + 1;
        }
        proof {
            lemma_cards_error_skip(self, cards, cards.len() as int);
        }
        None
    }

    /// Structural invariants required by `Engine::apply`, checked once at
    /// room creation so the hot path can index without re-validating.
    /// Returns the first violated invariant.
    pub fn validate(&self) -> (r: Result<(), ContentError>)
        ensures
            r matches Ok(_) <==> validation_error(self) is None,
            r matches Err(e) ==> validation_error(self) == Some(e),
    {
        if self.board.len() == 0 {
            return Err(ContentError::EmptyBoard);
        }
        match self.board[0].kind {
            TileKind::Go => {},
            _ => {
                return Err(ContentError::FirstTileNotGo);
            },
        }
        if self.rules.velocity_min < 1 || self.rules.velocity_max <= self.rules.velocity_min {
            return Err(ContentError::InvalidVelocityRange);
        }
        let jail_count = self.jail_count();
        if jail_count != 1 {
            return Err(ContentError::JailTileCount(jail_count));
        }
        let (has_chance, has_community) = self.has_card_tiles();
        if has_chance && self.chance.len() == 0 {
            return Err(ContentError::EmptyDeck("chance"));
        }
        if has_community && self.community.len() == 0 {
            return Err(ContentError::EmptyDeck("community"));
        }
        if let Some(e) = self.first_tile_problem() {
            return Err(e);
        }
        if let Some(e) = self.first_card_problem() {
            return Err(e);
        }
        Ok(())
    }

    /// Index of the first tile whose id is `id`.
    pub fn tile_index(&self, id: &str) -> (r: Option<usize>)
        ensures
            r == tile_index_spec(self, id@),
            r matches Some(i) ==> i < self.board@.len() && self.board@[i as int].id@ == id@,
    {
        let n = self.board.len();
        let mut i: usize = 0;
        while i < n
            invariant
                n == self.board@.len(),
                i <= n,
                forall|j: int| 0 <= j < i ==> self.board@[j].id@ != id@,
            decreases n - i,
        {
            if str_eq(self.board[i].id.as_str(), id) {
                assert(exists|k: int| 0 <= k < self.board@.len() && self.board@[k].id@ == id@);
                let ghost c = choose|k: int|
                    0 <= k < self.board@.len() && self.board@[k].id@ == id@ && forall|j: int|
                        0 <= j < k ==> self.board@[j].id@ != id@;
                assert(0 <= i < self.board@.len() && self.board@[i as int].id@ == id@ && forall|j: int|
                        0 <= j < i ==> self.board@[j].id@ != id@);
                assert(c == i) by {
                    if c < i {
                    } else if c > i {
                    }
                }
                return Some(i);
            }
            i = i + 1;
        }
        None
    }

    /// Position of the (unique, validated) jail tile.
    pub fn jail_position(&self) -> (r: usize)
        requires
            content_valid(self),
        ensures
            is_jail(self, r as int),
    {
        let n = self.board.len();
        let mut i: usize = 0;
        while i < n
            invariant
                n == self.board@.len(),
                i <= n,
                count_jails(self.board@) == 1,
                count_jails(self.board@.subrange(0, i as int)) == 0,
            decreases n - i,
        {
            proof {
                lemma_count_jails_step(self.board@, i as int);
            }
            if let TileKind::Jail = self.board[i].kind {
                return i;
            }
            i = i + 1;
        }
        assert(self.board@.subrange(0, n as int) =~= self.board@);
        0
    }

    /// The property definition of tile `tile`, if it is a property.
    pub fn property(&self, tile: usize) -> (r: Option<&PropertyDef>)
        ensures
            r matches Some(p) ==> is_property(self, tile as int) && *p == prop_of(self, tile as int),
            r is None ==> !is_property(self, tile as int),
    {
        if tile >= self.board.len() {
            return None;
        }
        match &self.board[tile].kind {
            TileKind::Property(p) => Some(p),
            _ => None,
        }
    }

    /// Indices of every property belonging to `group`, in board order.
    pub fn group_tiles(&self, group: &str) -> (r: Vec<usize>)
        ensures
            r@ == group_upto(self, group@, self.board@.len() as int),
            forall|k: int| 0 <= k < r@.len() ==> in_group(self, #[trigger] r@[k] as int, group@),
            forall|i: int| in_group(self, i, group@) ==> #[trigger] r@.contains(i as usize),
            forall|a: int, b: int| 0 <= a < b < r@.len() ==> r@[a] < r@[b],
    {
        let mut out: Vec<usize> = Vec::new();
        let n = self.board.len();
        let mut i: usize = 0;
        while i < n
            invariant
                n == self.board@.len(),
                i <= n,
                out@ == group_upto(self, group@, i as int),
                forall|k: int| 0 <= k < out@.len() ==> in_group(self, #[trigger] out@[k] as int, group@),
                forall|k: int| 0 <= k < out@.len() ==> #[trigger] out@[k] < i,
                forall|j: int| 0 <= j < i && in_group(self, j, group@) ==> #[trigger] out@.contains(j as usize),
                forall|a: int, b: int| 0 <= a < b < out@.len() ==> out@[a] < out@[b],
            decreases n - i,
        {
            let ghost old_out = out@;
            if let TileKind::Property(p) = &self.board[i].kind {
                if str_eq(p.group.as_str(), group) {
                    out.push(i);
                    assert(out@[out@.len() - 1] == i);
                }
            }
            proof {
                assert forall|j: int| 0 <= j < i + 1 && in_group(self, j, group@) implies #[trigger] out@.contains(
                    j as usize,
                ) by {
                    if j == i {
                        assert(out@[out@.len() - 1] == i);
                    } else {
                        assert(old_out.contains(j as usize));
                        let k = choose|k: int| 0 <= k < old_out.len() && old_out[k] == j as usize;
                        assert(out@[k] == j as usize);
                    }
                }
            }
            i = i + 1;
        }
        out
    }

    /// Looks up a market event definition by id.
    pub fn market_event(&self, id: &str) -> (r: Option<&MarketEventDef>)
        ensures
            r matches Some(d) ==> exists|k: int|
                0 <= k < self.market_events@.len() && self.market_events@[k] == *d
                    && d.id@ == id@ && forall|j: int|
                    0 <= j < k ==> self.market_events@[j].id@ != id@,
            r is None ==> forall|k: int|
                0 <= k < self.market_events@.len() ==> self.market_events@[k].id@ != id@,
    {
        let n = self.market_events.len();
        let mut i: usize = 0;
        while i < n
            invariant
                n == self.market_events@.len(),
                i <= n,
                forall|j: int| 0 <= j < i ==> self.market_events@[j].id@ != id@,
            decreases n - i,
        {
            if str_eq(self.market_events[i].id.as_str(), id) {
                return Some(&self.market_events[i]);
            }
            i = i + 1;
        }
        None
    }

    /// Indices of every property tile, any group, in board order.
    pub fn property_tiles(&self) -> (r: Vec<usize>)
        ensures
            r@ == props_upto(self, self.board@.len() as int),
            forall|k: int| 0 <= k < r@.len() ==> is_property(self, #[trigger] r@[k] as int),
            forall|i: int| is_property(self, i) ==> #[trigger] r@.contains(i as usize),
            forall|a: int, b: int| 0 <= a < b < r@.len() ==> r@[a] < r@[b],
    {
        let mut out: Vec<usize> = Vec::new();
        let n = self.board.len();
        let mut i: usize = 0;
        while i < n
            invariant
                n == self.board@.len(),
                i <= n,
                out@ == props_upto(self, i as int),
                forall|k: int| 0 <= k < out@.len() ==> is_property(self, #[trigger] out@[k] as int),
                forall|k: int| 0 <= k < out@.len() ==> #[trigger] out@[k] < i,
                forall|j: int| 0 <= j < i && is_property(self, j) ==> #[trigger] out@.contains(j as usize),
                forall|a: int, b: int| 0 <= a < b < out@.len() ==> out@[a] < out@[b],
            decreases n - i,
        {
            let ghost old_out = out@;
            if let TileKind::Property(_) = &self.board[i].kind {
                out.push(i);
                assert(out@[out@.len() - 1] == i);
            }
            proof {
                assert forall|j: int| 0 <= j < i + 1 && is_property(self, j) implies #[trigger] out@.contains(
                    j as usize,
                ) by {
                    if j == i {
                        assert(out@[out@.len() - 1] == i);
                    } else {
                        assert(old_out.contains(j as usize));
                        let k = choose|k: int| 0 <= k < old_out.len() && old_out[k] == j as usize;
                        assert(out@[k] == j as usize);
                    }
                }
            }
            i = i + 1;
        }
        out
    }
}

} // verus!
