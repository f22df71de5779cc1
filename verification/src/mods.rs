//! Mod layering: data-only mods merged, last-loaded-wins per key, into
//! validated game content. Base game content is itself a mod, loaded
//! first. Reading the mod files is the caller's business; this module
//! holds the merge rules, the raw tile conversion and the version check.
use vstd::prelude::*;

use crate::content::{
    CardDef, GameContent, MarketEventDef, PropertyDef, RentModel, RuleParams, TileDef, TileKind,
    default_rules, str_eq, validation_error,
};
use crate::error::ContentError;

verus! {

/// The characters of `s`, in order.
pub fn chars_of(s: &str) -> (r: Vec<char>)
    ensures
        r@ == s@,
{
    let mut out: Vec<char> = Vec::new();
    for ch in it: s.chars()
        invariant
            out@ == it.seq().take(it.index() as int),
    {
        out.push(ch);
    }
    proof {
        broadcast use vstd::string::axiom_spec_iter;
    }
    assert(out@ =~= s@);
    out
}

// -- Versions ------------------------------------------------------------

/// Unicode white space, as `char::is_whitespace` has it.
pub open spec fn is_space(ch: char) -> bool {
    ||| '\u{9}' <= ch <= '\u{d}'
    ||| ch == ' '
    ||| ch == '\u{85}'
    ||| ch == '\u{a0}'
    ||| ch == '\u{1680}'
    ||| '\u{2000}' <= ch <= '\u{200a}'
    ||| ch == '\u{2028}'
    ||| ch == '\u{2029}'
    ||| ch == '\u{202f}'
    ||| ch == '\u{205f}'
    ||| ch == '\u{3000}'
}

pub(crate) fn space(ch: char) -> (r: bool)
    ensures
        r == is_space(ch),
{
    ('\u{9}' <= ch && ch <= '\u{d}') || ch == ' ' || ch == '\u{85}' || ch == '\u{a0}' || ch == '\u{1680}' || (
    '\u{2000}' <= ch && ch <= '\u{200a}') || ch == '\u{2028}' || ch == '\u{2029}' || ch == '\u{202f}' || ch
        == '\u{205f}' || ch == '\u{3000}'
}

/// `s` without its leading white space.
pub open spec fn trim_start(s: Seq<char>) -> Seq<char>
    decreases s.len(),
{
    if s.len() > 0 && is_space(s[0]) {
        trim_start(s.drop_first())
    } else {
        s
    }
}

/// `s` without its trailing white space.
pub open spec fn trim_end(s: Seq<char>) -> Seq<char>
    decreases s.len(),
{
    if s.len() > 0 && is_space(s.last()) {
        trim_end(s.drop_last())
    } else {
        s
    }
}

/// `s` without white space at either end.
pub open spec fn trimmed(s: Seq<char>) -> Seq<char> {
    trim_end(trim_start(s))
}

/// The pieces of `s` between the dots, in order; one piece when there
/// is no dot.
pub open spec fn dot_pieces(s: Seq<char>) -> Seq<Seq<char>>
    decreases s.len(),
{
    if s.len() == 0 {
        seq![Seq::empty()]
    } else {
        let p = dot_pieces(s.drop_last());
        if s.last() == '.' {
            p.push(Seq::empty())
        } else {
            p.update(p.len() - 1, p.last().push(s.last()))
        }
    }
}

pub open spec fn is_digit(ch: char) -> bool {
    '0' <= ch <= '9'
}

/// The number the decimal digits `d` spell.
pub open spec fn decimal(d: Seq<char>) -> int
    decreases d.len(),
{
    if d.len() == 0 {
        0
    } else {
        decimal(d.drop_last()) * 10 + (d.last() as int - '0' as int)
    }
}

/// `s` without a leading `+`.
pub open spec fn unsigned_digits(s: Seq<char>) -> Seq<char> {
    if s.len() > 0 && s[0] == '+' {
        s.drop_first()
    } else {
        s
    }
}

pub open spec fn all_digits(d: Seq<char>) -> bool {
    forall|i: int| 0 <= i < d.len() ==> is_digit(#[trigger] d[i])
}

/// `s` read as a `u32` the way `str::parse` reads it: an optional `+`,
/// then at least one decimal digit, the value fitting in 32 bits.
pub open spec fn parse_u32_spec(s: Seq<char>) -> Option<u32> {
    let d = unsigned_digits(s);
    if d.len() == 0 || !all_digits(d) || decimal(d) > u32::MAX {
        None
    } else {
        Some(decimal(d) as u32)
    }
}

/// A version `"x.y.z"` read leniently: surrounding white space ignored,
/// missing parts 0, parts past the third ignored; `None` when a part that
/// is there is not a number.
pub open spec fn version_spec(v: Seq<char>) -> Option<(u32, u32, u32)> {
    let p = dot_pieces(trimmed(v));
    let major = parse_u32_spec(p[0]);
    let minor = if p.len() > 1 {
        parse_u32_spec(p[1])
    } else {
        Some(0u32)
    };
    let patch = if p.len() > 2 {
        parse_u32_spec(p[2])
    } else {
        Some(0u32)
    };
    if major is Some && minor is Some && patch is Some {
        Some((major->0, minor->0, patch->0))
    } else {
        None
    }
}

/// `a` is a later version than `b`.
pub open spec fn newer(a: (u32, u32, u32), b: (u32, u32, u32)) -> bool {
    a.0 > b.0 || (a.0 == b.0 && (a.1 > b.1 || (a.1 == b.1 && a.2 > b.2)))
}

/// Law: "later" is the lexicographic order on (major, minor, patch): the
/// first part that differs decides, equal versions are not later than each
/// other, and of two different versions exactly one is the later.
pub proof fn law_newer_is_lexicographic(a: (u32, u32, u32), b: (u32, u32, u32))
    ensures
        a.0 != b.0 ==> (newer(a, b) <==> a.0 > b.0),
        a.0 == b.0 && a.1 != b.1 ==> (newer(a, b) <==> a.1 > b.1),
        a.0 == b.0 && a.1 == b.1 ==> (newer(a, b) <==> a.2 > b.2),
        !newer(a, a),
        a != b ==> (newer(a, b) <==> !newer(b, a)),
{
}

/// Law: a mod is refused exactly when both versions read and the required
/// one is later than the running one; in particular a later patch of the
/// same major and minor version is refused, and an equal or earlier one is
/// let through.
pub proof fn law_version_check(m: &ModManifest, running: Seq<char>)
    ensures
        m.min_game_version is None ==> !too_new(m, running),
        m.min_game_version matches Some(req) ==> (version_spec(req@) is None || version_spec(running) is None)
            ==> !too_new(m, running),
        m.min_game_version matches Some(req) ==> version_spec(req@) matches Some(r) ==> version_spec(running) matches Some(u)
            ==> {
            &&& r.0 == u.0 && r.1 == u.1 ==> (too_new(m, running) <==> r.2 > u.2)
            &&& r.0 == u.0 && r.1 != u.1 ==> (too_new(m, running) <==> r.1 > u.1)
            &&& r.0 != u.0 ==> (too_new(m, running) <==> r.0 > u.0)
        },
{
}

proof fn lemma_dot_pieces_len(s: Seq<char>)
    ensures
        dot_pieces(s).len() >= 1,
    decreases s.len(),
{
    if s.len() > 0 {
        lemma_dot_pieces_len(s.drop_last());
    }
}

/// `chars` without white space at either end.
fn trim_chars(chars: &Vec<char>) -> (r: Vec<char>)
    ensures
        r@ == trimmed(chars@),
{
    let n = chars.len();
    let mut lo: usize = 0;
    assert(chars@.subrange(0, n as int) =~= chars@);
    while lo < n && space(chars[lo])
        invariant
            lo <= n == chars@.len(),
            trim_start(chars@) == trim_start(chars@.subrange(lo as int, n as int)),
        decreases n - lo,
    {
        assert(chars@.subrange(lo as int, n as int).drop_first() =~= chars@.subrange(lo + 1, n as int));
        lo = lo + 1;
    }
    assert(trim_start(chars@) == chars@.subrange(lo as int, n as int));
    let mut hi: usize = n;
    while hi > lo && space(chars[hi - 1])
        invariant
            lo <= hi <= n == chars@.len(),
            trim_end(chars@.subrange(lo as int, n as int)) == trim_end(chars@.subrange(lo as int, hi as int)),
        decreases hi - lo,
    {
        assert(chars@.subrange(lo as int, hi as int).drop_last() =~= chars@.subrange(lo as int, hi - 1));
        hi = hi - 1;
    }
    let mut out: Vec<char> = Vec::new();
    let mut k: usize = lo;
    while k < hi
        invariant
            lo <= k <= hi <= n == chars@.len(),
            out@ == chars@.subrange(lo as int, k as int),
        decreases hi - k,
    {
        out.push(chars[k]);
        k = k + 1;
    }
    out
}

/// The dot-separated pieces of `chars`.
fn split_dots(chars: &Vec<char>) -> (r: Vec<Vec<char>>)
    ensures
        r@.len() == dot_pieces(chars@).len(),
        forall|i: int| 0 <= i < r@.len() ==> (#[trigger] r@[i])@ == dot_pieces(chars@)[i],
{
    let mut out: Vec<Vec<char>> = Vec::new();
    let mut cur: Vec<char> = Vec::new();
    let mut k: usize = 0;
    while k < chars.len()
        invariant
            k <= chars@.len(),
            out@.len() + 1 == dot_pieces(chars@.subrange(0, k as int)).len(),
            forall|i: int| 0 <= i < out@.len() ==> (#[trigger] out@[i])@ == dot_pieces(chars@.subrange(0, k as int))[i],
            cur@ == dot_pieces(chars@.subrange(0, k as int)).last(),
        decreases chars@.len() - k,
    {
        proof {
            lemma_dot_pieces_len(chars@.subrange(0, k as int));
            assert(chars@.subrange(0, k + 1).drop_last() =~= chars@.subrange(0, k as int));
        }
        if chars[k] == '.' {
            out.push(cur);
            cur = Vec::new();
        } else {
            cur.push(chars[k]);
        }
        k = k + 1;
    }
    out.push(cur);
    assert(chars@.subrange(0, chars@.len() as int) =~= chars@);
    proof {
        lemma_dot_pieces_len(chars@);
        let p = dot_pieces(chars@);
        assert forall|i: int| 0 <= i < out@.len() implies (#[trigger] out@[i])@ == p[i] by {}
    }
    out
}

proof fn lemma_decimal_nonneg(d: Seq<char>)
    requires
        forall|i: int| 0 <= i < d.len() ==> is_digit(#[trigger] d[i]),
    ensures
        decimal(d) >= 0,
    decreases d.len(),
{
    if d.len() > 0 {
        lemma_decimal_nonneg(d.drop_last());
    }
}

/// A number only grows as digits are appended.
proof fn lemma_decimal_prefix(d: Seq<char>, j: int)
    requires
        0 <= j <= d.len(),
        forall|i: int| 0 <= i < d.len() ==> is_digit(#[trigger] d[i]),
    ensures
        decimal(d) >= decimal(d.subrange(0, j)),
    decreases d.len(),
{
    if j < d.len() {
        lemma_decimal_nonneg(d.drop_last());
        lemma_decimal_prefix(d.drop_last(), j);
        assert(d.drop_last().subrange(0, j) =~= d.subrange(0, j));
    } else {
        assert(d.subrange(0, j) =~= d);
    }
}

/// `chars` read as a `u32` the way `str::parse` reads it.
pub fn parse_u32(chars: &Vec<char>) -> (r: Option<u32>)
    ensures
        r == parse_u32_spec(chars@),
{
    let n = chars.len();
    let start: usize = if n > 0 && chars[0] == '+' {
        1
    } else {
        0
    };
    let ghost d = chars@.subrange(start as int, n as int);
    assert(d =~= unsigned_digits(chars@));
    if start == n {
        return None;
    }
    let mut value: u64 = 0;
    let mut k: usize = start;
    while k < n
        invariant
            start <= k <= n == chars@.len(),
            start < n,
            d == chars@.subrange(start as int, n as int),
            d == unsigned_digits(chars@),
            forall|i: int| start <= i < k ==> is_digit(chars@[i]),
            value == decimal(chars@.subrange(start as int, k as int)),
            value <= u32::MAX,
        decreases n - k,
    {
        let ch = chars[k];
        if !('0' <= ch && ch <= '9') {
            assert(!is_digit(d[k - start]));
            return None;
        }
        assert(chars@.subrange(start as int, k + 1).drop_last() =~= chars@.subrange(start as int, k as int));
        let digit = (ch as u32 - '0' as u32) as u64;
        value = value * 10 + digit;
        if value > 0xFFFF_FFFF {
            proof {
                if all_digits(d) {
                    assert(d.subrange(0, k + 1 - start) =~= chars@.subrange(start as int, k + 1));
                    lemma_decimal_prefix(d, k + 1 - start);
                }
            }
            return None;
        }
        k = k + 1;
    }
    assert(chars@.subrange(start as int, n as int) =~= d);
    assert forall|i: int| 0 <= i < d.len() implies is_digit(#[trigger] d[i]) by {
        assert(d[i] == chars@[start + i]);
    }
    Some(value as u32)
}

/// Parses `"x.y.z"`; missing parts default to 0; `None` on garbage.
pub fn parse_version(v: &str) -> (r: Option<(u32, u32, u32)>)
    ensures
        r == version_spec(v@),
{
    let chars = chars_of(v);
    let t = trim_chars(&chars);
    let parts = split_dots(&t);
    proof {
        lemma_dot_pieces_len(t@);
    }
    let major = parse_u32(&parts[0]);
    let minor = if parts.len() > 1 {
        parse_u32(&parts[1])
    } else {
        Some(0)
    };
    let patch = if parts.len() > 2 {
        parse_u32(&parts[2])
    } else {
        Some(0)
    };
    match (major, minor, patch) {
        (Some(a), Some(b), Some(c)) => Some((a, b, c)),
        _ => None,
    }
}

/// Whether version `a` is later than version `b`.
pub fn is_newer(a: (u32, u32, u32), b: (u32, u32, u32)) -> (r: bool)
    ensures
        r == newer(a, b),
{
    a.0 > b.0 || (a.0 == b.0 && (a.1 > b.1 || (a.1 == b.1 && a.2 > b.2)))
}

// -- Manifests and errors ------------------------------------------------------

/// A mod's `manifest.toml`.
#[derive(Debug, Clone)]
pub struct ModManifest {
    pub id: String,
    pub version: String,
    pub author: Option<String>,
    /// Minimum game version, "x.y.z". Checked leniently: an unreadable
    /// version does not fail the load.
    pub min_game_version: Option<String>,
}

/// The part of a manifest pushed to joining clients.
#[derive(Debug, Clone, PartialEq)]
pub struct ModInfo {
    pub id: String,
    pub version: String,
    pub author: Option<String>,
}

pub open spec fn text_of(o: Option<String>) -> Option<Seq<char>> {
    match o {
        Some(s) => Some(s@),
        None => None,
    }
}

fn copy_text(o: &Option<String>) -> (r: Option<String>)
    ensures
        text_of(r) == text_of(*o),
{
    match o {
        Some(s) => Some(s.clone()),
        None => None,
    }
}

impl ModInfo {
    /// The public part of `m`.
    pub fn of(m: &ModManifest) -> (r: ModInfo)
        ensures
            r.id@ == m.id@,
            r.version@ == m.version@,
            text_of(r.author) == text_of(m.author),
    {
        ModInfo { id: m.id.clone(), version: m.version.clone(), author: copy_text(&m.author) }
    }
}

/// Content plus the mod metadata pushed to joining clients.
#[derive(Debug, Clone, PartialEq)]
pub struct ResolvedContent {
    pub content: GameContent,
    pub mods: Vec<ModInfo>,
}

/// Why a mod set does not resolve (reading the files aside).
#[derive(Debug, Clone, PartialEq)]
pub enum ModError {
    NotFound(String),
    IncompatibleVersion { mod_id: String, required: String, running: String },
    InvalidTile { mod_id: String, tile: String, reason: &'static str },
    Content(ContentError),
}

/// The version check: refused exactly when both versions read and the
/// required one is later than the running one.
pub open spec fn too_new(m: &ModManifest, running: Seq<char>) -> bool {
    match m.min_game_version {
        Some(required) => match (version_spec(required@), version_spec(running)) {
            (Some(req), Some(run)) => newer(req, run),
            _ => false,
        },
        None => false,
    }
}

/// Refuses a mod that needs a later game than `running`; an unreadable
/// requirement is let through.
pub fn check_min_version(manifest: &ModManifest, running: &str) -> (r: Result<(), ModError>)
    ensures
        r is Err <==> too_new(manifest, running@),
        r matches Err(e) ==> e matches ModError::IncompatibleVersion { mod_id, required, running: run }
            && mod_id@ == manifest.id@ && Some(required@) == text_of(manifest.min_game_version)
            && run@ == running@,
{
    let required = match &manifest.min_game_version {
        Some(v) => v,
        None => {
            return Ok(());
        },
    };
    match (parse_version(required.as_str()), parse_version(running)) {
        (Some(req), Some(run)) => {
            if is_newer(req, run) {
                Err(ModError::IncompatibleVersion {
                    mod_id: manifest.id.clone(),
                    required: required.clone(),
                    running: running.to_owned(),
                })
            } else {
                Ok(())
            }
        },
        _ => Ok(()),
    }
}

// -- Raw tiles -----------------------------------------------------------------

/// A tile as a mod file writes it: flat optional fields, checked on
/// conversion.
#[derive(Debug, Clone)]
pub struct TileRaw {
    pub id: String,
    pub name: String,
    /// `go`, `chance`, `community`, `jail`, `go_to_jail`, `free_parking`,
    /// `spotlight`, `tax`, `net_worth_tax` or `property`.
    pub kind: String,
    pub group: Option<String>,
    pub price: Option<i64>,
    /// Required for the (default) `houses` rent model, ignored otherwise.
    pub house_cost: Option<i64>,
    pub rents: Option<[i64; 6]>,
    pub rent_model: Option<RentModel>,
    /// Required when the type is `tax`.
    pub amount: Option<i64>,
    /// Required when the type is `net_worth_tax`.
    pub min_pct: Option<u8>,
    pub max_pct: Option<u8>,
}

/// The tile types that carry no data.
pub open spec fn plain_kind(k: Seq<char>) -> Option<TileKind> {
    if k == "go"@ {
        Some(TileKind::Go)
    } else if k == "chance"@ {
        Some(TileKind::Chance)
    } else if k == "community"@ {
        Some(TileKind::Community)
    } else if k == "jail"@ {
        Some(TileKind::Jail)
    } else if k == "go_to_jail"@ {
        Some(TileKind::GoToJail)
    } else if k == "free_parking"@ {
        Some(TileKind::FreeParking)
    } else if k == "spotlight"@ {
        Some(TileKind::Spotlight)
    } else {
        None
    }
}

pub open spec fn raw_rent_model(raw: &TileRaw) -> RentModel {
    match raw.rent_model {
        Some(m) => m,
        None => RentModel::Houses,
    }
}

/// Why a raw tile does not convert, if it does not: an unknown type, or a
/// field its type requires missing.
pub open spec fn tile_problem(raw: &TileRaw) -> Option<Seq<char>> {
    let k = raw.kind@;
    if plain_kind(k) is Some {
        None
    } else if k == "tax"@ {
        if raw.amount is None {
            Some("tax requires `amount`"@)
        } else {
            None
        }
    } else if k == "net_worth_tax"@ {
        if raw.min_pct is None {
            Some("net_worth_tax requires `min_pct`"@)
        } else if raw.max_pct is None {
            Some("net_worth_tax requires `max_pct`"@)
        } else {
            None
        }
    } else if k == "property"@ {
        if raw_rent_model(raw) is Houses && raw.house_cost is None {
            Some("property requires `house_cost`"@)
        } else if raw.group is None {
            Some("property requires `group`"@)
        } else if raw.price is None {
            Some("property requires `price`"@)
        } else if raw.rents is None {
            Some("property requires `rents` (6 values)"@)
        } else {
            None
        }
    } else {
        Some("unknown tile type"@)
    }
}

/// The converted tile's kind matches the raw fields.
pub open spec fn kind_from_raw(raw: &TileRaw, kind: TileKind) -> bool {
    let k = raw.kind@;
    if plain_kind(k) is Some {
        kind == plain_kind(k)->0
    } else if k == "tax"@ {
        kind == TileKind::Tax { amount: raw.amount->0 }
    } else if k == "net_worth_tax"@ {
        kind == TileKind::NetWorthTax { min_pct: raw.min_pct->0, max_pct: raw.max_pct->0 }
    } else {
        match kind {
            TileKind::Property(p) => {
                &&& p.group@ == raw.group->0@
                &&& p.price == raw.price->0
                &&& p.house_cost == if raw_rent_model(raw) is Houses {
                    raw.house_cost->0
                } else {
                    match raw.house_cost {
                        Some(h) => h,
                        None => 0,
                    }
                }
                &&& p.rents@ == raw.rents->0@
                &&& p.rent_model == raw_rent_model(raw)
            },
            _ => false,
        }
    }
}

impl TileRaw {
    /// Converts a raw tile, checking that its type is known and the fields
    /// that type needs are there.
    pub fn into_def(self, mod_id: &str) -> (r: Result<TileDef, ModError>)
        ensures
            r is Err <==> tile_problem(&self) is Some,
            r matches Err(e) ==> e matches ModError::InvalidTile { mod_id: m, tile, reason } && m@ == mod_id@
                && tile@ == self.id@ && reason@ == tile_problem(&self)->0,
            r matches Ok(def) ==> def.id@ == self.id@ && def.name@ == self.name@ && kind_from_raw(&self, def.kind),
    {
        let k = self.kind.as_str();
        let kind = if str_eq(k, "go") {
            TileKind::Go
        } else if str_eq(k, "chance") {
            TileKind::Chance
        } else if str_eq(k, "community") {
            TileKind::Community
        } else if str_eq(k, "jail") {
            TileKind::Jail
        } else if str_eq(k, "go_to_jail") {
            TileKind::GoToJail
        } else if str_eq(k, "free_parking") {
            TileKind::FreeParking
        } else if str_eq(k, "spotlight") {
            TileKind::Spotlight
        } else if str_eq(k, "tax") {
            match self.amount {
                Some(amount) => TileKind::Tax { amount },
                None => {
                    return Err(invalid_tile(mod_id, &self.id, "tax requires `amount`"));
                },
            }
        } else if str_eq(k, "net_worth_tax") {
            let min_pct = match self.min_pct {
                Some(v) => v,
                None => {
                    return Err(invalid_tile(mod_id, &self.id, "net_worth_tax requires `min_pct`"));
                },
            };
            let max_pct = match self.max_pct {
                Some(v) => v,
                None => {
                    return Err(invalid_tile(mod_id, &self.id, "net_worth_tax requires `max_pct`"));
                },
            };
            TileKind::NetWorthTax { min_pct, max_pct }
        } else if str_eq(k, "property") {
            let rent_model = match self.rent_model {
                Some(m) => m,
                None => RentModel::Houses,
            };
            let house_cost = match rent_model {
                RentModel::Houses => match self.house_cost {
                    Some(h) => h,
                    None => {
                        return Err(invalid_tile(mod_id, &self.id, "property requires `house_cost`"));
                    },
                },
                _ => match self.house_cost {
                    Some(h) => h,
                    None => 0,
                },
            };
            let group = match &self.group {
                Some(g) => g.clone(),
                None => {
                    return Err(invalid_tile(mod_id, &self.id, "property requires `group`"));
                },
            };
            let price = match self.price {
                Some(p) => p,
                None => {
                    return Err(invalid_tile(mod_id, &self.id, "property requires `price`"));
                },
            };
            let rents = match self.rents {
                Some(r) => r,
                None => {
                    return Err(invalid_tile(mod_id, &self.id, "property requires `rents` (6 values)"));
                },
            };
            TileKind::Property(PropertyDef { group, price, house_cost, rents, rent_model })
        } else {
            return Err(invalid_tile(mod_id, &self.id, "unknown tile type"));
        };
        Ok(TileDef { id: self.id, name: self.name, kind })
    }
}

fn invalid_tile(mod_id: &str, tile: &String, reason: &'static str) -> (r: ModError)
    ensures
        r matches ModError::InvalidTile { mod_id: m, tile: t, reason: why } && m@ == mod_id@ && t@ == tile@
            && why@ == reason@,
{
    ModError::InvalidTile { mod_id: mod_id.to_owned(), tile: tile.clone(), reason }
}

// -- Registries -----------------------------------------------------------------

/// The first index below `n` whose key is `key`; -1 when there is none.
pub open spec fn key_at(keys: Seq<Seq<char>>, key: Seq<char>, n: int) -> int
    decreases n,
{
    if n <= 0 {
        -1
    } else {
        let r = key_at(keys, key, n - 1);
        if r >= 0 {
            r
        } else if keys[n - 1] == key {
            n - 1
        } else {
            -1
        }
    }
}

/// `items` with `x` in place of the first item keyed like it, or with
/// `x` appended when there is none.
pub open spec fn upserted<T>(items: Seq<T>, keys: Seq<Seq<char>>, key: Seq<char>, x: T) -> Seq<T> {
    let i = key_at(keys, key, keys.len() as int);
    if i >= 0 {
        items.update(i, x)
    } else {
        items.push(x)
    }
}

pub open spec fn tile_ids(board: Seq<TileDef>) -> Seq<Seq<char>> {
    board.map_values(|t: TileDef| t.id@)
}

pub open spec fn card_ids(deck: Seq<CardDef>) -> Seq<Seq<char>> {
    deck.map_values(|c: CardDef| c.id@)
}

pub open spec fn event_ids(events: Seq<MarketEventDef>) -> Seq<Seq<char>> {
    events.map_values(|e: MarketEventDef| e.id@)
}

pub open spec fn rule_keys(rules: Seq<(Seq<char>, i64)>) -> Seq<Seq<char>> {
    rules.map_values(|e: (Seq<char>, i64)| e.0)
}

/// The value set for `key`, if any.
pub open spec fn rule_of(rules: Seq<(Seq<char>, i64)>, key: Seq<char>) -> Option<i64> {
    let i = key_at(rule_keys(rules), key, rules.len() as int);
    if i >= 0 {
        Some(rules[i].1)
    } else {
        None
    }
}

pub open spec fn clamp_u8(v: i64) -> u8 {
    if v < 0 {
        0
    } else if v > 255 {
        255
    } else {
        v as u8
    }
}

/// The default rules with the named overrides applied; other keys are
/// ignored.
pub open spec fn merged_rules(rules: Seq<(Seq<char>, i64)>) -> RuleParams {
    let d = default_rules();
    RuleParams {
        starting_balance: match rule_of(rules, "starting_balance"@) {
            Some(v) => v,
            None => d.starting_balance,
        },
        go_salary: match rule_of(rules, "go_salary"@) {
            Some(v) => v,
            None => d.go_salary,
        },
        max_houses_per_property: match rule_of(rules, "max_houses_per_property"@) {
            Some(v) => clamp_u8(v),
            None => d.max_houses_per_property,
        },
        bankruptcy_threshold: match rule_of(rules, "bankruptcy_threshold"@) {
            Some(v) => v,
            None => d.bankruptcy_threshold,
        },
        ..d
    }
}

/// Registries that mods fill in load order, then frozen into content.
/// Tiles, cards and market events are keyed by id: a later entry replaces
/// an earlier one in place. Scalar settings: the last value set wins.
#[derive(Debug)]
pub struct RegistryBuilder {
    board: Vec<TileDef>,
    chance: Vec<CardDef>,
    community: Vec<CardDef>,
    market_events: Vec<MarketEventDef>,
    forecast_gap_turns: Option<u32>,
    rules: Vec<(String, i64)>,
}

/// The registries as plain values.
pub struct RegistryModel {
    pub board: Seq<TileDef>,
    pub chance: Seq<CardDef>,
    pub community: Seq<CardDef>,
    pub market_events: Seq<MarketEventDef>,
    pub forecast_gap_turns: Option<u32>,
    pub rules: Seq<(Seq<char>, i64)>,
}

impl View for RegistryBuilder {
    type V = RegistryModel;

    closed spec fn view(&self) -> RegistryModel {
        RegistryModel {
            board: self.board@,
            chance: self.chance@,
            community: self.community@,
            market_events: self.market_events@,
            forecast_gap_turns: self.forecast_gap_turns,
            rules: self.rules@.map_values(|e: (String, i64)| (e.0@, e.1)),
        }
    }
}

/// The content `c` holds exactly the registries of `m`.
pub open spec fn freezes_to(m: RegistryModel, c: &GameContent) -> bool {
    &&& c.board@ == m.board
    &&& c.chance@ == m.chance
    &&& c.community@ == m.community
    &&& c.market_events@ == m.market_events
    &&& c.rules == merged_rules(m.rules)
    &&& c.forecast_gap_turns == match m.forecast_gap_turns {
        Some(g) => g,
        None => 0u32,
    }
}

pub open spec fn index_of_key(r: Option<usize>) -> int {
    match r {
        Some(i) => i as int,
        None => -1,
    }
}

proof fn lemma_key_stays(keys: Seq<Seq<char>>, key: Seq<char>, n: int, m: int)
    requires
        key_at(keys, key, n) >= 0,
        n <= m,
    ensures
        key_at(keys, key, m) == key_at(keys, key, n),
    decreases m - n,
{
    if n < m {
        lemma_key_stays(keys, key, n, m - 1);
    }
}

proof fn lemma_key_range(keys: Seq<Seq<char>>, key: Seq<char>, n: int)
    requires
        0 <= n,
    ensures
        -1 <= key_at(keys, key, n) < n,
        key_at(keys, key, n) >= 0 ==> keys[key_at(keys, key, n)] == key,
    decreases n,
{
    if n > 0 {
        lemma_key_range(keys, key, n - 1);
    }
}

fn tile_slot(board: &Vec<TileDef>, id: &str) -> (r: Option<usize>)
    ensures
        index_of_key(r) == key_at(tile_ids(board@), id@, board@.len() as int),
{
    let mut i: usize = 0;
    while i < board.len()
        invariant
            i <= board@.len(),
            key_at(tile_ids(board@), id@, i as int) == -1,
        decreases board@.len() - i,
    {
        if str_eq(board[i].id.as_str(), id) {
            proof {
                lemma_key_stays(tile_ids(board@), id@, i + 1, board@.len() as int);
            }
            return Some(i);
        }
        i = i + 1;
    }
    None
}

fn card_slot(deck: &Vec<CardDef>, id: &str) -> (r: Option<usize>)
    ensures
        index_of_key(r) == key_at(card_ids(deck@), id@, deck@.len() as int),
{
    let mut i: usize = 0;
    while i < deck.len()
        invariant
            i <= deck@.len(),
            key_at(card_ids(deck@), id@, i as int) == -1,
        decreases deck@.len() - i,
    {
        if str_eq(deck[i].id.as_str(), id) {
            proof {
                lemma_key_stays(card_ids(deck@), id@, i + 1, deck@.len() as int);
            }
            return Some(i);
        }
        i = i + 1;
    }
    None
}

fn event_slot(events: &Vec<MarketEventDef>, id: &str) -> (r: Option<usize>)
    ensures
        index_of_key(r) == key_at(event_ids(events@), id@, events@.len() as int),
{
    let mut i: usize = 0;
    while i < events.len()
        invariant
            i <= events@.len(),
            key_at(event_ids(events@), id@, i as int) == -1,
        decreases events@.len() - i,
    {
        if str_eq(events[i].id.as_str(), id) {
            proof {
                lemma_key_stays(event_ids(events@), id@, i + 1, events@.len() as int);
            }
            return Some(i);
        }
        i = i + 1;
    }
    None
}

fn rule_slot(rules: &Vec<(String, i64)>, key: &str) -> (r: Option<usize>)
    ensures
        index_of_key(r) == key_at(
            rule_keys(rules@.map_values(|e: (String, i64)| (e.0@, e.1))),
            key@,
            rules@.len() as int,
        ),
{
    let ghost keys = rule_keys(rules@.map_values(|e: (String, i64)| (e.0@, e.1)));
    let mut i: usize = 0;
    while i < rules.len()
        invariant
            i <= rules@.len(),
            keys == rule_keys(rules@.map_values(|e: (String, i64)| (e.0@, e.1))),
            key_at(keys, key@, i as int) == -1,
        decreases rules@.len() - i,
    {
        if str_eq(rules[i].0.as_str(), key) {
            proof {
                assert(keys[i as int] == rules@[i as int].0@);
                lemma_key_stays(keys, key@, i + 1, rules@.len() as int);
            }
            return Some(i);
        }
        i = i + 1;
    }
    None
}

/// The value the rules set for `key`, if any.
fn rule_value(rules: &Vec<(String, i64)>, key: &str) -> (r: Option<i64>)
    ensures
        r == rule_of(rules@.map_values(|e: (String, i64)| (e.0@, e.1)), key@),
{
    let ghost m = rules@.map_values(|e: (String, i64)| (e.0@, e.1));
    match rule_slot(rules, key) {
        Some(i) => {
            proof {
                lemma_key_range(rule_keys(m), key@, rules@.len() as int);
            }
            Some(rules[i].1)
        },
        None => None,
    }
}

impl RegistryBuilder {
    pub fn new() -> (r: Self)
        ensures
            r@.board.len() == 0,
            r@.chance.len() == 0,
            r@.community.len() == 0,
            r@.market_events.len() == 0,
            r@.forecast_gap_turns is None,
            r@.rules.len() == 0,
    {
        RegistryBuilder {
            board: Vec::new(),
            chance: Vec::new(),
            community: Vec::new(),
            market_events: Vec::new(),
            forecast_gap_turns: None,
            rules: Vec::new(),
        }
    }

    /// Inserts or replaces a tile by id. A replacement keeps the original
    /// board position, so a mod can retheme tiles without reshuffling the
    /// track.
    pub fn upsert_tile(&mut self, mod_id: &str, tile: TileDef)
        ensures
            final(self)@.board == upserted(old(self)@.board, tile_ids(old(self)@.board), tile.id@, tile),
            final(self)@.chance == old(self)@.chance,
            final(self)@.community == old(self)@.community,
            final(self)@.market_events == old(self)@.market_events,
            final(self)@.forecast_gap_turns == old(self)@.forecast_gap_turns,
            final(self)@.rules == old(self)@.rules,
    {
        match tile_slot(&self.board, tile.id.as_str()) {
            Some(i) => {
                proof {
                    lemma_key_range(tile_ids(self.board@), tile.id@, self.board@.len() as int);
                }
                self.board.set(i, tile);
            },
            None => {
                self.board.push(tile);
            },
        }
    }

    /// Inserts or replaces a Chance card by id.
    pub fn upsert_chance(&mut self, mod_id: &str, card: CardDef)
        ensures
            final(self)@.chance == upserted(old(self)@.chance, card_ids(old(self)@.chance), card.id@, card),
            final(self)@.board == old(self)@.board,
            final(self)@.community == old(self)@.community,
            final(self)@.market_events == old(self)@.market_events,
            final(self)@.forecast_gap_turns == old(self)@.forecast_gap_turns,
            final(self)@.rules == old(self)@.rules,
    {
        match card_slot(&self.chance, card.id.as_str()) {
            Some(i) => {
                proof {
                    lemma_key_range(card_ids(self.chance@), card.id@, self.chance@.len() as int);
                }
                self.chance.set(i, card);
            },
            None => {
                self.chance.push(card);
            },
        }
    }

    /// Inserts or replaces a Community card by id.
    pub fn upsert_community(&mut self, mod_id: &str, card: CardDef)
        ensures
            final(self)@.community == upserted(old(self)@.community, card_ids(old(self)@.community), card.id@, card),
            final(self)@.board == old(self)@.board,
            final(self)@.chance == old(self)@.chance,
            final(self)@.market_events == old(self)@.market_events,
            final(self)@.forecast_gap_turns == old(self)@.forecast_gap_turns,
            final(self)@.rules == old(self)@.rules,
    {
        match card_slot(&self.community, card.id.as_str()) {
            Some(i) => {
                proof {
                    lemma_key_range(card_ids(self.community@), card.id@, self.community@.len() as int);
                }
                self.community.set(i, card);
            },
            None => {
                self.community.push(card);
            },
        }
    }

    /// Inserts or replaces a market event by id.
    pub fn upsert_event(&mut self, mod_id: &str, event: MarketEventDef)
        ensures
            final(self)@.market_events == upserted(
                old(self)@.market_events,
                event_ids(old(self)@.market_events),
                event.id@,
                event,
            ),
            final(self)@.board == old(self)@.board,
            final(self)@.chance == old(self)@.chance,
            final(self)@.community == old(self)@.community,
            final(self)@.forecast_gap_turns == old(self)@.forecast_gap_turns,
            final(self)@.rules == old(self)@.rules,
    {
        match event_slot(&self.market_events, event.id.as_str()) {
            Some(i) => {
                proof {
                    lemma_key_range(event_ids(self.market_events@), event.id@, self.market_events@.len() as int);
                }
                self.market_events.set(i, event);
            },
            None => {
                self.market_events.push(event);
            },
        }
    }

    /// Sets the turns between market forecasts; the last value set wins.
    pub fn set_forecast_gap(&mut self, mod_id: &str, turns: u32)
        ensures
            final(self)@.forecast_gap_turns == Some(turns),
            final(self)@.board == old(self)@.board,
            final(self)@.chance == old(self)@.chance,
            final(self)@.community == old(self)@.community,
            final(self)@.market_events == old(self)@.market_events,
            final(self)@.rules == old(self)@.rules,
    {
        self.forecast_gap_turns = Some(turns);
    }

    /// Sets a named rule; the last value set wins.
    pub fn set_rule(&mut self, mod_id: &str, key: &str, value: i64)
        ensures
            final(self)@.rules == upserted(old(self)@.rules, rule_keys(old(self)@.rules), key@, (key@, value)),
            final(self)@.board == old(self)@.board,
            final(self)@.chance == old(self)@.chance,
            final(self)@.community == old(self)@.community,
            final(self)@.market_events == old(self)@.market_events,
            final(self)@.forecast_gap_turns == old(self)@.forecast_gap_turns,
    {
        let ghost old_rules = self@.rules;
        match rule_slot(&self.rules, key) {
            Some(i) => {
                proof {
                    lemma_key_range(rule_keys(old_rules), key@, self.rules@.len() as int);
                }
                self.rules.set(i, (key.to_owned(), value));
                assert(self@.rules =~= old_rules.update(i as int, (key@, value)));
            },
            None => {
                self.rules.push((key.to_owned(), value));
                assert(self@.rules =~= old_rules.push((key@, value)));
            },
        }
    }

    /// Freezes the registries into validated content: the default rules
    /// with the named overrides (other keys ignored), no forecast gap
    /// unless one was set.
    pub fn build(self) -> (r: Result<GameContent, ModError>)
        ensures
            r matches Ok(c) ==> freezes_to(self@, &c) && validation_error(&c) is None,
            r matches Err(e) ==> e matches ModError::Content(ce) && exists|c: GameContent|
                freezes_to(self@, &c) && validation_error(&c) == Some(ce),
    {
        let ghost m = self@;
        let d = RuleParams::default();
        let starting_balance = match rule_value(&self.rules, "starting_balance") {
            Some(v) => v,
            None => d.starting_balance,
        };
        let go_salary = match rule_value(&self.rules, "go_salary") {
            Some(v) => v,
            None => d.go_salary,
        };
        let max_houses_per_property = match rule_value(&self.rules, "max_houses_per_property") {
            Some(v) => if v < 0 {
                0
            } else if v > 255 {
                255
            } else {
                v as u8
            },
            None => d.max_houses_per_property,
        };
        let bankruptcy_threshold = match rule_value(&self.rules, "bankruptcy_threshold") {
            Some(v) => v,
            None => d.bankruptcy_threshold,
        };
        let rules = RuleParams { starting_balance, go_salary, max_houses_per_property, bankruptcy_threshold, ..d };
        let content = GameContent {
            board: self.board,
            chance: self.chance,
            community: self.community,
            rules,
            market_events: self.market_events,
            forecast_gap_turns: match self.forecast_gap_turns {
                Some(g) => g,
                None => 0,
            },
        };
        match content.validate() {
            Ok(()) => Ok(content),
            Err(e) => Err(ModError::Content(e)),
        }
    }
}

proof fn lemma_key_at_update(keys: Seq<Seq<char>>, i: int, key: Seq<char>, k: Seq<char>, n: int)
    requires
        0 <= i < keys.len(),
        keys[i] == key,
        n <= keys.len(),
    ensures
        key_at(keys.update(i, key), k, n) == key_at(keys, k, n),
    decreases n,
{
    if n > 0 {
        lemma_key_at_update(keys, i, key, k, n - 1);
    }
}

proof fn lemma_key_at_push(keys: Seq<Seq<char>>, key: Seq<char>, k: Seq<char>, n: int)
    requires
        n <= keys.len(),
    ensures
        key_at(keys.push(key), k, n) == key_at(keys, k, n),
    decreases n,
{
    if n > 0 {
        lemma_key_at_push(keys, key, k, n - 1);
    }
}

/// Law: the last value set for a rule is the one that counts, and setting
/// one rule leaves every other rule as it was.
#[verifier::spinoff_prover]
#[verifier::rlimit(40)]
pub proof fn law_last_rule_wins(rules: Seq<(Seq<char>, i64)>, key: Seq<char>, value: i64)
    ensures
        ({
            let after = upserted(rules, rule_keys(rules), key, (key, value));
            &&& rule_of(after, key) == Some(value)
            &&& forall|k: Seq<char>| k != key ==> rule_of(after, k) == rule_of(rules, k)
        }),
{
    let keys = rule_keys(rules);
    let n = rules.len() as int;
    let after = upserted(rules, keys, key, (key, value));
    lemma_key_range(keys, key, n);
    let i = key_at(keys, key, n);
    if i >= 0 {
        assert(rule_keys(after) =~= keys.update(i, key));
        assert forall|k: Seq<char>| k != key implies rule_of(after, k) == rule_of(rules, k) by {
            lemma_key_at_update(keys, i, key, k, n);
            lemma_key_range(keys, k, n);
        }
        lemma_key_at_update(keys, i, key, key, n);
    } else {
        assert(rule_keys(after) =~= keys.push(key));
        assert forall|k: Seq<char>| k != key implies rule_of(after, k) == rule_of(rules, k) by {
            lemma_key_at_push(keys, key, k, n);
            lemma_key_range(keys, k, n);
        }
        lemma_key_at_push(keys, key, key, n);
    }
}

/// Law: an entry whose id is already registered replaces the old one in
/// its place; a new id is appended. Nothing else moves.
pub proof fn law_override_in_place<T>(items: Seq<T>, keys: Seq<Seq<char>>, key: Seq<char>, x: T)
    requires
        keys.len() == items.len(),
    ensures
        ({
            let after = upserted(items, keys, key, x);
            let i = key_at(keys, key, keys.len() as int);
            &&& i >= 0 ==> after.len() == items.len() && after[i] == x && forall|j: int|
                0 <= j < items.len() && j != i ==> after[j] == items[j]
            &&& i < 0 ==> after == items.push(x) && forall|j: int| 0 <= j < keys.len() ==> keys[j] != key
        }),
{
    lemma_key_range(keys, key, keys.len() as int);
    if key_at(keys, key, keys.len() as int) < 0 {
        lemma_key_absent(keys, key, keys.len() as int);
    }
}

proof fn lemma_key_absent(keys: Seq<Seq<char>>, key: Seq<char>, n: int)
    requires
        key_at(keys, key, n) < 0,
        n <= keys.len(),
    ensures
        forall|j: int| 0 <= j < n ==> keys[j] != key,
    decreases n,
{
    if n > 0 {
        lemma_key_absent(keys, key, n - 1);
    }
}

/// One mod's data files, as read.
pub struct ModData {
    pub tiles: Vec<TileRaw>,
    pub chance: Vec<CardDef>,
    pub community: Vec<CardDef>,
    pub events: Vec<MarketEventDef>,
    pub forecast_gap_turns: Option<u32>,
    pub rules: Vec<(String, i64)>,
}

/// The index of the first of the first `n` raw tiles that does not
/// convert; -1 when they all do.
pub open spec fn first_bad_tile(raws: Seq<TileRaw>, n: int) -> int
    decreases n,
{
    if n <= 0 {
        -1
    } else {
        let r = first_bad_tile(raws, n - 1);
        if r >= 0 {
            r
        } else if tile_problem(&raws[n - 1]) is Some {
            n - 1
        } else {
            -1
        }
    }
}

/// Keys after upserting each of `added`, in order.
pub open spec fn keys_after(keys: Seq<Seq<char>>, added: Seq<Seq<char>>) -> Seq<Seq<char>>
    decreases added.len(),
{
    if added.len() == 0 {
        keys
    } else {
        let k = keys_after(keys, added.drop_last());
        upserted(k, k, added.last(), added.last())
    }
}

/// A deck after upserting each card of `cards`, in order.
pub open spec fn cards_after(deck: Seq<CardDef>, cards: Seq<CardDef>) -> Seq<CardDef>
    decreases cards.len(),
{
    if cards.len() == 0 {
        deck
    } else {
        let d = cards_after(deck, cards.drop_last());
        upserted(d, card_ids(d), cards.last().id@, cards.last())
    }
}

/// The market events after upserting each of `events`, in order.
pub open spec fn events_after(pool: Seq<MarketEventDef>, events: Seq<MarketEventDef>) -> Seq<MarketEventDef>
    decreases events.len(),
{
    if events.len() == 0 {
        pool
    } else {
        let d = events_after(pool, events.drop_last());
        upserted(d, event_ids(d), events.last().id@, events.last())
    }
}

/// The rules after setting each of `set`, in order.
pub open spec fn rules_after(rules: Seq<(Seq<char>, i64)>, set: Seq<(Seq<char>, i64)>) -> Seq<(Seq<char>, i64)>
    decreases set.len(),
{
    if set.len() == 0 {
        rules
    } else {
        let d = rules_after(rules, set.drop_last());
        upserted(d, rule_keys(d), set.last().0, set.last())
    }
}

pub open spec fn raw_ids(raws: Seq<TileRaw>) -> Seq<Seq<char>> {
    raws.map_values(|r: TileRaw| r.id@)
}

/// Where `key` last occurs among the first `n` keys, `-1` if it does not.
pub open spec fn last_key_at(keys: Seq<Seq<char>>, key: Seq<char>, n: int) -> int
    decreases n,
{
    if n <= 0 {
        -1
    } else if keys[n - 1] == key {
        n - 1
    } else {
        last_key_at(keys, key, n - 1)
    }
}

/// `def` is what `raw` converts to.
pub open spec fn converts_to(raw: TileRaw, def: TileDef) -> bool {
    &&& def.id@ == raw.id@
    &&& def.name@ == raw.name@
    &&& kind_from_raw(&raw, def.kind)
}

/// Each tile of `board` (the first with its id) is the conversion of the
/// last of `raws` with that id, or, where none has it, the tile `base` had
/// in its place.
pub open spec fn tiles_loaded(base: Seq<TileDef>, raws: Seq<TileRaw>, board: Seq<TileDef>) -> bool {
    forall|i: int| 0 <= i < board.len() && key_at(tile_ids(board), #[trigger] board[i].id@, board.len() as int) == i ==> {
        let j = last_key_at(raw_ids(raws), board[i].id@, raws.len() as int);
        &&& j >= 0 ==> converts_to(raws[j], board[i])
        &&& j < 0 ==> i < base.len() && board[i] == base[i]
    }
}

proof fn lemma_key_at_pushed(keys: Seq<Seq<char>>, x: Seq<char>, key: Seq<char>)
    ensures
        key_at(keys, key, keys.len() as int) >= 0 ==> key_at(keys.push(x), key, (keys.len() + 1) as int) == key_at(keys, key, keys.len() as int),
        key_at(keys, key, keys.len() as int) < 0 ==> key_at(keys.push(x), key, (keys.len() + 1) as int) == if x == key { keys.len() as int } else { -1 },
{
    lemma_key_at_push(keys, x, key, keys.len() as int);
}

proof fn lemma_last_key_push(raws: Seq<TileRaw>, r: TileRaw, key: Seq<char>)
    ensures
        last_key_at(raw_ids(raws.push(r)), key, (raws.len() + 1) as int) == if r.id@ == key {
            raws.len() as int
        } else {
            last_key_at(raw_ids(raws), key, raws.len() as int)
        },
{
    assert(raw_ids(raws.push(r)) =~= raw_ids(raws).push(r.id@));
    lemma_last_prefix(raw_ids(raws), r.id@, key, raws.len() as int);
}

proof fn lemma_last_prefix(keys: Seq<Seq<char>>, x: Seq<char>, key: Seq<char>, n: int)
    requires
        0 <= n <= keys.len(),
    ensures
        last_key_at(keys.push(x), key, n) == last_key_at(keys, key, n),
    decreases n,
{
    if n > 0 {
        lemma_last_prefix(keys, x, key, n - 1);
    }
}

proof fn lemma_last_range(keys: Seq<Seq<char>>, key: Seq<char>, n: int)
    requires
        0 <= n <= keys.len(),
    ensures
        -1 <= last_key_at(keys, key, n) < n,
    decreases n,
{
    if n > 0 {
        lemma_last_range(keys, key, n - 1);
    }
}

/// Upserting the conversion of one more raw tile keeps the board loaded.
proof fn lemma_loaded_step(base: Seq<TileDef>, raws: Seq<TileRaw>, board: Seq<TileDef>, r: TileRaw, def: TileDef)
    requires
        tiles_loaded(base, raws, board),
        converts_to(r, def),
    ensures
        tiles_loaded(base, raws.push(r), upserted(board, tile_ids(board), def.id@, def)),
{
    let ids = tile_ids(board);
    let key = def.id@;
    let nb = upserted(board, ids, key, def);
    let p = key_at(ids, key, ids.len() as int);
    lemma_key_range(ids, key, ids.len() as int);
    lemma_ids_upserted(board, def);
    let nids = tile_ids(nb);
    assert forall|i: int| 0 <= i < nb.len() && key_at(nids, #[trigger] nb[i].id@, nb.len() as int) == i implies {
        let j = last_key_at(raw_ids(raws.push(r)), nb[i].id@, (raws.len() + 1) as int);
        &&& j >= 0 ==> converts_to(raws.push(r)[j], nb[i])
        &&& j < 0 ==> i < base.len() && nb[i] == base[i]
    } by {
        let id = nb[i].id@;
        lemma_last_key_push(raws, r, id);
        lemma_last_range(raw_ids(raws), id, raws.len() as int);
        if p >= 0 {
            assert(nids =~= ids);
            if id == key {
                lemma_key_range(ids, key, ids.len() as int);
                assert(i == p);
            } else {
                assert(nb[i] == board[i]);
            }
        } else {
            assert(nids =~= ids.push(key));
            lemma_key_at_pushed(ids, key, id);
            if i < board.len() {
                assert(nb[i] == board[i]);
                assert(id == ids[i]);
                if id == key {
                    assert(key_at(ids, key, ids.len() as int) >= 0) by {
                        lemma_key_found(ids, key, i, ids.len() as int);
                    }
                }
            }
        }
    }
}

proof fn lemma_key_found(keys: Seq<Seq<char>>, key: Seq<char>, i: int, n: int)
    requires
        0 <= i < n <= keys.len(),
        keys[i] == key,
    ensures
        key_at(keys, key, n) >= 0,
    decreases n,
{
    if n - 1 > i {
        lemma_key_found(keys, key, i, n - 1);
    }
}

proof fn lemma_ids_upserted(board: Seq<TileDef>, t: TileDef)
    ensures
        tile_ids(upserted(board, tile_ids(board), t.id@, t)) == upserted(tile_ids(board), tile_ids(board), t.id@, t.id@),
{
    lemma_key_range(tile_ids(board), t.id@, board.len() as int);
    assert(tile_ids(upserted(board, tile_ids(board), t.id@, t)) =~= upserted(tile_ids(board), tile_ids(board), t.id@, t.id@));
}

proof fn lemma_bad_stays(raws: Seq<TileRaw>, k: int, m: int)
    requires
        first_bad_tile(raws, k) >= 0,
        k <= m,
    ensures
        first_bad_tile(raws, m) == first_bad_tile(raws, k),
    decreases m - k,
{
    if k < m {
        lemma_bad_stays(raws, k, m - 1);
    }
}

impl RegistryBuilder {
    /// Layers one mod's data on the registries: its tiles (each checked),
    /// then its cards, market events, forecast gap and rules. Stops at the
    /// first tile that does not convert.
    pub fn load_data(&mut self, mod_id: &str, data: ModData) -> (r: Result<(), ModError>)
        ensures
            ({
                let bad = first_bad_tile(data.tiles@, data.tiles@.len() as int);
                &&& r is Err <==> bad >= 0
                &&& r matches Err(e) ==> e matches ModError::InvalidTile { mod_id: m, tile, reason } && m@ == mod_id@
                    && tile@ == data.tiles@[bad].id@ && reason@ == tile_problem(&data.tiles@[bad])->0
                &&& r is Ok ==> {
                    &&& tile_ids(final(self)@.board) == keys_after(tile_ids(old(self)@.board), raw_ids(data.tiles@))
                    &&& tiles_loaded(old(self)@.board, data.tiles@, final(self)@.board)
                    &&& final(self)@.chance == cards_after(old(self)@.chance, data.chance@)
                    &&& final(self)@.community == cards_after(old(self)@.community, data.community@)
                    &&& final(self)@.market_events == events_after(old(self)@.market_events, data.events@)
                    &&& final(self)@.forecast_gap_turns == match data.forecast_gap_turns {
                        Some(g) => Some(g),
                        None => old(self)@.forecast_gap_turns,
                    }
                    &&& final(self)@.rules == rules_after(
                        old(self)@.rules,
                        data.rules@.map_values(|e: (String, i64)| (e.0@, e.1)),
                    )
                }
            }),
    {
        let ghost raws = data.tiles@;
        let ghost ids0 = tile_ids(self@.board);
        let ModData { tiles, chance, community, events, forecast_gap_turns, rules } = data;
        let n = tiles.len();
        let mut tiles = tiles;
        let mut k: usize = 0;
        while k < n
            invariant
                n == raws.len(),
                k <= n,
                tiles@ == raws.subrange(k as int, n as int),
                first_bad_tile(raws, k as int) == -1,
                tile_ids(self@.board) == keys_after(ids0, raw_ids(raws.subrange(0, k as int))),
                tiles_loaded(old(self)@.board, raws.subrange(0, k as int), self@.board),
                ids0 == tile_ids(old(self)@.board),
                raws == data.tiles@,
                self@.chance == old(self)@.chance,
                self@.community == old(self)@.community,
                self@.market_events == old(self)@.market_events,
                self@.forecast_gap_turns == old(self)@.forecast_gap_turns,
                self@.rules == old(self)@.rules,
            decreases n - k,
        {
            proof {
                assert(tiles@.len() > 0);
            }
            let raw = tiles.remove(0);
            proof {
                assert(raw == raws[k as int]);
                assert(tiles@ =~= raws.subrange(k + 1, n as int));
                assert(raw_ids(raws.subrange(0, k + 1)).drop_last() =~= raw_ids(raws.subrange(0, k as int)));
            }
            match raw.into_def(mod_id) {
                Ok(def) => {
                    proof {
                        lemma_ids_upserted(self@.board, def);
                        assert(raws.subrange(0, k + 1) =~= raws.subrange(0, k as int).push(raw));
                        lemma_loaded_step(old(self)@.board, raws.subrange(0, k as int), self@.board, raw, def);
                    }
                    self.upsert_tile(mod_id, def);
                },
                Err(e) => {
                    proof {
                        assert(tile_problem(&raws[k as int]) is Some);
                        assert(first_bad_tile(raws, k + 1) == k);
                        lemma_bad_stays(raws, k + 1, n as int);
                    }
                    return Err(e);
                },
            }
            k = k + 1;
        }
        assert(raws.subrange(0, n as int) =~= raws);
        self.load_cards(mod_id, chance, true);
        self.load_cards(mod_id, community, false);
        self.load_events(mod_id, events);
        if let Some(g) = forecast_gap_turns {
            self.set_forecast_gap(mod_id, g);
        }
        self.load_rules(mod_id, rules);
        Ok(())
    }

    fn load_cards(&mut self, mod_id: &str, cards: Vec<CardDef>, chance: bool)
        ensures
            chance ==> final(self)@.chance == cards_after(old(self)@.chance, cards@) && final(self)@.community
                == old(self)@.community,
            !chance ==> final(self)@.community == cards_after(old(self)@.community, cards@) && final(self)@.chance
                == old(self)@.chance,
            final(self)@.board == old(self)@.board,
            final(self)@.market_events == old(self)@.market_events,
            final(self)@.forecast_gap_turns == old(self)@.forecast_gap_turns,
            final(self)@.rules == old(self)@.rules,
    {
        let ghost all = cards@;
        let n = cards.len();
        let mut cards = cards;
        let mut k: usize = 0;
        while k < n
            invariant
                n == all.len(),
                k <= n,
                cards@ == all.subrange(k as int, n as int),
                chance ==> self@.chance == cards_after(old(self)@.chance, all.subrange(0, k as int)) && self@.community
                    == old(self)@.community,
                !chance ==> self@.community == cards_after(old(self)@.community, all.subrange(0, k as int))
                    && self@.chance == old(self)@.chance,
                self@.board == old(self)@.board,
                self@.market_events == old(self)@.market_events,
                self@.forecast_gap_turns == old(self)@.forecast_gap_turns,
                self@.rules == old(self)@.rules,
            decreases n - k,
        {
            proof {
                assert(cards@.len() > 0);
            }
            let card = cards.remove(0);
            proof {
                assert(card == all[k as int]);
                assert(cards@ =~= all.subrange(k + 1, n as int));
                assert(all.subrange(0, k + 1).drop_last() =~= all.subrange(0, k as int));
            }
            if chance {
                self.upsert_chance(mod_id, card);
            } else {
                self.upsert_community(mod_id, card);
            }
            k = k + 1;
        }
        assert(all.subrange(0, n as int) =~= all);
    }

    fn load_events(&mut self, mod_id: &str, events: Vec<MarketEventDef>)
        ensures
            final(self)@.market_events == events_after(old(self)@.market_events, events@),
            final(self)@.board == old(self)@.board,
            final(self)@.chance == old(self)@.chance,
            final(self)@.community == old(self)@.community,
            final(self)@.forecast_gap_turns == old(self)@.forecast_gap_turns,
            final(self)@.rules == old(self)@.rules,
    {
        let ghost all = events@;
        let n = events.len();
        let mut events = events;
        let mut k: usize = 0;
        while k < n
            invariant
                n == all.len(),
                k <= n,
                events@ == all.subrange(k as int, n as int),
                self@.market_events == events_after(old(self)@.market_events, all.subrange(0, k as int)),
                self@.board == old(self)@.board,
                self@.chance == old(self)@.chance,
                self@.community == old(self)@.community,
                self@.forecast_gap_turns == old(self)@.forecast_gap_turns,
                self@.rules == old(self)@.rules,
            decreases n - k,
        {
            proof {
                assert(events@.len() > 0);
            }
            let event = events.remove(0);
            proof {
                assert(event == all[k as int]);
                assert(events@ =~= all.subrange(k + 1, n as int));
                assert(all.subrange(0, k + 1).drop_last() =~= all.subrange(0, k as int));
            }
            self.upsert_event(mod_id, event);
            k = k + 1;
        }
        assert(all.subrange(0, n as int) =~= all);
    }

    fn load_rules(&mut self, mod_id: &str, rules: Vec<(String, i64)>)
        ensures
            final(self)@.rules == rules_after(old(self)@.rules, rules@.map_values(|e: (String, i64)| (e.0@, e.1))),
            final(self)@.board == old(self)@.board,
            final(self)@.chance == old(self)@.chance,
            final(self)@.community == old(self)@.community,
            final(self)@.market_events == old(self)@.market_events,
            final(self)@.forecast_gap_turns == old(self)@.forecast_gap_turns,
    {
        let ghost all = rules@.map_values(|e: (String, i64)| (e.0@, e.1));
        let n = rules.len();
        let mut k: usize = 0;
        while k < rules.len()
            invariant
                n == all.len() == rules@.len(),
                all == rules@.map_values(|e: (String, i64)| (e.0@, e.1)),
                k <= n,
                self@.rules == rules_after(old(self)@.rules, all.subrange(0, k as int)),
                self@.board == old(self)@.board,
                self@.chance == old(self)@.chance,
                self@.community == old(self)@.community,
                self@.market_events == old(self)@.market_events,
                self@.forecast_gap_turns == old(self)@.forecast_gap_turns,
            decreases n - k,
        {
            proof {
                assert(all.subrange(0, k + 1).drop_last() =~= all.subrange(0, k as int));
            }
            self.set_rule(mod_id, rules[k].0.as_str(), rules[k].1);
            k = k + 1;
        }
        assert(all.subrange(0, n as int) =~= all);
    }
}

} // verus!
