//! Typed console commands: one line in, one client message out, or
//! nothing for a blank or unknown line.
use vstd::prelude::*;

use crate::command::{CommandKind, CommandModel};
use crate::mods::{all_digits, chars_of, decimal, is_digit, is_space, unsigned_digits};
use crate::content::RuleParams;
use crate::protocol::{ClientMessage, RoomSettings};

verus! {

// -- Words and numbers -----------------------------------------------------------

/// The words of `s` (maximal runs of non-space characters), and whether
/// `s` ends inside a word.
pub open spec fn split_words(s: Seq<char>) -> (Seq<Seq<char>>, bool)
    decreases s.len(),
{
    if s.len() == 0 {
        (Seq::empty(), false)
    } else {
        let (ws, open) = split_words(s.drop_last());
        let c = s.last();
        if is_space(c) {
            (ws, false)
        } else if open {
            (ws.update(ws.len() - 1, ws.last().push(c)), true)
        } else {
            (ws.push(seq![c]), true)
        }
    }
}

pub open spec fn words(s: Seq<char>) -> Seq<Seq<char>> {
    split_words(s).0
}

/// The pieces of `s` between the commas, in order.
pub open spec fn comma_pieces(s: Seq<char>) -> Seq<Seq<char>>
    decreases s.len(),
{
    if s.len() == 0 {
        seq![Seq::empty()]
    } else {
        let p = comma_pieces(s.drop_last());
        if s.last() == ',' {
            p.push(Seq::empty())
        } else {
            p.update(p.len() - 1, p.last().push(s.last()))
        }
    }
}

/// `s` read as an unsigned number at most `max`, the way `str::parse`
/// reads an unsigned integer type.
pub open spec fn uint_spec(s: Seq<char>, max: int) -> Option<int> {
    let d = unsigned_digits(s);
    if d.len() == 0 || !all_digits(d) || decimal(d) > max {
        None
    } else {
        Some(decimal(d))
    }
}

/// `s` read as an `i64` the way `str::parse` reads it.
pub open spec fn i64_spec(s: Seq<char>) -> Option<i64> {
    if s.len() > 0 && s[0] == '-' {
        let d = s.drop_first();
        if d.len() == 0 || !all_digits(d) || decimal(d) > 0x8000_0000_0000_0000 {
            None
        } else {
            Some((-decimal(d)) as i64)
        }
    } else {
        match uint_spec(s, i64::MAX as int) {
            Some(v) => Some(v as i64),
            None => None,
        }
    }
}

pub open spec fn u8_spec(s: Seq<char>) -> Option<u8> {
    match uint_spec(s, 255) {
        Some(v) => Some(v as u8),
        None => None,
    }
}

/// The comma-separated tile ids of a trade side; `-` for none.
pub open spec fn tile_list(raw: Seq<char>) -> Seq<Seq<char>> {
    if raw == "-"@ {
        Seq::empty()
    } else {
        comma_pieces(raw).filter(|p: Seq<char>| p.len() > 0)
    }
}

/// The card values of a route; entries that are not numbers are dropped.
pub open spec fn u8_list_upto(pieces: Seq<Seq<char>>, n: int) -> Seq<u8>
    decreases n,
{
    if n <= 0 {
        Seq::empty()
    } else {
        let rest = u8_list_upto(pieces, n - 1);
        match u8_spec(pieces[n - 1]) {
            Some(v) => rest.push(v),
            None => rest,
        }
    }
}

pub open spec fn u8_list(raw: Seq<char>) -> Seq<u8> {
    u8_list_upto(comma_pieces(raw), comma_pieces(raw).len() as int)
}

/// `ws` joined with single spaces.
pub open spec fn joined(ws: Seq<Seq<char>>) -> Seq<char>
    decreases ws.len(),
{
    if ws.len() == 0 {
        Seq::empty()
    } else if ws.len() == 1 {
        ws[0]
    } else {
        joined(ws.drop_last()) + seq![' '] + ws.last()
    }
}

/// A timer value: `off` or `none` disables it, otherwise seconds.
pub open spec fn timer_spec(v: Seq<char>) -> Option<Option<u64>> {
    if v == "off"@ || v == "none"@ {
        Some(None)
    } else {
        match uint_spec(v, u64::MAX as int) {
            Some(x) => Some(Some(x as u64)),
            None => None,
        }
    }
}

/// One `set <field> <value>` edit; `None` for an unknown field or a value
/// that does not read.
pub open spec fn setting_spec(s: RoomSettings, field: Seq<char>, value: Seq<char>) -> Option<RoomSettings> {
    let r = s.rules;
    let int_rule = i64_spec(value);
    let byte_rule = u8_spec(value);
    if field == "game"@ {
        match timer_spec(value) {
            Some(t) => Some(RoomSettings { game_seconds: t, ..s }),
            None => None,
        }
    } else if field == "turn"@ {
        match timer_spec(value) {
            Some(t) => Some(RoomSettings { turn_seconds: t, ..s }),
            None => None,
        }
    } else if field == "bank"@ {
        match timer_spec(value) {
            Some(t) => Some(RoomSettings { time_bank_seconds: t, ..s }),
            None => None,
        }
    } else if field == "starting_balance"@ {
        match int_rule {
            Some(v) => Some(RoomSettings { rules: RuleParams { starting_balance: v, ..r }, ..s }),
            None => None,
        }
    } else if field == "go_salary"@ {
        match int_rule {
            Some(v) => Some(RoomSettings { rules: RuleParams { go_salary: v, ..r }, ..s }),
            None => None,
        }
    } else if field == "velocity_min"@ {
        match byte_rule {
            Some(v) => Some(RoomSettings { rules: RuleParams { velocity_min: v, ..r }, ..s }),
            None => None,
        }
    } else if field == "velocity_max"@ {
        match byte_rule {
            Some(v) => Some(RoomSettings { rules: RuleParams { velocity_max: v, ..r }, ..s }),
            None => None,
        }
    } else if field == "max_houses"@ {
        match byte_rule {
            Some(v) => Some(RoomSettings { rules: RuleParams { max_houses_per_property: v, ..r }, ..s }),
            None => None,
        }
    } else if field == "bankruptcy_threshold"@ {
        match int_rule {
            Some(v) => Some(RoomSettings { rules: RuleParams { bankruptcy_threshold: v, ..r }, ..s }),
            None => None,
        }
    } else if field == "expropriation"@ {
        match int_rule {
            Some(v) => Some(RoomSettings { rules: RuleParams { expropriation: v, ..r }, ..s }),
            None => None,
        }
    } else if field == "rent_boost"@ {
        match int_rule {
            Some(v) => Some(RoomSettings { rules: RuleParams { rent_boost: v, ..r }, ..s }),
            None => None,
        }
    } else if field == "win_full_groups"@ {
        match int_rule {
            Some(v) => Some(RoomSettings { rules: RuleParams { win_full_groups: v, ..r }, ..s }),
            None => None,
        }
    } else if field == "win_points"@ {
        match int_rule {
            Some(v) => Some(RoomSettings { rules: RuleParams { win_victory_points: v, ..r }, ..s }),
            None => None,
        }
    } else if field == "subsidiary_pool"@ {
        match int_rule {
            Some(v) => Some(RoomSettings { rules: RuleParams { subsidiary_pool_factor: v, ..r }, ..s }),
            None => None,
        }
    } else if field == "conglomerate_pool"@ {
        match int_rule {
            Some(v) => Some(RoomSettings { rules: RuleParams { conglomerate_pool_factor: v, ..r }, ..s }),
            None => None,
        }
    } else {
        None
    }
}

/// What a console line asks for.
pub enum LineMeaning {
    Start,
    PlayAgain,
    Leave,
    AddBot,
    RemoveBot,
    Configure(RoomSettings),
    Command(CommandModel),
    Feedback { rating: u8, comment: Option<Seq<char>> },
}

/// The meaning of a message the console sends.
pub open spec fn meaning_of(m: ClientMessage) -> Option<LineMeaning> {
    match m {
        ClientMessage::Start => Some(LineMeaning::Start),
        ClientMessage::PlayAgain => Some(LineMeaning::PlayAgain),
        ClientMessage::Leave => Some(LineMeaning::Leave),
        ClientMessage::AddBot => Some(LineMeaning::AddBot),
        ClientMessage::RemoveBot => Some(LineMeaning::RemoveBot),
        ClientMessage::Configure { settings } => Some(LineMeaning::Configure(settings)),
        ClientMessage::Cmd { cmd } => Some(LineMeaning::Command(cmd@)),
        ClientMessage::Feedback { rating, comment } => Some(LineMeaning::Feedback {
            rating,
            comment: match comment {
                Some(c) => Some(c@),
                None => None,
            },
        }),
        _ => None,
    }
}

pub open spec fn cmd(c: CommandModel) -> Option<LineMeaning> {
    Some(LineMeaning::Command(c))
}

/// The message a console line stands for. Lone words: `start`, `again`,
/// `leave`, `addbot`, `rmbot`, `card`, `end`, `resign`; with arguments:
/// `set <field> <value>`, `play <n>`, `route <n,n,..>`, `bribe <n>`,
/// `vote yes|no`, `bid <n>`, `build|sell|seize|boost|mortgage|redeem
/// <tile>`, `offer <seat> <give$> <tiles|-> <want$> <tiles|->`,
/// `accept|refuse|cancel <id>`, `feedback <1-5> [comment]`. Anything else
/// stands for nothing.
pub open spec fn line_meaning(ids: Seq<Seq<char>>, settings: Option<RoomSettings>, line: Seq<char>) -> Option<LineMeaning> {
    let w = words(line);
    if w.len() == 0 {
        None
    } else if w.len() == 1 {
        let a = w[0];
        if a == "start"@ {
            Some(LineMeaning::Start)
        } else if a == "again"@ {
            Some(LineMeaning::PlayAgain)
        } else if a == "leave"@ {
            Some(LineMeaning::Leave)
        } else if a == "addbot"@ {
            Some(LineMeaning::AddBot)
        } else if a == "rmbot"@ {
            Some(LineMeaning::RemoveBot)
        } else if a == "card"@ {
            cmd(CommandModel::UseJailCard)
        } else if a == "end"@ {
            cmd(CommandModel::EndTurn)
        } else if a == "resign"@ {
            cmd(CommandModel::Resign)
        } else {
            None
        }
    } else {
        let a = w[0];
        let b = w[1];
        if a == "set"@ {
            if w.len() < 3 || settings is None {
                None
            } else {
                match setting_spec(settings->0, b, w[2]) {
                    Some(s) => Some(LineMeaning::Configure(s)),
                    None => None,
                }
            }
        } else if a == "play"@ {
            match u8_spec(b) {
                Some(v) => cmd(CommandModel::PlayMovementCard { value: v }),
                None => None,
            }
        } else if a == "route"@ {
            cmd(CommandModel::ChooseLegalRoute { order: u8_list(b) })
        } else if a == "bribe"@ {
            match i64_spec(b) {
                Some(v) => cmd(CommandModel::OfferBribe { amount: v }),
                None => None,
            }
        } else if a == "vote"@ {
            if b == "yes"@ {
                cmd(CommandModel::VoteOnBribe { accept: true })
            } else if b == "no"@ {
                cmd(CommandModel::VoteOnBribe { accept: false })
            } else {
                None
            }
        } else if a == "bid"@ {
            match i64_spec(b) {
                Some(v) => cmd(CommandModel::SubmitBlindBid { amount: v }),
                None => None,
            }
        } else if a == "build"@ {
            cmd(CommandModel::Build { tile: b })
        } else if a == "sell"@ {
            cmd(CommandModel::SellHouse { tile: b })
        } else if a == "seize"@ {
            cmd(CommandModel::Expropriate { tile: b })
        } else if a == "boost"@ {
            cmd(CommandModel::BoostRent { tile: b })
        } else if a == "mortgage"@ {
            cmd(CommandModel::Mortgage { tile: b })
        } else if a == "redeem"@ {
            cmd(CommandModel::Unmortgage { tile: b })
        } else if a == "offer"@ {
            match uint_spec(b, usize::MAX as int) {
                Some(seat) => if seat < ids.len() && w.len() >= 6 && i64_spec(w[2]) is Some && i64_spec(w[4]) is Some {
                    cmd(CommandModel::ProposeTrade {
                        to: ids[seat],
                        give_cash: i64_spec(w[2])->0,
                        give_tiles: tile_list(w[3]),
                        receive_cash: i64_spec(w[4])->0,
                        receive_tiles: tile_list(w[5]),
                    })
                } else {
                    None
                },
                None => None,
            }
        } else if a == "accept"@ {
            match uint_spec(b, u32::MAX as int) {
                Some(v) => cmd(CommandModel::AcceptTrade { trade: v as u32 }),
                None => None,
            }
        } else if a == "refuse"@ {
            match uint_spec(b, u32::MAX as int) {
                Some(v) => cmd(CommandModel::DeclineTrade { trade: v as u32 }),
                None => None,
            }
        } else if a == "cancel"@ {
            match uint_spec(b, u32::MAX as int) {
                Some(v) => cmd(CommandModel::CancelTrade { trade: v as u32 }),
                None => None,
            }
        } else if a == "feedback"@ {
            match u8_spec(b) {
                Some(r) => Some(LineMeaning::Feedback {
                    rating: r,
                    comment: if w.len() > 2 {
                        Some(joined(w.subrange(2, w.len() as int)))
                    } else {
                        None
                    },
                }),
                None => None,
            }
        } else {
            None
        }
    }
}

// -- Reading a line -----------------------------------------------------------------

/// A string holding exactly the characters `chars`.
#[verifier::external_body]
fn string_from(chars: &Vec<char>) -> (r: String)
    ensures
        r@ == chars@,
{
    chars.iter().collect()
}

/// Whether `a` spells `lit`.
fn spells(a: &Vec<char>, lit: &str) -> (r: bool)
    ensures
        r == (a@ == lit@),
{
    let b = chars_of(lit);
    if a.len() != b.len() {
        return false;
    }
    let mut i: usize = 0;
    while i < a.len()
        invariant
            i <= a@.len() == b@.len(),
            b@ == lit@,
            forall|j: int| 0 <= j < i ==> a@[j] == b@[j],
        decreases a@.len() - i,
    {
        if a[i] != b[i] {
            return false;
        }
        i = i + 1;
    }
    assert(a@ =~= b@);
    true
}

proof fn lemma_words_open(s: Seq<char>)
    ensures
        split_words(s).1 ==> split_words(s).0.len() > 0,
    decreases s.len(),
{
    if s.len() > 0 {
        lemma_words_open(s.drop_last());
    }
}

/// The words of `chars`.
fn split_words_of(chars: &Vec<char>) -> (r: Vec<Vec<char>>)
    ensures
        r@.len() == words(chars@).len(),
        forall|i: int| 0 <= i < r@.len() ==> (#[trigger] r@[i])@ == words(chars@)[i],
{
    let mut out: Vec<Vec<char>> = Vec::new();
    let mut cur: Vec<char> = Vec::new();
    let mut open = false;
    let mut k: usize = 0;
    while k < chars.len()
        invariant
            k <= chars@.len(),
            ({
                let (ws, o) = split_words(chars@.subrange(0, k as int));
                &&& open == o
                &&& open ==> out@.len() + 1 == ws.len() && cur@ == ws.last()
                &&& !open ==> out@.len() == ws.len()
                &&& forall|i: int| 0 <= i < out@.len() ==> (#[trigger] out@[i])@ == ws[i]
            }),
        decreases chars@.len() - k,
    {
        proof {
            assert(chars@.subrange(0, k + 1).drop_last() =~= chars@.subrange(0, k as int));
            lemma_words_open(chars@.subrange(0, k as int));
        }
        let c = chars[k];
        if crate::mods::space(c) {
            if open {
                out.push(cur);
                cur = Vec::new();
            }
            open = false;
        } else {
            if !open {
                cur = Vec::new();
            }
            cur.push(c);
            open = true;
        }
        proof {
            let (ws, o) = split_words(chars@.subrange(0, k + 1));
            assert forall|i: int| 0 <= i < out@.len() implies (#[trigger] out@[i])@ == ws[i] by {}
        }
        k = k + 1;
    }
    if open {
        out.push(cur);
    }
    assert(chars@.subrange(0, chars@.len() as int) =~= chars@);
    out
}

proof fn lemma_decimal_nonneg(d: Seq<char>)
    requires
        all_digits(d),
    ensures
        decimal(d) >= 0,
    decreases d.len(),
{
    if d.len() > 0 {
        lemma_decimal_nonneg(d.drop_last());
    }
}

proof fn lemma_decimal_prefix(d: Seq<char>, j: int)
    requires
        0 <= j <= d.len(),
        all_digits(d),
    ensures
        decimal(d) >= decimal(d.subrange(0, j)),
    decreases d.len(),
{
    if j < d.len() {
        lemma_decimal_nonneg(d.drop_last());
        lemma_decimal_prefix(d.drop_last(), j);
        assert(d.drop_last().subrange(0, j) =~= d.subrange(0, j));
    } else {
        assert(d.subrange(0, j) =~= d);
    }
}

/// The digits `chars[start..]` read as a number at most `max`; `None` when
/// they are empty, not all digits, or too large.
fn read_digits(chars: &Vec<char>, start: usize, max: u64) -> (r: Option<u64>)
    requires
        start <= chars@.len(),
    ensures
        ({
            let d = chars@.subrange(start as int, chars@.len() as int);
            r == if d.len() == 0 || !all_digits(d) || decimal(d) > max {
                None
            } else {
                Some(decimal(d) as u64)
            }
        }),
        r matches Some(v) ==> v as int == decimal(chars@.subrange(start as int, chars@.len() as int)) && v <= max,
{
    let n = chars.len();
    let ghost d = chars@.subrange(start as int, n as int);
    if start == n {
        return None;
    }
    let mut value: u128 = 0;
    let mut k: usize = start;
    while k < n
        invariant
            start <= k <= n == chars@.len(),
            start < n,
            d == chars@.subrange(start as int, n as int),
            forall|i: int| start <= i < k ==> is_digit(chars@[i]),
            value == decimal(chars@.subrange(start as int, k as int)),
            value <= max,
        decreases n - k,
    {
        let ch = chars[k];
        if !('0' <= ch && ch <= '9') {
            assert(!is_digit(d[k - start]));
            return None;
        }
        assert(chars@.subrange(start as int, k + 1).drop_last() =~= chars@.subrange(start as int, k as int));
        let digit = (ch as u32 - '0' as u32) as u128;
        value = value * 10 + digit;
        if value > max as u128 {
            proof {
                if all_digits(d) {
                    assert(d.subrange(0, k + 1 - start) =~= chars@.subrange(start as int, k + 1));
                    lemma_decimal_prefix(d, k + 1 - start);
                }
            }
            return None;
        }
        k = k + 1;
    }
    assert(chars@.subrange(start as int, n as int) =~= d);
    assert forall|i: int| 0 <= i < d.len() implies is_digit(#[trigger] d[i]) by {
        assert(d[i] == chars@[start + i]);
    }
    Some(value as u64)
}

/// `chars` read as an unsigned number at most `max`.
fn parse_uint(chars: &Vec<char>, max: u64) -> (r: Option<u64>)
    ensures
        r matches Some(v) ==> uint_spec(chars@, max as int) == Some(v as int),
        r is None ==> uint_spec(chars@, max as int) is None,
{
    let start: usize = if chars.len() > 0 && chars[0] == '+' {
        1
    } else {
        0
    };
    assert(chars@.subrange(start as int, chars@.len() as int) =~= unsigned_digits(chars@));
    read_digits(chars, start, max)
}

/// `chars` read as an `i64`.
fn parse_i64(chars: &Vec<char>) -> (r: Option<i64>)
    ensures
        r == i64_spec(chars@),
{
    if chars.len() > 0 && chars[0] == '-' {
        assert(chars@.subrange(1, chars@.len() as int) =~= chars@.drop_first());
        match read_digits(chars, 1, 0x8000_0000_0000_0000) {
            Some(v) => {
                if v == 0x8000_0000_0000_0000 {
                    Some(i64::MIN)
                } else {
                    Some(-(v as i64))
                }
            },
            None => None,
        }
    } else {
        match parse_uint(chars, i64::MAX as u64) {
            Some(v) => Some(v as i64),
            None => None,
        }
    }
}

fn parse_u8(chars: &Vec<char>) -> (r: Option<u8>)
    ensures
        r == u8_spec(chars@),
{
    match parse_uint(chars, 255) {
        Some(v) => Some(v as u8),
        None => None,
    }
}

proof fn lemma_pieces_len(s: Seq<char>)
    ensures
        comma_pieces(s).len() >= 1,
    decreases s.len(),
{
    if s.len() > 0 {
        lemma_pieces_len(s.drop_last());
    }
}

/// The comma-separated pieces of `chars`.
fn split_commas(chars: &Vec<char>) -> (r: Vec<Vec<char>>)
    ensures
        r@.len() == comma_pieces(chars@).len(),
        forall|i: int| 0 <= i < r@.len() ==> (#[trigger] r@[i])@ == comma_pieces(chars@)[i],
{
    let mut out: Vec<Vec<char>> = Vec::new();
    let mut cur: Vec<char> = Vec::new();
    let mut k: usize = 0;
    while k < chars.len()
        invariant
            k <= chars@.len(),
            out@.len() + 1 == comma_pieces(chars@.subrange(0, k as int)).len(),
            forall|i: int| 0 <= i < out@.len() ==> (#[trigger] out@[i])@ == comma_pieces(chars@.subrange(0, k as int))[i],
            cur@ == comma_pieces(chars@.subrange(0, k as int)).last(),
        decreases chars@.len() - k,
    {
        proof {
            lemma_pieces_len(chars@.subrange(0, k as int));
            assert(chars@.subrange(0, k + 1).drop_last() =~= chars@.subrange(0, k as int));
        }
        if chars[k] == ',' {
            out.push(cur);
            cur = Vec::new();
        } else {
            cur.push(chars[k]);
        }
        k = k + 1;
    }
    out.push(cur);
    assert(chars@.subrange(0, chars@.len() as int) =~= chars@);
    proof {
        lemma_pieces_len(chars@);
        let p = comma_pieces(chars@);
        assert forall|i: int| 0 <= i < out@.len() implies (#[trigger] out@[i])@ == p[i] by {}
    }
    out
}

/// The tile ids of a trade side: `-` for none, else comma-separated.
pub fn parse_tile_list(raw: &Vec<char>) -> (r: Vec<String>)
    ensures
        r@.map_values(|x: String| x@) == tile_list(raw@),
{
    if spells(raw, "-") {
        let out: Vec<String> = Vec::new();
        assert(out@.map_values(|x: String| x@) =~= tile_list(raw@));
        return out;
    }
    let pieces = split_commas(raw);
    let ghost ps = comma_pieces(raw@);
    let mut out: Vec<String> = Vec::new();
    let mut k: usize = 0;
    while k < pieces.len()
        invariant
            k <= pieces@.len() == ps.len(),
            ps == comma_pieces(raw@),
            forall|i: int| 0 <= i < pieces@.len() ==> (#[trigger] pieces@[i])@ == ps[i],
            out@.map_values(|x: String| x@) == ps.subrange(0, k as int).filter(|p: Seq<char>| p.len() > 0),
        decreases pieces@.len() - k,
    {
        proof {
            assert(ps.subrange(0, k + 1).drop_last() =~= ps.subrange(0, k as int));
            reveal(Seq::filter);
        }
        if pieces[k].len() > 0 {
            let s = string_from(&pieces[k]);
            out.push(s);
            assert(out@.map_values(|x: String| x@) =~= ps.subrange(0, k as int).filter(|p: Seq<char>| p.len() > 0).push(ps[k as int]));
        }
        k = k + 1;
    }
    assert(ps.subrange(0, ps.len() as int) =~= ps);
    out
}

/// The card values of a route; entries that are not numbers are dropped.
pub fn parse_u8_list(raw: &Vec<char>) -> (r: Vec<u8>)
    ensures
        r@ == u8_list(raw@),
{
    let pieces = split_commas(raw);
    let ghost ps = comma_pieces(raw@);
    let mut out: Vec<u8> = Vec::new();
    let mut k: usize = 0;
    while k < pieces.len()
        invariant
            k <= pieces@.len() == ps.len(),
            ps == comma_pieces(raw@),
            forall|i: int| 0 <= i < pieces@.len() ==> (#[trigger] pieces@[i])@ == ps[i],
            out@ == u8_list_upto(ps, k as int),
        decreases pieces@.len() - k,
    {
        match parse_u8(&pieces[k]) {
            Some(v) => out.push(v),
            None => {},
        }
        k = k + 1;
    }
    out
}

/// The words `ws[from..]` joined with single spaces.
fn join_words(ws: &Vec<Vec<char>>, from: usize) -> (r: Vec<char>)
    requires
        from <= ws@.len(),
    ensures
        r@ == joined(ws@.map_values(|w: Vec<char>| w@).subrange(from as int, ws@.len() as int)),
{
    let ghost vs = ws@.map_values(|w: Vec<char>| w@);
    let mut out: Vec<char> = Vec::new();
    let mut k: usize = from;
    while k < ws.len()
        invariant
            from <= k <= ws@.len(),
            vs == ws@.map_values(|w: Vec<char>| w@),
            out@ == joined(vs.subrange(from as int, k as int)),
        decreases ws@.len() - k,
    {
        proof {
            assert(vs.subrange(from as int, k + 1).drop_last() =~= vs.subrange(from as int, k as int));
        }
        if k > from {
            out.push(' ');
        }
        let w = &ws[k];
        let ghost before = out@;
        proof {
            if k == from {
                assert(vs.subrange(from as int, k as int) =~= Seq::<Seq<char>>::empty());
            }
        }
        let mut i: usize = 0;
        while i < w.len()
            invariant
                i <= w@.len(),
                out@ == before + w@.subrange(0, i as int),
            decreases w@.len() - i,
        {
            out.push(w[i]);
            proof {
                assert(w@.subrange(0, i + 1) =~= w@.subrange(0, i as int).push(w@[i as int]));
            }
            i = i + 1;
        }
        proof {
            assert(w@.subrange(0, w@.len() as int) =~= w@);
            if k == from {
                assert(before =~= Seq::<char>::empty());
                assert(out@ =~= vs.subrange(from as int, k + 1)[0]);
            } else {
                assert(out@ =~= joined(vs.subrange(from as int, k as int)) + seq![' '] + vs[k as int]);
            }
        }
        k = k + 1;
    }
    out
}

/// A timer value: `off` or `none` disables it, otherwise seconds.
fn parse_timer(v: &Vec<char>) -> (r: Option<Option<u64>>)
    ensures
        r == timer_spec(v@),
{
    if spells(v, "off") || spells(v, "none") {
        return Some(None);
    }
    match parse_uint(v, u64::MAX) {
        Some(x) => Some(Some(x)),
        None => None,
    }
}

/// Applies one `set <field> <value>` edit to a copy of the settings.
pub fn apply_setting(s: RoomSettings, field: &Vec<char>, value: &Vec<char>) -> (r: Option<RoomSettings>)
    ensures
        r == setting_spec(s, field@, value@),
{
    let mut out = s;
    if spells(field, "game") {
        out.game_seconds = match parse_timer(value) {
            Some(t) => t,
            None => {
                return None;
            },
        };
    } else if spells(field, "turn") {
        out.turn_seconds = match parse_timer(value) {
            Some(t) => t,
            None => {
                return None;
            },
        };
    } else if spells(field, "bank") {
        out.time_bank_seconds = match parse_timer(value) {
            Some(t) => t,
            None => {
                return None;
            },
        };
    } else if spells(field, "starting_balance") {
        out.rules.starting_balance = match parse_i64(value) {
            Some(v) => v,
            None => {
                return None;
            },
        };
    } else if spells(field, "go_salary") {
        out.rules.go_salary = match parse_i64(value) {
            Some(v) => v,
            None => {
                return None;
            },
        };
    } else if spells(field, "velocity_min") {
        out.rules.velocity_min = match parse_u8(value) {
            Some(v) => v,
            None => {
                return None;
            },
        };
    } else if spells(field, "velocity_max") {
        out.rules.velocity_max = match parse_u8(value) {
            Some(v) => v,
            None => {
                return None;
            },
        };
    } else if spells(field, "max_houses") {
        out.rules.max_houses_per_property = match parse_u8(value) {
            Some(v) => v,
            None => {
                return None;
            },
        };
    } else if spells(field, "bankruptcy_threshold") {
        out.rules.bankruptcy_threshold = match parse_i64(value) {
            Some(v) => v,
            None => {
                return None;
            },
        };
    } else if spells(field, "expropriation") {
        out.rules.expropriation = match parse_i64(value) {
            Some(v) => v,
            None => {
                return None;
            },
        };
    } else if spells(field, "rent_boost") {
        out.rules.rent_boost = match parse_i64(value) {
            Some(v) => v,
            None => {
                return None;
            },
        };
    } else if spells(field, "win_full_groups") {
        out.rules.win_full_groups = match parse_i64(value) {
            Some(v) => v,
            None => {
                return None;
            },
        };
    } else if spells(field, "win_points") {
        out.rules.win_victory_points = match parse_i64(value) {
            Some(v) => v,
            None => {
                return None;
            },
        };
    } else if spells(field, "subsidiary_pool") {
        out.rules.subsidiary_pool_factor = match parse_i64(value) {
            Some(v) => v,
            None => {
                return None;
            },
        };
    } else if spells(field, "conglomerate_pool") {
        out.rules.conglomerate_pool_factor = match parse_i64(value) {
            Some(v) => v,
            None => {
                return None;
            },
        };
    } else {
        return None;
    }
    Some(out)
}

fn command(kind: CommandKind) -> (r: Option<ClientMessage>)
    ensures
        r matches Some(m) && meaning_of(m) == cmd(kind@),
{
    Some(ClientMessage::Cmd { cmd: kind })
}

/// What a console line asks for; `None` for a blank or unknown line.
pub fn parse_command(ids: &Vec<String>, settings: &Option<RoomSettings>, line: &str) -> (r: Option<ClientMessage>)
    ensures
        match line_meaning(ids@.map_values(|s: String| s@), *settings, line@) {
            Some(m) => r matches Some(msg) && meaning_of(msg) == Some(m),
            None => r is None,
        },
{
    let chars = chars_of(line);
    let w = split_words_of(&chars);
    let ghost ws = words(line@);
    if w.len() == 0 {
        return None;
    }
    if w.len() == 1 {
        let a = &w[0];
        return if spells(a, "start") {
            Some(ClientMessage::Start)
        } else if spells(a, "again") {
            Some(ClientMessage::PlayAgain)
        } else if spells(a, "leave") {
            Some(ClientMessage::Leave)
        } else if spells(a, "addbot") {
            Some(ClientMessage::AddBot)
        } else if spells(a, "rmbot") {
            Some(ClientMessage::RemoveBot)
        } else if spells(a, "card") {
            command(CommandKind::UseJailCard)
        } else if spells(a, "end") {
            command(CommandKind::EndTurn)
        } else if spells(a, "resign") {
            command(CommandKind::Resign)
        } else {
            None
        };
    }
    let a = &w[0];
    let b = &w[1];
    if spells(a, "set") {
        if w.len() < 3 {
            return None;
        }
        return match settings {
            Some(s) => match apply_setting(*s, b, &w[2]) {
                Some(next) => Some(ClientMessage::Configure { settings: next }),
                None => None,
            },
            None => None,
        };
    }
    if spells(a, "play") {
        return match parse_u8(b) {
            Some(v) => command(CommandKind::PlayMovementCard { value: v }),
            None => None,
        };
    }
    if spells(a, "route") {
        return command(CommandKind::ChooseLegalRoute { order: parse_u8_list(b) });
    }
    if spells(a, "bribe") {
        return match parse_i64(b) {
            Some(v) => command(CommandKind::OfferBribe { amount: v }),
            None => None,
        };
    }
    if spells(a, "vote") {
        return if spells(b, "yes") {
            command(CommandKind::VoteOnBribe { accept: true })
        } else if spells(b, "no") {
            command(CommandKind::VoteOnBribe { accept: false })
        } else {
            None
        };
    }
    if spells(a, "bid") {
        return match parse_i64(b) {
            Some(v) => command(CommandKind::SubmitBlindBid { amount: v }),
            None => None,
        };
    }
    if spells(a, "build") {
        return command(CommandKind::Build { tile: string_from(b) });
    }
    if spells(a, "sell") {
        return command(CommandKind::SellHouse { tile: string_from(b) });
    }
    if spells(a, "seize") {
        return command(CommandKind::Expropriate { tile: string_from(b) });
    }
    if spells(a, "boost") {
        return command(CommandKind::BoostRent { tile: string_from(b) });
    }
    if spells(a, "mortgage") {
        return command(CommandKind::Mortgage { tile: string_from(b) });
    }
    if spells(a, "redeem") {
        return command(CommandKind::Unmortgage { tile: string_from(b) });
    }
    if spells(a, "offer") {
        let seat = match parse_uint(b, usize::MAX as u64) {
            Some(v) => v as usize,
            None => {
                return None;
            },
        };
        if seat >= ids.len() || w.len() < 6 {
            return None;
        }
        let give_cash = match parse_i64(&w[2]) {
            Some(v) => v,
            None => {
                return None;
            },
        };
        let receive_cash = match parse_i64(&w[4]) {
            Some(v) => v,
            None => {
                return None;
            },
        };
        let to = ids[seat].clone();
        let give_tiles = parse_tile_list(&w[3]);
        let receive_tiles = parse_tile_list(&w[5]);
        return command(CommandKind::ProposeTrade { to, give_cash, give_tiles, receive_cash, receive_tiles });
    }
    if spells(a, "accept") {
        return match parse_uint(b, 0xFFFF_FFFF) {
            Some(v) => command(CommandKind::AcceptTrade { trade: v as u32 }),
            None => None,
        };
    }
    if spells(a, "refuse") {
        return match parse_uint(b, 0xFFFF_FFFF) {
            Some(v) => command(CommandKind::DeclineTrade { trade: v as u32 }),
            None => None,
        };
    }
    if spells(a, "cancel") {
        return match parse_uint(b, 0xFFFF_FFFF) {
            Some(v) => command(CommandKind::CancelTrade { trade: v as u32 }),
            None => None,
        };
    }
    if spells(a, "feedback") {
        let rating = match parse_u8(b) {
            Some(r) => r,
            None => {
                return None;
            },
        };
        let comment = if w.len() > 2 {
            proof {
                assert(w@.map_values(|x: Vec<char>| x@) =~= ws);
            }
            Some(string_from(&join_words(&w, 2)))
        } else {
            None
        };
        return Some(ClientMessage::Feedback { rating, comment });
    }
    None
}

} // verus!
