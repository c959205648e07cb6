//! Records from the location source: pairs of an address identifier and a
//! geographic point, kept as two parallel columns.

use vstd::prelude::*;

use crate::bounding_box::{clamp_i32, Point};
use crate::xml::{tokenize, XmlToken};
use crate::parse_num::{lemma_digits_prefix_le, spec_digits_to_nat, spec_parse_u64};
use crate::postcode::{push_char, spec_is_digit};

verus! {

/// Parallel columns of points and the identifiers they belong to.
#[derive(Debug)]
pub struct Verblijfsobjecten {
    pub points: Vec<Point>,
    /// The address identifier for each point.
    pub postcode_id: Vec<u64>,
}

impl Verblijfsobjecten {
    /// The two columns run in step.
    pub open spec fn wf(self) -> bool {
        self.postcode_id@.len() == self.points@.len()
    }

    /// Record one identifier/point pair.
    pub fn push(&mut self, identificatie: u64, point: Point)
        ensures
            final(self).postcode_id@ == old(self).postcode_id@.push(identificatie),
            final(self).points@ == old(self).points@.push(point),
    {
        self.postcode_id.push(identificatie);
        self.points.push(point);
    }

    /// Concatenate two column sets; order inside each input is kept.
    pub fn merge(self, other: Self) -> (r: Self)
        ensures
            r.postcode_id@ == self.postcode_id@ + other.postcode_id@,
            r.points@ == self.points@ + other.points@,
    {
        let mut merged = self;
        let mut tail = other;
        merged.postcode_id.append(&mut tail.postcode_id);
        merged.points.append(&mut tail.points);
        merged
    }
}

impl Default for Verblijfsobjecten {
    fn default() -> (r: Self)
        ensures
            r.points@ == Seq::<Point>::empty(),
            r.postcode_id@ == Seq::<u64>::empty(),
    {
        Verblijfsobjecten { points: Vec::new(), postcode_id: Vec::new() }
    }
}


/// The character is ASCII whitespace, as the tokens of a coordinate list
/// are separated.
pub open spec fn spec_is_ws(c: char) -> bool {
    c == ' ' || c == '\t' || c == '\n' || c == '\r' || c == '\x0c'
}

/// The finished tokens and the unfinished current token after scanning the
/// first `n` characters: whitespace ends a token, everything else extends
/// it.
pub open spec fn spec_ws_scan(s: Seq<char>, n: int) -> (Seq<Seq<char>>, Seq<char>)
    decreases n,
{
    if n <= 0 {
        (Seq::empty(), Seq::empty())
    } else {
        let (tokens, current) = spec_ws_scan(s, n - 1);
        let c = s[n - 1];
        if spec_is_ws(c) {
            if current.len() > 0 {
                (tokens.push(current), Seq::empty())
            } else {
                (tokens, current)
            }
        } else {
            (tokens, current.push(c))
        }
    }
}

/// The whitespace-separated tokens of a string.
pub open spec fn spec_ws_tokens(s: Seq<char>) -> Seq<Seq<char>> {
    let (tokens, current) = spec_ws_scan(s, s.len() as int);
    if current.len() > 0 {
        tokens.push(current)
    } else {
        tokens
    }
}

/// The views of a token list.
pub open spec fn spec_token_views(tokens: Seq<String>) -> Seq<Seq<char>> {
    Seq::new(tokens.len(), |i: int| tokens[i]@)
}

/// Split a string at runs of ASCII whitespace.
pub fn ws_tokens(s: &str) -> (r: Vec<String>)
    ensures
        spec_token_views(r@) == spec_ws_tokens(s@),
{
    let n = s.unicode_len();
    let mut tokens: Vec<String> = Vec::new();
    let mut current = String::new();
    for i in 0..n
        invariant
            n == s@.len(),
            spec_token_views(tokens@) == spec_ws_scan(s@, i as int).0,
            current@ == spec_ws_scan(s@, i as int).1,
    {
        let c = s.get_char(i);
        if c == ' ' || c == '\t' || c == '\n' || c == '\r' || c == '\x0c' {
            if current.unicode_len() > 0 {
                let finished = current;
                current = String::new();
                tokens.push(finished);
                proof {
                    assert(spec_token_views(tokens@) =~= spec_ws_scan(s@, i as int).0.push(
                        finished@,
                    ));
                }
            }
        } else {
            push_char(&mut current, c);
        }
    }
    if current.unicode_len() > 0 {
        let finished = current;
        tokens.push(finished);
        proof {
            assert(spec_token_views(tokens@) =~= spec_ws_scan(s@, n as int).0.push(finished@));
        }
    }
    tokens
}

/// The position of the first non-digit at or after `i`.
pub open spec fn spec_digit_run_end(s: Seq<char>, i: int) -> int
    decreases s.len() - i,
        when 0 <= i <= s.len()
{
    if i >= s.len() || !spec_is_digit(s[i]) {
        i
    } else {
        spec_digit_run_end(s, i + 1)
    }
}

/// The digit run reaches from `i` to its end, and no further.
pub proof fn lemma_digit_run(s: Seq<char>, i: int)
    requires
        0 <= i <= s.len(),
    ensures
        i <= spec_digit_run_end(s, i) <= s.len(),
        forall|t: int| i <= t < spec_digit_run_end(s, i) ==> spec_is_digit(#[trigger] s[t]),
        spec_digit_run_end(s, i) < s.len() ==> !spec_is_digit(s[spec_digit_run_end(s, i)]),
    decreases s.len() - i,
{
    if i < s.len() && spec_is_digit(s[i]) {
        lemma_digit_run(s, i + 1);
    }
}

/// The first three fraction digits after the dot at `k`, scaled to
/// thousandths; shorter runs are padded with zeros.
pub open spec fn spec_frac3(s: Seq<char>, k: int) -> int {
    let fl = s.len() - (k + 1);
    if fl >= 3 {
        spec_digits_to_nat(s.subrange(k + 1, k + 4))
    } else if fl == 2 {
        spec_digits_to_nat(s.subrange(k + 1, k + 3)) * 10
    } else {
        spec_digits_to_nat(s.subrange(k + 1, k + 2)) * 100
    }
}

/// The magnitude a decimal string denotes from `start` on, in thousandths:
/// a non-empty digit run, optionally followed by a dot and a non-empty
/// digit run of which the first three places count. Rejected when the
/// shape is off or the scaled value exceeds `i64::MAX`.
pub open spec fn spec_fixed_from(s: Seq<char>, start: int) -> Option<int> {
    let k = spec_digit_run_end(s, start);
    if k == start {
        None
    } else if k == s.len() {
        let v = spec_digits_to_nat(s.subrange(start, k)) * 1000;
        if v <= i64::MAX {
            Some(v)
        } else {
            None
        }
    } else if s[k] == '.' && k + 1 < s.len() && spec_digit_run_end(s, k + 1) == s.len() {
        let v = spec_digits_to_nat(s.subrange(start, k)) * 1000 + spec_frac3(s, k);
        if v <= i64::MAX {
            Some(v)
        } else {
            None
        }
    } else {
        None
    }
}

/// The signed fixed-point value a decimal string denotes, in thousandths.
pub open spec fn spec_parse_fixed(s: Seq<char>) -> Option<i64> {
    if s.len() > 0 && s[0] == '-' {
        match spec_fixed_from(s, 1) {
            Option::Some(m) => Some((0 - m) as i64),
            Option::None => None,
        }
    } else {
        match spec_fixed_from(s, 0) {
            Option::Some(m) => Some(m as i64),
            Option::None => None,
        }
    }
}

/// Parse a decimal coordinate into thousandths.
pub fn parse_fixed(s: &str) -> (r: Option<i64>)
    ensures
        r == spec_parse_fixed(s@),
{
    let n = s.unicode_len();
    let neg = n > 0 && s.get_char(0) == '-';
    let start: usize = if neg {
        1
    } else {
        0
    };
    let mag = parse_fixed_from(s, start);
    match mag {
        None => None,
        Some(m) => if neg {
            Some(-(m as i64))
        } else {
            Some(m as i64)
        },
    }
}

/// Parse the magnitude of a decimal coordinate from `start` on.
fn parse_fixed_from(s: &str, start: usize) -> (r: Option<u64>)
    requires
        start <= s@.len(),
    ensures
        match spec_fixed_from(s@, start as int) {
            Option::Some(m) => 0 <= m <= i64::MAX && r == Some(m as u64),
            Option::None => r is None,
        },
{
    proof {
        lemma_digit_run(s@, start as int);
    }
    let n = s.unicode_len();
    let ghost run_end = spec_digit_run_end(s@, start as int);
    let mut i = start;
    let mut vint: u128 = 0;
    loop
        invariant
            n == s@.len(),
            start <= i <= n,
            start <= run_end <= n,
            run_end == spec_digit_run_end(s@, start as int),
            spec_digit_run_end(s@, i as int) == run_end,
            i <= run_end,
            vint == spec_digits_to_nat(s@.subrange(start as int, i as int)),
            vint <= i64::MAX,
        ensures
            i == run_end,
            vint == spec_digits_to_nat(s@.subrange(start as int, i as int)),
            vint <= i64::MAX,
        decreases n - i,
    {
        if i >= n {
            break ;
        }
        let c = s.get_char(i) as u32;
        if c < 48 || c > 57 {
            break ;
        }
        let d = (c - 48) as u128;
        proof {
            assert(s@.subrange(start as int, i + 1).drop_last() =~= s@.subrange(
                start as int,
                i as int,
            ));
            assert(s@.subrange(start as int, i + 1).last() == s@[i as int]);
        }
        let next = vint * 10 + d;
        if next > i64::MAX as u128 {
            proof {
                assert(spec_is_digit(s@[i as int]));
                assert(spec_digit_run_end(s@, i as int) == spec_digit_run_end(s@, i + 1));
                lemma_digit_run(s@, i + 1);
                assert(run_end >= i + 1);
                lemma_digit_run(s@, start as int);
                let run = s@.subrange(start as int, run_end);
                assert(run.take(i + 1 - start) =~= s@.subrange(start as int, i + 1));
                assert forall|t: int| 0 <= t < run.len() implies spec_is_digit(
                    #[trigger] run[t],
                ) by {
                    assert(run[t] == s@[start + t]);
                }
                lemma_digits_prefix_le(run, i + 1 - start);
                assert(spec_digits_to_nat(run) >= next);
                if run_end < s@.len() && s@[run_end] == '.' && run_end + 1 < s@.len()
                    && spec_digit_run_end(s@, run_end + 1) == s@.len() {
                    lemma_digit_run(s@, run_end + 1);
                    assert(spec_frac3(s@, run_end) >= 0) by {
                        lemma_frac3_bounds(s@, run_end);
                    }
                }
            }
            return None;
        }
        vint = next;
        proof {
            assert(spec_is_digit(s@[i as int]));
            assert(spec_digit_run_end(s@, i as int) == spec_digit_run_end(s@, i + 1));
            lemma_digit_run(s@, i + 1);
        }
        i = i + 1;
    }
    proof {
        if i < n {
            assert(!spec_is_digit(s@[i as int]));
        }
    }
    if i == start {
        return None;
    }
    if i == n {
        let v = vint * 1000;
        if v > i64::MAX as u128 {
            return None;
        }
        return Some(v as u64);
    }
    let dot = s.get_char(i);
    if dot != '.' || i + 1 >= n {
        return None;
    }
    // The whole tail after the dot must be digits.
    let frac_start = i + 1;
    let mut t = frac_start;
    while t < n
        invariant
            n == s@.len(),
            start < i < n,
            i == spec_digit_run_end(s@, start as int),
            s@[i as int] == '.',
            frac_start == i + 1,
            frac_start <= t <= n,
            forall|u: int| frac_start <= u < t ==> spec_is_digit(#[trigger] s@[u]),
        decreases n - t,
    {
        let c = s.get_char(t) as u32;
        if c < 48 || c > 57 {
            proof {
                lemma_digit_run_stops(s@, frac_start as int, t as int);
            }
            return None;
        }
        t = t + 1;
    }
    proof {
        lemma_digit_run_all(s@, frac_start as int);
    }
    // The first three fraction places count, padded with zeros.
    let fl = n - frac_start;
    let d1 = (s.get_char(frac_start) as u32 - 48) as u128;
    let f3: u128 = if fl >= 3 {
        let d2 = (s.get_char(frac_start + 1) as u32 - 48) as u128;
        let d3 = (s.get_char(frac_start + 2) as u32 - 48) as u128;
        d1 * 100 + d2 * 10 + d3
    } else if fl == 2 {
        let d2 = (s.get_char(frac_start + 1) as u32 - 48) as u128;
        (d1 * 10 + d2) * 10
    } else {
        d1 * 100
    };
    proof {
        lemma_frac3_value(s@, i as int);
        assert(f3 == spec_frac3(s@, i as int));
    }
    let v = vint * 1000 + f3;
    if v > i64::MAX as u128 {
        return None;
    }
    Some(v as u64)
}

/// A digit run that meets a non-digit ends there.
proof fn lemma_digit_run_stops(s: Seq<char>, start: int, t: int)
    requires
        0 <= start <= t < s.len(),
        forall|u: int| start <= u < t ==> spec_is_digit(#[trigger] s[u]),
        !spec_is_digit(s[t]),
    ensures
        spec_digit_run_end(s, start) == t,
    decreases t - start,
{
    if start < t {
        lemma_digit_run_stops(s, start + 1, t);
    }
}

/// A digit run over the whole tail reaches the end of the string.
proof fn lemma_digit_run_all(s: Seq<char>, start: int)
    requires
        0 <= start <= s.len(),
        forall|u: int| start <= u < s.len() ==> spec_is_digit(#[trigger] s[u]),
    ensures
        spec_digit_run_end(s, start) == s.len(),
    decreases s.len() - start,
{
    if start < s.len() {
        lemma_digit_run_all(s, start + 1);
    }
}

/// The scaled fraction value lies between zero and 999.
proof fn lemma_frac3_bounds(s: Seq<char>, k: int)
    requires
        0 <= k,
        k + 1 < s.len(),
        forall|u: int| k + 1 <= u < s.len() ==> spec_is_digit(#[trigger] s[u]),
    ensures
        0 <= spec_frac3(s, k) <= 999,
{
    lemma_frac3_value(s, k);
}

/// The scaled fraction value, written out over the first three places.
proof fn lemma_frac3_value(s: Seq<char>, k: int)
    requires
        0 <= k,
        k + 1 < s.len(),
        forall|u: int| k + 1 <= u < s.len() ==> spec_is_digit(#[trigger] s[u]),
    ensures
        s.len() - (k + 1) >= 3 ==> spec_frac3(s, k) == (s[k + 1] as u32 - 48) * 100 + (
        s[k + 2] as u32 - 48) * 10 + (s[k + 3] as u32 - 48),
        s.len() - (k + 1) == 2 ==> spec_frac3(s, k) == ((s[k + 1] as u32 - 48) * 10 + (
        s[k + 2] as u32 - 48)) * 10,
        s.len() - (k + 1) == 1 ==> spec_frac3(s, k) == (s[k + 1] as u32 - 48) * 100,
        0 <= spec_frac3(s, k) <= 999,
{
    let fl = s.len() - (k + 1);
    let h = s.subrange(k + 1, k + 2);
    assert(h.last() == s[k + 1]);
    assert(h.drop_last() =~= Seq::<char>::empty());
    assert(spec_digits_to_nat(Seq::<char>::empty()) == 0);
    assert(spec_digits_to_nat(h) == s[k + 1] as u32 - 48);
    if fl >= 2 {
        let g = s.subrange(k + 1, k + 3);
        assert(g.last() == s[k + 2]);
        assert(g.drop_last() =~= h);
        assert(spec_digits_to_nat(g) == spec_digits_to_nat(h) * 10 + (s[k + 2] as u32 - 48));
        if fl >= 3 {
            let f = s.subrange(k + 1, k + 4);
            assert(f.last() == s[k + 3]);
            assert(f.drop_last() =~= g);
            assert(spec_digits_to_nat(f) == spec_digits_to_nat(g) * 10 + (s[k + 3] as u32 - 48));
        }
    }
}


/// A parsed location: two fixed-point grid coordinates, in thousandths.
#[derive(PartialEq, Eq, Structural, Clone, Copy, Debug)]
pub struct Geopunt {
    pub x: i64,
    pub y: i64,
}

/// The location a `gml:pos` text denotes: its first two whitespace-separated
/// decimal numbers; anything after them is ignored.
pub open spec fn spec_parse_geopunt(s: Seq<char>) -> Option<Geopunt> {
    let toks = spec_ws_tokens(s);
    if toks.len() >= 2 {
        match (spec_parse_fixed(toks[0]), spec_parse_fixed(toks[1])) {
            (Option::Some(x), Option::Some(y)) => Some(Geopunt { x, y }),
            _ => None,
        }
    } else {
        None
    }
}

/// Parse a `gml:pos` text.
pub fn geopunt_from_str(s: &str) -> (r: Option<Geopunt>)
    ensures
        r == spec_parse_geopunt(s@),
{
    let tokens = ws_tokens(s);
    if tokens.len() < 2 {
        return None;
    }
    proof {
        assert(spec_token_views(tokens@)[0] == tokens@[0]@);
        assert(spec_token_views(tokens@)[1] == tokens@[1]@);
    }
    let x = match parse_fixed(tokens[0].as_str()) {
        Some(v) => v,
        None => {
            return None;
        },
    };
    let y = match parse_fixed(tokens[1].as_str()) {
        Some(v) => v,
        None => {
            return None;
        },
    };
    Some(Geopunt { x, y })
}

/// The numbers a token list denotes; rejected when any token is malformed.
pub open spec fn spec_parse_all_fixed(toks: Seq<Seq<char>>) -> Option<Seq<i64>>
    decreases toks.len(),
{
    if toks.len() == 0 {
        Some(Seq::empty())
    } else {
        match (spec_parse_all_fixed(toks.drop_last()), spec_parse_fixed(toks.last())) {
            (Option::Some(prefix), Option::Some(v)) => Some(prefix.push(v)),
            _ => None,
        }
    }
}

/// The sum of every third value, starting at `offset`.
pub open spec fn spec_sum_coord(values: Seq<i64>, offset: int, n: int) -> int
    decreases n,
{
    if n <= 0 {
        0
    } else {
        spec_sum_coord(values, offset, n - 1) + values[3 * (n - 1) + offset]
    }
}

/// Division truncated toward zero, as the centroid means are taken.
pub open spec fn spec_div_trunc(a: int, b: int) -> int {
    if a >= 0 {
        a / b
    } else {
        0 - ((0 - a) / b)
    }
}

/// The centroid of a flat list of `(x, y, z)` triples: the truncated means
/// of the first two columns. Rejected when the list is empty or ragged.
pub open spec fn spec_centroid(values: Seq<i64>) -> Option<Geopunt> {
    if values.len() == 0 || values.len() % 3 != 0 {
        None
    } else {
        let n = values.len() as int / 3;
        let cx = spec_div_trunc(spec_sum_coord(values, 0, n), n);
        let cy = spec_div_trunc(spec_sum_coord(values, 1, n), n);
        if i64::MIN <= cx <= i64::MAX && i64::MIN <= cy <= i64::MAX {
            Some(Geopunt { x: cx as i64, y: cy as i64 })
        } else {
            None
        }
    }
}

/// The location a `gml:posList` text denotes: the centroid of its
/// coordinate triples.
pub open spec fn spec_parse_poslist(s: Seq<char>) -> Option<Geopunt> {
    match spec_parse_all_fixed(spec_ws_tokens(s)) {
        Option::Some(values) => spec_centroid(values),
        Option::None => None,
    }
}

/// Division truncated toward zero.
fn div_trunc(a: i128, b: i128) -> (r: i128)
    requires
        b > 0,
        a > i128::MIN,
    ensures
        r == spec_div_trunc(a as int, b as int),
{
    if a >= 0 {
        ((a as u128) / (b as u128)) as i128
    } else {
        let q = ((-a) as u128) / (b as u128);
        -(q as i128)
    }
}

/// Parse every token as a decimal number.
fn parse_all_fixed(tokens: &Vec<String>) -> (r: Option<Vec<i64>>)
    ensures
        r is Some <==> spec_parse_all_fixed(spec_token_views(tokens@)) is Some,
        r matches Some(values) ==> spec_parse_all_fixed(spec_token_views(tokens@)) == Some(
            values@,
        ),
{
    let n = tokens.len();
    let mut values: Vec<i64> = Vec::new();
    proof {
        assert(spec_token_views(tokens@.take(0)) =~= Seq::<Seq<char>>::empty());
    }
    for i in 0..n
        invariant
            n == tokens@.len(),
            spec_parse_all_fixed(spec_token_views(tokens@.take(i as int))) == Some(values@),
    {
        proof {
            assert(spec_token_views(tokens@.take(i + 1)).drop_last() =~= spec_token_views(
                tokens@.take(i as int),
            ));
            assert(spec_token_views(tokens@.take(i + 1)).last() == tokens@[i as int]@);
        }
        match parse_fixed(tokens[i].as_str()) {
            Some(v) => {
                values.push(v);
            },
            None => {
                proof {
                    lemma_parse_all_fixed_prefix_none(tokens@, i + 1, tokens@.len() as int);
                    assert(tokens@.take(tokens@.len() as int) =~= tokens@);
                }
                return None;
            },
        }
    }
    proof {
        assert(tokens@.take(n as int) =~= tokens@);
    }
    Some(values)
}

/// Once a malformed token appears in a prefix, the whole list is rejected.
proof fn lemma_parse_all_fixed_prefix_none(tokens: Seq<String>, i: int, n: int)
    requires
        0 <= i <= n <= tokens.len(),
        spec_parse_all_fixed(spec_token_views(tokens.take(i))) is None,
    ensures
        spec_parse_all_fixed(spec_token_views(tokens.take(n))) is None,
    decreases n - i,
{
    if i < n {
        assert(spec_token_views(tokens.take(i + 1)).drop_last() =~= spec_token_views(
            tokens.take(i),
        ));
        lemma_parse_all_fixed_prefix_none(tokens, i + 1, n);
    }
}

/// The centroid of a flat list of coordinate triples.
fn centroid(values: &Vec<i64>) -> (r: Option<Geopunt>)
    ensures
        r == spec_centroid(values@),
{
    let len = values.len();
    if len == 0 || len % 3 != 0 {
        return None;
    }
    let n = len / 3;
    let mut sum_x: i128 = 0;
    let mut sum_y: i128 = 0;
    let mut t: usize = 0;
    while t < n
        invariant
            len == values@.len(),
            len % 3 == 0,
            n == len / 3,
            t <= n,
            sum_x == spec_sum_coord(values@, 0, t as int),
            sum_y == spec_sum_coord(values@, 1, t as int),
            -0x8000_0000_0000_0000 * (t as int) <= sum_x <= 0x8000_0000_0000_0000 * (t as int),
            -0x8000_0000_0000_0000 * (t as int) <= sum_y <= 0x8000_0000_0000_0000 * (t as int),
        decreases n - t,
    {
        sum_x = sum_x + (values[3 * t] as i128);
        sum_y = sum_y + (values[3 * t + 1] as i128);
        t = t + 1;
    }
    let cx = div_trunc(sum_x, n as i128);
    let cy = div_trunc(sum_y, n as i128);
    if cx < i64::MIN as i128 || cx > i64::MAX as i128 || cy < i64::MIN as i128 || cy > i64::MAX
        as i128 {
        return None;
    }
    Some(Geopunt { x: cx as i64, y: cy as i64 })
}

/// Parse a `gml:posList` text into the centroid of its triples.
pub fn poslist_from_str(s: &str) -> (r: Option<Geopunt>)
    ensures
        r == spec_parse_poslist(s@),
{
    let tokens = ws_tokens(s);
    match parse_all_fixed(&tokens) {
        Some(values) => centroid(&values),
        None => None,
    }
}


/// What the extractor is waiting for inside a location record.
#[derive(PartialEq, Eq, Structural, Clone, Copy, Debug)]
pub enum VboField {
    /// Not inside a field of interest.
    Plain,
    /// Inside the main-address element; an identifier tag may follow.
    Hoofdadres,
    /// The next character data is the identifier.
    Ident,
    /// The next character data is a single position.
    Pos,
    /// The next character data is a polygon's position list.
    PosList,
}

/// The extractor's state over the location source.
pub struct VboMachine {
    /// The document was rejected: a record closed while a field was still
    /// missing, or the stream ended inside a record or short of its end.
    pub aborted: bool,
    /// The end of the document was reached.
    pub done: bool,
    /// The extractor stands inside a location record.
    pub inside: bool,
    /// What the next character data means.
    pub field: VboField,
    /// The identifier gathered for the current record.
    pub ident: Option<u64>,
    /// The location gathered for the current record.
    pub geopunt: Option<Geopunt>,
    /// The identifiers of the finished records.
    pub ids: Seq<u64>,
    /// The points of the finished records, in step with `ids`.
    pub points: Seq<Point>,
}

/// The tag that opens and closes a location record.
pub open spec fn spec_object_tag() -> Seq<char> {
    "Objecten:Verblijfsobject"@
}

/// The tag that opens the main-address element.
pub open spec fn spec_hoofdadres_tag() -> Seq<char> {
    "Objecten:heeftAlsHoofdadres"@
}

/// The tag that opens the identifier field.
pub open spec fn spec_vbo_ident_tag() -> Seq<char> {
    "Objecten:identificatie"@
}

/// The tag that opens a single position.
pub open spec fn spec_pos_tag() -> Seq<char> {
    "gml:pos"@
}

/// The tag that opens a polygon's position list.
pub open spec fn spec_poslist_tag() -> Seq<char> {
    "gml:posList"@
}

/// The extractor before any token.
pub open spec fn vbo_initial() -> VboMachine {
    VboMachine {
        aborted: false,
        done: false,
        inside: false,
        field: VboField::Plain,
        ident: None,
        geopunt: None,
        ids: Seq::empty(),
        points: Seq::empty(),
    }
}

/// The stored point of a parsed location: each coordinate clamped into the
/// 32-bit coordinate range.
pub open spec fn spec_point_of_geopunt(g: Geopunt) -> Point {
    Point { x: clamp_i32(g.x as int) as i32, y: clamp_i32(g.y as int) as i32 }
}

/// Close the current record: both fields must be known, else the document
/// is rejected.
pub open spec fn vbo_close_record(m: VboMachine) -> VboMachine {
    match (m.ident, m.geopunt) {
        (Option::Some(id), Option::Some(g)) => VboMachine {
            inside: false,
            field: VboField::Plain,
            ids: m.ids.push(id),
            points: m.points.push(spec_point_of_geopunt(g)),
            ..m
        },
        _ => VboMachine { aborted: true, ..m },
    }
}

/// One step of the extractor. Outside a record only the record tag and the
/// end of the document matter. Inside, the identifier tag counts only
/// directly under the main-address element; a position or position-list tag
/// selects what the next character data means; a record is finished by its
/// closing tag, or early as soon as both fields are known.
pub open spec fn vbo_step(m: VboMachine, t: XmlToken) -> VboMachine {
    if m.aborted || m.done {
        m
    } else if !m.inside {
        match t {
            XmlToken::Open(name) => if name@ == spec_object_tag() {
                VboMachine { inside: true, field: VboField::Plain, ident: None, geopunt: None, ..m }
            } else {
                m
            },
            XmlToken::Eof => VboMachine { done: true, ..m },
            _ => m,
        }
    } else {
        match t {
            XmlToken::Open(name) => if name@ == spec_hoofdadres_tag() {
                VboMachine { field: VboField::Hoofdadres, ..m }
            } else if name@ == spec_vbo_ident_tag() {
                if m.field == VboField::Hoofdadres {
                    VboMachine { field: VboField::Ident, ..m }
                } else {
                    m
                }
            } else if name@ == spec_pos_tag() {
                VboMachine { field: VboField::Pos, ..m }
            } else if name@ == spec_poslist_tag() {
                VboMachine { field: VboField::PosList, ..m }
            } else {
                m
            },
            XmlToken::Close(name) => if name@ == spec_object_tag() {
                vbo_close_record(m)
            } else {
                m
            },
            XmlToken::Chars(text) => {
                let filled = match m.field {
                    VboField::Plain => m,
                    VboField::Hoofdadres => m,
                    VboField::Ident => VboMachine {
                        ident: spec_parse_u64(text@),
                        field: VboField::Plain,
                        ..m
                    },
                    VboField::Pos => VboMachine {
                        geopunt: spec_parse_geopunt(text@),
                        field: VboField::Plain,
                        ..m
                    },
                    VboField::PosList => VboMachine {
                        geopunt: spec_parse_poslist(text@),
                        field: VboField::Plain,
                        ..m
                    },
                };
                if filled.ident is Some && filled.geopunt is Some {
                    vbo_close_record(filled)
                } else {
                    filled
                }
            },
            XmlToken::Eof => VboMachine { aborted: true, ..m },
            XmlToken::Other => m,
        }
    }
}

/// The extractor after the first `n` tokens.
pub open spec fn vbo_run(tokens: Seq<XmlToken>, n: int) -> VboMachine
    decreases n,
{
    if n <= 0 {
        vbo_initial()
    } else {
        vbo_step(vbo_run(tokens, n - 1), tokens[n - 1])
    }
}

/// The columns a token stream denotes: defined exactly when the stream runs
/// to its end without rejecting the document.
pub open spec fn spec_extract_objects(tokens: Seq<XmlToken>) -> Option<(Seq<u64>, Seq<Point>)> {
    let m = vbo_run(tokens, tokens.len() as int);
    if m.done && !m.aborted {
        Some((m.ids, m.points))
    } else {
        None
    }
}

/// Once the extractor rejected or finished, further tokens change nothing.
proof fn lemma_vbo_run_stops(tokens: Seq<XmlToken>, i: int, n: int)
    requires
        0 <= i <= n,
        vbo_run(tokens, i).aborted || vbo_run(tokens, i).done,
    ensures
        vbo_run(tokens, n) == vbo_run(tokens, i),
    decreases n - i,
{
    if i < n {
        lemma_vbo_run_stops(tokens, i, n - 1);
    }
}

/// Clamp a parsed location into the stored 32-bit coordinate range.
fn point_of_geopunt(g: Geopunt) -> (r: Point)
    ensures
        r == spec_point_of_geopunt(g),
{
    let x = if g.x < i32::MIN as i64 {
        i32::MIN
    } else if g.x > i32::MAX as i64 {
        i32::MAX
    } else {
        g.x as i32
    };
    let y = if g.y < i32::MIN as i64 {
        i32::MIN
    } else if g.y > i32::MAX as i64 {
        i32::MAX
    } else {
        g.y as i32
    };
    Point { x, y }
}

/// Run the record extractor over a whole token stream.
pub fn extract_objects(tokens: &Vec<XmlToken>) -> (r: Option<Verblijfsobjecten>)
    ensures
        r is Some <==> spec_extract_objects(tokens@) is Some,
        r matches Some(objs) ==> spec_extract_objects(tokens@) matches Some(cols)
            && objs.postcode_id@ == cols.0 && objs.points@ == cols.1 && objs.wf(),
{
    let object_tag = String::from_str("Objecten:Verblijfsobject");
    let hoofdadres_tag = String::from_str("Objecten:heeftAlsHoofdadres");
    let ident_tag = String::from_str("Objecten:identificatie");
    let pos_tag = String::from_str("gml:pos");
    let poslist_tag = String::from_str("gml:posList");
    let mut result = Verblijfsobjecten::default();
    let mut inside = false;
    let mut done = false;
    let mut field = VboField::Plain;
    let mut ident: Option<u64> = None;
    let mut geopunt: Option<Geopunt> = None;
    let n = tokens.len();
    for i in 0..n
        invariant
            n == tokens@.len(),
            object_tag@ == spec_object_tag(),
            hoofdadres_tag@ == spec_hoofdadres_tag(),
            ident_tag@ == spec_vbo_ident_tag(),
            pos_tag@ == spec_pos_tag(),
            poslist_tag@ == spec_poslist_tag(),
            !vbo_run(tokens@, i as int).aborted,
            done == vbo_run(tokens@, i as int).done,
            inside == vbo_run(tokens@, i as int).inside,
            field == vbo_run(tokens@, i as int).field,
            ident == vbo_run(tokens@, i as int).ident,
            geopunt == vbo_run(tokens@, i as int).geopunt,
            result.postcode_id@ == vbo_run(tokens@, i as int).ids,
            result.points@ == vbo_run(tokens@, i as int).points,
            result.wf(),
    {
        let ghost m = vbo_run(tokens@, i as int);
        proof {
            assert(vbo_run(tokens@, i + 1) == vbo_step(m, tokens@[i as int]));
        }
        if !done {
        match &tokens[i] {
            XmlToken::Open(name) => {
                if !inside {
                    if name.eq(&object_tag) {
                        inside = true;
                        field = VboField::Plain;
                        ident = None;
                        geopunt = None;
                    }
                } else {
                    if name.eq(&hoofdadres_tag) {
                        field = VboField::Hoofdadres;
                    } else if name.eq(&ident_tag) {
                        if field == VboField::Hoofdadres {
                            field = VboField::Ident;
                        }
                    } else if name.eq(&pos_tag) {
                        field = VboField::Pos;
                    } else if name.eq(&poslist_tag) {
                        field = VboField::PosList;
                    }
                }
            },
            XmlToken::Close(name) => {
                if inside && name.eq(&object_tag) {
                    match (ident, geopunt) {
                        (Some(id), Some(g)) => {
                            result.push(id, point_of_geopunt(g));
                            inside = false;
                            field = VboField::Plain;
                        },
                        _ => {
                            proof {
                                lemma_vbo_run_stops(tokens@, i + 1, tokens@.len() as int);
                            }
                            return None;
                        },
                    }
                }
            },
            XmlToken::Chars(text) => {
                if inside {
                    match field {
                        VboField::Plain => {},
                        VboField::Hoofdadres => {},
                        VboField::Ident => {
                            ident = crate::parse_num::parse_u64(text.as_str());
                            field = VboField::Plain;
                        },
                        VboField::Pos => {
                            geopunt = geopunt_from_str(text.as_str());
                            field = VboField::Plain;
                        },
                        VboField::PosList => {
                            geopunt = poslist_from_str(text.as_str());
                            field = VboField::Plain;
                        },
                    }
                    if ident.is_some() && geopunt.is_some() {
                        let id = ident.unwrap();
                        let g = geopunt.unwrap();
                        result.push(id, point_of_geopunt(g));
                        inside = false;
                        field = VboField::Plain;
                    }
                }
            },
            XmlToken::Other => {},
            XmlToken::Eof => {
                if !inside {
                    done = true;
                } else {
                    proof {
                        lemma_vbo_run_stops(tokens@, i + 1, tokens@.len() as int);
                    }
                    return None;
                }
            },
        }
        }
    }
    if done {
        Some(result)
    } else {
        None
    }
}

/// Parse a whole document: tokenize it, then extract the identifier and
/// point columns. Whatever tokens the tokenizer hands back, a returned
/// record set has its columns in step; the document is rejected when the
/// tokenizer fails or a record lacks its identifier or location.
pub fn parse_manual_str(input: &str) -> (r: Option<Verblijfsobjecten>)
    ensures
        r matches Some(objs) ==> objs.wf(),
{
    let tokens = tokenize(input);
    extract_objects(&tokens)
}

} // verus!
