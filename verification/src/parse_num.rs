//! Records from the postal-code source: pairs of an address identifier and a
//! postal code, kept as two parallel columns.

use vstd::prelude::*;

use crate::postcode::{
    spec_digits_value, spec_is_digit, spec_pack, well_formed_postcode_str, SmallestPostcode,
};
use crate::xml::{tokenize, XmlToken};

verus! {

/// Parallel columns of identifiers and the postal codes they carry.
#[derive(Debug)]
pub struct Postcodes {
    pub identificatie: Vec<u64>,
    pub postcodes: Vec<SmallestPostcode>,
}

impl Postcodes {
    /// The two columns run in step.
    pub open spec fn wf(self) -> bool {
        self.identificatie@.len() == self.postcodes@.len()
    }

    /// Record one identifier/postal-code pair.
    pub fn push(&mut self, identificatie: u64, postcode: SmallestPostcode)
        ensures
            final(self).identificatie@ == old(self).identificatie@.push(identificatie),
            final(self).postcodes@ == old(self).postcodes@.push(postcode),
    {
        self.identificatie.push(identificatie);
        self.postcodes.push(postcode);
    }

    /// Concatenate two column sets; order inside each input is kept.
    pub fn merge(self, other: Self) -> (r: Self)
        ensures
            r.identificatie@ == self.identificatie@ + other.identificatie@,
            r.postcodes@ == self.postcodes@ + other.postcodes@,
    {
        let mut merged = self;
        let mut tail = other;
        merged.identificatie.append(&mut tail.identificatie);
        merged.postcodes.append(&mut tail.postcodes);
        merged
    }
}

impl Default for Postcodes {
    fn default() -> (r: Self)
        ensures
            r.identificatie@ == Seq::<u64>::empty(),
            r.postcodes@ == Seq::<SmallestPostcode>::empty(),
    {
        Postcodes { identificatie: Vec::new(), postcodes: Vec::new() }
    }
}


/// The value of a digit string, most significant first.
pub open spec fn spec_digits_to_nat(s: Seq<char>) -> int
    decreases s.len(),
{
    if s.len() == 0 {
        0
    } else {
        spec_digits_to_nat(s.drop_last()) * 10 + (s.last() as u32 - 48)
    }
}

/// The unsigned number a string denotes: defined when the string is
/// non-empty, all digits, and the value fits.
pub open spec fn spec_parse_u64(s: Seq<char>) -> Option<u64> {
    if s.len() > 0 && (forall|i: int| 0 <= i < s.len() ==> spec_is_digit(#[trigger] s[i]))
        && spec_digits_to_nat(s) <= u64::MAX {
        Some(spec_digits_to_nat(s) as u64)
    } else {
        None
    }
}

/// The postal code a string denotes, when it is well formed.
pub open spec fn spec_parse_postcode(s: Seq<char>) -> Option<SmallestPostcode> {
    if well_formed_postcode_str(s) {
        Some(
            SmallestPostcode::spec_from_u32(
                spec_pack(spec_digits_value(s) as u16, s[4] as u8, s[5] as u8),
            ),
        )
    } else {
        None
    }
}

/// A digit string's value never shrinks when the string grows.
pub proof fn lemma_digits_prefix_le(s: Seq<char>, i: int)
    requires
        0 <= i <= s.len(),
        forall|t: int| 0 <= t < s.len() ==> spec_is_digit(#[trigger] s[t]),
    ensures
        0 <= spec_digits_to_nat(s.take(i)),
        spec_digits_to_nat(s.take(i)) <= spec_digits_to_nat(s),
    decreases s.len(),
{
    if i == s.len() {
        assert(s.take(i) =~= s);
        lemma_digits_nonneg(s);
    } else {
        assert(s.drop_last().take(i) =~= s.take(i));
        lemma_digits_prefix_le(s.drop_last(), i);
    }
}

/// A digit string's value is never negative.
pub proof fn lemma_digits_nonneg(s: Seq<char>)
    requires
        forall|t: int| 0 <= t < s.len() ==> spec_is_digit(#[trigger] s[t]),
    ensures
        0 <= spec_digits_to_nat(s),
    decreases s.len(),
{
    if s.len() > 0 {
        lemma_digits_nonneg(s.drop_last());
    }
}

/// Parse an unsigned number: digits only, no sign, value must fit.
pub fn parse_u64(s: &str) -> (r: Option<u64>)
    ensures
        r == spec_parse_u64(s@),
{
    let n = s.unicode_len();
    if n == 0 {
        return None;
    }
    let mut value: u64 = 0;
    proof {
        assert(s@.take(0) =~= Seq::<char>::empty());
    }
    for i in 0..n
        invariant
            n == s@.len(),
            forall|t: int| 0 <= t < i ==> spec_is_digit(#[trigger] s@[t]),
            value == spec_digits_to_nat(s@.take(i as int)),
    {
        let c = s.get_char(i) as u32;
        proof {
            assert(s@.take(i + 1).drop_last() =~= s@.take(i as int));
            assert(s@.take(i + 1).last() == s@[i as int]);
        }
        if c < 48 || c > 57 {
            return None;
        }
        let d = (c - 48) as u64;
        if value > (u64::MAX - d) / 10 {
            proof {
                assert(value * 10 + d > u64::MAX);
                assert(spec_digits_to_nat(s@.take(i + 1)) == value * 10 + d);
                if forall|t: int| 0 <= t < s@.len() ==> spec_is_digit(#[trigger] s@[t]) {
                    lemma_digits_prefix_le(s@, i + 1);
                }
            }
            return None;
        }
        value = value * 10 + d;
    }
    proof {
        assert(s@.take(n as int) =~= s@);
    }
    Some(value)
}

/// What the extractor is waiting for inside a record.
#[derive(PartialEq, Eq, Structural, Clone, Copy, Debug)]
pub enum NumField {
    /// Not inside a field of interest.
    Plain,
    /// The next character data is the identifier.
    Ident,
    /// The next character data is the postal code.
    Code,
}

/// The extractor's state: where it stands in the document, what it has
/// gathered of the current record, and the finished columns.
pub struct NumMachine {
    /// The document was rejected: a record closed without an identifier, or
    /// the stream ended inside a record or without reaching its end.
    pub aborted: bool,
    /// The end of the document was reached.
    pub done: bool,
    /// The extractor stands inside an address record.
    pub inside: bool,
    /// What the next character data means.
    pub field: NumField,
    /// The identifier gathered for the current record.
    pub ident: Option<u64>,
    /// The postal code gathered for the current record.
    pub code: Option<SmallestPostcode>,
    /// The identifiers of the finished records that carried a postal code.
    pub ids: Seq<u64>,
    /// The postal codes of those records, in step with `ids`.
    pub codes: Seq<SmallestPostcode>,
}

/// The tag that opens and closes an address record.
pub open spec fn spec_record_tag() -> Seq<char> {
    "Objecten:Nummeraanduiding"@
}

/// The tag that opens the identifier field.
pub open spec fn spec_ident_tag() -> Seq<char> {
    "Objecten:identificatie"@
}

/// The tag that opens the postal-code field.
pub open spec fn spec_code_tag() -> Seq<char> {
    "Objecten:postcode"@
}

/// The extractor before any token.
pub open spec fn num_initial() -> NumMachine {
    NumMachine {
        aborted: false,
        done: false,
        inside: false,
        field: NumField::Plain,
        ident: None,
        code: None,
        ids: Seq::empty(),
        codes: Seq::empty(),
    }
}

/// Close the current record: keep it only when it carries a postal code,
/// and leave the record scope. A record without an identifier rejects the
/// document.
pub open spec fn num_close_record(m: NumMachine) -> NumMachine {
    match m.ident {
        Option::None => NumMachine { aborted: true, ..m },
        Option::Some(id) => {
            let kept = match m.code {
                Option::Some(code) => NumMachine {
                    ids: m.ids.push(id),
                    codes: m.codes.push(code),
                    ..m
                },
                Option::None => m,
            };
            NumMachine { inside: false, field: NumField::Plain, ..kept }
        },
    }
}

/// One step of the extractor. Outside a record only the record tag and the
/// end of the document matter. Inside, the identifier and postal-code tags
/// select what the next character data means; character data fills the
/// selected field, and a record is finished by its closing tag, or early as
/// soon as both fields are known.
pub open spec fn num_step(m: NumMachine, t: XmlToken) -> NumMachine {
    if m.aborted || m.done {
        m
    } else if !m.inside {
        match t {
            XmlToken::Open(name) => if name@ == spec_record_tag() {
                NumMachine { inside: true, field: NumField::Plain, ident: None, code: None, ..m }
            } else {
                m
            },
            XmlToken::Eof => NumMachine { done: true, ..m },
            _ => m,
        }
    } else {
        match t {
            XmlToken::Open(name) => if name@ == spec_ident_tag() {
                NumMachine { field: NumField::Ident, ..m }
            } else if name@ == spec_code_tag() {
                NumMachine { field: NumField::Code, ..m }
            } else {
                m
            },
            XmlToken::Close(name) => if name@ == spec_record_tag() {
                num_close_record(m)
            } else {
                m
            },
            XmlToken::Chars(text) => {
                let filled = match m.field {
                    NumField::Plain => m,
                    NumField::Ident => NumMachine {
                        ident: spec_parse_u64(text@),
                        field: NumField::Plain,
                        ..m
                    },
                    NumField::Code => NumMachine {
                        code: spec_parse_postcode(text@),
                        field: NumField::Plain,
                        ..m
                    },
                };
                if filled.ident is Some && filled.code is Some {
                    num_close_record(filled)
                } else {
                    filled
                }
            },
            XmlToken::Eof => NumMachine { aborted: true, ..m },
            XmlToken::Other => m,
        }
    }
}

/// The extractor after the first `n` tokens.
pub open spec fn num_run(tokens: Seq<XmlToken>, n: int) -> NumMachine
    decreases n,
{
    if n <= 0 {
        num_initial()
    } else {
        num_step(num_run(tokens, n - 1), tokens[n - 1])
    }
}

/// The columns a token stream denotes: defined exactly when the stream runs
/// to its end without rejecting the document.
pub open spec fn spec_extract(tokens: Seq<XmlToken>) -> Option<(Seq<u64>, Seq<SmallestPostcode>)> {
    let m = num_run(tokens, tokens.len() as int);
    if m.done && !m.aborted {
        Some((m.ids, m.codes))
    } else {
        None
    }
}

/// Once the extractor rejected or finished, further tokens change nothing.
proof fn lemma_num_run_stops(tokens: Seq<XmlToken>, i: int, n: int)
    requires
        0 <= i <= n,
        num_run(tokens, i).aborted || num_run(tokens, i).done,
    ensures
        num_run(tokens, n) == num_run(tokens, i),
    decreases n - i,
{
    if i < n {
        lemma_num_run_stops(tokens, i, n - 1);
    }
}

/// Run the record extractor over a whole token stream.
pub fn extract_postcodes(tokens: &Vec<XmlToken>) -> (r: Option<Postcodes>)
    ensures
        r is Some <==> spec_extract(tokens@) is Some,
        r matches Some(pcs) ==> spec_extract(tokens@) matches Some(cols)
            && pcs.identificatie@ == cols.0 && pcs.postcodes@ == cols.1 && pcs.wf(),
{
    let record_tag = String::from_str("Objecten:Nummeraanduiding");
    let ident_tag = String::from_str("Objecten:identificatie");
    let code_tag = String::from_str("Objecten:postcode");
    let mut result = Postcodes::default();
    let mut inside = false;
    let mut done = false;
    let mut field = NumField::Plain;
    let mut ident: Option<u64> = None;
    let mut code: Option<SmallestPostcode> = None;
    let n = tokens.len();
    for i in 0..n
        invariant
            n == tokens@.len(),
            record_tag@ == spec_record_tag(),
            ident_tag@ == spec_ident_tag(),
            code_tag@ == spec_code_tag(),
            !num_run(tokens@, i as int).aborted,
            done == num_run(tokens@, i as int).done,
            inside == num_run(tokens@, i as int).inside,
            field == num_run(tokens@, i as int).field,
            ident == num_run(tokens@, i as int).ident,
            code == num_run(tokens@, i as int).code,
            result.identificatie@ == num_run(tokens@, i as int).ids,
            result.postcodes@ == num_run(tokens@, i as int).codes,
            result.wf(),
    {
        let ghost m = num_run(tokens@, i as int);
        proof {
            assert(num_run(tokens@, i + 1) == num_step(m, tokens@[i as int]));
        }
        if !done {
        match &tokens[i] {
            XmlToken::Open(name) => {
                if !inside {
                    if name.eq(&record_tag) {
                        inside = true;
                        field = NumField::Plain;
                        ident = None;
                        code = None;
                    }
                } else {
                    if name.eq(&ident_tag) {
                        field = NumField::Ident;
                    } else if name.eq(&code_tag) {
                        field = NumField::Code;
                    }
                }
            },
            XmlToken::Close(name) => {
                if inside && name.eq(&record_tag) {
                    match ident {
                        None => {
                            proof {
                                lemma_num_run_stops(tokens@, i + 1, tokens@.len() as int);
                            }
                            return None;
                        },
                        Some(id) => {
                            if let Some(pc) = code {
                                result.push(id, pc);
                            }
                            inside = false;
                            field = NumField::Plain;
                        },
                    }
                }
            },
            XmlToken::Chars(text) => {
                if inside {
                    match field {
                        NumField::Plain => {},
                        NumField::Ident => {
                            ident = parse_u64(text.as_str());
                            field = NumField::Plain;
                        },
                        NumField::Code => {
                            code = match SmallestPostcode::parse(text.as_str()) {
                                Ok(pc) => Some(pc),
                                Err(_) => None,
                            };
                            field = NumField::Plain;
                        },
                    }
                    if ident.is_some() && code.is_some() {
                        let id = ident.unwrap();
                        let pc = code.unwrap();
                        result.push(id, pc);
                        inside = false;
                        field = NumField::Plain;
                    }
                }
            },
            XmlToken::Other => {},
            XmlToken::Eof => {
                if !inside {
                    done = true;
                } else {
                    proof {
                        lemma_num_run_stops(tokens@, i + 1, tokens@.len() as int);
                    }
                    return None;
                }
            },
        }
        }
    }
    if done {
        Some(result)
    } else {
        None
    }
}

/// Parse a whole document: tokenize it, then extract the identifier and
/// postal-code columns. Whatever tokens the tokenizer hands back, a
/// returned record set has its columns in step; the document is rejected
/// when the tokenizer fails or a record lacks an identifier.
pub fn parse_manual_str(input: &str) -> (r: Option<Postcodes>)
    ensures
        r matches Some(pcs) ==> pcs.wf(),
{
    let tokens = tokenize(input);
    extract_postcodes(&tokens)
}

/// One address record: its identifier, and its postal code if it has one.
#[derive(Debug)]
pub struct Nummeraanduiding {
    pub identificatie: u64,
    pub postcode: Option<SmallestPostcode>,
}

} // verus!
