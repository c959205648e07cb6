//! Compact postal-code encodings.
//!
//! A postal code is a number of at most four digits followed by two uppercase
//! letters. It packs into a dense 24-bit index: the digits are shifted left
//! by ten bits, and each letter (reduced to 0..26) takes five bits.

use vstd::prelude::*;

verus! {

/// The number of distinct postal-code indices: the index space is 24 bits.
pub const POSTCODE_SPACE: usize = 0x100_0000;

/// The components of a postal code are in range: at most four digits, and two
/// uppercase ASCII letters.
pub open spec fn valid_components(digits: u16, letter1: u8, letter2: u8) -> bool {
    digits <= 9999 && 65 <= letter1 <= 90 && 65 <= letter2 <= 90
}

/// The dense index of a postal code: `(digits << 10) | (letter1 - 'A') << 5 | (letter2 - 'A')`.
pub open spec fn spec_pack(digits: u16, letter1: u8, letter2: u8) -> u32 {
    ((digits as u32) << 10) | (((letter1 - 65) as u32) << 5) | ((letter2 - 65) as u32)
}

/// The digits encoded in a dense index.
pub open spec fn spec_digits_of(index: u32) -> int {
    (index >> 10) as int
}

/// The first letter encoded in a dense index.
pub open spec fn spec_letter1_of(index: u32) -> int {
    ((index >> 5) & 31) + 65
}

/// The second letter encoded in a dense index.
pub open spec fn spec_letter2_of(index: u32) -> int {
    (index & 31) + 65
}

/// Packing valid components always stays inside the 24-bit index space.
pub proof fn lemma_pack_in_space(digits: u16, letter1: u8, letter2: u8)
    requires
        valid_components(digits, letter1, letter2),
    ensures
        spec_pack(digits, letter1, letter2) < 0x100_0000,
{
    let d = digits as u32;
    let a = (letter1 - 65) as u32;
    let b = (letter2 - 65) as u32;
    assert(((d << 10) | (a << 5) | b) < 0x100_0000) by (bit_vector)
        requires
            d <= 9999,
            a < 32,
            b < 32,
    ;
}

/// Unpacking a packed postal code gives back its components exactly.
pub proof fn lemma_pack_roundtrip(digits: u16, letter1: u8, letter2: u8)
    requires
        valid_components(digits, letter1, letter2),
    ensures
        spec_digits_of(spec_pack(digits, letter1, letter2)) == digits,
        spec_letter1_of(spec_pack(digits, letter1, letter2)) == letter1,
        spec_letter2_of(spec_pack(digits, letter1, letter2)) == letter2,
{
    let d = digits as u32;
    let a = (letter1 - 65) as u32;
    let b = (letter2 - 65) as u32;
    assert((((d << 10) | (a << 5) | b) >> 10) == d) by (bit_vector)
        requires
            d <= 9999,
            a < 32,
            b < 32,
    ;
    assert(((((d << 10) | (a << 5) | b) >> 5) & 31) == a) by (bit_vector)
        requires
            d <= 9999,
            a < 32,
            b < 32,
    ;
    assert((((d << 10) | (a << 5) | b) & 31) == b) by (bit_vector)
        requires
            d <= 9999,
            a < 32,
            b < 32,
    ;
}

/// Why a postal-code string was rejected.
#[derive(PartialEq, Eq, Structural, Clone, Copy, Debug)]
pub enum FormatError {
    /// The string is not exactly six characters long.
    InvalidLength,
    /// The first four characters are not digits, or the last two are not
    /// uppercase letters.
    InvalidDigits,
}

/// The character is an ASCII digit.
pub open spec fn spec_is_digit(c: char) -> bool {
    48 <= c as u32 <= 57
}

/// The character is an ASCII uppercase letter.
pub open spec fn spec_is_upper(c: char) -> bool {
    65 <= c as u32 <= 90
}

/// Exactly six characters: four digits then two uppercase letters.
pub open spec fn well_formed_postcode_str(s: Seq<char>) -> bool {
    s.len() == 6 && spec_is_digit(s[0]) && spec_is_digit(s[1]) && spec_is_digit(s[2])
        && spec_is_digit(s[3]) && spec_is_upper(s[4]) && spec_is_upper(s[5])
}

/// The numeric value of the four leading digit characters.
pub open spec fn spec_digits_value(s: Seq<char>) -> int {
    (s[0] as u32 - 48) * 1000 + (s[1] as u32 - 48) * 100 + (s[2] as u32 - 48) * 10 + (
    s[3] as u32 - 48)
}

/// The canonical six-character text of a dense index: zero-padded digits,
/// then the two letters.
pub open spec fn spec_format(index: u32) -> Seq<char> {
    seq![
        ((48 + spec_digits_of(index) / 1000) as u8) as char,
        ((48 + (spec_digits_of(index) / 100) % 10) as u8) as char,
        ((48 + (spec_digits_of(index) / 10) % 10) as u8) as char,
        ((48 + spec_digits_of(index) % 10) as u8) as char,
        (spec_letter1_of(index) as u8) as char,
        (spec_letter2_of(index) as u8) as char,
    ]
}

/// A postal code kept as its components: the digits and the two letters.
#[derive(PartialEq, Eq, Hash, Clone, Copy, PartialOrd, Ord, Debug)]
pub struct CompactPostcode {
    digits: u16,
    letters: [u8; 2],
}

impl CompactPostcode {
    /// The stored digits.
    pub closed spec fn spec_digits(self) -> u16 {
        self.digits
    }

    /// The stored first letter.
    pub closed spec fn spec_letter1(self) -> u8 {
        self.letters[0]
    }

    /// The stored second letter.
    pub closed spec fn spec_letter2(self) -> u8 {
        self.letters[1]
    }

    /// The components are in range.
    pub open spec fn wf(self) -> bool {
        valid_components(self.spec_digits(), self.spec_letter1(), self.spec_letter2())
    }

    /// The dense index this postal code packs to.
    pub open spec fn spec_index(self) -> u32 {
        spec_pack(self.spec_digits(), self.spec_letter1(), self.spec_letter2())
    }

    pub fn new(digits: u16, letter1: u8, letter2: u8) -> (r: Self)
        requires
            valid_components(digits, letter1, letter2),
        ensures
            r.spec_digits() == digits,
            r.spec_letter1() == letter1,
            r.spec_letter2() == letter2,
            r.wf(),
    {
        Self { digits, letters: [letter1, letter2] }
    }

    /// Pack this postal code into its dense 24-bit index.
    pub fn as_u32(self) -> (r: u32)
        requires
            self.wf(),
        ensures
            r == self.spec_index(),
            r < 0x100_0000,
    {
        proof {
            lemma_pack_in_space(self.digits, self.letters[0], self.letters[1]);
        }
        let digits = self.digits as u32;
        let letter1 = ((self.letters[0] - 65) as u32) << 5;
        let letter2 = (self.letters[1] - 65) as u32;
        ((digits << 10) | letter1) | letter2
    }

    /// Unpack a dense index into its components.
    pub fn from_u32(input: u32) -> (r: Self)
        requires
            input < 0x100_0000,
        ensures
            r.spec_digits() == spec_digits_of(input),
            r.spec_letter1() == spec_letter1_of(input),
            r.spec_letter2() == spec_letter2_of(input),
    {
        assert((input >> 10) < 0x4000 && ((input >> 5) & 31) < 32 && (input & 31) < 32)
            by (bit_vector)
            requires
                input < 0x100_0000,
        ;
        let digits = (input >> 10) as u16;
        let letter1 = ((input >> 5) & 31) as u8 + 65;
        let letter2 = (input & 31) as u8 + 65;
        Self { digits, letters: [letter1, letter2] }
    }

    /// Parse the six-character text of a postal code.
    pub fn parse(s: &str) -> (r: Result<Self, FormatError>)
        ensures
            (r == Err::<CompactPostcode, FormatError>(FormatError::InvalidLength)) <==> s@.len()
                != 6,
            s@.len() == 6 && !well_formed_postcode_str(s@) ==> r == Err::<
                CompactPostcode,
                FormatError,
            >(FormatError::InvalidDigits),
            well_formed_postcode_str(s@) ==> (r matches Ok(pc) && pc.spec_digits()
                == spec_digits_value(s@) && pc.spec_letter1() == s@[4] as u8 && pc.spec_letter2()
                == s@[5] as u8 && pc.wf()),
    {
        if s.unicode_len() != 6 {
            return Err(FormatError::InvalidLength);
        }
        let v0 = s.get_char(0) as u32;
        let v1 = s.get_char(1) as u32;
        let v2 = s.get_char(2) as u32;
        let v3 = s.get_char(3) as u32;
        let v4 = s.get_char(4) as u32;
        let v5 = s.get_char(5) as u32;
        if v0 < 48 || v0 > 57 || v1 < 48 || v1 > 57 || v2 < 48 || v2 > 57 || v3 < 48 || v3 > 57 {
            return Err(FormatError::InvalidDigits);
        }
        if v4 < 65 || v4 > 90 || v5 < 65 || v5 > 90 {
            return Err(FormatError::InvalidDigits);
        }
        let digits = ((v0 - 48) * 1000 + (v1 - 48) * 100 + (v2 - 48) * 10 + (v3 - 48)) as u16;
        Ok(Self::new(digits, v4 as u8, v5 as u8))
    }

    /// The canonical six-character text: zero-padded digits, then letters.
    pub fn format(&self) -> (r: String)
        requires
            self.wf(),
        ensures
            r@ == spec_format(self.spec_index()),
    {
        proof {
            lemma_pack_roundtrip(self.digits, self.letters[0], self.letters[1]);
        }
        let digits = self.digits;
        let mut r = String::new();
        push_char(&mut r, (48 + (digits / 1000) as u8) as char);
        push_char(&mut r, (48 + ((digits / 100) % 10) as u8) as char);
        push_char(&mut r, (48 + ((digits / 10) % 10) as u8) as char);
        push_char(&mut r, (48 + (digits % 10) as u8) as char);
        push_char(&mut r, self.letters[0] as char);
        push_char(&mut r, self.letters[1] as char);
        proof {
            assert(r@ =~= spec_format(self.spec_index()));
        }
        r
    }
}

/// A postal code packed into three little-endian bytes of its dense index.
#[derive(PartialEq, Eq, Hash, Clone, Copy, Debug)]
pub struct SmallestPostcode {
    bytes: [u8; 3],
}

impl SmallestPostcode {
    /// The postal code whose stored bytes are the little-endian bytes of
    /// the low 24 bits of `index`.
    pub closed spec fn spec_from_u32(index: u32) -> SmallestPostcode {
        SmallestPostcode {
            bytes: [(index & 0xff) as u8, ((index >> 8) & 0xff) as u8, ((index >> 16) & 0xff) as u8],
        }
    }

    /// The stored index of the spec-level constructor.
    pub proof fn lemma_spec_from_u32(index: u32)
        ensures
            Self::spec_from_u32(index).spec_index() == index & 0xff_ffff,
            index < 0x100_0000 ==> Self::spec_from_u32(index).spec_index() == index,
    {
        let b0 = (index & 0xff) as u8;
        let b1 = ((index >> 8) & 0xff) as u8;
        let b2 = ((index >> 16) & 0xff) as u8;
        assert((b0 as u32) + (b1 as u32) * 256 + (b2 as u32) * 65536 == index & 0xff_ffff
            && (index < 0x100_0000 ==> index & 0xff_ffff == index)) by (bit_vector)
            requires
                b0 == (index & 0xff) as u8,
                b1 == ((index >> 8) & 0xff) as u8,
                b2 == ((index >> 16) & 0xff) as u8,
        ;
    }

    /// The dense index held in the three little-endian bytes.
    pub closed spec fn spec_index(self) -> u32 {
        (self.bytes[0] + self.bytes[1] * 256 + self.bytes[2] * 65536) as u32
    }

    /// The stored index decodes to components that are in range.
    pub open spec fn wf(self) -> bool {
        spec_digits_of(self.spec_index()) <= 9999 && spec_letter1_of(self.spec_index()) <= 90
            && spec_letter2_of(self.spec_index()) <= 90
    }

    pub fn new(digits: u16, letter1: u8, letter2: u8) -> (r: Self)
        requires
            valid_components(digits, letter1, letter2),
        ensures
            r.spec_index() == spec_pack(digits, letter1, letter2),
            r == Self::spec_from_u32(spec_pack(digits, letter1, letter2)),
            r.wf(),
    {
        proof {
            lemma_pack_in_space(digits, letter1, letter2);
            lemma_pack_roundtrip(digits, letter1, letter2);
        }
        let digits32 = digits as u32;
        let low5 = (letter2 - 65) as u32;
        let mid5 = ((letter1 - 65) as u32) << 5;
        let result = ((digits32 << 10) | mid5) | low5;
        Self::split_index(result)
    }

    /// Keep the low 24 bits of an index as the three stored bytes.
    pub fn from_u32(index: u32) -> (r: Self)
        ensures
            r.spec_index() == index & 0xff_ffff,
            index < 0x100_0000 ==> r.spec_index() == index,
            r == Self::spec_from_u32(index),
    {
        assert(index < 0x100_0000 ==> index & 0xff_ffff == index) by (bit_vector);
        assert((index & 0xff_ffff) < 0x100_0000) by (bit_vector);
        assert(((index & 0xff_ffff) & 0xff_ffff) == index & 0xff_ffff) by (bit_vector);
        assert(((index & 0xff_ffff) & 0xff) as u8 == (index & 0xff) as u8 && (((index & 0xff_ffff)
            >> 8) & 0xff) as u8 == ((index >> 8) & 0xff) as u8 && (((index & 0xff_ffff) >> 16)
            & 0xff) as u8 == ((index >> 16) & 0xff) as u8) by (bit_vector);
        proof {
            assert(Self::spec_from_u32(index & 0xff_ffff).bytes =~= Self::spec_from_u32(
                index,
            ).bytes);
        }
        Self::split_index(index & 0xff_ffff)
    }

    /// Reconstruct a postal code from its array slot.
    pub fn from_index(index: usize) -> (r: Self)
        requires
            index < 0x100_0000,
        ensures
            r.spec_index() == index,
    {
        Self::from_u32(index as u32)
    }

    /// The dense 24-bit index.
    pub fn as_u32(self) -> (r: u32)
        ensures
            r == self.spec_index(),
            r < 0x100_0000,
    {
        let b0 = self.bytes[0] as u32;
        let b1 = self.bytes[1] as u32;
        let b2 = self.bytes[2] as u32;
        assert((b0 | (b1 << 8)) | (b2 << 16) == b0 + b1 * 256 + b2 * 65536) by (bit_vector)
            requires
                b0 < 256 && b1 < 256 && b2 < 256,
        ;
        (b0 | (b1 << 8)) | (b2 << 16)
    }

    /// The dense index as an array slot.
    pub fn as_index(self) -> (r: usize)
        ensures
            r == self.spec_index(),
            r < 0x100_0000,
    {
        self.as_u32() as usize
    }

    /// Unpack into digits and the two letters.
    pub fn components(self) -> (r: (u16, u8, u8))
        ensures
            r.0 == spec_digits_of(self.spec_index()),
            r.1 == spec_letter1_of(self.spec_index()),
            r.2 == spec_letter2_of(self.spec_index()),
    {
        let input = self.as_u32();
        assert((input >> 10) < 0x4000 && ((input >> 5) & 31) < 32 && (input & 31) < 32)
            by (bit_vector)
            requires
                input < 0x100_0000,
        ;
        let digits = (input >> 10) as u16;
        let letter1 = ((input >> 5) & 31) as u8 + 65;
        let letter2 = (input & 31) as u8 + 65;
        (digits, letter1, letter2)
    }

    /// Parse the six-character text of a postal code.
    pub fn parse(s: &str) -> (r: Result<Self, FormatError>)
        ensures
            (r == Err::<SmallestPostcode, FormatError>(FormatError::InvalidLength)) <==> s@.len()
                != 6,
            s@.len() == 6 && !well_formed_postcode_str(s@) ==> r == Err::<
                SmallestPostcode,
                FormatError,
            >(FormatError::InvalidDigits),
            well_formed_postcode_str(s@) ==> (r matches Ok(pc) && pc.spec_index() == spec_pack(
                spec_digits_value(s@) as u16,
                s@[4] as u8,
                s@[5] as u8,
            ) && pc == Self::spec_from_u32(
                spec_pack(spec_digits_value(s@) as u16, s@[4] as u8, s@[5] as u8),
            ) && pc.wf()),
    {
        if s.unicode_len() != 6 {
            return Err(FormatError::InvalidLength);
        }
        let v0 = s.get_char(0) as u32;
        let v1 = s.get_char(1) as u32;
        let v2 = s.get_char(2) as u32;
        let v3 = s.get_char(3) as u32;
        let v4 = s.get_char(4) as u32;
        let v5 = s.get_char(5) as u32;
        if v0 < 48 || v0 > 57 || v1 < 48 || v1 > 57 || v2 < 48 || v2 > 57 || v3 < 48 || v3 > 57 {
            return Err(FormatError::InvalidDigits);
        }
        if v4 < 65 || v4 > 90 || v5 < 65 || v5 > 90 {
            return Err(FormatError::InvalidDigits);
        }
        let digits = ((v0 - 48) * 1000 + (v1 - 48) * 100 + (v2 - 48) * 10 + (v3 - 48)) as u16;
        let pc = Self::new(digits, v4 as u8, v5 as u8);
        proof {
            lemma_pack_roundtrip(digits, v4 as u8, v5 as u8);
        }
        Ok(pc)
    }

    /// The canonical six-character text: zero-padded digits, then letters.
    pub fn format(&self) -> (r: String)
        requires
            self.wf(),
        ensures
            r@ == spec_format(self.spec_index()),
    {
        let (digits, letter1, letter2) = self.components();
        let mut r = String::new();
        push_char(&mut r, (48 + (digits / 1000) as u8) as char);
        push_char(&mut r, (48 + ((digits / 100) % 10) as u8) as char);
        push_char(&mut r, (48 + ((digits / 10) % 10) as u8) as char);
        push_char(&mut r, (48 + (digits % 10) as u8) as char);
        push_char(&mut r, letter1 as char);
        push_char(&mut r, letter2 as char);
        proof {
            assert(r@ =~= spec_format(self.spec_index()));
        }
        r
    }

    /// Equal indices come from equal postal codes: the three stored bytes
    /// are the base-256 digits of the index.
    pub proof fn lemma_index_injective(p: SmallestPostcode, q: SmallestPostcode)
        requires
            p.spec_index() == q.spec_index(),
        ensures
            p == q,
    {
        let u = p.spec_index();
        let b0 = p.bytes[0];
        let b1 = p.bytes[1];
        let b2 = p.bytes[2];
        let c0 = q.bytes[0];
        let c1 = q.bytes[1];
        let c2 = q.bytes[2];
        assert(b0 == c0 && b1 == c1 && b2 == c2) by (bit_vector)
            requires
                (b0 as u32) + (b1 as u32) * 256 + (b2 as u32) * 65536 == (c0 as u32) + (c1 as u32)
                    * 256 + (c2 as u32) * 65536,
        ;
        assert(p.bytes@ =~= q.bytes@);
        assert(p.bytes == q.bytes);
    }

    /// Store an index below `2^24` as three little-endian bytes.
    fn split_index(result: u32) -> (r: Self)
        requires
            result < 0x100_0000,
        ensures
            r.spec_index() == result,
            r == Self::spec_from_u32(result),
    {
        assert((result & 0xff) < 256 && ((result >> 8) & 0xff) < 256 && ((result >> 16) & 0xff)
            < 256) by (bit_vector);
        assert((result & 0xff) + ((result >> 8) & 0xff) * 256 + ((result >> 16) & 0xff) * 65536
            == result) by (bit_vector)
            requires
                result < 0x100_0000,
        ;
        let b0 = (result & 0xff) as u8;
        let b1 = ((result >> 8) & 0xff) as u8;
        let b2 = ((result >> 16) & 0xff) as u8;
        Self { bytes: [b0, b1, b2] }
    }
}

impl PartialOrd for SmallestPostcode {
    /// Postal codes order by their dense index: numeric order, which agrees
    /// with (digits, letter, letter) lexicographic order.
    fn partial_cmp(&self, other: &Self) -> (r: Option<core::cmp::Ordering>) {
        self.as_u32().partial_cmp(&other.as_u32())
    }
}

impl vstd::std_specs::cmp::PartialOrdSpecImpl for SmallestPostcode {
    open spec fn obeys_partial_cmp_spec() -> bool {
        true
    }

    open spec fn partial_cmp_spec(&self, other: &Self) -> Option<core::cmp::Ordering> {
        if self.spec_index() < other.spec_index() {
            Some(core::cmp::Ordering::Less)
        } else if self.spec_index() == other.spec_index() {
            Some(core::cmp::Ordering::Equal)
        } else {
            Some(core::cmp::Ordering::Greater)
        }
    }
}

/// Relies on `String::push`: it appends exactly the given character.
#[verifier::external_body]
pub(crate) fn push_char(s: &mut String, c: char)
    ensures
        final(s)@ == old(s)@.push(c),
{
    s.push(c);
}

/// Formatting a valid index and parsing the text back gives the index again:
/// the six characters are well formed and carry exactly the index's
/// components.
#[verifier::rlimit(100)]
pub proof fn lemma_format_parse_roundtrip(index: u32)
    requires
        index < 0x100_0000,
        spec_digits_of(index) <= 9999,
        spec_letter1_of(index) <= 90,
        spec_letter2_of(index) <= 90,
    ensures
        well_formed_postcode_str(spec_format(index)),
        spec_digits_value(spec_format(index)) == spec_digits_of(index),
        spec_format(index)[4] as u8 == spec_letter1_of(index),
        spec_format(index)[5] as u8 == spec_letter2_of(index),
        spec_pack(
            spec_digits_value(spec_format(index)) as u16,
            spec_format(index)[4] as u8,
            spec_format(index)[5] as u8,
        ) == index,
{
    let d = spec_digits_of(index);
    let s = spec_format(index);
    let du = (index >> 10) as u16;
    assert((index >> 10) < 0x4000) by (bit_vector)
        requires
            index < 0x100_0000,
    ;
    assert(d == du);
    assert((du / 1000) * 1000 + ((du / 100) % 10) * 100 + ((du / 10) % 10) * 10 + du % 10 == du)
        by (bit_vector)
        requires
            du <= 9999,
    ;
    assert(s[0] as u32 == 48 + d / 1000);
    assert(s[1] as u32 == 48 + (d / 100) % 10);
    assert(s[2] as u32 == 48 + (d / 10) % 10);
    assert(s[3] as u32 == 48 + d % 10);
    assert(spec_digits_value(s) == d);
    let du = (index >> 10) as u16;
    let a = ((index >> 5) & 31) as u8;
    let b = (index & 31) as u8;
    assert(du < 0x4000 && a < 32 && b < 32 && ((du as u32) << 10) | (((a as u32)) << 5) | (
    b as u32) == index) by (bit_vector)
        requires
            index < 0x100_0000,
            du == (index >> 10) as u16,
            a == ((index >> 5) & 31) as u8,
            b == (index & 31) as u8,
    ;
    assert(spec_pack((d as u16), (65 + a) as u8, (65 + b) as u8) == index);
}

} // verus!
