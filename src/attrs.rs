//! Struct- and field-level settings of a packed record, and the small parsers for them.
use vstd::prelude::*;
use crate::text::{lowercase, trim, str_eq, lower_of, trim_of, usize_from_str_radix, parses_in_radix, radix_numeral};

verus! {

/// Which end of the record bit 0 denotes.
#[derive(Clone, Copy, Debug, PartialEq, Eq, Structural)]
pub enum BitNumbering {
    Lsb0,
    Msb0,
}

/// The bit numbering a lower-case keyword names.
pub open spec fn numbering_keyword(s: Seq<char>) -> Option<BitNumbering> {
    if s == "lsb0"@ {
        Some(BitNumbering::Lsb0)
    } else if s == "msb0"@ {
        Some(BitNumbering::Msb0)
    } else {
        None
    }
}

impl BitNumbering {
    /// Reads an already lower-cased keyword.
    pub fn from_lowercase(s: &str) -> (r: Option<Self>)
        ensures
            r == numbering_keyword(s@),
    {
        if str_eq(s, "lsb0") {
            Some(BitNumbering::Lsb0)
        } else if str_eq(s, "msb0") {
            Some(BitNumbering::Msb0)
        } else {
            None
        }
    }

    /// Reads `lsb0` or `msb0`, in any case.
    pub fn from_str(s: &str) -> (r: Option<Self>)
        ensures
            r == numbering_keyword(lower_of(s@)),
    {
        let l = lowercase(s);
        Self::from_lowercase(l.as_str())
    }
}

/// Byte order of a multi-byte integer.
#[derive(Clone, Copy, Debug, PartialEq, Eq, Structural)]
pub enum IntegerEndianness {
    Msb,
    Lsb,
}

/// The byte order a lower-case keyword names.
pub open spec fn endianness_keyword(s: Seq<char>) -> Option<IntegerEndianness> {
    if s == "lsb"@ || s == "le"@ {
        Some(IntegerEndianness::Lsb)
    } else if s == "msb"@ || s == "be"@ {
        Some(IntegerEndianness::Msb)
    } else {
        None
    }
}

impl IntegerEndianness {
    /// Reads an already lower-cased keyword.
    pub fn from_lowercase(s: &str) -> (r: Option<Self>)
        ensures
            r == endianness_keyword(s@),
    {
        if str_eq(s, "lsb") || str_eq(s, "le") {
            Some(IntegerEndianness::Lsb)
        } else if str_eq(s, "msb") || str_eq(s, "be") {
            Some(IntegerEndianness::Msb)
        } else {
            None
        }
    }

    /// Reads `lsb`, `le`, `msb` or `be`, in any case.
    pub fn from_str(s: &str) -> (r: Option<Self>)
        ensures
            r == endianness_keyword(lower_of(s@)),
    {
        let l = lowercase(s);
        Self::from_lowercase(l.as_str())
    }
}

/// Whether the text starts with `0x` or `0X`.
pub open spec fn hex_prefixed(s: Seq<char>) -> bool {
    s.len() >= 2 && s[0] == '0' && (s[1] == 'x' || s[1] == 'X')
}

/// The number a trimmed numeral denotes: hexadecimal after `0x`/`0X`, else decimal.
pub open spec fn numeral_value(s: Seq<char>) -> Option<int> {
    if hex_prefixed(s) {
        if parses_in_radix(s.skip(2), 16) {
            radix_numeral(s.skip(2), 16)
        } else {
            None
        }
    } else if parses_in_radix(s, 10) {
        radix_numeral(s, 10)
    } else {
        None
    }
}

/// Parses a numeral that carries no surrounding whitespace.
pub fn parse_trimmed_num(s: &str) -> (r: Result<usize, String>)
    ensures
        r is Ok <==> numeral_value(s@) is Some,
        r is Ok ==> r.unwrap() as int == numeral_value(s@).unwrap(),
{
    let n = s.unicode_len();
    if n >= 2 && s.get_char(0) == '0' && (s.get_char(1) == 'x' || s.get_char(1) == 'X') {
        let body = s.substring_char(2, n);
        assert(body@ =~= s@.skip(2));
        match usize_from_str_radix(body, 16) {
            Some(v) => Ok(v),
            None => Err(String::from_str("invalid hexadecimal number")),
        }
    } else {
        match usize_from_str_radix(s, 10) {
            Some(v) => Ok(v),
            None => Err(String::from_str("invalid decimal number")),
        }
    }
}

/// Parses a decimal or `0x`-prefixed hexadecimal numeral, ignoring surrounding whitespace.
pub fn parse_num(s: &str) -> (r: Result<usize, String>)
    ensures
        r is Ok <==> numeral_value(trim_of(s@)) is Some,
        r is Ok ==> r.unwrap() as int == numeral_value(trim_of(s@)).unwrap(),
{
    parse_trimmed_num(trim(s))
}

/// An inclusive range of bit positions, `start` through `end`.
#[derive(Clone, Copy, Debug, PartialEq, Eq, Structural)]
pub struct BitRange {
    pub start: usize,
    pub end: usize,
}

/// How a field asked to be placed.
#[derive(Clone, Copy, Debug, PartialEq, Eq, Structural)]
pub enum BitsPositionParsed {
    /// Right after the previous field (at bit 0 for the first one).
    Next,
    /// From the given bit on.
    Start(usize),
    /// Exactly the given inclusive range.
    Range(usize, usize),
}

/// Where a field of the given width lands, given the previous field's range.
pub open spec fn placed_range(p: BitsPositionParsed, width: int, prev: Option<BitRange>) -> (int, int) {
    match p {
        BitsPositionParsed::Next => match prev {
            Some(r) => (r.end + 1, r.end + width),
            None => (0, width - 1),
        },
        BitsPositionParsed::Start(s) => (s as int, s + width - 1),
        BitsPositionParsed::Range(a, b) => (a as int, b as int),
    }
}

/// Whether placing a field of the given width stays within `usize`.
pub open spec fn placement_fits(p: BitsPositionParsed, width: int, prev: Option<BitRange>) -> bool {
    let (s, e) = placed_range(p, width, prev);
    0 <= s && 0 <= e && e <= usize::MAX && s <= usize::MAX
}

impl BitsPositionParsed {
    /// The range a field of width `bit_width` occupies when placed this way after `prev`.
    pub fn to_bits_position(self, bit_width: usize, prev: Option<BitRange>) -> (r: BitRange)
        requires
            bit_width >= 1,
            placement_fits(self, bit_width as int, prev),
        ensures
            (r.start as int, r.end as int) == placed_range(self, bit_width as int, prev),
    {
        match self {
            BitsPositionParsed::Next => match prev {
                Some(p) => BitRange { start: p.end + 1, end: p.end + bit_width },
                None => BitRange { start: 0, end: bit_width - 1 },
            },
            BitsPositionParsed::Start(s) => BitRange { start: s, end: s + (bit_width - 1) },
            BitsPositionParsed::Range(a, b) => BitRange { start: a, end: b },
        }
    }

    /// The range with the two bounds put in order.
    pub fn range_in_order(a: usize, b: usize) -> (r: Self)
        ensures
            r == (if a <= b { BitsPositionParsed::Range(a, b) } else { BitsPositionParsed::Range(b, a) }),
    {
        if a <= b {
            BitsPositionParsed::Range(a, b)
        } else {
            BitsPositionParsed::Range(b, a)
        }
    }
}

} // verus!
