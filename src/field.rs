//! Per-field resolution: settings lookup, width, position, numbering and wrappers.
use vstd::prelude::*;
use crate::attrs::{BitNumbering, BitRange, BitsPositionParsed, IntegerEndianness};
use crate::text::{contains, occurs_at, str_eq};
use crate::types::{arg_views, builtin_width, get_builtin_type_bit_width, is_int_ident, is_int_name, FieldType, TypeDesc};

verus! {

/// One setting attached to a field.
#[derive(Clone, Copy, Debug, PartialEq, Eq, Structural)]
pub enum PackFieldAttribute {
    BitPosition(BitsPositionParsed),
    BytePosition(BitsPositionParsed),
    SizeBits(usize),
    ElementSizeBits(usize),
    IntEndianness(IntegerEndianness),
    /// The field holds an enum coded as its primitive.
    TyEnum,
}

/// A field as declared: its name, its type and its settings in declaration order.
#[derive(Clone, Debug)]
pub struct FieldDesc {
    pub name: String,
    pub ty: FieldType,
    pub attrs: Vec<PackFieldAttribute>,
}

/// What went wrong while laying out a record.
#[derive(Clone, Copy, Debug, PartialEq, Eq, Structural)]
pub enum ConfigErrorKind {
    GenericStruct,
    WrongAttribute,
    InvalidAttribute,
    UnsupportedType,
    ZeroSizedArray,
    SizeBitsOnArray,
    UnknownWidth,
    ZeroWidth,
    ReversedRange,
    ElementSizeMismatch,
    WidthMismatch,
    Lsb0NeedsRange,
    Lsb0NeedsSize,
    NumberingRequired,
    MissingEndianness,
    NoFields,
    AmbiguousAlignment,
    FieldOutOfBounds,
    Overlap,
    TooLarge,
}

/// A leaf of the record: a scalar field, or one element of an array field.
#[derive(Clone, Copy, Debug, PartialEq, Eq, Structural)]
pub struct LeafId {
    pub field: usize,
    pub element: Option<usize>,
}

/// Two leaves that claim a common bit: the one placed earlier, then the later one.
#[derive(Clone, Copy, Debug, PartialEq, Eq, Structural)]
pub struct LeafPair {
    pub first: LeafId,
    pub second: LeafId,
}

/// A configuration error: its kind, the field it concerns and, for an overlap,
/// the two leaves that meet.
#[derive(Clone, Copy, Debug, PartialEq, Eq, Structural)]
pub struct ConfigError {
    pub kind: ConfigErrorKind,
    pub field: usize,
    pub overlap: Option<LeafPair>,
}

pub open spec fn cfg_err<T>(kind: ConfigErrorKind, field: usize) -> Result<T, ConfigError> {
    Err(ConfigError { kind, field, overlap: None })
}

/// The first value that `f` picks out of `s`, scanning in order.
pub open spec fn first_some<A, B>(s: Seq<A>, f: spec_fn(A) -> Option<B>) -> Option<B>
    decreases s.len(),
{
    if s.len() == 0 {
        None
    } else {
        match f(s[0]) {
            Some(b) => Some(b),
            None => first_some(s.skip(1), f),
        }
    }
}

pub open spec fn position_of(a: PackFieldAttribute) -> Option<BitsPositionParsed> {
    match a {
        PackFieldAttribute::BitPosition(b) => Some(b),
        PackFieldAttribute::BytePosition(b) => Some(b),
        _ => None,
    }
}

pub open spec fn size_bits_of(a: PackFieldAttribute) -> Option<usize> {
    match a {
        PackFieldAttribute::SizeBits(b) => Some(b),
        _ => None,
    }
}

pub open spec fn element_size_bits_of(a: PackFieldAttribute) -> Option<usize> {
    match a {
        PackFieldAttribute::ElementSizeBits(b) => Some(b),
        _ => None,
    }
}

pub open spec fn endianness_of(a: PackFieldAttribute) -> Option<IntegerEndianness> {
    match a {
        PackFieldAttribute::IntEndianness(e) => Some(e),
        _ => None,
    }
}

pub open spec fn enum_mark_of(a: PackFieldAttribute) -> Option<()> {
    match a {
        PackFieldAttribute::TyEnum => Some(()),
        _ => None,
    }
}

/// The settings of a field, each taken from its first occurrence.
#[derive(Clone, Copy, Debug, PartialEq, Eq, Structural)]
pub struct FieldSettings {
    pub position: Option<BitsPositionParsed>,
    pub size_bits: Option<usize>,
    pub element_size_bits: Option<usize>,
    pub endianness: Option<IntegerEndianness>,
    pub is_enum: bool,
}

pub open spec fn settings_of(attrs: Seq<PackFieldAttribute>) -> FieldSettings {
    FieldSettings {
        position: first_some(attrs, |a| position_of(a)),
        size_bits: first_some(attrs, |a| size_bits_of(a)),
        element_size_bits: first_some(attrs, |a| element_size_bits_of(a)),
        endianness: first_some(attrs, |a| endianness_of(a)),
        is_enum: first_some(attrs, |a| enum_mark_of(a)) is Some,
    }
}

/// Reads a field's settings; a setting given twice is taken from its first occurrence.
pub fn field_settings(attrs: &Vec<PackFieldAttribute>) -> (r: FieldSettings)
    ensures
        r == settings_of(attrs@),
{
    let mut r = FieldSettings {
        position: None,
        size_bits: None,
        element_size_bits: None,
        endianness: None,
        is_enum: false,
    };
    let ghost s = attrs@;
    let mut i: usize = attrs.len();
    assert(s.skip(s.len() as int).len() == 0);
    while i > 0
        invariant
            s == attrs@,
            i <= s.len(),
            r == settings_of(s.skip(i as int)),
        decreases i,
    {
        i -= 1;
        let ghost tail = s.skip(i as int);
        assert(tail.skip(1) =~= s.skip(i + 1));
        assert(tail[0] == s[i as int]);
        match attrs[i] {
            PackFieldAttribute::BitPosition(b) => { r.position = Some(b); },
            PackFieldAttribute::BytePosition(b) => { r.position = Some(b); },
            PackFieldAttribute::SizeBits(b) => { r.size_bits = Some(b); },
            PackFieldAttribute::ElementSizeBits(b) => { r.element_size_bits = Some(b); },
            PackFieldAttribute::IntEndianness(e) => { r.endianness = Some(e); },
            PackFieldAttribute::TyEnum => { r.is_enum = true; },
        }
    }
    assert(s.skip(0) =~= s);
    r
}

/// A field's width and requested placement, before the record's size is known.
#[derive(Clone, Copy, Debug, PartialEq, Eq, Structural)]
pub struct FieldMidPositioning {
    pub bit_width: usize,
    pub bits_position: BitsPositionParsed,
}

/// Width and placement of a field, or the kind of error it raises. Width comes,
/// in order, from an explicit size, from the element size times the length, from
/// an explicit range, and last from the type.
pub open spec fn mid_positioning(ty: FieldType, attrs: Seq<PackFieldAttribute>) -> Result<(int, BitsPositionParsed), ConfigErrorKind> {
    let st = settings_of(attrs);
    let pos = match st.position {
        Some(p) => p,
        None => BitsPositionParsed::Next,
    };
    let shape: Result<(bool, int, Option<int>), ConfigErrorKind> = match ty {
        FieldType::Path(t) => Ok((false, 1int, builtin_width(t.ident@, arg_views(t)))),
        FieldType::Array(t, n) => if n == 0 {
            Err(ConfigErrorKind::ZeroSizedArray)
        } else {
            Ok((true, n as int, builtin_width(t.ident@, arg_views(t))))
        },
        FieldType::Unsupported => Err(ConfigErrorKind::UnsupportedType),
    };
    match shape {
        Err(e) => Err(e),
        Ok((is_array, len, builtin)) => {
            let w: Result<int, ConfigErrorKind> = if st.size_bits is Some {
                if is_array {
                    Err(ConfigErrorKind::SizeBitsOnArray)
                } else {
                    Ok(st.size_bits.unwrap() as int)
                }
            } else if st.element_size_bits is Some {
                Ok(st.element_size_bits.unwrap() * len)
            } else if pos is Range {
                if pos->Range_0 <= pos->Range_1 {
                    Ok(pos->Range_1 - pos->Range_0 + 1)
                } else {
                    Err(ConfigErrorKind::ReversedRange)
                }
            } else if builtin is Some {
                Ok(builtin.unwrap() * len)
            } else {
                Err(ConfigErrorKind::UnknownWidth)
            };
            match w {
                Err(e) => Err(e),
                Ok(w) => if w <= 0 {
                    Err(ConfigErrorKind::ZeroWidth)
                } else if w > usize::MAX {
                    Err(ConfigErrorKind::TooLarge)
                } else if pos is Range && !(pos->Range_0 <= pos->Range_1) {
                    Err(ConfigErrorKind::ReversedRange)
                } else {
                    Ok((w, pos))
                },
            }
        },
    }
}

pub open spec fn mid_result(ty: FieldType, attrs: Seq<PackFieldAttribute>, index: usize) -> Result<FieldMidPositioning, ConfigError> {
    match mid_positioning(ty, attrs) {
        Ok((w, p)) => Ok(FieldMidPositioning { bit_width: w as usize, bits_position: p }),
        Err(k) => cfg_err(k, index),
    }
}

/// Width and requested placement of field number `index`.
pub fn get_field_mid_positioning(field: &FieldDesc, index: usize) -> (r: Result<FieldMidPositioning, ConfigError>)
    ensures
        r == mid_result(field.ty, field.attrs@, index),
        r matches Ok(m) ==> m.bit_width >= 1,
{
    let st = field_settings(&field.attrs);
    let pos = match st.position {
        Some(p) => p,
        None => BitsPositionParsed::Next,
    };
    let (is_array, len, builtin) = match &field.ty {
        FieldType::Path(t) => (false, 1usize, get_builtin_type_bit_width(t)),
        FieldType::Array(t, n) => {
            if *n == 0 {
                return Err(ConfigError { kind: ConfigErrorKind::ZeroSizedArray, field: index, overlap: None });
            }
            (true, *n, get_builtin_type_bit_width(t))
        },
        FieldType::Unsupported => {
            return Err(ConfigError { kind: ConfigErrorKind::UnsupportedType, field: index, overlap: None });
        },
    };
    let w: Option<usize> = if let Some(b) = st.size_bits {
        if is_array {
            return Err(ConfigError { kind: ConfigErrorKind::SizeBitsOnArray, field: index, overlap: None });
        }
        Some(b)
    } else if let Some(e) = st.element_size_bits {
        e.checked_mul(len)
    } else if let BitsPositionParsed::Range(a, b) = pos {
        if a > b {
            return Err(ConfigError { kind: ConfigErrorKind::ReversedRange, field: index, overlap: None });
        }
        (b - a).checked_add(1)
    } else if let Some(bw) = builtin {
        bw.checked_mul(len)
    } else {
        return Err(ConfigError { kind: ConfigErrorKind::UnknownWidth, field: index, overlap: None });
    };
    match w {
        None => Err(ConfigError { kind: ConfigErrorKind::TooLarge, field: index, overlap: None }),
        Some(w) => {
            if w == 0 {
                Err(ConfigError { kind: ConfigErrorKind::ZeroWidth, field: index, overlap: None })
            } else if let BitsPositionParsed::Range(a, b) = pos {
                if a > b {
                    Err(ConfigError { kind: ConfigErrorKind::ReversedRange, field: index, overlap: None })
                } else {
                    Ok(FieldMidPositioning { bit_width: w, bits_position: pos })
                }
            } else {
                Ok(FieldMidPositioning { bit_width: w, bits_position: pos })
            }
        },
    }
}

/// Rewrites a range counted from the least significant bit of a record of
/// `total` bits into one counted from the most significant bit, bounds in order.
pub open spec fn lsb0_range(total: int, a: int, b: int) -> (int, int) {
    let x = total - 1 - a;
    let y = total - 1 - b;
    if x <= y {
        (x, y)
    } else {
        (y, x)
    }
}

/// Converts a least-significant-first range of a `total_bits` record to a
/// most-significant-first one.
pub fn normalize_lsb0(total_bits: usize, a: usize, b: usize) -> (r: BitsPositionParsed)
    requires
        a < total_bits,
        b < total_bits,
    ensures
        r == BitsPositionParsed::Range(lsb0_range(total_bits as int, a as int, b as int).0 as usize,
            lsb0_range(total_bits as int, a as int, b as int).1 as usize),
{
    BitsPositionParsed::range_in_order(total_bits - 1 - a, total_bits - 1 - b)
}

/// The placement a field takes under the record's bit numbering.
pub open spec fn numbered_position(
    numbering: Option<BitNumbering>,
    size_bytes: Option<usize>,
    p: BitsPositionParsed,
) -> Result<BitsPositionParsed, ConfigErrorKind> {
    match numbering {
        Some(BitNumbering::Lsb0) => match p {
            BitsPositionParsed::Range(a, b) => match size_bytes {
                None => Err(ConfigErrorKind::Lsb0NeedsSize),
                Some(sb) => if sb * 8 > usize::MAX {
                    Err(ConfigErrorKind::TooLarge)
                } else if a >= sb * 8 || b >= sb * 8 {
                    Err(ConfigErrorKind::FieldOutOfBounds)
                } else {
                    let (x, y) = lsb0_range(sb * 8, a as int, b as int);
                    Ok(BitsPositionParsed::Range(x as usize, y as usize))
                },
            },
            _ => Err(ConfigErrorKind::Lsb0NeedsRange),
        },
        Some(BitNumbering::Msb0) => Ok(p),
        None => if p is Next {
            Ok(p)
        } else {
            Err(ConfigErrorKind::NumberingRequired)
        },
    }
}

pub open spec fn numbered_result(
    numbering: Option<BitNumbering>,
    size_bytes: Option<usize>,
    p: BitsPositionParsed,
    index: usize,
) -> Result<BitsPositionParsed, ConfigError> {
    match numbered_position(numbering, size_bytes, p) {
        Ok(q) => Ok(q),
        Err(k) => cfg_err(k, index),
    }
}

/// Applies the record's bit numbering to the placement field number `index` asked for.
pub fn apply_numbering(
    numbering: Option<BitNumbering>,
    size_bytes: Option<usize>,
    p: BitsPositionParsed,
    index: usize,
) -> (r: Result<BitsPositionParsed, ConfigError>)
    ensures
        r == numbered_result(numbering, size_bytes, p, index),
{
    match numbering {
        Some(BitNumbering::Lsb0) => match p {
            BitsPositionParsed::Range(a, b) => match size_bytes {
                None => Err(ConfigError { kind: ConfigErrorKind::Lsb0NeedsSize, field: index, overlap: None }),
                Some(sb) => match sb.checked_mul(8) {
                    None => Err(ConfigError { kind: ConfigErrorKind::TooLarge, field: index, overlap: None }),
                    Some(total) => if a >= total || b >= total {
                        Err(ConfigError { kind: ConfigErrorKind::FieldOutOfBounds, field: index, overlap: None })
                    } else {
                        Ok(normalize_lsb0(total, a, b))
                    },
                },
            },
            _ => Err(ConfigError { kind: ConfigErrorKind::Lsb0NeedsRange, field: index, overlap: None }),
        },
        Some(BitNumbering::Msb0) => Ok(p),
        None => match p {
            BitsPositionParsed::Next => Ok(p),
            _ => Err(ConfigError { kind: ConfigErrorKind::NumberingRequired, field: index, overlap: None }),
        },
    }
}

/// One step of the transformation a leaf's value goes through on encode.
#[derive(Clone, Copy, Debug, PartialEq, Eq, Structural)]
pub enum SerializationWrapper {
    /// The enum is mapped to its primitive value.
    PrimitiveEnum,
    /// The integer is cut or extended to exactly `bit_width` bits; with `of_enum`,
    /// the integer is the enum's primitive type.
    Integer { bit_width: usize, of_enum: bool },
    /// The integer is written in the given byte order.
    Endianness(IntegerEndianness),
}

/// A plain fixed-width integer type.
pub open spec fn is_plain_int_type(t: TypeDesc) -> bool {
    is_int_name(t.ident@) && t.generic_args@.len() == 0
}

/// The sized integer type: `Integer` with a type argument that mentions `Bits`.
pub open spec fn is_sized_int_type(t: TypeDesc) -> bool {
    t.ident@ == "Integer"@ && exists|j: int, k: int|
        0 <= j < arg_views(t).len() && #[trigger] occurs_at(arg_views(t)[j], "Bits"@, k)
}

/// The byte order a leaf of the given width gets: big-endian up to one byte,
/// else the field's own choice, else the record's default.
pub open spec fn chosen_order(
    width: int,
    own: Option<IntegerEndianness>,
    default: Option<IntegerEndianness>,
) -> Option<IntegerEndianness> {
    if width <= 8 {
        Some(IntegerEndianness::Msb)
    } else if own is Some {
        own
    } else {
        default
    }
}

/// The wrapper chain of a leaf of type `t` and the given width.
pub open spec fn wrapper_chain(
    t: TypeDesc,
    st: FieldSettings,
    width: int,
    default: Option<IntegerEndianness>,
) -> Result<Seq<SerializationWrapper>, ConfigErrorKind> {
    let needs_int = st.is_enum || is_plain_int_type(t);
    let needs_order = needs_int || is_sized_int_type(t);
    let order = chosen_order(width, st.endianness, default);
    if needs_order && order is None {
        Err(ConfigErrorKind::MissingEndianness)
    } else {
        let e: Seq<SerializationWrapper> = if st.is_enum {
            seq![SerializationWrapper::PrimitiveEnum]
        } else {
            seq![]
        };
        let i: Seq<SerializationWrapper> = if needs_int {
            seq![SerializationWrapper::Integer { bit_width: width as usize, of_enum: st.is_enum }]
        } else {
            seq![]
        };
        let o: Seq<SerializationWrapper> = if needs_order {
            seq![SerializationWrapper::Endianness(order.unwrap())]
        } else {
            seq![]
        };
        Ok(e + i + o)
    }
}

fn is_sized_int(t: &TypeDesc) -> (r: bool)
    ensures
        r == is_sized_int_type(*t),
{
    if !str_eq(t.ident.as_str(), "Integer") {
        return false;
    }
    let ghost av = arg_views(*t);
    let mut i: usize = 0;
    while i < t.generic_args.len()
        invariant
            av == arg_views(*t),
            t.ident@ == "Integer"@,
            i <= t.generic_args.len(),
            forall|j: int, k: int| 0 <= j < i ==> !#[trigger] occurs_at(av[j], "Bits"@, k),
        decreases t.generic_args.len() - i,
    {
        assert(av[i as int] == t.generic_args@[i as int]@);
        if contains(t.generic_args[i].as_str(), "Bits") {
            return true;
        }
        i += 1;
    }
    false
}

/// A scalar leaf, resolved: its type, width, bit range and wrapper chain.
#[derive(Clone, Debug)]
pub struct FieldRegular {
    pub ty: TypeDesc,
    pub bit_width: usize,
    pub bit_range: BitRange,
    pub serialization_wrappers: Vec<SerializationWrapper>,
}

/// Resolves one leaf of field number `index`, of type `ty`, on the given range.
pub fn parse_reg_field(
    st: &FieldSettings,
    ty: &TypeDesc,
    bit_range: BitRange,
    default_endianness: Option<IntegerEndianness>,
    index: usize,
) -> (r: Result<FieldRegular, ConfigError>)
    requires
        bit_range.start <= bit_range.end,
        bit_range.end - bit_range.start + 1 <= usize::MAX,
    ensures
        match wrapper_chain(*ty, *st, bit_range.end - bit_range.start + 1, default_endianness) {
            Ok(ws) => r matches Ok(f) && f.bit_range == bit_range && f.bit_width == bit_range.end
                - bit_range.start + 1 && f.serialization_wrappers@ == ws,
            Err(k) => r == cfg_err::<FieldRegular>(k, index),
        },
{
    let bit_width = bit_range.end - bit_range.start + 1;
    let needs_int = st.is_enum || (is_int_ident(ty.ident.as_str()) && ty.generic_args.len() == 0);
    let needs_order = needs_int || is_sized_int(ty);
    let order = if bit_width <= 8 {
        Some(IntegerEndianness::Msb)
    } else if st.endianness.is_some() {
        st.endianness
    } else {
        default_endianness
    };
    let mut wrappers: Vec<SerializationWrapper> = Vec::new();
    if st.is_enum {
        wrappers.push(SerializationWrapper::PrimitiveEnum);
    }
    if needs_int {
        wrappers.push(SerializationWrapper::Integer { bit_width, of_enum: st.is_enum });
    }
    if needs_order {
        match order {
            Some(o) => wrappers.push(SerializationWrapper::Endianness(o)),
            None => {
                return Err(ConfigError { kind: ConfigErrorKind::MissingEndianness, field: index, overlap: None });
            },
        }
    }
    proof {
        let ws = wrapper_chain(*ty, *st, bit_width as int, default_endianness);
        assert(ws is Ok);
        assert(wrappers@ =~= ws->Ok_0);
    }
    Ok(FieldRegular { ty: ty.clone(), bit_width, bit_range, serialization_wrappers: wrappers })
}

/// A resolved field: one scalar leaf, or an array of equally wide leaves.
#[derive(Clone, Debug)]
pub enum FieldKind {
    Regular { ident: String, field: FieldRegular },
    Array { ident: String, size: usize, elements: Vec<FieldRegular> },
}

/// The leaves of a resolved field, in order.
pub open spec fn kind_leaves(k: FieldKind) -> Seq<FieldRegular> {
    match k {
        FieldKind::Regular { field, .. } => seq![field],
        FieldKind::Array { elements, .. } => elements@,
    }
}

pub open spec fn kind_name(k: FieldKind) -> Seq<char> {
    match k {
        FieldKind::Regular { ident, .. } => ident@,
        FieldKind::Array { ident, .. } => ident@,
    }
}

/// `n` contiguous ranges of `e` bits each, the first starting at `start`.
pub open spec fn element_ranges(start: int, n: int, e: int) -> Seq<BitRange> {
    Seq::new(n as nat, |i: int| BitRange { start: (start + i * e) as usize, end: (start + i * e + e - 1) as usize })
}

/// The leaf ranges and the wrapper chain (shared by all leaves) of a field of
/// the given width placed on `range`, or the kind of error it raises.
pub open spec fn field_outcome(
    ty: FieldType,
    st: FieldSettings,
    width: int,
    range: BitRange,
    default: Option<IntegerEndianness>,
) -> Result<(Seq<BitRange>, Seq<SerializationWrapper>), ConfigErrorKind> {
    match ty {
        FieldType::Path(t) => match wrapper_chain(t, st, width, default) {
            Ok(ws) => Ok((seq![range], ws)),
            Err(k) => Err(k),
        },
        FieldType::Array(t, n) => if n == 0 {
            Err(ConfigErrorKind::ZeroSizedArray)
        } else {
            let e = width / (n as int);
            if e == 0 || width % e != 0 {
                Err(ConfigErrorKind::ElementSizeMismatch)
            } else {
                match wrapper_chain(t, st, e, default) {
                    Ok(ws) => Ok((element_ranges(range.start as int, n as int, e), ws)),
                    Err(k) => Err(k),
                }
            }
        },
        FieldType::Unsupported => Err(ConfigErrorKind::UnsupportedType),
    }
}

/// Whether a resolved field has the given name, leaf ranges and wrapper chain.
pub open spec fn kind_matches(k: FieldKind, name: Seq<char>, ranges: Seq<BitRange>, ws: Seq<SerializationWrapper>) -> bool {
    &&& kind_name(k) == name
    &&& kind_leaves(k).len() == ranges.len()
    &&& forall|i: int| 0 <= i < ranges.len() ==> (#[trigger] kind_leaves(k)[i]).bit_range == ranges[i]
        && kind_leaves(k)[i].serialization_wrappers@ == ws && kind_leaves(k)[i].bit_width
        == ranges[i].end - ranges[i].start + 1
}

/// Resolves field number `index`, of width `mp.bit_width`, placed on `bit_range`.
pub fn parse_field(
    field: &FieldDesc,
    st: &FieldSettings,
    mp: &FieldMidPositioning,
    bit_range: BitRange,
    default_endianness: Option<IntegerEndianness>,
    index: usize,
) -> (r: Result<FieldKind, ConfigError>)
    requires
        mp.bit_width >= 1,
        bit_range.start <= bit_range.end,
        bit_range.end - bit_range.start + 1 == mp.bit_width,
    ensures
        match field_outcome(field.ty, *st, mp.bit_width as int, bit_range, default_endianness) {
            Ok((rs, ws)) => r matches Ok(k) && kind_matches(k, field.name@, rs, ws) && (k is Array
                <==> field.ty is Array),
            Err(kd) => r == cfg_err::<FieldKind>(kd, index),
        },
{
    match &field.ty {
        FieldType::Path(t) => {
            let f = match parse_reg_field(st, t, bit_range, default_endianness, index) {
                Ok(f) => f,
                Err(e) => return Err(e),
            };
            let k = FieldKind::Regular { ident: field.name.clone(), field: f };
            assert(kind_leaves(k)[0] == f);
            assert(kind_name(k) == field.name@);
            Ok(k)
        },
        FieldType::Array(t, n) => {
            let n = *n;
            if n == 0 {
                return Err(ConfigError { kind: ConfigErrorKind::ZeroSizedArray, field: index, overlap: None });
            }
            let w = mp.bit_width;
            let e = w / n;
            if e == 0 || w % e != 0 {
                return Err(ConfigError { kind: ConfigErrorKind::ElementSizeMismatch, field: index, overlap: None });
            }
            assert(e * n <= w) by (nonlinear_arith)
                requires e == w / n, n > 0, w >= 0;
            let ghost rs = element_ranges(bit_range.start as int, n as int, e as int);
            let mut elements: Vec<FieldRegular> = Vec::new();
            let mut i: usize = 0;
            while i < n
                invariant
                    field.ty == FieldType::Array(*t, n),
                    n > 0,
                    e == w / n,
                    w % e == 0,
                    0 < e,
                    e * n <= w,
                    w == mp.bit_width,
                    bit_range.end - bit_range.start + 1 == w,
                    rs == element_ranges(bit_range.start as int, n as int, e as int),
                    wrapper_chain(*t, *st, e as int, default_endianness) is Ok || i == 0,
                    i <= n,
                    elements@.len() == i,
                    forall|j: int| 0 <= j < i ==> (#[trigger] elements@[j]).bit_range == rs[j]
                        && elements@[j].serialization_wrappers@ == wrapper_chain(*t, *st, e as int, default_endianness)->Ok_0
                        && elements@[j].bit_width == e,
                decreases n - i,
            {
                assert(i * e + e <= n * e) by (nonlinear_arith)
                    requires i < n, e > 0;
                let s = bit_range.start + i * e;
                let er = BitRange { start: s, end: s + (e - 1) };
                assert(er.end - er.start + 1 == e);
                let f = match parse_reg_field(st, t, er, default_endianness, index) {
                    Ok(f) => f,
                    Err(x) => return Err(x),
                };
                elements.push(f);
                assert(er == rs[i as int]);
                i += 1;
            }
            let ghost es = elements@;
            let k = FieldKind::Array { ident: field.name.clone(), size: n, elements };
            assert(kind_leaves(k).len() == rs.len());
            assert(wrapper_chain(*t, *st, e as int, default_endianness) is Ok);
            assert(field_outcome(field.ty, *st, mp.bit_width as int, bit_range, default_endianness) == Ok::<(Seq<BitRange>, Seq<SerializationWrapper>), ConfigErrorKind>((rs, wrapper_chain(*t, *st, e as int, default_endianness)->Ok_0)));
            assert(kind_name(k) == field.name@);
            assert forall|j: int| 0 <= j < rs.len() implies (#[trigger] kind_leaves(k)[j]).bit_range == rs[j]
                && kind_leaves(k)[j].serialization_wrappers@ == wrapper_chain(*t, *st, e as int, default_endianness)->Ok_0
                && kind_leaves(k)[j].bit_width == rs[j].end - rs[j].start + 1 by {
                assert(kind_leaves(k)[j] == es[j]);
                assert(j * e + e <= n * e) by (nonlinear_arith)
                    requires j < n, e > 0, j >= 0;
            }
            Ok(k)
        },
        FieldType::Unsupported => Err(ConfigError { kind: ConfigErrorKind::UnsupportedType, field: index, overlap: None }),
    }
}

} // verus!
