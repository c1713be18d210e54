//! Reading the recognized keys of record and field annotations into typed settings.
use vstd::prelude::*;
use crate::attrs::{numeral_value, parse_num, BitNumbering, BitsPositionParsed, IntegerEndianness, endianness_keyword, numbering_keyword};
use crate::extract::{annotation_pairs, pairs_match, parse_sub_attributes, parse_sub_attributes_as_string, Annotation, get_string_from_expr, reserved_length, expr_bytes, string_of, Expr, Lit, SubAttribute};
use crate::field::{ConfigError, ConfigErrorKind, FieldDesc, PackFieldAttribute};
use crate::layout::{parse_struct, struct_result, Footer, Header, Layout, PackStructAttribute, StructDesc};
use crate::text::{find, lower_of, str_eq, trim_of};
use crate::types::{first_occurrence, FieldType};

verus! {

/// A position as text: a single number, or `lo..hi`.
pub open spec fn position_numbers(s: Seq<char>) -> Option<(int, Option<int>)> {
    match first_occurrence(s, ".."@) {
        Some(p) => {
            let lo = numeral_value(trim_of(s.take(p)));
            let hi = numeral_value(trim_of(s.skip(p + 2)));
            if lo is Some && hi is Some {
                Some((lo.unwrap(), Some(hi.unwrap())))
            } else {
                None
            }
        },
        None => match numeral_value(trim_of(s)) {
            Some(v) => Some((v, None)),
            None => None,
        },
    }
}

pub open spec fn ordered(a: int, b: int) -> (int, int) {
    if a <= b { (a, b) } else { (b, a) }
}

/// The bit placement a `bits` value asks for: from a bit on, or an inclusive
/// range of bits, bounds in order.
pub open spec fn bit_position_of(s: Seq<char>) -> Option<BitsPositionParsed> {
    match position_numbers(s) {
        Some((a, None)) => Some(BitsPositionParsed::Start(a as usize)),
        Some((a, Some(b))) => Some(BitsPositionParsed::Range(ordered(a, b).0 as usize, ordered(a, b).1 as usize)),
        None => None,
    }
}

/// The bit placement a `bytes` value asks for: the bits of one byte, or of an
/// inclusive range of bytes, when they fit in `usize`.
pub open spec fn byte_position_of(s: Seq<char>) -> Option<BitsPositionParsed> {
    match position_numbers(s) {
        Some((a, hi)) => {
            let b = match hi { Some(h) => h, None => a };
            let (x, y) = ordered(a, b);
            if y * 8 + 7 <= usize::MAX {
                Some(BitsPositionParsed::Range((x * 8) as usize, (y * 8 + 7) as usize))
            } else {
                None
            }
        },
        None => None,
    }
}

fn read_position(s: &str) -> (r: Option<(usize, Option<usize>)>)
    ensures
        r is Some <==> position_numbers(s@) is Some,
        r matches Some((x, h)) ==> x as int == position_numbers(s@).unwrap().0 && (h is Some
            <==> position_numbers(s@).unwrap().1 is Some) && (h is Some ==> h.unwrap() as int
            == position_numbers(s@).unwrap().1.unwrap()),
{
    let n = s.unicode_len();
    match find(s, "..") {
        Some(p) => {
            proof {
                reveal_strlit("..");
                let c = first_occurrence(s@, ".."@).unwrap();
                assert(c == p as int) by {
                    if c < p {} else if c > p {}
                }
            }
            let left = s.substring_char(0, p);
            let right = s.substring_char(p + 2, n);
            assert(left@ =~= s@.take(p as int));
            assert(right@ =~= s@.skip(p + 2));
            let lo = parse_num(left);
            let hi = parse_num(right);
            match (lo, hi) {
                (Ok(a), Ok(b)) => Some((a, Some(b))),
                _ => None,
            }
        },
        None => match parse_num(s) {
            Ok(a) => Some((a, None)),
            Err(_) => None,
        },
    }
}

/// The setting one `key = "value"` item of a field annotation gives: none for
/// a key that is not recognized, or `Err` for a value that cannot be read.
pub open spec fn field_attribute_of(key: Seq<char>, value: Seq<char>) -> Result<Option<PackFieldAttribute>, ()> {
    let num = numeral_value(trim_of(value));
    if key == "bits"@ || key == "bit_position"@ {
        match bit_position_of(value) {
            Some(p) => Ok(Some(PackFieldAttribute::BitPosition(p))),
            None => Err(()),
        }
    } else if key == "bytes"@ || key == "byte_position"@ {
        match byte_position_of(value) {
            Some(p) => Ok(Some(PackFieldAttribute::BytePosition(p))),
            None => Err(()),
        }
    } else if key == "size_bits"@ || key == "element_size_bits"@ || key == "size_bytes"@ || key == "element_size_bytes"@ {
        let bytes = key == "size_bytes"@ || key == "element_size_bytes"@;
        match num {
            Some(v) => {
                let bits = if bytes { v * 8 } else { v };
                if bits > usize::MAX {
                    Err(())
                } else if key == "size_bits"@ || key == "size_bytes"@ {
                    Ok(Some(PackFieldAttribute::SizeBits(bits as usize)))
                } else {
                    Ok(Some(PackFieldAttribute::ElementSizeBits(bits as usize)))
                }
            },
            None => Err(()),
        }
    } else if key == "endian"@ {
        match endianness_keyword(lower_of(value)) {
            Some(e) => Ok(Some(PackFieldAttribute::IntEndianness(e))),
            None => Err(()),
        }
    } else if key == "ty"@ {
        if value == "enum"@ {
            Ok(Some(PackFieldAttribute::TyEnum))
        } else {
            Err(())
        }
    } else {
        Ok(None)
    }
}

fn bit_position(value: &str) -> (r: Option<BitsPositionParsed>)
    ensures
        r == bit_position_of(value@),
{
    match read_position(value) {
        Some((a, None)) => Some(BitsPositionParsed::Start(a)),
        Some((a, Some(b))) => Some(BitsPositionParsed::range_in_order(a, b)),
        None => None,
    }
}

fn byte_position(value: &str) -> (r: Option<BitsPositionParsed>)
    ensures
        r == byte_position_of(value@),
{
    match read_position(value) {
        Some((a, hi)) => {
            let b = match hi {
                Some(h) => h,
                None => a,
            };
            let (x, y) = if a <= b { (a, b) } else { (b, a) };
            if y > (usize::MAX - 7) / 8 {
                None
            } else {
                Some(BitsPositionParsed::Range(x * 8, y * 8 + 7))
            }
        },
        None => None,
    }
}

fn field_attribute(key: &str, value: &str) -> (r: Result<Option<PackFieldAttribute>, ()>)
    ensures
        r == field_attribute_of(key@, value@),
{
    if str_eq(key, "bits") || str_eq(key, "bit_position") {
        match bit_position(value) {
            Some(p) => Ok(Some(PackFieldAttribute::BitPosition(p))),
            None => Err(()),
        }
    } else if str_eq(key, "bytes") || str_eq(key, "byte_position") {
        match byte_position(value) {
            Some(p) => Ok(Some(PackFieldAttribute::BytePosition(p))),
            None => Err(()),
        }
    } else if str_eq(key, "size_bits") || str_eq(key, "element_size_bits") || str_eq(key, "size_bytes") || str_eq(key, "element_size_bytes") {
        let bytes = str_eq(key, "size_bytes") || str_eq(key, "element_size_bytes");
        match parse_num(value) {
            Ok(v) => {
                let bits = if bytes {
                    if v > usize::MAX / 8 {
                        assert(v * 8 > usize::MAX);
                        return Err(());
                    }
                    v * 8
                } else {
                    v
                };
                if str_eq(key, "size_bits") || str_eq(key, "size_bytes") {
                    Ok(Some(PackFieldAttribute::SizeBits(bits)))
                } else {
                    Ok(Some(PackFieldAttribute::ElementSizeBits(bits)))
                }
            },
            Err(_) => Err(()),
        }
    } else if str_eq(key, "endian") {
        match IntegerEndianness::from_str(value) {
            Some(e) => Ok(Some(PackFieldAttribute::IntEndianness(e))),
            None => Err(()),
        }
    } else if str_eq(key, "ty") {
        if str_eq(value, "enum") {
            Ok(Some(PackFieldAttribute::TyEnum))
        } else {
            Err(())
        }
    } else {
        Ok(None)
    }
}

pub open spec fn text_pairs(v: Seq<(String, String)>) -> Seq<(Seq<char>, Seq<char>)> {
    v.map_values(|p: (String, String)| (p.0@, p.1@))
}

/// The settings a field's items give, in order, or the index of the first item
/// whose value cannot be read.
pub open spec fn field_attributes_of(pairs: Seq<(Seq<char>, Seq<char>)>) -> Result<Seq<PackFieldAttribute>, int>
    decreases pairs.len(),
{
    if pairs.len() == 0 {
        Ok(seq![])
    } else {
        match field_attributes_of(pairs.drop_last()) {
            Err(i) => Err(i),
            Ok(rest) => match field_attribute_of(pairs.last().0, pairs.last().1) {
                Err(()) => Err(pairs.len() - 1),
                Ok(None) => Ok(rest),
                Ok(Some(a)) => Ok(rest.push(a)),
            },
        }
    }
}

/// Reads the recognized keys of a field's items into settings, in order.
pub fn parse_field_attributes(pairs: &Vec<(String, String)>) -> (r: Result<Vec<PackFieldAttribute>, ConfigError>)
    ensures
        match field_attributes_of(text_pairs(pairs@)) {
            Ok(s) => r matches Ok(v) && v@ == s,
            Err(i) => r == Err::<Vec<PackFieldAttribute>, ConfigError>(
                ConfigError { kind: ConfigErrorKind::InvalidAttribute, field: i as usize, overlap: None },
            ),
        },
{
    let ghost tp = text_pairs(pairs@);
    let mut out: Vec<PackFieldAttribute> = Vec::new();
    let mut i: usize = 0;
    assert(tp.take(0) =~= seq![]);
    while i < pairs.len()
        invariant
            tp == text_pairs(pairs@),
            i <= pairs@.len(),
            field_attributes_of(tp.take(i as int)) == Ok::<Seq<PackFieldAttribute>, int>(out@),
        decreases pairs.len() - i,
    {
        assert(tp.take(i + 1).drop_last() =~= tp.take(i as int));
        assert(tp.take(i + 1).last() == (pairs@[i as int].0@, pairs@[i as int].1@));
        match field_attribute(pairs[i].0.as_str(), pairs[i].1.as_str()) {
            Err(()) => {
                proof {
                    lemma_field_err_stays(tp, i as int, tp.len() as int);
                    assert(tp.take(tp.len() as int) =~= tp);
                }
                return Err(ConfigError { kind: ConfigErrorKind::InvalidAttribute, field: i, overlap: None });
            },
            Ok(None) => {},
            Ok(Some(a)) => {
                out.push(a);
            },
        }
        i += 1;
    }
    assert(tp.take(i as int) =~= tp);
    Ok(out)
}

proof fn lemma_field_err_stays(tp: Seq<(Seq<char>, Seq<char>)>, i: int, m: int)
    requires
        0 <= i < m <= tp.len(),
        field_attributes_of(tp.take(i + 1)) == Err::<Seq<PackFieldAttribute>, int>(i),
    ensures
        field_attributes_of(tp.take(m)) == Err::<Seq<PackFieldAttribute>, int>(i),
    decreases m - i,
{
    if m > i + 1 {
        lemma_field_err_stays(tp, i, m - 1);
        assert(tp.take(m).drop_last() =~= tp.take(m - 1));
    }
}

/// What a record-wide setting says, with the bytes of a header or footer as a sequence.
pub enum StructSettingView {
    Numbering(BitNumbering),
    DefaultEndianness(IntegerEndianness),
    SizeBytes(usize),
    HeaderBytes(Seq<u8>),
    HeaderReserved(usize),
    FooterBytes(Seq<u8>),
    FooterReserved(usize),
}

pub open spec fn struct_attr_view(a: PackStructAttribute) -> StructSettingView {
    match a {
        PackStructAttribute::BitNumbering(b) => StructSettingView::Numbering(b),
        PackStructAttribute::DefaultIntEndianness(e) => StructSettingView::DefaultEndianness(e),
        PackStructAttribute::SizeBytes(n) => StructSettingView::SizeBytes(n),
        PackStructAttribute::Header(Header::Bytes(b)) => StructSettingView::HeaderBytes(b@),
        PackStructAttribute::Header(Header::Trait(n)) => StructSettingView::HeaderReserved(n),
        PackStructAttribute::Footer(Footer::Bytes(b)) => StructSettingView::FooterBytes(b@),
        PackStructAttribute::Footer(Footer::Trait(n)) => StructSettingView::FooterReserved(n),
    }
}

/// The setting one `key = value` item of a record annotation gives: none for
/// a key that is not recognized, or `Err` for a value that cannot be read. A
/// header or footer given as an integer reserves that many bytes; given as
/// byte literals, it holds those bytes.
pub open spec fn struct_attribute_of(key: Seq<char>, e: Expr) -> Result<Option<StructSettingView>, ()> {
    let text = string_of(e);
    if key == "bit_numbering"@ {
        if text is Some && numbering_keyword(lower_of(text.unwrap())) is Some {
            Ok(Some(StructSettingView::Numbering(numbering_keyword(lower_of(text.unwrap())).unwrap())))
        } else {
            Err(())
        }
    } else if key == "endian"@ || key == "default_int_endian"@ {
        if text is Some && endianness_keyword(lower_of(text.unwrap())) is Some {
            Ok(Some(StructSettingView::DefaultEndianness(endianness_keyword(lower_of(text.unwrap())).unwrap())))
        } else {
            Err(())
        }
    } else if key == "size_bytes"@ {
        if text is Some && numeral_value(trim_of(text.unwrap())) is Some {
            Ok(Some(StructSettingView::SizeBytes(numeral_value(trim_of(text.unwrap())).unwrap() as usize)))
        } else {
            Err(())
        }
    } else if key == "header"@ || key == "footer"@ {
        let header = key == "header"@;
        if e matches Expr::Lit(Lit::Int(_)) {
            match reserved_length(e) {
                Some(n) => Ok(Some(if header {
                    StructSettingView::HeaderReserved(n as usize)
                } else {
                    StructSettingView::FooterReserved(n as usize)
                })),
                None => Err(()),
            }
        } else if expr_bytes(e).len() > 0 {
            Ok(Some(if header {
                StructSettingView::HeaderBytes(expr_bytes(e))
            } else {
                StructSettingView::FooterBytes(expr_bytes(e))
            }))
        } else {
            Err(())
        }
    } else {
        Ok(None)
    }
}

pub open spec fn opt_view(a: Option<PackStructAttribute>) -> Option<StructSettingView> {
    match a {
        Some(x) => Some(struct_attr_view(x)),
        None => None,
    }
}

fn struct_attribute(key: &str, e: &Expr) -> (r: Result<Option<PackStructAttribute>, ()>)
    ensures
        match struct_attribute_of(key@, *e) {
            Ok(v) => r matches Ok(a) && opt_view(a) == v,
            Err(()) => r is Err,
        },
{
    let text = get_string_from_expr(e);
    if str_eq(key, "bit_numbering") {
        match text {
            Some(t) => match BitNumbering::from_str(t.as_str()) {
                Some(b) => Ok(Some(PackStructAttribute::BitNumbering(b))),
                None => Err(()),
            },
            None => Err(()),
        }
    } else if str_eq(key, "endian") || str_eq(key, "default_int_endian") {
        match text {
            Some(t) => match IntegerEndianness::from_str(t.as_str()) {
                Some(x) => Ok(Some(PackStructAttribute::DefaultIntEndianness(x))),
                None => Err(()),
            },
            None => Err(()),
        }
    } else if str_eq(key, "size_bytes") {
        match text {
            Some(t) => match parse_num(t.as_str()) {
                Ok(n) => Ok(Some(PackStructAttribute::SizeBytes(n))),
                Err(_) => Err(()),
            },
            None => Err(()),
        }
    } else if str_eq(key, "header") || str_eq(key, "footer") {
        let header = str_eq(key, "header");
        let is_int = match e {
            Expr::Lit(Lit::Int(_)) => true,
            _ => false,
        };
        if is_int {
            if header {
                match Header::from_trait_expr(e) {
                    Some(h) => Ok(Some(PackStructAttribute::Header(h))),
                    None => Err(()),
                }
            } else {
                match Footer::from_trait_expr(e) {
                    Some(f) => Ok(Some(PackStructAttribute::Footer(f))),
                    None => Err(()),
                }
            }
        } else if header {
            match Header::from_expr(e) {
                Some(h) => Ok(Some(PackStructAttribute::Header(h))),
                None => Err(()),
            }
        } else {
            match Footer::from_expr(e) {
                Some(f) => Ok(Some(PackStructAttribute::Footer(f))),
                None => Err(()),
            }
        }
    } else {
        Ok(None)
    }
}

/// The settings a record's items give, in order, or the index of the first
/// item whose value cannot be read.
pub open spec fn struct_attributes_of(pairs: Seq<SubAttribute>) -> Result<Seq<StructSettingView>, int>
    decreases pairs.len(),
{
    if pairs.len() == 0 {
        Ok(seq![])
    } else {
        match struct_attributes_of(pairs.drop_last()) {
            Err(i) => Err(i),
            Ok(rest) => match struct_attribute_of(pairs.last().key@, pairs.last().value) {
                Err(()) => Err(pairs.len() - 1),
                Ok(None) => Ok(rest),
                Ok(Some(a)) => Ok(rest.push(a)),
            },
        }
    }
}

proof fn lemma_struct_err_stays(tp: Seq<SubAttribute>, i: int, m: int)
    requires
        0 <= i < m <= tp.len(),
        struct_attributes_of(tp.take(i + 1)) == Err::<Seq<StructSettingView>, int>(i),
    ensures
        struct_attributes_of(tp.take(m)) == Err::<Seq<StructSettingView>, int>(i),
    decreases m - i,
{
    if m > i + 1 {
        lemma_struct_err_stays(tp, i, m - 1);
        assert(tp.take(m).drop_last() =~= tp.take(m - 1));
    }
}

/// Reads the recognized keys of a record's items into settings, in order.
pub fn parse_struct_attributes(pairs: &Vec<SubAttribute>) -> (r: Result<Vec<PackStructAttribute>, ConfigError>)
    ensures
        match struct_attributes_of(pairs@) {
            Ok(s) => r matches Ok(v) && v@.map_values(|a: PackStructAttribute| struct_attr_view(a)) == s,
            Err(i) => r == Err::<Vec<PackStructAttribute>, ConfigError>(
                ConfigError { kind: ConfigErrorKind::InvalidAttribute, field: i as usize, overlap: None },
            ),
        },
{
    let ghost tp = pairs@;
    let mut out: Vec<PackStructAttribute> = Vec::new();
    let mut i: usize = 0;
    assert(tp.take(0) =~= seq![]);
    assert(out@.map_values(|a: PackStructAttribute| struct_attr_view(a)) =~= seq![]);
    while i < pairs.len()
        invariant
            tp == pairs@,
            i <= tp.len(),
            struct_attributes_of(tp.take(i as int)) == Ok::<Seq<StructSettingView>, int>(
                out@.map_values(|a: PackStructAttribute| struct_attr_view(a)),
            ),
        decreases pairs.len() - i,
    {
        assert(tp.take(i + 1).drop_last() =~= tp.take(i as int));
        assert(tp.take(i + 1).last() == tp[i as int]);
        match struct_attribute(pairs[i].key.as_str(), &pairs[i].value) {
            Err(()) => {
                proof {
                    lemma_struct_err_stays(tp, i as int, tp.len() as int);
                    assert(tp.take(tp.len() as int) =~= tp);
                }
                return Err(ConfigError { kind: ConfigErrorKind::InvalidAttribute, field: i, overlap: None });
            },
            Ok(None) => {},
            Ok(Some(a)) => {
                let ghost before = out@;
                out.push(a);
                assert(out@.map_values(|a: PackStructAttribute| struct_attr_view(a)) =~= before.map_values(
                    |a: PackStructAttribute| struct_attr_view(a),
                ).push(struct_attr_view(a)));
            },
        }
        i += 1;
    }
    assert(tp.take(i as int) =~= tp);
    Ok(out)
}

/// A field as written: its name, its type and its raw annotations.
#[derive(Clone, Debug)]
pub struct AnnotatedField {
    pub name: String,
    pub ty: FieldType,
    pub annotations: Vec<Annotation>,
}

/// A record as written: its raw annotations, its fields, and whether it has
/// generic parameters.
#[derive(Clone, Debug)]
pub struct AnnotatedStruct {
    pub annotations: Vec<Annotation>,
    pub fields: Vec<AnnotatedField>,
    pub has_generics: bool,
}

/// Key/value items with each value read as text (empty when it is not a string).
pub open spec fn as_text(p: Seq<(Seq<char>, Expr)>) -> Seq<(Seq<char>, Seq<char>)> {
    p.map_values(|x: (Seq<char>, Expr)| (x.0, match string_of(x.1) {
        Some(t) => t,
        None => Seq::<char>::empty(),
    }))
}

/// The typed settings of a field's annotations, when they can all be read.
pub open spec fn field_settings_from(a: Seq<Annotation>) -> Result<Seq<PackFieldAttribute>, int> {
    field_attributes_of(as_text(annotation_pairs(a, "packed_field"@)))
}

/// Whether no annotation carries the given tag.
pub open spec fn no_tag(a: Seq<Annotation>, tag: Seq<char>) -> bool {
    forall|i: int| 0 <= i < a.len() ==> (#[trigger] a[i]).tag@ != tag
}

/// `d` is what the written record describes: the same fields, names and types,
/// with the settings read from the annotations.
pub open spec fn describes(input: AnnotatedStruct, d: StructDesc) -> bool {
    &&& d.has_generics == input.has_generics
    &&& d.fields@.len() == input.fields@.len()
    &&& forall|i: int| 0 <= i < d.fields@.len() ==> {
        let f = #[trigger] d.fields@[i];
        let g = input.fields@[i];
        &&& f.name == g.name
        &&& f.ty == g.ty
        &&& no_tag(g.annotations@, "packed_struct"@)
        &&& field_settings_from(g.annotations@) == Ok::<Seq<PackFieldAttribute>, int>(f.attrs@)
    }
    &&& no_tag(input.annotations@, "packed_field"@)
    &&& exists|v: Seq<SubAttribute>| pairs_match(v, annotation_pairs(input.annotations@, "packed_struct"@))
        && struct_attributes_of(v) == Ok::<Seq<StructSettingView>, int>(d.attrs@.map_values(|a: PackStructAttribute| struct_attr_view(a)))
}

/// A tag of the other scope, or a value that cannot be read, on the record or
/// on one of its fields.
pub open spec fn unreadable(input: AnnotatedStruct) -> bool {
    ||| !no_tag(input.annotations@, "packed_field"@)
    ||| (exists|i: int| 0 <= i < input.fields@.len() && (!no_tag((#[trigger] input.fields@[i]).annotations@, "packed_struct"@)
        || field_settings_from(input.fields@[i].annotations@) is Err))
    ||| (exists|v: Seq<SubAttribute>| pairs_match(v, annotation_pairs(input.annotations@, "packed_struct"@))
        && struct_attributes_of(v) is Err)
}

/// Reads a written record into its descriptor: the record's and each field's
/// annotations become typed settings. A field-scope tag on the record, a
/// record-scope tag on a field, or a value that cannot be read is an error.
pub fn describe_struct(input: AnnotatedStruct) -> (r: Result<StructDesc, ConfigError>)
    ensures
        r matches Ok(d) ==> describes(input, d),
        r is Err ==> unreadable(input),
{
    let ghost inp = input;
    assert(inp == input);
    let sub = match parse_sub_attributes(&input.annotations, "packed_struct", "packed_field") {
        Ok(v) => v,
        Err(e) => return Err(e),
    };
    assert(no_tag(inp.annotations@, "packed_field"@));
    assert(pairs_match(sub@, annotation_pairs(inp.annotations@, "packed_struct"@)));
    let attrs = match parse_struct_attributes(&sub) {
        Ok(a) => a,
        Err(e) => {
            assert(struct_attributes_of(sub@) is Err);

            return Err(e);
        },
    };
    let has_generics = input.has_generics;
    let mut fields_in = input.fields;
    let n = fields_in.len();
    let mut rev: Vec<AnnotatedField> = Vec::new();
    while fields_in.len() > 0
        invariant
            n == inp.fields@.len(),
            fields_in@.len() + rev@.len() == n,
            forall|j: int| 0 <= j < fields_in@.len() ==> #[trigger] fields_in@[j] == inp.fields@[j],
            forall|j: int| 0 <= j < rev@.len() ==> #[trigger] rev@[j] == inp.fields@[n - 1 - j],
        decreases fields_in@.len(),
    {
        let g = fields_in.pop().unwrap();
        rev.push(g);
    }
    let mut out: Vec<FieldDesc> = Vec::new();
    let mut i: usize = 0;
    while i < n
        invariant
            inp == input,
            n == inp.fields@.len(),
            i <= n,
            rev@.len() == n - i,
            forall|j: int| 0 <= j < n - i ==> #[trigger] rev@[j] == inp.fields@[n - 1 - j],
            out@.len() == i,
            forall|j: int| 0 <= j < i ==> {
                let f = #[trigger] out@[j];
                let g = inp.fields@[j];
                &&& f.name == g.name
                &&& f.ty == g.ty
                &&& no_tag(g.annotations@, "packed_struct"@)
                &&& field_settings_from(g.annotations@) == Ok::<Seq<PackFieldAttribute>, int>(f.attrs@)
            },
        decreases n - i,
    {
        let g = rev.pop().unwrap();
        assert(g == inp.fields@[i as int]);
        let pairs = match parse_sub_attributes_as_string(&g.annotations, "packed_field", "packed_struct") {
            Ok(p) => p,
            Err(e) => {
                assert(!no_tag(inp.fields@[i as int].annotations@, "packed_struct"@));

                return Err(e);
            },
        };
        assert(text_pairs(pairs@) =~= as_text(annotation_pairs(g.annotations@, "packed_field"@)));
        let fattrs = match parse_field_attributes(&pairs) {
            Ok(a) => a,
            Err(e) => {
                assert(field_settings_from(inp.fields@[i as int].annotations@) is Err);

                return Err(e);
            },
        };
        out.push(FieldDesc { name: g.name, ty: g.ty, attrs: fattrs });
        i += 1;
    }
    let d = StructDesc { fields: out, attrs, has_generics };
    assert(describes(inp, d));
    Ok(d)
}

/// Resolves the layout of a written record: reads its annotations, then lays
/// it out.
pub fn parse_annotated(input: AnnotatedStruct) -> (r: Result<Layout, ConfigError>)
    ensures
        (exists|d: StructDesc| describes(input, d) && struct_result(d, r)) || (r is Err && unreadable(input)),
{
    let d = match describe_struct(input) {
        Ok(d) => d,
        Err(e) => return Err(e),
    };
    parse_struct(&d)
}

} // verus!
