//! Annotations as key/literal pairs, and the literals that headers and footers are written with.
use vstd::prelude::*;
use crate::field::{ConfigError, ConfigErrorKind};
use crate::layout::{copy_bytes, Footer, Header};
use crate::text::{parses_in_radix, radix_numeral, str_eq, usize_from_str_radix};

verus! {

/// A literal as written in an annotation. An integer keeps its decimal digits.
#[derive(Clone, Debug)]
pub enum Lit {
    Str(String),
    Byte(u8),
    ByteStr(Vec<u8>),
    Int(String),
    Other,
}

/// The value of a key in an annotation: a literal, an array of literals, or
/// anything else.
#[derive(Clone, Debug)]
pub enum Expr {
    Lit(Lit),
    Array(Vec<Lit>),
    Other,
}

/// One item inside an annotation: a bare path, a nested list, or `key = value`
/// (with no key when the path is not a single identifier).
#[derive(Clone, Debug)]
pub enum Meta {
    Path,
    List,
    NameValue(Option<String>, Expr),
}

/// An annotation: its tag and, when they could be read, its items.
#[derive(Clone, Debug)]
pub struct Annotation {
    pub tag: String,
    pub args: Option<Vec<Meta>>,
}

pub open spec fn same_lit(a: Lit, b: Lit) -> bool {
    match (a, b) {
        (Lit::Str(x), Lit::Str(y)) => x@ == y@,
        (Lit::Byte(x), Lit::Byte(y)) => x == y,
        (Lit::ByteStr(x), Lit::ByteStr(y)) => x@ == y@,
        (Lit::Int(x), Lit::Int(y)) => x@ == y@,
        (Lit::Other, Lit::Other) => true,
        _ => false,
    }
}

pub open spec fn same_expr(a: Expr, b: Expr) -> bool {
    match (a, b) {
        (Expr::Lit(x), Expr::Lit(y)) => same_lit(x, y),
        (Expr::Array(x), Expr::Array(y)) => x@.len() == y@.len() && forall|i: int|
            0 <= i < x@.len() ==> same_lit(#[trigger] x@[i], y@[i]),
        (Expr::Other, Expr::Other) => true,
        _ => false,
    }
}

impl Lit {
    /// A copy of the literal.
    pub fn duplicate(&self) -> (r: Lit)
        ensures
            same_lit(r, *self),
    {
        match self {
            Lit::Str(s) => Lit::Str(s.clone()),
            Lit::Byte(b) => Lit::Byte(*b),
            Lit::ByteStr(v) => Lit::ByteStr(copy_bytes(v)),
            Lit::Int(d) => Lit::Int(d.clone()),
            Lit::Other => Lit::Other,
        }
    }
}

impl Expr {
    /// A copy of the value.
    pub fn duplicate(&self) -> (r: Expr)
        ensures
            same_expr(r, *self),
    {
        match self {
            Expr::Lit(l) => Expr::Lit(l.duplicate()),
            Expr::Array(ls) => {
                let mut out: Vec<Lit> = Vec::new();
                let mut i: usize = 0;
                while i < ls.len()
                    invariant
                        i <= ls.len(),
                        out@.len() == i,
                        forall|j: int| 0 <= j < i ==> same_lit(#[trigger] out@[j], ls@[j]),
                    decreases ls.len() - i,
                {
                    out.push(ls[i].duplicate());
                    i += 1;
                }
                Expr::Array(out)
            },
            Expr::Other => Expr::Other,
        }
    }
}

/// The `key = value` items of a list, in order.
pub open spec fn meta_pairs(ms: Seq<Meta>) -> Seq<(Seq<char>, Expr)>
    decreases ms.len(),
{
    if ms.len() == 0 {
        seq![]
    } else {
        let rest = meta_pairs(ms.drop_last());
        match ms.last() {
            Meta::NameValue(Some(k), e) => rest.push((k@, e)),
            _ => rest,
        }
    }
}

/// The `key = value` items of the annotations tagged `main`, in order.
pub open spec fn annotation_pairs(a: Seq<Annotation>, main: Seq<char>) -> Seq<(Seq<char>, Expr)>
    decreases a.len(),
{
    if a.len() == 0 {
        seq![]
    } else {
        let rest = annotation_pairs(a.drop_last(), main);
        if a.last().tag@ == main && a.last().args is Some {
            rest + meta_pairs(a.last().args->Some_0@)
        } else {
            rest
        }
    }
}

/// A key/value pair read from an annotation.
#[derive(Clone, Debug)]
pub struct SubAttribute {
    pub key: String,
    pub value: Expr,
}

/// The pairs read agree with the given ones, in order.
pub open spec fn pairs_match(v: Seq<SubAttribute>, p: Seq<(Seq<char>, Expr)>) -> bool {
    v.len() == p.len() && forall|i: int| 0 <= i < p.len() ==> (#[trigger] v[i]).key@ == p[i].0 && same_expr(v[i].value, p[i].1)
}

/// Collects the `key = value` items of every annotation tagged `main`, in order.
/// An annotation tagged `wrong` (the tag of the other scope) is an error that
/// names the first such annotation.
pub fn parse_sub_attributes(attributes: &Vec<Annotation>, main_attribute: &str, wrong_attribute: &str) -> (r: Result<Vec<SubAttribute>, ConfigError>)
    ensures
        (exists|i: int| 0 <= i < attributes@.len() && (#[trigger] attributes@[i]).tag@ == wrong_attribute@) ==> (r matches Err(e) && e.kind == ConfigErrorKind::WrongAttribute
            && attributes@[e.field as int].tag@ == wrong_attribute@ && e.overlap is None
            && forall|j: int| 0 <= j < e.field ==> (#[trigger] attributes@[j]).tag@ != wrong_attribute@),
        (forall|i: int| 0 <= i < attributes@.len() ==> (#[trigger] attributes@[i]).tag@ != wrong_attribute@) ==> (r matches Ok(v)
            && pairs_match(v@, annotation_pairs(attributes@, main_attribute@))),
{
    let ghost a = attributes@;
    let mut out: Vec<SubAttribute> = Vec::new();
    let mut i: usize = 0;
    assert(a.take(0) =~= seq![]);
    while i < attributes.len()
        invariant
            a == attributes@,
            i <= a.len(),
            forall|j: int| 0 <= j < i ==> (#[trigger] a[j]).tag@ != wrong_attribute@,
            pairs_match(out@, annotation_pairs(a.take(i as int), main_attribute@)),
        decreases a.len() - i,
    {
        let at = &attributes[i];
        if str_eq(at.tag.as_str(), wrong_attribute) {
            return Err(ConfigError { kind: ConfigErrorKind::WrongAttribute, field: i, overlap: None });
        }
        assert(a.take(i + 1).drop_last() =~= a.take(i as int));
        if str_eq(at.tag.as_str(), main_attribute) {
            match &at.args {
                None => {},
                Some(ms) => {
                    let ghost base = out@;
                    let ghost before = annotation_pairs(a.take(i as int), main_attribute@);
                    let mut k: usize = 0;
                    assert(ms@.take(0) =~= seq![]);
                    while k < ms.len()
                        invariant
                            k <= ms@.len(),
                            pairs_match(out@, before + meta_pairs(ms@.take(k as int))),
                        decreases ms.len() - k,
                    {
                        assert(ms@.take(k + 1).drop_last() =~= ms@.take(k as int));
                        match &ms[k] {
                            Meta::NameValue(Some(key), e) => {
                                out.push(SubAttribute { key: key.clone(), value: e.duplicate() });
                                assert(before + meta_pairs(ms@.take(k + 1)) =~= (before + meta_pairs(ms@.take(k as int))).push((key@, *e)));
                            },
                            _ => {},
                        }
                        k += 1;
                    }
                    assert(ms@.take(k as int) =~= ms@);
                },
            }
        }
        i += 1;
    }
    assert(a.take(i as int) =~= a);
    Ok(out)
}

/// The text of a string literal, if the value is one.
pub open spec fn string_of(e: Expr) -> Option<Seq<char>> {
    match e {
        Expr::Lit(Lit::Str(s)) => Some(s@),
        _ => None,
    }
}

/// The text of a value that is a string literal.
pub fn get_string_from_expr(expr: &Expr) -> (r: Option<String>)
    ensures
        r is Some <==> string_of(*expr) is Some,
        r matches Some(s) ==> s@ == string_of(*expr).unwrap(),
{
    match expr {
        Expr::Lit(Lit::Str(s)) => Some(s.clone()),
        _ => None,
    }
}

/// Collects the `key = value` items as text: a value that is not a string
/// literal reads as the empty string.
pub fn parse_sub_attributes_as_string(attributes: &Vec<Annotation>, main_attribute: &str, wrong_attribute: &str) -> (r: Result<Vec<(String, String)>, ConfigError>)
    ensures
        (exists|i: int| 0 <= i < attributes@.len() && (#[trigger] attributes@[i]).tag@ == wrong_attribute@) ==> r is Err,
        (forall|i: int| 0 <= i < attributes@.len() ==> (#[trigger] attributes@[i]).tag@ != wrong_attribute@) ==> (r matches Ok(v)
            && v@.len() == annotation_pairs(attributes@, main_attribute@).len()
            && forall|k: int| 0 <= k < v@.len() ==> (#[trigger] v@[k]).0@ == annotation_pairs(attributes@, main_attribute@)[k].0
                && v@[k].1@ == match string_of(annotation_pairs(attributes@, main_attribute@)[k].1) {
                    Some(s) => s,
                    None => Seq::<char>::empty(),
                }),
{
    let pairs = match parse_sub_attributes(attributes, main_attribute, wrong_attribute) {
        Ok(p) => p,
        Err(e) => return Err(e),
    };
    let ghost ap = annotation_pairs(attributes@, main_attribute@);
    let mut out: Vec<(String, String)> = Vec::new();
    let mut i: usize = 0;
    while i < pairs.len()
        invariant
            i <= pairs@.len(),
            pairs_match(pairs@, ap),
            out@.len() == i,
            forall|k: int| 0 <= k < i ==> (#[trigger] out@[k]).0@ == ap[k].0 && out@[k].1@ == match string_of(ap[k].1) {
                Some(s) => s,
                None => Seq::<char>::empty(),
            },
        decreases pairs@.len() - i,
    {
        let p = &pairs[i];
        assert(p.key@ == ap[i as int].0 && same_expr(p.value, ap[i as int].1));
        let text = match get_string_from_expr(&p.value) {
            Some(s) => s,
            None => String::new(),
        };
        out.push((p.key.clone(), text));
        i += 1;
    }
    Ok(out)
}

/// The bytes a literal contributes to a header or footer: a byte, a byte
/// string, or an integer that fits in a byte.
pub open spec fn lit_bytes(l: Lit) -> Seq<u8> {
    match l {
        Lit::Byte(b) => seq![b],
        Lit::ByteStr(v) => v@,
        Lit::Int(d) => if parses_in_radix(d@, 10) && radix_numeral(d@, 10).unwrap() <= 255 {
            seq![radix_numeral(d@, 10).unwrap() as u8]
        } else {
            seq![]
        },
        _ => seq![],
    }
}

/// The bytes of a list of literals, in order.
pub open spec fn lits_bytes(ls: Seq<Lit>) -> Seq<u8>
    decreases ls.len(),
{
    if ls.len() == 0 {
        seq![]
    } else {
        lits_bytes(ls.drop_last()) + lit_bytes(ls.last())
    }
}

/// The bytes a value spells: those of a literal, or of each literal of an array.
pub open spec fn expr_bytes(e: Expr) -> Seq<u8> {
    match e {
        Expr::Lit(l) => lit_bytes(l),
        Expr::Array(ls) => lits_bytes(ls@),
        Expr::Other => seq![],
    }
}

/// Appends the bytes a literal spells.
pub fn get_bytes_from_expr_lit(bytes: &mut Vec<u8>, lit: &Lit)
    ensures
        final(bytes)@ == old(bytes)@ + lit_bytes(*lit),
{
    match lit {
        Lit::Byte(b) => {
            bytes.push(*b);
        },
        Lit::ByteStr(v) => {
            let mut i: usize = 0;
            let ghost start = bytes@;
            while i < v.len()
                invariant
                    i <= v@.len(),
                    bytes@ == start + v@.take(i as int),
                decreases v.len() - i,
            {
                bytes.push(v[i]);
                i += 1;
                assert(bytes@ =~= start + v@.take(i as int));
            }
            assert(v@.take(i as int) =~= v@);
        },
        Lit::Int(d) => {
            match usize_from_str_radix(d.as_str(), 10) {
                Some(val) => {
                    if val <= 255 {
                        bytes.push(val as u8);
                    }
                },
                None => {},
            }
        },
        _ => {},
    }
    assert(bytes@ =~= old(bytes)@ + lit_bytes(*lit));
}

/// Appends the bytes a value spells.
pub fn get_bytes_from_expr(bytes: &mut Vec<u8>, expr: &Expr)
    ensures
        final(bytes)@ == old(bytes)@ + expr_bytes(*expr),
{
    match expr {
        Expr::Lit(l) => get_bytes_from_expr_lit(bytes, l),
        Expr::Array(ls) => {
            let ghost start = bytes@;
            let mut i: usize = 0;
            while i < ls.len()
                invariant
                    i <= ls@.len(),
                    bytes@ == start + lits_bytes(ls@.take(i as int)),
                decreases ls.len() - i,
            {
                assert(ls@.take(i + 1).drop_last() =~= ls@.take(i as int));
                get_bytes_from_expr_lit(bytes, &ls[i]);
                i += 1;
                assert(bytes@ =~= start + lits_bytes(ls@.take(i as int)));
            }
            assert(ls@.take(i as int) =~= ls@);
        },
        Expr::Other => {},
    }
    assert(bytes@ =~= old(bytes)@ + expr_bytes(*expr));
}

/// The length a value reserves: a positive integer literal that fits in `usize`.
pub open spec fn reserved_length(e: Expr) -> Option<int> {
    match e {
        Expr::Lit(Lit::Int(d)) => if parses_in_radix(d@, 10) && radix_numeral(d@, 10).unwrap() > 0 {
            Some(radix_numeral(d@, 10).unwrap())
        } else {
            None
        },
        _ => None,
    }
}

fn read_reserved_length(expr: &Expr) -> (r: Option<usize>)
    ensures
        r is Some <==> reserved_length(*expr) is Some,
        r matches Some(n) ==> n == reserved_length(*expr).unwrap(),
{
    match expr {
        Expr::Lit(Lit::Int(d)) => match usize_from_str_radix(d.as_str(), 10) {
            Some(v) => if v > 0 { Some(v) } else { None },
            None => None,
        },
        _ => None,
    }
}

impl Header {
    /// A header of fixed bytes, when the value spells at least one.
    pub fn from_expr(expr: &Expr) -> (r: Option<Header>)
        ensures
            r is Some <==> expr_bytes(*expr).len() > 0,
            r matches Some(h) ==> h matches Header::Bytes(b) && b@ == expr_bytes(*expr),
    {
        let mut bytes: Vec<u8> = Vec::new();
        get_bytes_from_expr(&mut bytes, expr);
        assert(bytes@ =~= expr_bytes(*expr));
        if bytes.len() > 0 {
            Some(Header::Bytes(bytes))
        } else {
            None
        }
    }

    /// A header of reserved length, when the value is a positive integer.
    pub fn from_trait_expr(expr: &Expr) -> (r: Option<Header>)
        ensures
            r is Some <==> reserved_length(*expr) is Some,
            r matches Some(h) ==> h matches Header::Trait(n) && n == reserved_length(*expr).unwrap(),
    {
        match read_reserved_length(expr) {
            Some(n) => Some(Header::Trait(n)),
            None => None,
        }
    }
}

impl Footer {
    /// A footer of fixed bytes, when the value spells at least one.
    pub fn from_expr(expr: &Expr) -> (r: Option<Footer>)
        ensures
            r is Some <==> expr_bytes(*expr).len() > 0,
            r matches Some(f) ==> f matches Footer::Bytes(b) && b@ == expr_bytes(*expr),
    {
        let mut bytes: Vec<u8> = Vec::new();
        get_bytes_from_expr(&mut bytes, expr);
        assert(bytes@ =~= expr_bytes(*expr));
        if bytes.len() > 0 {
            Some(Footer::Bytes(bytes))
        } else {
            None
        }
    }

    /// A footer of reserved length, when the value is a positive integer.
    pub fn from_trait_expr(expr: &Expr) -> (r: Option<Footer>)
        ensures
            r is Some <==> reserved_length(*expr) is Some,
            r matches Some(f) ==> f matches Footer::Trait(n) && n == reserved_length(*expr).unwrap(),
    {
        match read_reserved_length(expr) {
            Some(n) => Some(Footer::Trait(n)),
            None => None,
        }
    }
}

} // verus!
