//! Whole-record layout: threading placements through the fields, the record's
//! size with its header and footer, and the check that no two leaves share a bit.
use vstd::prelude::*;
use crate::attrs::{BitNumbering, BitRange, BitsPositionParsed, IntegerEndianness, placed_range, placement_fits};
use crate::field::{
    apply_numbering, cfg_err, field_outcome, field_settings, first_some, get_field_mid_positioning,
    kind_leaves, kind_matches, mid_positioning, numbered_position, parse_field, settings_of, ConfigError,
    ConfigErrorKind, FieldDesc, FieldKind, FieldMidPositioning, FieldSettings, LeafId, LeafPair,
    SerializationWrapper,
};


verus! {

/// Bytes that precede the record's fields: fixed content, or a reserved length.
#[derive(Clone, Debug)]
pub enum Header {
    Bytes(Vec<u8>),
    Trait(usize),
}

/// Bytes that follow the record's fields: fixed content, or a reserved length.
#[derive(Clone, Debug)]
pub enum Footer {
    Bytes(Vec<u8>),
    Trait(usize),
}

pub open spec fn header_len(h: Header) -> int {
    match h {
        Header::Bytes(b) => b@.len() as int,
        Header::Trait(n) => n as int,
    }
}

pub open spec fn footer_len(f: Footer) -> int {
    match f {
        Footer::Bytes(b) => b@.len() as int,
        Footer::Trait(n) => n as int,
    }
}

pub(crate) fn copy_bytes(v: &Vec<u8>) -> (r: Vec<u8>)
    ensures
        r@ == v@,
{
    let mut r: Vec<u8> = Vec::new();
    let mut i: usize = 0;
    while i < v.len()
        invariant
            i <= v.len(),
            r@ == v@.take(i as int),
        decreases v.len() - i,
    {
        r.push(v[i]);
        i += 1;
        assert(r@ =~= v@.take(i as int));
    }
    assert(v@.take(i as int) =~= v@);
    r
}

impl Header {
    /// The number of bytes the header takes.
    pub fn byte_len(&self) -> (r: usize)
        ensures
            r == header_len(*self),
    {
        match self {
            Header::Bytes(b) => b.len(),
            Header::Trait(n) => *n,
        }
    }

    /// A copy of the header.
    pub fn duplicate(&self) -> (r: Header)
        ensures
            header_len(r) == header_len(*self),
            r is Bytes <==> self is Bytes,
            r is Bytes ==> r->Bytes_0@ == self->Bytes_0@,
    {
        match self {
            Header::Bytes(b) => Header::Bytes(copy_bytes(b)),
            Header::Trait(n) => Header::Trait(*n),
        }
    }
}

impl Footer {
    /// The number of bytes the footer takes.
    pub fn byte_len(&self) -> (r: usize)
        ensures
            r == footer_len(*self),
    {
        match self {
            Footer::Bytes(b) => b.len(),
            Footer::Trait(n) => *n,
        }
    }

    /// A copy of the footer.
    pub fn duplicate(&self) -> (r: Footer)
        ensures
            footer_len(r) == footer_len(*self),
            r is Bytes <==> self is Bytes,
            r is Bytes ==> r->Bytes_0@ == self->Bytes_0@,
    {
        match self {
            Footer::Bytes(b) => Footer::Bytes(copy_bytes(b)),
            Footer::Trait(n) => Footer::Trait(*n),
        }
    }
}

/// One setting attached to a record.
#[derive(Clone, Debug)]
pub enum PackStructAttribute {
    BitNumbering(BitNumbering),
    DefaultIntEndianness(IntegerEndianness),
    SizeBytes(usize),
    Header(Header),
    Footer(Footer),
}

/// A record as declared: its fields in order, its settings in declaration order,
/// and whether it has generic parameters.
#[derive(Clone, Debug)]
pub struct StructDesc {
    pub fields: Vec<FieldDesc>,
    pub attrs: Vec<PackStructAttribute>,
    pub has_generics: bool,
}

pub open spec fn numbering_of(a: PackStructAttribute) -> Option<BitNumbering> {
    match a {
        PackStructAttribute::BitNumbering(b) => Some(b),
        _ => None,
    }
}

pub open spec fn default_endianness_of(a: PackStructAttribute) -> Option<IntegerEndianness> {
    match a {
        PackStructAttribute::DefaultIntEndianness(e) => Some(e),
        _ => None,
    }
}

pub open spec fn size_bytes_of(a: PackStructAttribute) -> Option<usize> {
    match a {
        PackStructAttribute::SizeBytes(n) => Some(n),
        _ => None,
    }
}

/// Bytes that one setting reserves around the fields.
pub open spec fn reserved_of(a: PackStructAttribute) -> int {
    match a {
        PackStructAttribute::Header(h) => header_len(h),
        PackStructAttribute::Footer(f) => footer_len(f),
        _ => 0,
    }
}

/// Bytes that every header and footer setting reserves, together.
pub open spec fn reserved_bytes(attrs: Seq<PackStructAttribute>) -> int
    decreases attrs.len(),
{
    if attrs.len() == 0 {
        0
    } else {
        reserved_bytes(attrs.drop_last()) + reserved_of(attrs.last())
    }
}

/// The record-wide settings, each taken from its first occurrence.
#[derive(Clone, Copy, Debug, PartialEq, Eq, Structural)]
pub struct StructSettings {
    pub numbering: Option<BitNumbering>,
    pub default_endianness: Option<IntegerEndianness>,
    pub size_bytes: Option<usize>,
}

pub open spec fn struct_settings_of(attrs: Seq<PackStructAttribute>) -> StructSettings {
    StructSettings {
        numbering: first_some(attrs, |a| numbering_of(a)),
        default_endianness: first_some(attrs, |a| default_endianness_of(a)),
        size_bytes: first_some(attrs, |a| size_bytes_of(a)),
    }
}

/// Reads the record-wide settings.
pub fn struct_settings(attrs: &Vec<PackStructAttribute>) -> (r: StructSettings)
    ensures
        r == struct_settings_of(attrs@),
{
    let mut r = StructSettings { numbering: None, default_endianness: None, size_bytes: None };
    let ghost s = attrs@;
    let mut i: usize = attrs.len();
    assert(s.skip(s.len() as int).len() == 0);
    while i > 0
        invariant
            s == attrs@,
            i <= s.len(),
            r == struct_settings_of(s.skip(i as int)),
        decreases i,
    {
        i -= 1;
        let ghost tail = s.skip(i as int);
        assert(tail.skip(1) =~= s.skip(i + 1));
        assert(tail[0] == s[i as int]);
        match &attrs[i] {
            PackStructAttribute::BitNumbering(b) => { r.numbering = Some(*b); },
            PackStructAttribute::DefaultIntEndianness(e) => { r.default_endianness = Some(*e); },
            PackStructAttribute::SizeBytes(n) => { r.size_bytes = Some(*n); },
            _ => {},
        }
    }
    assert(s.skip(0) =~= s);
    r
}

/// What one field resolves to: the range it occupies, how it asked to be placed,
/// whether it is an array, its leaf ranges and their wrapper chain.
pub struct FieldPlan {
    pub range: BitRange,
    pub requested: BitsPositionParsed,
    pub is_array: bool,
    pub leaves: Seq<BitRange>,
    pub wrappers: Seq<SerializationWrapper>,
}

/// Resolves field number `index` after a field that occupies `prev`.
pub open spec fn field_plan(f: FieldDesc, ss: StructSettings, prev: Option<BitRange>, index: usize) -> Result<FieldPlan, ConfigError> {
    match mid_positioning(f.ty, f.attrs@) {
        Err(k) => cfg_err(k, index),
        Ok((w, p)) => match numbered_position(ss.numbering, ss.size_bytes, p) {
            Err(k) => cfg_err(k, index),
            Ok(q) => if !placement_fits(q, w, prev) {
                cfg_err(ConfigErrorKind::TooLarge, index)
            } else {
                let range = BitRange { start: placed_range(q, w, prev).0 as usize, end: placed_range(q, w, prev).1 as usize };
                if range.end - range.start + 1 != w {
                    cfg_err(ConfigErrorKind::WidthMismatch, index)
                } else {
                match field_outcome(f.ty, settings_of(f.attrs@), w, range, ss.default_endianness) {
                    Err(k) => cfg_err(k, index),
                    Ok((ls, ws)) => Ok(FieldPlan { range, requested: p, is_array: f.ty is Array, leaves: ls, wrappers: ws }),
                }
                }
            },
        },
    }
}

/// Resolves the first `k` fields in order, each placed after the one before.
pub open spec fn plan_prefix(fields: Seq<FieldDesc>, ss: StructSettings, k: int) -> Result<Seq<FieldPlan>, ConfigError>
    decreases k,
{
    if k <= 0 {
        Ok(seq![])
    } else {
        match plan_prefix(fields, ss, k - 1) {
            Err(e) => Err(e),
            Ok(ps) => {
                let prev = if k - 1 == 0 { None } else { Some(ps.last().range) };
                match field_plan(fields[k - 1], ss, prev, (k - 1) as usize) {
                    Err(e) => Err(e),
                    Ok(p) => Ok(ps.push(p)),
                }
            },
        }
    }
}

/// A leaf together with the range it occupies.
#[derive(Clone, Copy, Debug, PartialEq, Eq, Structural)]
pub struct Leaf {
    pub id: LeafId,
    pub range: BitRange,
}

/// The leaves of field number `i`, named by field and element.
pub open spec fn plan_leaves(i: int, p: FieldPlan) -> Seq<Leaf> {
    p.leaves.map(|j: int, r: BitRange| Leaf {
        id: LeafId { field: i as usize, element: if p.is_array { Some(j as usize) } else { None } },
        range: r,
    })
}

/// All leaves of the resolved fields, in order.
pub open spec fn all_leaves(ps: Seq<FieldPlan>) -> Seq<Leaf>
    decreases ps.len(),
{
    if ps.len() == 0 {
        seq![]
    } else {
        all_leaves(ps.drop_last()) + plan_leaves(ps.len() - 1, ps.last())
    }
}

/// One more than the highest bit that any leaf occupies (0 when there is none).
pub open spec fn leaves_extent(ls: Seq<Leaf>) -> int
    decreases ls.len(),
{
    if ls.len() == 0 {
        0
    } else {
        let m = leaves_extent(ls.drop_last());
        let e = ls.last().range.end + 1;
        if e > m { e } else { m }
    }
}

/// Whether two ranges share a bit.
pub open spec fn meets(a: BitRange, b: BitRange) -> bool {
    a.start <= b.end && b.start <= a.end
}

/// The lowest bit two meeting ranges share.
pub open spec fn shared_start(a: BitRange, b: BitRange) -> int {
    if a.start >= b.start { a.start as int } else { b.start as int }
}

/// The first `k` leaves all lie below bit `slots` and no two of them meet.
pub open spec fn clear_upto(ls: Seq<Leaf>, k: int, slots: int) -> bool {
    &&& forall|i: int| 0 <= i < k ==> (#[trigger] ls[i]).range.end < slots
    &&& forall|i: int, j: int| 0 <= i < j < k ==> !meets(#[trigger] ls[i].range, #[trigger] ls[j].range)
}

/// What the overlap check reports when leaf `k` is the first that fails: the
/// earlier leaf that owns the lowest of its bits already taken, or, if none is
/// taken, that it reaches past the last slot.
pub open spec fn overlap_error(ls: Seq<Leaf>, k: int, slots: int, e: ConfigError) -> bool {
    &&& 0 <= k < ls.len()
    &&& clear_upto(ls, k, slots)
    &&& e.field == ls[k].id.field
    &&& if exists|j: int| 0 <= j < k && meets(#[trigger] ls[j].range, ls[k].range) {
        &&& e.kind == ConfigErrorKind::Overlap
        &&& exists|j: int| #![trigger ls[j]] 0 <= j < k && meets(ls[j].range, ls[k].range)
            && e.overlap == Some(LeafPair { first: ls[j].id, second: ls[k].id })
            && forall|i: int| 0 <= i < k && meets(#[trigger] ls[i].range, ls[k].range)
                ==> shared_start(ls[j].range, ls[k].range) <= shared_start(ls[i].range, ls[k].range)
    } else {
        &&& ls[k].range.end >= slots
        &&& e.kind == ConfigErrorKind::FieldOutOfBounds
        &&& e.overlap is None
    }
}

/// Checks that every leaf lies below bit `slots` and that no two leaves share a bit.
pub fn check_overlaps(leaves: &Vec<Leaf>, slots: usize) -> (r: Result<(), ConfigError>)
    ensures
        r is Ok <==> clear_upto(leaves@, leaves@.len() as int, slots as int),
        r matches Err(e) ==> exists|k: int| overlap_error(leaves@, k, slots as int, e),
{
    let ghost ls = leaves@;
    let mut k: usize = 0;
    while k < leaves.len()
        invariant
            ls == leaves@,
            k <= ls.len(),
            clear_upto(ls, k as int, slots as int),
        decreases leaves.len() - k,
    {
        let rk = leaves[k].range;
        let mut best: Option<usize> = None;
        let mut j: usize = 0;
        while j < k
            invariant
                ls == leaves@,
                k < ls.len(),
                j <= k,
                rk == ls[k as int].range,
                clear_upto(ls, k as int, slots as int),
                best is None <==> forall|i: int| 0 <= i < j ==> !meets(#[trigger] ls[i].range, rk),
                best matches Some(b) ==> b < j && meets(ls[b as int].range, rk) && forall|i: int|
                    0 <= i < j && meets(#[trigger] ls[i].range, rk) ==> shared_start(ls[b as int].range, rk)
                    <= shared_start(ls[i].range, rk),
            decreases k - j,
        {
            let rj = leaves[j].range;
            if rj.start <= rk.end && rk.start <= rj.end {
                match best {
                    None => { best = Some(j); },
                    Some(b) => {
                        let rb = leaves[b].range;
                        let sb = if rb.start >= rk.start { rb.start } else { rk.start };
                        let sj = if rj.start >= rk.start { rj.start } else { rk.start };
                        if sj < sb {
                            best = Some(j);
                        }
                    },
                }
            }
            j += 1;
        }
        match best {
            Some(b) => {
                let e = ConfigError {
                    kind: ConfigErrorKind::Overlap,
                    field: leaves[k].id.field,
                    overlap: Some(LeafPair { first: leaves[b].id, second: leaves[k].id }),
                };
                assert(overlap_error(ls, k as int, slots as int, e)) by {
                    assert(0 <= b < k && meets(ls[b as int].range, ls[k as int].range));
                }
                return Err(e);
            },
            None => {
                if rk.end >= slots {
                    let e = ConfigError { kind: ConfigErrorKind::FieldOutOfBounds, field: leaves[k].id.field, overlap: None };
                    assert(overlap_error(ls, k as int, slots as int, e));
                    return Err(e);
                }
            },
        }
        k += 1;
    }
    Ok(())
}

/// Where a field of width `w` lands after `prev`, if that stays within `usize`.
pub fn place(p: BitsPositionParsed, w: usize, prev: Option<BitRange>) -> (r: Option<BitRange>)
    requires
        w >= 1,
    ensures
        r is Some <==> placement_fits(p, w as int, prev),
        r matches Some(b) ==> (b.start as int, b.end as int) == placed_range(p, w as int, prev),
{
    let fits = match p {
        BitsPositionParsed::Next => match prev {
            Some(pr) => pr.end.checked_add(w).is_some(),
            None => true,
        },
        BitsPositionParsed::Start(s) => s.checked_add(w - 1).is_some(),
        BitsPositionParsed::Range(a, b) => true,
    };
    if fits {
        Some(p.to_bits_position(w, prev))
    } else {
        None
    }
}

/// The resolved layout of a record.
#[derive(Clone, Debug)]
pub struct Layout {
    pub fields: Vec<FieldKind>,
    pub num_bits: usize,
    pub num_bytes: usize,
    pub header: Option<Header>,
    pub footer: Option<Footer>,
}

/// The last header setting, if any.
pub open spec fn last_header(attrs: Seq<PackStructAttribute>) -> Option<Header>
    decreases attrs.len(),
{
    if attrs.len() == 0 {
        None
    } else if attrs.last() is Header {
        Some(attrs.last()->Header_0)
    } else {
        last_header(attrs.drop_last())
    }
}

/// The last footer setting, if any.
pub open spec fn last_footer(attrs: Seq<PackStructAttribute>) -> Option<Footer>
    decreases attrs.len(),
{
    if attrs.len() == 0 {
        None
    } else if attrs.last() is Footer {
        Some(attrs.last()->Footer_0)
    } else {
        last_footer(attrs.drop_last())
    }
}

/// The number of whole bytes that hold `bits` bits.
pub open spec fn bytes_for(bits: int) -> int {
    (bits + 7) / 8
}

/// The bits the fields span: the declared size, else up to the highest leaf bit.
pub open spec fn data_bits(ss: StructSettings, ps: Seq<FieldPlan>) -> Result<int, ConfigErrorKind> {
    match ss.size_bytes {
        Some(sb) => if sb * 8 > usize::MAX {
            Err(ConfigErrorKind::TooLarge)
        } else {
            Ok(sb * 8)
        },
        None => if ps.len() == 0 {
            Err(ConfigErrorKind::NoFields)
        } else {
            Ok(leaves_extent(all_leaves(ps)))
        },
    }
}

/// The resolved fields and the record's total bit count, or the first error,
/// before the overlap check.
pub open spec fn layout_plan(s: StructDesc) -> Result<(Seq<FieldPlan>, int), ConfigError> {
    let ss = struct_settings_of(s.attrs@);
    if s.has_generics {
        cfg_err(ConfigErrorKind::GenericStruct, 0)
    } else {
        match plan_prefix(s.fields@, ss, s.fields@.len() as int) {
            Err(e) => Err(e),
            Ok(ps) => match data_bits(ss, ps) {
                Err(k) => cfg_err(k, 0),
                Ok(d) => {
                    let total = d + 8 * reserved_bytes(s.attrs@);
                    if total > usize::MAX || bytes_for(total) * 8 > usize::MAX {
                        cfg_err(ConfigErrorKind::TooLarge, 0)
                    } else if ps.len() > 0 && ps[0].requested is Next && total % 8 != 0 && ss.size_bytes is None {
                        cfg_err(ConfigErrorKind::AmbiguousAlignment, 0)
                    } else {
                        Ok((ps, total))
                    }
                },
            },
        }
    }
}

pub open spec fn opt_header_len(h: Option<Header>) -> Option<int> {
    match h {
        Some(x) => Some(header_len(x)),
        None => None,
    }
}

pub open spec fn opt_footer_len(f: Option<Footer>) -> Option<int> {
    match f {
        Some(x) => Some(footer_len(x)),
        None => None,
    }
}

/// The resolved fields of a layout agree with the plans, field by field.
pub open spec fn fields_match(fields: Seq<FieldKind>, descs: Seq<FieldDesc>, ps: Seq<FieldPlan>) -> bool {
    &&& fields.len() == ps.len()
    &&& forall|i: int| 0 <= i < ps.len() ==> kind_matches(#[trigger] fields[i], descs[i].name@, ps[i].leaves, ps[i].wrappers)
        && (fields[i] is Array <==> ps[i].is_array)
}

proof fn lemma_all_leaves_push(ps: Seq<FieldPlan>, p: FieldPlan)
    ensures
        all_leaves(ps.push(p)) == all_leaves(ps) + plan_leaves(ps.len() as int, p),
{
    assert(ps.push(p).drop_last() =~= ps);
}

proof fn lemma_extent_push(ls: Seq<Leaf>, l: Leaf)
    ensures
        leaves_extent(ls.push(l)) == if l.range.end + 1 > leaves_extent(ls) { l.range.end + 1 } else { leaves_extent(ls) },
{
    assert(ls.push(l).drop_last() =~= ls);
}

proof fn lemma_reserved_push(s: Seq<PackStructAttribute>, i: int)
    requires
        0 <= i < s.len(),
    ensures
        reserved_bytes(s.take(i + 1)) == reserved_bytes(s.take(i)) + reserved_of(s[i]),
        last_header(s.take(i + 1)) == if s[i] is Header { Some(s[i]->Header_0) } else { last_header(s.take(i)) },
        last_footer(s.take(i + 1)) == if s[i] is Footer { Some(s[i]->Footer_0) } else { last_footer(s.take(i)) },
{
    assert(s.take(i + 1).drop_last() =~= s.take(i));
}

proof fn lemma_reserved_grows(s: Seq<PackStructAttribute>, t: int, m: int)
    requires
        0 <= t <= m <= s.len(),
    ensures
        reserved_bytes(s.take(t)) <= reserved_bytes(s.take(m)),
    decreases m - t,
{
    if m > t {
        lemma_reserved_grows(s, t, m - 1);
        lemma_reserved_push(s, m - 1);
    }
}

proof fn lemma_prefix_err(fs: Seq<FieldDesc>, ss: StructSettings, i: int, m: int, e: ConfigError)
    requires
        0 <= i < m,
        plan_prefix(fs, ss, i + 1) == Err::<Seq<FieldPlan>, ConfigError>(e),
    ensures
        plan_prefix(fs, ss, m) == Err::<Seq<FieldPlan>, ConfigError>(e),
    decreases m - i,
{
    if m > i + 1 {
        lemma_prefix_err(fs, ss, i, m - 1, e);
    }
}

/// Resolves one field after a field that occupies `prev`: its width and
/// requested placement, its range, its settings and the resolved field.
fn resolve_one(f: &FieldDesc, ss: StructSettings, prev: Option<BitRange>, i: usize) -> (r: Result<
    (FieldMidPositioning, BitRange, FieldSettings, FieldKind),
    ConfigError,
>)
    ensures
        match field_plan(*f, ss, prev, i) {
            Err(e) => r == Err::<(FieldMidPositioning, BitRange, FieldSettings, FieldKind), ConfigError>(e),
            Ok(p) => r matches Ok((mp, range, st, k)) && p.range == range && p.requested == mp.bits_position
                && kind_matches(k, f.name@, p.leaves, p.wrappers) && (k is Array <==> p.is_array)
                && range.start <= range.end,
        },
{
    let mp = match get_field_mid_positioning(f, i) {
        Ok(m) => m,
        Err(e) => return Err(e),
    };
    let ghost mr = mid_positioning(f.ty, f.attrs@);
    assert(mr is Ok);
    assert(mr->Ok_0.0 == mp.bit_width as int);
    assert(mr->Ok_0.1 == mp.bits_position);
    let q = match apply_numbering(ss.numbering, ss.size_bytes, mp.bits_position, i) {
        Ok(q) => q,
        Err(e) => return Err(e),
    };
    assert(numbered_position(ss.numbering, ss.size_bytes, mp.bits_position) == Ok::<BitsPositionParsed, ConfigErrorKind>(q));
    let range = match place(q, mp.bit_width, prev) {
        Some(r) => r,
        None => return Err(ConfigError { kind: ConfigErrorKind::TooLarge, field: i, overlap: None }),
    };
    if range.start > range.end || range.end - range.start != mp.bit_width - 1 {
        return Err(ConfigError { kind: ConfigErrorKind::WidthMismatch, field: i, overlap: None });
    }
    let st = field_settings(&f.attrs);
    let placed = FieldMidPositioning { bit_width: mp.bit_width, bits_position: q };
    let k = match parse_field(f, &st, &placed, range, ss.default_endianness, i) {
        Ok(k) => k,
        Err(e) => return Err(e),
    };
    Ok((mp, range, st, k))
}

/// What resolving a record yields: the first error of the plan; else, when the
/// leaves fit in the record and no two meet, the layout of the plan; else the
/// overlap check's error.
pub open spec fn struct_result(s: StructDesc, r: Result<Layout, ConfigError>) -> bool {
    match layout_plan(s) {
        Err(e) => r == Err::<Layout, ConfigError>(e),
        Ok((ps, total)) => {
            let slots = bytes_for(total) * 8;
            if clear_upto(all_leaves(ps), all_leaves(ps).len() as int, slots) {
                r matches Ok(l) && l.num_bits == total && l.num_bytes == bytes_for(total)
                    && fields_match(l.fields@, s.fields@, ps)
                    && opt_header_len(l.header) == opt_header_len(last_header(s.attrs@))
                    && opt_footer_len(l.footer) == opt_footer_len(last_footer(s.attrs@))
            } else {
                r matches Err(e) && exists|k: int| overlap_error(all_leaves(ps), k, slots, e)
            }
        },
    }
}

/// Resolves the layout of a record: places every field, sizes the record with
/// its header and footer, and checks that no two leaves share a bit.
pub fn parse_struct(s: &StructDesc) -> (r: Result<Layout, ConfigError>)
    ensures
        struct_result(*s, r),
{
    if s.has_generics {
        return Err(ConfigError { kind: ConfigErrorKind::GenericStruct, field: 0, overlap: None });
    }
    let ss = struct_settings(&s.attrs);
    let ghost fs = s.fields@;
    let mut kinds: Vec<FieldKind> = Vec::new();
    let mut leaves: Vec<Leaf> = Vec::new();
    let mut prev: Option<BitRange> = None;
    let mut first_next = false;
    let ghost mut ps: Seq<FieldPlan> = seq![];
    let mut extent: u128 = 0;
    let mut i: usize = 0;
    while i < s.fields.len()
        invariant
            fs == s.fields@,
            ss == struct_settings_of(s.attrs@),
            !s.has_generics,
            i <= fs.len(),
            plan_prefix(fs, ss, i as int) == Ok::<Seq<FieldPlan>, ConfigError>(ps),
            ps.len() == i,
            fields_match(kinds@, fs.take(i as int), ps),
            leaves@ == all_leaves(ps),
            extent == leaves_extent(leaves@),
            extent <= usize::MAX as u128 + 1,
            prev == (if i == 0 { None } else { Some(ps.last().range) }),
            i > 0 ==> first_next == ps[0].requested is Next,
        decreases fs.len() - i,
    {
        let f = &s.fields[i];
        let res = resolve_one(f, ss, prev, i);
        let (mp, range, st, k) = match res {
            Ok(x) => x,
            Err(e) => {
                proof {
                    assert(plan_prefix(fs, ss, i + 1) == Err::<Seq<FieldPlan>, ConfigError>(e));
                    lemma_prefix_err(fs, ss, i as int, fs.len() as int, e);
                }
                return Err(e);
            },
        };
        let ghost plan = field_plan(fs[i as int], ss, prev, i)->Ok_0;
        proof {
            lemma_all_leaves_push(ps, plan);
        }
        // the leaves of the new field, in order
        let ghost base = leaves@;
        let n = match &k {
            FieldKind::Regular { .. } => 1usize,
            FieldKind::Array { elements, .. } => elements.len(),
        };
        assert(n == kind_leaves(k).len());
        let mut j: usize = 0;
        while j < n
            invariant
                n == kind_leaves(k).len(),
                n == plan.leaves.len(),
                j <= n,
                kind_matches(k, f.name@, plan.leaves, plan.wrappers),
                (k is Array <==> plan.is_array),
                leaves@ == base + plan_leaves(i as int, plan).take(j as int),
                extent == leaves_extent(leaves@),
                extent <= usize::MAX as u128 + 1,
            decreases n - j,
        {
            let lr = match &k {
                FieldKind::Regular { field, .. } => field.bit_range,
                FieldKind::Array { elements, .. } => elements[j].bit_range,
            };
            let id = match &k {
                FieldKind::Regular { .. } => LeafId { field: i, element: None },
                FieldKind::Array { .. } => LeafId { field: i, element: Some(j) },
            };
            assert(kind_leaves(k)[j as int].bit_range == lr);
            assert(lr == plan.leaves[j as int]);
            let leaf = Leaf { id, range: lr };
            proof {
                lemma_extent_push(leaves@, leaf);
            }
            if lr.end as u128 >= extent {
                extent = lr.end as u128 + 1;
            }
            leaves.push(leaf);
            assert(plan_leaves(i as int, plan).take(j + 1) =~= plan_leaves(i as int, plan).take(j as int).push(leaf));
            j += 1;
        }
        assert(plan_leaves(i as int, plan).take(n as int) =~= plan_leaves(i as int, plan));
        if i == 0 {
            first_next = match mp.bits_position {
                BitsPositionParsed::Next => true,
                _ => false,
            };
        }
        prev = Some(range);
        let ghost kinds_before = kinds@;
        let ghost ps_before = ps;
        kinds.push(k);
        proof {
            ps = ps.push(plan);
            assert(fs.take(i + 1) =~= fs.take(i as int).push(fs[i as int]));
            assert(fields_match(kinds@, fs.take(i + 1), ps)) by {
                assert forall|x: int| 0 <= x < ps.len() implies kind_matches(#[trigger] kinds@[x], fs.take(i + 1)[x].name@, ps[x].leaves, ps[x].wrappers)
                    && (kinds@[x] is Array <==> ps[x].is_array) by {
                    if x < i {
                        assert(kinds@[x] == kinds_before[x]);
                        assert(ps[x] == ps_before[x]);
                        assert(fs.take(i + 1)[x] == fs.take(i as int)[x]);
                    }
                }
            }
        }
        i += 1;
    }
    assert(fs.take(i as int) =~= fs);
    let data: u128 = match ss.size_bytes {
        Some(sb) => {
            if sb > usize::MAX / 8 {
                return Err(ConfigError { kind: ConfigErrorKind::TooLarge, field: 0, overlap: None });
            }
            (sb * 8) as u128
        },
        None => {
            if i == 0 {
                return Err(ConfigError { kind: ConfigErrorKind::NoFields, field: 0, overlap: None });
            }
            extent
        },
    };
    let ghost sa = s.attrs@;
    let mut reserved: u128 = 0;
    let mut header: Option<Header> = None;
    let mut footer: Option<Footer> = None;
    let mut t: usize = 0;
    assert(sa.take(0) =~= seq![]);
    while t < s.attrs.len()
        invariant
            sa == s.attrs@,
            t <= sa.len(),
            reserved == reserved_bytes(sa.take(t as int)),
            reserved <= usize::MAX,
            opt_header_len(header) == opt_header_len(last_header(sa.take(t as int))),
            opt_footer_len(footer) == opt_footer_len(last_footer(sa.take(t as int))),
            layout_plan(*s) is Ok ==> layout_plan(*s)->Ok_0.1 == data + 8 * reserved_bytes(sa),
            data <= usize::MAX as u128 + 1,
            !s.has_generics,
            ss == struct_settings_of(sa),
            plan_prefix(s.fields@, ss, s.fields@.len() as int) == Ok::<Seq<FieldPlan>, ConfigError>(ps),
            data_bits(ss, ps) == Ok::<int, ConfigErrorKind>(data as int),
        decreases sa.len() - t,
    {
        proof {
            lemma_reserved_push(sa, t as int);
            lemma_reserved_grows(sa, t + 1, sa.len() as int);
            assert(sa.take(sa.len() as int) =~= sa);
        }
        let add: usize = match &s.attrs[t] {
            PackStructAttribute::Header(h) => {
                header = Some(h.duplicate());
                h.byte_len()
            },
            PackStructAttribute::Footer(f) => {
                footer = Some(f.duplicate());
                f.byte_len()
            },
            _ => 0,
        };
        reserved = reserved + add as u128;
        if reserved > usize::MAX as u128 {
            return Err(ConfigError { kind: ConfigErrorKind::TooLarge, field: 0, overlap: None });
        }
        t += 1;
    }
    assert(sa.take(t as int) =~= sa);
    let total: u128 = data + 8 * reserved;
    if total > usize::MAX as u128 || (total + 7) / 8 * 8 > usize::MAX as u128 {
        return Err(ConfigError { kind: ConfigErrorKind::TooLarge, field: 0, overlap: None });
    }
    let num_bits = total as usize;
    let num_bytes = ((total + 7) / 8) as usize;
    if first_next && num_bits % 8 != 0 && ss.size_bytes.is_none() {
        return Err(ConfigError { kind: ConfigErrorKind::AmbiguousAlignment, field: 0, overlap: None });
    }
    match check_overlaps(&leaves, num_bytes * 8) {
        Ok(()) => {},
        Err(e) => return Err(e),
    }
    Ok(Layout { fields: kinds, num_bits, num_bytes, header, footer })
}

} // verus!
