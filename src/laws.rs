//! Properties that hold of every resolved layout.
use vstd::prelude::*;
use crate::attrs::{BitRange, BitsPositionParsed, IntegerEndianness};
use crate::field::{
    chosen_order, kind_leaves, kind_matches, mid_positioning, settings_of, wrapper_chain, ConfigError, ConfigErrorKind, FieldDesc, FieldSettings,
    SerializationWrapper, lsb0_range,
};
use crate::layout::{
    all_leaves, bytes_for, clear_upto, field_plan, fields_match, layout_plan, meets, plan_leaves,
    plan_prefix, struct_result, struct_settings_of, FieldPlan, Layout, StructDesc, StructSettings,
};
use crate::types::{FieldType, TypeDesc};

verus! {

/// The range of leaf `a` of field `i` of a layout.
pub open spec fn leaf_range(l: Layout, i: int, a: int) -> BitRange {
    kind_leaves(l.fields@[i])[a].bit_range
}

/// Whether field `i` of a layout has a leaf `a`.
pub open spec fn is_leaf(l: Layout, i: int, a: int) -> bool {
    0 <= i < l.fields@.len() && 0 <= a < kind_leaves(l.fields@[i]).len()
}

/// Where the leaves of plan `i` begin among all leaves.
pub open spec fn leaf_offset(ps: Seq<FieldPlan>, i: int) -> int {
    all_leaves(ps.take(i)).len() as int
}

proof fn lemma_leaves_step(ps: Seq<FieldPlan>, i: int)
    requires
        0 <= i < ps.len(),
    ensures
        all_leaves(ps.take(i + 1)) == all_leaves(ps.take(i)) + plan_leaves(i, ps[i]),
{
    assert(ps.take(i + 1).drop_last() =~= ps.take(i));
}

proof fn lemma_leaves_prefix(ps: Seq<FieldPlan>, m: int, n: int)
    requires
        0 <= m <= n <= ps.len(),
    ensures
        all_leaves(ps.take(m)).len() <= all_leaves(ps.take(n)).len(),
        forall|x: int| 0 <= x < all_leaves(ps.take(m)).len() ==> #[trigger] all_leaves(ps.take(m))[x]
            == all_leaves(ps.take(n))[x],
    decreases n - m,
{
    if m < n {
        lemma_leaves_prefix(ps, m, n - 1);
        lemma_leaves_step(ps, n - 1);
    }
}

proof fn lemma_leaf_index(ps: Seq<FieldPlan>, i: int, a: int)
    requires
        0 <= i < ps.len(),
        0 <= a < ps[i].leaves.len(),
    ensures
        leaf_offset(ps, i) + a < leaf_offset(ps, i + 1),
        leaf_offset(ps, i + 1) <= all_leaves(ps).len(),
        all_leaves(ps)[leaf_offset(ps, i) + a].range == ps[i].leaves[a],
{
    lemma_leaves_step(ps, i);
    lemma_leaves_prefix(ps, i + 1, ps.len() as int);
    assert(ps.take(ps.len() as int) =~= ps);
    assert(all_leaves(ps.take(i + 1))[leaf_offset(ps, i) + a] == plan_leaves(i, ps[i])[a]);
}

proof fn lemma_offset_mono(ps: Seq<FieldPlan>, m: int, n: int)
    requires
        0 <= m <= n <= ps.len(),
    ensures
        leaf_offset(ps, m) <= leaf_offset(ps, n),
{
    lemma_leaves_prefix(ps, m, n);
}

/// In every layout that resolves, no two distinct leaves share a bit, and every
/// leaf lies within the record's bytes.
pub proof fn lemma_leaves_disjoint(s: StructDesc, l: Layout)
    requires
        struct_result(s, Ok(l)),
    ensures
        forall|i: int, a: int| #[trigger] is_leaf(l, i, a) ==> leaf_range(l, i, a).end < l.num_bytes * 8,
        forall|i: int, a: int, j: int, b: int|
            #[trigger] is_leaf(l, i, a) && #[trigger] is_leaf(l, j, b) && (i != j || a != b) ==> !meets(
                leaf_range(l, i, a),
                leaf_range(l, j, b),
            ),
{
    let (ps, total) = layout_plan(s)->Ok_0;
    let ls = all_leaves(ps);
    let slots = bytes_for(total) * 8;
    assert(clear_upto(ls, ls.len() as int, slots));
    assert(fields_match(l.fields@, s.fields@, ps));
    assert forall|i: int, a: int| #[trigger] is_leaf(l, i, a) implies leaf_range(l, i, a).end < l.num_bytes * 8 by {
        assert(kind_matches(l.fields@[i], s.fields@[i].name@, ps[i].leaves, ps[i].wrappers));
        lemma_leaf_index(ps, i, a);
        assert(ls[leaf_offset(ps, i) + a].range.end < slots);
    }
    assert forall|i: int, a: int, j: int, b: int|
        #[trigger] is_leaf(l, i, a) && #[trigger] is_leaf(l, j, b) && (i != j || a != b) implies !meets(
            leaf_range(l, i, a),
            leaf_range(l, j, b),
        ) by {
        assert(kind_matches(l.fields@[i], s.fields@[i].name@, ps[i].leaves, ps[i].wrappers));
        assert(kind_matches(l.fields@[j], s.fields@[j].name@, ps[j].leaves, ps[j].wrappers));
        lemma_leaf_index(ps, i, a);
        lemma_leaf_index(ps, j, b);
        let x = leaf_offset(ps, i) + a;
        let y = leaf_offset(ps, j) + b;
        if i < j {
            lemma_offset_mono(ps, i + 1, j);
            assert(!meets(ls[x].range, ls[y].range));
        } else if j < i {
            lemma_offset_mono(ps, j + 1, i);
            assert(!meets(ls[y].range, ls[x].range));
        } else if a < b {
            assert(!meets(ls[x].range, ls[y].range));
        } else {
            assert(!meets(ls[y].range, ls[x].range));
        }
    }
}

proof fn lemma_prefix_ok(fs: Seq<FieldDesc>, ss: StructSettings, n: int, i: int)
    requires
        0 <= i < n,
        plan_prefix(fs, ss, n) is Ok,
    ensures
        plan_prefix(fs, ss, i + 1) is Ok,
        plan_prefix(fs, ss, i) is Ok,
        plan_prefix(fs, ss, n)->Ok_0.len() == n,
        plan_prefix(fs, ss, i + 1)->Ok_0 == plan_prefix(fs, ss, n)->Ok_0.take(i + 1),
        field_plan(fs[i], ss, if i == 0 { None } else { Some(plan_prefix(fs, ss, i)->Ok_0.last().range) }, i as usize)
            == Ok::<FieldPlan, ConfigError>(plan_prefix(fs, ss, n)->Ok_0[i]),
    decreases n - i,
{
    lemma_prefix_len(fs, ss, n);
    if i + 1 < n {
        lemma_prefix_ok(fs, ss, n, i + 1);
        lemma_prefix_len(fs, ss, i + 1);
        let p = plan_prefix(fs, ss, i + 2)->Ok_0;
        assert(plan_prefix(fs, ss, i + 1)->Ok_0 =~= p.take(i + 1));
        assert(p.take(i + 1) =~= plan_prefix(fs, ss, n)->Ok_0.take(i + 2).take(i + 1));
        assert(plan_prefix(fs, ss, n)->Ok_0.take(i + 2).take(i + 1) =~= plan_prefix(fs, ss, n)->Ok_0.take(i + 1));
    } else {
        assert(plan_prefix(fs, ss, n)->Ok_0.take(n) =~= plan_prefix(fs, ss, n)->Ok_0);
    }
    lemma_prefix_len(fs, ss, i + 1);
}

proof fn lemma_prefix_len(fs: Seq<FieldDesc>, ss: StructSettings, n: int)
    requires
        0 <= n,
        plan_prefix(fs, ss, n) is Ok,
    ensures
        plan_prefix(fs, ss, n)->Ok_0.len() == n,
    decreases n,
{
    if n > 0 {
        lemma_prefix_len(fs, ss, n - 1);
    }
}

/// A field placed automatically starts right after the field before it, or at
/// bit 0 when it comes first, and spans exactly its width.
pub proof fn lemma_auto_sequential(s: StructDesc, i: int)
    requires
        layout_plan(s) is Ok,
        0 <= i < s.fields@.len(),
        mid_positioning(s.fields@[i].ty, s.fields@[i].attrs@) matches Ok((_, p)) && p is Next,
    ensures
        ({
            let ps = layout_plan(s)->Ok_0.0;
            let w = mid_positioning(s.fields@[i].ty, s.fields@[i].attrs@)->Ok_0.0;
            &&& ps[i].range.start == (if i == 0 { 0 } else { ps[i - 1].range.end + 1 })
            &&& ps[i].range.end == ps[i].range.start + w - 1
        }),
{
    let ss = struct_settings_of(s.attrs@);
    let n = s.fields@.len() as int;
    lemma_prefix_ok(s.fields@, ss, n, i);
    if i > 0 {
        lemma_prefix_ok(s.fields@, ss, n, i - 1);
        lemma_prefix_len(s.fields@, ss, i);
        let pi = plan_prefix(s.fields@, ss, i)->Ok_0;
        assert(pi.last() == plan_prefix(s.fields@, ss, n)->Ok_0[i - 1]);
    }
}

/// Rewriting a least-significant-first range twice, for one record size, gives
/// back the range it started from.
pub proof fn lemma_lsb0_involutive(total: int, a: int, b: int)
    requires
        0 <= a <= b < total,
    ensures
        lsb0_range(total, lsb0_range(total, a, b).0, lsb0_range(total, a, b).1) == (a, b),
        0 <= lsb0_range(total, a, b).0 <= lsb0_range(total, a, b).1 < total,
{
}

/// A field declared as an array with an explicit whole-field size is refused,
/// and so is every record that holds one.
pub proof fn lemma_size_bits_array_rejected(s: StructDesc, i: int)
    requires
        0 <= i < s.fields@.len(),
        s.fields@[i].ty is Array,
        settings_of(s.fields@[i].attrs@).size_bits is Some,
    ensures
        mid_positioning(s.fields@[i].ty, s.fields@[i].attrs@) is Err,
        layout_plan(s) is Err,
{
    lemma_field_rejected(s, i);
}

/// An array of length zero is refused, and so is every record that holds one.
pub proof fn lemma_zero_array_rejected(s: StructDesc, i: int)
    requires
        0 <= i < s.fields@.len(),
        s.fields@[i].ty matches FieldType::Array(_, n) && n == 0,
    ensures
        mid_positioning(s.fields@[i].ty, s.fields@[i].attrs@) == Err::<(int, BitsPositionParsed), ConfigErrorKind>(ConfigErrorKind::ZeroSizedArray),
        layout_plan(s) is Err,
{
    lemma_field_rejected(s, i);
}

proof fn lemma_field_rejected(s: StructDesc, i: int)
    requires
        0 <= i < s.fields@.len(),
        s.fields@[i].ty is Array,
        s.fields@[i].ty->Array_1 == 0 || settings_of(s.fields@[i].attrs@).size_bits is Some,
    ensures
        mid_positioning(s.fields@[i].ty, s.fields@[i].attrs@) is Err,
        layout_plan(s) is Err,
{
    let ss = struct_settings_of(s.attrs@);
    if !s.has_generics && plan_prefix(s.fields@, ss, s.fields@.len() as int) is Ok {
        lemma_prefix_ok(s.fields@, ss, s.fields@.len() as int, i);
    }
}

/// A leaf of at most eight bits is always written big-endian, whatever byte
/// order its field or the record asked for.
pub proof fn lemma_narrow_big_endian(t: TypeDesc, st: FieldSettings, width: int, default: Option<IntegerEndianness>)
    requires
        width <= 8,
    ensures
        chosen_order(width, st.endianness, default) == Some(IntegerEndianness::Msb),
        wrapper_chain(t, st, width, default) is Ok,
        forall|k: int| 0 <= k < wrapper_chain(t, st, width, default)->Ok_0.len()
            && (#[trigger] wrapper_chain(t, st, width, default)->Ok_0[k]) is Endianness
            ==> wrapper_chain(t, st, width, default)->Ok_0[k] == SerializationWrapper::Endianness(IntegerEndianness::Msb),
{
}

} // verus!
