//! Field types and the bit widths they carry.
use vstd::prelude::*;
use vstd::string::*;
use crate::text::{opt_int, find, is_numeric, numeric_of, occurs_at, str_eq, usize_from_str_radix, parses_in_radix, radix_numeral};

verus! {

/// A type as written on a field: its name and the text of each of its type arguments.
#[derive(Clone, Debug)]
pub struct TypeDesc {
    pub ident: String,
    pub generic_args: Vec<String>,
}

pub open spec fn arg_views(t: TypeDesc) -> Seq<Seq<char>> {
    t.generic_args@.map_values(|a: String| a@)
}

/// The first position holding a numeric character, if any.
pub open spec fn first_numeric(s: Seq<char>) -> Option<int> {
    if exists|i: int| 0 <= i < s.len() && numeric_of(s[i]) {
        Some(choose|i: int| 0 <= i < s.len() && numeric_of(s[i]) && forall|j: int| 0 <= j < i ==> !numeric_of(s[j]))
    } else {
        None
    }
}

/// The first position holding a character that is not numeric, if any.
pub open spec fn first_non_numeric(s: Seq<char>) -> Option<int> {
    if exists|i: int| 0 <= i < s.len() && !numeric_of(s[i]) {
        Some(choose|i: int| 0 <= i < s.len() && !numeric_of(s[i]) && forall|j: int| 0 <= j < i ==> numeric_of(s[j]))
    } else {
        None
    }
}

/// The first position at which `pat` occurs in `s`, if any.
pub open spec fn first_occurrence(s: Seq<char>, pat: Seq<char>) -> Option<int> {
    if exists|i: int| occurs_at(s, pat, i) {
        Some(choose|i: int| occurs_at(s, pat, i) && forall|j: int| 0 <= j < i ==> !occurs_at(s, pat, j))
    } else {
        None
    }
}

/// The marker that precedes the bit count in a sized type's argument.
pub open spec fn bits_marker() -> Seq<char> {
    " Bits "@
}

/// The bit count that a type argument spells after the marker: the first run of
/// numeric characters that is followed by something else, read as a decimal number.
#[verifier::opaque]
pub open spec fn marker_bits(a: Seq<char>) -> Option<int> {
    match first_occurrence(a, bits_marker()) {
        None => None,
        Some(p) => numeral_after(a.skip(p + bits_marker().len())),
    }
}

/// The first run of numeric characters in `rest` that is followed by something
/// else, read as a decimal number.
pub open spec fn numeral_after(rest: Seq<char>) -> Option<int> {
    match first_numeric(rest) {
        None => None,
        Some(st) => {
            let ns = rest.skip(st);
            match first_non_numeric(ns) {
                None => None,
                Some(en) => if parses_in_radix(ns.take(en), 10) {
                    radix_numeral(ns.take(en), 10)
                } else {
                    None
                },
            }
        },
    }
}

/// The first bit count that any of the arguments spells, in order.
pub open spec fn first_marked_bits(args: Seq<Seq<char>>) -> Option<int>
    decreases args.len(),
{
    if args.len() == 0 {
        None
    } else {
        match marker_bits(args[0]) {
            Some(b) => Some(b),
            None => first_marked_bits(args.skip(1)),
        }
    }
}

pub open spec fn is_int_name(n: Seq<char>) -> bool {
    n == "u8"@ || n == "i8"@ || n == "u16"@ || n == "i16"@ || n == "u32"@ || n == "i32"@
        || n == "u64"@ || n == "i64"@
}

pub open spec fn is_sized_name(n: Seq<char>) -> bool {
    n == "ReservedZero"@ || n == "ReservedZeroes"@ || n == "ReservedOne"@ || n == "ReservedOnes"@
        || n == "Integer"@
}

/// The width of a builtin type, or of a sized type from the count in its arguments.
pub open spec fn builtin_width(ident: Seq<char>, args: Seq<Seq<char>>) -> Option<int> {
    if ident == "bool"@ {
        Some(1)
    } else if ident == "u8"@ || ident == "i8"@ {
        Some(8)
    } else if ident == "u16"@ || ident == "i16"@ {
        Some(16)
    } else if ident == "u32"@ || ident == "i32"@ {
        Some(32)
    } else if ident == "u64"@ || ident == "i64"@ {
        Some(64)
    } else if is_sized_name(ident) {
        first_marked_bits(args)
    } else {
        None
    }
}

fn first_numeric_exec(s: &str, want: bool) -> (r: Option<usize>)
    ensures
        r matches Some(i) ==> i < s@.len(),
        want ==> opt_int(r) == first_numeric(s@),
        !want ==> opt_int(r) == first_non_numeric(s@),
{
    let n = s.unicode_len();
    let mut i: usize = 0;
    while i < n
        invariant
            n == s@.len(),
            i <= n,
            forall|j: int| 0 <= j < i ==> numeric_of(s@[j]) != want,
        decreases n - i,
    {
        if is_numeric(s.get_char(i)) == want {
            proof {
                if want {
                    assert(exists|k: int| 0 <= k < s@.len() && numeric_of(s@[k]));
                    let c = first_numeric(s@).unwrap();
                    assert(c == i as int) by {
                        if c < i { } else if c > i { }
                    }
                } else {
                    assert(exists|k: int| 0 <= k < s@.len() && !numeric_of(s@[k]));
                    let c = first_non_numeric(s@).unwrap();
                    assert(c == i as int) by {
                        if c < i { } else if c > i { }
                    }
                }
            }
            return Some(i);
        }
        i += 1;
    }
    None
}

fn find_first(s: &str, pat: &str) -> (r: Option<usize>)
    ensures
        opt_int(r) == first_occurrence(s@, pat@),
        r matches Some(i) ==> occurs_at(s@, pat@, i as int),
{
    let r = find(s, pat);
    proof {
        if let Some(i) = r {
            assert(occurs_at(s@, pat@, i as int));
            let c = first_occurrence(s@, pat@).unwrap();
            assert(c == i as int) by {
                if c < i { } else if c > i { }
            }
        }
    }
    r
}

/// The bit count spelled in one type argument after the marker.
fn get_marker_bits(a: &str) -> (r: Option<usize>)
    ensures
        opt_int(r) == marker_bits(a@),
{
    let marker = " Bits ";
    proof {
        reveal_strlit(" Bits ");
        reveal(marker_bits);
    }
    assert(marker@ == bits_marker());
    let ml = marker.unicode_len();
    match find_first(a, marker) {
        None => None,
        Some(p) => {
            let n = a.unicode_len();
            let rest = a.substring_char(p + ml, n);
            assert(rest@ =~= a@.skip(p + bits_marker().len()));
            get_numeral_after(rest)
        },
    }
}

fn get_numeral_after(rest: &str) -> (r: Option<usize>)
    ensures
        opt_int(r) == numeral_after(rest@),
{
            match first_numeric_exec(rest, true) {
                None => None,
                Some(st) => {
                    let rn = rest.unicode_len();
                    let ns = rest.substring_char(st, rn);
                    assert(ns@ =~= rest@.skip(st as int));
                    match first_numeric_exec(ns, false) {
                        None => None,
                        Some(en) => {
                            let num = ns.substring_char(0, en);
                            assert(num@ =~= ns@.take(en as int));
                            usize_from_str_radix(num, 10)
                        },
                    }
                },
            }
}

fn is_sized_ident(n: &str) -> (r: bool)
    ensures
        r == is_sized_name(n@),
{
    str_eq(n, "ReservedZero") || str_eq(n, "ReservedZeroes") || str_eq(n, "ReservedOne")
        || str_eq(n, "ReservedOnes") || str_eq(n, "Integer")
}

/// Whether a type name is one of the fixed-width integer types.
pub fn is_int_ident(n: &str) -> (r: bool)
    ensures
        r == is_int_name(n@),
{
    str_eq(n, "u8") || str_eq(n, "i8") || str_eq(n, "u16") || str_eq(n, "i16") || str_eq(n, "u32")
        || str_eq(n, "i32") || str_eq(n, "u64") || str_eq(n, "i64")
}

/// The width in bits of a builtin type, or of a sized type from its arguments.
pub fn get_builtin_type_bit_width(t: &TypeDesc) -> (r: Option<usize>)
    ensures
        opt_int(r) == builtin_width(t.ident@, arg_views(*t)),
{
    let id = t.ident.as_str();
    if str_eq(id, "bool") {
        Some(1)
    } else if str_eq(id, "u8") || str_eq(id, "i8") {
        Some(8)
    } else if str_eq(id, "u16") || str_eq(id, "i16") {
        Some(16)
    } else if str_eq(id, "u32") || str_eq(id, "i32") {
        Some(32)
    } else if str_eq(id, "u64") || str_eq(id, "i64") {
        Some(64)
    } else if is_sized_ident(id) {
        let args = &t.generic_args;
        let ghost av = arg_views(*t);
        assert(av.skip(0) =~= av);
        assert(builtin_width(t.ident@, av) == first_marked_bits(av));
        let mut i: usize = 0;
        while i < args.len()
            invariant
                av == arg_views(*t),
                builtin_width(t.ident@, av) == first_marked_bits(av),
                av.len() == args@.len(),
                forall|j: int| 0 <= j < av.len() ==> #[trigger] av[j] == args@[j]@,
                i <= args.len(),
                first_marked_bits(av) == first_marked_bits(av.skip(i as int)),
            decreases args.len() - i,
        {
            let ghost tail = av.skip(i as int);
            assert(tail[0] == av[i as int]);
            assert(tail.skip(1) =~= av.skip(i + 1));
            let b = get_marker_bits(args[i].as_str());
            if b.is_some() {
                assert(first_marked_bits(tail) == opt_int(b));
                return b;
            }
            i += 1;
        }
        assert(av.skip(i as int).len() == 0);
        None
    } else {
        None
    }
}

/// What a field is declared as: one value, or a fixed-length array of values.
#[derive(Clone, Debug)]
pub enum FieldType {
    Path(TypeDesc),
    Array(TypeDesc, usize),
    /// Any other form of type, which a packed record cannot hold.
    Unsupported,
}

} // verus!
