use packed_layout::attrs::{parse_num, BitNumbering, BitRange, BitsPositionParsed, IntegerEndianness};
use packed_layout::field::{
    normalize_lsb0, ConfigErrorKind, FieldDesc, FieldKind, LeafId, PackFieldAttribute, SerializationWrapper,
};
use packed_layout::layout::{parse_struct, Footer, Header, Layout, PackStructAttribute, StructDesc};
use packed_layout::types::{get_builtin_type_bit_width, FieldType, TypeDesc};

fn ty(name: &str) -> TypeDesc {
    TypeDesc { ident: name.to_string(), generic_args: vec![] }
}

fn ty_args(name: &str, args: &[&str]) -> TypeDesc {
    TypeDesc { ident: name.to_string(), generic_args: args.iter().map(|a| a.to_string()).collect() }
}

fn scalar(name: &str, t: &str, attrs: Vec<PackFieldAttribute>) -> FieldDesc {
    FieldDesc { name: name.to_string(), ty: FieldType::Path(ty(t)), attrs }
}

fn array(name: &str, t: &str, n: usize, attrs: Vec<PackFieldAttribute>) -> FieldDesc {
    FieldDesc { name: name.to_string(), ty: FieldType::Array(ty(t), n), attrs }
}

fn record(fields: Vec<FieldDesc>, attrs: Vec<PackStructAttribute>) -> StructDesc {
    StructDesc { fields, attrs, has_generics: false }
}

fn range(l: &Layout, i: usize) -> (usize, usize) {
    match &l.fields[i] {
        FieldKind::Regular { field, .. } => (field.bit_range.start, field.bit_range.end),
        FieldKind::Array { .. } => panic!("not a scalar field"),
    }
}

fn wrappers(l: &Layout, i: usize) -> Vec<SerializationWrapper> {
    match &l.fields[i] {
        FieldKind::Regular { field, .. } => field.serialization_wrappers.clone(),
        FieldKind::Array { .. } => panic!("not a scalar field"),
    }
}

fn error_kind(s: &StructDesc) -> ConfigErrorKind {
    match parse_struct(s) {
        Ok(_) => panic!("expected an error"),
        Err(e) => e.kind,
    }
}

fn at(a: usize, b: usize) -> PackFieldAttribute {
    PackFieldAttribute::BitPosition(BitsPositionParsed::Range(a, b))
}

const MSB0: PackStructAttribute = PackStructAttribute::BitNumbering(BitNumbering::Msb0);

#[test]
fn auto_fields_follow_each_other() {
    let s = record(
        vec![scalar("a", "u8", vec![]), scalar("b", "u16", vec![])],
        vec![MSB0, PackStructAttribute::DefaultIntEndianness(IntegerEndianness::Lsb)],
    );
    let l = parse_struct(&s).unwrap();
    assert_eq!(range(&l, 0), (0, 7));
    assert_eq!(range(&l, 1), (8, 23));
    assert_eq!(
        wrappers(&l, 1),
        vec![
            SerializationWrapper::Integer { bit_width: 16, of_enum: false },
            SerializationWrapper::Endianness(IntegerEndianness::Lsb)
        ]
    );
    assert_eq!(l.num_bits, 24);
    assert_eq!(l.num_bytes, 3);
}

#[test]
fn lsb0_range_is_flipped() {
    let s = record(
        vec![scalar("x", "u8", vec![at(0, 7)])],
        vec![PackStructAttribute::SizeBytes(4), PackStructAttribute::BitNumbering(BitNumbering::Lsb0)],
    );
    let l = parse_struct(&s).unwrap();
    assert_eq!(range(&l, 0), (24, 31));
    assert_eq!(l.num_bits, 32);
    assert_eq!(l.num_bytes, 4);
}

#[test]
fn array_elements_are_contiguous() {
    let s = record(vec![array("arr", "u8", 4, vec![])], vec![MSB0]);
    let l = parse_struct(&s).unwrap();
    assert_eq!(l.num_bits, 32);
    match &l.fields[0] {
        FieldKind::Array { size, elements, .. } => {
            assert_eq!(*size, 4);
            let rs: Vec<(usize, usize)> = elements.iter().map(|e| (e.bit_range.start, e.bit_range.end)).collect();
            assert_eq!(rs, vec![(0, 7), (8, 15), (16, 23), (24, 31)]);
            for e in elements {
                assert_eq!(e.bit_width, 8);
            }
        },
        FieldKind::Regular { .. } => panic!("expected an array"),
    }
}

#[test]
fn equal_explicit_ranges_overlap() {
    let s = record(vec![scalar("first", "u8", vec![at(0, 7)]), scalar("second", "u8", vec![at(0, 7)])], vec![MSB0]);
    let e = parse_struct(&s).unwrap_err();
    assert_eq!(e.kind, ConfigErrorKind::Overlap);
    let pair = e.overlap.unwrap();
    assert_eq!(pair.first, LeafId { field: 0, element: None });
    assert_eq!(pair.second, LeafId { field: 1, element: None });
    assert_eq!(s.fields[pair.first.field].name, "first");
    assert_eq!(s.fields[pair.second.field].name, "second");
}

#[test]
fn reserved_header_adds_its_bytes() {
    let s = record(vec![scalar("v", "u8", vec![])], vec![PackStructAttribute::Header(Header::Trait(2))]);
    let l = parse_struct(&s).unwrap();
    assert_eq!(l.num_bits, 24);
    assert_eq!(l.num_bytes, 3);
    assert_eq!(l.header.as_ref().map(|h| h.byte_len()), Some(2));
}

#[test]
fn zero_length_array_is_refused() {
    let s = record(vec![array("arr", "u8", 0, vec![])], vec![MSB0]);
    let e = parse_struct(&s).unwrap_err();
    assert_eq!(e.kind, ConfigErrorKind::ZeroSizedArray);
    assert_eq!(e.field, 0);
}

#[test]
fn leaves_never_share_bits() {
    let s = record(
        vec![
            scalar("a", "bool", vec![at(0, 0)]),
            scalar("c", "u8", vec![at(1, 7)]),
            array("b", "u8", 2, vec![at(8, 23)]),
            scalar("d", "u16", vec![]),
        ],
        vec![MSB0, PackStructAttribute::DefaultIntEndianness(IntegerEndianness::Msb)],
    );
    let l = parse_struct(&s).unwrap();
    let mut ranges: Vec<(usize, usize)> = vec![];
    for f in &l.fields {
        match f {
            FieldKind::Regular { field, .. } => ranges.push((field.bit_range.start, field.bit_range.end)),
            FieldKind::Array { elements, .. } => {
                for e in elements {
                    ranges.push((e.bit_range.start, e.bit_range.end));
                }
            },
        }
    }
    assert_eq!(ranges, vec![(0, 0), (1, 7), (8, 15), (16, 23), (24, 39)]);
    for i in 0..ranges.len() {
        for j in 0..ranges.len() {
            if i != j {
                assert!(ranges[i].1 < ranges[j].0 || ranges[j].1 < ranges[i].0);
            }
        }
        assert!(ranges[i].1 < l.num_bytes * 8);
    }
}

#[test]
fn auto_field_after_explicit_one() {
    let s = record(
        vec![scalar("a", "u8", vec![at(4, 11)]), scalar("b", "u8", vec![]), scalar("c", "bool", vec![])],
        vec![MSB0, PackStructAttribute::SizeBytes(3)],
    );
    let l = parse_struct(&s).unwrap();
    assert_eq!(range(&l, 0), (4, 11));
    assert_eq!(range(&l, 1), (12, 19));
    assert_eq!(range(&l, 2), (20, 20));
}

#[test]
fn lsb0_normalization_twice_is_identity() {
    let once = normalize_lsb0(32, 3, 10);
    assert_eq!(once, BitsPositionParsed::Range(21, 28));
    let twice = match once {
        BitsPositionParsed::Range(a, b) => normalize_lsb0(32, a, b),
        _ => panic!("expected a range"),
    };
    assert_eq!(twice, BitsPositionParsed::Range(3, 10));
}

#[test]
fn size_bits_on_array_is_refused() {
    let s = record(vec![array("arr", "u8", 2, vec![PackFieldAttribute::SizeBits(16)])], vec![MSB0]);
    assert_eq!(error_kind(&s), ConfigErrorKind::SizeBitsOnArray);
    let one = record(vec![array("arr", "u8", 1, vec![PackFieldAttribute::SizeBits(8)])], vec![MSB0]);
    assert_eq!(error_kind(&one), ConfigErrorKind::SizeBitsOnArray);
}

#[test]
fn narrow_field_is_big_endian() {
    let s = record(
        vec![scalar("v", "u8", vec![PackFieldAttribute::IntEndianness(IntegerEndianness::Lsb)])],
        vec![MSB0, PackStructAttribute::DefaultIntEndianness(IntegerEndianness::Lsb)],
    );
    let l = parse_struct(&s).unwrap();
    assert_eq!(
        wrappers(&l, 0),
        vec![
            SerializationWrapper::Integer { bit_width: 8, of_enum: false },
            SerializationWrapper::Endianness(IntegerEndianness::Msb)
        ]
    );
}

#[test]
fn field_endianness_beats_default() {
    let s = record(
        vec![scalar("v", "u32", vec![PackFieldAttribute::IntEndianness(IntegerEndianness::Msb)])],
        vec![MSB0, PackStructAttribute::DefaultIntEndianness(IntegerEndianness::Lsb)],
    );
    let l = parse_struct(&s).unwrap();
    assert_eq!(wrappers(&l, 0)[1], SerializationWrapper::Endianness(IntegerEndianness::Msb));
}

#[test]
fn enum_field_wrappers() {
    let s = record(
        vec![scalar("mode", "Mode", vec![PackFieldAttribute::TyEnum, at(0, 2)])],
        vec![MSB0],
    );
    let l = parse_struct(&s);
    // three bits after a first explicitly placed field: no alignment question
    let l = l.unwrap();
    assert_eq!(
        wrappers(&l, 0),
        vec![
            SerializationWrapper::PrimitiveEnum,
            SerializationWrapper::Integer { bit_width: 3, of_enum: true },
            SerializationWrapper::Endianness(IntegerEndianness::Msb)
        ]
    );
    assert_eq!(l.num_bits, 3);
    assert_eq!(l.num_bytes, 1);
}

#[test]
fn sized_integer_type() {
    let t = ty_args("Integer", &["u8", "packed_bits :: Bits :: < 3 >"]);
    assert_eq!(get_builtin_type_bit_width(&t), Some(3));
    let r = ty_args("ReservedZero", &["packed_bits :: Bits :: < 12 >"]);
    assert_eq!(get_builtin_type_bit_width(&r), Some(12));
    assert_eq!(get_builtin_type_bit_width(&ty_args("Integer", &["u8"])), None);
    assert_eq!(get_builtin_type_bit_width(&ty("bool")), Some(1));
    assert_eq!(get_builtin_type_bit_width(&ty("i64")), Some(64));
    assert_eq!(get_builtin_type_bit_width(&ty("f32")), None);
    let s = record(
        vec![
            FieldDesc { name: "v".to_string(), ty: FieldType::Path(t), attrs: vec![] },
            scalar("pad", "ReservedZero", vec![PackFieldAttribute::SizeBits(5)]),
        ],
        vec![MSB0],
    );
    let l = parse_struct(&s).unwrap();
    assert_eq!(range(&l, 0), (0, 2));
    assert_eq!(wrappers(&l, 0), vec![SerializationWrapper::Endianness(IntegerEndianness::Msb)]);
    assert_eq!(range(&l, 1), (3, 7));
    assert_eq!(wrappers(&l, 1), vec![]);
}

#[test]
fn element_size_sets_array_width() {
    let s = record(vec![array("arr", "u8", 3, vec![PackFieldAttribute::ElementSizeBits(4)])], vec![MSB0, PackStructAttribute::SizeBytes(2)]);
    let l = parse_struct(&s).unwrap();
    match &l.fields[0] {
        FieldKind::Array { elements, .. } => {
            let rs: Vec<(usize, usize)> = elements.iter().map(|e| (e.bit_range.start, e.bit_range.end)).collect();
            assert_eq!(rs, vec![(0, 3), (4, 7), (8, 11)]);
        },
        FieldKind::Regular { .. } => panic!("expected an array"),
    }
    assert_eq!(l.num_bits, 16);
}

#[test]
fn header_and_footer_bytes() {
    let s = record(
        vec![scalar("v", "u8", vec![])],
        vec![
            PackStructAttribute::Header(Header::Bytes(vec![0xAA, 0xBB, 0xCC])),
            PackStructAttribute::Footer(Footer::Trait(1)),
        ],
    );
    let l = parse_struct(&s).unwrap();
    assert_eq!(l.num_bits, 8 + 24 + 8);
    assert_eq!(l.num_bytes, 5);
    match &l.header {
        Some(Header::Bytes(b)) => assert_eq!(b, &vec![0xAA, 0xBB, 0xCC]),
        _ => panic!("expected header bytes"),
    }
    assert_eq!(l.footer.as_ref().map(|f| f.byte_len()), Some(1));
}

#[test]
fn first_setting_wins() {
    let s = record(
        vec![scalar("v", "u16", vec![PackFieldAttribute::SizeBits(12), PackFieldAttribute::SizeBits(4)])],
        vec![MSB0, PackStructAttribute::BitNumbering(BitNumbering::Lsb0), PackStructAttribute::DefaultIntEndianness(IntegerEndianness::Lsb), PackStructAttribute::SizeBytes(2)],
    );
    let l = parse_struct(&s).unwrap();
    assert_eq!(range(&l, 0), (0, 11));
    assert_eq!(l.num_bits, 16);
}

#[test]
fn error_kinds() {
    let generic = StructDesc { fields: vec![scalar("v", "u8", vec![])], attrs: vec![], has_generics: true };
    assert_eq!(error_kind(&generic), ConfigErrorKind::GenericStruct);
    let unsupported = record(vec![FieldDesc { name: "v".to_string(), ty: FieldType::Unsupported, attrs: vec![] }], vec![MSB0]);
    assert_eq!(error_kind(&unsupported), ConfigErrorKind::UnsupportedType);
    assert_eq!(error_kind(&record(vec![scalar("v", "Thing", vec![])], vec![MSB0])), ConfigErrorKind::UnknownWidth);
    assert_eq!(error_kind(&record(vec![scalar("v", "u16", vec![])], vec![MSB0])), ConfigErrorKind::MissingEndianness);
    assert_eq!(error_kind(&record(vec![scalar("v", "u8", vec![at(0, 7)])], vec![])), ConfigErrorKind::NumberingRequired);
    let lsb0 = PackStructAttribute::BitNumbering(BitNumbering::Lsb0);
    assert_eq!(error_kind(&record(vec![scalar("v", "u8", vec![])], vec![lsb0.clone(), PackStructAttribute::SizeBytes(1)])), ConfigErrorKind::Lsb0NeedsRange);
    assert_eq!(error_kind(&record(vec![scalar("v", "u8", vec![at(0, 7)])], vec![lsb0.clone()])), ConfigErrorKind::Lsb0NeedsSize);
    assert_eq!(error_kind(&record(vec![scalar("v", "u8", vec![at(0, 15)])], vec![lsb0, PackStructAttribute::SizeBytes(1)])), ConfigErrorKind::FieldOutOfBounds);
    assert_eq!(error_kind(&record(vec![scalar("v", "bool", vec![])], vec![MSB0])), ConfigErrorKind::AmbiguousAlignment);
    assert_eq!(error_kind(&record(vec![scalar("v", "u16", vec![])], vec![MSB0, PackStructAttribute::SizeBytes(1), PackStructAttribute::DefaultIntEndianness(IntegerEndianness::Lsb)])), ConfigErrorKind::FieldOutOfBounds);
    assert_eq!(error_kind(&record(vec![], vec![MSB0])), ConfigErrorKind::NoFields);
    assert_eq!(error_kind(&record(vec![array("arr", "u8", 3, vec![at(0, 9)])], vec![MSB0])), ConfigErrorKind::ElementSizeMismatch);
    assert_eq!(error_kind(&record(vec![scalar("v", "u8", vec![at(0, 7), PackFieldAttribute::SizeBits(4)])], vec![MSB0])), ConfigErrorKind::WidthMismatch);
    assert_eq!(error_kind(&record(vec![scalar("v", "u8", vec![at(7, 0)])], vec![MSB0])), ConfigErrorKind::ReversedRange);
    assert_eq!(error_kind(&record(vec![scalar("v", "u8", vec![PackFieldAttribute::SizeBits(0)])], vec![MSB0])), ConfigErrorKind::ZeroWidth);
    let far = PackFieldAttribute::BitPosition(BitsPositionParsed::Start(usize::MAX));
    assert_eq!(error_kind(&record(vec![scalar("v", "u8", vec![far])], vec![MSB0])), ConfigErrorKind::TooLarge);
    assert_eq!(error_kind(&record(vec![scalar("v", "u8", vec![])], vec![PackStructAttribute::SizeBytes(usize::MAX)])), ConfigErrorKind::TooLarge);
}

#[test]
fn empty_record_with_declared_size() {
    let l = parse_struct(&record(vec![], vec![PackStructAttribute::SizeBytes(2)])).unwrap();
    assert_eq!(l.num_bits, 16);
    assert_eq!(l.num_bytes, 2);
    assert!(l.fields.is_empty());
}

#[test]
fn overlap_names_array_element() {
    let s = record(vec![array("arr", "u8", 2, vec![]), scalar("x", "u8", vec![at(12, 19)])], vec![MSB0, PackStructAttribute::SizeBytes(3)]);
    let e = parse_struct(&s).unwrap_err();
    assert_eq!(e.kind, ConfigErrorKind::Overlap);
    let pair = e.overlap.unwrap();
    assert_eq!(pair.first, LeafId { field: 0, element: Some(1) });
    assert_eq!(pair.second, LeafId { field: 1, element: None });
}

#[test]
fn numerals() {
    assert_eq!(parse_num("42"), Ok(42));
    assert_eq!(parse_num("  42 "), Ok(42));
    assert_eq!(parse_num("0x1F"), Ok(31));
    assert_eq!(parse_num("0X10"), Ok(16));
    assert_eq!(parse_num("+7"), Ok(7));
    assert!(parse_num("abc").is_err());
    assert!(parse_num("0x").is_err());
    assert!(parse_num("").is_err());
    assert!(parse_num("99999999999999999999999").is_err());
}

#[test]
fn keywords_in_any_case() {
    assert_eq!(BitNumbering::from_str("LSB0"), Some(BitNumbering::Lsb0));
    assert_eq!(BitNumbering::from_str("msb0"), Some(BitNumbering::Msb0));
    assert_eq!(BitNumbering::from_str("lsb"), None);
    assert_eq!(IntegerEndianness::from_str("Be"), Some(IntegerEndianness::Msb));
    assert_eq!(IntegerEndianness::from_str("LE"), Some(IntegerEndianness::Lsb));
    assert_eq!(IntegerEndianness::from_str("msb"), Some(IntegerEndianness::Msb));
    assert_eq!(IntegerEndianness::from_str("big"), None);
}

#[test]
fn placement_and_ordering() {
    assert_eq!(BitsPositionParsed::range_in_order(9, 2), BitsPositionParsed::Range(2, 9));
    assert_eq!(BitsPositionParsed::range_in_order(2, 9), BitsPositionParsed::Range(2, 9));
    let prev = Some(BitRange { start: 0, end: 7 });
    assert_eq!(BitsPositionParsed::Next.to_bits_position(4, prev), BitRange { start: 8, end: 11 });
    assert_eq!(BitsPositionParsed::Next.to_bits_position(4, None), BitRange { start: 0, end: 3 });
    assert_eq!(BitsPositionParsed::Start(20).to_bits_position(4, prev), BitRange { start: 20, end: 23 });
    assert_eq!(BitsPositionParsed::Range(3, 5).to_bits_position(3, prev), BitRange { start: 3, end: 5 });
}
