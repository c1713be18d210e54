use packed_layout::attrs::{BitNumbering, BitsPositionParsed, IntegerEndianness};
use packed_layout::extract::{Annotation, Expr, Lit, Meta, SubAttribute};
use packed_layout::field::{ConfigErrorKind, FieldKind, PackFieldAttribute, SerializationWrapper};
use packed_layout::layout::{Header, PackStructAttribute};
use packed_layout::settings::{
    describe_struct, parse_annotated, parse_field_attributes, parse_struct_attributes, AnnotatedField, AnnotatedStruct,
};
use packed_layout::types::{FieldType, TypeDesc};

fn s(key: &str, value: &str) -> (String, String) {
    (key.to_string(), value.to_string())
}

fn item(key: &str, value: &str) -> Meta {
    Meta::NameValue(Some(key.to_string()), Expr::Lit(Lit::Str(value.to_string())))
}

fn tagged(tag: &str, items: Vec<Meta>) -> Annotation {
    Annotation { tag: tag.to_string(), args: Some(items) }
}

fn u8_field(name: &str, items: Vec<Meta>) -> AnnotatedField {
    AnnotatedField {
        name: name.to_string(),
        ty: FieldType::Path(TypeDesc { ident: "u8".to_string(), generic_args: vec![] }),
        annotations: vec![tagged("packed_field", items)],
    }
}

#[test]
fn field_keys() {
    let attrs = parse_field_attributes(&vec![
        s("bits", "7..2"),
        s("bytes", "1"),
        s("bit_position", " 0x10 "),
        s("size_bytes", "2"),
        s("element_size_bits", "3"),
        s("endian", "LE"),
        s("ty", "enum"),
        s("comment", "anything"),
    ])
    .unwrap();
    assert_eq!(
        attrs,
        vec![
            PackFieldAttribute::BitPosition(BitsPositionParsed::Range(2, 7)),
            PackFieldAttribute::BytePosition(BitsPositionParsed::Range(8, 15)),
            PackFieldAttribute::BitPosition(BitsPositionParsed::Start(16)),
            PackFieldAttribute::SizeBits(16),
            PackFieldAttribute::ElementSizeBits(3),
            PackFieldAttribute::IntEndianness(IntegerEndianness::Lsb),
            PackFieldAttribute::TyEnum,
        ]
    );
    assert_eq!(
        parse_field_attributes(&vec![s("byte_position", "2..3")]).unwrap(),
        vec![PackFieldAttribute::BytePosition(BitsPositionParsed::Range(16, 31))]
    );
}

#[test]
fn unreadable_field_value() {
    let e = parse_field_attributes(&vec![s("bits", "0..7"), s("size_bits", "many")]).unwrap_err();
    assert_eq!(e.kind, ConfigErrorKind::InvalidAttribute);
    assert_eq!(e.field, 1);
    assert!(parse_field_attributes(&vec![s("endian", "middle")]).is_err());
    assert!(parse_field_attributes(&vec![s("ty", "struct")]).is_err());
    assert!(parse_field_attributes(&vec![s("bits", "1..x")]).is_err());
}

#[test]
fn record_keys() {
    let pairs = vec![
        SubAttribute { key: "bit_numbering".to_string(), value: Expr::Lit(Lit::Str("MSB0".to_string())) },
        SubAttribute { key: "default_int_endian".to_string(), value: Expr::Lit(Lit::Str("be".to_string())) },
        SubAttribute { key: "size_bytes".to_string(), value: Expr::Lit(Lit::Str("4".to_string())) },
        SubAttribute { key: "header".to_string(), value: Expr::Lit(Lit::Int("2".to_string())) },
        SubAttribute { key: "footer".to_string(), value: Expr::Array(vec![Lit::Byte(1), Lit::Byte(2)]) },
    ];
    let attrs = parse_struct_attributes(&pairs).unwrap();
    assert_eq!(attrs.len(), 5);
    assert!(matches!(attrs[0], PackStructAttribute::BitNumbering(BitNumbering::Msb0)));
    assert!(matches!(attrs[1], PackStructAttribute::DefaultIntEndianness(IntegerEndianness::Msb)));
    assert!(matches!(attrs[2], PackStructAttribute::SizeBytes(4)));
    assert!(matches!(attrs[3], PackStructAttribute::Header(Header::Trait(2))));
    match &attrs[4] {
        PackStructAttribute::Footer(f) => assert_eq!(f.byte_len(), 2),
        _ => panic!("expected a footer"),
    }
    let bad = vec![SubAttribute { key: "bit_numbering".to_string(), value: Expr::Lit(Lit::Str("middle".to_string())) }];
    assert_eq!(parse_struct_attributes(&bad).unwrap_err().kind, ConfigErrorKind::InvalidAttribute);
}

#[test]
fn annotated_lsb0_record() {
    let input = AnnotatedStruct {
        annotations: vec![tagged("packed_struct", vec![item("bit_numbering", "lsb0"), item("size_bytes", "4")])],
        fields: vec![u8_field("x", vec![item("bits", "0..7")])],
        has_generics: false,
    };
    let l = parse_annotated(input).unwrap();
    assert_eq!(l.num_bits, 32);
    match &l.fields[0] {
        FieldKind::Regular { ident, field } => {
            assert_eq!(ident, "x");
            assert_eq!((field.bit_range.start, field.bit_range.end), (24, 31));
            assert_eq!(field.serialization_wrappers[1], SerializationWrapper::Endianness(IntegerEndianness::Msb));
        },
        FieldKind::Array { .. } => panic!("expected a scalar"),
    }
}

#[test]
fn annotated_scope_errors() {
    let wrong_on_field = AnnotatedStruct {
        annotations: vec![],
        fields: vec![AnnotatedField {
            name: "x".to_string(),
            ty: FieldType::Path(TypeDesc { ident: "u8".to_string(), generic_args: vec![] }),
            annotations: vec![tagged("packed_struct", vec![])],
        }],
        has_generics: false,
    };
    assert_eq!(describe_struct(wrong_on_field).unwrap_err().kind, ConfigErrorKind::WrongAttribute);
    let wrong_on_record = AnnotatedStruct {
        annotations: vec![tagged("packed_field", vec![])],
        fields: vec![],
        has_generics: false,
    };
    assert_eq!(describe_struct(wrong_on_record).unwrap_err().kind, ConfigErrorKind::WrongAttribute);
}

#[test]
fn describe_keeps_fields_in_order() {
    let input = AnnotatedStruct {
        annotations: vec![tagged("packed_struct", vec![item("bit_numbering", "msb0")])],
        fields: vec![u8_field("a", vec![]), u8_field("b", vec![item("bits", "8..15")]), u8_field("c", vec![])],
        has_generics: false,
    };
    let d = describe_struct(input).unwrap();
    let names: Vec<&str> = d.fields.iter().map(|f| f.name.as_str()).collect();
    assert_eq!(names, vec!["a", "b", "c"]);
    assert!(d.fields[0].attrs.is_empty());
    assert_eq!(d.fields[1].attrs, vec![PackFieldAttribute::BitPosition(BitsPositionParsed::Range(8, 15))]);
    assert!(matches!(d.attrs[0], PackStructAttribute::BitNumbering(BitNumbering::Msb0)));
}
