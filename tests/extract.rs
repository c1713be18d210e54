use packed_layout::extract::{
    get_bytes_from_expr, get_string_from_expr, parse_sub_attributes, parse_sub_attributes_as_string, Annotation, Expr, Lit,
    Meta,
};
use packed_layout::field::ConfigErrorKind;
use packed_layout::layout::{Footer, Header};

fn nv(key: &str, value: Expr) -> Meta {
    Meta::NameValue(Some(key.to_string()), value)
}

fn text(s: &str) -> Expr {
    Expr::Lit(Lit::Str(s.to_string()))
}

fn integer(d: &str) -> Expr {
    Expr::Lit(Lit::Int(d.to_string()))
}

fn annotation(tag: &str, items: Vec<Meta>) -> Annotation {
    Annotation { tag: tag.to_string(), args: Some(items) }
}

#[test]
fn pairs_in_declaration_order() {
    let attrs = vec![
        annotation("packed_field", vec![nv("bits", text("0..7")), Meta::Path, nv("endian", text("lsb"))]),
        annotation("doc", vec![nv("ignored", text("x"))]),
        Annotation { tag: "packed_field".to_string(), args: None },
        annotation("packed_field", vec![Meta::List, nv("bits", text("8..15")), Meta::NameValue(None, text("y")), nv("size_bits", integer("4"))]),
    ];
    let pairs = parse_sub_attributes_as_string(&attrs, "packed_field", "packed_struct").unwrap();
    assert_eq!(
        pairs,
        vec![
            ("bits".to_string(), "0..7".to_string()),
            ("endian".to_string(), "lsb".to_string()),
            ("bits".to_string(), "8..15".to_string()),
            ("size_bits".to_string(), "".to_string()),
        ]
    );
    let raw = parse_sub_attributes(&attrs, "packed_field", "packed_struct").unwrap();
    assert_eq!(raw.len(), 4);
    assert_eq!(raw[3].key, "size_bits");
    assert!(matches!(&raw[3].value, Expr::Lit(Lit::Int(d)) if d == "4"));
}

#[test]
fn wrong_scope_tag_is_refused() {
    let attrs = vec![
        annotation("packed_field", vec![nv("bits", text("0..7"))]),
        annotation("packed_struct", vec![nv("size_bytes", text("2"))]),
        annotation("packed_struct", vec![]),
    ];
    let e = parse_sub_attributes(&attrs, "packed_field", "packed_struct").unwrap_err();
    assert_eq!(e.kind, ConfigErrorKind::WrongAttribute);
    assert_eq!(e.field, 1);
    assert!(parse_sub_attributes_as_string(&attrs, "packed_field", "packed_struct").is_err());
}

#[test]
fn string_literals_only() {
    assert_eq!(get_string_from_expr(&text("msb0")), Some("msb0".to_string()));
    assert_eq!(get_string_from_expr(&integer("3")), None);
    assert_eq!(get_string_from_expr(&Expr::Other), None);
}

#[test]
fn header_bytes_from_literals() {
    let e = Expr::Array(vec![Lit::Int("1".to_string()), Lit::Byte(0xFE), Lit::Int("300".to_string()), Lit::ByteStr(vec![7, 8]), Lit::Str("no".to_string())]);
    let mut bytes = vec![9u8];
    get_bytes_from_expr(&mut bytes, &e);
    assert_eq!(bytes, vec![9, 1, 0xFE, 7, 8]);
    match Header::from_expr(&e) {
        Some(Header::Bytes(b)) => assert_eq!(b, vec![1, 0xFE, 7, 8]),
        _ => panic!("expected header bytes"),
    }
    assert!(Header::from_expr(&text("abc")).is_none());
    assert!(Footer::from_expr(&Expr::Array(vec![])).is_none());
    match Footer::from_expr(&Expr::Lit(Lit::ByteStr(vec![0xAB]))) {
        Some(Footer::Bytes(b)) => assert_eq!(b, vec![0xAB]),
        _ => panic!("expected footer bytes"),
    }
}

#[test]
fn reserved_lengths() {
    assert!(matches!(Header::from_trait_expr(&integer("4")), Some(Header::Trait(4))));
    assert!(Header::from_trait_expr(&integer("0")).is_none());
    assert!(Header::from_trait_expr(&text("4")).is_none());
    assert!(matches!(Footer::from_trait_expr(&integer("12")), Some(Footer::Trait(12))));
    assert!(Footer::from_trait_expr(&integer("99999999999999999999999")).is_none());
}
