use docling_backends::document::Node;
use docling_backends::ebcdic::{
    decode_char, decode_int_like, decode_value, default_encoding, default_record_name,
    scale_decimal, Codec, EbcdicBackend, EbcdicError, FieldDef, FieldType, Layout, LayoutError,
    LayoutSource, RecordLayout,
};

#[test]
fn decimal_rendering_matches_python() {
    assert_eq!(scale_decimal("0", false, 0), "0");
    assert_eq!(scale_decimal("0", false, 4), "0.0000");
    assert_eq!(scale_decimal("12345", false, 2), "123.45");
    assert_eq!(scale_decimal("12345", true, 2), "-123.45");
    assert_eq!(scale_decimal("5", false, 4), "0.0005");
    assert_eq!(scale_decimal("0", false, 7), "0E-7");
    assert_eq!(scale_decimal("5", true, 7), "-5E-7");
    assert_eq!(scale_decimal("52", false, 7), "0.0000052");
    assert_eq!(scale_decimal("007", false, 1), "0.7");
}

fn field(name: &str, size: usize, kind: FieldType, scale: u32) -> FieldDef {
    FieldDef { name: name.to_string(), size, kind, scale }
}

fn layout(fields: Vec<FieldDef>) -> Layout {
    Layout {
        records: vec![RecordLayout { fields, name: default_record_name(), selector: None }],
        description: String::new(),
        header_size: 0,
        footer_size: 0,
        record_length_field: None,
        record_type_field: None,
        encoding: default_encoding(),
    }
}

fn rows(nodes: &[Node]) -> Vec<Vec<String>> {
    nodes
        .iter()
        .find_map(|n| match n {
            Node::Table(t) => Some(t.rows.clone()),
            _ => None,
        })
        .expect("a table")
}

#[test]
fn fields_are_read_by_their_type() {
    let l = layout(vec![
        field("NAME", 3, FieldType::String, 0),
        field("GAP", 1, FieldType::Skip, 0),
        field("N", 2, FieldType::Integer, 0),
        field("P", 2, FieldType::PackedDecimal, 1),
        field("Z", 2, FieldType::ZonedDecimal, 0),
    ]);
    let data = [
        0xc1, 0xc2, 0x40, 0xff, 0xff, 0xfe, 0x12, 0x3d, 0xf4, 0xd5,
    ];
    let nodes = EbcdicBackend { layout: None }.convert(&l, &data).unwrap();
    assert_eq!(
        rows(&nodes),
        vec![
            vec!["NAME".to_string(), "N".to_string(), "P".to_string(), "Z".to_string()],
            vec!["AB".to_string(), "-2".to_string(), "-12.3".to_string(), "-45".to_string()],
        ]
    );
}

#[test]
fn record_types_pick_their_schema() {
    let l = Layout {
        records: vec![
            RecordLayout {
                fields: vec![field("A", 1, FieldType::String, 0)],
                name: "first".to_string(),
                selector: Some("1".to_string()),
            },
            RecordLayout {
                fields: vec![field("B", 2, FieldType::String, 0)],
                name: "second".to_string(),
                selector: Some("2".to_string()),
            },
        ],
        record_type_field: Some(field("T", 1, FieldType::String, 0)),
        description: "Two kinds".to_string(),
        ..layout(vec![])
    };
    let backend = EbcdicBackend { layout: None };
    let nodes = backend.convert(&l, &[0xf2, 0xc2, 0xc3, 0xf1, 0xc1]).unwrap();
    assert_eq!(nodes[0], Node::Paragraph { text: "Two kinds".to_string() });
    assert_eq!(nodes[1], Node::Heading { level: 2, text: "first".to_string() });
    assert_eq!(nodes[3], Node::Heading { level: 2, text: "second".to_string() });
    assert!(matches!(
        backend.convert(&l, &[0xf9, 0xc1]),
        Err(EbcdicError::NoSchema { .. })
    ));
}

#[test]
fn each_ebcdic_error_has_its_data() {
    let backend = EbcdicBackend { layout: None };
    let of = |l: &Layout, d: &[u8]| backend.convert(l, d).unwrap_err();
    let none = Layout { records: vec![], ..layout(vec![]) };
    assert_eq!(of(&none, &[]), EbcdicError::Layout(LayoutError::NoRecords));
    assert_eq!(of(&layout(vec![]), &[]), EbcdicError::Layout(LayoutError::NoFields));
    let empty = layout(vec![field("A", 0, FieldType::String, 0)]);
    assert_eq!(of(&empty, &[]), EbcdicError::Layout(LayoutError::EmptyField));
    let one = || vec![field("A", 2, FieldType::PackedDecimal, 0)];
    let odd = Layout { encoding: "latin1".to_string(), ..layout(one()) };
    assert_eq!(of(&odd, &[]), EbcdicError::Codec("latin1".to_string()));
    assert!(matches!(
        of(&layout(one()), &[0x12]),
        EbcdicError::Truncated { left: 1, size: 2, .. }
    ));
    assert!(matches!(
        of(&layout(one()), &[0xab, 0xcd]),
        EbcdicError::Undecodable { .. }
    ));
    let short = Layout {
        record_length_field: Some(field("L", 2, FieldType::UnsignedInteger, 0)),
        ..layout(one())
    };
    assert!(matches!(
        of(&short, &[0, 1, 0, 0]),
        EbcdicError::ShortRecord { length: 1, prefix: 2 }
    ));
    assert_eq!(LayoutError::EmptyField.message(), "field sizes must be positive");
    let two = |selectors: [Option<&str>; 2], typed: bool| Layout {
        records: selectors
            .into_iter()
            .map(|s| RecordLayout {
                fields: one(),
                name: default_record_name(),
                selector: s.map(|s| s.to_string()),
            })
            .collect(),
        record_type_field: if typed {
            Some(field("T", 1, FieldType::String, 0))
        } else {
            None
        },
        ..layout(vec![])
    };
    assert_eq!(two([None, None], false).validate(), Err(LayoutError::NoTypeField));
    assert_eq!(two([Some("1"), None], true).validate(), Err(LayoutError::NoSelector));
    assert_eq!(
        two([Some("1"), Some("1")], true).validate(),
        Err(LayoutError::RepeatedSelector)
    );
    assert_eq!(two([Some("1"), Some("2")], true).validate(), Ok(()));
}

#[test]
fn numbers_and_characters_are_decoded() {
    let f = field("N", 2, FieldType::UnsignedInteger, 0);
    assert_eq!(decode_int_like(&[0xff, 0xfe], &f, Codec::Cp037), Ok(0xfffe));
    let f = field("N", 2, FieldType::UnsignedInteger, 2);
    assert_eq!(decode_value(&[0x01, 0x00], &f, Codec::Cp037), Ok("2.56".to_string()));
    assert_eq!(decode_char(Codec::Cp037, 0xc1), 'A');
    assert_eq!(decode_char(Codec::Cp037, 0x40), ' ');
    assert_eq!(decode_char(Codec::Cp037, 0xff), '\u{9f}');
    assert_eq!(decode_char(Codec::Cp037, 0x4a), '\u{a2}');
    assert_eq!(decode_char(Codec::Cp500, 0x4a), '[');
    assert_eq!(decode_char(Codec::Cp500, 0xbb), '|');
    assert_eq!(decode_char(Codec::Cp037, 0x9f), '\u{a4}');
    assert_eq!(decode_char(Codec::Cp1140, 0x9f), '\u{20ac}');
}

#[test]
fn layouts_come_from_where_the_option_says() {
    let of = |layout: Option<&str>| {
        EbcdicBackend { layout: layout.map(|s| s.to_string()) }.layout_source()
    };
    assert_eq!(of(None), LayoutSource::Sidecar);
    assert_eq!(of(Some(" {}")), LayoutSource::Inline(" {}".to_string()));
    assert_eq!(of(Some("a.json")), LayoutSource::Path("a.json".to_string()));
}

#[test]
fn the_widest_unsigned_numbers_are_not_negative() {
    let f = field("N", 16, FieldType::UnsignedInteger, 0);
    let mut d = [0u8; 16];
    d[0] = 0x80;
    assert_eq!(
        decode_value(&d, &f, Codec::Cp037),
        Ok("170141183460469231731687303715884105728".to_string())
    );
    assert!(decode_int_like(&d, &f, Codec::Cp037).is_err());
    let f = field("N", 16, FieldType::Integer, 0);
    assert_eq!(
        decode_value(&d, &f, Codec::Cp037),
        Ok("-170141183460469231731687303715884105728".to_string())
    );
    assert_eq!(decode_int_like(&d, &f, Codec::Cp037), Ok(i128::MIN));
}
