use docling_backends::pages::{Block, Label};
use docling_backends::pages_graph::{read_content, GraphError};
use docling_backends::pages_iwa::{storage_runs, Archive};
use docling_backends::wire::{
    fields, first_bytes, first_varint, reference_field, reference_list, Value,
};

fn varint(mut n: u64) -> Vec<u8> {
    let mut out = Vec::new();
    while n >= 0x80 {
        out.push((n % 0x80) as u8 | 0x80);
        n /= 0x80;
    }
    out.push(n as u8);
    out
}

fn number(field: u64, n: u64) -> Vec<u8> {
    let mut out = varint(field << 3);
    out.extend(varint(n));
    out
}

fn bytes(field: u64, b: &[u8]) -> Vec<u8> {
    let mut out = varint((field << 3) | 2);
    out.extend(varint(b.len() as u64));
    out.extend_from_slice(b);
    out
}

fn reference(field: u64, id: u64) -> Vec<u8> {
    bytes(field, &number(1, id))
}

fn archive(id: u64, ty: u32, parts: &[Vec<u8>]) -> Archive {
    Archive { id, ty, payload: parts.concat() }
}

#[test]
fn fields_are_found_by_their_numbers() {
    let m = [number(1, 300), bytes(2, b"ab"), number(1, 7), reference(3, 9), reference(3, 10)]
        .concat();
    assert_eq!(fields(&m).len(), 5);
    assert!(matches!(fields(&m)[0].value, Value::Varint(300)));
    assert_eq!(first_varint(&m, 1), Some(300));
    assert_eq!(first_varint(&m, 2), None);
    assert_eq!(first_bytes(&m, 2), Some(&b"ab"[..]));
    assert_eq!(reference_field(&m, 3), Some(9));
    assert_eq!(reference_list(&m, 3), vec![9, 10]);
    assert_eq!(fields(&[0x0a, 0x05, 0x01]).len(), 0);
}

#[test]
fn the_body_becomes_paragraphs() {
    let style = |name: &str| bytes(1, &bytes(1, name.as_bytes()));
    let entry = |at: u64, id: u64| bytes(1, &[number(1, at), reference(2, id)].concat());
    let v = vec![
        archive(1, 10000, &[reference(4, 2)]),
        archive(
            2,
            2001,
            &[
                bytes(3, "Head\nBody".as_bytes()),
                bytes(5, &[entry(0, 3), entry(5, 4)].concat()),
            ],
        ),
        archive(3, 2022, &[style("Title")]),
        archive(4, 2022, &[style("Body")]),
    ];
    let content = match read_content(&v) {
        Ok(c) => c,
        Err(e) => panic!("{e:?}"),
    };
    let got: Vec<(String, Label)> = content
        .blocks
        .iter()
        .map(|b| match b {
            Block::Paragraph(p) => (p.text().iter().collect(), p.label),
            other => panic!("paragraph expected, got {other:?}"),
        })
        .collect();
    assert_eq!(
        got,
        vec![
            ("Head".to_string(), Label::Title),
            ("Body".to_string(), Label::Text),
        ]
    );
    let runs = storage_runs(&v, &v[1].payload);
    assert_eq!(runs.styles.len(), 2);
    assert_eq!(runs.styles[1].0, 5);
}

#[test]
fn each_graph_error_has_its_objects() {
    assert_eq!(read_content(&vec![]).err(), Some(GraphError::NoDocument));
    let alone = vec![archive(1, 10000, &[reference(4, 2)])];
    assert_eq!(read_content(&alone).err(), Some(GraphError::NoBody));
}
