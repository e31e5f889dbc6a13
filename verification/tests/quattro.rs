use docling_backends::quattro::{
    double4, pascal, read_qpw, Content, QuattroBackend, QuattroError, Streams,
};
use docling_backends::sheet::{Cell, Num};

fn packed(raw: u32) -> f64 {
    let b = raw.to_le_bytes();
    let first = u32::from(b[0]);
    let low = f64::from(first & 0xfc) / 256.0 + f64::from(b[1]);
    let mant = (low / 256.0 + f64::from(0x10 + (u32::from(b[2]) & 0x0f))) / 16.0;
    let exp = (u32::from(b[2]) >> 4) + (u32::from(b[3]) << 4);
    let v = mant * 2f64.powi((exp & 0x7ff) as i32 - 0x3ff);
    let v = if exp & 0x800 != 0 { -v } else { v };
    if first & 1 != 0 { v / 100.0 } else { v }
}

fn value(n: &Num) -> f64 {
    match n {
        Num::Int(i) => *i as f64,
        Num::Double(bits) => f64::from_bits(*bits),
        Num::Packed(raw) => packed(*raw),
    }
}

fn number_text(v: f64) -> String {
    if v.fract() == 0.0 && v.abs() < 1e15 {
        format!("{}", v as i64)
    } else {
        format!("{v}")
    }
}

fn cell_text(c: &Cell) -> String {
    match c {
        Cell::Text(t) => t.clone(),
        Cell::Numeral(t) => t.parse::<f64>().map(number_text).unwrap_or(t.clone()),
        Cell::Number(n) => number_text(value(n)),
        Cell::Series { first, step, times } => {
            number_text(value(first) + *times as f64 * value(step))
        }
    }
}

fn texts(t: &[Vec<Cell>]) -> Vec<Vec<String>> {
    t.iter().map(|r| r.iter().map(cell_text).collect()).collect()
}

fn rec(op: u16, payload: &[u8]) -> Vec<u8> {
    let mut v = op.to_le_bytes().to_vec();
    v.extend_from_slice(&(payload.len() as u16).to_le_bytes());
    v.extend_from_slice(payload);
    v
}

fn md(d: Vec<u8>) -> String {
    let tables = QuattroBackend.convert(&Content::Plain(d)).unwrap();
    let mut out = String::new();
    for t in &tables {
        for r in texts(t) {
            out.push_str(&format!("| {} |\n", r.join(" | ")));
        }
        out.push('\n');
    }
    out
}

#[test]
fn wq1_cells_carry_a_format_byte_before_the_address() {
    let mut d = rec(0, &[0x20, 0x51]);
    d.extend(rec(
        0x0f,
        &[0x80, 0, 0, 0, 0, b'\'', 4, b'I', b't', b'e', b'm'],
    ));
    d.extend(rec(0x0d, &[0x80, 0, 0, 2, 0, 0xa1, 0x0f]));
    let mut p = vec![0x80, 1, 0, 2, 0];
    p.extend_from_slice(&2.5f64.to_le_bytes());
    d.extend(rec(0x0e, &p));
    d.extend(rec(
        0x0f,
        &[0x80, 0, 0, 1, 0, b'\'', 4, b'c', b'a', b'f', 0x82],
    ));
    d.extend(rec(1, &[]));
    let md = md(d);
    assert!(md.contains("| Item"), "{md}");
    assert!(md.contains("caf\u{e9}"), "{md}");
    assert!(md.contains("| 4001 | 2.5 |"), "{md}");
}

#[test]
fn wq2_cells_have_a_style_word_and_string_results() {
    let mut d = rec(0, &[0x21, 0x51]);
    d.extend(rec(
        0x0f,
        &[0, 0, 0, 0, 0x0f, 0xff, b'\'', 3, b'N', b'O', b':'],
    ));
    let mut p = vec![1, 0, 0, 0, 0, 5];
    p.extend_from_slice(&f64::NAN.to_le_bytes());
    p.extend_from_slice(&[0x1f, 0, 0, 0]);
    d.extend(rec(0x10, &p));
    d.extend(rec(0x33, &[1, 0, 0, 0, 0, 6, 3, b's', b'a', b'l']));
    d.extend(rec(0x0d, &[0, 1, 0, 0, 0x0f, 0xff, 7, 0]));
    d.extend(rec(1, &[]));
    let md = md(d);
    assert!(md.contains("| NO: | sal |"), "{md}");
    assert!(md.contains("| 7 |"), "{md}");
}

#[test]
fn wb1_records_mask_the_flag_bit_and_use_c_strings() {
    let mut d = rec(0, &[0x01, 0x10]);
    d.extend(rec(0x800f, &[0, 0, 0, 0, 1, 0, b'\'', b'X', 0, 0]));
    d.extend(rec(0x000d, &[0, 0, 1, 0, 2, 0, 10, 0]));
    d.extend(rec(1, &[]));
    let md = md(d);
    assert!(md.contains("| X |"), "{md}");
    assert!(md.contains("| 10 |"), "{md}");
}

#[test]
fn double4_decodes_integers_and_floats() {
    let of = |b: [u8; 4]| double4(u32::from_le_bytes(b)).map(|n| value(&n));
    assert_eq!(of(((5u32 << 2) | 2).to_le_bytes()), Some(5.0));
    let raw = (((-3i32) as u32 & 0x3fff_ffff) << 2) | 2;
    assert_eq!(of(raw.to_le_bytes()), Some(-3.0));
    assert_eq!(of([0, 0, 0, 0]), Some(0.0));
    assert_eq!(of([0, 0, 0xf0, 0x7f]), None);
    assert_eq!(of([0, 0, 0xf8, 0x3f]), Some(1.5));
    assert_eq!(of([1, 0, 0xf8, 0x3f]), Some(0.015));
}

#[test]
fn qpw_cells_resolve_strings_and_increments() {
    let mut d = Vec::new();
    let z = |id: u16, p: &[u8]| {
        let mut v = id.to_le_bytes().to_vec();
        v.extend_from_slice(&(p.len() as u16).to_le_bytes());
        v.extend_from_slice(p);
        v
    };
    let mut hdr = b"QPW9".to_vec();
    hdr.extend_from_slice(&[0, 0, 0, 0, 1, 0, 0, 0, 0, 0]);
    d.extend(z(1, &hdr));
    let mut strs = 2u32.to_le_bytes().to_vec();
    strs.extend_from_slice(&[1, 0, 0, 0, 0, 0, 0, 0]);
    for s in ["This", "That"] {
        strs.extend_from_slice(&(s.len() as u16).to_le_bytes());
        strs.push(0);
        strs.extend_from_slice(s.as_bytes());
    }
    d.extend(z(0x407, &strs));
    d.extend(z(0x601, &[0; 22]));
    d.extend(z(0xa01, &[0, 0, 0, 0, 0, 0, 0, 0, 0, 0]));
    let mut cells = 0u32.to_le_bytes().to_vec();
    cells.extend_from_slice(&1u32.to_le_bytes());
    cells.extend_from_slice(&[0x07, 1, 0, 0, 0]);
    d.extend(z(0xc01, &cells));
    d.extend(z(0xa01, &[1, 0, 0, 0, 0, 0, 0, 0, 0, 0]));
    let mut cells = 0u32.to_le_bytes().to_vec();
    cells.extend_from_slice(&5u32.to_le_bytes());
    cells.extend_from_slice(&[0x63, 3, 0, 10, 0, 10, 0]);
    cells.push(0x45);
    cells.extend_from_slice(&2u16.to_le_bytes());
    cells.extend_from_slice(&1.5f64.to_le_bytes());
    cells.extend_from_slice(&(-2.0f64).to_le_bytes());
    d.extend(z(0xc01, &cells));
    let tables = read_qpw(&d).tables();
    let g = texts(&tables[0]);
    assert_eq!(g[0][0], "This");
    assert_eq!(g[0][1], "10");
    assert_eq!(g[2][1], "30");
    assert_eq!(g[3][1], "1.5");
    assert_eq!(g[4][1], "-2");
    let whole = QuattroBackend.convert(&Content::Container(Some(Streams {
        main: None,
        native: Some(d),
    })));
    assert_eq!(whole, Ok(tables));
}

#[test]
fn each_quattro_error_has_its_file() {
    let of = |c: Content| QuattroBackend.convert(&c).unwrap_err();
    let streams = |main: Option<Vec<u8>>, native: Option<Vec<u8>>| {
        Content::Container(Some(Streams { main, native }))
    };
    assert_eq!(of(Content::Plain(vec![0, 0, 2])), QuattroError::TooShort);
    assert_eq!(of(Content::Plain(vec![1, 0, 2, 0, 0x20, 0x51])), QuattroError::NoBof);
    assert_eq!(of(Content::Plain(vec![0, 0, 2, 0, 0xff, 0xff])), QuattroError::NoBof);
    assert_eq!(of(Content::Container(None)), QuattroError::UnreadableContainer);
    assert_eq!(of(streams(None, None)), QuattroError::NoStream);
    assert_eq!(of(streams(Some(vec![9]), None)), QuattroError::NoBofInMainStream);
    assert_eq!(of(streams(None, Some(vec![9]))), QuattroError::NotQpw9);
    assert_eq!(
        QuattroError::TooShort.message(),
        "quattro: file too short"
    );
}

#[test]
fn a_pascal_string_ends_with_its_bytes() {
    assert_eq!(pascal(&[3, b'a', b'b', b'c', b'd'], false), "abc");
    assert_eq!(pascal(&[9, b'a', b'b'], false), "ab");
    assert_eq!(pascal(&[], false), "");
    assert_eq!(pascal(&[1, 0x82], true), "\u{e9}");
}

#[test]
fn an_infinite_formula_is_an_error() {
    let zone = |id: u16, p: &[u8]| rec(id, p);
    let mut d = vec![1, 0, 0x0e, 0];
    d.extend_from_slice(b"QPW9");
    d.extend_from_slice(&[0; 10]);
    d.extend(zone(0x601, &[0, 0]));
    d.extend(zone(0xa01, &[0, 0]));
    let mut cells = vec![0, 0, 0, 0, 2, 0, 0, 0];
    for v in [f64::INFINITY, 2.0] {
        cells.push(8);
        cells.extend_from_slice(&v.to_le_bytes());
        cells.extend_from_slice(&[0; 6]);
    }
    d.extend(zone(0xc01, &cells));
    let tables = read_qpw(&d).tables();
    assert_eq!(texts(&tables[0]), vec![vec!["ERR"], vec!["2"]]);
}

#[test]
fn an_infinite_step_of_formulas_is_an_error() {
    let column = |first: f64, step: f64| {
        let mut d = vec![1, 0, 0x0e, 0];
        d.extend_from_slice(b"QPW9");
        d.extend_from_slice(&[0; 10]);
        d.extend(rec(0x601, &[0, 0]));
        d.extend(rec(0xa01, &[0, 0]));
        let mut cells = vec![0, 0, 0, 0, 3, 0, 0, 0, 0x68, 3, 0];
        for v in [first, step] {
            cells.extend_from_slice(&v.to_le_bytes());
            cells.extend_from_slice(&[0; 6]);
        }
        d.extend(rec(0xc01, &cells));
        let tables = read_qpw(&d).tables();
        let rows = tables.first().map_or(vec![], |t| texts(t));
        rows.into_iter().map(|r| r[0].clone()).collect::<Vec<String>>()
    };
    assert_eq!(column(1.5, 2.0), ["1.5", "3.5", "5.5"]);
    assert_eq!(column(f64::NEG_INFINITY, 2.0), ["ERR", "ERR", "ERR"]);
    assert_eq!(column(1.5, f64::INFINITY), ["1.5", "ERR", "ERR"]);
    assert_eq!(column(1.5, f64::NAN), ["1.5", "1.5", "1.5"]);
    assert!(column(f64::NAN, 1.0).is_empty());
}
