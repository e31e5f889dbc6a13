use docling_backends::interchange::{
    convert_dbf, convert_dif, split_sylk, Converted, InterchangeBackend, InterchangeError,
};
use docling_backends::sheet::{Cell, Num};

fn packed(raw: u32) -> f64 {
    let b = raw.to_le_bytes();
    let first = u32::from(b[0]);
    let low = f64::from(first & 0xfc) / 256.0 + f64::from(b[1]);
    let mant = (low / 256.0 + f64::from(0x10 + (u32::from(b[2]) & 0x0f))) / 16.0;
    let exp = (u32::from(b[2]) >> 4) + (u32::from(b[3]) << 4);
    let v = mant * 2f64.powi((exp & 0x7ff) as i32 - 0x3ff);
    let v = if exp & 0x800 != 0 { -v } else { v };
    if first & 1 != 0 { v / 100.0 } else { v }
}

fn value(n: &Num) -> f64 {
    match n {
        Num::Int(i) => *i as f64,
        Num::Double(bits) => f64::from_bits(*bits),
        Num::Packed(raw) => packed(*raw),
    }
}

fn number_text(v: f64) -> String {
    if v.fract() == 0.0 && v.abs() < 1e15 {
        format!("{}", v as i64)
    } else {
        format!("{v}")
    }
}

fn cell_text(c: &Cell) -> String {
    match c {
        Cell::Text(t) => t.clone(),
        Cell::Numeral(t) => t.parse::<f64>().map(number_text).unwrap_or(t.clone()),
        Cell::Number(n) => number_text(value(n)),
        Cell::Series { first, step, times } => {
            number_text(value(first) + *times as f64 * value(step))
        }
    }
}

fn texts(t: &[Vec<Cell>]) -> Vec<Vec<String>> {
    t.iter().map(|r| r.iter().map(cell_text).collect()).collect()
}

fn convert(bytes: &[u8]) -> Result<Converted, InterchangeError> {
    InterchangeBackend.convert(std::str::from_utf8(bytes).ok(), bytes)
}

fn sheet(bytes: &[u8]) -> Vec<Vec<Vec<String>>> {
    match convert(bytes).unwrap() {
        Converted::Sheet(tables) => tables.iter().map(|t| texts(t)).collect(),
        Converted::Table(_) => panic!("sheet expected"),
    }
}

#[test]
fn dif_rows_numbers_and_strings() {
    let dif = "TABLE\n0,1\n\"S\"\nVECTORS\n0,2\n\"\"\nTUPLES\n0,2\n\"\"\nDATA\n0,0\n\"\"\n\
               -1,0\nBOT\n1,0\n\"Year\"\n1,0\n\"Ducks\"\n\
               -1,0\nBOT\n0,2019\nV\n0,1.5\nV\n\
               -1,0\nEOD\n";
    assert_eq!(
        sheet(dif.as_bytes()),
        vec![vec![
            vec!["Year".to_string(), "Ducks".to_string()],
            vec!["2019".to_string(), "1.5".to_string()],
        ]]
    );
}

#[test]
fn sylk_sticky_coordinates_and_escapes() {
    let slk = "ID;PCALCOOO32\nC;X1;Y1;K\"a;;b\"\nC;X2;K42\nC;X1;Y2;K\"c\"\nC;X2;K\"d\"\nE\n";
    let tables = sheet(slk.as_bytes());
    assert_eq!(tables.len(), 1);
    assert_eq!(
        tables[0],
        vec![
            vec!["a;b".to_string(), "42".to_string()],
            vec!["c".to_string(), "d".to_string()]
        ]
    );
}

fn dbf(record: u16) -> Vec<u8> {
    let mut f = vec![0x03u8, 99, 1, 1];
    f.extend(3u32.to_le_bytes());
    let header_len = 32 + 2 * 32 + 1;
    f.extend((header_len as u16).to_le_bytes());
    f.extend(record.to_le_bytes());
    f.extend([0u8; 20]);
    let mut field = |name: &[u8], kind: u8, width: u8| {
        let mut desc = [0u8; 32];
        desc[..name.len()].copy_from_slice(name);
        desc[11] = kind;
        desc[16] = width;
        f.extend(desc);
    };
    field(b"NAME", b'C', 5);
    field(b"BORN", b'D', 8);
    f.push(0x0D);
    f.extend(b" Ana  19991231");
    f.extend(b"*Del  20000101");
    f.extend(b" Bob  20010615");
    f
}

#[test]
fn dbf_fields_types_and_deleted_records() {
    let rows = match convert(&dbf(1 + 5 + 8)).unwrap() {
        Converted::Table(rows) => rows,
        Converted::Sheet(_) => panic!("table expected"),
    };
    assert_eq!(rows[0], vec!["NAME".to_string(), "BORN".to_string()]);
    assert_eq!(rows[1], vec!["Ana".to_string(), "1999-12-31".to_string()]);
    assert_eq!(rows[2], vec!["Bob".to_string(), "2001-06-15".to_string()]);
    assert_eq!(rows.len(), 3, "deleted record dropped");
}

#[test]
fn garbage_is_an_error_not_a_panic() {
    assert!(convert(b"random text").is_err());
}

fn refused(bytes: &[u8]) -> InterchangeError {
    match convert(bytes) {
        Err(e) => e,
        Ok(_) => panic!("an error expected"),
    }
}

#[test]
fn each_interchange_error_has_its_file() {
    assert_eq!(refused(b"random text"), InterchangeError::Unknown);
    assert_eq!(refused(b"TABLE\n0,1\n\"S\"\n"), InterchangeError::NoData);
    assert_eq!(refused(&dbf(99)), InterchangeError::RecordSize);
    let mut bare = vec![0x03u8, 99, 1, 1, 0, 0, 0, 0, 33, 0, 1, 0];
    bare.extend([0u8; 20]);
    bare.push(0x0D);
    assert_eq!(refused(&bare), InterchangeError::NoFields);
    assert_eq!(convert_dbf(&[3, 1, 1, 1]).unwrap_err(), InterchangeError::TruncatedHeader);
    assert_eq!(InterchangeError::NoData.message(), "dif: no DATA section");
    assert!(convert_dif(&vec![]).is_err());
}

#[test]
fn a_doubled_semicolon_stays_in_its_field() {
    let line: Vec<char> = "C;X1;;2;;;K3".chars().collect();
    let got: Vec<String> = split_sylk(&line).iter().map(|f| f.iter().collect()).collect();
    assert_eq!(got, vec!["C", "X1;2;", "K3"]);
}
