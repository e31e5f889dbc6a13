use std::io::Write;

use docling_backends::abw::{convert_text, AbwBackend, AbwError};
use docling_backends::document::{Node, Table};

fn table_text(t: &Table) -> String {
    let rows: Vec<Vec<String>> = t
        .rows
        .iter()
        .map(|r| r.iter().map(|c| c.replace('\n', " ")).collect())
        .collect();
    let cols = rows.iter().map(|r| r.len()).max().unwrap_or(0);
    let cell = |i: usize, c: usize| rows[i].get(c).map_or("", |s| s.as_str()).to_string();
    let width = |c: usize| {
        (0..rows.len())
            .map(|i| cell(i, c).chars().count() + if i == 0 { 2 } else { 0 })
            .max()
            .unwrap_or(0)
    };
    let numeric = |c: usize| {
        rows.len() > 1 && (1..rows.len()).all(|i| cell(i, c).trim().parse::<f64>().is_ok())
    };
    let mut lines: Vec<String> = Vec::new();
    for i in 0..rows.len() {
        let cells: Vec<String> = (0..cols)
            .map(|c| {
                if numeric(c) {
                    format!(" {:>w$} ", cell(i, c), w = width(c))
                } else {
                    format!(" {:<w$} ", cell(i, c), w = width(c))
                }
            })
            .collect();
        lines.push(format!("|{}|", cells.join("|")));
        if i == 0 {
            let rules: Vec<String> = (0..cols).map(|c| "-".repeat(width(c) + 2)).collect();
            lines.push(format!("|{}|", rules.join("|")));
        }
    }
    lines.join("\n")
}

fn block_text(n: &Node) -> Option<String> {
    match n {
        Node::Heading { level, text } => Some(format!("{} {}", "#".repeat(*level as usize), text)),
        Node::Paragraph { text } => Some(text.clone()),
        Node::Inline { text, .. } => Some(text.clone()),
        Node::ListItem { ordered, number, text, level, .. } => {
            let mark = if *ordered { format!("{number}.") } else { "-".to_string() };
            Some(format!("{}{} {}", "    ".repeat(*level as usize), mark, text))
        }
        Node::Table(t) => {
            let body = table_text(t);
            Some(match &t.caption {
                Some(c) => format!("{c}\n\n{body}"),
                None => body,
            })
        }
        Node::Picture { caption, .. } => Some(match caption {
            Some(c) => format!("{c}\n\n<!-- image -->"),
            None => "<!-- image -->".to_string(),
        }),
        Node::Formula { latex, .. } => Some(format!("$${latex}$$")),
        Node::Code { text, .. } => Some(format!("```\n{text}\n```")),
        Node::Caption { text, href } => Some(match href {
            Some(h) => format!("[{text}]({h})"),
            None => text.clone(),
        }),
        Node::FieldRegion { items } => {
            let parts: Vec<String> = items
                .iter()
                .flat_map(|f| [f.marker.clone(), f.key.clone(), f.value.clone()])
                .flatten()
                .collect();
            Some(parts.join("\n\n"))
        }
        Node::CheckboxItem { checked, text } => {
            Some(format!("- [{}] {}", if *checked { "x" } else { " " }, text))
        }
        Node::Located { inner, .. } | Node::Commented { inner, .. } => block_text(inner),
        Node::TextDump(t) => Some(t.clone()),
        _ => None,
    }
}

fn continues_list(n: &Node) -> bool {
    match n {
        Node::ListItem { first_in_list, level, .. } => !*first_in_list || *level > 0,
        Node::Located { inner, .. } => continues_list(inner),
        _ => false,
    }
}

fn markdown(nodes: &[Node]) -> String {
    let mut out = String::new();
    for n in nodes {
        if let Some(t) = block_text(n) {
            if !out.is_empty() {
                out.push_str(if continues_list(n) { "\n" } else { "\n\n" });
            }
            out.push_str(&t);
        }
    }
    if !out.is_empty() {
        out.push('\n');
    }
    out
}

fn convert(xml: &str) -> Vec<Node> {
    AbwBackend.convert(xml.as_bytes(), Some(xml)).unwrap()
}

fn gzip(data: &[u8]) -> Vec<u8> {
    let mut enc = flate2::write::GzEncoder::new(Vec::new(), flate2::Compression::fast());
    enc.write_all(data).unwrap();
    enc.finish().unwrap()
}

#[test]
fn styles_runs_lists_and_links_map() {
    let xml = r#"<abiword xmlns:xlink="http://www.w3.org/1999/xlink"><section>
            <p style="Title">Der Titel</p>
            <p style="heading 1">Abschnitt</p>
            <p>Mit <c props="font-weight:bold">fettem</c> und <c props="font-style:italic">kursivem</c> Text
               und einem <a xlink:href="https://example.org"><c>Link</c></a>.</p>
            <p listid="7" level="0" style="List Bullet"><field type="list_label"></field><c type="list_label">	Erster Punkt</c></p>
            <p listid="9" level="0" style="List Number"><field type="list_label"></field><c type="list_label">	Nummer eins</c></p>
            <p listid="9" level="0" style="List Number"><field type="list_label"></field><c type="list_label">	Nummer zwei</c></p>
        </section></abiword>"#;
    let md = markdown(&convert(xml));
    assert!(md.contains("# Der Titel"), "{md}");
    assert!(md.contains("## Abschnitt"), "{md}");
    assert!(md.contains("**fettem**"), "{md}");
    assert!(md.contains("*kursivem*"), "{md}");
    assert!(md.contains("[Link](https://example.org)"), "{md}");
    assert!(md.contains("- Erster Punkt"), "label tab stripped:\n{md}");
    assert!(md.contains("1. Nummer eins"), "{md}");
    assert!(md.contains("2. Nummer zwei"), "per-list numbering:\n{md}");
}

#[test]
fn attach_grid_tables_with_spans() {
    let xml = r#"<abiword><section><table>
            <cell props="left-attach:0; right-attach:2; top-attach:0; bot-attach:1"><p>Breit</p></cell>
            <cell props="left-attach:2; right-attach:3; top-attach:0; bot-attach:1"><p>C</p></cell>
            <cell props="left-attach:0; right-attach:1; top-attach:1; bot-attach:2"><p>a</p></cell>
            <cell props="left-attach:1; right-attach:2; top-attach:1; bot-attach:2"><p>b</p></cell>
            <cell props="left-attach:2; right-attach:3; top-attach:1; bot-attach:2"><p>c</p></cell>
        </table></section></abiword>"#;
    let nodes = convert(xml);
    let Node::Table(t) = &nodes[0] else {
        panic!("table expected");
    };
    assert_eq!(
        t.rows,
        vec![
            vec!["Breit".to_string(), "Breit".into(), "C".into()],
            vec!["a".to_string(), "b".into(), "c".into()],
        ],
        "span text replicated docling-style"
    );
}

#[test]
fn zabw_gzip_unwraps_and_header_sections_drop() {
    let xml = r#"<abiword><section type="header"><p>Kopfzeile</p></section>
            <section><p>Nur der Inhalt.</p></section></abiword>"#;
    let nodes = AbwBackend.convert(&gzip(xml.as_bytes()), None).unwrap();
    let md = markdown(&nodes);
    assert!(md.contains("Nur der Inhalt."), "{md}");
    assert!(!md.contains("Kopfzeile"), "furniture dropped:\n{md}");
}

#[test]
fn each_abiword_error_has_its_file() {
    assert!(matches!(
        AbwBackend.convert(&[0x1f, 0x8b, 0, 0], None),
        Err(AbwError::Gzip)
    ));
    assert!(matches!(
        AbwBackend.convert(&gzip(&[0xff, 0xfe, 0xfd]), None),
        Err(AbwError::Gzip) | Err(AbwError::NotText)
    ));
    assert!(matches!(
        AbwBackend.convert(&[0xff, 0xfe], None),
        Err(AbwError::NotText)
    ));
    assert!(matches!(convert_text("<abiword>"), Err(AbwError::Xml(_))));
    assert!(matches!(convert_text("<html/>"), Err(AbwError::NotAbiWord)));
}

#[test]
fn subtitles_are_headings_of_the_second_level() {
    let nodes = convert(r#"<abiword><section><p style="Subtitle">Sub</p></section></abiword>"#);
    assert_eq!(nodes, vec![Node::Heading { level: 2, text: "Sub".to_string() }]);
}
