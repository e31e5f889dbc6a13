use docling_backends::chandra::{
    looks_like_chandra, nodes_for, parse_bbox, parse_chandra_pages, strip_tags, tidy_words,
};
use docling_backends::document::{ContentLayer, Node, Table};

fn table_text(t: &Table) -> String {
    let rows: Vec<Vec<String>> = t
        .rows
        .iter()
        .map(|r| r.iter().map(|c| c.replace('\n', " ")).collect())
        .collect();
    let cols = rows.iter().map(|r| r.len()).max().unwrap_or(0);
    let cell = |i: usize, c: usize| rows[i].get(c).map_or("", |s| s.as_str()).to_string();
    let width = |c: usize| {
        (0..rows.len())
            .map(|i| cell(i, c).chars().count() + if i == 0 { 2 } else { 0 })
            .max()
            .unwrap_or(0)
    };
    let numeric = |c: usize| {
        rows.len() > 1 && (1..rows.len()).all(|i| cell(i, c).trim().parse::<f64>().is_ok())
    };
    let mut lines: Vec<String> = Vec::new();
    for i in 0..rows.len() {
        let cells: Vec<String> = (0..cols)
            .map(|c| {
                if numeric(c) {
                    format!(" {:>w$} ", cell(i, c), w = width(c))
                } else {
                    format!(" {:<w$} ", cell(i, c), w = width(c))
                }
            })
            .collect();
        lines.push(format!("|{}|", cells.join("|")));
        if i == 0 {
            let rules: Vec<String> = (0..cols).map(|c| "-".repeat(width(c) + 2)).collect();
            lines.push(format!("|{}|", rules.join("|")));
        }
    }
    lines.join("\n")
}

fn block_text(n: &Node) -> Option<String> {
    match n {
        Node::Heading { level, text } => Some(format!("{} {}", "#".repeat(*level as usize), text)),
        Node::Paragraph { text } => Some(text.clone()),
        Node::Inline { text, .. } => Some(text.clone()),
        Node::ListItem { ordered, number, text, level, .. } => {
            let mark = if *ordered { format!("{number}.") } else { "-".to_string() };
            Some(format!("{}{} {}", "    ".repeat(*level as usize), mark, text))
        }
        Node::Table(t) => {
            let body = table_text(t);
            Some(match &t.caption {
                Some(c) => format!("{c}\n\n{body}"),
                None => body,
            })
        }
        Node::Picture { caption, .. } => Some(match caption {
            Some(c) => format!("{c}\n\n<!-- image -->"),
            None => "<!-- image -->".to_string(),
        }),
        Node::Formula { latex, .. } => Some(format!("$${latex}$$")),
        Node::Code { text, .. } => Some(format!("```\n{text}\n```")),
        Node::Caption { text, href } => Some(match href {
            Some(h) => format!("[{text}]({h})"),
            None => text.clone(),
        }),
        Node::FieldRegion { items } => {
            let parts: Vec<String> = items
                .iter()
                .flat_map(|f| [f.marker.clone(), f.key.clone(), f.value.clone()])
                .flatten()
                .collect();
            Some(parts.join("\n\n"))
        }
        Node::CheckboxItem { checked, text } => {
            Some(format!("- [{}] {}", if *checked { "x" } else { " " }, text))
        }
        Node::Located { inner, .. } | Node::Commented { inner, .. } => block_text(inner),
        Node::TextDump(t) => Some(t.clone()),
        _ => None,
    }
}

fn continues_list(n: &Node) -> bool {
    match n {
        Node::ListItem { first_in_list, level, .. } => !*first_in_list || *level > 0,
        Node::Located { inner, .. } => continues_list(inner),
        _ => false,
    }
}

fn markdown(nodes: &[Node]) -> String {
    let mut out = String::new();
    for n in nodes {
        if let Some(t) = block_text(n) {
            if !out.is_empty() {
                out.push_str(if continues_list(n) { "\n" } else { "\n\n" });
            }
            out.push_str(&t);
        }
    }
    if !out.is_empty() {
        out.push('\n');
    }
    out
}

fn parse(content: &str) -> Vec<Node> {
    parse_chandra_pages(&vec![content.to_string()])
}

#[test]
fn br_tags_preserve_spacing() {
    let nodes = parse(r#"<div data-bbox="0 0 1000 1000" data-label="Text">Hello<br/>World</div>"#);
    assert_eq!(markdown(&nodes), "Hello World\n");
}

#[test]
fn blocks_become_nodes_on_the_grid() {
    let nodes = parse(
        "<div data-bbox=\"0 0 500 1000\" data-label=\"Section-Header\"><h2>Head</h2></div>\
         <div data-bbox=\"0 0 1 1\" data-label=\"Page-Header\">Run</div>\
         <div data-bbox=\"0 0 1 1\" data-label=\"Form\"><table><tr><td>a</td><td>b</td></tr></table></div>\
         <div data-bbox=\"0 0 1 1\" data-label=\"List-Group\"><ul><li>one</li><li>two</li></ul></div>\
         <div data-bbox=\"0 0 1 1\" data-label=\"Figure\"><img/></div>",
    );
    let md = markdown(&nodes);
    assert!(md.contains("Head"), "{md}");
    assert!(!md.contains("Run"), "{md}");
    assert!(md.contains("- one"), "{md}");
    assert!(md.contains("- two"), "{md}");
    assert!(nodes.iter().any(|n| matches!(
        n,
        Node::Located { inner, .. }
            if matches!(**inner, Node::Furniture { layer: ContentLayer::Furniture, .. })
    )));
    assert!(nodes.iter().any(|n| matches!(
        n,
        Node::Located { inner, .. } if matches!(**inner, Node::Table(_))
    )));
    assert!(nodes.iter().any(|n| matches!(
        n,
        Node::Located { inner, .. } if matches!(**inner, Node::Picture { .. })
    )));
}

#[test]
fn boxes_are_scaled_to_the_grid() {
    let b = parse_bbox("0 250 500 1000").unwrap();
    assert_eq!((b.left, b.top, b.right, b.bottom), (0, 128, 256, 511));
    assert!(parse_bbox("0 1 2").is_none());
    assert!(parse_bbox("a b c d").is_none());
}

#[test]
fn chandra_pages_are_told_by_their_attributes() {
    assert!(looks_like_chandra(
        "<div data-bbox=\"0 0 1 1\" data-label=\"Text\">x</div>"
    ));
    assert!(!looks_like_chandra("<div>plain</div>"));
}

#[test]
fn tags_are_stripped_and_words_tidied() {
    let text = |v: Vec<char>| v.iter().collect::<String>();
    assert_eq!(text(tidy_words("  a \n b ")), "a b");
    assert_eq!(text(strip_tags("<p>Hello<br>World</p>")), "Hello World");
    assert_eq!(nodes_for("Text", "<p>x</p>").len(), 1);
}

#[test]
fn other_pages_hold_no_block() {
    for page in ["", "<div>plain</div>", "# A heading\n\ntext"] {
        assert!(!looks_like_chandra(page));
        assert!(parse(page).is_empty(), "{page}");
    }
}
