use docling_backends::document::{CaptionParent, ContentLayer, Node, Script, Table};
use docling_backends::pages::{
    authored, clean, emit, entry_at, label_for_style, runs_for, script_of, split_paragraphs, trim,
    unique_paragraphs, Block, Comment, Content, Formatting, Label, ListLabel, ListStyle, Paragraph,
    Run, StorageRuns, LABEL_TYPE_NONE, LABEL_TYPE_NUMBER, LABEL_TYPE_STRING,
};

fn chars(s: &str) -> Vec<char> {
    s.chars().collect()
}

fn text_of(v: &[char]) -> String {
    v.iter().collect()
}

fn no_runs() -> StorageRuns {
    StorageRuns {
        styles: vec![],
        characters: vec![],
        lists: vec![],
        depths: vec![],
        links: vec![],
    }
}

fn plain_table(rows: Vec<Vec<String>>) -> Table {
    Table {
        rows,
        structure: None,
        cell_blocks: None,
        caption: None,
        caption_parent: CaptionParent::Body,
    }
}

fn table_text(t: &Table) -> String {
    let rows: Vec<Vec<String>> = t
        .rows
        .iter()
        .map(|r| r.iter().map(|c| c.replace('\n', " ")).collect())
        .collect();
    let cols = rows.iter().map(|r| r.len()).max().unwrap_or(0);
    let cell = |i: usize, c: usize| rows[i].get(c).map_or("", |s| s.as_str()).to_string();
    let width = |c: usize| {
        (0..rows.len())
            .map(|i| cell(i, c).chars().count() + if i == 0 { 2 } else { 0 })
            .max()
            .unwrap_or(0)
    };
    let numeric = |c: usize| {
        rows.len() > 1 && (1..rows.len()).all(|i| cell(i, c).trim().parse::<f64>().is_ok())
    };
    let mut lines: Vec<String> = Vec::new();
    for i in 0..rows.len() {
        let cells: Vec<String> = (0..cols)
            .map(|c| {
                if numeric(c) {
                    format!(" {:>w$} ", cell(i, c), w = width(c))
                } else {
                    format!(" {:<w$} ", cell(i, c), w = width(c))
                }
            })
            .collect();
        lines.push(format!("|{}|", cells.join("|")));
        if i == 0 {
            let rules: Vec<String> = (0..cols).map(|c| "-".repeat(width(c) + 2)).collect();
            lines.push(format!("|{}|", rules.join("|")));
        }
    }
    lines.join("\n")
}

fn block_text(n: &Node) -> Option<String> {
    match n {
        Node::Heading { level, text } => Some(format!("{} {}", "#".repeat(*level as usize), text)),
        Node::Paragraph { text } => Some(text.clone()),
        Node::Inline { text, .. } => Some(text.clone()),
        Node::ListItem { ordered, number, text, level, .. } => {
            let mark = if *ordered { format!("{number}.") } else { "-".to_string() };
            Some(format!("{}{} {}", "    ".repeat(*level as usize), mark, text))
        }
        Node::Table(t) => {
            let body = table_text(t);
            Some(match &t.caption {
                Some(c) => format!("{c}\n\n{body}"),
                None => body,
            })
        }
        Node::Picture { caption, .. } => Some(match caption {
            Some(c) => format!("{c}\n\n<!-- image -->"),
            None => "<!-- image -->".to_string(),
        }),
        Node::Formula { latex, .. } => Some(format!("$${latex}$$")),
        Node::Code { text, .. } => Some(format!("```\n{text}\n```")),
        Node::Caption { text, href } => Some(match href {
            Some(h) => format!("[{text}]({h})"),
            None => text.clone(),
        }),
        Node::FieldRegion { items } => {
            let parts: Vec<String> = items
                .iter()
                .flat_map(|f| [f.marker.clone(), f.key.clone(), f.value.clone()])
                .flatten()
                .collect();
            Some(parts.join("\n\n"))
        }
        Node::CheckboxItem { checked, text } => {
            Some(format!("- [{}] {}", if *checked { "x" } else { " " }, text))
        }
        Node::Located { inner, .. } | Node::Commented { inner, .. } => block_text(inner),
        Node::TextDump(t) => Some(t.clone()),
        _ => None,
    }
}

fn continues_list(n: &Node) -> bool {
    match n {
        Node::ListItem { first_in_list, level, .. } => !*first_in_list || *level > 0,
        Node::Located { inner, .. } => continues_list(inner),
        _ => false,
    }
}

fn markdown(nodes: &[Node]) -> String {
    let mut out = String::new();
    for n in nodes {
        if let Some(t) = block_text(n) {
            if !out.is_empty() {
                out.push_str(if continues_list(n) { "\n" } else { "\n\n" });
            }
            out.push_str(&t);
        }
    }
    if !out.is_empty() {
        out.push('\n');
    }
    out
}

#[test]
fn style_names_map_to_labels_like_docling() {
    for (name, want) in [
        (Some("Title"), Label::Title),
        (Some("Heading 1"), Label::Heading(1)),
        (Some("Heading 2"), Label::Heading(2)),
        (Some("Heading"), Label::Heading(1)),
        (Some("heading 9"), Label::Heading(6)),
        (Some("Subheading"), Label::Heading(2)),
        (Some("Subtitle"), Label::Heading(2)),
        (Some("Body"), Label::Text),
        (Some("Free Form"), Label::Text),
        (Some("Footnote Text"), Label::Text),
        (Some("Heading one"), Label::Text),
        (None, Label::Text),
    ] {
        assert_eq!(label_for_style(name), want, "{name:?}");
    }
}

#[test]
fn paragraph_split_follows_style_runs() {
    let runs = StorageRuns {
        styles: vec![(0, Some(chars("Title"))), (6, Some(chars("Body")))],
        ..no_runs()
    };
    let paras = split_paragraphs(&chars("Titl\u{FFFC}e\n\nBödy one\nBody two"), &runs);
    let got: Vec<(String, Label)> = paras
        .iter()
        .map(|p| (text_of(&p.text()), p.label))
        .collect();
    assert_eq!(
        got,
        vec![
            ("Title".to_string(), Label::Title),
            ("Bödy one".to_string(), Label::Text),
            ("Body two".to_string(), Label::Text),
        ]
    );
}

#[test]
fn runs_keep_their_boundary_spaces_and_trim_only_the_ends() {
    let bold = Formatting::build(true, false, false, false, None);
    let runs = StorageRuns {
        characters: vec![(0, None), (4, bold), (8, None)],
        links: vec![(14, Some(chars("https://x.y/"))), (18, None)],
        ..no_runs()
    };
    let got = runs_for(&chars("see bold word here!  "), 0, &runs);
    assert_eq!(
        got,
        vec![
            Run::plain("see "),
            Run { text: chars("bold"), fmt: bold, link: None },
            Run::plain(" word "),
            Run { text: chars("here"), fmt: None, link: Some(chars("https://x.y/")) },
            Run::plain("!"),
        ]
    );
    assert!(runs_for(&chars("   "), 0, &runs).is_empty());
}

#[test]
fn list_styles_label_each_depth() {
    let style = ListStyle {
        label_types: vec![LABEL_TYPE_STRING, LABEL_TYPE_NUMBER, 1, LABEL_TYPE_NONE],
        strings: vec![chars("•"), vec![], vec![]],
    };
    assert_eq!(
        style.label(0),
        Some(ListLabel { depth: 0, enumerated: false, marker: chars("•") })
    );
    assert_eq!(
        style.label(1),
        Some(ListLabel { depth: 1, enumerated: true, marker: vec![] })
    );
    assert_eq!(style.label(2).map(|l| l.marker), Some(chars("-")));
    assert_eq!(style.label(3), None);
    assert_eq!(style.label(9), None);
}

#[test]
fn emission_mirrors_the_upstream_convert() {
    let bold = Formatting::build(true, false, false, false, None);
    let mut para = Paragraph::new(
        vec![
            Run::plain("Plain "),
            Run { text: chars("bold"), fmt: bold, link: None },
        ],
        Label::Text,
    );
    para.anchors = vec![chars("a1")];
    let item = |text: &str, depth: usize, enumerated: bool| {
        let mut p = Paragraph::new(vec![Run::plain(text)], Label::Text);
        p.list = Some(ListLabel {
            depth,
            enumerated,
            marker: if enumerated { vec![] } else { chars("•") },
        });
        p
    };
    let content = Content {
        blocks: vec![
            Block::Paragraph(Paragraph::new(vec![Run::plain("T")], Label::Title)),
            Block::Paragraph(para),
            Block::Paragraph(Paragraph::new(
                vec![Run { text: chars("all bold"), fmt: bold, link: None }],
                Label::Text,
            )),
            Block::Paragraph(item("one", 0, true)),
            Block::Paragraph(item("two", 0, true)),
            Block::Paragraph(item("deep", 1, false)),
            Block::Table(plain_table(vec![vec!["c".to_string()]])),
            Block::Paragraph(item("again", 0, false)),
        ],
        headers: vec![Paragraph::new(vec![Run::plain("HEAD")], Label::Text)],
        footers: vec![],
        footnotes: vec![],
        comments: vec![Comment { text: chars("note"), anchor: chars("a1") }],
    };
    let nodes = emit(&content);
    assert_eq!(
        markdown(&nodes),
        "# T\n\nPlain  **bold**\n\n**all bold**\n\n1. one\n2. two\n    - deep\n\n| c   |\n|-----|\n\n- again\n"
    );
    assert!(matches!(&nodes[1], Node::Commented { comments, .. } if comments == &[0]));
    assert!(matches!(
        &nodes[2],
        Node::Inline { runs, .. } if runs.len() == 1 && runs[0].bold
    ));
    assert!(matches!(nodes.last(), Some(Node::Comment { text }) if text == "note"));
    let comments = nodes
        .iter()
        .filter(|n| matches!(n, Node::Comment { .. }))
        .count();
    assert_eq!(comments, 1);
    let furniture: Vec<&Node> = nodes
        .iter()
        .filter(|n| matches!(n, Node::Furniture { layer: ContentLayer::Furniture, .. }))
        .collect();
    assert_eq!(furniture.len(), 1);
}

#[test]
fn scripts_follow_their_numbers() {
    assert_eq!(script_of(0), None);
    assert_eq!(script_of(1), Some(Script::Super));
    assert_eq!(script_of(2), Some(Script::Sub));
    assert_eq!(Formatting::build(false, false, false, false, None), None);
}

#[test]
fn the_last_entry_at_or_before_an_index_is_in_force() {
    let table = vec![(2usize, 'a'), (5, 'b'), (5, 'c'), (9, 'd')];
    assert_eq!(entry_at(&table, 1), None);
    assert_eq!(entry_at(&table, 2), Some(0));
    assert_eq!(entry_at(&table, 5), Some(2));
    assert_eq!(entry_at(&table, 8), Some(2));
    assert_eq!(entry_at(&table, 9), Some(3));
}

#[test]
fn repeated_furniture_is_kept_once() {
    let p = |s: &str| Paragraph::new(vec![Run::plain(s)], Label::Text);
    let got = unique_paragraphs(vec![p("a"), p("b"), p("a"), p("c"), p("b")]);
    let texts: Vec<String> = got.iter().map(|p| text_of(&p.text())).collect();
    assert_eq!(texts, vec!["a", "b", "c"]);
}

#[test]
fn comments_name_their_author() {
    assert_eq!(text_of(&authored(&None, &chars("hi"))), "hi");
    assert_eq!(text_of(&authored(&Some(chars("Ann")), &chars("hi"))), "[author: Ann]: hi");
}

#[test]
fn attachments_leave_no_trace() {
    assert_eq!(text_of(&clean(&chars("a\u{FFFC}b"))), "ab");
}

#[test]
fn headings_have_a_level_from_one_to_six() {
    assert_eq!(label_for_style(Some("Heading 0")), Label::Heading(1));
    assert_eq!(label_for_style(Some("Heading 00")), Label::Heading(1));
    assert_eq!(label_for_style(Some("Heading 99")), Label::Heading(6));
}

#[test]
fn an_item_closes_the_lists_below_it() {
    let item = |depth: usize| {
        let mut p = Paragraph::new(vec![Run::plain("x")], Label::Text);
        p.list = Some(ListLabel { depth, enumerated: true, marker: vec![] });
        Block::Paragraph(p)
    };
    let content = Content {
        blocks: vec![item(0), item(1), item(1), item(0), item(1)],
        headers: vec![],
        footers: vec![],
        footnotes: vec![],
        comments: vec![],
    };
    let numbers: Vec<u64> = emit(&content)
        .iter()
        .map(|n| match n {
            Node::ListItem { number, .. } => *number,
            other => panic!("expected a list item, got {other:?}"),
        })
        .collect();
    assert_eq!(numbers, [1, 1, 2, 2, 1]);
}

#[test]
fn trimming_runs_trims_their_text() {
    let bold = Formatting::build(true, false, false, false, None);
    let run = |text: &str, fmt: Option<Formatting>| Run { text: chars(text), fmt, link: None };
    let text = |v: &[Run]| v.iter().flat_map(|r| r.text.clone()).collect::<String>();
    let runs = vec![
        run(" \t", bold),
        run(" a ", None),
        run("", bold),
        run(" ", bold),
        run("b\n", None),
        run("  ", bold),
    ];
    let once = trim(&runs);
    assert_eq!(text(&once), text(&runs).trim());
    assert_eq!(once, [run("a ", None), run(" ", bold), run("b", None)]);
    assert_eq!(trim(&once), once);
    assert!(trim(&vec![run(" ", None), run("", bold), run("\n", bold)]).is_empty());
    assert!(trim(&vec![]).is_empty());
}
