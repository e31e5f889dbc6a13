use docling_backends::document::{ContentLayer, Location, Node, Table};
use docling_backends::parse::parse_xml;
use docling_backends::pptx::{
    comment_authors, find_part, rel_target, rel_targets, slide_rids, slide_size, ChartPart,
    PptxBackend, Relation, SlideSource,
};
use docling_backends::slide::{
    list_kind, paragraph_text, shape_location, shapes_by_position, Geom, PhMap, Placeholder,
};
use docling_backends::tree::{self_and_descendants, Element};

fn table_text(t: &Table) -> String {
    let rows: Vec<Vec<String>> = t
        .rows
        .iter()
        .map(|r| r.iter().map(|c| c.replace('\n', " ")).collect())
        .collect();
    let cols = rows.iter().map(|r| r.len()).max().unwrap_or(0);
    let cell = |i: usize, c: usize| rows[i].get(c).map_or("", |s| s.as_str()).to_string();
    let width = |c: usize| {
        (0..rows.len())
            .map(|i| cell(i, c).chars().count() + if i == 0 { 2 } else { 0 })
            .max()
            .unwrap_or(0)
    };
    let numeric = |c: usize| {
        rows.len() > 1 && (1..rows.len()).all(|i| cell(i, c).trim().parse::<f64>().is_ok())
    };
    let mut lines: Vec<String> = Vec::new();
    for i in 0..rows.len() {
        let cells: Vec<String> = (0..cols)
            .map(|c| {
                if numeric(c) {
                    format!(" {:>w$} ", cell(i, c), w = width(c))
                } else {
                    format!(" {:<w$} ", cell(i, c), w = width(c))
                }
            })
            .collect();
        lines.push(format!("|{}|", cells.join("|")));
        if i == 0 {
            let rules: Vec<String> = (0..cols).map(|c| "-".repeat(width(c) + 2)).collect();
            lines.push(format!("|{}|", rules.join("|")));
        }
    }
    lines.join("\n")
}

fn block_text(n: &Node) -> Option<String> {
    match n {
        Node::Heading { level, text } => Some(format!("{} {}", "#".repeat(*level as usize), text)),
        Node::Paragraph { text } => Some(text.clone()),
        Node::Inline { text, .. } => Some(text.clone()),
        Node::ListItem { ordered, number, text, level, .. } => {
            let mark = if *ordered { format!("{number}.") } else { "-".to_string() };
            Some(format!("{}{} {}", "    ".repeat(*level as usize), mark, text))
        }
        Node::Table(t) => {
            let body = table_text(t);
            Some(match &t.caption {
                Some(c) => format!("{c}\n\n{body}"),
                None => body,
            })
        }
        Node::Picture { caption, .. } => Some(match caption {
            Some(c) => format!("{c}\n\n<!-- image -->"),
            None => "<!-- image -->".to_string(),
        }),
        Node::Formula { latex, .. } => Some(format!("$${latex}$$")),
        Node::Code { text, .. } => Some(format!("```\n{text}\n```")),
        Node::Caption { text, href } => Some(match href {
            Some(h) => format!("[{text}]({h})"),
            None => text.clone(),
        }),
        Node::FieldRegion { items } => {
            let parts: Vec<String> = items
                .iter()
                .flat_map(|f| [f.marker.clone(), f.key.clone(), f.value.clone()])
                .flatten()
                .collect();
            Some(parts.join("\n\n"))
        }
        Node::CheckboxItem { checked, text } => {
            Some(format!("- [{}] {}", if *checked { "x" } else { " " }, text))
        }
        Node::Located { inner, .. } | Node::Commented { inner, .. } => block_text(inner),
        Node::TextDump(t) => Some(t.clone()),
        _ => None,
    }
}

fn continues_list(n: &Node) -> bool {
    match n {
        Node::ListItem { first_in_list, level, .. } => !*first_in_list || *level > 0,
        Node::Located { inner, .. } => continues_list(inner),
        _ => false,
    }
}

fn markdown(nodes: &[Node]) -> String {
    let mut out = String::new();
    for n in nodes {
        if let Some(t) = block_text(n) {
            if !out.is_empty() {
                out.push_str(if continues_list(n) { "\n" } else { "\n\n" });
            }
            out.push_str(&t);
        }
    }
    if !out.is_empty() {
        out.push('\n');
    }
    out
}

fn named<'a>(root: &'a Element, tag: &str) -> Vec<&'a Element> {
    self_and_descendants(root)
        .into_iter()
        .filter(|e| e.tag == tag)
        .collect()
}

#[test]
fn a_shape_list_style_supplies_the_inherited_marker() {
    let xml = r#"<p:sp xmlns:p="p" xmlns:a="a"><p:txBody>
            <a:lstStyle>
              <a:lvl1pPr><a:buChar char="■"/></a:lvl1pPr>
              <a:lvl2pPr><a:buChar char="–"/></a:lvl2pPr>
              <a:lvl3pPr><a:buAutoNum type="arabicPeriod"/></a:lvl3pPr>
              <a:lvl4pPr><a:buNone/></a:lvl4pPr>
            </a:lstStyle>
            <a:p><a:r><a:t>level 1 bullet</a:t></a:r></a:p>
            <a:p><a:pPr lvl="1"/><a:r><a:t>level 2 bullet</a:t></a:r></a:p>
            <a:p><a:pPr lvl="2"/><a:r><a:t>level 3 numbered</a:t></a:r></a:p>
            <a:p><a:pPr lvl="3"/><a:r><a:t>level 4: style says no bullet</a:t></a:r></a:p>
            <a:p><a:pPr lvl="5"/><a:r><a:t>level 6: no style at all</a:t></a:r></a:p>
            <a:p><a:pPr lvl="2"><a:buNone/></a:pPr><a:r><a:t>own buNone wins</a:t></a:r></a:p>
        </p:txBody></p:sp>"#;
    let root = parse_xml(xml, false).unwrap();
    let body = named(&root, "txBody")[0];
    let kinds: Vec<Option<bool>> = named(&root, "p")
        .into_iter()
        .map(|p| list_kind(p, Some(body), Placeholder::TextBox))
        .collect();
    assert_eq!(
        kinds,
        vec![Some(false), Some(false), Some(true), None, Some(false), None]
    );
}

#[test]
fn without_a_list_style_the_placeholder_default_stands() {
    let root = parse_xml(
        r#"<p:sp xmlns:p="p" xmlns:a="a"><p:txBody><a:lstStyle/><a:p><a:r><a:t>x</a:t></a:r></a:p></p:txBody></p:sp>"#,
        false,
    )
    .unwrap();
    let body = named(&root, "txBody")[0];
    let para = named(&root, "p")[0];
    assert_eq!(list_kind(para, Some(body), Placeholder::Body), Some(false));
    assert_eq!(list_kind(para, Some(body), Placeholder::TextBox), None);
    assert_eq!(paragraph_text(para, ' '), vec!['x']);
}

fn empty_slide(index: usize, xml: &str) -> SlideSource {
    SlideSource {
        index,
        xml: Some(xml.to_string()),
        layout: None,
        master: None,
        relations: vec![],
        charts: vec![],
        notes: vec![],
        comments: vec![],
    }
}

fn shape(x: i64, y: i64, body: &str) -> String {
    format!(
        r#"<p:sp><p:spPr><a:xfrm><a:off x="{x}" y="{y}"/><a:ext cx="100" cy="100"/></a:xfrm></p:spPr>{body}</p:sp>"#
    )
}

fn sheet(shapes: &str) -> String {
    format!(
        r#"<p:sld xmlns:p="p" xmlns:a="a" xmlns:r="r"><p:cSld><p:spTree>{shapes}</p:spTree></p:cSld></p:sld>"#
    )
}

fn text_body(text: &str) -> String {
    format!("<p:txBody><a:p><a:r><a:t>{text}</a:t></a:r></a:p></p:txBody>")
}

const DECK: &str = r#"<p:presentation xmlns:p="p" xmlns:r="r"><p:sldIdLst><p:sldId id="256" r:id="rId2"/><p:sldId id="257" r:id="rId3"/></p:sldIdLst><p:sldSz cx="1000" cy="500"/></p:presentation>"#;

#[test]
fn native_chart_yields_classified_data_grid() {
    let frame = r#"<p:graphicFrame><p:xfrm><a:off x="0" y="0"/><a:ext cx="500" cy="250"/></p:xfrm><a:graphic><a:graphicData><c:chart xmlns:c="c" r:id="rId7"/></a:graphicData></a:graphic></p:graphicFrame>"#;
    let table = |rows: Vec<Vec<&str>>| Table {
        rows: rows
            .into_iter()
            .map(|r| r.into_iter().map(|c| c.to_string()).collect())
            .collect(),
        structure: None,
        cell_blocks: None,
        caption: None,
        caption_parent: docling_backends::document::CaptionParent::Body,
    };
    let mut s = empty_slide(0, &sheet(frame));
    let title = "Wild Duck Observations by Year";
    s.charts.push(ChartPart {
        id: "rId7".to_string(),
        plot_tag: "barChart".to_string(),
        kind: "bar_chart".to_string(),
        title: Some(title.to_string()),
        table: Some(table(vec![
            vec!["", "Freshwater Ducks", "Saltwater Ducks"],
            vec!["2019", "120", "80"],
        ])),
    });
    let deck = PptxBackend.convert(DECK, None, &vec![s]);
    let Node::Located { inner, .. } = &deck.slides[0].nodes[0] else {
        panic!("a located chart");
    };
    let Node::Chart { kind, table: got } = inner.as_ref() else {
        panic!("a chart node");
    };
    assert_eq!(kind, "bar_chart");
    assert_eq!(got.caption.as_deref(), Some(title), "chart title as caption");
    assert_eq!(got.rows[0][1], "Freshwater Ducks");
    assert_eq!(got.rows[1], vec!["2019", "120", "80"]);

    let mut s = empty_slide(0, &sheet(frame));
    s.charts.push(ChartPart {
        id: "rId7".to_string(),
        plot_tag: "bar3DChart".to_string(),
        kind: "bar_chart".to_string(),
        title: None,
        table: Some(table(vec![vec!["x"]])),
    });
    let deck = PptxBackend.convert(DECK, None, &vec![s]);
    assert!(matches!(
        &deck.slides[0].nodes[0],
        Node::Located { inner, .. }
            if matches!(inner.as_ref(), Node::Chart { kind, table }
                if kind == "other_chart" && table.rows.is_empty())
    ));
}

#[test]
fn shapes_are_read_row_by_row() {
    let shapes = [
        shape(600, 100, &text_body("right")),
        shape(10, 200000, &text_body("below")),
        shape(20, 300, &text_body("left")),
    ]
    .join("");
    let deck = PptxBackend.convert(DECK, None, &vec![empty_slide(0, &sheet(&shapes))]);
    assert_eq!((deck.width, deck.height), (1000, 500));
    assert_eq!(markdown(&deck.slides[0].nodes), "left\n\nright\n\nbelow\n");
}

#[test]
fn titles_lists_notes_and_comments_come_out() {
    let title = r#"<p:sp><p:nvSpPr><p:nvPr><p:ph type="title"/></p:nvPr></p:nvSpPr><p:txBody><a:p><a:r><a:t>Deck</a:t></a:r></a:p></p:txBody></p:sp>"#;
    let list = r#"<p:sp><p:nvSpPr><p:nvPr><p:ph type="body" idx="1"/></p:nvPr></p:nvSpPr><p:txBody>
        <a:p><a:pPr><a:buAutoNum/></a:pPr><a:r><a:t>one</a:t></a:r></a:p>
        <a:p><a:pPr><a:buAutoNum/></a:pPr><a:r><a:t>two</a:t></a:r></a:p>
        <a:p><a:pPr><a:buNone/></a:pPr><a:r><a:t>gap</a:t></a:r></a:p>
        <a:p><a:r><a:t>dot</a:t></a:r></a:p></p:txBody></p:sp>"#;
    let mut s = empty_slide(1, &sheet(&format!("{title}{list}")));
    s.notes.push(
        r#"<p:notes xmlns:p="p" xmlns:a="a"><p:sp><p:ph type="body"/><p:txBody><a:p><a:r><a:t>Say</a:t></a:r><a:br/><a:r><a:t>this</a:t></a:r></a:p></p:txBody></p:sp></p:notes>"#
            .to_string(),
    );
    s.comments.push(
        r#"<p:cmLst xmlns:p="p"><p:cm authorId="0" dt="2020"><p:text> Check </p:text></p:cm><p:cm><p:text/></p:cm></p:cmLst>"#
            .to_string(),
    );
    let authors = r#"<p:cmAuthorLst xmlns:p="p"><p:cmAuthor id="0" name="Ann" initials="A"/></p:cmAuthorLst>"#;
    let deck = PptxBackend.convert(DECK, Some(authors), &vec![s]);
    let slide = &deck.slides[0];
    assert_eq!((slide.page_no, slide.name.as_str(), slide.page_break), (2, "slide-1", true));
    assert_eq!(markdown(&slide.nodes), "# Deck\n\n1. one\n2. two\n\ngap\n\n- dot\n");
    let zero = Location { left: 0, top: 0, right: 0, bottom: 0 };
    assert_eq!(
        slide.nodes.last(),
        Some(&Node::Furniture {
            layer: ContentLayer::Notes,
            inner: Box::new(Node::Located {
                location: zero,
                inner: Box::new(Node::Paragraph { text: "Say\u{b}this".to_string() }),
            }),
        })
    );
    assert_eq!(
        slide.comments,
        vec![Node::Furniture {
            layer: ContentLayer::Notes,
            inner: Box::new(Node::Paragraph {
                text: "[author: Ann (A), time: 2020]: Check".to_string(),
            }),
        }]
    );
}

#[test]
fn only_image_parts_become_pictures() {
    let pic = |id: &str| {
        format!(r#"<p:pic><p:blipFill><a:blip r:embed="{id}"/></p:blipFill></p:pic>"#)
    };
    let relation = |id: &str, rel_type: &str, path: &str, content_type: Option<&str>| Relation {
        id: id.to_string(),
        rel_type: rel_type.to_string(),
        path: path.to_string(),
        content_type: content_type.map(|t| t.to_string()),
    };
    let mut s = empty_slide(0, &sheet(&["r1", "r2", "r3", "r4"].map(pic).join("")));
    s.relations = vec![
        relation("r1", "x/image", "ppt/media/a.png", Some("image/png")),
        relation("r2", "x/image", "ppt/media/b.bin", Some("application/x")),
        relation("r3", "x/image", "ppt/media/c.png", None),
        relation("r5", "x/slideLayout", "ppt/l.xml", None),
        relation("r6", "x/notesSlide", "ppt/n1.xml", None),
        relation("r7", "x/notesSlide", "ppt/n2.xml", None),
    ];
    assert_eq!(rel_target(&s.relations, "/slideLayout").as_deref(), Some("ppt/l.xml"));
    assert_eq!(rel_target(&s.relations, "/slideMaster"), None);
    assert_eq!(rel_targets(&s.relations, "/notesSlide"), vec!["ppt/n1.xml", "ppt/n2.xml"]);
    assert_eq!(find_part(&s.relations, "r3").as_deref(), Some("ppt/media/c.png"));
    let deck = PptxBackend.convert(DECK, None, &vec![s]);
    let sources: Vec<Vec<String>> = deck.slides[0]
        .nodes
        .iter()
        .filter_map(|n| match n {
            Node::Located { inner, .. } => match inner.as_ref() {
                Node::Picture { sources, .. } => Some(sources.clone()),
                _ => None,
            },
            _ => None,
        })
        .collect();
    assert_eq!(sources, vec![vec!["ppt/media/a.png".to_string()]]);
}

#[test]
fn presentations_name_their_slides() {
    let ids: Vec<String> = slide_rids(DECK).iter().map(|r| r.iter().collect()).collect();
    assert_eq!(ids, vec!["rId2", "rId3"]);
    assert_eq!(slide_size("<p/>"), (9144000, 6858000));
    assert!(slide_rids("no markup").is_empty());
    assert!(comment_authors(None).is_empty());
    let mut broken = empty_slide(0, "<p");
    assert!(PptxBackend.convert(DECK, None, &vec![broken]).slides.is_empty());
    broken = empty_slide(0, "");
    broken.xml = None;
    assert!(PptxBackend.convert(DECK, None, &vec![broken]).slides.is_empty());
}

#[test]
fn boxes_keep_their_share_of_the_slide() {
    let g = Geom { x: 0, y: 0, cx: 500, cy: 250 };
    assert_eq!(
        shape_location(Some(g), 1000, 500),
        Location { left: 0, top: 256, right: 256, bottom: 511 }
    );
    assert_eq!(
        shape_location(None, 1000, 500),
        Location { left: 0, top: 0, right: 511, bottom: 511 }
    );
    assert_eq!(
        shape_location(None, 0, 0),
        Location { left: 0, top: 0, right: 0, bottom: 0 }
    );
}

#[test]
fn shapes_are_read_by_rows_and_those_without_a_place_last() {
    let shape = |at: Option<(i64, i64)>| match at {
        Some((x, y)) => format!(
            r#"<sp><spPr><xfrm><off x="{x}" y="{y}"/><ext cx="1" cy="1"/></xfrm></spPr></sp>"#
        ),
        None => "<sp/>".to_string(),
    };
    let tree = parse_xml(
        &format!(
            "<spTree>{}{}{}{}{}</spTree>",
            shape(None),
            shape(Some((500, 30000))),
            shape(Some((100, 60000))),
            shape(None),
            shape(Some((900, 900000))),
        ),
        false,
    )
    .unwrap();
    let order = shapes_by_position(&tree.children, &PhMap { by_idx: vec![], by_type: vec![] });
    let places: Vec<usize> = order.iter().map(|i| i.at).collect();
    assert_eq!(places, [2, 1, 4, 0, 3]);
}
