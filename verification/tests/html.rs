use docling_backends::decode::declared_encoding;
use docling_backends::document::{CaptionParent, Node, Table};
use docling_backends::html::{
    convert_html, lang_from_class, normalize_url, parse_kvp_id, HtmlBackend, KvpKind, MAX_DOM_DEPTH,
};

fn table_text(t: &Table) -> String {
    let rows: Vec<Vec<String>> = t
        .rows
        .iter()
        .map(|r| r.iter().map(|c| c.replace('\n', " ")).collect())
        .collect();
    let cols = rows.iter().map(|r| r.len()).max().unwrap_or(0);
    let cell = |i: usize, c: usize| rows[i].get(c).map_or("", |s| s.as_str()).to_string();
    let width = |c: usize| {
        (0..rows.len())
            .map(|i| cell(i, c).chars().count() + if i == 0 { 2 } else { 0 })
            .max()
            .unwrap_or(0)
    };
    let numeric = |c: usize| {
        rows.len() > 1 && (1..rows.len()).all(|i| cell(i, c).trim().parse::<f64>().is_ok())
    };
    let mut lines: Vec<String> = Vec::new();
    for i in 0..rows.len() {
        let cells: Vec<String> = (0..cols)
            .map(|c| {
                if numeric(c) {
                    format!(" {:>w$} ", cell(i, c), w = width(c))
                } else {
                    format!(" {:<w$} ", cell(i, c), w = width(c))
                }
            })
            .collect();
        lines.push(format!("|{}|", cells.join("|")));
        if i == 0 {
            let rules: Vec<String> = (0..cols).map(|c| "-".repeat(width(c) + 2)).collect();
            lines.push(format!("|{}|", rules.join("|")));
        }
    }
    lines.join("\n")
}

fn block_text(n: &Node) -> Option<String> {
    match n {
        Node::Heading { level, text } => Some(format!("{} {}", "#".repeat(*level as usize), text)),
        Node::Paragraph { text } => Some(text.clone()),
        Node::Inline { text, .. } => Some(text.clone()),
        Node::ListItem { ordered, number, text, level, .. } => {
            let mark = if *ordered { format!("{number}.") } else { "-".to_string() };
            Some(format!("{}{} {}", "    ".repeat(*level as usize), mark, text))
        }
        Node::Table(t) => {
            let body = table_text(t);
            Some(match &t.caption {
                Some(c) => format!("{c}\n\n{body}"),
                None => body,
            })
        }
        Node::Picture { caption, .. } => Some(match caption {
            Some(c) => format!("{c}\n\n<!-- image -->"),
            None => "<!-- image -->".to_string(),
        }),
        Node::Formula { latex, .. } => Some(format!("$${latex}$$")),
        Node::Code { text, .. } => Some(format!("```\n{text}\n```")),
        Node::Caption { text, href } => Some(match href {
            Some(h) => format!("[{text}]({h})"),
            None => text.clone(),
        }),
        Node::FieldRegion { items } => {
            let parts: Vec<String> = items
                .iter()
                .flat_map(|f| [f.marker.clone(), f.key.clone(), f.value.clone()])
                .flatten()
                .collect();
            Some(parts.join("\n\n"))
        }
        Node::CheckboxItem { checked, text } => {
            Some(format!("- [{}] {}", if *checked { "x" } else { " " }, text))
        }
        Node::Located { inner, .. } | Node::Commented { inner, .. } => block_text(inner),
        Node::TextDump(t) => Some(t.clone()),
        _ => None,
    }
}

fn continues_list(n: &Node) -> bool {
    match n {
        Node::ListItem { first_in_list, level, .. } => !*first_in_list || *level > 0,
        Node::Located { inner, .. } => continues_list(inner),
        _ => false,
    }
}

fn markdown(nodes: &[Node]) -> String {
    let mut out = String::new();
    for n in nodes {
        if let Some(t) = block_text(n) {
            if !out.is_empty() {
                out.push_str(if continues_list(n) { "\n" } else { "\n\n" });
            }
            out.push_str(&t);
        }
    }
    if !out.is_empty() {
        out.push('\n');
    }
    out
}

fn convert(html: &str) -> Vec<Node> {
    convert_bytes(html.as_bytes())
}

fn convert_bytes(html: &[u8]) -> Vec<Node> {
    HtmlBackend.convert(html, MAX_DOM_DEPTH)
}

fn first_table(nodes: &[Node]) -> &Table {
    nodes
        .iter()
        .find_map(|n| match n {
            Node::Table(t) => Some(t),
            _ => None,
        })
        .expect("a table")
}

fn captions(nodes: &[Node]) -> Vec<(Option<String>, Option<String>)> {
    nodes
        .iter()
        .filter_map(|n| match n {
            Node::Picture { caption, caption_href, .. } => {
                Some((caption.clone(), caption_href.clone()))
            }
            _ => None,
        })
        .collect()
}

fn is_plain_paragraph(n: &Node) -> bool {
    match n {
        Node::Paragraph { .. } => true,
        Node::Inline { runs, .. } => {
            runs.iter().all(|r| !(r.bold || r.italic || r.underline || r.strike || r.code))
        }
        _ => false,
    }
}

#[test]
fn pivot_row_headers_are_row_headers_not_column_headers() {
    let nodes = convert(
        "<table>\
         <tr><th>Year</th><th>Month</th><th>Revenue</th></tr>\
         <tr><th rowspan=3>2025</th></tr>\
         <tr><td>January</td><td>$134</td></tr>\
         <tr><td>February</td><td>$150</td></tr>\
         </table>",
    );
    let t = first_table(&nodes);
    let st = t.structure.as_ref().expect("structure");
    assert_eq!(
        st.col_header,
        vec![vec![true, true, true], vec![false; 3], vec![false; 3]]
    );
    assert_eq!(
        st.row_header,
        vec![
            vec![false; 3],
            vec![true, false, false],
            vec![true, false, false]
        ]
    );
    assert_eq!(
        markdown(&nodes),
        "|   Year | Month    | Revenue   |\n|--------|----------|-----------|\n|   2025 | January  | $134      |\n|   2025 | February | $150      |\n"
    );
}

#[test]
fn a_th_label_beside_data_is_a_row_header() {
    let nodes = convert(
        "<table><tr><th>Rate</th><td>5%</td></tr><tr><th>Term</th><td>3y</td></tr></table>",
    );
    let st = first_table(&nodes).structure.as_ref().expect("structure");
    assert_eq!(st.col_header, vec![vec![false; 2], vec![false; 2]]);
    assert_eq!(st.row_header, vec![vec![true, false], vec![true, false]]);
}

#[test]
fn non_utf8_html_decodes_like_beautifulsoup() {
    let md = markdown(&convert_bytes(
        b"<html><body><p>caf\xe9 \x93quoted\x94</p></body></html>",
    ));
    assert!(md.contains("caf\u{e9} \"quoted\""), "{md}");

    let md = markdown(&convert_bytes(
        b"<html><head><meta charset=\"windows-1251\"></head><body><p>\xcf\xf0\xe8\xe2\xe5\xf2</p></body></html>",
    ));
    assert!(
        md.contains("\u{41f}\u{440}\u{438}\u{432}\u{435}\u{442}"),
        "{md}"
    );

    let md = markdown(&convert_bytes(
        b"<html><head><meta http-equiv=\"Content-Type\" content=\"text/html; charset=iso-8859-15\"></head><body><p>\xa4 5</p></body></html>",
    ));
    assert!(md.contains("\u{20ac} 5"), "{md}");

    let mut utf16 = vec![0xff, 0xfe];
    for u in "<p>h\u{e9}</p>".encode_utf16() {
        utf16.extend_from_slice(&u.to_le_bytes());
    }
    let md = markdown(&convert_bytes(&utf16));
    assert!(md.contains("h\u{e9}"), "{md}");

    let md = markdown(&convert_bytes(
        "<html><head><meta charset=\"x-no-such-charset\"></head><body><p>na\u{ef}ve</p></body></html>"
            .as_bytes(),
    ));
    assert!(md.contains("na\u{ef}ve"), "{md}");

    assert_eq!(
        declared_encoding(b"<?xml version=\"1.0\" encoding=\"ISO-8859-2\"?><html/>").as_deref(),
        Some("iso-8859-2")
    );
}

#[test]
fn figures_dispatch_children_and_attach_captions() {
    let nodes = convert(
        r#"<html><body>
            <figure><table><tr><th>A</th><th>B</th></tr><tr><td>1</td><td>2</td></tr></table>
              <figcaption>Table cap <a href="https://x.y/z">link</a></figcaption></figure>
            <figure><p>Just text</p><figcaption><a href="/w/M">Mallard</a></figcaption></figure>
            <figure><img src="a.png" alt="alt"><figcaption>Img cap</figcaption></figure>
            </body></html>"#,
    );
    let mut tables = 0;
    for n in &nodes {
        match n {
            Node::Table(t) => {
                tables += 1;
                assert_eq!(t.caption.as_deref(), Some("Table cap link"));
                assert_eq!(t.caption_parent, CaptionParent::ContainerAfter);
            }
            Node::Picture { caption, caption_parent, .. } => {
                assert_eq!(caption.as_deref(), Some("Img cap"));
                assert_eq!(*caption_parent, CaptionParent::Body);
            }
            _ => {}
        }
    }
    assert_eq!(tables, 1);
    assert!(nodes.iter().any(|n| matches!(
        n,
        Node::Caption { text, href: Some(h) } if text == "Mallard" && h == "/w/M"
    )));
    let md = markdown(&nodes);
    assert!(
        md.contains("Table cap link\n\n|   A |   B |"),
        "caption precedes the grid: {md}"
    );
    assert!(
        md.contains("Just text\n\n[Mallard](/w/M)\n\nImg cap\n\n<!-- image -->"),
        "{md}"
    );
}

#[test]
fn unclosed_inline_tag_does_not_swallow_tables() {
    let nodes = convert(
        r#"<html><body><a name="x"><b>T</b><br>
               <table><tr><td>A</td><td>B</td></tr><tr><td>1</td><td>2</td></tr></table></body></html>"#,
    );
    let tables = nodes.iter().filter(|n| matches!(n, Node::Table(_))).count();
    assert_eq!(tables, 1, "the swallowed table must surface as a table");
    let md = markdown(&nodes);
    assert!(
        md.contains("**T**"),
        "the <b> text keeps its formatting: {md}"
    );
    assert!(md.contains("|-----"), "table structure survives: {md}");
}

#[test]
fn anchor_around_a_div_stays_a_link() {
    let nodes =
        convert(r#"<html><body><a href="/start.html"><div>Some text.</div></a></body></html>"#);
    let md = markdown(&nodes);
    assert!(
        md.contains("[Some text.](/start.html)"),
        "text-only block content stays inside the link: {md}"
    );
}

#[test]
fn deeply_nested_html_does_not_overflow_the_stack() {
    let depth = 4_000;
    let html = format!(
        "<html><body>{}<p>deep text</p>{}</body></html>",
        "<div>".repeat(depth),
        "</div>".repeat(depth),
    );
    let nodes = HtmlBackend.convert(html.as_bytes(), 200);
    assert!(
        markdown(&nodes).contains("deep text"),
        "flattened fallback should preserve the text content"
    );
}

#[test]
fn shallow_html_still_walks_structurally() {
    let md = markdown(&convert("<h1>Title</h1><ul><li>a</li><li>b</li></ul>"));
    assert!(md.contains("# Title"));
    assert!(md.contains("- a"));
}

#[test]
fn headings_paragraphs_and_inline_formatting() {
    let nodes = convert(
        "<h1>Title</h1><p>Hello <strong>bold</strong> and <em>italic</em> and \
         <a href=\"https://x.com\">link</a>.</p>",
    );
    assert_eq!(
        markdown(&nodes),
        "# Title\n\nHello **bold** and *italic* and [link](https://x.com/) .\n"
    );
}

#[test]
fn nested_lists() {
    let nodes = convert("<ul><li>one<ul><li>one-a</li></ul></li><li>two</li></ul>");
    assert_eq!(markdown(&nodes), "- one\n    - one-a\n- two\n");
}

#[test]
fn inline_images_produce_no_marker_but_anchor_wrapped_images_stay_pictures() {
    let inline = convert("<p>before <img src=\"x.png\" alt=\"logo\"> after</p>");
    assert_eq!(markdown(&inline), "before after\n");
    let span = convert("<span><img src=\"x.png\" alt=\"logo\"></span><h2>Home</h2>");
    assert_eq!(markdown(&span), "## Home\n");
    let anchor = convert("<a href=\"/l\"><img src=\"x.png\" alt=\"cap\"></a>");
    assert_eq!(markdown(&anchor), "cap\n\n<!-- image -->\n");
}

#[test]
fn anchor_wrapping_several_images_hangs_its_href_on_each_caption() {
    let nodes = convert(
        "<a href=\"/wiki/Main_Page\">\
           <img src=\"icon.png\" alt=\"\" aria-hidden=\"true\">\
           <img src=\"wordmark.svg\" alt=\"Wikipedia\">\
           <img src=\"tagline.svg\" alt=\"The Free Encyclopedia\">\
         </a>",
    );
    assert_eq!(
        captions(&nodes),
        vec![
            (
                Some("Wikipedia".to_string()),
                Some("/wiki/Main_Page".to_string())
            ),
            (
                Some("The Free Encyclopedia".to_string()),
                Some("/wiki/Main_Page".to_string())
            ),
        ]
    );
}

#[test]
fn hidden_elements_are_suppressed() {
    let hidden = convert(
        "<p>keep</p>\
         <p style=\"display:none\">gone</p>\
         <p style=\"visibility: hidden\">gone2</p>\
         <p hidden>gone3</p>",
    );
    assert_eq!(markdown(&hidden), "keep\n");
    let aria = convert(
        "<p aria-hidden=\"true\">gone</p>\
         <p aria-hidden=\"1\">gone2</p>\
         <p aria-hidden=\"yes\">gone3</p>\
         <p aria-hidden=\"false\">keep</p>",
    );
    assert_eq!(markdown(&aria), "keep\n");
}

#[test]
fn nested_table_flattens_with_docling_spacing() {
    let nodes = convert(
        "<table><tr><td><table><tr><td>P</td><td>Q</td></tr>\n\
         <tr><td>R</td><td><table><tr><td>a</td></tr>\n\
         <tr><td>b</td></tr></table></td></tr></table></td><td>Z</td></tr></table>",
    );
    let table = first_table(&nodes);
    assert_eq!(table.rows[0][0], "P Q R a \nb");
    assert_eq!(table.rows[0][1], "Z");
    let md = markdown(&nodes);
    assert!(
        md.contains("P Q R a  b"),
        "newline flattened to space in markdown: {md}"
    );
}

#[test]
fn caption_hyperlinks_are_annotated() {
    let nodes = convert(
        "<a href=\"https://www.example.com\"><img src=\"x.png\" alt=\"Clickable\"></a>             <figure><img src=\"y.png\" alt=\"Cap\">               <figcaption>An example <a href=\"#caption\">caption</a> here.</figcaption>             </figure>",
    );
    assert_eq!(
        captions(&nodes),
        vec![
            (
                Some("Clickable".to_string()),
                Some("https://www.example.com/".to_string())
            ),
            (
                Some("An example caption here.".to_string()),
                Some("#caption".to_string())
            ),
        ]
    );
    assert_eq!(
        markdown(&nodes),
        "Clickable\n\n<!-- image -->\n\nAn example caption here.\n\n<!-- image -->\n"
    );
}

#[test]
fn rich_cells_carry_cell_blocks() {
    let nodes = convert(
        "<table>               <tr><td>plain</td><td><ul><li>a</li><li>b</li></ul></td></tr>               <tr><td><h2>A</h2><p>text</p></td><td>x</td></tr>             </table>",
    );
    let table = first_table(&nodes);
    assert_eq!(table.rows[0][1], "- a\n- b");
    assert_eq!(table.rows[1][0], "A\n\ntext");
    let blocks = table.cell_blocks.as_ref().expect("rich cells present");
    assert!(blocks[0][0].is_empty(), "plain cell stays block-less");
    assert!(
        matches!(
            blocks[0][1].as_slice(),
            [Node::ListItem { .. }, Node::ListItem { .. }]
        ),
        "list cell keeps its items: {:?}",
        blocks[0][1]
    );
    assert!(
        matches!(
            blocks[1][0].as_slice(),
            [Node::Heading { level: 2, .. }, p] if is_plain_paragraph(p)
        ),
        "heading cell keeps its structure: {:?}",
        blocks[1][0]
    );
    let nodes = convert("<table><tr><td>a</td><td>b</td></tr></table>");
    assert!(first_table(&nodes).cell_blocks.is_none());
}

#[test]
fn form_region_becomes_key_value_fields() {
    let nodes = convert(
        "<div class=\"form_region\">\
           <div class=\"field\">\
             <div id=\"key1_marker\">1</div>\
             <span id=\"key1\">Restaurant</span>\
             <span id=\"key1_value1\">Docling</span>\
           </div>\
           <div class=\"field\">\
             <div id=\"key2_marker\">2</div>\
             <span id=\"key2\">Telephone</span>\
             <span id=\"key2_value1\">123</span>\
           </div>\
         </div>",
    );
    assert_eq!(
        markdown(&nodes),
        "1\n\nRestaurant\n\nDocling\n\n2\n\nTelephone\n\n123\n",
    );
    let plain = convert("<div class=\"form_region\"><p>just text</p></div>");
    assert_eq!(markdown(&plain), "just text\n");
}

#[test]
fn ordered_list_is_numbered_sequentially() {
    let nodes = convert("<ol><li>first</li><li>second</li></ol>");
    assert_eq!(markdown(&nodes), "1. first\n2. second\n");
}

#[test]
fn block_image_becomes_picture() {
    let nodes = convert("<img src=\"x.png\" alt=\"A cat\"/>");
    assert_eq!(markdown(&nodes), "A cat\n\n<!-- image -->\n");
}

#[test]
fn table_with_header() {
    let nodes = convert(
        "<table><thead><tr><th>Name</th><th>Age</th></tr></thead>\
         <tbody><tr><td>Ada</td><td>36</td></tr></tbody></table>",
    );
    assert_eq!(
        markdown(&nodes),
        "| Name   |   Age |\n|--------|-------|\n| Ada    |    36 |\n"
    );
}

#[test]
fn code_block_with_language() {
    let nodes = convert("<pre><code class=\"language-rust\">let x = 1;</code></pre>");
    assert_eq!(
        nodes,
        vec![Node::Code {
            language: Some("rust".to_string()),
            text: "let x = 1;".to_string(),
        }]
    );
}

#[test]
fn skips_script_and_style() {
    let nodes = convert("<style>.a{}</style><p>visible</p><script>x()</script>");
    assert_eq!(markdown(&nodes), "visible\n");
}

fn sources(html: &str, fetch: bool) -> Vec<String> {
    convert_html(html, MAX_DOM_DEPTH, fetch)
        .into_iter()
        .find_map(|n| match n {
            Node::Picture { sources, .. } => Some(sources),
            _ => None,
        })
        .expect("a picture")
}

#[test]
fn image_is_placeholder_by_default_but_extracted_with_a_resolver() {
    let uri = "data:image/png;base64,iVBORw0KGgo=";
    let html = format!("<img src=\"{uri}\" alt=\"k\"/>");
    let plain = convert(&html);
    assert!(matches!(&plain[0], Node::Picture { sources, .. } if sources.is_empty()));
    let found = convert_html(&html, MAX_DOM_DEPTH, true);
    match &found[0] {
        Node::Picture { sources, caption, .. } => {
            assert_eq!(caption.as_deref(), Some("k"));
            assert_eq!(sources, &vec![uri.to_string()]);
        }
        other => panic!("expected a source, got {other:?}"),
    }
}

#[test]
fn lazy_loaded_img_src_falls_back_to_data_src_and_srcset() {
    let pick = |html: &str| sources(html, true).into_iter().next();
    assert_eq!(pick(r#"<img src="/a.png">"#).as_deref(), Some("/a.png"));
    assert_eq!(
        pick(r#"<img data-src="/b.png" class="lazyload">"#).as_deref(),
        Some("/b.png")
    );
    assert_eq!(
        pick(r#"<img src="data:image/gif;base64,R0lGOD" data-src="/c.png">"#).as_deref(),
        Some("/c.png")
    );
    assert_eq!(
        pick(r#"<img srcset="/d-1x.png 1x, /d-2x.png 2x">"#).as_deref(),
        Some("/d-1x.png")
    );
    assert!(sources(r#"<img src="/a.png">"#, false).is_empty());
}

#[test]
fn text_before_the_first_heading_is_furniture() {
    let nodes = convert("<p>lead</p><h1>Title</h1><p>body</p>");
    assert!(matches!(&nodes[0], Node::Furniture { .. }));
    assert_eq!(markdown(&nodes), "# Title\n\nbody\n");
}

#[test]
fn identifiers_and_classes_are_read() {
    let chars = |s: &str| s.chars().collect::<Vec<char>>();
    assert!(matches!(parse_kvp_id(&chars("key12")), Some((12, KvpKind::Key))));
    assert!(parse_kvp_id(&chars("key")).is_none());
    assert!(parse_kvp_id(&chars("other1")).is_none());
    assert_eq!(lang_from_class(Some("a language-c b")), Some(chars("c")));
    assert_eq!(lang_from_class(None), None);
    assert_eq!(normalize_url(&chars("https://x.com")), chars("https://x.com/"));
}

#[test]
fn markers_of_fields_may_be_numbered() {
    let kind = |s: &str| parse_kvp_id(&s.chars().collect::<Vec<char>>());
    assert!(matches!(kind("key1_marker"), Some((1, KvpKind::Marker))));
    assert!(matches!(kind("key1_marker1"), Some((1, KvpKind::Marker))));
    assert!(matches!(kind("key3_marker12"), Some((3, KvpKind::Marker))));
    assert!(matches!(kind("key1_value2"), Some((1, KvpKind::Value))));
    assert!(kind("key1_markerx").is_none());
    assert!(kind("key1_value").is_none());
}

#[test]
fn a_host_without_a_path_gains_a_slash_before_its_query() {
    let normal = |s: &str| {
        let v = normalize_url(&s.chars().collect::<Vec<char>>());
        v.iter().collect::<String>()
    };
    assert_eq!(normal("https://x.com"), "https://x.com/");
    assert_eq!(normal("https://x.com?q=1"), "https://x.com/?q=1");
    assert_eq!(normal("http://x.com#top"), "http://x.com/#top");
    assert_eq!(normal("https://x.com/a?q"), "https://x.com/a?q");
    assert_eq!(normal("mailto:a@b.c"), "mailto:a@b.c");
    for s in ["https://x.com", "https://x.com?q=1", "http://h#f", "a/b"] {
        assert_eq!(normal(&normal(s)), normal(s));
    }
}

#[test]
fn a_list_item_links_to_its_first_target() {
    let nodes = convert(r#"<ul><li><a name="n">x</a> <a href="/t">y</a></li></ul>"#);
    match &nodes[0] {
        Node::ListItem { href, .. } => assert_eq!(href.as_deref(), Some("/t")),
        other => panic!("expected a list item, got {other:?}"),
    }
}

#[test]
fn a_check_box_inside_a_label_takes_its_text() {
    let nodes = convert(
        r#"<label><input type="checkbox" checked> Agree</label>
           <label>Pick <span><input type="radio" aria-label="own"></span></label>
           <label for="c">Bound</label><input id="c" type="checkbox">
           <label>Name</label>"#,
    );
    assert_eq!(
        markdown(&nodes),
        "- [x] Agree\n\n- [ ] Pick\n\n- [ ] Bound\n\nName\n"
    );
}

#[test]
fn nothing_hidden_is_shown_at_any_depth() {
    let nodes = convert(
        r#"<ol><li>one</li><li hidden>gone</li><li>two</li></ol>
           <dl><dt>term</dt><dd aria-hidden="true">gone</dd><dd>text</dd></dl>
           <table><tr><td>a</td><td hidden>gone</td></tr>
             <tr style="display:none"><td>gone</td></tr><tr><td>b</td></tr></table>
           <p>shown<script>gone</script><svg><title>gone</title></svg></p>
           <pre>code <span hidden>gone</span></pre>"#,
    );
    let md = markdown(&nodes);
    assert!(!md.contains("gone"), "{md}");
    assert!(md.contains("1. one\n2. two"), "{md}");
    assert_eq!(first_table(&nodes).rows, vec![vec!["a"], vec!["b"]]);
    assert!(md.contains("shown"), "{md}");
}

#[test]
fn lists_inside_an_article_of_an_item_are_kept() {
    let nodes = convert("<ul><li><article>a<ul><li>b</li></ul></article></li></ul>");
    assert_eq!(markdown(&nodes), "- a\n    - b\n");
}
