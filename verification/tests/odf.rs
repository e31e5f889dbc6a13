use docling_backends::document::{Node, Table};
use docling_backends::odf::{
    hyperlink_from_href, parse_styles, plain_fmt, resolve_fmt, runs_to_inline, Fmt, Run,
};
use docling_backends::odfbody::{
    chart_kind, decode_base64, image_can_be_bitmap, parse_table, read_context, sheet_grid,
    walk_blocks, walk_slide_frame, Converted, ObjectPart, Odf, OdfBackend, OdfError, OdfSource,
};
use docling_backends::parse::parse_xml;
use docling_backends::sheet::Cell;
use docling_backends::tree::{self_and_descendants, Element};

fn table_text(t: &Table) -> String {
    let rows: Vec<Vec<String>> = t
        .rows
        .iter()
        .map(|r| r.iter().map(|c| c.replace('\n', " ")).collect())
        .collect();
    let cols = rows.iter().map(|r| r.len()).max().unwrap_or(0);
    let cell = |i: usize, c: usize| rows[i].get(c).map_or("", |s| s.as_str()).to_string();
    let width = |c: usize| {
        (0..rows.len())
            .map(|i| cell(i, c).chars().count() + if i == 0 { 2 } else { 0 })
            .max()
            .unwrap_or(0)
    };
    let numeric = |c: usize| {
        rows.len() > 1 && (1..rows.len()).all(|i| cell(i, c).trim().parse::<f64>().is_ok())
    };
    let mut lines: Vec<String> = Vec::new();
    for i in 0..rows.len() {
        let cells: Vec<String> = (0..cols)
            .map(|c| {
                if numeric(c) {
                    format!(" {:>w$} ", cell(i, c), w = width(c))
                } else {
                    format!(" {:<w$} ", cell(i, c), w = width(c))
                }
            })
            .collect();
        lines.push(format!("|{}|", cells.join("|")));
        if i == 0 {
            let rules: Vec<String> = (0..cols).map(|c| "-".repeat(width(c) + 2)).collect();
            lines.push(format!("|{}|", rules.join("|")));
        }
    }
    lines.join("\n")
}

fn block_text(n: &Node) -> Option<String> {
    match n {
        Node::Heading { level, text } => Some(format!("{} {}", "#".repeat(*level as usize), text)),
        Node::Paragraph { text } => Some(text.clone()),
        Node::Inline { text, .. } => Some(text.clone()),
        Node::ListItem { ordered, number, text, level, .. } => {
            let mark = if *ordered { format!("{number}.") } else { "-".to_string() };
            Some(format!("{}{} {}", "    ".repeat(*level as usize), mark, text))
        }
        Node::Table(t) => {
            let body = table_text(t);
            Some(match &t.caption {
                Some(c) => format!("{c}\n\n{body}"),
                None => body,
            })
        }
        Node::Picture { caption, .. } => Some(match caption {
            Some(c) => format!("{c}\n\n<!-- image -->"),
            None => "<!-- image -->".to_string(),
        }),
        Node::Formula { latex, .. } => Some(format!("$${latex}$$")),
        Node::Code { text, .. } => Some(format!("```\n{text}\n```")),
        Node::Caption { text, href } => Some(match href {
            Some(h) => format!("[{text}]({h})"),
            None => text.clone(),
        }),
        Node::FieldRegion { items } => {
            let parts: Vec<String> = items
                .iter()
                .flat_map(|f| [f.marker.clone(), f.key.clone(), f.value.clone()])
                .flatten()
                .collect();
            Some(parts.join("\n\n"))
        }
        Node::CheckboxItem { checked, text } => {
            Some(format!("- [{}] {}", if *checked { "x" } else { " " }, text))
        }
        Node::Located { inner, .. } | Node::Commented { inner, .. } => block_text(inner),
        Node::TextDump(t) => Some(t.clone()),
        _ => None,
    }
}

fn continues_list(n: &Node) -> bool {
    match n {
        Node::ListItem { first_in_list, level, .. } => !*first_in_list || *level > 0,
        Node::Located { inner, .. } => continues_list(inner),
        _ => false,
    }
}

fn markdown(nodes: &[Node]) -> String {
    let mut out = String::new();
    for n in nodes {
        if let Some(t) = block_text(n) {
            if !out.is_empty() {
                out.push_str(if continues_list(n) { "\n" } else { "\n\n" });
            }
            out.push_str(&t);
        }
    }
    if !out.is_empty() {
        out.push('\n');
    }
    out
}

fn chars(s: &str) -> Vec<char> {
    s.chars().collect()
}

fn flat(content: &str) -> OdfSource {
    OdfSource {
        content: content.to_string(),
        styles: String::new(),
        parts: None,
        objects: vec![],
        fetched: vec![],
    }
}

fn tree(xml: &str) -> (Element, Odf) {
    let root = parse_xml(xml, false).unwrap();
    let x = read_context(&root, &flat(xml));
    (root, x)
}

fn named<'a>(root: &'a Element, tag: &str) -> Vec<&'a Element> {
    self_and_descendants(root)
        .into_iter()
        .filter(|e| e.tag == tag)
        .collect()
}

fn walk_text(e: &Element, x: &Odf) -> Vec<Node> {
    let mut nodes = Vec::new();
    walk_blocks(&e.children, x, false, &mut nodes);
    nodes
}

fn text_nodes(v: Vec<Converted>) -> Vec<Node> {
    v.into_iter()
        .flat_map(|c| match c {
            Converted::Nodes(n) => n,
            Converted::Sheets(_) => panic!("text expected"),
        })
        .collect()
}

#[test]
fn formatting_resolves_through_parent_chain() {
    let content = r#"<root xmlns:style="s" xmlns:fo="f">
            <style:style style:name="Strong" style:family="text">
              <style:text-properties fo:font-weight="bold"/></style:style>
            <style:style style:name="P1" style:family="text" style:parent-style-name="Strong"/>
            <style:style style:name="P2" style:family="text" style:parent-style-name="P1"/>
            <style:style style:name="T1" style:family="text">
              <style:text-properties fo:font-style="italic"/></style:style>
          </root>"#;
    let root = parse_xml(content, false).unwrap();
    let mut styles = Vec::new();
    let mut lists = Vec::new();
    parse_styles(&root, &mut styles, &mut lists);
    let f = resolve_fmt(&styles, Some("P2"), plain_fmt());
    assert!(f.bold && !f.italic, "bold inherited through P2→P1→Strong");
    let t = resolve_fmt(&styles, Some("T1"), plain_fmt());
    assert!(t.italic && !t.bold);
}

#[test]
fn text_after_inline_elements_survives() {
    let (root, x) = tree(
        r#"<root xmlns:text="x">
            <text:p>with <text:span>bold</text:span>, and <text:span>italic</text:span> formatting</text:p>
            <text:p>Fassung:<text:tab/>zweite  Durchsicht</text:p></root>"#,
    );
    let md = markdown(&walk_text(&root, &x));
    assert!(
        md.contains("with bold, and italic formatting"),
        "tails around spans survive:\n{md}"
    );
    assert!(
        md.contains("zweite  Durchsicht"),
        "tail after a tab survives:\n{md}"
    );
}

fn package(body: &str, parts: &[&str]) -> OdfSource {
    let content = format!(
        r#"<office:document-content xmlns:office="urn:o" xmlns:text="x"
              xmlns:draw="d" xmlns:xlink="l">
            <office:body><office:text>{body}</office:text></office:body></office:document-content>"#
    );
    let mut names = vec!["mimetype".to_string(), "content.xml".to_string()];
    names.extend(parts.iter().map(|p| p.to_string()));
    OdfSource { parts: Some(names), ..flat(&content) }
}

fn packaged_markdown(body: &str, parts: &[&str]) -> String {
    let v = OdfBackend.convert(&package(body, parts)).expect("converts");
    markdown(&text_nodes(v)).trim().to_string()
}

fn odt_markdown(body: &str) -> String {
    packaged_markdown(body, &[])
}

#[test]
fn odt_hyperlinks_render_as_markdown_links() {
    assert_eq!(
        odt_markdown(
            r#"<text:p>Watch <text:a xlink:href="https://example.com/talk">the example talk</text:a><text:span> for context.</text:span></text:p>"#
        ),
        "Watch [the example talk](https://example.com/talk) for context."
    );
    assert_eq!(
        odt_markdown(
            r##"<text:h text:outline-level="2">Read <text:a xlink:href="#details">details</text:a> now</text:h>"##
        ),
        "### Read [details](#details) now"
    );
    assert_eq!(
        odt_markdown(
            r#"<text:list><text:list-item><text:p><text:a xlink:href="list-target.odt#part">linked list item</text:a></text:p></text:list-item></text:list>"#
        ),
        "- [linked list item](list-target.odt#part)"
    );
}

#[test]
fn odt_hyperlink_targets_are_classified_like_docling() {
    for (href, expected) in [
        ("   ", "linked text"),
        ("http://[::1", "linked text"),
        ("http://", "linked text"),
        ("http:", "linked text"),
        ("guide.odt#part", "[linked text](guide.odt#part)"),
        ("#part", "[linked text](#part)"),
        ("https://example.com", "[linked text](https://example.com/)"),
    ] {
        assert_eq!(
            odt_markdown(&format!(
                r#"<text:p><text:a xlink:href="{href}">linked text</text:a></text:p>"#
            )),
            expected,
            "href {href:?}"
        );
    }
    assert_eq!(
        odt_markdown(r#"<text:p>Before <text:a>malformed link</text:a> after</text:p>"#),
        "Before malformed link after"
    );
}

#[test]
fn odt_external_image_references_yield_no_picture() {
    let frame = |href: &str| {
        format!(r#"<text:p><draw:frame><draw:image xlink:href="{href}"/></draw:frame></text:p>"#)
    };
    assert_eq!(odt_markdown(&frame("/tmp/canary.png")), "");
    assert_eq!(odt_markdown(&frame("/etc/passwd")), "");
    assert_eq!(odt_markdown(&frame("../outside.png")), "");
    assert_eq!(odt_markdown(&frame("https://example.com/x.png")), "");
    assert_eq!(
        packaged_markdown(&frame("Pictures/1.png"), &["Pictures/1.png"]),
        "<!-- image -->"
    );
}

#[test]
fn dangling_embedded_object_is_skipped() {
    let md = odt_markdown(
        r#"<text:p>Before the dangling object.</text:p>
              <text:p><draw:frame draw:name="dangling">
                <draw:object xlink:href="./Object 1"/></draw:frame></text:p>
              <text:p>After the dangling object.</text:p>"#,
    );
    assert!(md.contains("Before the dangling object."), "{md}");
    assert!(md.contains("After the dangling object."), "{md}");
    assert!(!md.contains("<!-- image -->"), "no phantom picture:\n{md}");
}

#[test]
fn section_content_is_walked() {
    let (root, x) = tree(
        r#"<root xmlns:text="x" xmlns:table="t">
            <text:p>Outside.</text:p>
            <text:section text:name="S1">
              <text:h text:outline-level="1">Inside heading</text:h>
              <text:p>Inside paragraph.</text:p>
              <text:section text:name="Nested">
                <text:p>Nested paragraph.</text:p>
              </text:section>
            </text:section></root>"#,
    );
    let md = markdown(&walk_text(&root, &x));
    assert!(md.contains("Outside."), "pre-section text:\n{md}");
    assert!(md.contains("## Inside heading"), "section heading:\n{md}");
    assert!(md.contains("Inside paragraph."), "section paragraph:\n{md}");
    assert!(
        md.contains("Nested paragraph."),
        "nested section content:\n{md}"
    );
}

fn cell(c: &Cell) -> String {
    match c {
        Cell::Text(t) => t.clone(),
        other => panic!("text expected, got {other:?}"),
    }
}

#[test]
fn ods_sheet_splits_into_regions() {
    let (root, _) = tree(
        r#"<root xmlns:table="t" xmlns:text="x">
          <table:table>
            <table:table-row><table:table-cell/>
              <table:table-cell><text:p>Title</text:p></table:table-cell></table:table-row>
            <table:table-row><table:table-cell/></table:table-row>
            <table:table-row><table:table-cell/>
              <table:table-cell><text:p>H1</text:p></table:table-cell>
              <table:table-cell><text:p>H2</text:p></table:table-cell></table:table-row>
            <table:table-row><table:table-cell/>
              <table:table-cell><text:p>1</text:p></table:table-cell>
              <table:table-cell><text:p>2</text:p></table:table-cell></table:table-row>
          </table:table></root>"#,
    );
    let tables: Vec<Vec<Vec<String>>> = sheet_grid(named(&root, "table")[0])
        .regions()
        .iter()
        .map(|t| t.iter().map(|r| r.iter().map(cell).collect()).collect())
        .collect();
    assert_eq!(tables.len(), 2, "title singleton + data region");
    assert_eq!(tables[0], vec![vec!["Title".to_string()]]);
    assert_eq!(tables[1].len(), 2, "header + one data row");
    assert_eq!(tables[1][0], vec!["H1".to_string(), "H2".to_string()]);
}

#[test]
fn list_continues_across_empty_nested_item() {
    let (root, x) = tree(
        r#"<root xmlns:text="x" xmlns:style="s">
          <style:list-style style:name="L1">
            <text:list-level-style-number text:level="1"/></style:list-style>
          <style:list-style style:name="L2">
            <text:list-level-style-bullet text:level="1"/>
            <text:list-level-style-bullet text:level="2"/></style:list-style>
          <office:body xmlns:office="o"><office:text>
            <text:list text:style-name="L1">
              <text:list-item><text:p>one</text:p></text:list-item>
              <text:list-item><text:p>two</text:p></text:list-item>
            </text:list>
            <text:list text:style-name="L2">
              <text:list-item><text:list>
                <text:list-item><text:p>bullet</text:p></text:list-item>
              </text:list></text:list-item>
              <text:list-item><text:p>three</text:p></text:list-item>
            </text:list>
          </office:text></office:body></root>"#,
    );
    let nodes = walk_text(named(&root, "text")[0], &x);
    let items: Vec<(u64, u8, &str)> = nodes
        .iter()
        .filter_map(|n| match n {
            Node::ListItem { number, level, text, .. } => Some((*number, *level, text.as_str())),
            _ => None,
        })
        .collect();
    assert_eq!(
        items,
        vec![
            (1, 0, "one"),
            (2, 0, "two"),
            (0, 1, "bullet"),
            (3, 0, "three"),
        ]
    );
}

fn table_of(xml: &str) -> Table {
    let (root, x) = tree(xml);
    parse_table(named(&root, "table")[0], &x, false).unwrap()
}

#[test]
fn rich_cell_renders_list_plain_cell_drops_formatting() {
    let t = table_of(
        r#"<root xmlns:table="t" xmlns:text="x">
          <table:table><table:table-row>
            <table:table-cell><text:p>List:</text:p><text:list>
              <text:list-item><text:p>a</text:p></text:list-item>
              <text:list-item><text:p>b</text:p></text:list-item></text:list></table:table-cell>
            <table:table-cell><text:p>plain <text:span>bold</text:span></text:p></table:table-cell>
          </table:table-row></table:table></root>"#,
    );
    assert_eq!(t.rows[0][0], "List:\n\n- a\n- b");
    assert_eq!(t.rows[0][1], "plain bold");
}

#[test]
fn oo1x_lists_tabs_and_heading_levels_map() {
    let (root, x) = tree(
        r#"<root xmlns:text="x">
            <text:h text:level="2">Section</text:h>
            <text:p>a<text:tab-stop/><text:span>b</text:span></text:p>
            <text:ordered-list>
              <text:list-item><text:p>one</text:p>
                <text:unordered-list>
                  <text:list-item><text:p>sub</text:p></text:list-item>
                </text:unordered-list></text:list-item>
              <text:list-item><text:p>two</text:p></text:list-item>
            </text:ordered-list></root>"#,
    );
    let md = markdown(&walk_text(&root, &x));
    assert!(md.contains("### Section"), "text:level heading:\n{md}");
    assert!(md.contains("a\tb"), "tab-stop expands:\n{md}");
    assert!(md.contains("1. one"), "ordered-list numbers:\n{md}");
    assert!(md.contains("- sub"), "nested unordered-list bullets:\n{md}");
    assert!(md.contains("2. two"), "numbering continues:\n{md}");
}

#[test]
fn oo1x_style_properties_element_and_attribute_names() {
    let (_, x) = tree(
        r#"<root xmlns:style="s" xmlns:fo="f">
            <style:style style:name="T1" style:family="text">
              <style:properties fo:font-weight="bold"
                 style:text-crossing-out="single-line"
                 style:text-underline="single"/></style:style></root>"#,
    );
    let f = resolve_fmt(&x.styles, Some("T1"), plain_fmt());
    assert!(f.bold && f.strike && f.underline);
}

#[test]
fn oo1x_body_without_wrapper_converts() {
    let xml = r#"<office:document-content xmlns:office="o" xmlns:text="x"
              office:class="text" office:version="1.0">
            <office:body><text:p>Aus der Registratur.</text:p></office:body>
            </office:document-content>"#;
    let nodes = text_nodes(OdfBackend.convert(&flat(xml)).unwrap());
    assert!(markdown(&nodes).contains("Aus der Registratur."));
}

#[test]
fn flat_odf_single_file_converts() {
    let xml = r#"<office:document xmlns:office="o" xmlns:text="x" xmlns:table="t">
            <office:automatic-styles><table:body/></office:automatic-styles>
            <office:body><office:text>
              <text:h text:outline-level="1">Flat</text:h>
              <text:p>No zip here.</text:p>
            </office:text></office:body></office:document>"#;
    let md = markdown(&text_nodes(OdfBackend.convert(&flat(xml)).unwrap()));
    assert!(md.contains("## Flat"), "{md}");
    assert!(md.contains("No zip here."), "{md}");
}

#[test]
fn flat_inline_chart_object_renders_as_chart() {
    let (root, x) = tree(
        r#"<root xmlns:draw="d" xmlns:chart="c" xmlns:table="t" xmlns:text="x" xmlns:office="o">
          <draw:frame><draw:object>
            <office:document>
              <chart:chart chart:class="chart:bar">
                <table:table>
                  <table:table-row>
                    <table:table-cell office:value-type="string"><text:p>Row 1</text:p></table:table-cell>
                    <table:table-cell office:value-type="float"><text:p>9.1</text:p></table:table-cell>
                  </table:table-row>
                </table:table>
              </chart:chart>
            </office:document>
          </draw:object>
          <draw:image><office:binary-data>VkNMTVRGAQAx</office:binary-data></draw:image>
          </draw:frame></root>"#,
    );
    let mut nodes = Vec::new();
    walk_slide_frame(named(&root, "frame")[0], &x, false, &mut nodes);
    let charts: Vec<_> = nodes
        .iter()
        .filter(|n| matches!(n, Node::Chart { .. }))
        .collect();
    assert_eq!(charts.len(), 1, "inline object renders as one chart");
    assert!(
        matches!(charts[0], Node::Chart { kind, .. } if kind == "bar_chart"),
        "chart:class maps"
    );
    assert!(
        !nodes.iter().any(|n| matches!(n, Node::Picture { .. })),
        "SVM preview is not a picture"
    );
    assert!(
        !nodes.iter().any(|n| matches!(n, Node::Table(_))),
        "the chart's data table is not doubled as a standalone table"
    );
}

#[test]
fn inline_binary_image_magic_gates_pictures() {
    let (root, _) = tree(
        r#"<root xmlns:draw="d" xmlns:office="o">
            <draw:image draw:name="png"><office:binary-data>iVBORw0KGgoA</office:binary-data></draw:image>
            <draw:image draw:name="svm"><office:binary-data>VkNMTVRGAQAx</office:binary-data></draw:image>
          </root>"#,
    );
    let imgs = named(&root, "image");
    assert!(image_can_be_bitmap(imgs[0], &vec![]), "PNG magic");
    assert!(!image_can_be_bitmap(imgs[1], &vec![]), "SVM magic");
}

#[test]
fn merged_cells_leave_covered_columns_blank() {
    let t = table_of(
        r#"<root xmlns:table="t" xmlns:text="x">
          <table:table>
            <table:table-row>
              <table:table-cell table:number-columns-spanned="2"><text:p>Wide</text:p></table:table-cell>
              <table:covered-table-cell/>
              <table:table-cell><text:p>C</text:p></table:table-cell>
            </table:table-row>
            <table:table-row>
              <table:table-cell><text:p>x</text:p></table:table-cell>
              <table:table-cell><text:p>y</text:p></table:table-cell>
              <table:table-cell><text:p>z</text:p></table:table-cell>
            </table:table-row>
          </table:table></root>"#,
    );
    assert_eq!(t.rows[0], vec!["Wide", "", "C"]);
    assert_eq!(t.rows[1], vec!["x", "y", "z"]);
}

#[test]
fn each_opendocument_error_has_its_file() {
    assert!(matches!(OdfBackend.convert(&flat("<office")), Err(OdfError::Xml(_))));
    assert!(matches!(OdfBackend.convert(&flat("<root/>")), Err(OdfError::NotOffice)));
}

#[test]
fn packaged_charts_are_read_from_their_parts() {
    let chart = r#"<office:document-content xmlns:office="o" xmlns:chart="c" xmlns:table="t" xmlns:text="x">
        <office:body><office:chart><chart:chart chart:class="chart:line"><table:table>
        <table:table-row><table:table-cell><text:p>k</text:p></table:table-cell>
        <table:table-cell><text:p>v</text:p></table:table-cell></table:table-row>
        </table:table></chart:chart></office:chart></office:body></office:document-content>"#;
    let mut s = package(
        r#"<text:p><draw:frame><draw:object xlink:href="./Object 1"/></draw:frame></text:p>"#,
        &["Object 1/content.xml"],
    );
    s.objects.push(ObjectPart { name: "Object 1".to_string(), xml: chart.to_string() });
    let nodes = text_nodes(OdfBackend.convert(&s).unwrap());
    assert!(
        nodes
            .iter()
            .any(|n| matches!(n, Node::Chart { kind, .. } if kind == "line_chart")),
        "{nodes:?}"
    );
}

#[test]
fn small_odf_helpers_keep_their_promises() {
    assert_eq!(hyperlink_from_href(None), None);
    assert_eq!(hyperlink_from_href(Some("a.odt")), Some(chars("a.odt")));
    assert_eq!(
        decode_base64(&chars("aGk=")),
        Some(vec![u32::from(b'h'), u32::from(b'i')])
    );
    assert_eq!(chart_kind(Some("chart:bar")), Some(chars("bar_chart")));
}

#[test]
fn a_shape_without_text_is_no_title() {
    let xml = r#"<office:document xmlns:office="o" xmlns:text="x" xmlns:draw="d">
          <office:body><office:presentation>
            <draw:page draw:name="First"><draw:custom-shape/>
              <draw:frame><draw:text-box><text:p>body</text:p></draw:text-box></draw:frame></draw:page>
            <draw:page draw:name="Second"><draw:custom-shape><text:p>Own</text:p></draw:custom-shape></draw:page>
          </office:presentation></office:body></office:document>"#;
    let md = markdown(&text_nodes(OdfBackend.convert(&flat(xml)).unwrap()));
    assert_eq!(md, "# First\n\nbody\n\n# Own\n");
}

#[test]
fn the_wrapper_of_an_inline_chart_has_no_kind() {
    let (root, x) = tree(
        r#"<root xmlns:draw="d" xmlns:chart="c" xmlns:table="t" xmlns:text="x" xmlns:office="o">
          <draw:frame><draw:object><office:document><office:body><office:chart>
            <chart:chart chart:class="chart:line"><table:table><table:table-row>
              <table:table-cell office:value-type="string"><text:p>v</text:p></table:table-cell>
            </table:table-row></table:table></chart:chart>
          </office:chart></office:body></office:document></draw:object></draw:frame></root>"#,
    );
    let all = self_and_descendants(&root);
    let frame = all.iter().find(|e| e.tag == "frame").unwrap();
    let mut nodes = Vec::new();
    walk_slide_frame(frame, &x, false, &mut nodes);
    assert!(matches!(&nodes[0], Node::Chart { kind, .. } if kind == "line_chart"));
}

#[test]
fn metafiles_are_no_bitmaps() {
    let can = |mime: &str| {
        let root = parse_xml(&format!(r#"<image mime-type="{mime}"/>"#), false).unwrap();
        image_can_be_bitmap(&root, &vec![])
    };
    assert!(can("image/png"));
    assert!(!can("image/svg+xml"));
    assert!(!can("image/x-emf"));
    assert!(!can("image/wmf"));
    assert!(!can("application/pdf"));
}

#[test]
fn a_paragraph_is_stripped_at_its_two_ends() {
    let xml = r#"<office:document xmlns:office="o" xmlns:text="x" xmlns:style="s" xmlns:fo="f">
          <office:automatic-styles><style:style style:name="B">
            <style:text-properties fo:font-weight="bold"/></style:style></office:automatic-styles>
          <office:body><office:text><text:p><text:span text:style-name="B"> </text:span> a <text:span text:style-name="B">b </text:span> </text:p></office:text></office:body></office:document>"#;
    let nodes = text_nodes(OdfBackend.convert(&flat(xml)).unwrap());
    match &nodes[0] {
        Node::Inline { runs, .. } => {
            let texts: Vec<&str> = runs.iter().map(|r| r.text.as_str()).collect();
            assert_eq!(texts, ["a ", "b"]);
        }
        other => panic!("expected runs, got {other:?}"),
    }
}

#[test]
fn structured_runs_show_the_trimmed_text() {
    let run = |text: &str, bold: bool| Run {
        text: text.chars().collect(),
        fmt: Fmt { bold, ..plain_fmt() },
        href: None,
    };
    let runs = vec![run(" ", true), run(" a", false), run(" b ", false), run(" ", true), run("c\n", false), run(" ", true)];
    let whole: String = runs.iter().flat_map(|r| r.text.clone()).collect();
    let shown: String = runs_to_inline(&runs).iter().map(|r| r.text.as_str()).collect();
    assert_eq!(shown, whole.trim());
    assert_eq!(shown, "a b  c");
}
