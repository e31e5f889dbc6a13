use docling_backends::document::{Node, Table};
use docling_backends::jats::{
    confined_path, convert_generic, extension_of, is_absolute_path, is_local_path, rstrip_dot_space,
    sanitize_generic, JatsBackend,
};
use docling_backends::parse::XmlError;

fn table_text(t: &Table) -> String {
    let rows: Vec<Vec<String>> = t
        .rows
        .iter()
        .map(|r| r.iter().map(|c| c.replace('\n', " ")).collect())
        .collect();
    let cols = rows.iter().map(|r| r.len()).max().unwrap_or(0);
    let cell = |i: usize, c: usize| rows[i].get(c).map_or("", |s| s.as_str()).to_string();
    let width = |c: usize| {
        (0..rows.len())
            .map(|i| cell(i, c).chars().count() + if i == 0 { 2 } else { 0 })
            .max()
            .unwrap_or(0)
    };
    let numeric = |c: usize| {
        rows.len() > 1 && (1..rows.len()).all(|i| cell(i, c).trim().parse::<f64>().is_ok())
    };
    let mut lines: Vec<String> = Vec::new();
    for i in 0..rows.len() {
        let cells: Vec<String> = (0..cols)
            .map(|c| {
                if numeric(c) {
                    format!(" {:>w$} ", cell(i, c), w = width(c))
                } else {
                    format!(" {:<w$} ", cell(i, c), w = width(c))
                }
            })
            .collect();
        lines.push(format!("|{}|", cells.join("|")));
        if i == 0 {
            let rules: Vec<String> = (0..cols).map(|c| "-".repeat(width(c) + 2)).collect();
            lines.push(format!("|{}|", rules.join("|")));
        }
    }
    lines.join("\n")
}

fn block_text(n: &Node) -> Option<String> {
    match n {
        Node::Heading { level, text } => Some(format!("{} {}", "#".repeat(*level as usize), text)),
        Node::Paragraph { text } => Some(text.clone()),
        Node::Inline { text, .. } => Some(text.clone()),
        Node::ListItem { ordered, number, text, level, .. } => {
            let mark = if *ordered { format!("{number}.") } else { "-".to_string() };
            Some(format!("{}{} {}", "    ".repeat(*level as usize), mark, text))
        }
        Node::Table(t) => {
            let body = table_text(t);
            Some(match &t.caption {
                Some(c) => format!("{c}\n\n{body}"),
                None => body,
            })
        }
        Node::Picture { caption, .. } => Some(match caption {
            Some(c) => format!("{c}\n\n<!-- image -->"),
            None => "<!-- image -->".to_string(),
        }),
        Node::Formula { latex, .. } => Some(format!("$${latex}$$")),
        Node::Code { text, .. } => Some(format!("```\n{text}\n```")),
        Node::Caption { text, href } => Some(match href {
            Some(h) => format!("[{text}]({h})"),
            None => text.clone(),
        }),
        Node::FieldRegion { items } => {
            let parts: Vec<String> = items
                .iter()
                .flat_map(|f| [f.marker.clone(), f.key.clone(), f.value.clone()])
                .flatten()
                .collect();
            Some(parts.join("\n\n"))
        }
        Node::CheckboxItem { checked, text } => {
            Some(format!("- [{}] {}", if *checked { "x" } else { " " }, text))
        }
        Node::Located { inner, .. } | Node::Commented { inner, .. } => block_text(inner),
        Node::TextDump(t) => Some(t.clone()),
        _ => None,
    }
}

fn continues_list(n: &Node) -> bool {
    match n {
        Node::ListItem { first_in_list, level, .. } => !*first_in_list || *level > 0,
        Node::Located { inner, .. } => continues_list(inner),
        _ => false,
    }
}

fn markdown(nodes: &[Node]) -> String {
    let mut out = String::new();
    for n in nodes {
        if let Some(t) = block_text(n) {
            if !out.is_empty() {
                out.push_str(if continues_list(n) { "\n" } else { "\n\n" });
            }
            out.push_str(&t);
        }
    }
    if !out.is_empty() {
        out.push('\n');
    }
    out
}

fn chars(s: &str) -> Vec<char> {
    s.chars().collect()
}

fn convert(xml: &str) -> Vec<Node> {
    JatsBackend { fetch_images: false }.convert(xml, false).unwrap()
}

fn md_of(xml: &str) -> String {
    markdown(&convert(xml))
}

#[test]
fn ext_links_nbsp_and_display_formulas() {
    let xml = r#"<article xmlns:xlink="http://www.w3.org/1999/xlink"><front><article-meta>
            <title-group><article-title>T</article-title></title-group>
          </article-meta></front>
          <body><sec><title>S</title>
            <p>See RRID: <ext-link ext-link-type="uri" xlink:href="https://scicrunch.org/resolver/AB_1">AB_1</ext-link> here.</p>
            <p>Plain <ext-link xlink:href="  ">blank</ext-link> link.</p>
            <disp-formula><tex-math><![CDATA[$$\begin{eqnarray}
a=b
\end{eqnarray}$$]]></tex-math></disp-formula>
          </sec></body>
          <back><ref-list><title>References</title>
            <ref><mixed-citation>A. S. de&#xa0;Castro, Phys. Lett. A. 346 (2005).</mixed-citation></ref>
          </ref-list></back></article>"#;
    let nodes = convert(xml);
    let md = markdown(&nodes);
    assert!(
        md.contains("See RRID: [AB\\_1](https://scicrunch.org/resolver/AB_1) here."),
        "{md}"
    );
    assert!(
        md.contains("Plain blank link."),
        "blank href → no link: {md}"
    );
    assert!(
        md.contains("$$\\begin{eqnarray}\na=b\n\\end{eqnarray}$$"),
        "{md}"
    );
    assert!(md.contains("A. S. de\u{a0}Castro"), "{md}");
    assert!(nodes
        .iter()
        .any(|n| matches!(n, Node::Formula { latex, .. } if latex.starts_with("\\begin"))));
}

#[test]
fn metadata_and_sections() {
    let md = md_of(
        r#"<article><front><article-meta>
            <title-group><article-title>My Paper</article-title></title-group>
            <contrib-group>
              <contrib contrib-type="author"><name><surname>Doe</surname><given-names>Jane</given-names></name>
                <xref ref-type="aff" rid="a1"/></contrib>
            </contrib-group>
            <aff id="a1"><label>1</label>Acme &amp; Co</aff>
            <abstract><p>Short summary.</p></abstract>
          </article-meta></front>
          <body><sec><title>Intro</title><p>Body text.</p></sec></body></article>"#,
    );
    assert!(md.starts_with("# My Paper\n\nJane Doe\n\nAcme &amp; Co\n\n## Abstract\n\nShort summary.\n\n## Intro\n\nBody text."), "got:\n{md}");
}

#[test]
fn structured_abstract_keeps_its_sections() {
    let md = md_of(
        r#"<article><front><article-meta>
            <title-group><article-title>T</article-title></title-group>
            <abstract>
              <sec><title>Background</title><p>B one.</p><p>B two.</p></sec>
              <sec><p>No title here.</p></sec>
              <sec><title>Empty</title></sec>
              <sec><title>Outer</title><p>O.</p><sec><title>Inner</title><p>I.</p></sec></sec>
            </abstract>
          </article-meta></front><body/></article>"#,
    );
    assert_eq!(
        md,
        "# T

## Abstract

### Background

B one.

B two.

No title here.

### Outer

O.
"
    );
}

#[test]
fn abstract_label_and_skip_rules_follow_docling() {
    let md = md_of(
        r#"<article><front><article-meta>
            <title-group><article-title>T</article-title></title-group>
            <abstract><label>Summary</label><p>S.</p></abstract>
            <abstract abstract-type="graphical"><title>Graphical</title><sec><title>X</title></sec></abstract>
            <abstract><p>Plain.</p><sec><title>Also</title><p>Sectioned.</p></sec></abstract>
          </article-meta></front><body/></article>"#,
    );
    assert_eq!(
        md,
        "# T

## Summary

S.

## Abstract

### Also

Sectioned.
"
    );
}

#[test]
fn title_is_the_direct_text_of_the_title_group_children() {
    let md = md_of(
        r#"<article><front><article-meta>
            <title-group><article-title>Response of <italic>Y. pestis</italic> to stress</article-title>
              <subtitle>A sub</subtitle></title-group>
          </article-meta></front><body/></article>"#,
    );
    assert!(md.starts_with("# Response of A sub\n"), "{md}");
}

#[test]
fn body_tables_figures_and_references() {
    let md = md_of(
        r#"<article><front><article-meta>
            <title-group><article-title>T</article-title></title-group>
          </article-meta></front>
          <body><sec><title>S</title>
            <fig><label>Fig 1</label><caption><p>A caption.</p></caption><graphic/></fig>
            <table-wrap><label>Table 1</label><caption><p>Table cap.</p></caption>
              <table><thead><tr><th>Name</th><th>N</th></tr></thead>
              <tbody><tr><td>a</td><td>1</td></tr></tbody></table></table-wrap>
          </sec></body>
          <back><ref-list><title>References</title>
            <ref><mixed-citation>Doe J. A title. 2020.</mixed-citation></ref>
          </ref-list></back></article>"#,
    );
    assert!(
        md.contains("Fig 1 A caption.\n\n<!-- image -->"),
        "figure:\n{md}"
    );
    assert!(md.contains("Table 1 Table cap."), "table caption:\n{md}");
    assert!(md.contains("| Name"), "table grid:\n{md}");
    assert!(md.contains("## References"), "refs heading:\n{md}");
    assert!(md.contains("- Doe J. A title. 2020."), "citation:\n{md}");
}

#[test]
fn table_caption_and_span_structure() {
    let nodes = convert(
        r#"<article><body><sec><title>S</title>
            <table-wrap><label>Table 1</label><caption><p>Cap.</p></caption>
              <table>
                <thead><tr><th colspan="2">Group</th><th>N</th></tr></thead>
                <tbody><tr><td>a</td><td>b</td><td>1</td></tr></tbody>
              </table></table-wrap>
          </sec></body></article>"#,
    );
    let t = nodes
        .iter()
        .find_map(|n| match n {
            Node::Table(t) => Some(t),
            _ => None,
        })
        .expect("a table");
    assert_eq!(t.caption.as_deref(), Some("Table 1 Cap."));
    assert_eq!(t.rows[0][0], "Group");
    assert_eq!(t.rows[0][2], "N");
    let st = t.structure.as_ref().expect("structure");
    assert!(st.col_header[0][0] && st.col_header[0][2]);
    assert!(!st.col_header[1][0]);
    assert_eq!(st.col_continuation[0], vec![false, true, false]);
    let md = markdown(&nodes);
    assert!(md.contains("Table 1 Cap."), "md caption:\n{md}");
}

#[test]
fn emphasis_and_inline_formula() {
    let md = md_of(
        r#"<article><body><sec><title>S</title>
            <p>We combined <italic>B</italic>. <italic>malayi</italic> with a
               <bold>strong</bold> effect and mass <inline-formula><tex-math>$m c^2$</tex-math></inline-formula> energy.</p>
          </sec></body></article>"#,
    );
    assert!(
        md.contains("We combined *B* . *malayi* with a **strong** effect and mass $m c^2$ energy."),
        "emphasis + inline formula:\n{md}"
    );
}

#[test]
fn nested_lists_keep_structure() {
    let nodes = convert(
        r#"<article><body><sec><title>S</title>
            <list>
              <list-item><p>Item 1</p>
                <list>
                  <list-item><p>Subitem A</p></list-item>
                  <list-item><p>Subitem B</p></list-item>
                </list>
              </list-item>
              <list-item><p>Item 2</p></list-item>
            </list></sec></body></article>"#,
    );
    let items: Vec<(String, u8)> = nodes
        .iter()
        .filter_map(|n| match n {
            Node::ListItem { text, level, .. } => Some((text.clone(), *level)),
            _ => None,
        })
        .collect();
    assert_eq!(
        items,
        vec![
            ("Item 1".to_string(), 0),
            ("Subitem A".to_string(), 1),
            ("Subitem B".to_string(), 1),
            ("Item 2".to_string(), 0),
        ],
        "nested structure: {items:?}"
    );
    let md = markdown(&nodes);
    assert!(
        md.contains("- Item 1\n    - Subitem A"),
        "markdown nesting:\n{md}"
    );
}

#[test]
fn empty_display_formula_does_not_truncate() {
    let md = md_of(
        r#"<article><body><sec><title>S</title>
            <p>Before.</p>
            <disp-formula><tex-math/></disp-formula>
            <p>After.</p></sec></body></article>"#,
    );
    assert!(md.contains("Before."), "got:\n{md}");
    assert!(
        md.contains("After."),
        "content after the empty formula lost:\n{md}"
    );
    assert!(!md.contains("$$"), "no phantom formula:\n{md}");
}

fn jats_body(body: &str) -> String {
    format!(
        r#"<article xmlns:xlink="http://www.w3.org/1999/xlink"><front><article-meta>
            <title-group><article-title>T</article-title></title-group>
          </article-meta></front><body><sec><title>S</title>{body}</sec></body></article>"#
    )
}

fn convert_body(body: &str, fetch_images: bool, local: bool) -> Vec<Node> {
    JatsBackend { fetch_images }.convert(&jats_body(body), local).unwrap()
}

fn picture_sources(nodes: &[Node]) -> Vec<Vec<String>> {
    nodes
        .iter()
        .filter_map(|n| match n {
            Node::Picture { sources, .. } => Some(sources.clone()),
            _ => None,
        })
        .collect()
}

#[test]
fn figure_image_is_embedded_only_when_fetching() {
    let body = r#"<fig><label>Figure 1</label><caption><p>A red rectangle.</p></caption>
            <graphic xlink:href="images/figure.png"/></fig>"#;
    let nodes = convert_body(body, false, true);
    assert_eq!(picture_sources(&nodes), vec![Vec::<String>::new()]);

    let nodes = convert_body(body, true, true);
    let pics = picture_sources(&nodes);
    assert_eq!(pics.len(), 1);
    assert_eq!(pics[0], vec!["images/figure.png".to_string()]);
    let caption = nodes.iter().find_map(|n| match n {
        Node::Picture { caption, .. } => caption.clone(),
        _ => None,
    });
    assert_eq!(caption.as_deref(), Some("Figure 1 A red rectangle."));
    assert!(markdown(&nodes).contains("<!-- image -->"));
}

#[test]
fn figure_image_needs_a_local_source_file() {
    let body = r#"<fig><graphic xlink:href="figure.png"/></fig>"#;
    let nodes = convert_body(body, true, false);
    assert_eq!(picture_sources(&nodes), vec![Vec::<String>::new()]);
    let nodes = convert_body(body, true, true);
    assert!(!picture_sources(&nodes)[0].is_empty());
}

#[test]
fn figure_image_resolves_an_extensionless_href() {
    for graphic in [
        r#"<graphic xlink:href="images/figure"/>"#,
        r#"<alternatives><graphic xlink:href="images/unsupported.svg"/><graphic xlink:href="images/figure"/></alternatives>"#,
    ] {
        let nodes = convert_body(&format!("<fig>{graphic}</fig>"), true, true);
        let pics = picture_sources(&nodes);
        assert_eq!(pics.len(), 1, "{graphic}");
        assert!(pics[0].contains(&"images/figure.jpg".to_string()), "{pics:?}");
        assert!(!pics[0].iter().any(|s| s.ends_with(".svg")), "{pics:?}");
    }
}

#[test]
fn figure_image_falls_back_past_undecodable_and_absolute_renditions() {
    let nodes = convert_body(
        r#"<fig><alternatives><graphic xlink:href="images/broken.png"/><graphic xlink:href="images/figure.png"/></alternatives></fig>"#,
        true,
        true,
    );
    assert_eq!(
        picture_sources(&nodes)[0],
        vec!["images/broken.png".to_string(), "images/figure.png".to_string()]
    );
    let nodes = convert_body(
        r#"<fig><alternatives><graphic xlink:href="/tmp/absolute.png"/><graphic xlink:href="images/figure.png"/></alternatives></fig>"#,
        true,
        true,
    );
    assert_eq!(picture_sources(&nodes)[0], vec!["images/figure.png".to_string()]);
}

#[test]
fn figure_image_skips_unavailable_renditions() {
    for graphic in [
        "",
        "<graphic/>",
        r#"<graphic xlink:href=" "/>"#,
        r#"<graphic xlink:href="https://example.com/figure.png"/>"#,
        r#"<graphic xlink:href="figure.svg"/>"#,
    ] {
        let nodes = convert_body(
            &format!("<fig>{graphic}</fig><p>Content after the unavailable figure.</p>"),
            true,
            true,
        );
        assert_eq!(picture_sources(&nodes), vec![Vec::<String>::new()], "{graphic}");
        assert!(markdown(&nodes).contains("Content after the unavailable figure."));
    }
}

#[test]
fn figure_image_blocks_path_traversal() {
    let nodes = convert_body(
        r#"<fig><alternatives><graphic xlink:href="../outside.png"/><graphic xlink:href="fallback.png"/></alternatives></fig>
               <p>Content after the blocked figure.</p>"#,
        true,
        true,
    );
    assert_eq!(picture_sources(&nodes), vec![Vec::<String>::new()]);
    assert!(markdown(&nodes).contains("Content after the blocked figure."));
}

#[test]
fn figure_path_helpers_follow_docling() {
    assert!(is_local_path(&chars("images/a.png")));
    assert!(is_local_path(&chars("/abs/a.png")));
    assert!(is_local_path(&chars(r"C:\a.png")));
    assert!(!is_local_path(&chars("https://x/a.png")));
    assert!(!is_local_path(&chars("//cdn/a.png")));
    assert!(!is_local_path(&chars("data:image/png;base64,AA==")));
    assert!(is_absolute_path(&chars("/abs/a.png")));
    assert!(is_absolute_path(&chars("C:/a.png")));
    assert!(!is_absolute_path(&chars("images/a.png")));
    let base = chars("/base");
    assert_eq!(
        confined_path(&base, &chars("a/../b.png")),
        Some(chars("/base/b.png"))
    );
    assert_eq!(confined_path(&base, &chars("../b.png")), None);
    assert_eq!(confined_path(&base, &chars("/etc/passwd")), None);
}

#[test]
fn a_broken_article_is_refused() {
    assert!(matches!(
        JatsBackend { fetch_images: false }.convert("<article>", false),
        Err(XmlError::Syntax(_))
    ));
    assert!(convert_generic("no markup").is_err());
}

#[test]
fn any_tree_has_a_generic_conversion() {
    let nodes = convert_generic("<root><title>T</title><p>One  two</p></root>").unwrap();
    assert!(!nodes.is_empty());
    assert!(markdown(&nodes).contains("One"));
}

#[test]
fn small_text_helpers_keep_their_promises() {
    let mut s = chars("a. b. . ");
    rstrip_dot_space(&mut s);
    assert_eq!(s, chars("a. b"));
    assert_eq!(extension_of(&chars("x/y.PNG")).map(|e| e.len()), Some(3));
    assert_eq!(extension_of(&chars("x.d/y")), None);
    assert_eq!(sanitize_generic(&chars("a")), chars("a"));
}

#[test]
fn a_formula_is_what_stands_between_its_dollar_signs() {
    let formula = |t: &str| {
        md_of(&jats_body(&format!("<disp-formula><tex-math>{t}</tex-math></disp-formula>")))
    };
    assert!(formula("$$ a=b $$").contains("$$a=b$$"));
    let whole = formula(r"\begin{document}$$x+y$$\end{document}");
    assert!(whole.contains("$$x+y$$"), "{whole}");
    assert!(!whole.contains("document"), "{whole}");
    let single = formula(r"\begin{document}$x$\end{document}");
    assert!(single.contains("$$x$$"), "{single}");
    assert!(formula("a=b").contains("$$a=b$$"));
}
