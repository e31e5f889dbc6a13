use docling_backends::document::{Node, Table};
use docling_backends::html::MAX_DOM_DEPTH;
use docling_backends::mhtml::{
    find_root, mimetype, open_parts, walk, Found, MediaType, MhtmlBackend, MhtmlError, MimePart, Page,
};

fn table_text(t: &Table) -> String {
    let rows: Vec<Vec<String>> = t
        .rows
        .iter()
        .map(|r| r.iter().map(|c| c.replace('\n', " ")).collect())
        .collect();
    let cols = rows.iter().map(|r| r.len()).max().unwrap_or(0);
    let cell = |i: usize, c: usize| rows[i].get(c).map_or("", |s| s.as_str()).to_string();
    let width = |c: usize| {
        (0..rows.len())
            .map(|i| cell(i, c).chars().count() + if i == 0 { 2 } else { 0 })
            .max()
            .unwrap_or(0)
    };
    let numeric = |c: usize| {
        rows.len() > 1 && (1..rows.len()).all(|i| cell(i, c).trim().parse::<f64>().is_ok())
    };
    let mut lines: Vec<String> = Vec::new();
    for i in 0..rows.len() {
        let cells: Vec<String> = (0..cols)
            .map(|c| {
                if numeric(c) {
                    format!(" {:>w$} ", cell(i, c), w = width(c))
                } else {
                    format!(" {:<w$} ", cell(i, c), w = width(c))
                }
            })
            .collect();
        lines.push(format!("|{}|", cells.join("|")));
        if i == 0 {
            let rules: Vec<String> = (0..cols).map(|c| "-".repeat(width(c) + 2)).collect();
            lines.push(format!("|{}|", rules.join("|")));
        }
    }
    lines.join("\n")
}

fn block_text(n: &Node) -> Option<String> {
    match n {
        Node::Heading { level, text } => Some(format!("{} {}", "#".repeat(*level as usize), text)),
        Node::Paragraph { text } => Some(text.clone()),
        Node::Inline { text, .. } => Some(text.clone()),
        Node::ListItem { ordered, number, text, level, .. } => {
            let mark = if *ordered { format!("{number}.") } else { "-".to_string() };
            Some(format!("{}{} {}", "    ".repeat(*level as usize), mark, text))
        }
        Node::Table(t) => {
            let body = table_text(t);
            Some(match &t.caption {
                Some(c) => format!("{c}\n\n{body}"),
                None => body,
            })
        }
        Node::Picture { caption, .. } => Some(match caption {
            Some(c) => format!("{c}\n\n<!-- image -->"),
            None => "<!-- image -->".to_string(),
        }),
        Node::Formula { latex, .. } => Some(format!("$${latex}$$")),
        Node::Code { text, .. } => Some(format!("```\n{text}\n```")),
        Node::Caption { text, href } => Some(match href {
            Some(h) => format!("[{text}]({h})"),
            None => text.clone(),
        }),
        Node::FieldRegion { items } => {
            let parts: Vec<String> = items
                .iter()
                .flat_map(|f| [f.marker.clone(), f.key.clone(), f.value.clone()])
                .flatten()
                .collect();
            Some(parts.join("\n\n"))
        }
        Node::CheckboxItem { checked, text } => {
            Some(format!("- [{}] {}", if *checked { "x" } else { " " }, text))
        }
        Node::Located { inner, .. } | Node::Commented { inner, .. } => block_text(inner),
        Node::TextDump(t) => Some(t.clone()),
        _ => None,
    }
}

fn continues_list(n: &Node) -> bool {
    match n {
        Node::ListItem { first_in_list, level, .. } => !*first_in_list || *level > 0,
        Node::Located { inner, .. } => continues_list(inner),
        _ => false,
    }
}

fn markdown(nodes: &[Node]) -> String {
    let mut out = String::new();
    for n in nodes {
        if let Some(t) = block_text(n) {
            if !out.is_empty() {
                out.push_str(if continues_list(n) { "\n" } else { "\n\n" });
            }
            out.push_str(&t);
        }
    }
    if !out.is_empty() {
        out.push('\n');
    }
    out
}

fn red() -> Vec<u8> {
    vec![0x89, b'P', b'N', b'G', 255, 0, 0]
}

fn blue() -> Vec<u8> {
    vec![0x89, b'P', b'N', b'G', 0, 0, 255]
}

fn b64(bytes: &[u8]) -> String {
    let table: Vec<char> = "ABCDEFGHIJKLMNOPQRSTUVWXYZabcdefghijklmnopqrstuvwxyz0123456789+/"
        .chars()
        .collect();
    let mut out = String::new();
    for c in bytes.chunks(3) {
        let n = (u32::from(c[0]) << 16)
            | (u32::from(*c.get(1).unwrap_or(&0)) << 8)
            | u32::from(*c.get(2).unwrap_or(&0));
        for k in 0..4 {
            if k <= c.len() {
                out.push(table[((n >> (18 - 6 * k)) & 63) as usize]);
            } else {
                out.push('=');
            }
        }
    }
    out
}

fn archive_at(html: &str, extra_parts: &str, related_options: &str, root: &str) -> Vec<u8> {
    format!(
        "MIME-Version: 1.0\r\n\
         Content-Type: multipart/related; boundary=\"B\"{related_options}\r\n\r\n\
         --B\r\nContent-Type: text/html; charset=utf-8\r\nContent-ID: <root@example>\r\n\
         Content-Location: {root}\r\n\r\n{html}\r\n{extra_parts}--B--\r\n"
    )
    .into_bytes()
}

fn archive(html: &str, extra_parts: &str) -> Vec<u8> {
    archive_at(html, extra_parts, "", "https://example.com/docs/page.html")
}

fn png_part(headers: &str, bytes: &[u8]) -> String {
    format!(
        "--B\r\nContent-Type: image/png\r\n{headers}\r\nContent-Transfer-Encoding: base64\r\n\r\n{}\r\n",
        b64(bytes)
    )
}

fn convert(bytes: Vec<u8>, fetch_images: bool) -> Result<Page, MhtmlError> {
    MhtmlBackend { fetch_images, use_web_browser: false }.convert(&bytes, MAX_DOM_DEPTH)
}

fn md(bytes: Vec<u8>) -> String {
    markdown(&convert(bytes, false).unwrap().nodes)
}

/// The bytes of each picture's image, where the archive holds them.
fn pictures(page: &Page) -> Vec<Option<Vec<u8>>> {
    page.nodes
        .iter()
        .filter_map(|n| match n {
            Node::Picture { sources, .. } => Some(sources.iter().find_map(|s| {
                match page.archive.resolve(s) {
                    Found::Part(k) => Some(page.archive.parts[k].data.clone()),
                    Found::Inline => Some(s.clone().into_bytes()),
                    Found::Missing => None,
                }
            })),
            _ => None,
        })
        .collect()
}

fn failure(bytes: Vec<u8>) -> String {
    match convert(bytes, false) {
        Err(e) => e.message(),
        Ok(_) => panic!("an error expected"),
    }
}

#[test]
fn root_html_preserves_standard_html_semantics() {
    let html = r#"<html><body>
          <h1>Пример</h1>
          <p>Текст with <a href="https://example.com/details">a link</a>.</p>
          <ul><li>One</li><li>Two</li></ul>
          <table><tr><th>Key</th><th>Value</th></tr><tr><td>A</td><td>1</td></tr></table>
        </body></html>"#;
    let page = convert(archive(html, ""), false).unwrap();
    let text = markdown(&page.nodes);
    assert!(text.contains("# Пример"), "{text}");
    assert!(text.contains("[a link](https://example.com/details)"));
    assert!(text.contains("- One") && text.contains("- Two"));
    let tables: Vec<&Table> = page
        .nodes
        .iter()
        .filter_map(|n| match n {
            Node::Table(t) => Some(t),
            _ => None,
        })
        .collect();
    assert_eq!(tables.len(), 1);
    assert_eq!(tables[0].rows, [["Key", "Value"], ["A", "1"]]);
}

#[test]
fn related_start_selects_root_inside_nested_multipart() {
    let data = b"MIME-Version: 1.0\r\n\
            Content-Type: multipart/mixed; boundary=\"OUT\"\r\n\r\n\
            --OUT\r\nContent-Type: multipart/related; boundary=\"IN\"; start=\"<wanted@example>\"\r\n\r\n\
            --IN\r\nContent-Type: text/html\r\nContent-ID: <wrong@example>\r\n\r\n<p>Wrong root</p>\r\n\
            --IN\r\nContent-Type: text/html\r\nContent-ID: <wanted@example>\r\n\r\n<h1>Selected root</h1>\r\n\
            --IN--\r\n--OUT--\r\n"
        .to_vec();
    let text = md(data);
    assert!(text.contains("Selected root"));
    assert!(!text.contains("Wrong root"));
}

#[test]
fn related_start_selects_html_from_multipart_alternative() {
    let data = b"MIME-Version: 1.0\r\n\
            Content-Type: multipart/related; boundary=\"B\"; start=\"<root@example>\"\r\n\r\n\
            --B\r\nContent-Type: multipart/alternative; boundary=\"A\"\r\nContent-ID: <root@example>\r\n\r\n\
            --A\r\nContent-Type: text/plain\r\n\r\nPlain fallback\r\n\
            --A\r\nContent-Type: text/html\r\n\r\n<h1>HTML alternative</h1>\r\n\
            --A--\r\n--B--\r\n"
        .to_vec();
    let text = md(data);
    assert!(text.contains("# HTML alternative"), "{text}");
    assert!(!text.contains("Plain fallback"));
}

#[test]
fn related_without_start_does_not_select_later_html() {
    let data = b"MIME-Version: 1.0\r\n\
            Content-Type: multipart/related; boundary=\"B\"\r\n\r\n\
            --B\r\nContent-Type: text/plain\r\n\r\nFirst root\r\n\
            --B\r\nContent-Type: text/html\r\n\r\n<h1>Wrong root</h1>\r\n\
            --B--\r\n"
        .to_vec();
    let err = failure(data);
    assert!(err.contains("no HTML representation"), "{err}");
}

#[test]
fn declared_non_utf8_charset_is_decoded() {
    let html: Vec<u8> = "<html><body><p>Привет, мир</p></body></html>"
        .chars()
        .map(|c| match c {
            'А'..='я' => (0xC0 + (c as u32 - 'А' as u32)) as u8,
            c => c as u8,
        })
        .collect();
    let data = format!(
        "MIME-Version: 1.0\r\nContent-Type: text/html; charset=windows-1251\r\n\
         Content-Transfer-Encoding: base64\r\n\r\n{}\r\n",
        b64(&html)
    )
    .into_bytes();
    assert!(md(data).contains("Привет, мир"));
}

#[test]
fn embedded_images_resolve_by_location_and_cid() {
    let parts = png_part(
        "Content-Location: https://example.com/images/location.png",
        &red(),
    ) + &png_part("Content-ID: <CID-IMAGE@EXAMPLE>", &red());
    let html = r#"<html><body><img src="../images/location.png"><img src="cid:cid-image@example"></body></html>"#;
    let page = convert(archive(html, &parts), true).unwrap();
    let pics = pictures(&page);
    assert_eq!(pics.len(), 2);
    for p in pics {
        assert_eq!(p.expect("embedded"), red());
    }
}

#[test]
fn embedded_relative_location_resolves_with_file_root() {
    let parts = png_part("Content-Location: images/file.png", &red());
    let data = archive_at(
        r#"<html><body><img src="images/file.png"></body></html>"#,
        &parts,
        "",
        "file:///C:/saved/page.html",
    );
    let page = convert(data, true).unwrap();
    assert!(pictures(&page)[0].is_some());
}

#[test]
fn default_fetch_images_leaves_archive_image_as_placeholder() {
    let parts = png_part("Content-ID: <image@example>", &red());
    let page = convert(
        archive(
            r#"<html><body><img src="cid:image@example"></body></html>"#,
            &parts,
        ),
        false,
    )
    .unwrap();
    assert_eq!(pictures(&page), [None]);
}

#[test]
fn resources_are_limited_to_selected_related_scope() {
    let data = format!(
        "MIME-Version: 1.0\r\nContent-Type: multipart/mixed; boundary=\"OUT\"\r\n\r\n\
             --OUT\r\nContent-Type: multipart/related; boundary=\"ONE\"\r\n\r\n\
             --ONE\r\nContent-Type: text/html\r\n\r\n<html><body><img src=\"cid:shared@example\"></body></html>\r\n\
             --ONE\r\nContent-Type: image/png\r\nContent-ID: <shared@example>\r\nContent-Transfer-Encoding: base64\r\n\r\n{}\r\n\
             --ONE--\r\n\
             --OUT\r\nContent-Type: multipart/related; boundary=\"TWO\"\r\n\r\n\
             --TWO\r\nContent-Type: text/html\r\n\r\n<p>Other scope</p>\r\n\
             --TWO\r\nContent-Type: image/png\r\nContent-ID: <shared@example>\r\nContent-Transfer-Encoding: base64\r\n\r\n{}\r\n\
             --TWO--\r\n--OUT--\r\n",
        b64(&red()),
        b64(&blue())
    )
    .into_bytes();
    let page = convert(data, true).unwrap();
    assert_eq!(pictures(&page)[0], Some(red()));
}

#[test]
fn duplicate_resource_labels_keep_first_part() {
    let parts = png_part("Content-ID: <same@example>", &red())
        + &png_part("Content-ID: <same@example>", &blue());
    let page = convert(
        archive(
            r#"<html><body><img src="cid:same@example"></body></html>"#,
            &parts,
        ),
        true,
    )
    .unwrap();
    assert_eq!(pictures(&page)[0], Some(red()));
}

#[test]
fn equivalent_windows_archive_locations_resolve() {
    for root in [
        r"C:\safe\page.html",
        "C:/safe/page.html",
        "file:///C:/safe/page.html",
    ] {
        let parts = png_part("Content-Location: images/a.png", &red());
        let data = archive_at(
            r#"<html><body><img src="./images/a.png"></body></html>"#,
            &parts,
            "",
            root,
        );
        let page = convert(data, true).unwrap();
        assert_eq!(pictures(&page)[0], Some(red()), "{root}");
    }
}

#[test]
fn missing_and_unsupported_images_remain_placeholders() {
    let parts = "--B\r\nContent-Type: image/svg+xml\r\nContent-ID: <vector@example>\r\n\r\n\
                     <svg xmlns=\"http://www.w3.org/2000/svg\"></svg>\r\n\
                     --B\r\nContent-Type: image/png\r\nContent-ID: <empty@example>\r\n\
                     Content-Transfer-Encoding: base64\r\n\r\n\r\n";
    let html = r#"<html><body><img src="cid:missing@example"><img src="cid:vector@example"><img src="cid:empty@example"></body></html>"#;
    let page = convert(archive(html, parts), true).unwrap();
    let pics = pictures(&page);
    assert_eq!(pics.len(), 3);
    assert_eq!(pics[0], None);
    for p in pics.into_iter().flatten() {
        assert!(!p.starts_with(&[0x89, b'P', b'N', b'G']));
    }
}

#[test]
fn data_uri_image_is_decoded_under_fetch_images() {
    let uri = format!("data:image/png;base64,{}", b64(&red()));
    let html = format!(r#"<html><body><img src="{uri}"></body></html>"#);
    let page = convert(archive(&html, ""), true).unwrap();
    assert_eq!(pictures(&page)[0], Some(uri.into_bytes()));
    let page = convert(archive(&html, ""), false).unwrap();
    assert_eq!(pictures(&page), [None]);
}

#[test]
fn unusable_input_fails_cleanly() {
    let cases: [(&[u8], &str); 4] = [
        (
            b"MIME-Version: 1.0\r\nContent-Type: text/plain\r\n\r\nplain text\r\n",
            "no multipart/related root",
        ),
        (b"not a mime message", "no MIME Content-Type header"),
        (
            b"MIME-Version: 1.0\r\nContent-Type: multipart/mixed; boundary=\"B\"\r\n\r\n--B--\r\n",
            "no multipart/related root",
        ),
        (b"", "no MIME Content-Type header"),
    ];
    for (data, expected) in cases {
        let err = failure(data.to_vec());
        assert!(err.contains(expected), "{err}");
    }
    let err = failure(archive("", ""));
    assert!(err.contains("root part is empty"), "{err}");
}

#[test]
fn invalid_related_start_fails_cleanly() {
    let html = "<p>Fallback must not be selected</p>";
    let err = failure(archive_at(
        html,
        "",
        "; start=\"<missing@example>\"",
        "https://example.com/p.html",
    ));
    assert!(err.contains("start part was not found"), "{err}");
    let err = failure(archive_at(
        html,
        "--B\r\nContent-Type: text/plain\r\nContent-ID: <not-html@example>\r\n\r\nnot html\r\n",
        "; start=\"<not-html@example>\"",
        "https://example.com/p.html",
    ));
    assert!(err.contains("no HTML representation"), "{err}");
}

fn part(ctype: &str, subtype: &str, children: Option<Vec<u32>>, text: Option<&str>) -> MimePart {
    MimePart {
        kind: Some(MediaType {
            ctype: ctype.to_string(),
            subtype: Some(subtype.to_string()),
            start: None,
        }),
        location: None,
        id: None,
        children,
        text: text.map(|t| t.to_string()),
        data: vec![],
    }
}

#[test]
fn parts_are_walked_from_the_outside_in() {
    let parts = vec![
        part("multipart", "related", Some(vec![1, 2]), None),
        part("text", "html", None, Some("<p>x</p>")),
        part("image", "png", None, None),
    ];
    let mut order = Vec::new();
    walk(&parts, 0, &mut order);
    assert_eq!(order, vec![0, 1, 2]);
    assert_eq!(find_root(&parts), Ok((0, 1)));
    assert_eq!(mimetype(&parts[2]), "image/png");
    let a = match open_parts(parts, true) {
        Ok(a) => a,
        Err(e) => panic!("{e:?}"),
    };
    assert_eq!(a.html, "<p>x</p>");
    assert_eq!(a.resolve("cid:nothing"), Found::Missing);
}

#[test]
fn an_archive_without_related_parts_is_refused() {
    let empty = vec![part("multipart", "related", Some(vec![]), None)];
    assert_eq!(find_root(&empty), Err(MhtmlError::EmptyRelated));
    assert!(!MhtmlBackend::default().fetch_images);
}

#[test]
fn an_image_without_data_keeps_its_names() {
    let empty = png_part("Content-Location: a.png", b"");
    let later = png_part("Content-Location: a.png", b"later");
    let page = convert(
        archive("<img src=\"a.png\">", &format!("{empty}{later}")),
        true,
    )
    .unwrap();
    assert_eq!(pictures(&page), vec![Some(vec![])]);
}
