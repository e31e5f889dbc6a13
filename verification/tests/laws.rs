use docling_backends::celltable::{grid_table, TextCell};
use docling_backends::chandra::parse_bbox;
use docling_backends::docling_json::DoclingJsonBackend;
use docling_backends::document::Node;
use docling_backends::html::{convert_html, MAX_DOM_DEPTH};
use docling_backends::interchange::split_sylk;
use docling_backends::jats::{confined_path, JatsBackend};
use docling_backends::location::{join_location, normalize_cid, posix_normpath};
use docling_backends::mhtml::{Found, MhtmlBackend};
use docling_backends::odf::{parse_styles, plain_fmt, resolve_fmt};
use docling_backends::odfbody::{Converted, OdfBackend, OdfSource};
use docling_backends::odftable::data_bounds;
use docling_backends::parse::parse_xml;
use docling_backends::sheet::{Cell, Grid};
use docling_backends::slide::{collect_placeholders, shape_geom, shape_location, Geom, PhMap};
use docling_backends::text::{chars_of, parse_uint, push_decimal, string_of, trim};

#[test]
fn decimals_are_read_back() {
    for n in [0u128, 7, 10, 4096, 18446744073709551615] {
        let mut out = Vec::new();
        push_decimal(&mut out, n);
        assert_eq!(parse_uint(&out, u128::MAX), Some(n));
    }
    assert_eq!(parse_uint(&chars_of("256"), 255), None);
}

#[test]
fn a_trimmed_text_stays_trimmed() {
    let once = trim(&chars_of(" \t a b \n"));
    assert_eq!(string_of(&once), "a b");
    assert_eq!(trim(&once), once);
}

#[test]
fn regions_show_each_cell_once() {
    let mut g = Grid::new();
    for (r, c, t) in [(0, 0, "a"), (0, 1, "b"), (1, 1, "c"), (5, 5, "d")] {
        g.insert(r, c, Cell::Text(t.to_string()));
    }
    assert_eq!(g.len(), 4);
    let tables = g.regions();
    assert_eq!(tables.len(), 2);
    let mut shown: Vec<String> = Vec::new();
    for t in &tables {
        for row in t {
            assert_eq!(row.len(), t[0].len());
            for cell in row {
                if let Cell::Text(s) = cell {
                    if !s.is_empty() {
                        shown.push(s.clone());
                    }
                }
            }
        }
    }
    shown.sort();
    assert_eq!(shown, ["a", "b", "c", "d"]);
}

#[test]
fn every_row_of_a_table_of_cells_is_full() {
    let cell = |row: usize, col: usize, text: &str| TextCell {
        row,
        col,
        text: chars_of(text),
    };
    let t = grid_table(&vec![cell(0, 1, "x"), cell(1, 0, "y")], 2, 3, 1);
    assert_eq!(t.rows, [["", "x", ""], ["y", "", ""]]);
}

#[test]
fn boxes_and_shapes_lie_on_the_grid() {
    let l = parse_bbox("0 0 1000 1000").unwrap();
    let s = shape_location(Some(Geom { x: -100, y: 0, cx: 5000, cy: 90 }), 1000, 100);
    for v in [l.left, l.top, l.right, l.bottom, s.left, s.top, s.right, s.bottom] {
        assert!(v <= 512);
    }
    assert!(s.left <= s.right && s.top <= s.bottom);
}

#[test]
fn confined_paths_stay_below_their_directory() {
    let confined = |rel: &str| confined_path(&chars_of("/d"), &chars_of(rel)).map(|p| string_of(&p));
    assert_eq!(confined("a/./b.png").as_deref(), Some("/d/a/b.png"));
    assert_eq!(confined("../b.png"), None);
    assert_eq!(confined("a/../../b.png"), None);
    assert_eq!(confined("/etc/b.png"), None);
}

#[test]
fn locations_are_normal_and_ids_agree() {
    assert_eq!(posix_normpath(&posix_normpath("/a/../b//c")), posix_normpath("/a/../b//c"));
    assert_eq!(normalize_cid("cid:x@y"), normalize_cid("<x@y>"));
    assert_eq!(
        join_location("http://one/a", "http://h/p.png"),
        join_location("http://two/b", "http://h/p.png")
    );
}

#[test]
fn sylk_fields_are_what_stands_between_semicolons() {
    let fields = split_sylk(&chars_of("C;X1;Y2;K\"a\""));
    let texts: Vec<String> = fields.iter().map(string_of).collect();
    assert_eq!(texts, ["C", "X1", "Y2", "K\"a\""]);
}

#[test]
fn bounds_cover_every_text() {
    let g = vec![
        vec![vec![], vec![], vec![]],
        vec![vec![], vec!['x'], vec![]],
        vec![vec![], vec!['y'], vec![]],
    ];
    let b = data_bounds(&g, 3).unwrap();
    assert_eq!((b.r0, b.r1, b.c0, b.c1), (1, 3, 1, 2));
    assert!(data_bounds(&vec![vec![vec![' '], vec![]]], 2).is_none());
    assert!(data_bounds(&vec![], 2).is_none());
}

#[test]
fn images_in_files_keep_their_declared_type() {
    let d = DoclingJsonBackend
        .convert(
            r##"{"name":"n","body":{"children":[{"$ref":"#/pictures/0"}]},
                 "pictures":[
                   {"label":"picture","image":{"uri":"a.bin","mimetype":"image/webp"}},
                   {"label":"picture","image":{"uri":"file:///b.jpg","mimetype":""}},
                   {"label":"picture","image":{"uri":"https://h/c.png"}},
                   {"label":"picture","image":{"uri":"data:image/png;base64,AA=="}}]}"##,
        )
        .unwrap();
    assert_eq!(d.files.len(), 2);
    assert_eq!(d.files[0].path, "a.bin");
    assert_eq!(d.files[0].mimetype.as_deref(), Some("image/webp"));
    assert_eq!(d.files[1].path, "/b.jpg");
    assert_eq!(d.files[1].mimetype, None);
}

fn named_sources(nodes: &[Node]) -> usize {
    let named = |n: &Node| match n {
        Node::Picture { sources, .. } => sources.len(),
        _ => 0,
    };
    nodes
        .iter()
        .map(|n| match n {
            Node::Furniture { inner, .. } => named(inner),
            other => named(other),
        })
        .sum()
}

#[test]
fn pictures_name_sources_only_where_images_are_fetched() {
    let page = r#"<img src="a.png"><h1>T</h1><p>t</p><figure><img src="b.png">
        <figcaption>c</figcaption></figure><footer><img src="d.png"></footer>"#;
    assert_eq!(named_sources(&convert_html(page, MAX_DOM_DEPTH, false)), 0);
    assert_eq!(named_sources(&convert_html(page, MAX_DOM_DEPTH, true)), 3);

    let article = r#"<article><body><p>x</p><fig><label>F</label><graphic
        xmlns:xlink="http://www.w3.org/1999/xlink" xlink:href="g.png"/></fig></body></article>"#;
    let backend = JatsBackend { fetch_images: true };
    assert_eq!(named_sources(&backend.convert(article, false).unwrap()), 0);
    assert!(named_sources(&backend.convert(article, true).unwrap()) > 0);
    let plain = JatsBackend { fetch_images: false };
    assert_eq!(named_sources(&plain.convert(article, true).unwrap()), 0);
}

#[test]
fn lists_become_nothing_but_items() {
    let page = "<ul><li>a<ol><li>b</li></ol></li></ul><dl><dt>t</dt><dd>d</dd></dl>";
    let nodes = convert_html(page, MAX_DOM_DEPTH, false);
    assert_eq!(nodes.len(), 4);
    assert!(nodes.iter().all(|n| matches!(n, Node::ListItem { .. })));
}

fn office(body: &str) -> Vec<Node> {
    let source = OdfSource {
        content: format!(
            "<office:document xmlns:office='o' xmlns:text='t' xmlns:draw='d' xmlns:xlink='x'>\
             <office:body><office:text>{body}</office:text></office:body></office:document>"
        ),
        styles: String::new(),
        parts: None,
        objects: Vec::new(),
        fetched: Vec::new(),
    };
    let mut nodes = Vec::new();
    for piece in OdfBackend.convert(&source).unwrap() {
        match piece {
            Converted::Nodes(mut more) => nodes.append(&mut more),
            Converted::Sheets(_) => panic!("a sheet in a text"),
        }
    }
    nodes
}

#[test]
fn office_lists_become_nothing_but_items() {
    let nodes = office(
        "<text:list><text:list-item><text:p>a</text:p><text:list><text:list-item>\
         <text:p>b</text:p></text:list-item></text:list></text:list-item></text:list>\
         <text:list><text:list-item/></text:list>",
    );
    assert_eq!(nodes.len(), 2);
    assert!(nodes.iter().all(|n| matches!(n, Node::ListItem { .. })));
}

#[test]
fn office_images_show_only_where_they_are_at_hand() {
    let frame = |href: &str| {
        office(&format!(
            "<text:p>t<draw:frame><draw:image xlink:href='{href}'/></draw:frame></text:p>"
        ))
    };
    for href in ["/etc/a.png", "../a.png", "http://h/a.png"] {
        assert!(frame(href).iter().all(|n| !matches!(n, Node::Picture { .. })));
    }
}

#[test]
fn archives_hold_no_image_unasked() {
    let bytes = b"MIME-Version: 1.0\r\nContent-Type: multipart/related; boundary=b\r\n\r\n\
        --b\r\nContent-Type: text/html\r\nContent-Location: http://h/p\r\n\r\n<p>x</p>\r\n\
        --b\r\nContent-Type: image/png\r\nContent-Location: http://h/a.png\r\n\r\nx\r\n--b--\r\n";
    let asked = MhtmlBackend { fetch_images: true, use_web_browser: false };
    let unasked = MhtmlBackend { fetch_images: false, use_web_browser: false };
    let open = |b: &MhtmlBackend| b.open(bytes).unwrap().resolve("http://h/a.png");
    assert!(matches!(open(&asked), Found::Part(_)));
    assert!(matches!(open(&unasked), Found::Missing));
}

#[test]
fn what_stands_before_the_first_heading_or_in_a_footer_is_furniture() {
    let layers = |html: &str| -> Vec<bool> {
        convert_html(html, MAX_DOM_DEPTH, false)
            .iter()
            .map(|n| match n {
                Node::Furniture { .. } => true,
                Node::ListItem { layer, .. } => layer.is_some(),
                _ => false,
            })
            .collect()
    };
    assert_eq!(layers("<p>a</p><ul><li>b</li></ul><h1>c</h1><p>d</p>"), [true, true, false, false]);
    assert_eq!(layers("<p>a</p><p>b</p>"), [false, false]);
    assert_eq!(layers("<p>a</p><footer><p>b</p><ul><li>c</li></ul></footer>"), [false, true, true]);
}

#[test]
fn a_layout_wins_over_its_master() {
    let part = |x: i64, y: i64| {
        parse_xml(
            &format!(
                r#"<sld><spTree><sp><ph idx="1" type="body"/><xfrm><off x="{x}" y="{y}"/><ext cx="3" cy="4"/></xfrm></sp></spTree></sld>"#
            ),
            false,
        )
        .unwrap()
    };
    let mut m = PhMap { by_idx: vec![], by_type: vec![] };
    collect_placeholders(&part(1, 2), &mut m);
    collect_placeholders(&part(9, 9), &mut m);
    let shape = parse_xml(r#"<sp><ph idx="1"/></sp>"#, false).unwrap();
    assert_eq!(shape_geom(&shape, &m), Some(Geom { x: 1, y: 2, cx: 3, cy: 4 }));
}

#[test]
fn a_style_wins_over_its_parent() {
    let root = parse_xml(
        r#"<d xmlns:style="s" xmlns:fo="f">
             <style:style style:name="A"><style:text-properties fo:font-weight="bold" fo:font-style="italic"/></style:style>
             <style:style style:name="B" style:parent-style-name="A"><style:text-properties fo:font-weight="normal"/></style:style></d>"#,
        false,
    )
    .unwrap();
    let mut styles = Vec::new();
    let mut lists = Vec::new();
    parse_styles(&root, &mut styles, &mut lists);
    let f = resolve_fmt(&styles, Some("B"), plain_fmt());
    assert!(!f.bold && f.italic);
}
