use std::io::Write;

use docling_backends::document::Script;
use docling_backends::pages::{
    Block, Comment, Content, Formatting, Label, ListLabel, Paragraph, Run,
};
use docling_backends::pages_xml::{open_document, read_tree, script_numbers, LegacyError, Whole};

fn chars(s: &str) -> Vec<char> {
    s.chars().collect()
}

fn text(p: &Paragraph) -> String {
    p.text().iter().collect()
}

fn content_of(xml: &str) -> Content {
    let root = open_document(xml.as_bytes().to_vec(), false).unwrap();
    let wholes: Vec<Whole> = script_numbers(&root)
        .into_iter()
        .filter_map(|t| {
            let v: f64 = t.iter().collect::<String>().trim().parse().ok()?;
            Some(Whole { text: t, value: v as u64 })
        })
        .collect();
    read_tree(&root, &wholes)
}

fn document(body: &str) -> String {
    format!(
        r#"<sl:document xmlns:sl="http://developer.apple.com/namespaces/sl" xmlns:sf="http://developer.apple.com/namespaces/sf" xmlns:sfa="http://developer.apple.com/namespaces/sfa">{body}</sl:document>"#
    )
}

#[test]
fn runs_follow_spans_links_and_placeholders() {
    let content = content_of(&document(
        r#"<sf:stylesheet>
              <sf:characterstyle sf:ident="cs-bold" sf:name="Bold"><sf:property-map><sf:bold><sf:number sfa:number="1"/></sf:bold></sf:property-map></sf:characterstyle>
              <sf:characterstyle sfa:ID="cs-sup"><sf:property-map><sf:superscript><sf:number sfa:number="1.0"/></sf:superscript></sf:property-map></sf:characterstyle>
              <sf:paragraphstyle sf:ident="ps-h" sf:name="Heading 2"/>
            </sf:stylesheet>
            <sf:text-body>
              <sf:p sf:style="ps-h"> A heading </sf:p>
              <sf:p>Plain <sf:span sf:style="cs-bold">bold</sf:span> then <sf:link href="https://x.y/">a <sf:span sf:style="cs-sup">link</sf:span></sf:link>.<sf:ghost-text>placeholder</sf:ghost-text> end</sf:p>
            </sf:text-body>"#,
    ));
    let paras: Vec<&Paragraph> = content
        .blocks
        .iter()
        .filter_map(|b| match b {
            Block::Paragraph(p) => Some(p),
            _ => None,
        })
        .collect();
    assert_eq!(paras.len(), 2);
    assert_eq!(paras[0].label, Label::Heading(2));
    assert_eq!(text(paras[0]), "A heading");
    let bold = Formatting::build(true, false, false, false, None);
    let sup = Formatting::build(false, false, false, false, Some(Script::Super));
    let link = Some(chars("https://x.y/"));
    assert_eq!(
        paras[1].runs,
        vec![
            Run::plain("Plain "),
            Run { text: chars("bold"), fmt: bold, link: None },
            Run::plain(" then "),
            Run { text: chars("a "), fmt: None, link: link.clone() },
            Run { text: chars("link"), fmt: sup, link },
            Run::plain("."),
            Run::plain(" end"),
        ]
    );
}

#[test]
fn lists_furniture_comments_and_tables() {
    let content = content_of(&document(
        r#"<sf:stylesheet>
              <sf:liststyle sf:ident="ls">
                <sf:list-label-typeinfo><sf:text-label sf:type="bullet" sf:format="•"/></sf:list-label-typeinfo>
                <sf:list-label-typeinfo><sf:text-label sf:type="decimal" sf:format="%L."/></sf:list-label-typeinfo>
                <sf:list-label-typeinfo sf:type="none"/>
              </sf:liststyle>
            </sf:stylesheet>
            <sf:header><sf:text-body><sf:p>HEAD</sf:p><sf:p>HEAD</sf:p></sf:text-body></sf:header>
            <sf:footer><sf:text-body><sf:p>FOOT</sf:p></sf:text-body></sf:footer>
            <sf:footnotes><sf:text-body><sf:p>Note one</sf:p></sf:text-body></sf:footnotes>
            <sf:annotations><sf:annotation sf:target="af-1"><sf:text-body><sf:p>a comment</sf:p><sf:p>more</sf:p></sf:text-body></sf:annotation></sf:annotations>
            <sf:text-body>
              <sf:p>Body <sf:annotation-field sfa:ID="af-1">annotated</sf:annotation-field> text</sf:p>
              <sf:p sf:list-style="ls" sf:list-level="1">first</sf:p>
              <sf:p sf:list-style="ls" sf:list-level="2">second</sf:p>
              <sf:p sf:list-style="ls" sf:list-level="3">plain again</sf:p>
              <sf:tabular-model sf:num-header-rows="1"><sf:grid sf:numcols="2" sf:numrows="2">
                <sf:datasource><sf:ct sfa:s="A"/><sf:ct><sf:p>B</sf:p></sf:ct><sf:ct sfa:s="1"/><sf:ct sfa:s="2"/></sf:datasource>
              </sf:grid></sf:tabular-model>
              <sf:media><sf:content><sf:image-media><sf:data sf:path="missing.png"/></sf:image-media></sf:content></sf:media>
            </sf:text-body>"#,
    ));
    let kinds: Vec<&str> = content
        .blocks
        .iter()
        .map(|b| match b {
            Block::Paragraph(_) => "p",
            Block::Table(_) => "table",
            Block::Picture(_) => "picture",
        })
        .collect();
    assert_eq!(kinds, ["p", "p", "p", "p", "table", "picture"]);
    let Block::Paragraph(body) = &content.blocks[0] else {
        unreachable!()
    };
    assert_eq!(text(body), "Body annotated text");
    assert_eq!(body.anchors, vec![chars("af-1")]);
    let Block::Paragraph(first) = &content.blocks[1] else {
        unreachable!()
    };
    assert_eq!(
        first.list,
        Some(ListLabel { depth: 0, enumerated: false, marker: chars("•") })
    );
    let Block::Paragraph(second) = &content.blocks[2] else {
        unreachable!()
    };
    assert_eq!(
        second.list,
        Some(ListLabel { depth: 1, enumerated: true, marker: vec![] })
    );
    let Block::Paragraph(third) = &content.blocks[3] else {
        unreachable!()
    };
    assert_eq!(third.list, None, "a `none` level is body text");
    let Block::Table(table) = &content.blocks[4] else {
        unreachable!()
    };
    assert_eq!(table.rows, vec![vec!["A", "B"], vec!["1", "2"]]);
    assert!(table.structure.as_ref().unwrap().col_header[0][0]);
    let Block::Picture(pic) = &content.blocks[5] else {
        unreachable!()
    };
    assert_eq!(pic, &vec![chars("missing.png")]);
    assert_eq!(content.headers.len(), 1, "identical header variants once");
    assert_eq!(text(&content.footers[0]), "FOOT");
    assert_eq!(text(&content.footnotes[0]), "Note one");
    assert_eq!(
        content.comments,
        vec![Comment { text: chars("a comment more"), anchor: chars("af-1") }]
    );
}

#[test]
fn a_compressed_document_is_unpacked() {
    let xml = document("<sf:text-body><sf:p>Packed</sf:p></sf:text-body>");
    let mut enc = flate2::write::GzEncoder::new(Vec::new(), flate2::Compression::fast());
    enc.write_all(xml.as_bytes()).unwrap();
    let packed = enc.finish().unwrap();
    let root = open_document(packed, true).unwrap();
    assert_eq!(root, open_document(xml.into_bytes(), false).unwrap());
}

#[test]
fn each_legacy_error_has_its_file() {
    assert_eq!(open_document(vec![1, 2, 3], true), Err(LegacyError::Gzip));
    assert_eq!(open_document(vec![0xff, 0xfe], false), Err(LegacyError::NotText));
    assert!(matches!(
        open_document(b"<a>".to_vec(), false),
        Err(LegacyError::Xml(_))
    ));
}

#[test]
fn a_property_set_to_zero_is_not_set() {
    let bold = |number: &str| {
        let content = content_of(&document(&format!(
            r#"<sf:characterstyle sf:ident="b"><sf:property-map><sf:bold><sf:number sfa:number="{number}"/></sf:bold></sf:property-map></sf:characterstyle>
               <sf:text-body><sf:p><sf:span sf:style="b">x</sf:span></sf:p></sf:text-body>"#
        )));
        match &content.blocks[0] {
            Block::Paragraph(p) => p.runs[0].fmt.map_or(false, |f| f.bold),
            _ => unreachable!(),
        }
    };
    assert!(bold("1"));
    assert!(bold("0.5"));
    for zero in ["0", "0.0", "-0", "0."] {
        assert!(!bold(zero), "{zero}");
    }
}
