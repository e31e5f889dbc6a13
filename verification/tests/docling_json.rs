use docling_backends::docling_json::{
    marker_of, mime_of_extension, parse_data_uri, DoclingJsonBackend, Marker,
};
use docling_backends::document::{CaptionParent, Node, Table};

fn table_text(t: &Table) -> String {
    let rows: Vec<Vec<String>> = t
        .rows
        .iter()
        .map(|r| r.iter().map(|c| c.replace('\n', " ")).collect())
        .collect();
    let cols = rows.iter().map(|r| r.len()).max().unwrap_or(0);
    let cell = |i: usize, c: usize| rows[i].get(c).map_or("", |s| s.as_str()).to_string();
    let width = |c: usize| {
        (0..rows.len())
            .map(|i| cell(i, c).chars().count() + if i == 0 { 2 } else { 0 })
            .max()
            .unwrap_or(0)
    };
    let numeric = |c: usize| {
        rows.len() > 1 && (1..rows.len()).all(|i| cell(i, c).trim().parse::<f64>().is_ok())
    };
    let mut lines: Vec<String> = Vec::new();
    for i in 0..rows.len() {
        let cells: Vec<String> = (0..cols)
            .map(|c| {
                if numeric(c) {
                    format!(" {:>w$} ", cell(i, c), w = width(c))
                } else {
                    format!(" {:<w$} ", cell(i, c), w = width(c))
                }
            })
            .collect();
        lines.push(format!("|{}|", cells.join("|")));
        if i == 0 {
            let rules: Vec<String> = (0..cols).map(|c| "-".repeat(width(c) + 2)).collect();
            lines.push(format!("|{}|", rules.join("|")));
        }
    }
    lines.join("\n")
}

fn block_text(n: &Node) -> Option<String> {
    match n {
        Node::Heading { level, text } => Some(format!("{} {}", "#".repeat(*level as usize), text)),
        Node::Paragraph { text } => Some(text.clone()),
        Node::Inline { text, .. } => Some(text.clone()),
        Node::ListItem { ordered, number, text, level, .. } => {
            let mark = if *ordered { format!("{number}.") } else { "-".to_string() };
            Some(format!("{}{} {}", "    ".repeat(*level as usize), mark, text))
        }
        Node::Table(t) => {
            let body = table_text(t);
            Some(match &t.caption {
                Some(c) => format!("{c}\n\n{body}"),
                None => body,
            })
        }
        Node::Picture { caption, .. } => Some(match caption {
            Some(c) => format!("{c}\n\n<!-- image -->"),
            None => "<!-- image -->".to_string(),
        }),
        Node::Formula { latex, .. } => Some(format!("$${latex}$$")),
        Node::Code { text, .. } => Some(format!("```\n{text}\n```")),
        Node::Caption { text, href } => Some(match href {
            Some(h) => format!("[{text}]({h})"),
            None => text.clone(),
        }),
        Node::FieldRegion { items } => {
            let parts: Vec<String> = items
                .iter()
                .flat_map(|f| [f.marker.clone(), f.key.clone(), f.value.clone()])
                .flatten()
                .collect();
            Some(parts.join("\n\n"))
        }
        Node::CheckboxItem { checked, text } => {
            Some(format!("- [{}] {}", if *checked { "x" } else { " " }, text))
        }
        Node::Located { inner, .. } | Node::Commented { inner, .. } => block_text(inner),
        Node::TextDump(t) => Some(t.clone()),
        _ => None,
    }
}

fn continues_list(n: &Node) -> bool {
    match n {
        Node::ListItem { first_in_list, level, .. } => !*first_in_list || *level > 0,
        Node::Located { inner, .. } => continues_list(inner),
        _ => false,
    }
}

fn markdown(nodes: &[Node]) -> String {
    let mut out = String::new();
    for n in nodes {
        if let Some(t) = block_text(n) {
            if !out.is_empty() {
                out.push_str(if continues_list(n) { "\n" } else { "\n\n" });
            }
            out.push_str(&t);
        }
    }
    if !out.is_empty() {
        out.push('\n');
    }
    out
}

fn convert(json: &str) -> Vec<Node> {
    DoclingJsonBackend.convert(json).unwrap().nodes
}

fn md(json: &str) -> String {
    markdown(&convert(json))
}

fn item(self_ref: &str, parent: &str, label: &str, extra: &str) -> String {
    format!(
        r#"{{"self_ref":"{self_ref}","parent":{{"$ref":"{parent}"}},"children":[],"label":"{label}","prov":[]{extra}}}"#
    )
}

#[test]
fn caption_parents_round_trip() {
    let cap = |i: usize, parent: &str| {
        item(
            &format!("#/texts/{i}"),
            parent,
            "caption",
            r#","orig":"c","text":"c""#,
        )
    };
    let pic = |i: usize, parent: &str, cap: usize| {
        item(
            &format!("#/pictures/{i}"),
            parent,
            "picture",
            &format!(r##","captions":[{{"$ref":"#/texts/{cap}"}}],"annotations":[]"##),
        )
    };
    let json = format!(
        r##"{{"schema_name":"DoclingDocument","version":"1.10.0","name":"t",
            "body":{{"self_ref":"#/body","children":[{{"$ref":"#/pictures/0"}},{{"$ref":"#/groups/0"}},{{"$ref":"#/texts/1"}},{{"$ref":"#/pictures/2"}}],"name":"_root_","label":"unspecified"}},
            "furniture":{{"self_ref":"#/furniture","children":[],"name":"_root_","label":"unspecified"}},
            "groups":[{{"self_ref":"#/groups/0","parent":{{"$ref":"#/body"}},"children":[{{"$ref":"#/texts/2"}},{{"$ref":"#/pictures/1"}}],"name":"sheet","label":"section"}}],
            "texts":[{},{},{}],
            "pictures":[{},{},{}],
            "tables":[],"key_value_items":[],"form_items":[],"pages":{{}}}}"##,
        cap(0, "#/pictures/0"),
        cap(1, "#/body"),
        cap(2, "#/groups/0"),
        pic(0, "#/body", 0),
        pic(1, "#/groups/0", 2),
        pic(2, "#/body", 1),
    );
    let nodes = convert(&json);
    let parents: Vec<CaptionParent> = nodes
        .iter()
        .filter_map(|n| match n {
            Node::Picture { caption_parent, .. } => Some(*caption_parent),
            _ => None,
        })
        .collect();
    assert_eq!(
        parents,
        [
            CaptionParent::Item,
            CaptionParent::Container,
            CaptionParent::Body
        ]
    );
}

#[test]
fn a_pictures_image_survives_the_round_trip() {
    let png = "iVBORw0KGgoAAAANSUhEUgAAADwAAAAoCAIAAAAt2Q6oAAAASUlEQVR4nO3OQQ3AIAAAMUAI/qUgCw97HFnSKug8e4+/Wa8DX0hXpCvSFemKdEW6Il2RrkhXpCvSFemKdEW6Il2RrkhXpCvSlQtBOQFUzKPJpQAAAABJRU5ErkJggg==";
    let json_with = |uri: &str| {
        format!(
            r##"{{"name":"t","body":{{"children":[{{"$ref":"#/pictures/0"}}]}},
                  "texts":[],"groups":[],"tables":[],
                  "pictures":[{{"self_ref":"#/pictures/0","label":"picture","captions":[],"children":[],
                    "image":{{"mimetype":"image/png","dpi":72,"size":{{"width":60.0,"height":40.0}},"uri":"{uri}"}}}}]}}"##
        )
    };
    let sources = |nodes: &[Node]| {
        nodes
            .iter()
            .find_map(|n| match n {
                Node::Picture { sources, .. } => Some(sources.clone()),
                _ => None,
            })
            .expect("a picture")
    };
    let uri = format!("data:image/png;base64,{png}");
    assert_eq!(sources(&convert(&json_with(&uri))), vec![uri]);
    let path = "artifacts/image_000000.png";
    assert_eq!(sources(&convert(&json_with(path))), vec![path.to_string()]);
}

#[test]
fn captions_lead_a_picture_and_a_table_but_trail_code() {
    let json = r##"{
          "name":"n","body":{"children":[{"$ref":"#/pictures/0"},{"$ref":"#/tables/0"},{"$ref":"#/texts/2"}]},
          "texts":[
            {"self_ref":"#/texts/0","label":"caption","text":"Figure 1: a duck","children":[]},
            {"self_ref":"#/texts/1","label":"caption","text":"Table 1: the counts","children":[]},
            {"self_ref":"#/texts/2","label":"code","text":"let x = 1;","children":[],
             "captions":[{"$ref":"#/texts/3"}]},
            {"self_ref":"#/texts/3","label":"caption","text":"Listing 1: a binding","children":[]}
          ],
          "groups":[],
          "tables":[{"self_ref":"#/tables/0","label":"table","captions":[{"$ref":"#/texts/1"}],
                     "data":{"grid":[[{"text":"a"}]]},"children":[]}],
          "pictures":[{"self_ref":"#/pictures/0","label":"picture","captions":[{"$ref":"#/texts/0"}],"children":[]}]
        }"##;
    assert_eq!(
        md(json),
        "Figure 1: a duck\n\n<!-- image -->\n\nTable 1: the counts\n\n| a   |\n|-----|\n\n```\nlet x = 1;\n```\n\nListing 1: a binding\n"
    );
}

#[test]
fn an_unclaimed_caption_still_renders() {
    let json = r##"{
          "name":"n","body":{"children":[{"$ref":"#/texts/0"},{"$ref":"#/pictures/0"},{"$ref":"#/texts/1"}]},
          "texts":[
            {"self_ref":"#/texts/0","label":"caption","text":"Figure 6: nobody claims me","children":[]},
            {"self_ref":"#/texts/1","label":"caption","text":"Figure 7: claimed","children":[]}
          ],
          "groups":[],"tables":[],
          "pictures":[{"self_ref":"#/pictures/0","label":"picture","captions":[{"$ref":"#/texts/1"}],"children":[]}]
        }"##;
    assert_eq!(
        md(json),
        "Figure 6: nobody claims me\n\nFigure 7: claimed\n\n<!-- image -->\n"
    );
}

#[test]
fn a_numeric_marker_is_printed_verbatim() {
    let json = r##"{
          "name":"n","body":{"children":[{"$ref":"#/groups/0"}]},
          "texts":[
            {"self_ref":"#/texts/0","label":"list_item","text":"Xue, W.","marker":"18.","enumerated":true,"children":[]},
            {"self_ref":"#/texts/1","label":"list_item","text":"Ye, J.","marker":"19.","enumerated":true,"children":[]}
          ],
          "groups":[{"self_ref":"#/groups/0","label":"list","name":"list",
                     "children":[{"$ref":"#/texts/0"},{"$ref":"#/texts/1"}]}],
          "tables":[],"pictures":[]
        }"##;
    assert_eq!(md(json), "18. Xue, W.\n19. Ye, J.\n");
}

#[test]
fn a_non_markdown_marker_forces_a_bullet_and_is_kept() {
    let json = r##"{
          "name":"n","body":{"children":[{"$ref":"#/groups/0"}]},
          "texts":[
            {"self_ref":"#/texts/0","label":"list_item","text":"Human Annotation","marker":"(1)","enumerated":true,"children":[]},
            {"self_ref":"#/texts/1","label":"list_item","text":"Red - PDF cells","marker":"a.","enumerated":true,"children":[]},
            {"self_ref":"#/texts/2","label":"list_item","text":"a stray glyph","marker":"\u0084","enumerated":false,"children":[]}
          ],
          "groups":[{"self_ref":"#/groups/0","label":"list","name":"list",
                     "children":[{"$ref":"#/texts/0"},{"$ref":"#/texts/1"},{"$ref":"#/texts/2"}]}],
          "tables":[],"pictures":[]
        }"##;
    assert_eq!(
        md(json),
        "- (1) Human Annotation\n- a. Red - PDF cells\n- a stray glyph\n"
    );
}

#[test]
fn an_unmarked_item_is_numbered_by_its_position_in_the_group() {
    let json = r##"{
          "name":"n","body":{"children":[{"$ref":"#/groups/0"}]},
          "texts":[
            {"self_ref":"#/texts/0","label":"list_item","text":"one","marker":"","enumerated":true,"children":[]},
            {"self_ref":"#/texts/1","label":"list_item","text":"nested","marker":"","enumerated":true,"children":[]},
            {"self_ref":"#/texts/2","label":"list_item","text":"after","marker":"","enumerated":true,"children":[]}
          ],
          "groups":[
            {"self_ref":"#/groups/0","label":"list","name":"list",
             "children":[{"$ref":"#/texts/0"},{"$ref":"#/groups/1"},{"$ref":"#/texts/2"}]},
            {"self_ref":"#/groups/1","label":"list","name":"list","children":[{"$ref":"#/texts/1"}]}
          ],
          "tables":[],"pictures":[]
        }"##;
    assert_eq!(md(json), "1. one\n    1. nested\n3. after\n");
}

#[test]
fn a_group_starting_on_a_bullet_stays_bulleted() {
    let json = r##"{
          "name":"n","body":{"children":[{"$ref":"#/groups/0"}]},
          "texts":[
            {"self_ref":"#/texts/0","label":"list_item","text":"bullet first","marker":"","enumerated":false,"children":[]},
            {"self_ref":"#/texts/1","label":"list_item","text":"still a bullet","marker":"","enumerated":true,"children":[]}
          ],
          "groups":[{"self_ref":"#/groups/0","label":"list","name":"list",
                     "children":[{"$ref":"#/texts/0"},{"$ref":"#/texts/1"}]}],
          "tables":[],"pictures":[]
        }"##;
    assert_eq!(md(json), "- bullet first\n- still a bullet\n");
}

#[test]
fn checkboxes_render_and_code_is_not_escaped() {
    let json = r##"{
          "name":"n","body":{"children":[{"$ref":"#/texts/0"},{"$ref":"#/texts/1"},{"$ref":"#/texts/2"},{"$ref":"#/texts/3"}]},
          "texts":[
            {"self_ref":"#/texts/0","label":"checkbox_selected","text":"done","children":[]},
            {"self_ref":"#/texts/1","label":"checkbox_unselected","text":"todo","children":[]},
            {"self_ref":"#/texts/2","label":"code","text":"VERIFY_GROUP_FOR_USER ( SESSION_USER )","children":[]},
            {"self_ref":"#/texts/3","label":"formula","text":"a_1 + b_2","orig":"a_1 + b_2","children":[]}
          ],
          "groups":[],"tables":[],"pictures":[]
        }"##;
    assert_eq!(
        md(json),
        "- [x] done\n\n- [ ] todo\n\n```\nVERIFY_GROUP_FOR_USER ( SESSION_USER )\n```\n\n$$a_1 + b_2$$\n"
    );
}

#[test]
fn walks_children_nested_under_headings() {
    let json = r##"{
          "name": "n", "body": {"children": [{"$ref":"#/texts/0"}]},
          "texts": [
            {"self_ref":"#/texts/0","label":"section_header","level":1,"text":"Intro",
             "children":[{"$ref":"#/texts/1"},{"$ref":"#/texts/2"}]},
            {"self_ref":"#/texts/1","label":"text","text":"First para","children":[]},
            {"self_ref":"#/texts/2","label":"section_header","level":2,"text":"Sub",
             "children":[{"$ref":"#/texts/3"}]},
            {"self_ref":"#/texts/3","label":"text","text":"Deep para","children":[]}
          ],
          "groups": [], "tables": [], "pictures": []
        }"##;
    assert_eq!(
        md(json),
        "## Intro\n\nFirst para\n\n### Sub\n\nDeep para\n"
    );
}

#[test]
fn walks_body_tree_with_formatting_and_lists() {
    let json = r##"{
          "schema_name": "DoclingDocument", "name": "t",
          "body": {"children": [{"$ref":"#/texts/0"},{"$ref":"#/texts/1"},{"$ref":"#/groups/0"}]},
          "texts": [
            {"self_ref":"#/texts/0","label":"title","text":"Doc"},
            {"self_ref":"#/texts/1","label":"section_header","level":1,"text":"Sec","hyperlink":"http://x"},
            {"self_ref":"#/texts/2","label":"list_item","text":"one","enumerated":false},
            {"self_ref":"#/texts/3","label":"list_item","text":"two","enumerated":false,
             "formatting":{"bold":true,"italic":false,"strikethrough":false}}
          ],
          "groups": [{"self_ref":"#/groups/0","label":"list",
                      "children":[{"$ref":"#/texts/2"},{"$ref":"#/texts/3"}]}],
          "tables": [], "pictures": []
        }"##;
    let md = md(json);
    assert!(
        md.starts_with("# Doc\n\n## [Sec](http://x)\n\n- one\n- **two**"),
        "got:\n{md}"
    );
}

#[test]
fn a_document_keeps_its_name_and_broken_json_is_refused() {
    let d = DoclingJsonBackend.convert(r#"{"name":"t","body":{"children":[]}}"#).unwrap();
    assert_eq!(d.name.as_deref(), Some("t"));
    assert!(d.nodes.is_empty());
    assert!(DoclingJsonBackend.convert("{").is_err());
}

#[test]
fn a_reference_to_itself_ends() {
    let json = r##"{"name":"n","body":{"children":[{"$ref":"#/groups/0"}]},
          "texts":[],"groups":[{"self_ref":"#/groups/0","label":"section","children":[{"$ref":"#/groups/0"}]}],
          "tables":[],"pictures":[]}"##;
    assert!(convert(json).is_empty());
}

#[test]
fn markers_addresses_and_extensions_are_read() {
    let chars = |s: &str| s.chars().collect::<Vec<char>>();
    assert!(matches!(marker_of(&chars("")), Marker::FromGroup));
    assert!(matches!(marker_of(&chars("-")), Marker::Verbatim(None)));
    assert!(matches!(marker_of(&chars("7.")), Marker::Verbatim(Some(7))));
    assert!(matches!(marker_of(&chars("(a)")), Marker::Bullet(Some(_))));
    assert!(matches!(marker_of(&chars("*)")), Marker::Bullet(None)));
    assert!(parse_data_uri(&chars("data:image/png;base64,AA==")).is_some());
    assert!(parse_data_uri(&chars("https://x/a.png")).is_none());
    assert_eq!(mime_of_extension("png"), "image/png");
    assert_eq!(mime_of_extension("jpg"), "image/jpeg");
}

#[test]
fn furniture_is_skipped_in_lists_and_lines() {
    let json = r##"{"name":"n","body":{"children":[{"$ref":"#/groups/0"},{"$ref":"#/groups/1"}]},
          "texts":[
            {"self_ref":"#/texts/0","label":"list_item","text":"one","enumerated":true,"children":[]},
            {"self_ref":"#/texts/1","label":"list_item","text":"gone","content_layer":"furniture","children":[]},
            {"self_ref":"#/texts/2","label":"list_item","text":"three","children":[]},
            {"self_ref":"#/texts/3","label":"text","text":"a","children":[]},
            {"self_ref":"#/texts/4","label":"text","text":"gone","content_layer":"furniture","children":[]},
            {"self_ref":"#/texts/5","label":"text","text":"b","children":[]}],
          "groups":[
            {"self_ref":"#/groups/0","label":"list","children":[{"$ref":"#/texts/0"},{"$ref":"#/texts/1"},{"$ref":"#/texts/2"}]},
            {"self_ref":"#/groups/1","label":"inline","children":[{"$ref":"#/texts/3"},{"$ref":"#/texts/4"},{"$ref":"#/texts/5"}]}],
          "tables":[],"pictures":[]}"##;
    assert_eq!(md(json), "1. one\n3. three\n\na b\n");
}

#[test]
fn only_tables_pictures_and_code_claim_captions() {
    let json = |label: &str| {
        format!(
            r##"{{"name":"n","body":{{"children":[{{"$ref":"#/texts/0"}}]}},
              "texts":[
                {{"self_ref":"#/texts/0","label":"caption","text":"Listing 1","children":[]}},
                {{"self_ref":"#/texts/1","label":"{label}","text":"x","captions":[{{"$ref":"#/texts/0"}}],"children":[]}}],
              "groups":[],"tables":[],"pictures":[]}}"##
        )
    };
    assert!(convert(&json("code")).is_empty());
    assert_eq!(md(&json("text")), "Listing 1\n");
}

#[test]
fn markers_with_letters_of_any_script_are_kept() {
    let chars = |s: &str| s.chars().collect::<Vec<char>>();
    assert!(matches!(marker_of(&chars("\u{3b1})")), Marker::Bullet(Some(_))));
    assert!(matches!(marker_of(&chars("(\u{e9})")), Marker::Bullet(Some(_))));
    assert!(matches!(marker_of(&chars("\u{2022}")), Marker::Bullet(None)));
}

#[test]
fn file_addresses_name_their_paths() {
    let path = |uri: &str| {
        let json = format!(
            r##"{{"name":"n","body":{{"children":[]}},"pictures":[{{"label":"picture","image":{{"uri":"{uri}"}}}}]}}"##
        );
        DoclingJsonBackend.convert(&json).unwrap().files.into_iter().next().map(|f| f.path)
    };
    assert_eq!(path("file:///a/b.png").as_deref(), Some("/a/b.png"));
    assert_eq!(path("file:/a/b.png").as_deref(), Some("/a/b.png"));
    assert_eq!(path("a/b.png").as_deref(), Some("a/b.png"));
    assert_eq!(path("ftp://h/b.png"), None);
}
