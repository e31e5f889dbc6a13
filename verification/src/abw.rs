//! AbiWord documents.
//!
//! Sections hold paragraphs, whose style names titles, headings and lists,
//! and tables, whose cells name the rectangle that they take. Headers and
//! footers are dropped.

use crate::document::{
    blank, blank_cells, blank_has_shape, fill_cells, filled, filled_keeps_shape, has_shape, heading,
    nodes_view, opt, plain_table, plain_table_view, push_node, runs_view, runs_view_push,
    string_grid, strs, table_view, CaptionParent, InlineRun, InlineRunV, Node, NodeV, Script, Table,
    TableV,
};
use crate::htmllist::next_number;
use crate::inline::{between, wrap};
use crate::jats::{copy_opt, opt_chars};
use crate::odfbody::{decode_base64, from_base64};
use crate::parse::{parse_xml, xml_items, XmlError};
use crate::text::{
    chars_of, chars_or_empty, contains, contains_from, copy, escape_text, escaped, find_from,
    has_prefix, index_from, is, is_white, join, joined, lowered, or_empty, parse_uint, push_all,
    push_str, same, slice, split, splits, starts_with, str_eq, string_of, strip, texts, texts_push,
    to_lower, trim, uint, white,
};
use crate::tree::{
    all_text, attr, attr_of, descendants, has_tag, head, head_of, kids, kids_of, opt_str,
    plain_attr, plain_attr_of, refs_view, root_of, self_and_descendants, self_and_under, text_of,
    tree_view, trees_view, under, Element, ElementV, Tree, TreeV,
};
use vstd::prelude::*;

verus! {

// ------------------------------------------------------------ images

/// An image of the document: its name and its address, which holds its data.
pub struct Image {
    pub name: Vec<char>,
    pub address: Vec<char>,
}

/// View of an [`Image`].
#[verifier::ext_equal]
pub struct ImageV {
    pub name: Seq<char>,
    pub address: Seq<char>,
}

impl View for Image {
    type V = ImageV;

    open spec fn view(&self) -> ImageV {
        ImageV { name: self.name@, address: self.address@ }
    }
}

/// Views of images.
pub open spec fn images_view(v: Seq<Image>) -> Seq<ImageV> {
    Seq::new(v.len(), |i: int| v[i]@)
}

/// A text without white space, from `i` on, added to `out`.
pub open spec fn packed_from(s: Seq<char>, i: int, out: Seq<char>) -> Seq<char>
    decreases s.len() - i,
{
    if i >= s.len() {
        out
    } else {
        packed_from(
            s,
            i + 1,
            if white(s[i]) {
                out
            } else {
                out.push(s[i])
            },
        )
    }
}

fn pack(s: &Vec<char>) -> (r: Vec<char>)
    ensures
        r@ == packed_from(s@, 0, seq![]),
{
    let mut out: Vec<char> = Vec::new();
    let mut i: usize = 0;
    assert(out@ =~= seq![]);
    while i < s.len()
        invariant
            i <= s@.len(),
            packed_from(s@, 0, seq![]) == packed_from(s@, i as int, out@),
        decreases s@.len() - i,
    {
        if !is_white(s[i]) {
            out.push(s[i]);
        }
        i += 1;
    }
    out
}

/// The address of data of a type.
pub open spec fn data_address(mime: Seq<char>, data: Seq<char>) -> Seq<char> {
    "data:"@ + mime + ";base64,"@ + data
}

/// The image that a data element holds.
pub open spec fn image_of(e: ElementV) -> Option<ImageV> {
    match (plain_attr_of(e, "name"@), plain_attr_of(e, "mime-type"@)) {
        (Some(name), Some(mime)) => {
            let data = packed_from(or_empty(head(e)), 0, seq![]);
            if has_prefix(mime, "image/"@) && plain_attr_of(e, "base64"@) == Some("yes"@)
                && from_base64(data) is Some {
                Some(ImageV { name, address: data_address(mime, data) })
            } else {
                None
            }
        },
        _ => None,
    }
}

fn attr_is(e: &Element, name: &str, value: &str) -> (r: bool)
    ensures
        r == (plain_attr_of(e@, name@) == Some(value@)),
{
    match plain_attr(e, name) {
        Some(v) => str_eq(v, value),
        None => false,
    }
}

/// View of an optional image.
pub open spec fn opt_image(o: Option<Image>) -> Option<ImageV> {
    match o {
        Some(x) => Some(x@),
        None => None,
    }
}

fn read_image(e: &Element) -> (r: Option<Image>)
    ensures
        opt_image(r) == image_of(e@),
{
    match plain_attr(e, "name") {
        Some(name) => match plain_attr(e, "mime-type") {
            Some(mime) => {
                let m = chars_of(mime);
                if !starts_with(&m, "image/") || !attr_is(e, "base64", "yes") {
                    return None;
                }
                let data = pack(&chars_or_empty(head_of(e)));
                match decode_base64(&data) {
                    Some(_) => {
                        let mut address = chars_of("data:");
                        push_all(&mut address, &m);
                        push_str(&mut address, ";base64,");
                        push_all(&mut address, &data);
                        Some(Image { name: chars_of(name), address })
                    },
                    None => None,
                }
            },
            None => None,
        },
        None => None,
    }
}

/// The images among the elements from `i` on, added to `done`.
pub open spec fn images_from(v: Seq<ElementV>, i: int, done: Seq<ImageV>) -> Seq<ImageV>
    decreases v.len() - i,
{
    if i >= v.len() {
        done
    } else {
        images_from(
            v,
            i + 1,
            if v[i].tag == "d"@ && image_of(v[i]) is Some {
                done.push(image_of(v[i])->0)
            } else {
                done
            },
        )
    }
}

/// The images of a document.
pub fn load_data_blocks(root: &Element) -> (r: Vec<Image>)
    ensures
        images_view(r@) == images_from(self_and_under(root@), 0, seq![]),
{
    let v = self_and_descendants(root);
    let ghost w = refs_view(v@);
    let mut out: Vec<Image> = Vec::new();
    let mut i: usize = 0;
    assert(images_view(out@) =~= seq![]);
    while i < v.len()
        invariant
            i <= v@.len(),
            w == refs_view(v@),
            images_from(w, 0, seq![]) == images_from(w, i as int, images_view(out@)),
        decreases v@.len() - i,
    {
        assert(w[i as int] == v@[i as int]@);
        if has_tag(v[i], "d") {
            match read_image(v[i]) {
                Some(x) => {
                    let ghost before = out@;
                    out.push(x);
                    assert(images_view(out@) =~= images_view(before).push(x@));
                },
                None => {},
            }
        }
        i += 1;
    }
    out
}

/// The address of the image with a name among the first `n`: the last one
/// counts.
pub open spec fn image_named(v: Seq<ImageV>, n: int, name: Seq<char>) -> Option<Seq<char>>
    decreases n,
{
    if n <= 0 || n > v.len() {
        None
    } else if v[n - 1].name == name {
        Some(v[n - 1].address)
    } else {
        image_named(v, n - 1, name)
    }
}

/// The picture of an image element.
pub open spec fn picture(e: ElementV, images: Seq<ImageV>) -> NodeV {
    NodeV::Picture {
        caption: None,
        caption_href: None,
        caption_parent: CaptionParent::Body,
        sources: match plain_attr_of(e, "dataid"@) {
            Some(id) => match image_named(images, images.len() as int, id) {
                Some(a) => seq![a],
                None => seq![],
            },
            None => seq![],
        },
    }
}

fn find_image<'a>(v: &'a Vec<Image>, name: &Vec<char>) -> (r: Option<&'a Vec<char>>)
    ensures
        match r {
            Some(a) => image_named(images_view(v@), v@.len() as int, name@) == Some(a@),
            None => image_named(images_view(v@), v@.len() as int, name@) is None,
        },
{
    let ghost w = images_view(v@);
    let mut n: usize = v.len();
    while n > 0
        invariant
            n <= v@.len(),
            w == images_view(v@),
            image_named(w, v@.len() as int, name@) == image_named(w, n as int, name@),
        decreases n,
    {
        assert(w[n - 1] == v@[n - 1]@);
        if same(&v[n - 1].name, name) {
            return Some(&v[n - 1].address);
        }
        n -= 1;
    }
    None
}

/// The pictures of the images among the elements from `i` on, added to
/// `nodes`.
pub open spec fn pictures_from(
    v: Seq<ElementV>,
    i: int,
    images: Seq<ImageV>,
    nodes: Seq<NodeV>,
) -> Seq<NodeV>
    decreases v.len() - i,
{
    if i >= v.len() {
        nodes
    } else {
        pictures_from(
            v,
            i + 1,
            images,
            if v[i].tag == "image"@ {
                nodes.push(picture(v[i], images))
            } else {
                nodes
            },
        )
    }
}

fn add_pictures(e: &Element, images: &Vec<Image>, nodes: &mut Vec<Node>)
    ensures
        nodes_view(final(nodes)@) == pictures_from(
            under(e@),
            0,
            images_view(images@),
            nodes_view(old(nodes)@),
        ),
{
    let v = descendants(e);
    let ghost w = refs_view(v@);
    let ghost im = images_view(images@);
    let ghost first = nodes_view(nodes@);
    let mut i: usize = 0;
    while i < v.len()
        invariant
            i <= v@.len(),
            w == refs_view(v@),
            im == images_view(images@),
            pictures_from(w, 0, im, first) == pictures_from(w, i as int, im, nodes_view(nodes@)),
        decreases v@.len() - i,
    {
        assert(w[i as int] == v@[i as int]@);
        if has_tag(v[i], "image") {
            let mut sources: Vec<String> = Vec::new();
            match plain_attr(v[i], "dataid") {
                Some(id) => match find_image(images, &chars_of(id)) {
                    Some(a) => {
                        sources.push(string_of(a));
                    },
                    None => {},
                },
                None => {},
            }
            assert(strs(sources@) =~= (match plain_attr_of(v@[i as int]@, "dataid"@) {
                Some(id) => match image_named(im, im.len() as int, id) {
                    Some(a) => seq![a],
                    None => seq![],
                },
                None => seq![],
            }));
            push_node(nodes, Node::Picture { caption: None, caption_href: None, caption_parent: CaptionParent::Body, sources });
        }
        i += 1;
    }
}

// ------------------------------------------------------------ runs

/// A run of text with its emphasis and the target of the link around it.
pub struct Run {
    pub text: Vec<char>,
    pub bold: bool,
    pub italic: bool,
    pub strike: bool,
    pub underline: bool,
    pub script: Script,
    pub href: Option<Vec<char>>,
}

/// View of a [`Run`].
#[verifier::ext_equal]
pub struct RunV {
    pub text: Seq<char>,
    pub bold: bool,
    pub italic: bool,
    pub strike: bool,
    pub underline: bool,
    pub script: Script,
    pub href: Option<Seq<char>>,
}

impl View for Run {
    type V = RunV;

    open spec fn view(&self) -> RunV {
        RunV {
            text: self.text@,
            bold: self.bold,
            italic: self.italic,
            strike: self.strike,
            underline: self.underline,
            script: self.script,
            href: opt_chars(self.href),
        }
    }
}

/// Views of runs.
pub open spec fn all_runs(v: Seq<Run>) -> Seq<RunV> {
    Seq::new(v.len(), |i: int| v[i]@)
}

/// Pushing a run pushes its view.
pub broadcast proof fn all_runs_push(v: Seq<Run>, x: Run)
    ensures
        #[trigger] all_runs(v.push(x)) == all_runs(v).push(x@),
{
    assert(all_runs(v.push(x)) =~= all_runs(v).push(x@));
}

/// The run of a text with properties.
pub open spec fn run_of(text: Seq<char>, href: Option<Seq<char>>, props: Seq<char>) -> RunV {
    RunV {
        text,
        bold: contains_from(props, "font-weight:bold"@, 0),
        italic: contains_from(props, "font-style:italic"@, 0),
        strike: contains_from(props, "line-through"@, 0),
        underline: contains_from(props, "text-decoration:underline"@, 0),
        script: if contains_from(props, "text-position:superscript"@, 0) {
            Script::Super
        } else if contains_from(props, "text-position:subscript"@, 0) {
            Script::Sub
        } else {
            Script::Baseline
        },
        href,
    }
}

/// The run of a text without properties.
pub open spec fn bare_run(text: Seq<char>, href: Option<Seq<char>>) -> RunV {
    RunV {
        text,
        bold: false,
        italic: false,
        strike: false,
        underline: false,
        script: Script::Baseline,
        href,
    }
}

fn plain_run(text: Vec<char>, href: &Option<Vec<char>>) -> (r: Run)
    ensures
        r@ == bare_run(text@, opt_chars(*href)),
{
    Run {
        text,
        bold: false,
        italic: false,
        strike: false,
        underline: false,
        script: Script::Baseline,
        href: copy_opt(href),
    }
}

fn styled_run(text: Vec<char>, href: &Option<Vec<char>>, props: &Vec<char>) -> (r: Run)
    ensures
        r@ == run_of(text@, opt_chars(*href), props@),
{
    Run {
        text,
        bold: contains(props, "font-weight:bold"),
        italic: contains(props, "font-style:italic"),
        strike: contains(props, "line-through"),
        underline: contains(props, "text-decoration:underline"),
        script: if contains(props, "text-position:superscript") {
            Script::Super
        } else if contains(props, "text-position:subscript") {
            Script::Sub
        } else {
            Script::Baseline
        },
        href: copy_opt(href),
    }
}

/// A text without the tabs before it.
pub open spec fn untabbed(s: Seq<char>) -> Seq<char>
    decreases s.len(),
{
    if s.len() > 0 && s[0] == '\t' {
        untabbed(s.skip(1))
    } else {
        s
    }
}

fn trim_tabs(s: &Vec<char>) -> (r: Vec<char>)
    ensures
        r@ == untabbed(s@),
{
    let mut i: usize = 0;
    assert(s@.skip(0) =~= s@);
    while i < s.len() && s[i] == '\t'
        invariant
            i <= s@.len(),
            untabbed(s@) == untabbed(s@.skip(i as int)),
        decreases s@.len() - i,
    {
        assert(s@.skip(i as int).skip(1) =~= s@.skip(i + 1));
        i += 1;
    }
    let r = slice(s, i, s.len());
    assert(r@ =~= s@.skip(i as int));
    r
}

/// Whether an element marks a list label.
pub open spec fn is_label(e: ElementV) -> bool {
    plain_attr_of(e, "type"@) == Some("list_label"@)
}

/// The runs with one added, unless its text is empty.
pub open spec fn with_run(done: Seq<RunV>, r: RunV) -> Seq<RunV> {
    if r.text.len() == 0 {
        done
    } else {
        done.push(r)
    }
}

/// The runs under the nodes from `i` on, added to `done`. `strip` says that a
/// list label came right before: the tab behind it is dropped.
pub open spec fn runs_from(
    ch: Seq<TreeV>,
    i: int,
    strip: bool,
    href: Option<Seq<char>>,
    done: Seq<RunV>,
) -> Seq<RunV>
    decreases ch, ch.len() - i,
{
    if i < 0 || i >= ch.len() {
        done
    } else {
        match ch[i] {
            TreeV::Other(_) => runs_from(ch, i + 1, strip, href, done),
            TreeV::Text(s) => {
                let t = if strip {
                    untabbed(s)
                } else {
                    s
                };
                runs_from(
                    ch,
                    i + 1,
                    strip && t.len() == 0,
                    href,
                    with_run(done, bare_run(t, href)),
                )
            },
            TreeV::Element(e) => if e.tag == "field"@ && is_label(e) {
                runs_from(ch, i + 1, true, href, done)
            } else if e.tag == "c"@ {
                let t = if strip || is_label(e) {
                    untabbed(all_text(e))
                } else {
                    all_text(e)
                };
                runs_from(
                    ch,
                    i + 1,
                    false,
                    href,
                    with_run(done, run_of(t, href, or_empty(plain_attr_of(e, "props"@)))),
                )
            } else if e.tag == "a"@ {
                runs_from(
                    ch,
                    i + 1,
                    false,
                    href,
                    runs_from(e.children, 0, false, attr_of(e, "href"@), done),
                )
            } else if e.tag == "br"@ {
                runs_from(ch, i + 1, strip, href, done.push(bare_run(seq!['\n'], None)))
            } else if e.tag == "image"@ || e.tag == "data"@ {
                runs_from(ch, i + 1, strip, href, done)
            } else {
                let r = runs_from(e.children, 0, strip, href, done);
                runs_from(ch, i + 1, strip && r.len() == done.len(), href, r)
            },
        }
    }
}

fn opt_vec(o: Option<&str>) -> (r: Option<Vec<char>>)
    ensures
        opt_chars(r) == opt_str(o),
{
    match o {
        Some(s) => Some(chars_of(s)),
        None => None,
    }
}

fn newline() -> (r: Vec<char>)
    ensures
        r@ == seq!['\n'],
{
    let mut v: Vec<char> = Vec::new();
    v.push('\n');
    assert(v@ =~= seq!['\n']);
    v
}

/// Adds the runs under nodes.
pub fn collect_runs(ch: &Vec<Tree>, label: bool, href: &Option<Vec<char>>, out: &mut Vec<Run>)
    ensures
        all_runs(final(out)@) == runs_from(
            trees_view(ch@),
            0,
            label,
            opt_chars(*href),
            all_runs(old(out)@),
        ),
    decreases ch,
{
    let ghost v = trees_view(ch@);
    let ghost l = opt_chars(*href);
    let ghost want = runs_from(v, 0, label, l, all_runs(out@));
    let mut strip = label;
    let mut i: usize = 0;
    while i < ch.len()
        invariant
            i <= ch@.len(),
            v == trees_view(ch@),
            l == opt_chars(*href),
            want == runs_from(v, i as int, strip, l, all_runs(out@)),
        decreases ch@.len() - i,
    {
        broadcast use all_runs_push;

        assert(v[i as int] == tree_view(ch@[i as int]));
        match &ch[i] {
            Tree::Other(_) => {},
            Tree::Text(s) => {
                let mut t = chars_of(s.as_str());
                if strip {
                    t = trim_tabs(&t);
                    strip = t.len() == 0;
                }
                if t.len() > 0 {
                    out.push(plain_run(t, href));
                }
            },
            Tree::Element(e) => {
                if has_tag(e, "field") && attr_is(e, "type", "list_label") {
                    strip = true;
                } else if has_tag(e, "c") {
                    let mut t = text_of(e);
                    if strip || attr_is(e, "type", "list_label") {
                        t = trim_tabs(&t);
                    }
                    strip = false;
                    if t.len() > 0 {
                        let props = chars_or_empty(plain_attr(e, "props"));
                        out.push(styled_run(t, href, &props));
                    }
                } else if has_tag(e, "a") {
                    let target = opt_vec(attr(e, "href"));
                    collect_runs(&e.children, false, &target, out);
                    strip = false;
                } else if has_tag(e, "br") {
                    out.push(plain_run(newline(), &None));
                } else if has_tag(e, "image") || has_tag(e, "data") {
                } else {
                    let before: usize = out.len();
                    assert(all_runs(out@).len() == before);
                    collect_runs(&e.children, strip, href, out);
                    assert(all_runs(out@).len() == out@.len());
                    strip = strip && out.len() == before;
                }
            },
        }
        i += 1;
    }
}

/// A run in Markdown.
pub open spec fn run_markdown(r: RunV) -> Seq<char> {
    let a = escaped(r.text);
    let b = if r.bold {
        between("**"@, a, "**"@)
    } else {
        a
    };
    let c = if r.italic {
        between("*"@, b, "*"@)
    } else {
        b
    };
    let d = if r.strike {
        between("~~"@, c, "~~"@)
    } else {
        c
    };
    match r.href {
        Some(h) => between("["@, d, "]("@) + h + ")"@,
        None => d,
    }
}

/// The runs from `i` on in Markdown, added to `out`.
pub open spec fn markdown_from(v: Seq<RunV>, i: int, out: Seq<char>) -> Seq<char>
    decreases v.len() - i,
{
    if i >= v.len() {
        out
    } else {
        markdown_from(v, i + 1, out + run_markdown(v[i]))
    }
}

fn push_run(r: &Run, out: &mut Vec<char>)
    ensures
        final(out)@ == old(out)@ + run_markdown(r@),
{
    let mut s = escape_text(&r.text);
    if r.bold {
        s = wrap("**", &s, "**");
    }
    if r.italic {
        s = wrap("*", &s, "*");
    }
    if r.strike {
        s = wrap("~~", &s, "~~");
    }
    match &r.href {
        Some(h) => {
            let mut t = wrap("[", &s, "](");
            push_all(&mut t, h);
            push_str(&mut t, ")");
            push_all(out, &t);
        },
        None => {
            push_all(out, &s);
        },
    }
}

/// The text of runs in Markdown.
pub open spec fn runs_text(v: Seq<RunV>) -> Seq<char> {
    strip(markdown_from(v, 0, seq![]))
}

/// The text of runs in Markdown.
pub fn runs_markdown(v: &Vec<Run>) -> (r: Vec<char>)
    ensures
        r@ == runs_text(all_runs(v@)),
{
    let ghost w = all_runs(v@);
    let mut out: Vec<char> = Vec::new();
    let mut i: usize = 0;
    assert(out@ =~= seq![]);
    while i < v.len()
        invariant
            i <= v@.len(),
            w == all_runs(v@),
            markdown_from(w, 0, seq![]) == markdown_from(w, i as int, out@),
        decreases v@.len() - i,
    {
        assert(w[i as int] == v@[i as int]@);
        push_run(&v[i], &mut out);
        i += 1;
    }
    trim(&out)
}

/// The structured run of a run.
pub open spec fn inline_run(r: RunV) -> InlineRunV {
    InlineRunV {
        text: r.text,
        bold: r.bold,
        italic: r.italic,
        underline: r.underline,
        strike: r.strike,
        script: r.script,
        code: false,
        formula: false,
    }
}

/// The structured runs from `i` on that are not blank, added to `done`.
pub open spec fn inline_from(v: Seq<RunV>, i: int, done: Seq<InlineRunV>) -> Seq<InlineRunV>
    decreases v.len() - i,
{
    if i >= v.len() {
        done
    } else {
        inline_from(
            v,
            i + 1,
            if strip(v[i].text).len() == 0 {
                done
            } else {
                done.push(inline_run(v[i]))
            },
        )
    }
}

fn runs_inline(v: &Vec<Run>) -> (r: Vec<InlineRun>)
    ensures
        runs_view(r@) == inline_from(all_runs(v@), 0, seq![]),
{
    let ghost w = all_runs(v@);
    let mut out: Vec<InlineRun> = Vec::new();
    let mut i: usize = 0;
    assert(runs_view(out@) =~= seq![]);
    while i < v.len()
        invariant
            i <= v@.len(),
            w == all_runs(v@),
            inline_from(w, 0, seq![]) == inline_from(w, i as int, runs_view(out@)),
        decreases v@.len() - i,
    {
        broadcast use runs_view_push;

        assert(w[i as int] == v@[i as int]@);
        let x = &v[i];
        if trim(&x.text).len() > 0 {
            out.push(
                InlineRun {
                    text: string_of(&x.text),
                    bold: x.bold,
                    italic: x.italic,
                    underline: x.underline,
                    strike: x.strike,
                    script: x.script,
                    code: false,
                    formula: false,
                },
            );
        }
        i += 1;
    }
    out
}

// ------------------------------------------------------------ paragraphs

/// How many items of a list were numbered.
#[verifier::ext_equal]
pub struct CounterV {
    pub id: Seq<char>,
    pub count: u64,
}

/// How many items of a list were numbered.
pub struct Counter {
    pub id: Vec<char>,
    pub count: u64,
}

impl View for Counter {
    type V = CounterV;

    open spec fn view(&self) -> CounterV {
        CounterV { id: self.id@, count: self.count }
    }
}

/// Views of counters.
pub open spec fn counters_view(v: Seq<Counter>) -> Seq<CounterV> {
    Seq::new(v.len(), |i: int| v[i]@)
}

/// The nodes, the counters of numbered lists, and the list that an item came
/// from last.
#[verifier::ext_equal]
pub struct WalkV {
    pub nodes: Seq<NodeV>,
    pub counters: Seq<CounterV>,
    pub last: Option<Seq<char>>,
}

/// The nodes and the state of the lists.
pub struct Walk {
    pub nodes: Vec<Node>,
    pub counters: Vec<Counter>,
    pub last: Option<Vec<char>>,
}

impl View for Walk {
    type V = WalkV;

    open spec fn view(&self) -> WalkV {
        WalkV {
            nodes: nodes_view(self.nodes@),
            counters: counters_view(self.counters@),
            last: opt_chars(self.last),
        }
    }
}

/// The place of a list's counter from `i` on, or the end.
pub open spec fn counter_at(v: Seq<CounterV>, i: int, id: Seq<char>) -> int
    decreases v.len() - i,
{
    if i >= v.len() || v[i].id == id {
        i
    } else {
        counter_at(v, i + 1, id)
    }
}

/// The next number of a list.
pub open spec fn number_of(v: Seq<CounterV>, id: Seq<char>) -> u64 {
    let k = counter_at(v, 0, id);
    if k < v.len() {
        next_number(v[k].count)
    } else {
        1
    }
}

/// The counters with a list's item counted.
pub open spec fn counted(v: Seq<CounterV>, id: Seq<char>) -> Seq<CounterV> {
    let k = counter_at(v, 0, id);
    if k < v.len() {
        v.update(k, CounterV { id, count: next_number(v[k].count) })
    } else {
        v.push(CounterV { id, count: 1 })
    }
}

fn count(v: &mut Vec<Counter>, id: &Vec<char>) -> (r: u64)
    ensures
        r == number_of(counters_view(old(v)@), id@),
        counters_view(final(v)@) == counted(counters_view(old(v)@), id@),
{
    let ghost w = counters_view(v@);
    let mut k: usize = 0;
    while k < v.len() && !same(&v[k].id, id)
        invariant
            k <= v@.len(),
            w == counters_view(v@),
            counter_at(w, 0, id@) == counter_at(w, k as int, id@),
        decreases v@.len() - k,
    {
        assert(w[k as int] == v@[k as int]@);
        k += 1;
    }
    if k < v.len() {
        assert(w[k as int] == v@[k as int]@);
        let n: u64 = if v[k].count == u64::MAX {
            u64::MAX
        } else {
            v[k].count + 1
        };
        let x = Counter { id: copy(id), count: n };
        v.set(k, x);
        assert(counters_view(v@) =~= w.update(k as int, x@));
        n
    } else {
        let x = Counter { id: copy(id), count: 1 };
        v.push(x);
        assert(counters_view(v@) =~= w.push(x@));
        1
    }
}

/// Whether a paragraph's child from `i` on is a list label.
pub open spec fn labelled(ch: Seq<TreeV>, i: int) -> bool
    decreases ch.len() - i,
{
    i < ch.len() && ((match ch[i] {
        TreeV::Element(e) => is_label(e),
        _ => false,
    }) || labelled(ch, i + 1))
}

fn has_list_label(e: &Element) -> (r: bool)
    ensures
        r == labelled(e@.children, 0),
{
    let ghost v = e@.children;
    let mut i: usize = 0;
    while i < e.children.len()
        invariant
            i <= e.children@.len(),
            v == e@.children,
            v == trees_view(e.children@),
            labelled(v, 0) == labelled(v, i as int),
        decreases e.children@.len() - i,
    {
        assert(v[i as int] == tree_view(e.children@[i as int]));
        match &e.children[i] {
            Tree::Element(c) => {
                if attr_is(c, "type", "list_label") {
                    return true;
                }
            },
            _ => {},
        }
        i += 1;
    }
    false
}

/// The level of a style's heading: a title is first, a subtitle second, and
/// `heading N` one below its number, at most six.
pub open spec fn style_level(style: Seq<char>) -> Option<u8> {
    let s = lowered(style);
    if s == "title"@ {
        Some(1)
    } else if s == "subtitle"@ {
        Some(2)
    } else if has_prefix(s, "heading "@) {
        match uint(s.skip("heading "@.len() as int), 255) {
            Some(n) => if n + 1 > 6 {
                Some(6)
            } else {
                Some((n + 1) as u8)
            },
            None => None,
        }
    } else {
        None
    }
}

fn level_of_style(style: &Vec<char>) -> (r: Option<u8>)
    ensures
        r == style_level(style@),
{
    let s = to_lower(style);
    if is(&s, "title") {
        return Some(1);
    }
    if is(&s, "subtitle") {
        return Some(2);
    }
    if starts_with(&s, "heading ") {
        let t = slice(&s, chars_of("heading ").len(), s.len());
        assert(t@ =~= s@.skip("heading "@.len() as int));
        return match parse_uint(&t, 255) {
            Some(n) => if n + 1 > 6 {
                Some(6)
            } else {
                Some((n + 1) as u8)
            },
            None => None,
        };
    }
    None
}

/// The level of a list item.
pub open spec fn item_level(e: ElementV) -> u8 {
    match plain_attr_of(e, "level"@) {
        Some(v) => match uint(v, 255) {
            Some(n) => n as u8,
            None => 0,
        },
        None => 0,
    }
}

fn level_of_item(e: &Element) -> (r: u8)
    ensures
        r == item_level(e@),
{
    match plain_attr(e, "level") {
        Some(v) => match parse_uint(&chars_of(v), 255) {
            Some(n) => n as u8,
            None => 0,
        },
        None => 0,
    }
}

/// The walk with a paragraph added: its images, then its text as a list item,
/// a heading or a paragraph.
pub open spec fn with_para(e: ElementV, images: Seq<ImageV>, w: WalkV) -> WalkV {
    let nodes = pictures_from(under(e), 0, images, w.nodes);
    let runs = runs_from(e.children, 0, false, None, seq![]);
    let text = runs_text(runs);
    let style = or_empty(plain_attr_of(e, "style"@));
    let id = plain_attr_of(e, "listid"@);
    if text.len() == 0 {
        WalkV { nodes, ..w }
    } else if id is Some && labelled(e.children, 0) {
        let ordered = contains_from(style, "Number"@, 0);
        WalkV {
            nodes: nodes.push(
                NodeV::ListItem {
                    ordered,
                    number: if ordered {
                        number_of(w.counters, id->0)
                    } else {
                        0
                    },
                    first_in_list: w.last != id,
                    text,
                    level: item_level(e),
                    marker: None,
                    href: None,
                    layer: None,
                },
            ),
            counters: if ordered {
                counted(w.counters, id->0)
            } else {
                w.counters
            },
            last: id,
        }
    } else {
        WalkV {
            nodes: nodes.push(
                match style_level(style) {
                    Some(level) => NodeV::Heading { level, text },
                    None => NodeV::Inline {
                        text,
                        runs: inline_from(runs, 0, seq![]),
                        unwrapped: false,
                    },
                },
            ),
            last: None,
            ..w
        }
    }
}

/// Adds a paragraph.
pub fn emit_paragraph(e: &Element, images: &Vec<Image>, w: &mut Walk)
    ensures
        final(w)@ == with_para(e@, images_view(images@), old(w)@),
{
    let ghost before = w@;
    add_pictures(e, images, &mut w.nodes);
    let mut runs: Vec<Run> = Vec::new();
    assert(all_runs(runs@) =~= seq![]);
    collect_runs(&e.children, false, &None, &mut runs);
    let text = runs_markdown(&runs);
    if text.len() == 0 {
        return;
    }
    let style = chars_or_empty(plain_attr(e, "style"));
    if has_list_label(e) {
        match plain_attr(e, "listid") {
            Some(s) => {
                let id = chars_of(s);
                let ordered = contains(&style, "Number");
                let number: u64 = if ordered {
                    count(&mut w.counters, &id)
                } else {
                    0
                };
                let first = match &w.last {
                    Some(l) => !same(l, &id),
                    None => true,
                };
                push_node(
                    &mut w.nodes,
                    Node::ListItem {
                        ordered,
                        number,
                        first_in_list: first,
                        text: string_of(&text),
                        level: level_of_item(e),
                        marker: None,
                        href: None,
                        layer: None,
                    },
                );
                w.last = Some(id);
                assert(w@ =~= with_para(e@, images_view(images@), before));
                return;
            },
            None => {},
        }
    }
    w.last = None;
    let n = match level_of_style(&style) {
        Some(level) => heading(level, &text),
        None => Node::Inline {
            text: string_of(&text),
            runs: runs_inline(&runs),
            unwrapped: false,
        },
    };
    push_node(&mut w.nodes, n);
    assert(w@ =~= with_para(e@, images_view(images@), before));
}

// ------------------------------------------------------------ tables

/// The number that a property has among the settings from `i` on.
pub open spec fn property_from(v: Seq<Seq<char>>, i: int, name: Seq<char>) -> Option<int>
    decreases v.len() - i,
{
    if i >= v.len() {
        None
    } else {
        let k = index_from(v[i], ':', 0);
        let n = uint(strip(v[i].skip(k + 1)), usize::MAX as int);
        if k < v[i].len() && strip(v[i].take(k)) == name && n is Some {
            n
        } else {
            property_from(v, i + 1, name)
        }
    }
}

fn property(v: &Vec<Vec<char>>, name: &str) -> (r: Option<usize>)
    ensures
        match property_from(texts(v@), 0, name@) {
            Some(n) => r matches Some(x) && x == n,
            None => r is None,
        },
{
    let ghost w = texts(v@);
    let mut i: usize = 0;
    while i < v.len()
        invariant
            i <= v@.len(),
            w == texts(v@),
            property_from(w, 0, name@) == property_from(w, i as int, name@),
        decreases v@.len() - i,
    {
        assert(w[i as int] == v@[i as int]@);
        let k = find_from(&v[i], ':', 0);
        if k < v[i].len() {
            let key = slice(&v[i], 0, k);
            let value = slice(&v[i], k + 1, v[i].len());
            assert(key@ =~= v@[i as int]@.take(k as int));
            assert(value@ =~= v@[i as int]@.skip(k + 1));
            if is(&trim(&key), name) {
                match parse_uint(&trim(&value), usize::MAX as u128) {
                    Some(n) => {
                        proof {
                            crate::text::uint_is_positive(strip(value@), usize::MAX as int);
                        }
                        return Some(n as usize);
                    },
                    None => {},
                }
            }
        }
        i += 1;
    }
    None
}

/// A cell of a table: the rectangle that it takes (columns `l..r`, rows
/// `t..b`), and its text.
#[verifier::ext_equal]
pub struct AreaV {
    pub l: int,
    pub r: int,
    pub t: int,
    pub b: int,
    pub text: Seq<char>,
}

/// A cell of a table.
pub struct Area {
    pub l: usize,
    pub r: usize,
    pub t: usize,
    pub b: usize,
    pub text: Vec<char>,
}

impl View for Area {
    type V = AreaV;

    open spec fn view(&self) -> AreaV {
        AreaV {
            l: self.l as int,
            r: self.r as int,
            t: self.t as int,
            b: self.b as int,
            text: self.text@,
        }
    }
}

/// Views of cells.
pub open spec fn areas_view(v: Seq<Area>) -> Seq<AreaV> {
    Seq::new(v.len(), |i: int| v[i]@)
}

/// The texts of the paragraphs from `i` on that are not empty, added to
/// `done`.
pub open spec fn cell_parts(v: Seq<ElementV>, i: int, done: Seq<Seq<char>>) -> Seq<Seq<char>>
    decreases v.len() - i,
{
    if i >= v.len() {
        done
    } else {
        let t = runs_text(runs_from(v[i].children, 0, false, None, seq![]));
        cell_parts(
            v,
            i + 1,
            if t.len() == 0 {
                done
            } else {
                done.push(t)
            },
        )
    }
}

/// The text of a cell.
pub open spec fn cell_text(e: ElementV) -> Seq<char> {
    joined(cell_parts(kids_of(e, "p"@), 0, seq![]), " "@)
}

fn text_of_cell(e: &Element) -> (r: Vec<char>)
    ensures
        r@ == cell_text(e@),
{
    let v = kids(e, "p");
    let ghost w = refs_view(v@);
    let mut out: Vec<Vec<char>> = Vec::new();
    let mut i: usize = 0;
    assert(texts(out@) =~= seq![]);
    while i < v.len()
        invariant
            i <= v@.len(),
            w == refs_view(v@),
            cell_parts(w, 0, seq![]) == cell_parts(w, i as int, texts(out@)),
        decreases v@.len() - i,
    {
        broadcast use texts_push;

        assert(w[i as int] == v@[i as int]@);
        let mut runs: Vec<Run> = Vec::new();
        assert(all_runs(runs@) =~= seq![]);
        collect_runs(&v[i].children, false, &None, &mut runs);
        let t = runs_markdown(&runs);
        if t.len() > 0 {
            out.push(t);
        }
        i += 1;
    }
    join(&out, " ")
}

/// The cell of an element; none where a side of its rectangle is missing.
pub open spec fn area_of(e: ElementV) -> Option<AreaV> {
    let p = splits(or_empty(plain_attr_of(e, "props"@)), ';');
    match (
        property_from(p, 0, "left-attach"@),
        property_from(p, 0, "right-attach"@),
        property_from(p, 0, "top-attach"@),
        property_from(p, 0, "bot-attach"@),
    ) {
        (Some(l), Some(r), Some(t), Some(b)) => Some(AreaV { l, r, t, b, text: cell_text(e) }),
        _ => None,
    }
}

fn read_area(e: &Element) -> (x: Option<Area>)
    ensures
        match area_of(e@) {
            Some(a) => x matches Some(y) && y@ == a,
            None => x is None,
        },
{
    let p = split(&chars_or_empty(plain_attr(e, "props")), ';');
    match property(&p, "left-attach") {
        Some(l) => match property(&p, "right-attach") {
            Some(r) => match property(&p, "top-attach") {
                Some(t) => match property(&p, "bot-attach") {
                    Some(b) => Some(Area { l, r, t, b, text: text_of_cell(e) }),
                    None => None,
                },
                None => None,
            },
            None => None,
        },
        None => None,
    }
}

/// The cells from `i` on, added to `done`; none where one has no rectangle.
pub open spec fn areas_from(v: Seq<ElementV>, i: int, done: Seq<AreaV>) -> Option<Seq<AreaV>>
    decreases v.len() - i,
{
    if i >= v.len() {
        Some(done)
    } else {
        match area_of(v[i]) {
            Some(a) => areas_from(v, i + 1, done.push(a)),
            None => None,
        }
    }
}

/// The lowest end of the cells from `i` on, or `n`.
pub open spec fn lowest(v: Seq<AreaV>, i: int, n: int) -> int
    decreases v.len() - i,
{
    if i >= v.len() {
        n
    } else {
        lowest(
            v,
            i + 1,
            if v[i].b > n {
                v[i].b
            } else {
                n
            },
        )
    }
}

/// The rightmost end of the cells from `i` on, or `n`.
pub open spec fn rightmost(v: Seq<AreaV>, i: int, n: int) -> int
    decreases v.len() - i,
{
    if i >= v.len() {
        n
    } else {
        rightmost(
            v,
            i + 1,
            if v[i].r > n {
                v[i].r
            } else {
                n
            },
        )
    }
}

/// The grid with the cells from `i` on: each fills its rectangle.
pub open spec fn grid_from(v: Seq<AreaV>, i: int, g: Seq<Seq<Seq<char>>>) -> Seq<Seq<Seq<char>>>
    decreases v.len() - i,
{
    if i >= v.len() {
        g
    } else {
        grid_from(v, i + 1, filled(g, v[i].t, v[i].b, v[i].l, v[i].r, v[i].text))
    }
}

/// The table of a table element: none without cells, or where a cell has no
/// rectangle.
pub open spec fn table_of(e: ElementV) -> Option<TableV> {
    match areas_from(kids_of(e, "cell"@), 0, seq![]) {
        None => None,
        Some(v) => {
            let rows = lowest(v, 0, 0);
            let cols = rightmost(v, 0, 0);
            if rows == 0 || cols == 0 {
                None
            } else {
                Some(
                    plain_table_view(grid_from(v, 0, blank(rows, cols, Seq::<char>::empty()))),
                )
            }
        },
    }
}

proof fn areas_keep_the_shape(v: Seq<AreaV>, i: int, g: Seq<Seq<Seq<char>>>, rows: int, cols: int)
    requires
        has_shape(g, rows, cols),
    ensures
        has_shape(grid_from(v, i, g), rows, cols),
    decreases v.len() - i,
{
    broadcast use filled_keeps_shape;

    if i < v.len() {
        areas_keep_the_shape(
            v,
            i + 1,
            filled(g, v[i].t, v[i].b, v[i].l, v[i].r, v[i].text),
            rows,
            cols,
        );
    }
}

proof fn ends_are_ahead(v: Seq<AreaV>, i: int, n: int)
    requires
        0 <= n,
    ensures
        0 <= lowest(v, i, n),
        0 <= rightmost(v, i, n),
    decreases v.len() - i,
{
    if i < v.len() {
        ends_are_ahead(v, i + 1, n);
        if v[i].b > n {
            ends_are_ahead(v, i + 1, v[i].b);
        }
        if v[i].r > n {
            ends_are_ahead(v, i + 1, v[i].r);
        }
    }
}

/// A table reaches as far as its cells do, and all its rows are as wide.
pub proof fn attached_tables_are_full(e: ElementV)
    ensures
        table_of(e) matches Some(t) ==> {
            let v = areas_from(kids_of(e, "cell"@), 0, seq![])->0;
            has_shape(t.rows, lowest(v, 0, 0), rightmost(v, 0, 0))
        },
{
    broadcast use blank_has_shape;

    match areas_from(kids_of(e, "cell"@), 0, seq![]) {
        Some(v) => {
            let rows = lowest(v, 0, 0);
            let cols = rightmost(v, 0, 0);
            ends_are_ahead(v, 0, 0);
            areas_keep_the_shape(v, 0, blank(rows, cols, Seq::<char>::empty()), rows, cols);
        },
        None => {},
    }
}

/// The table of a table element.
pub fn parse_table(e: &Element) -> (r: Option<Table>)
    ensures
        match table_of(e@) {
            Some(t) => r matches Some(x) && table_view(x) == t,
            None => r is None,
        },
{
    let v = kids(e, "cell");
    let ghost w = refs_view(v@);
    let ghost want = areas_from(w, 0, seq![]);
    let mut cells: Vec<Area> = Vec::new();
    let mut rows: usize = 0;
    let mut cols: usize = 0;
    let mut i: usize = 0;
    assert(areas_view(cells@) =~= seq![]);
    while i < v.len()
        invariant
            i <= v@.len(),
            w == refs_view(v@),
            w == kids_of(e@, "cell"@),
            want == areas_from(kids_of(e@, "cell"@), 0, seq![]),
            want == areas_from(w, i as int, areas_view(cells@)),
        decreases v@.len() - i,
    {
        assert(w[i as int] == v@[i as int]@);
        match read_area(v[i]) {
            Some(a) => {
                let ghost before = cells@;
                cells.push(a);
                assert(areas_view(cells@) =~= areas_view(before).push(a@));
            },
            None => {
                return None;
            },
        }
        i += 1;
    }
    let ghost c = areas_view(cells@);
    let mut k: usize = 0;
    while k < cells.len()
        invariant
            k <= cells@.len(),
            c == areas_view(cells@),
            lowest(c, 0, 0) == lowest(c, k as int, rows as int),
            rightmost(c, 0, 0) == rightmost(c, k as int, cols as int),
        decreases cells@.len() - k,
    {
        assert(c[k as int] == cells@[k as int]@);
        if cells[k].b > rows {
            rows = cells[k].b;
        }
        if cells[k].r > cols {
            cols = cells[k].r;
        }
        k += 1;
    }
    if rows == 0 || cols == 0 {
        return None;
    }
    let mut g = blank_cells(rows, cols);
    let ghost first = crate::document::cells(g@);
    let mut j: usize = 0;
    while j < cells.len()
        invariant
            j <= cells@.len(),
            c == areas_view(cells@),
            grid_from(c, 0, first) == grid_from(c, j as int, crate::document::cells(g@)),
        decreases cells@.len() - j,
    {
        assert(c[j as int] == cells@[j as int]@);
        let a = &cells[j];
        fill_cells(&mut g, a.t, a.b, a.l, a.r, &a.text);
        j += 1;
    }
    Some(plain_table(string_grid(&g)))
}

// ------------------------------------------------------------ documents

/// The walk through the children from `i` on of a container.
pub open spec fn blocks_from(ch: Seq<TreeV>, i: int, images: Seq<ImageV>, w: WalkV) -> WalkV
    decreases ch, ch.len() - i,
{
    if i < 0 || i >= ch.len() {
        w
    } else {
        blocks_from(
            ch,
            i + 1,
            images,
            match ch[i] {
                TreeV::Element(e) => if e.tag == "p"@ {
                    with_para(e, images, w)
                } else if e.tag == "table"@ {
                    WalkV {
                        nodes: match table_of(e) {
                            Some(t) => w.nodes.push(NodeV::Table(t)),
                            None => w.nodes,
                        },
                        last: None,
                        ..w
                    }
                } else {
                    blocks_from(e.children, 0, images, w)
                },
                _ => w,
            },
        )
    }
}

fn walk_blocks(ch: &Vec<Tree>, images: &Vec<Image>, w: &mut Walk)
    ensures
        final(w)@ == blocks_from(trees_view(ch@), 0, images_view(images@), old(w)@),
    decreases ch,
{
    let ghost v = trees_view(ch@);
    let ghost im = images_view(images@);
    let ghost first = w@;
    let mut i: usize = 0;
    while i < ch.len()
        invariant
            i <= ch@.len(),
            v == trees_view(ch@),
            im == images_view(images@),
            blocks_from(v, 0, im, first) == blocks_from(v, i as int, im, w@),
        decreases ch@.len() - i,
    {
        assert(v[i as int] == tree_view(ch@[i as int]));
        match &ch[i] {
            Tree::Element(e) => {
                if has_tag(e, "p") {
                    emit_paragraph(e, images, w);
                } else if has_tag(e, "table") {
                    w.last = None;
                    match parse_table(e) {
                        Some(t) => {
                            push_node(&mut w.nodes, Node::Table(t));
                        },
                        None => {},
                    }
                } else {
                    walk_blocks(&e.children, images, w);
                }
            },
            _ => {},
        }
        i += 1;
    }
}

/// Whether a section is a header or a footer.
pub open spec fn is_furniture(e: ElementV) -> bool {
    match plain_attr_of(e, "type"@) {
        Some(t) => has_prefix(t, "header"@) || has_prefix(t, "footer"@),
        None => false,
    }
}

/// The walk through the sections from `i` on.
pub open spec fn sections_from(v: Seq<ElementV>, i: int, images: Seq<ImageV>, w: WalkV) -> WalkV
    decreases v.len() - i,
{
    if i >= v.len() {
        w
    } else {
        sections_from(
            v,
            i + 1,
            images,
            if is_furniture(v[i]) {
                w
            } else {
                blocks_from(v[i].children, 0, images, w)
            },
        )
    }
}

/// The nodes of a document.
pub open spec fn document(root: ElementV) -> Seq<NodeV> {
    sections_from(
        kids_of(root, "section"@),
        0,
        images_from(self_and_under(root), 0, seq![]),
        WalkV { nodes: seq![], counters: seq![], last: None },
    ).nodes
}

/// The nodes of a document's tree.
pub fn convert_tree(root: &Element) -> (r: Vec<Node>)
    ensures
        nodes_view(r@) == document(root@),
{
    let images = load_data_blocks(root);
    let v = kids(root, "section");
    let ghost s = refs_view(v@);
    let ghost im = images_view(images@);
    let mut w = Walk { nodes: Vec::new(), counters: Vec::new(), last: None };
    let ghost first = WalkV { nodes: seq![], counters: seq![], last: None };
    assert(w@ =~= first);
    let mut i: usize = 0;
    while i < v.len()
        invariant
            i <= v@.len(),
            s == refs_view(v@),
            im == images_view(images@),
            sections_from(s, 0, im, first) == sections_from(s, i as int, im, w@),
        decreases v@.len() - i,
    {
        assert(s[i as int] == v@[i as int]@);
        let furniture = match plain_attr(v[i], "type") {
            Some(t) => {
                let c = chars_of(t);
                starts_with(&c, "header") || starts_with(&c, "footer")
            },
            None => false,
        };
        if !furniture {
            walk_blocks(&v[i].children, &images, &mut w);
        }
        i += 1;
    }
    w.nodes
}

/// The text of a gzip file; none where it is not one, or not UTF-8.
pub uninterp spec fn gunzipped(bytes: Seq<u8>) -> Option<Seq<char>>;

/// Calls `flate2::read::GzDecoder` and reads its text to the end. What is
/// claimed is that the result depends on the bytes alone. None where the
/// decoder, or its text's encoding, fails.
#[verifier::external_body]
pub(crate) fn gunzip(bytes: &[u8]) -> (r: Option<String>)
    ensures
        opt(r) == gunzipped(bytes@),
{
    let mut decoder = flate2::read::GzDecoder::new(bytes);
    let mut out = String::new();
    std::io::Read::read_to_string(&mut decoder, &mut out).ok().map(|_| out)
}

/// Why a file was not converted.
#[derive(Debug, PartialEq, Eq)]
pub enum AbwError {
    /// The compressed file cannot be read.
    Gzip,
    /// The file is no text.
    NotText,
    /// The text has no tree.
    Xml(XmlError),
    /// The document is not AbiWord's.
    NotAbiWord,
}

/// Whether bytes begin as a gzip file does.
pub open spec fn is_gzip(b: Seq<u8>) -> bool {
    b.len() >= 2 && b[0] == 0x1f && b[1] == 0x8b
}

/// Whether a document was converted so.
pub open spec fn is_converted(xml: Seq<char>, r: Result<Vec<Node>, AbwError>) -> bool {
    match xml_items(xml, true) {
        Err(e) => r matches Err(AbwError::Xml(XmlError::Syntax(m))) && m@ == e,
        Ok(items) => match root_of(items) {
            None => r matches Err(AbwError::Xml(XmlError::NoRoot)),
            Some(root) => if root.tag != "abiword"@ {
                r matches Err(AbwError::NotAbiWord)
            } else {
                r matches Ok(nodes) && nodes_view(nodes@) == document(root)
            },
        },
    }
}

/// The nodes of a document's text.
pub fn convert_text(xml: &str) -> (r: Result<Vec<Node>, AbwError>)
    ensures
        is_converted(xml@, r),
{
    match parse_xml(xml, true) {
        Err(e) => Err(AbwError::Xml(e)),
        Ok(root) => if !has_tag(&root, "abiword") {
            Err(AbwError::NotAbiWord)
        } else {
            Ok(convert_tree(&root))
        },
    }
}

/// The AbiWord backend.
pub struct AbwBackend;

impl AbwBackend {
    /// The nodes of a file: of its text, or of the text that it holds
    /// compressed. `text` is the file as a text, where it is one.
    pub fn convert(&self, bytes: &[u8], text: Option<&str>) -> (r: Result<Vec<Node>, AbwError>)
        ensures
            if is_gzip(bytes@) {
                match gunzipped(bytes@) {
                    Some(t) => is_converted(t, r),
                    None => r matches Err(AbwError::Gzip),
                }
            } else {
                match text {
                    Some(t) => is_converted(t@, r),
                    None => r matches Err(AbwError::NotText),
                }
            },
    {
        if bytes.len() >= 2 && bytes[0] == 0x1f && bytes[1] == 0x8b {
            return match gunzip(bytes) {
                Some(t) => convert_text(t.as_str()),
                None => Err(AbwError::Gzip),
            };
        }
        match text {
            Some(t) => convert_text(t),
            None => Err(AbwError::NotText),
        }
    }
}

} // verus!
