//! Markdown of the DeepSeek-OCR and Unlimited-OCR models.
//!
//! Every block stands behind a line with its layout label and its box. What
//! comes before the first such line is dropped, and the boxes are not used.

use crate::document::{heading, nodes_view, paragraph, push_node, strs, CaptionParent, Node, NodeV};
use crate::html::{append_fragment, with_page};
use crate::parse::html_items;
use crate::pattern::{
    capture_pairs, capture_text, captured_pairs, captured_text, pairs_view, substitute, substituted,
};
use crate::text::{
    chars_of, chomped, contains, contains_from, copy, escape_text, escaped, index_from,
    index_from_is_first, is, join, joined, lines, lines_from, lines_of, lowercase, lstrip, rstrip,
    slice, split, split_from, splits, string_of, strip, strip_ignores_the_end, texts, texts_push,
    to_lowercase, trim, trim_end, trim_start,
};
use vstd::prelude::*;

verus! {

/// The pattern of a line with a label.
pub open spec fn label_pattern() -> Seq<char> {
    "^(?:<\\|ref\\|>)?(\\w+)(?:<\\|/ref\\|>)?(?:<\\|det\\|>)?\\[\\[([0-9., ]+)\\]\\](?:<\\|/det\\|>)?\\s*$"@
}

/// The pattern of an Unlimited-OCR label.
pub open spec fn unlimited_pattern() -> Seq<char> {
    "<\\|det\\|>\\s*([a-z_]+)\\s*\\[(\\d+(?:\\s*,\\s*\\d+){3})\\]<\\|/det\\|>"@
}

/// The label of a line, if it is one. A blank line has none.
pub open spec fn line_label(line: Seq<char>) -> Option<Seq<char>> {
    if strip(line).len() == 0 {
        None
    } else {
        captured_text(label_pattern(), strip(line))
    }
}

fn label_of(line: &Vec<char>) -> (r: Option<Vec<char>>)
    ensures
        label_view(r) == line_label(line@),
{
    let line = trim(line);
    if line.len() == 0 {
        return None;
    }
    let t = string_of(&line);
    match capture_text(
        "^(?:<\\|ref\\|>)?(\\w+)(?:<\\|/ref\\|>)?(?:<\\|det\\|>)?\\[\\[([0-9., ]+)\\]\\](?:<\\|/det\\|>)?\\s*$",
        t.as_str(),
    ) {
        Some(x) => Some(chars_of(x.as_str())),
        None => None,
    }
}

/// View of an optional label.
pub open spec fn label_view(o: Option<Vec<char>>) -> Option<Seq<char>> {
    match o {
        Some(v) => Some(v@),
        None => None,
    }
}

/// Views of labels.
pub open spec fn labels_view(v: Seq<Option<Vec<char>>>) -> Seq<Option<Seq<char>>> {
    Seq::new(v.len(), |i: int| label_view(v[i]))
}

/// The labels of lines.
pub open spec fn labels_of(v: Seq<Seq<char>>) -> Seq<Option<Seq<char>>> {
    Seq::new(v.len(), |i: int| line_label(v[i]))
}

/// Whether a label is there.
pub open spec fn has_label(v: Seq<Option<Seq<char>>>) -> bool {
    exists|i: int| 0 <= i < v.len() && (#[trigger] v[i]) is Some
}

fn read_labels(v: &Vec<Vec<char>>) -> (r: Vec<Option<Vec<char>>>)
    ensures
        labels_view(r@) == labels_of(texts(v@)),
{
    let mut out: Vec<Option<Vec<char>>> = Vec::new();
    let mut i: usize = 0;
    while i < v.len()
        invariant
            i <= v@.len(),
            out@.len() == i,
            forall|k: int| 0 <= k < i ==> label_view(#[trigger] out@[k]) == line_label(v@[k]@),
        decreases v@.len() - i,
    {
        out.push(label_of(&v[i]));
        i += 1;
    }
    assert(labels_view(out@) =~= labels_of(texts(v@)));
    out
}

/// Whether a text has lines with labels.
pub fn is_deepseek_markdown(text: &str) -> (r: bool)
    ensures
        r == has_label(labels_of(lines_of(text@))),
{
    let labels = read_labels(&lines(&chars_of(text)));
    let ghost v = labels_view(labels@);
    let mut i: usize = 0;
    while i < labels.len()
        invariant
            i <= labels@.len(),
            v == labels_view(labels@),
            v == labels_of(lines_of(text@)),
            forall|k: int| 0 <= k < i ==> (#[trigger] v[k]) is None,
        decreases labels@.len() - i,
    {
        assert(v[i as int] == label_view(labels@[i as int]));
        if labels[i].is_some() {
            return true;
        }
        i += 1;
    }
    false
}

/// Whether a text has Unlimited-OCR labels.
pub fn is_unlimited_ocr_markdown(text: &str) -> (r: bool)
    ensures
        r == (captured_pairs(unlimited_pattern(), text@).len() > 0),
{
    let found = capture_pairs(
        "<\\|det\\|>\\s*([a-z_]+)\\s*\\[(\\d+(?:\\s*,\\s*\\d+){3})\\]<\\|/det\\|>",
        text,
    );
    assert(pairs_view(found@).len() == found@.len());
    found.len() > 0
}

/// An Unlimited-OCR text with its labels in the DeepSeek shape, each on a line
/// of its own; other text stays. That the pattern matches nowhere in the result
/// is not stated: it is a matter of what the pattern finds.
pub fn normalize_unlimited_ocr(text: &str) -> (r: String)
    ensures
        r@ == substituted(
            unlimited_pattern(),
            text@,
            "<|ref|>$1<|/ref|><|det|>[[$2]]<|/det|>\n"@,
        ),
        captured_pairs(unlimited_pattern(), text@).len() == 0 ==> r@ == text@,
{
    substitute(
        "<\\|det\\|>\\s*([a-z_]+)\\s*\\[(\\d+(?:\\s*,\\s*\\d+){3})\\]<\\|/det\\|>",
        text,
        "<|ref|>$1<|/ref|><|det|>[[$2]]<|/det|>\n",
    )
}

// ------------------------------------------------------------ annotations

/// A labelled block.
pub struct Annotation {
    pub label: Vec<char>,
    pub content: Vec<char>,
}

/// View of an [`Annotation`].
#[verifier::ext_equal]
pub struct AnnotationV {
    pub label: Seq<char>,
    pub content: Seq<char>,
}

impl View for Annotation {
    type V = AnnotationV;

    open spec fn view(&self) -> AnnotationV {
        AnnotationV { label: self.label@, content: self.content@ }
    }
}

/// Views of annotations.
pub open spec fn annotations_view(v: Seq<Annotation>) -> Seq<AnnotationV> {
    Seq::new(v.len(), |i: int| v[i]@)
}

/// A line in lower case that holds a text.
pub open spec fn line_has(lower: Seq<char>, t: Seq<char>) -> bool {
    contains_from(lower, t, 0)
}

/// The lines of a table from line `i` on, and which of them: those from the
/// one that opens a table up to the one that closes it.
pub open spec fn table_lines(
    lines: Seq<Seq<char>>,
    lower: Seq<Seq<char>>,
    i: int,
    started: bool,
    used: Seq<bool>,
    done: Seq<Seq<char>>,
) -> (Seq<Seq<char>>, Seq<bool>)
    decreases lines.len() - i,
{
    if i >= lines.len() {
        (done, used)
    } else {
        let s = started || line_has(lower[i], "<table"@);
        let d = if s {
            done.push(rstrip(lines[i]))
        } else {
            done
        };
        let u = if s {
            used.update(i, true)
        } else {
            used
        };
        if s && line_has(lower[i], "</table>"@) {
            (d, u)
        } else {
            table_lines(lines, lower, i + 1, s, u, d)
        }
    }
}

/// What a block's content is, which lines are used, and where reading goes on.
#[verifier::ext_equal]
pub struct ContentV {
    pub parts: Seq<Seq<char>>,
    pub used: Seq<bool>,
    pub at: int,
}

/// The lines of another block from line `i` on: the next line that is not
/// blank, or with `many` all of them up to a blank one; a line with a label
/// ends it.
pub open spec fn text_lines(
    lines: Seq<Seq<char>>,
    labels: Seq<Option<Seq<char>>>,
    i: int,
    many: bool,
    used: Seq<bool>,
    done: Seq<Seq<char>>,
) -> ContentV
    decreases lines.len() - i,
{
    if i >= lines.len() {
        ContentV { parts: done, used, at: i }
    } else if strip(lines[i]).len() > 0 {
        if labels[i] is Some {
            ContentV { parts: done, used, at: i }
        } else if many {
            text_lines(lines, labels, i + 1, many, used.update(i, true), done.push(rstrip(lines[i])))
        } else {
            ContentV {
                parts: done.push(rstrip(lines[i])),
                used: used.update(i, true),
                at: i + 1,
            }
        }
    } else if done.len() > 0 {
        ContentV { parts: done, used, at: i + 1 }
    } else {
        text_lines(lines, labels, i + 1, many, used, done)
    }
}

/// The content of the block behind the label at `i - 1`.
pub open spec fn content_of(
    lines: Seq<Seq<char>>,
    lower: Seq<Seq<char>>,
    labels: Seq<Option<Seq<char>>>,
    i: int,
    label: Seq<char>,
    used: Seq<bool>,
) -> ContentV {
    if label == "table"@ {
        let t = table_lines(lines, lower, i, false, used, seq![]);
        ContentV { parts: t.0, used: t.1, at: i }
    } else {
        text_lines(lines, labels, i, label == "figure"@ || label == "image"@, used, seq![])
    }
}

/// The annotations from line `i` on, added to `done`. A line that is part of
/// a block's content is no label.
pub open spec fn annotations_from(
    lines: Seq<Seq<char>>,
    lower: Seq<Seq<char>>,
    labels: Seq<Option<Seq<char>>>,
    i: int,
    used: Seq<bool>,
    done: Seq<AnnotationV>,
) -> Seq<AnnotationV>
    decreases lines.len() - i,
{
    if i >= lines.len() {
        done
    } else if used[i] || labels[i] is None {
        annotations_from(lines, lower, labels, i + 1, used, done)
    } else {
        let c = content_of(lines, lower, labels, i + 1, labels[i]->0, used);
        if c.at <= i || c.at > lines.len() {
            done
        } else {
            annotations_from(
                lines,
                lower,
                labels,
                c.at,
                c.used,
                done.push(
                    AnnotationV { label: labels[i]->0, content: joined(c.parts, "\n"@) },
                ),
            )
        }
    }
}

/// No line is used.
pub open spec fn none_used(n: int) -> Seq<bool> {
    Seq::new(n as nat, |i: int| false)
}

fn collect_table(
    lines: &Vec<Vec<char>>,
    lower: &Vec<Vec<char>>,
    from: usize,
    used: &mut Vec<bool>,
) -> (r: Vec<Vec<char>>)
    requires
        lower@.len() == lines@.len(),
        old(used)@.len() == lines@.len(),
    ensures
        (texts(r@), final(used)@) == table_lines(
            texts(lines@),
            texts(lower@),
            from as int,
            false,
            old(used)@,
            seq![],
        ),
        final(used)@.len() == lines@.len(),
{
    let ghost w = texts(lines@);
    let ghost l = texts(lower@);
    let ghost want = table_lines(w, l, from as int, false, used@, seq![]);
    let mut out: Vec<Vec<char>> = Vec::new();
    let mut started = false;
    let mut i: usize = from;
    assert(texts(out@) =~= seq![]);
    while i < lines.len()
        invariant
            from <= i,
            w == texts(lines@),
            l == texts(lower@),
            lower@.len() == lines@.len(),
            used@.len() == lines@.len(),
            want == table_lines(
                texts(lines@),
                texts(lower@),
                from as int,
                false,
                old(used)@,
                seq![],
            ),
            want == table_lines(w, l, i as int, started, used@, texts(out@)),
        decreases lines@.len() - i,
    {
        broadcast use texts_push;

        assert(w[i as int] == lines@[i as int]@);
        assert(l[i as int] == lower@[i as int]@);
        if contains(&lower[i], "<table") {
            started = true;
        }
        if started {
            used.set(i, true);
            out.push(trim_end(&lines[i]));
        }
        if started && contains(&lower[i], "</table>") {
            return out;
        }
        i += 1;
    }
    out
}

fn collect_text(
    lines: &Vec<Vec<char>>,
    labels: &Vec<Option<Vec<char>>>,
    from: usize,
    many: bool,
    used: &mut Vec<bool>,
) -> (r: (Vec<Vec<char>>, usize))
    requires
        labels@.len() == lines@.len(),
        old(used)@.len() == lines@.len(),
        from <= lines@.len(),
    ensures
        (ContentV { parts: texts(r.0@), used: final(used)@, at: r.1 as int }) == text_lines(
            texts(lines@),
            labels_view(labels@),
            from as int,
            many,
            old(used)@,
            seq![],
        ),
        final(used)@.len() == lines@.len(),
        from <= r.1 <= lines@.len(),
{
    let ghost w = texts(lines@);
    let ghost l = labels_view(labels@);
    let ghost want = text_lines(w, l, from as int, many, used@, seq![]);
    let mut out: Vec<Vec<char>> = Vec::new();
    let mut i: usize = from;
    assert(texts(out@) =~= seq![]);
    while i < lines.len()
        invariant
            from <= i <= lines@.len(),
            w == texts(lines@),
            l == labels_view(labels@),
            labels@.len() == lines@.len(),
            used@.len() == lines@.len(),
            want == text_lines(
                texts(lines@),
                labels_view(labels@),
                from as int,
                many,
                old(used)@,
                seq![],
            ),
            want == text_lines(w, l, i as int, many, used@, texts(out@)),
        decreases lines@.len() - i,
    {
        broadcast use texts_push;

        assert(w[i as int] == lines@[i as int]@);
        assert(l[i as int] == label_view(labels@[i as int]));
        if trim(&lines[i]).len() > 0 {
            if labels[i].is_some() {
                return (out, i);
            }
            used.set(i, true);
            out.push(trim_end(&lines[i]));
            i += 1;
            if !many {
                return (out, i);
            }
        } else {
            i += 1;
            assert(texts(out@).len() == out@.len());
            if out.len() > 0 {
                return (out, i);
            }
        }
    }
    (out, i)
}

/// The annotations of lines, given the lines in lower case and their labels.
pub fn collect_annotations(
    lines: &Vec<Vec<char>>,
    lower: &Vec<Vec<char>>,
    labels: &Vec<Option<Vec<char>>>,
) -> (r: Vec<Annotation>)
    requires
        lower@.len() == lines@.len(),
        labels@.len() == lines@.len(),
    ensures
        annotations_view(r@) == annotations_from(
            texts(lines@),
            texts(lower@),
            labels_view(labels@),
            0,
            none_used(lines@.len() as int),
            seq![],
        ),
{
    let ghost w = texts(lines@);
    let ghost lo = texts(lower@);
    let ghost l = labels_view(labels@);
    let n: usize = lines.len();
    let ghost want = annotations_from(w, lo, l, 0, none_used(n as int), seq![]);
    let mut used: Vec<bool> = Vec::new();
    while used.len() < n
        invariant
            used@.len() <= n,
            forall|k: int| 0 <= k < used@.len() ==> !(#[trigger] used@[k]),
        decreases n - used@.len(),
    {
        used.push(false);
    }
    assert(used@ =~= none_used(n as int));
    let mut out: Vec<Annotation> = Vec::new();
    let mut i: usize = 0;
    assert(annotations_view(out@) =~= seq![]);
    while i < n
        invariant
            i <= n == lines@.len(),
            w == texts(lines@),
            lo == texts(lower@),
            l == labels_view(labels@),
            lower@.len() == n,
            labels@.len() == n,
            used@.len() == n,
            want == annotations_from(w, lo, l, i as int, used@, annotations_view(out@)),
        decreases n - i,
    {
        assert(l[i as int] == label_view(labels@[i as int]));
        let found = if used[i] {
            None
        } else {
            match &labels[i] {
                Some(x) => Some(copy(x)),
                None => None,
            }
        };
        match found {
            None => {
                i += 1;
            },
            Some(label) => {
                let ghost before = out@;
                let (parts, next) = if is(&label, "table") {
                    (collect_table(lines, lower, i + 1, &mut used), i + 1)
                } else {
                    let many = is(&label, "figure") || is(&label, "image");
                    collect_text(lines, labels, i + 1, many, &mut used)
                };
                let x = Annotation { label, content: join(&parts, "\n") };
                out.push(x);
                assert(annotations_view(out@) =~= annotations_view(before).push(x@));
                i = next;
            },
        }
    }
    out
}

// ------------------------------------------------------------ nodes

/// Whether a caption's label is that of an element's caption.
pub open spec fn captions(elem: Seq<char>, caption: Seq<char>) -> bool {
    (elem == "table"@ && caption == "table_caption"@) || (elem == "figure"@ && caption
        == "figure_caption"@) || (elem == "image"@ && caption == "image_caption"@)
}

/// Whether a label is a caption's.
pub open spec fn is_caption(label: Seq<char>) -> bool {
    label == "table_caption"@ || label == "figure_caption"@ || label == "image_caption"@
}

fn caption_matches(elem: &Vec<char>, caption: &Vec<char>) -> (r: bool)
    ensures
        r == captions(elem@, caption@),
{
    (is(elem, "table") && is(caption, "table_caption")) || (is(elem, "figure") && is(
        caption,
        "figure_caption",
    )) || (is(elem, "image") && is(caption, "image_caption"))
}

fn is_caption_label(label: &Vec<char>) -> (r: bool)
    ensures
        r == is_caption(label@),
{
    is(label, "table_caption") || is(label, "figure_caption") || is(label, "image_caption")
}

/// The number of `#`s that a text begins with, from `i` on.
pub open spec fn hashes(s: Seq<char>, i: int) -> int
    decreases s.len() - i,
{
    if i >= s.len() || s[i] != '#' {
        i
    } else {
        hashes(s, i + 1)
    }
}

/// A text without the `#`s and the white space before it.
pub open spec fn unhashed(s: Seq<char>) -> Seq<char> {
    if hashes(s, 0) == 0 {
        s
    } else {
        lstrip(s.skip(hashes(s, 0)))
    }
}

fn strip_hashes(s: &Vec<char>) -> (r: (Vec<char>, usize))
    ensures
        r.0@ == unhashed(s@),
        r.1 == hashes(s@, 0),
{
    let mut n: usize = 0;
    while n < s.len() && s[n] == '#'
        invariant
            n <= s@.len(),
            hashes(s@, 0) == hashes(s@, n as int),
        decreases s@.len() - n,
    {
        n += 1;
    }
    if n == 0 {
        return (copy(s), 0);
    }
    let rest = slice(s, n, s.len());
    assert(rest@ =~= s@.skip(n as int));
    (trim_start(&rest), n)
}

/// The level of a subtitle with a number of `#`s: that number, at least two.
pub open spec fn sub_level(n: int) -> u8 {
    if n > 1 {
        (n % 256) as u8
    } else {
        2
    }
}

/// The nodes with a block added.
pub open spec fn with_block(
    nodes: Seq<NodeV>,
    label: Seq<char>,
    content: Seq<char>,
    caption: Option<Seq<char>>,
    limit: int,
) -> Seq<NodeV> {
    if label == "figure"@ || label == "image"@ {
        nodes.push(NodeV::Picture { caption, caption_href: None, caption_parent: CaptionParent::Body, sources: seq![] })
    } else if label == "table"@ {
        with_page(
            match caption {
                Some(c) => nodes.push(NodeV::Paragraph { text: c }),
                None => nodes,
            },
            html_items(content),
            limit,
            false,
        )
    } else if label == "title"@ {
        nodes.push(NodeV::Heading { level: 1, text: escaped(unhashed(content)) })
    } else if label == "sub_title"@ {
        nodes.push(
            NodeV::Heading {
                level: sub_level(hashes(content, 0)),
                text: escaped(unhashed(content)),
            },
        )
    } else {
        nodes.push(NodeV::Paragraph { text: escaped(content) })
    }
}

fn emit(
    label: &Vec<char>,
    content: &Vec<char>,
    caption: Option<Vec<char>>,
    limit: usize,
    nodes: &mut Vec<Node>,
)
    ensures
        nodes_view(final(nodes)@) == with_block(
            nodes_view(old(nodes)@),
            label@,
            content@,
            label_view(caption),
            limit as int,
        ),
{
    if is(label, "figure") || is(label, "image") {
        let sources: Vec<String> = Vec::new();
        assert(strs(sources@) =~= seq![]);
        let shown = match caption {
            Some(c) => Some(string_of(&c)),
            None => None,
        };
        push_node(nodes, Node::Picture { caption: shown, caption_href: None, caption_parent: CaptionParent::Body, sources });
    } else if is(label, "table") {
        match caption {
            Some(c) => {
                push_node(nodes, paragraph(&c));
            },
            None => {},
        }
        let html = string_of(content);
        append_fragment(html.as_str(), limit, false, nodes);
    } else if is(label, "title") {
        let (text, _n) = strip_hashes(content);
        push_node(nodes, heading(1, &escape_text(&text)));
    } else if is(label, "sub_title") {
        let (text, n) = strip_hashes(content);
        let level: u8 = if n > 1 {
            (n % 256) as u8
        } else {
            2
        };
        push_node(nodes, heading(level, &escape_text(&text)));
    } else {
        push_node(nodes, paragraph(&escape_text(content)));
    }
}

/// Whether the annotation at `i` is the caption of the one before it.
pub open spec fn is_taken(v: Seq<AnnotationV>, i: int) -> bool {
    is_caption(v[i].label) && i > 0 && captions(v[i - 1].label, v[i].label)
}

/// The caption of the annotation at `i`: the next one, if it is its caption.
pub open spec fn caption_at(v: Seq<AnnotationV>, i: int) -> Option<Seq<char>> {
    if i + 1 < v.len() && captions(v[i].label, v[i + 1].label) {
        Some(escaped(v[i + 1].content))
    } else {
        None
    }
}

/// The nodes of the annotations from `i` on, added to `nodes`. A caption
/// right behind its element is part of it.
pub open spec fn blocks_from(v: Seq<AnnotationV>, i: int, limit: int, nodes: Seq<NodeV>) -> Seq<NodeV>
    decreases v.len() - i,
{
    if i >= v.len() {
        nodes
    } else {
        blocks_from(
            v,
            i + 1,
            limit,
            if is_taken(v, i) {
                nodes
            } else {
                with_block(nodes, v[i].label, v[i].content, caption_at(v, i), limit)
            },
        )
    }
}

/// The nodes of annotations.
pub fn emit_deepseek(v: &Vec<Annotation>, limit: usize) -> (r: Vec<Node>)
    ensures
        nodes_view(r@) == blocks_from(annotations_view(v@), 0, limit as int, seq![]),
{
    let ghost w = annotations_view(v@);
    let mut nodes: Vec<Node> = Vec::new();
    let n: usize = v.len();
    let mut i: usize = 0;
    assert(nodes_view(nodes@) =~= seq![]);
    while i < n
        invariant
            i <= n == v@.len(),
            w == annotations_view(v@),
            blocks_from(w, 0, limit as int, seq![]) == blocks_from(
                w,
                i as int,
                limit as int,
                nodes_view(nodes@),
            ),
        decreases n - i,
    {
        assert(w[i as int] == v@[i as int]@);
        assert(i > 0 ==> w[i - 1] == v@[i - 1]@);
        assert(i + 1 < n ==> w[i + 1] == v@[i + 1]@);
        let taken = is_caption_label(&v[i].label) && i > 0 && caption_matches(
            &v[i - 1].label,
            &v[i].label,
        );
        if !taken {
            let caption = if i + 1 < n && caption_matches(&v[i].label, &v[i + 1].label) {
                Some(escape_text(&v[i + 1].content))
            } else {
                None
            };
            emit(&v[i].label, &v[i].content, caption, limit, &mut nodes);
        }
        i += 1;
    }
    nodes
}

/// Every caption right behind its table, figure or image is part of that
/// element and of nothing else: the annotation that takes it is not itself
/// taken, and it shows the caption's text.
pub proof fn a_caption_is_claimed_once(v: Seq<AnnotationV>, i: int)
    requires
        0 < i < v.len(),
        is_taken(v, i),
    ensures
        !is_taken(v, i - 1),
        caption_at(v, i - 1) == Some(escaped(v[i].content)),
{
    reveal_strlit("table");
    reveal_strlit("figure");
    reveal_strlit("image");
    reveal_strlit("table_caption");
    reveal_strlit("figure_caption");
    reveal_strlit("image_caption");
    assert("table"@.len() == 5 && "figure"@.len() == 6 && "image"@.len() == 5);
    assert("table_caption"@.len() == 13 && "figure_caption"@.len() == 14 && "image_caption"@.len()
        == 13);
}

/// The lines of a text in lower case.
pub open spec fn lower_lines(v: Seq<Seq<char>>) -> Seq<Seq<char>> {
    Seq::new(v.len(), |i: int| lowercase(v[i]))
}

fn lower_all(v: &Vec<Vec<char>>) -> (r: Vec<Vec<char>>)
    ensures
        texts(r@) == lower_lines(texts(v@)),
{
    let mut out: Vec<Vec<char>> = Vec::new();
    let mut i: usize = 0;
    while i < v.len()
        invariant
            i <= v@.len(),
            out@.len() == i,
            forall|k: int| 0 <= k < i ==> (#[trigger] out@[k])@ == lowercase(v@[k]@),
        decreases v@.len() - i,
    {
        let s = string_of(&v[i]);
        out.push(chars_of(to_lowercase(s.as_str()).as_str()));
        i += 1;
    }
    assert(texts(out@) =~= lower_lines(texts(v@)));
    out
}

/// The nodes of a text with labels.
pub open spec fn deepseek(text: Seq<char>, limit: int) -> Seq<NodeV> {
    blocks_from(annotations_of(splits(text, '\n')), 0, limit, seq![])
}

// ------------------------------------------------------------ laws

proof fn text_ends_in_the_lines(
    lines: Seq<Seq<char>>,
    labels: Seq<Option<Seq<char>>>,
    i: int,
    many: bool,
    used: Seq<bool>,
    done: Seq<Seq<char>>,
)
    requires
        0 <= i <= lines.len(),
    ensures
        i <= text_lines(lines, labels, i, many, used, done).at <= lines.len(),
    decreases lines.len() - i,
{
    if i < lines.len() {
        if strip(lines[i]).len() > 0 {
            if labels[i] is None && many {
                text_ends_in_the_lines(
                    lines,
                    labels,
                    i + 1,
                    many,
                    used.update(i, true),
                    done.push(rstrip(lines[i])),
                );
            }
        } else if done.len() == 0 {
            text_ends_in_the_lines(lines, labels, i + 1, many, used, done);
        }
    }
}

proof fn annotations_stay(
    lines: Seq<Seq<char>>,
    lower: Seq<Seq<char>>,
    labels: Seq<Option<Seq<char>>>,
    i: int,
    used: Seq<bool>,
    done: Seq<AnnotationV>,
)
    ensures
        done.len() <= annotations_from(lines, lower, labels, i, used, done).len(),
    decreases lines.len() - i,
{
    if i < lines.len() {
        if used[i] || labels[i] is None {
            annotations_stay(lines, lower, labels, i + 1, used, done);
        } else {
            let c = content_of(lines, lower, labels, i + 1, labels[i]->0, used);
            if i < c.at <= lines.len() {
                let a = AnnotationV { label: labels[i]->0, content: joined(c.parts, "\n"@) };
                annotations_stay(lines, lower, labels, c.at, c.used, done.push(a));
            }
        }
    }
}

proof fn labels_make_annotations(
    lines: Seq<Seq<char>>,
    lower: Seq<Seq<char>>,
    labels: Seq<Option<Seq<char>>>,
    i: int,
    used: Seq<bool>,
    done: Seq<AnnotationV>,
)
    requires
        0 <= i,
        used.len() == lines.len() == labels.len(),
        forall|k: int| i <= k < used.len() ==> !(#[trigger] used[k]),
    ensures
        (exists|k: int| i <= k < labels.len() && (#[trigger] labels[k]) is Some)
            ==> annotations_from(lines, lower, labels, i, used, done).len() > done.len(),
        !(exists|k: int| i <= k < labels.len() && (#[trigger] labels[k]) is Some)
            ==> annotations_from(lines, lower, labels, i, used, done) == done,
    decreases lines.len() - i,
{
    if i < lines.len() {
        if labels[i] is None {
            labels_make_annotations(lines, lower, labels, i + 1, used, done);
            if exists|k: int| i <= k < labels.len() && (#[trigger] labels[k]) is Some {
                let k = choose|k: int| i <= k < labels.len() && (#[trigger] labels[k]) is Some;
                assert(i + 1 <= k && labels[k] is Some);
            }
        } else {
            let label = labels[i]->0;
            let many = label == "figure"@ || label == "image"@;
            text_ends_in_the_lines(lines, labels, i + 1, many, used, seq![]);
            let c = content_of(lines, lower, labels, i + 1, label, used);
            let a = AnnotationV { label, content: joined(c.parts, "\n"@) };
            annotations_stay(lines, lower, labels, c.at, c.used, done.push(a));
        }
    }
}

/// The annotations of lines.
pub open spec fn annotations_of(v: Seq<Seq<char>>) -> Seq<AnnotationV> {
    annotations_from(v, lower_lines(v), labels_of(v), 0, none_used(v.len() as int), seq![])
}

proof fn a_label_more(v: Seq<Seq<char>>, x: Seq<char>)
    ensures
        labels_of(v.push(x)) == labels_of(v).push(line_label(x)),
        has_label(labels_of(v.push(x))) == (has_label(labels_of(v)) || line_label(x) is Some),
{
    let a = labels_of(v);
    let b = labels_of(v.push(x));
    assert(b =~= a.push(line_label(x)));
    if has_label(a) {
        let k = choose|k: int| 0 <= k < a.len() && (#[trigger] a[k]) is Some;
        assert(b[k] is Some);
    }
    assert(b[v.len() as int] == line_label(x));
    if has_label(b) && line_label(x) is None {
        let k = choose|k: int| 0 <= k < b.len() && (#[trigger] b[k]) is Some;
        assert(a[k] is Some);
    }
}

proof fn both_ways_to_split_find_labels(
    s: Seq<char>,
    from: int,
    a: Seq<Seq<char>>,
    b: Seq<Seq<char>>,
)
    requires
        0 <= from <= s.len(),
        has_label(labels_of(a)) == has_label(labels_of(b)),
    ensures
        has_label(labels_of(lines_from(s, from, a))) == has_label(
            labels_of(split_from(s, '\n', from, b)),
        ),
    decreases s.len() - from,
{
    index_from_is_first(s, '\n', from);
    let k = index_from(s, '\n', from);
    if from >= s.len() {
        a_label_more(b, s.skip(from));
        assert(s.skip(from) =~= seq![]);
    } else if k >= s.len() {
        a_label_more(a, s.skip(from));
        a_label_more(b, s.skip(from));
    } else {
        let line = s.subrange(from, k);
        a_label_more(a, chomped(line));
        a_label_more(b, line);
        if line.len() > 0 && line.last() == '\r' {
            strip_ignores_the_end(line);
        }
        both_ways_to_split_find_labels(s, k + 1, a.push(chomped(line)), b.push(line));
    }
}

/// A text has annotations exactly where it is taken for text with labels.
pub proof fn recognised_texts_have_annotations(text: Seq<char>)
    ensures
        (annotations_of(splits(text, '\n')).len() > 0) == has_label(labels_of(lines_of(text))),
{
    let v = splits(text, '\n');
    let labels = labels_of(v);
    both_ways_to_split_find_labels(text, 0, seq![], seq![]);
    labels_make_annotations(
        v,
        lower_lines(v),
        labels,
        0,
        none_used(v.len() as int),
        seq![],
    );
    assert(has_label(labels) == exists|k: int|
        0 <= k < labels.len() && (#[trigger] labels[k]) is Some);
}

proof fn tables_shift(
    p: Seq<Seq<char>>,
    pl: Seq<Seq<char>>,
    v: Seq<Seq<char>>,
    vl: Seq<Seq<char>>,
    i: int,
    started: bool,
    a: Seq<bool>,
    used: Seq<bool>,
    done: Seq<Seq<char>>,
)
    requires
        0 <= i,
        pl.len() == p.len() == a.len(),
        vl.len() == v.len() == used.len(),
    ensures
        ({
            let t = table_lines(v, vl, i, started, used, done);
            &&& t.1.len() == v.len()
            &&& table_lines(p + v, pl + vl, p.len() + i, started, a + used, done) == (t.0, a + t.1)
        }),
    decreases v.len() - i,
{
    if i < v.len() {
        let n = p.len() as int;
        assert((p + v)[n + i] == v[i]);
        assert((pl + vl)[n + i] == vl[i]);
        let s = started || line_has(vl[i], "<table"@);
        let d = if s {
            done.push(rstrip(v[i]))
        } else {
            done
        };
        let u = if s {
            used.update(i, true)
        } else {
            used
        };
        assert((a + used).update(n + i, true) =~= a + used.update(i, true));
        tables_shift(p, pl, v, vl, i + 1, s, a, u, d);
    }
}

proof fn texts_shift(
    p: Seq<Seq<char>>,
    pb: Seq<Option<Seq<char>>>,
    v: Seq<Seq<char>>,
    vb: Seq<Option<Seq<char>>>,
    i: int,
    many: bool,
    a: Seq<bool>,
    used: Seq<bool>,
    done: Seq<Seq<char>>,
)
    requires
        0 <= i,
        pb.len() == p.len() == a.len(),
        vb.len() == v.len() == used.len(),
    ensures
        ({
            let c = text_lines(v, vb, i, many, used, done);
            &&& c.used.len() == v.len()
            &&& text_lines(p + v, pb + vb, p.len() + i, many, a + used, done) == (ContentV {
                parts: c.parts,
                used: a + c.used,
                at: p.len() + c.at,
            })
        }),
    decreases v.len() - i,
{
    if i < v.len() {
        let n = p.len() as int;
        assert((p + v)[n + i] == v[i]);
        assert((pb + vb)[n + i] == vb[i]);
        assert((a + used).update(n + i, true) =~= a + used.update(i, true));
        if strip(v[i]).len() > 0 {
            if vb[i] is None && many {
                texts_shift(
                    p,
                    pb,
                    v,
                    vb,
                    i + 1,
                    many,
                    a,
                    used.update(i, true),
                    done.push(rstrip(v[i])),
                );
            }
        } else if done.len() == 0 {
            texts_shift(p, pb, v, vb, i + 1, many, a, used, done);
        }
    }
}

proof fn annotations_shift(
    p: Seq<Seq<char>>,
    pl: Seq<Seq<char>>,
    pb: Seq<Option<Seq<char>>>,
    v: Seq<Seq<char>>,
    vl: Seq<Seq<char>>,
    vb: Seq<Option<Seq<char>>>,
    i: int,
    a: Seq<bool>,
    used: Seq<bool>,
    done: Seq<AnnotationV>,
)
    requires
        0 <= i,
        pl.len() == pb.len() == p.len() == a.len(),
        vl.len() == vb.len() == v.len() == used.len(),
    ensures
        annotations_from(p + v, pl + vl, pb + vb, p.len() + i, a + used, done) == annotations_from(
            v,
            vl,
            vb,
            i,
            used,
            done,
        ),
    decreases v.len() - i,
{
    if i < v.len() {
        let n = p.len() as int;
        assert((pb + vb)[n + i] == vb[i]);
        assert((a + used)[n + i] == used[i]);
        if used[i] || vb[i] is None {
            annotations_shift(p, pl, pb, v, vl, vb, i + 1, a, used, done);
        } else {
            let label = vb[i]->0;
            let many = label == "figure"@ || label == "image"@;
            tables_shift(p, pl, v, vl, i + 1, false, a, used, seq![]);
            texts_shift(p, pb, v, vb, i + 1, many, a, used, seq![]);
            let c = content_of(v, vl, vb, i + 1, label, used);
            assert(content_of(p + v, pl + vl, pb + vb, n + i + 1, label, a + used) == (ContentV {
                parts: c.parts,
                used: a + c.used,
                at: n + c.at,
            }));
            if i < c.at <= v.len() {
                let x = AnnotationV { label, content: joined(c.parts, "\n"@) };
                annotations_shift(p, pl, pb, v, vl, vb, c.at, a, c.used, done.push(x));
            }
        }
    }
}

proof fn unlabelled_lines_are_passed(
    lines: Seq<Seq<char>>,
    lower: Seq<Seq<char>>,
    labels: Seq<Option<Seq<char>>>,
    i: int,
    n: int,
    used: Seq<bool>,
    done: Seq<AnnotationV>,
)
    requires
        0 <= i <= n <= lines.len(),
        forall|k: int| i <= k < n ==> (#[trigger] labels[k]) is None,
    ensures
        annotations_from(lines, lower, labels, i, used, done) == annotations_from(
            lines,
            lower,
            labels,
            n,
            used,
            done,
        ),
    decreases n - i,
{
    if i < n {
        assert(labels[i] is None);
        unlabelled_lines_are_passed(lines, lower, labels, i + 1, n, used, done);
    }
}

/// What stands before the first label is dropped: lines without labels in
/// front of others change nothing.
pub proof fn lines_before_the_labels_are_dropped(p: Seq<Seq<char>>, v: Seq<Seq<char>>)
    requires
        !has_label(labels_of(p)),
    ensures
        annotations_of(p + v) == annotations_of(v),
{
    let n = p.len() as int;
    let a = none_used(n);
    let used = none_used(v.len() as int);
    assert(lower_lines(p + v) =~= lower_lines(p) + lower_lines(v));
    assert(labels_of(p + v) =~= labels_of(p) + labels_of(v));
    assert(none_used((p + v).len() as int) =~= a + used);
    assert forall|k: int| 0 <= k < n implies (#[trigger] labels_of(p + v)[k]) is None by {
        assert(labels_of(p)[k] is None);
    }
    unlabelled_lines_are_passed(
        p + v,
        lower_lines(p + v),
        labels_of(p + v),
        0,
        n,
        a + used,
        seq![],
    );
    annotations_shift(
        p,
        lower_lines(p),
        labels_of(p),
        v,
        lower_lines(v),
        labels_of(v),
        0,
        a,
        used,
        seq![],
    );
}

/// The DeepSeek-OCR backend.
pub struct DeepSeekBackend;

impl DeepSeekBackend {
    /// The nodes of a text with labels. `limit` bounds the nesting of the
    /// HTML of its tables.
    pub fn convert(&self, text: &str, limit: usize) -> (r: Vec<Node>)
        ensures
            nodes_view(r@) == deepseek(text@, limit as int),
    {
        let v = split(&chars_of(text), '\n');
        let lower = lower_all(&v);
        let labels = read_labels(&v);
        assert(texts(lower@).len() == lower@.len());
        assert(labels_view(labels@).len() == labels@.len());
        assert(texts(v@).len() == v@.len());
        let found = collect_annotations(&v, &lower, &labels);
        emit_deepseek(&found, limit)
    }
}

} // verus!
