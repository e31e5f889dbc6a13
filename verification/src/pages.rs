//! Pages documents: what both kinds of container are read into, and the nodes
//! that it becomes.
//!
//! Body text is made of paragraphs, and these of runs that share a character
//! style and a link. Page furniture and comments stand apart from the body.

use crate::document::{
    nodes_view, opt, push_node, runs_view, runs_view_push, strings, table_view, CaptionParent,
    ContentLayer, InlineRun, InlineRunV, Node, NodeV, Script, Table, TableV,
};
use crate::duplicate::copy_table;
use crate::htmllist::next_number;
use crate::inline::{between, wrap};
use crate::jats::{copy_opt, opt_chars, same_opt};
use crate::text::{
    all_digits, blank_texts_strip_to_nothing, chars_of, copy, escape_text, escaped, find_from,
    has_prefix, index_from, is, is_digit, join, joined, lowercase, lstrip, lstrip_of_two,
    parse_uint, push_all, push_str, rstrip, rstrip_is_a_beginning, rstrip_of_two, same, slice,
    starts_with, string_of, strip, texts, texts_push, to_lowercase, trim_end, trim_start, uint,
    uint_is_positive, white,
};
use crate::tree::opt_str;
use vstd::prelude::*;

verus! {

// ------------------------------------------------------------ model

/// The position that a character style gives.
pub open spec fn script(value: u64) -> Option<Script> {
    if value == 1 {
        Some(Script::Super)
    } else if value == 2 {
        Some(Script::Sub)
    } else {
        None
    }
}

/// The position that a character style gives.
pub fn script_of(value: u64) -> (r: Option<Script>)
    ensures
        r == script(value),
{
    if value == 1 {
        Some(Script::Super)
    } else if value == 2 {
        Some(Script::Sub)
    } else {
        None
    }
}

/// A level of a list that is not marked.
pub const LABEL_TYPE_NONE: u64 = 0;

/// A level of a list with a fixed marker.
pub const LABEL_TYPE_STRING: u64 = 2;

/// A level of a list with numbers.
pub const LABEL_TYPE_NUMBER: u64 = 3;

/// The formatting of a run.
#[derive(Clone, Copy, Debug, PartialEq, Eq, Structural)]
pub struct Formatting {
    pub bold: bool,
    pub italic: bool,
    pub underline: bool,
    pub strike: bool,
    pub script: Script,
}

/// The formatting that a style says; none where it says nothing.
pub open spec fn formatting(
    bold: bool,
    italic: bool,
    underline: bool,
    strike: bool,
    script: Option<Script>,
) -> Option<Formatting> {
    if !bold && !italic && !underline && !strike && script is None {
        None
    } else {
        Some(
            Formatting {
                bold,
                italic,
                underline,
                strike,
                script: match script {
                    Some(s) => s,
                    None => Script::Baseline,
                },
            },
        )
    }
}

impl Formatting {
    /// The formatting that a style says; none where it says nothing.
    pub fn build(
        bold: bool,
        italic: bool,
        underline: bool,
        strike: bool,
        script: Option<Script>,
    ) -> (r: Option<Formatting>)
        ensures
            r == formatting(bold, italic, underline, strike, script),
    {
        if !(bold || italic || underline || strike) && script.is_none() {
            return None;
        }
        let script = match script {
            Some(s) => s,
            None => Script::Baseline,
        };
        Some(Formatting { bold, italic, underline, strike, script })
    }
}

/// A stretch of text that shares one formatting and one link.
#[derive(Debug, PartialEq, Eq)]
pub struct Run {
    pub text: Vec<char>,
    pub fmt: Option<Formatting>,
    pub link: Option<Vec<char>>,
}

/// View of a [`Run`].
#[verifier::ext_equal]
pub struct RunV {
    pub text: Seq<char>,
    pub fmt: Option<Formatting>,
    pub link: Option<Seq<char>>,
}

impl View for Run {
    type V = RunV;

    open spec fn view(&self) -> RunV {
        RunV { text: self.text@, fmt: self.fmt, link: opt_chars(self.link) }
    }
}

impl Run {
    /// A run without formatting and link.
    pub fn plain(text: &str) -> (r: Run)
        ensures
            r@ == (RunV { text: text@, fmt: None, link: None }),
    {
        Run { text: chars_of(text), fmt: None, link: None }
    }
}

/// Views of runs.
pub open spec fn run_views(v: Seq<Run>) -> Seq<RunV> {
    Seq::new(v.len(), |i: int| v[i]@)
}

/// Pushing a run pushes its view.
pub broadcast proof fn run_views_push(v: Seq<Run>, x: Run)
    ensures
        #[trigger] run_views(v.push(x)) == run_views(v).push(x@),
{
    assert(run_views(v.push(x)) =~= run_views(v).push(x@));
}

/// How an item of a list is marked.
#[derive(Debug, PartialEq, Eq)]
pub struct ListLabel {
    pub depth: usize,
    pub enumerated: bool,
    pub marker: Vec<char>,
}

/// View of a [`ListLabel`].
#[verifier::ext_equal]
pub struct ListLabelV {
    pub depth: usize,
    pub enumerated: bool,
    pub marker: Seq<char>,
}

impl View for ListLabel {
    type V = ListLabelV;

    open spec fn view(&self) -> ListLabelV {
        ListLabelV { depth: self.depth, enumerated: self.enumerated, marker: self.marker@ }
    }
}

/// View of an optional label.
pub open spec fn label_view(o: Option<ListLabel>) -> Option<ListLabelV> {
    match o {
        Some(l) => Some(l@),
        None => None,
    }
}

/// A list style: what each level is marked with.
#[derive(Debug, PartialEq, Eq)]
pub struct ListStyle {
    pub label_types: Vec<u64>,
    pub strings: Vec<Vec<char>>,
}

/// View of a [`ListStyle`].
#[verifier::ext_equal]
pub struct ListStyleV {
    pub label_types: Seq<u64>,
    pub strings: Seq<Seq<char>>,
}

impl View for ListStyle {
    type V = ListStyleV;

    open spec fn view(&self) -> ListStyleV {
        ListStyleV { label_types: self.label_types@, strings: texts(self.strings@) }
    }
}

/// How a list style marks a level; none where it does not.
pub open spec fn style_label(s: ListStyleV, depth: usize) -> Option<ListLabelV> {
    if depth >= s.label_types.len() || s.label_types[depth as int] == LABEL_TYPE_NONE {
        None
    } else if s.label_types[depth as int] == LABEL_TYPE_NUMBER {
        Some(ListLabelV { depth, enumerated: true, marker: seq![] })
    } else {
        Some(
            ListLabelV {
                depth,
                enumerated: false,
                marker: if depth < s.strings.len() && s.strings[depth as int].len() > 0 {
                    s.strings[depth as int]
                } else {
                    "-"@
                },
            },
        )
    }
}

impl ListStyle {
    /// How the style marks a level; none where it does not.
    pub fn label(&self, depth: usize) -> (r: Option<ListLabel>)
        ensures
            label_view(r) == style_label(self@, depth),
    {
        if depth >= self.label_types.len() || self.label_types[depth] == LABEL_TYPE_NONE {
            return None;
        }
        if self.label_types[depth] == LABEL_TYPE_NUMBER {
            let marker: Vec<char> = Vec::new();
            assert(marker@ =~= seq![]);
            return Some(ListLabel { depth, enumerated: true, marker });
        }
        let marker = if depth < self.strings.len() && self.strings[depth].len() > 0 {
            copy(&self.strings[depth])
        } else {
            chars_of("-")
        };
        Some(ListLabel { depth, enumerated: false, marker })
    }
}

/// What a paragraph is by its style.
#[derive(Clone, Copy, Debug, PartialEq, Eq, Structural)]
pub enum Label {
    Text,
    Title,
    Heading(u8),
}

/// A paragraph.
#[derive(Debug, PartialEq, Eq)]
pub struct Paragraph {
    pub runs: Vec<Run>,
    pub label: Label,
    pub list: Option<ListLabel>,
    /// The marks in the paragraph that comments are on.
    pub anchors: Vec<Vec<char>>,
}

/// View of a [`Paragraph`].
#[verifier::ext_equal]
pub struct ParagraphV {
    pub runs: Seq<RunV>,
    pub label: Label,
    pub list: Option<ListLabelV>,
    pub anchors: Seq<Seq<char>>,
}

impl View for Paragraph {
    type V = ParagraphV;

    open spec fn view(&self) -> ParagraphV {
        ParagraphV {
            runs: run_views(self.runs@),
            label: self.label,
            list: label_view(self.list),
            anchors: texts(self.anchors@),
        }
    }
}

/// Views of paragraphs.
pub open spec fn paragraphs_view(v: Seq<Paragraph>) -> Seq<ParagraphV> {
    Seq::new(v.len(), |i: int| v[i]@)
}

/// Pushing a paragraph pushes its view.
pub broadcast proof fn paragraphs_view_push(v: Seq<Paragraph>, x: Paragraph)
    ensures
        #[trigger] paragraphs_view(v.push(x)) == paragraphs_view(v).push(x@),
{
    assert(paragraphs_view(v.push(x)) =~= paragraphs_view(v).push(x@));
}

/// The texts of the runs from `i` on, added to `out`.
pub open spec fn text_from(v: Seq<RunV>, i: int, out: Seq<char>) -> Seq<char>
    decreases v.len() - i,
{
    if i >= v.len() {
        out
    } else {
        text_from(v, i + 1, out + v[i].text)
    }
}

/// The text of runs.
pub open spec fn runs_text(v: Seq<RunV>) -> Seq<char> {
    text_from(v, 0, seq![])
}

fn text_of_runs(v: &Vec<Run>) -> (r: Vec<char>)
    ensures
        r@ == runs_text(run_views(v@)),
{
    let ghost w = run_views(v@);
    let mut out: Vec<char> = Vec::new();
    let mut i: usize = 0;
    assert(out@ =~= seq![]);
    while i < v.len()
        invariant
            i <= v@.len(),
            w == run_views(v@),
            runs_text(w) == text_from(w, i as int, out@),
        decreases v@.len() - i,
    {
        assert(w[i as int] == v@[i as int]@);
        push_all(&mut out, &v[i].text);
        i += 1;
    }
    out
}

impl Paragraph {
    /// A paragraph that is in no list, and that no comment is on.
    pub fn new(runs: Vec<Run>, label: Label) -> (r: Paragraph)
        ensures
            r@ == (ParagraphV { runs: run_views(runs@), label, list: None, anchors: seq![] }),
    {
        let anchors: Vec<Vec<char>> = Vec::new();
        assert(texts(anchors@) =~= seq![]);
        Paragraph { runs, label, list: None, anchors }
    }

    /// The text of the paragraph.
    pub fn text(&self) -> (r: Vec<char>)
        ensures
            r@ == runs_text(self@.runs),
    {
        text_of_runs(&self.runs)
    }
}

// ------------------------------------------------------------ runs

/// A text without the marks of attachments from `i` on, added to `out`.
pub open spec fn clean_from(s: Seq<char>, i: int, out: Seq<char>) -> Seq<char>
    decreases s.len() - i,
{
    if i >= s.len() {
        out
    } else {
        clean_from(
            s,
            i + 1,
            if s[i] == '\u{FFFC}' {
                out
            } else {
                out.push(s[i])
            },
        )
    }
}

/// A text without the marks of attachments.
pub open spec fn cleaned(s: Seq<char>) -> Seq<char> {
    clean_from(s, 0, seq![])
}

/// A text without the marks of attachments.
pub fn clean(s: &Vec<char>) -> (r: Vec<char>)
    ensures
        r@ == cleaned(s@),
{
    let mut out: Vec<char> = Vec::new();
    let mut i: usize = 0;
    assert(out@ =~= seq![]);
    while i < s.len()
        invariant
            i <= s@.len(),
            cleaned(s@) == clean_from(s@, i as int, out@),
        decreases s@.len() - i,
    {
        if s[i] != '\u{FFFC}' {
            out.push(s[i]);
        }
        i += 1;
    }
    out
}

/// The runs from `i` on that hold text, added to `done`.
pub open spec fn kept_from(v: Seq<RunV>, i: int, done: Seq<RunV>) -> Seq<RunV>
    decreases v.len() - i,
{
    if i >= v.len() {
        done
    } else {
        kept_from(
            v,
            i + 1,
            if v[i].text.len() == 0 {
                done
            } else {
                done.push(v[i])
            },
        )
    }
}

/// Runs without the white space before them.
pub open spec fn trimmed_front(v: Seq<RunV>) -> Seq<RunV>
    decreases v.len(),
{
    if v.len() == 0 {
        v
    } else if lstrip(v[0].text).len() == 0 {
        trimmed_front(v.skip(1))
    } else {
        v.update(0, RunV { text: lstrip(v[0].text), ..v[0] })
    }
}

/// Runs without the white space behind them.
pub open spec fn trimmed_back(v: Seq<RunV>) -> Seq<RunV>
    decreases v.len(),
{
    if v.len() == 0 {
        v
    } else if rstrip(v.last().text).len() == 0 {
        trimmed_back(v.drop_last())
    } else {
        v.update(v.len() - 1, RunV { text: rstrip(v.last().text), ..v.last() })
    }
}

/// Runs without empty ones and without the white space around them.
pub open spec fn trimmed(v: Seq<RunV>) -> Seq<RunV> {
    trimmed_back(trimmed_front(kept_from(v, 0, seq![])))
}

/// Whether runs do not begin with white space.
pub open spec fn begins_black(v: Seq<RunV>) -> bool {
    v.len() > 0 ==> v[0].text.len() > 0 && !white(v[0].text[0])
}

proof fn lstrip_is_black(s: Seq<char>)
    ensures
        lstrip(s).len() > 0 ==> !white(lstrip(s)[0]),
    decreases s.len(),
{
    if s.len() > 0 && white(s[0]) {
        lstrip_is_black(s.drop_first());
    }
}

proof fn trimmed_front_begins_black(v: Seq<RunV>)
    ensures
        begins_black(trimmed_front(v)),
    decreases v.len(),
{
    if v.len() > 0 {
        lstrip_is_black(v[0].text);
        if lstrip(v[0].text).len() == 0 {
            trimmed_front_begins_black(v.skip(1));
        }
    }
}

proof fn trimmed_back_keeps_the_front(v: Seq<RunV>)
    requires
        begins_black(v),
    ensures
        begins_black(trimmed_back(v)),
        trimmed_back(v).len() > 0 ==> trimmed_back(v).last().text.len() > 0 && !white(
            trimmed_back(v).last().text.last(),
        ),
    decreases v.len(),
{
    if v.len() > 0 {
        rstrip_is_a_beginning(v.last().text);
        if rstrip(v.last().text).len() == 0 {
            trimmed_back_keeps_the_front(v.drop_last());
        }
    }
}

/// Trimmed runs neither begin nor end with white space.
pub proof fn trimmed_runs_have_clean_ends(v: Seq<RunV>)
    ensures
        trimmed(v).len() > 0 ==> {
            &&& trimmed(v)[0].text.len() > 0
            &&& !white(trimmed(v)[0].text[0])
            &&& trimmed(v).last().text.len() > 0
            &&& !white(trimmed(v).last().text.last())
        },
{
    trimmed_front_begins_black(kept_from(v, 0, seq![]));
    trimmed_back_keeps_the_front(trimmed_front(kept_from(v, 0, seq![])));
}

proof fn text_goes_behind(v: Seq<RunV>, i: int, done: Seq<char>)
    requires
        0 <= i,
    ensures
        text_from(v, i, done) == done + text_from(v, i, seq![]),
    decreases v.len() - i,
{
    if i < v.len() {
        text_goes_behind(v, i + 1, done + v[i].text);
        text_goes_behind(v, i + 1, seq![] + v[i].text);
        assert(seq![] + v[i].text =~= v[i].text);
        assert(done + v[i].text + text_from(v, i + 1, seq![]) =~= done + (v[i].text + text_from(
            v,
            i + 1,
            seq![],
        )));
    } else {
        assert(done + seq![] =~= done);
    }
}

proof fn text_of_the_rest(v: Seq<RunV>, i: int, n: int, done: Seq<char>)
    requires
        0 <= i,
        0 <= n <= v.len(),
    ensures
        text_from(v.skip(n), i, done) == text_from(v, i + n, done),
    decreases v.len() - n - i,
{
    if i < v.len() - n {
        text_of_the_rest(v, i + 1, n, done + v[i + n].text);
    }
}

proof fn text_of_the_first(v: Seq<RunV>, i: int, done: Seq<char>)
    requires
        0 <= i < v.len(),
    ensures
        text_from(v, i, done) == text_from(v.drop_last(), i, done) + v.last().text,
    decreases v.len() - i,
{
    if i < v.len() - 1 {
        text_of_the_first(v, i + 1, done + v[i].text);
    } else {
        assert(text_from(v, i + 1, done + v[i].text) == done + v[i].text);
    }
}

/// The text of runs is that of the first with that of the others behind it.
proof fn text_begins_with_the_first(v: Seq<RunV>)
    requires
        v.len() > 0,
    ensures
        runs_text(v) == v[0].text + runs_text(v.skip(1)),
{
    text_goes_behind(v, 1, seq![] + v[0].text);
    text_of_the_rest(v, 0, 1, seq![]);
    assert(seq![] + v[0].text =~= v[0].text);
}

proof fn text_without_empty_runs(v: Seq<RunV>, i: int, done: Seq<RunV>)
    requires
        0 <= i <= v.len(),
    ensures
        runs_text(kept_from(v, i, done)) == text_from(v, i, runs_text(done)),
    decreases v.len() - i,
{
    if i < v.len() {
        if v[i].text.len() == 0 {
            assert(runs_text(done) + v[i].text =~= runs_text(done));
            text_without_empty_runs(v, i + 1, done);
        } else {
            let next = done.push(v[i]);
            text_of_the_first(next, 0, seq![]);
            assert(next.drop_last() =~= done);
            text_without_empty_runs(v, i + 1, next);
        }
    }
}

proof fn text_trimmed_in_front(v: Seq<RunV>)
    ensures
        runs_text(trimmed_front(v)) == lstrip(runs_text(v)),
    decreases v.len(),
{
    if v.len() > 0 {
        text_begins_with_the_first(v);
        lstrip_of_two(v[0].text, runs_text(v.skip(1)));
        if lstrip(v[0].text).len() == 0 {
            text_trimmed_in_front(v.skip(1));
        } else {
            let w = trimmed_front(v);
            text_begins_with_the_first(w);
            assert(w.skip(1) =~= v.skip(1));
        }
    }
}

proof fn text_trimmed_behind(v: Seq<RunV>)
    ensures
        runs_text(trimmed_back(v)) == rstrip(runs_text(v)),
    decreases v.len(),
{
    if v.len() > 0 {
        text_of_the_first(v, 0, seq![]);
        rstrip_of_two(runs_text(v.drop_last()), v.last().text);
        if rstrip(v.last().text).len() == 0 {
            text_trimmed_behind(v.drop_last());
        } else {
            let w = trimmed_back(v);
            text_of_the_first(w, 0, seq![]);
            assert(w.drop_last() =~= v.drop_last());
        }
    }
}

/// Whether every run holds text.
pub open spec fn all_hold_text(v: Seq<RunV>) -> bool {
    forall|k: int| 0 <= k < v.len() ==> (#[trigger] v[k]).text.len() > 0
}

proof fn kept_runs_hold_text(v: Seq<RunV>, i: int, done: Seq<RunV>)
    requires
        0 <= i <= v.len(),
        all_hold_text(done),
    ensures
        all_hold_text(kept_from(v, i, done)),
    decreases v.len() - i,
{
    if i < v.len() {
        kept_runs_hold_text(
            v,
            i + 1,
            if v[i].text.len() == 0 {
                done
            } else {
                done.push(v[i])
            },
        );
    }
}

proof fn full_runs_are_kept(v: Seq<RunV>, i: int)
    requires
        0 <= i <= v.len(),
        all_hold_text(v),
    ensures
        kept_from(v, i, v.take(i)) == v,
    decreases v.len() - i,
{
    if i < v.len() {
        assert(v[i].text.len() > 0);
        assert(v.take(i).push(v[i]) =~= v.take(i + 1));
        full_runs_are_kept(v, i + 1);
    } else {
        assert(v.take(i) =~= v);
    }
}

/// The runs that hold text.
pub open spec fn solid_runs(v: Seq<RunV>) -> Seq<RunV> {
    v.filter(|r: RunV| r.text.len() > 0)
}

/// Whether runs are those of others from the place `a` on, each with its
/// formatting and its link, and each but the first and the last with its text.
pub open spec fn cut_from(w: Seq<RunV>, v: Seq<RunV>, a: int) -> bool {
    &&& 0 <= a
    &&& a + w.len() <= v.len()
    &&& forall|k: int|
        0 <= k < w.len() ==> (#[trigger] w[k]).fmt == v[a + k].fmt && w[k].link == v[a + k].link
            && (0 < k < w.len() - 1 ==> w[k].text == v[a + k].text)
}

proof fn trimming_in_front_cuts(v: Seq<RunV>) -> (a: int)
    requires
        all_hold_text(v),
    ensures
        all_hold_text(trimmed_front(v)),
        0 <= a <= v.len(),
        trimmed_front(v).len() == v.len() - a,
        forall|k: int|
            0 <= k < trimmed_front(v).len() ==> (#[trigger] trimmed_front(v)[k]).fmt == v[a + k].fmt
                && trimmed_front(v)[k].link == v[a + k].link && (k > 0 ==> trimmed_front(v)[k]
                == v[a + k]),
    decreases v.len(),
{
    if v.len() > 0 && lstrip(v[0].text).len() == 0 {
        let rest = v.skip(1);
        assert(all_hold_text(rest)) by {
            assert forall|k: int| 0 <= k < rest.len() implies (#[trigger] rest[k]).text.len()
                > 0 by {
                assert(rest[k] == v[k + 1]);
            }
        }
        let b = trimming_in_front_cuts(rest);
        assert forall|k: int| 0 <= k < trimmed_front(v).len() implies (#[trigger] trimmed_front(
            v,
        )[k]).fmt == v[b + 1 + k].fmt && trimmed_front(v)[k].link == v[b + 1 + k].link && (k > 0
            ==> trimmed_front(v)[k] == v[b + 1 + k]) by {
            assert(rest[b + k] == v[b + 1 + k]);
            assert(trimmed_front(v)[k] == trimmed_front(rest)[k]);
        }
        b + 1
    } else {
        0
    }
}

proof fn trimming_behind_cuts(v: Seq<RunV>)
    requires
        all_hold_text(v),
    ensures
        all_hold_text(trimmed_back(v)),
        trimmed_back(v).len() <= v.len(),
        forall|k: int|
            0 <= k < trimmed_back(v).len() ==> (#[trigger] trimmed_back(v)[k]).fmt == v[k].fmt
                && trimmed_back(v)[k].link == v[k].link && (k < trimmed_back(v).len() - 1
                ==> trimmed_back(v)[k] == v[k]),
    decreases v.len(),
{
    if v.len() > 0 && rstrip(v.last().text).len() == 0 {
        let rest = v.drop_last();
        assert forall|k: int| 0 <= k < rest.len() implies (#[trigger] rest[k]).text.len() > 0 by {
            assert(rest[k] == v[k]);
        }
        trimming_behind_cuts(rest);
    }
}

/// Trimming drops empty runs and the white space around the others, and
/// nothing else: the text of the trimmed runs is the trimmed text of the runs,
/// each run holds text, and each is one of those that held text, in their
/// order, with its formatting and its link, and, but for the first and the
/// last, with its text.
pub proof fn trimming_runs_trims_their_text(v: Seq<RunV>)
    ensures
        runs_text(trimmed(v)) == strip(runs_text(v)),
        all_hold_text(trimmed(v)),
        exists|a: int| #[trigger] cut_from(trimmed(v), solid_runs(v), a),
{
    let kept = kept_from(v, 0, seq![]);
    let front = trimmed_front(kept);
    text_without_empty_runs(v, 0, seq![]);
    text_trimmed_in_front(kept);
    text_trimmed_behind(front);
    kept_runs_hold_text(v, 0, seq![]);
    let a = trimming_in_front_cuts(kept);
    trimming_behind_cuts(front);
    kept_runs_are_filtered(v, v.len() as int);
    assert(v.take(v.len() as int) =~= v);
    let w = trimmed(v);
    assert forall|k: int| 0 <= k < w.len() implies (#[trigger] w[k]).fmt == kept[a + k].fmt
        && w[k].link == kept[a + k].link && (0 < k < w.len() - 1 ==> w[k].text == kept[a
        + k].text) by {
        assert(w[k].fmt == front[k].fmt);
    }
    assert(cut_from(w, kept, a));
}

proof fn kept_runs_are_filtered(v: Seq<RunV>, n: int)
    requires
        0 <= n <= v.len(),
    ensures
        kept_from(v.take(n), 0, seq![]) == solid_runs(v.take(n)),
    decreases n,
{
    reveal(Seq::filter);
    let t = v.take(n);
    if n > 0 {
        kept_runs_are_filtered(v, n - 1);
        assert(t.drop_last() =~= v.take(n - 1));
        kept_from_splits(t, 0, seq![]);
    }
}

proof fn kept_from_splits(v: Seq<RunV>, i: int, done: Seq<RunV>)
    requires
        0 <= i < v.len(),
    ensures
        kept_from(v, i, done) == ({
            let before = kept_from(v.drop_last(), i, done);
            if v.last().text.len() == 0 {
                before
            } else {
                before.push(v.last())
            }
        }),
    decreases v.len() - i,
{
    let next = if v[i].text.len() == 0 {
        done
    } else {
        done.push(v[i])
    };
    if i < v.len() - 1 {
        kept_from_splits(v, i + 1, next);
    } else {
        assert(kept_from(v, i + 1, next) == next);
    }
}

/// Trimming trimmed runs changes nothing.
pub proof fn trimming_runs_twice_is_trimming_once(v: Seq<RunV>)
    ensures
        trimmed(trimmed(v)) == trimmed(v),
{
    let w = trimmed(v);
    trimming_runs_trims_their_text(v);
    trimmed_runs_have_clean_ends(v);
    full_runs_are_kept(w, 0);
    assert(w.take(0) =~= seq![]);
    if w.len() > 0 {
        assert(lstrip(w[0].text) == w[0].text);
        assert(trimmed_front(w) =~= w);
        assert(rstrip(w.last().text) == w.last().text);
        assert(trimmed_back(w) =~= w);
    }
}

/// Nothing is left of runs exactly where all their text is white space.
pub proof fn blank_runs_are_trimmed_away(v: Seq<RunV>)
    ensures
        trimmed(v).len() == 0 <==> strip(runs_text(v)).len() == 0,
        trimmed(v).len() == 0 <==> forall|k: int|
            0 <= k < runs_text(v).len() ==> white(#[trigger] runs_text(v)[k]),
{
    let w = trimmed(v);
    trimming_runs_trims_their_text(v);
    if w.len() > 0 {
        text_begins_with_the_first(w);
        assert(w[0].text.len() > 0);
    }
    blank_texts_strip_to_nothing(runs_text(v));
}

fn copy_run(r: &Run) -> (x: Run)
    ensures
        x@ == r@,
{
    Run { text: copy(&r.text), fmt: r.fmt, link: copy_opt(&r.link) }
}

fn copy_some(v: &Vec<Run>, from: usize, to: usize) -> (r: Vec<Run>)
    requires
        from <= to <= v@.len(),
    ensures
        run_views(r@) == run_views(v@).subrange(from as int, to as int),
{
    let ghost w = run_views(v@);
    let mut out: Vec<Run> = Vec::new();
    let mut i: usize = from;
    while i < to
        invariant
            from <= i <= to <= v@.len(),
            w == run_views(v@),
            out@.len() == i - from,
            forall|k: int| 0 <= k < i - from ==> (#[trigger] out@[k])@ == w[from + k],
        decreases to - i,
    {
        assert(w[i as int] == v@[i as int]@);
        out.push(copy_run(&v[i]));
        i += 1;
    }
    assert(run_views(out@) =~= w.subrange(from as int, to as int));
    out
}

fn keep_runs(v: &Vec<Run>) -> (r: Vec<Run>)
    ensures
        run_views(r@) == kept_from(run_views(v@), 0, seq![]),
{
    let ghost w = run_views(v@);
    let mut out: Vec<Run> = Vec::new();
    let mut i: usize = 0;
    assert(run_views(out@) =~= seq![]);
    while i < v.len()
        invariant
            i <= v@.len(),
            w == run_views(v@),
            kept_from(w, 0, seq![]) == kept_from(w, i as int, run_views(out@)),
        decreases v@.len() - i,
    {
        broadcast use run_views_push;

        assert(w[i as int] == v@[i as int]@);
        if v[i].text.len() > 0 {
            out.push(copy_run(&v[i]));
        }
        i += 1;
    }
    out
}

fn set_text(v: &mut Vec<Run>, at: usize, text: Vec<char>)
    requires
        at < old(v)@.len(),
    ensures
        run_views(final(v)@) == run_views(old(v)@).update(
            at as int,
            RunV { text: text@, ..run_views(old(v)@)[at as int] },
        ),
{
    let ghost w = run_views(v@);
    assert(w[at as int] == v@[at as int]@);
    let x = Run { text, fmt: v[at].fmt, link: copy_opt(&v[at].link) };
    v.set(at, x);
    assert(run_views(v@) =~= w.update(at as int, x@));
}

/// Runs without empty ones and without the white space around them.
pub fn trim(runs: &Vec<Run>) -> (r: Vec<Run>)
    ensures
        run_views(r@) == trimmed(run_views(runs@)),
{
    let v = keep_runs(runs);
    let ghost w = run_views(v@);
    let n: usize = v.len();
    let mut i: usize = 0;
    assert(w.skip(0) =~= w);
    while i < n && trim_start(&v[i].text).len() == 0
        invariant
            i <= n == v@.len(),
            w == run_views(v@),
            trimmed_front(w) == trimmed_front(w.skip(i as int)),
        decreases n - i,
    {
        assert(w.skip(i as int)[0] == v@[i as int]@);
        assert(w.skip(i as int).skip(1) =~= w.skip(i + 1));
        i += 1;
    }
    let mut out = copy_some(&v, i, n);
    assert(w.subrange(i as int, n as int) =~= w.skip(i as int));
    if out.len() > 0 {
        assert(w.skip(i as int)[0] == v@[i as int]@);
        let t = trim_start(&v[i].text);
        set_text(&mut out, 0, t);
    }
    let ghost f = run_views(out@);
    assert(f == trimmed_front(w));
    let mut k: usize = out.len();
    assert(f.take(k as int) =~= f);
    while k > 0 && trim_end(&out[k - 1].text).len() == 0
        invariant
            k <= out@.len(),
            f == run_views(out@),
            trimmed_back(f) == trimmed_back(f.take(k as int)),
        decreases k,
    {
        assert(f.take(k as int).last() == out@[k - 1]@);
        assert(f.take(k as int).drop_last() =~= f.take(k - 1));
        k -= 1;
    }
    let mut done = copy_some(&out, 0, k);
    assert(f.subrange(0, k as int) =~= f.take(k as int));
    if k > 0 {
        assert(f.take(k as int).last() == out@[k - 1]@);
        let t = trim_end(&out[k - 1].text);
        set_text(&mut done, k - 1, t);
    }
    done
}

/// The place of the last of the entries from `i` on at or before an index, or
/// `now`; the entries behind the first one that lies behind the index do not
/// count.
pub open spec fn entry_from(p: Seq<int>, i: int, index: int, now: Option<int>) -> Option<int>
    decreases p.len() - i,
{
    if i >= p.len() || p[i] > index {
        now
    } else {
        entry_from(p, i + 1, index, Some(i))
    }
}

/// The indices of a table's entries.
pub open spec fn positions<T>(t: Seq<(int, T)>) -> Seq<int> {
    Seq::new(t.len(), |i: int| t[i].0)
}

/// The indices of a table's entries.
pub open spec fn indices<T>(t: Seq<(usize, T)>) -> Seq<int> {
    Seq::new(t.len(), |i: int| t[i].0 as int)
}

/// The value that a table puts in force at an index.
pub open spec fn value_in_force<T>(t: Seq<(int, T)>, index: int) -> Option<T> {
    match entry_from(positions(t), 0, index, None) {
        Some(k) => Some(t[k].1),
        None => None,
    }
}

/// The place of the entry that a table puts in force at an index.
pub fn entry_at<T>(table: &Vec<(usize, T)>, index: usize) -> (r: Option<usize>)
    ensures
        match r {
            Some(k) => k < table@.len() && entry_from(indices(table@), 0, index as int, None)
                == Some(k as int),
            None => entry_from(indices(table@), 0, index as int, None) is None,
        },
{
    let ghost p = indices(table@);
    let mut now: Option<usize> = None;
    let mut i: usize = 0;
    while i < table.len()
        invariant
            i <= table@.len(),
            p == indices(table@),
            now matches Some(k) ==> k < table@.len(),
            entry_from(p, 0, index as int, None) == entry_from(
                p,
                i as int,
                index as int,
                match now {
                    Some(k) => Some(k as int),
                    None => None,
                },
            ),
        decreases table@.len() - i,
    {
        assert(p[i as int] == table@[i as int].0);
        if table[i].0 > index {
            return now;
        }
        now = Some(i);
        i += 1;
    }
    now
}

/// Whether indices stand in order.
pub open spec fn in_order(p: Seq<int>) -> bool {
    forall|i: int, j: int| 0 <= i <= j < p.len() ==> #[trigger] p[i] <= #[trigger] p[j]
}

proof fn entry_from_is_last(p: Seq<int>, i: int, index: int)
    requires
        in_order(p),
        0 < i <= p.len(),
        p[i - 1] <= index,
    ensures
        entry_from(p, i, index, Some(i - 1)) matches Some(k) && i - 1 <= k < p.len() && p[k]
            <= index && (forall|j: int| k < j < p.len() ==> #[trigger] p[j] > index),
    decreases p.len() - i,
{
    if i < p.len() && p[i] <= index {
        entry_from_is_last(p, i + 1, index);
    }
}

/// In a table whose entries stand in order, the value in force at an index is
/// that of the last entry at or before it; there is none where all entries
/// lie behind.
pub proof fn the_last_entry_is_in_force<T>(t: Seq<(int, T)>, index: int)
    requires
        in_order(positions(t)),
    ensures
        match value_in_force(t, index) {
            Some(x) => exists|k: int|
                0 <= k < t.len() && (#[trigger] t[k]).0 <= index && t[k].1 == x && (forall|j: int|
                    k < j < t.len() ==> (#[trigger] t[j]).0 > index),
            None => forall|j: int| 0 <= j < t.len() ==> (#[trigger] t[j]).0 > index,
        },
{
    let p = positions(t);
    if p.len() > 0 && p[0] <= index {
        entry_from_is_last(p, 1, index);
        let k = entry_from(p, 0, index, None)->0;
        assert(entry_from(p, 0, index, None) == entry_from(p, 1, index, Some(0)));
        assert(t[k].0 == p[k]);
        assert forall|j: int| k < j < t.len() implies (#[trigger] t[j]).0 > index by {
            assert(p[j] > index);
        }
    } else {
        assert forall|j: int| 0 <= j < t.len() implies (#[trigger] t[j]).0 > index by {
            assert(p[0] <= p[j]);
        }
    }
}

/// The tables of a text: each entry holds from its index to the next.
pub struct StorageRuns {
    pub styles: Vec<(usize, Option<Vec<char>>)>,
    pub characters: Vec<(usize, Option<Formatting>)>,
    pub lists: Vec<(usize, Option<ListStyle>)>,
    pub depths: Vec<(usize, usize)>,
    pub links: Vec<(usize, Option<Vec<char>>)>,
}

/// Views of a table of texts.
pub open spec fn text_table(v: Seq<(usize, Option<Vec<char>>)>) -> Seq<(int, Option<Seq<char>>)> {
    Seq::new(v.len(), |i: int| (v[i].0 as int, opt_chars(v[i].1)))
}

/// View of an optional list style.
pub open spec fn opt_style(o: Option<ListStyle>) -> Option<ListStyleV> {
    match o {
        Some(s) => Some(s@),
        None => None,
    }
}

/// View of [`StorageRuns`].
#[verifier::ext_equal]
pub struct StorageRunsV {
    pub styles: Seq<(int, Option<Seq<char>>)>,
    pub characters: Seq<(int, Option<Formatting>)>,
    pub lists: Seq<(int, Option<ListStyleV>)>,
    pub depths: Seq<(int, usize)>,
    pub links: Seq<(int, Option<Seq<char>>)>,
}

impl View for StorageRuns {
    type V = StorageRunsV;

    open spec fn view(&self) -> StorageRunsV {
        StorageRunsV {
            styles: text_table(self.styles@),
            characters: Seq::new(
                self.characters@.len(),
                |i: int| (self.characters@[i].0 as int, self.characters@[i].1),
            ),
            lists: Seq::new(
                self.lists@.len(),
                |i: int| (self.lists@[i].0 as int, opt_style(self.lists@[i].1)),
            ),
            depths: Seq::new(
                self.depths@.len(),
                |i: int| (self.depths@[i].0 as int, self.depths@[i].1),
            ),
            links: text_table(self.links@),
        }
    }
}

/// The least index from `i` on that lies behind `b`, or `end`.
pub open spec fn next_from(p: Seq<int>, i: int, b: int, end: int) -> int
    decreases p.len() - i,
{
    if i >= p.len() {
        end
    } else if b < p[i] < end {
        next_from(p, i + 1, b, p[i])
    } else {
        next_from(p, i + 1, b, end)
    }
}

fn next_of<T>(t: &Vec<(usize, T)>, b: usize, end: usize) -> (r: usize)
    requires
        b < end,
    ensures
        r == next_from(indices(t@), 0, b as int, end as int),
        b < r <= end,
{
    let ghost p = indices(t@);
    let mut stop: usize = end;
    let mut i: usize = 0;
    while i < t.len()
        invariant
            i <= t@.len(),
            p == indices(t@),
            b < stop <= end,
            next_from(p, 0, b as int, end as int) == next_from(p, i as int, b as int, stop as int),
        decreases t@.len() - i,
    {
        assert(p[i as int] == t@[i as int].0);
        if b < t[i].0 && t[i].0 < stop {
            stop = t[i].0;
        }
        i += 1;
    }
    stop
}

/// Where the run that begins at `b` ends: at the next entry of the character
/// or link table, or at `end`.
pub open spec fn run_end(runs: StorageRunsV, b: int, end: int) -> int {
    next_from(positions(runs.links), 0, b, next_from(positions(runs.characters), 0, b, end))
}

/// The optional formatting in force.
pub open spec fn format_at(runs: StorageRunsV, index: int) -> Option<Formatting> {
    match value_in_force(runs.characters, index) {
        Some(f) => f,
        None => None,
    }
}

/// The link in force.
pub open spec fn link_at(runs: StorageRunsV, index: int) -> Option<Seq<char>> {
    match value_in_force(runs.links, index) {
        Some(l) => l,
        None => None,
    }
}

/// The runs of a line that begins at `start`, from the index `b` on, added to
/// `done`.
pub open spec fn pieces_from(
    line: Seq<char>,
    start: int,
    runs: StorageRunsV,
    b: int,
    done: Seq<RunV>,
) -> Seq<RunV>
    decreases start + line.len() - b,
{
    let end = start + line.len();
    let stop = run_end(runs, b, end);
    if b < start || b >= end || stop <= b || stop > end {
        done
    } else {
        let t = cleaned(line.subrange(b - start, stop - start));
        pieces_from(
            line,
            start,
            runs,
            stop,
            if t.len() == 0 {
                done
            } else {
                done.push(RunV { text: t, fmt: format_at(runs, b), link: link_at(runs, b) })
            },
        )
    }
}

/// The runs of a line that begins at `start`.
pub open spec fn line_runs(line: Seq<char>, start: int, runs: StorageRunsV) -> Seq<RunV> {
    if runs.characters.len() == 0 && runs.links.len() == 0 {
        trimmed(seq![RunV { text: cleaned(line), fmt: None, link: None }])
    } else {
        trimmed(pieces_from(line, start, runs, start, seq![]))
    }
}

fn link_copy(runs: &StorageRuns, index: usize) -> (r: Option<Vec<char>>)
    ensures
        opt_chars(r) == link_at(runs@, index as int),
{
    assert(positions(runs@.links) =~= indices(runs.links@));
    match entry_at(&runs.links, index) {
        Some(k) => copy_opt(&runs.links[k].1),
        None => None,
    }
}

/// The runs of a line that begins at `start`.
pub fn runs_for(line: &Vec<char>, start: usize, runs: &StorageRuns) -> (r: Vec<Run>)
    requires
        start + line@.len() <= usize::MAX,
    ensures
        run_views(r@) == line_runs(line@, start as int, runs@),
{
    if runs.characters.len() == 0 && runs.links.len() == 0 {
        let mut one: Vec<Run> = Vec::new();
        one.push(Run { text: clean(line), fmt: None, link: None });
        assert(run_views(one@) =~= seq![RunV { text: cleaned(line@), fmt: None, link: None }]);
        return trim(&one);
    }
    let end: usize = start + line.len();
    let mut pieces: Vec<Run> = Vec::new();
    assert(run_views(pieces@) =~= seq![]);
    let mut b: usize = start;
    assert(positions(runs@.links) =~= indices(runs.links@));
    assert(positions(runs@.characters) =~= indices(runs.characters@));
    while b < end
        invariant
            start <= b <= end,
            end == start + line@.len(),
            positions(runs@.links) == indices(runs.links@),
            positions(runs@.characters) == indices(runs.characters@),
            pieces_from(line@, start as int, runs@, start as int, seq![]) == pieces_from(
                line@,
                start as int,
                runs@,
                b as int,
                run_views(pieces@),
            ),
        decreases end - b,
    {
        broadcast use run_views_push;

        let stop = next_of(&runs.links, b, next_of(&runs.characters, b, end));
        let part = slice(line, b - start, stop - start);
        let text = clean(&part);
        if text.len() > 0 {
            let fmt = match entry_at(&runs.characters, b) {
                Some(k) => runs.characters[k].1,
                None => None,
            };
            pieces.push(Run { text, fmt, link: link_copy(runs, b) });
        }
        b = stop;
    }
    trim(&pieces)
}

/// How the paragraph that begins at an offset is marked as a list item.
pub open spec fn label_at(runs: StorageRunsV, offset: int) -> Option<ListLabelV> {
    match value_in_force(runs.lists, offset) {
        Some(Some(s)) => style_label(
            s,
            match value_in_force(runs.depths, offset) {
                Some(d) => d,
                None => 0,
            },
        ),
        _ => None,
    }
}

/// How the paragraph that begins at an offset is marked as a list item.
pub fn list_label_at(runs: &StorageRuns, offset: usize) -> (r: Option<ListLabel>)
    ensures
        label_view(r) == label_at(runs@, offset as int),
{
    assert(positions(runs@.lists) =~= indices(runs.lists@));
    assert(positions(runs@.depths) =~= indices(runs.depths@));
    match entry_at(&runs.lists, offset) {
        Some(k) => match &runs.lists[k].1 {
            Some(s) => {
                let depth: usize = match entry_at(&runs.depths, offset) {
                    Some(d) => runs.depths[d].1,
                    None => 0,
                };
                s.label(depth)
            },
            None => None,
        },
        None => None,
    }
}

fn only_digits(s: &Vec<char>) -> (r: bool)
    ensures
        r == all_digits(s@),
{
    if s.len() == 0 {
        return false;
    }
    let mut i: usize = 0;
    while i < s.len()
        invariant
            i <= s@.len(),
            forall|k: int| 0 <= k < i ==> is_digit(#[trigger] s@[k]),
        decreases s@.len() - i,
    {
        if !('0' <= s[i] && s[i] <= '9') {
            assert(!is_digit(s@[i as int]));
            return false;
        }
        i += 1;
    }
    true
}

/// What a paragraph is by the lower-case name of its style.
pub open spec fn lower_kind(l: Seq<char>) -> Label {
    let rest = l.skip("heading"@.len() as int);
    let digits = lstrip(rest);
    if l == "title"@ {
        Label::Title
    } else if l == "subtitle"@ || l == "subheading"@ {
        Label::Heading(2)
    } else if has_prefix(l, "heading"@) && digits.len() == 0 {
        Label::Heading(1)
    } else if has_prefix(l, "heading"@) && all_digits(digits) {
        Label::Heading(
            match uint(digits, u64::MAX as int) {
                Some(k) => if k > 6 {
                    6
                } else if k < 1 {
                    1
                } else {
                    k as u8
                },
                None => 6,
            },
        )
    } else {
        Label::Text
    }
}

/// What a paragraph is by the name of its style.
pub open spec fn style_kind(name: Option<Seq<char>>) -> Label {
    match name {
        None => Label::Text,
        Some(n) => if strip(n).len() == 0 {
            Label::Text
        } else {
            lower_kind(lowercase(strip(n)))
        },
    }
}

/// What a paragraph is by the lower-case name of its style.
pub fn label_for_lower(l: &Vec<char>) -> (r: Label)
    ensures
        r == lower_kind(l@),
        r matches Label::Heading(n) ==> 1 <= n <= 6,
{
    if is(l, "title") {
        return Label::Title;
    }
    if is(l, "subtitle") || is(l, "subheading") {
        return Label::Heading(2);
    }
    if starts_with(l, "heading") {
        let skip: usize = chars_of("heading").len();
        let rest = slice(l, skip, l.len());
        assert(rest@ =~= l@.skip("heading"@.len() as int));
        let digits = trim_start(&rest);
        if digits.len() == 0 {
            return Label::Heading(1);
        }
        if only_digits(&digits) {
            let level: u8 = match parse_uint(&digits, u64::MAX as u128) {
                Some(k) => {
                    proof {
                        uint_is_positive(digits@, u64::MAX as int);
                    }
                    if k > 6 {
                        6
                    } else if k < 1 {
                        1
                    } else {
                        k as u8
                    }
                },
                None => 6,
            };
            return Label::Heading(level);
        }
    }
    Label::Text
}

/// What a paragraph is by the name of its style.
pub fn label_for_style(style_name: Option<&str>) -> (r: Label)
    ensures
        r == style_kind(opt_str(style_name)),
        r matches Label::Heading(n) ==> 1 <= n <= 6,
{
    let name = match style_name {
        None => {
            return Label::Text;
        },
        Some(s) => crate::text::trim(&chars_of(s)),
    };
    if name.len() == 0 {
        return Label::Text;
    }
    let n = string_of(&name);
    label_for_lower(&chars_of(to_lowercase(n.as_str()).as_str()))
}

/// The style in force.
pub open spec fn style_at(runs: StorageRunsV, index: int) -> Option<Seq<char>> {
    match value_in_force(runs.styles, index) {
        Some(s) => s,
        None => None,
    }
}

pub(crate) fn style_label_at(runs: &StorageRuns, index: usize) -> (r: Label)
    ensures
        r == style_kind(style_at(runs@, index as int)),
{
    assert(positions(runs@.styles) =~= indices(runs.styles@));
    match entry_at(&runs.styles, index) {
        Some(k) => match &runs.styles[k].1 {
            Some(s) => {
                let name = string_of(s);
                label_for_style(Some(name.as_str()))
            },
            None => label_for_style(None),
        },
        None => label_for_style(None),
    }
}

/// The paragraphs of a text from an offset on, added to `done`. A line
/// without text makes none.
pub open spec fn split_at(text: Seq<char>, from: int, runs: StorageRunsV, done: Seq<ParagraphV>) -> Seq<
    ParagraphV,
>
    decreases text.len() - from,
{
    let k = index_from(text, '\n', from);
    if from < 0 || k < from || from > text.len() {
        done
    } else {
        let pieces = line_runs(text.subrange(from, k), from, runs);
        let next = if pieces.len() == 0 {
            done
        } else {
            done.push(
                ParagraphV {
                    runs: pieces,
                    label: style_kind(style_at(runs, from)),
                    list: label_at(runs, from),
                    anchors: seq![],
                },
            )
        };
        if k >= text.len() {
            next
        } else {
            split_at(text, k + 1, runs, next)
        }
    }
}

/// The paragraphs of a text.
pub fn split_paragraphs(text: &Vec<char>, runs: &StorageRuns) -> (r: Vec<Paragraph>)
    ensures
        paragraphs_view(r@) == split_at(text@, 0, runs@, seq![]),
{
    let mut out: Vec<Paragraph> = Vec::new();
    assert(paragraphs_view(out@) =~= seq![]);
    let n: usize = text.len();
    let mut from: usize = 0;
    loop
        invariant
            from <= n == text@.len(),
            split_at(text@, 0, runs@, seq![]) == split_at(
                text@,
                from as int,
                runs@,
                paragraphs_view(out@),
            ),
        decreases n - from,
    {
        broadcast use paragraphs_view_push;

        let k = find_from(text, '\n', from);
        let line = slice(text, from, k);
        let pieces = runs_for(&line, from, runs);
        assert(run_views(pieces@).len() == pieces@.len());
        if pieces.len() > 0 {
            let anchors: Vec<Vec<char>> = Vec::new();
            assert(texts(anchors@) =~= seq![]);
            out.push(
                Paragraph {
                    runs: pieces,
                    label: style_label_at(runs, from),
                    list: list_label_at(runs, from),
                    anchors,
                },
            );
        }
        if k == n {
            return out;
        }
        from = k + 1;
    }
}

/// A comment with its author before it.
pub open spec fn with_author(author: Option<Seq<char>>, text: Seq<char>) -> Seq<char> {
    match author {
        Some(a) => "[author: "@ + a + "]: "@ + text,
        None => text,
    }
}

/// A comment with its author before it.
pub fn authored(author: &Option<Vec<char>>, text: &Vec<char>) -> (r: Vec<char>)
    ensures
        r@ == with_author(opt_chars(*author), text@),
{
    match author {
        Some(a) => {
            let mut t = chars_of("[author: ");
            push_all(&mut t, a);
            push_str(&mut t, "]: ");
            push_all(&mut t, text);
            t
        },
        None => copy(text),
    }
}

/// Whether one of the paragraphs from `i` on has a text.
pub open spec fn has_text(v: Seq<ParagraphV>, i: int, t: Seq<char>) -> bool
    decreases v.len() - i,
{
    i < v.len() && (runs_text(v[i].runs) == t || has_text(v, i + 1, t))
}

/// The paragraphs from `i` on whose text is not among those before, added to
/// `done`.
pub open spec fn unique_from(v: Seq<ParagraphV>, i: int, done: Seq<ParagraphV>) -> Seq<ParagraphV>
    decreases v.len() - i,
{
    if i >= v.len() {
        done
    } else {
        unique_from(
            v,
            i + 1,
            if has_text(done, 0, runs_text(v[i].runs)) {
                done
            } else {
                done.push(v[i])
            },
        )
    }
}

fn any_text(v: &Vec<Paragraph>, t: &Vec<char>) -> (r: bool)
    ensures
        r == has_text(paragraphs_view(v@), 0, t@),
{
    let ghost w = paragraphs_view(v@);
    let mut i: usize = 0;
    while i < v.len()
        invariant
            i <= v@.len(),
            w == paragraphs_view(v@),
            has_text(w, 0, t@) == has_text(w, i as int, t@),
        decreases v@.len() - i,
    {
        assert(w[i as int] == v@[i as int]@);
        if same(&v[i].text(), t) {
            return true;
        }
        i += 1;
    }
    false
}

/// Paragraphs without those whose text came before.
pub fn unique_paragraphs(v: Vec<Paragraph>) -> (r: Vec<Paragraph>)
    ensures
        paragraphs_view(r@) == unique_from(paragraphs_view(v@), 0, seq![]),
{
    let ghost w = paragraphs_view(v@);
    let mut v = v;
    let n: usize = v.len();
    let mut out: Vec<Paragraph> = Vec::new();
    let mut i: usize = 0;
    assert(paragraphs_view(out@) =~= seq![]);
    while i < n
        invariant
            i <= n == v@.len(),
            w.len() == n,
            forall|k: int| i <= k < n ==> (#[trigger] v@[k])@ == w[k],
            unique_from(w, 0, seq![]) == unique_from(w, i as int, paragraphs_view(out@)),
        decreases n - i,
    {
        broadcast use paragraphs_view_push;

        assert(v@[i as int]@ == w[i as int]);
        let mut p = Paragraph::new(Vec::new(), Label::Text);
        std::mem::swap(&mut p, &mut v[i]);
        if !any_text(&out, &p.text()) {
            out.push(p);
        }
        i += 1;
    }
    out
}

proof fn has_text_finds(v: Seq<ParagraphV>, i: int, k: int, t: Seq<char>)
    requires
        0 <= i <= k < v.len(),
        runs_text(v[k].runs) == t,
    ensures
        has_text(v, i, t),
    decreases k - i,
{
    if i < k {
        has_text_finds(v, i + 1, k, t);
    }
}

proof fn has_text_is_found(v: Seq<ParagraphV>, i: int, t: Seq<char>) -> (k: int)
    requires
        0 <= i,
        has_text(v, i, t),
    ensures
        i <= k < v.len(),
        runs_text(v[k].runs) == t,
    decreases v.len() - i,
{
    if runs_text(v[i].runs) == t {
        i
    } else {
        has_text_is_found(v, i + 1, t)
    }
}

/// Whether no two paragraphs have the same text.
pub open spec fn all_differ(v: Seq<ParagraphV>) -> bool {
    forall|i: int, j: int|
        0 <= i < j < v.len() ==> runs_text((#[trigger] v[i]).runs) != runs_text(
            (#[trigger] v[j]).runs,
        )
}

/// Of paragraphs with the same text one is kept, and each text is kept.
pub proof fn each_text_is_kept_once(v: Seq<ParagraphV>, i: int, done: Seq<ParagraphV>)
    requires
        0 <= i,
        all_differ(done),
    ensures
        all_differ(unique_from(v, i, done)),
        forall|k: int|
            i <= k < v.len() ==> has_text(
                unique_from(v, i, done),
                0,
                runs_text((#[trigger] v[k]).runs),
            ),
        unique_from(v, i, done).len() >= done.len(),
        unique_from(v, i, done).take(done.len() as int) == done,
    decreases v.len() - i,
{
    if i < v.len() {
        let t = runs_text(v[i].runs);
        let next = if has_text(done, 0, t) {
            done
        } else {
            done.push(v[i])
        };
        assert(all_differ(next)) by {
            if !has_text(done, 0, t) {
                assert forall|a: int, b: int| 0 <= a < b < next.len() implies runs_text(
                    (#[trigger] next[a]).runs,
                ) != runs_text((#[trigger] next[b]).runs) by {
                    assert(next[a] == done[a]);
                    if b == done.len() && runs_text(done[a].runs) == t {
                        has_text_finds(done, 0, a, t);
                    }
                }
            }
        }
        each_text_is_kept_once(v, i + 1, next);
        let all = unique_from(v, i + 1, next);
        assert(all.take(next.len() as int) == next);
        assert(all.take(done.len() as int) =~= next.take(done.len() as int));
        assert(next.take(done.len() as int) =~= done);
        assert(has_text(all, 0, t)) by {
            let k = if has_text(done, 0, t) {
                has_text_is_found(done, 0, t)
            } else {
                done.len() as int
            };
            assert(next[k] == all.take(next.len() as int)[k]);
            assert(all[k] == next[k]);
            has_text_finds(all, 0, k, t);
        }
    } else {
        assert(done.take(done.len() as int) =~= done);
    }
}

// ------------------------------------------------------------ content

/// One piece of the body.
#[derive(Debug, PartialEq, Eq)]
pub enum Block {
    Paragraph(Paragraph),
    /// An image by the names of its files in the container, in the order in
    /// which to try them.
    Picture(Vec<Vec<char>>),
    Table(Table),
}

/// View of a [`Block`].
#[verifier::ext_equal]
pub enum BlockV {
    Paragraph(ParagraphV),
    Picture(Seq<Seq<char>>),
    Table(TableV),
}

impl View for Block {
    type V = BlockV;

    open spec fn view(&self) -> BlockV {
        match self {
            Block::Paragraph(p) => BlockV::Paragraph(p@),
            Block::Picture(n) => BlockV::Picture(texts(n@)),
            Block::Table(t) => BlockV::Table(table_view(*t)),
        }
    }
}

/// Views of blocks.
pub open spec fn blocks_view(v: Seq<Block>) -> Seq<BlockV> {
    Seq::new(v.len(), |i: int| v[i]@)
}

/// Pushing a block pushes its view.
pub broadcast proof fn blocks_view_push(v: Seq<Block>, x: Block)
    ensures
        #[trigger] blocks_view(v.push(x)) == blocks_view(v).push(x@),
{
    assert(blocks_view(v.push(x)) =~= blocks_view(v).push(x@));
}

/// A comment, and the mark in the body that it is on.
#[derive(Debug, PartialEq, Eq)]
pub struct Comment {
    pub text: Vec<char>,
    pub anchor: Vec<char>,
}

/// View of a [`Comment`].
#[verifier::ext_equal]
pub struct CommentV {
    pub text: Seq<char>,
    pub anchor: Seq<char>,
}

impl View for Comment {
    type V = CommentV;

    open spec fn view(&self) -> CommentV {
        CommentV { text: self.text@, anchor: self.anchor@ }
    }
}

/// Views of comments.
pub open spec fn comments_view(v: Seq<Comment>) -> Seq<CommentV> {
    Seq::new(v.len(), |i: int| v[i]@)
}

/// What a document holds.
#[derive(Debug, PartialEq, Eq)]
pub struct Content {
    pub blocks: Vec<Block>,
    pub headers: Vec<Paragraph>,
    pub footers: Vec<Paragraph>,
    pub footnotes: Vec<Paragraph>,
    pub comments: Vec<Comment>,
}

/// View of a [`Content`].
#[verifier::ext_equal]
pub struct ContentV {
    pub blocks: Seq<BlockV>,
    pub headers: Seq<ParagraphV>,
    pub footers: Seq<ParagraphV>,
    pub footnotes: Seq<ParagraphV>,
    pub comments: Seq<CommentV>,
}

impl View for Content {
    type V = ContentV;

    open spec fn view(&self) -> ContentV {
        ContentV {
            blocks: blocks_view(self.blocks@),
            headers: paragraphs_view(self.headers@),
            footers: paragraphs_view(self.footers@),
            footnotes: paragraphs_view(self.footnotes@),
            comments: comments_view(self.comments@),
        }
    }
}

// ------------------------------------------------------------ nodes

/// A run in Markdown.
pub open spec fn run_markdown(text: Seq<char>, fmt: Option<Formatting>, link: Option<Seq<char>>) -> Seq<
    char,
> {
    let a = escaped(text);
    let b = if fmt is Some && fmt->0.bold {
        between("**"@, a, "**"@)
    } else {
        a
    };
    let c = if fmt is Some && fmt->0.italic {
        between("*"@, b, "*"@)
    } else {
        b
    };
    let d = if fmt is Some && fmt->0.strike {
        between("~~"@, c, "~~"@)
    } else {
        c
    };
    match link {
        Some(url) => between("["@, d, "]("@) + url + ")"@,
        None => d,
    }
}

fn serialize_run(text: &Vec<char>, fmt: Option<Formatting>, link: &Option<Vec<char>>) -> (r: Vec<
    char,
>)
    ensures
        r@ == run_markdown(text@, fmt, opt_chars(*link)),
{
    let mut s = escape_text(text);
    match fmt {
        Some(f) => {
            if f.bold {
                s = wrap("**", &s, "**");
            }
            if f.italic {
                s = wrap("*", &s, "*");
            }
            if f.strike {
                s = wrap("~~", &s, "~~");
            }
        },
        None => {},
    }
    match link {
        Some(url) => {
            let mut t = wrap("[", &s, "](");
            push_all(&mut t, url);
            push_str(&mut t, ")");
            t
        },
        None => s,
    }
}

/// The structured run of a text.
pub open spec fn inline_of(text: Seq<char>, fmt: Option<Formatting>) -> InlineRunV {
    let f = match fmt {
        Some(f) => f,
        None => Formatting {
            bold: false,
            italic: false,
            underline: false,
            strike: false,
            script: Script::Baseline,
        },
    };
    InlineRunV {
        text,
        bold: f.bold,
        italic: f.italic,
        underline: f.underline,
        strike: f.strike,
        script: f.script,
        code: false,
        formula: false,
    }
}

fn inline_run(text: &Vec<char>, fmt: Option<Formatting>) -> (r: InlineRun)
    ensures
        r@ == inline_of(text@, fmt),
{
    let f = match fmt {
        Some(f) => f,
        None => Formatting {
            bold: false,
            italic: false,
            underline: false,
            strike: false,
            script: Script::Baseline,
        },
    };
    InlineRun {
        text: string_of(text),
        bold: f.bold,
        italic: f.italic,
        underline: f.underline,
        strike: f.strike,
        script: f.script,
        code: false,
        formula: false,
    }
}

/// Whether the runs from `i` on share a formatting and a link with one.
pub open spec fn all_like(v: Seq<RunV>, i: int, r: RunV) -> bool
    decreases v.len() - i,
{
    i >= v.len() || (v[i].fmt == r.fmt && v[i].link == r.link && all_like(v, i + 1, r))
}

/// The runs that hold text.
pub open spec fn full_runs(v: Seq<RunV>) -> Seq<RunV> {
    kept_from(v, 0, seq![])
}

/// Whether all runs share one formatting and one link.
pub open spec fn is_uniform(v: Seq<RunV>) -> bool {
    let w = full_runs(v);
    w.len() == 0 || all_like(w, 0, w[0])
}

/// The run that stands for all; none where they differ, or there is none.
pub open spec fn uniform(v: Seq<RunV>) -> Option<RunV> {
    let w = full_runs(v);
    if w.len() > 0 && all_like(w, 0, w[0]) {
        Some(w[0])
    } else {
        None
    }
}

fn are_like(v: &Vec<Run>) -> (r: bool)
    requires
        v@.len() > 0,
    ensures
        r == all_like(run_views(v@), 0, run_views(v@)[0]),
{
    let ghost w = run_views(v@);
    assert(w[0] == v@[0]@);
    let mut i: usize = 0;
    while i < v.len()
        invariant
            i <= v@.len(),
            v@.len() > 0,
            w == run_views(v@),
            w[0] == v@[0]@,
            all_like(w, 0, w[0]) == all_like(w, i as int, w[0]),
        decreases v@.len() - i,
    {
        assert(w[i as int] == v@[i as int]@);
        if v[i].fmt != v[0].fmt || !same_opt(&v[i].link, &v[0].link) {
            return false;
        }
        i += 1;
    }
    true
}

fn uniform_run(runs: &Vec<Run>) -> (r: (Option<Run>, bool))
    ensures
        r.1 == is_uniform(run_views(runs@)),
        match r.0 {
            Some(x) => uniform(run_views(runs@)) == Some(x@),
            None => uniform(run_views(runs@)) is None,
        },
{
    let v = keep_runs(runs);
    assert(run_views(v@).len() == v@.len());
    if v.len() == 0 {
        return (None, true);
    }
    assert(run_views(v@)[0] == v@[0]@);
    if are_like(&v) {
        (Some(copy_run(&v[0])), true)
    } else {
        (None, false)
    }
}

/// The Markdown of the runs from `i` on, added to `done`.
pub open spec fn run_texts(v: Seq<RunV>, i: int, done: Seq<Seq<char>>) -> Seq<Seq<char>>
    decreases v.len() - i,
{
    if i >= v.len() {
        done
    } else {
        run_texts(v, i + 1, done.push(run_markdown(v[i].text, v[i].fmt, v[i].link)))
    }
}

/// The structured runs from `i` on, added to `done`.
pub open spec fn run_inlines(v: Seq<RunV>, i: int, done: Seq<InlineRunV>) -> Seq<InlineRunV>
    decreases v.len() - i,
{
    if i >= v.len() {
        done
    } else {
        run_inlines(v, i + 1, done.push(inline_of(v[i].text, v[i].fmt)))
    }
}

/// The node of a paragraph of body text.
pub open spec fn text_node(v: Seq<RunV>) -> NodeV {
    if is_uniform(v) {
        NodeV::Inline {
            text: match uniform(v) {
                Some(r) => run_markdown(runs_text(v), r.fmt, r.link),
                None => run_markdown(runs_text(v), None, None),
            },
            runs: match uniform(v) {
                Some(r) => seq![inline_of(runs_text(v), r.fmt)],
                None => seq![],
            },
            unwrapped: false,
        }
    } else {
        NodeV::Inline {
            text: joined(run_texts(full_runs(v), 0, seq![]), " "@),
            runs: run_inlines(full_runs(v), 0, seq![]),
            unwrapped: false,
        }
    }
}

/// The node of a paragraph outside lists.
pub open spec fn paragraph_view(p: ParagraphV) -> NodeV {
    match p.label {
        Label::Title => NodeV::Heading { level: 1, text: escaped(runs_text(p.runs)) },
        Label::Heading(n) => NodeV::Heading {
            level: if n == 255 {
                255
            } else {
                (n + 1) as u8
            },
            text: escaped(runs_text(p.runs)),
        },
        Label::Text => text_node(p.runs),
    }
}

fn mixed_node(v: &Vec<Run>) -> (r: Node)
    ensures
        crate::document::node_view(r) == (NodeV::Inline {
            text: joined(run_texts(run_views(v@), 0, seq![]), " "@),
            runs: run_inlines(run_views(v@), 0, seq![]),
            unwrapped: false,
        }),
{
    let ghost w = run_views(v@);
    let mut parts: Vec<Vec<char>> = Vec::new();
    let mut runs: Vec<InlineRun> = Vec::new();
    let mut i: usize = 0;
    assert(texts(parts@) =~= seq![]);
    assert(runs_view(runs@) =~= seq![]);
    while i < v.len()
        invariant
            i <= v@.len(),
            w == run_views(v@),
            run_texts(w, 0, seq![]) == run_texts(w, i as int, texts(parts@)),
            run_inlines(w, 0, seq![]) == run_inlines(w, i as int, runs_view(runs@)),
        decreases v@.len() - i,
    {
        broadcast use {texts_push, runs_view_push};

        assert(w[i as int] == v@[i as int]@);
        parts.push(serialize_run(&v[i].text, v[i].fmt, &v[i].link));
        runs.push(inline_run(&v[i].text, v[i].fmt));
        i += 1;
    }
    Node::Inline { text: string_of(&join(&parts, " ")), runs, unwrapped: false }
}

fn body_node(v: &Vec<Run>) -> (r: Node)
    ensures
        crate::document::node_view(r) == text_node(run_views(v@)),
{
    let (one, even) = uniform_run(v);
    if !even {
        return mixed_node(&keep_runs(v));
    }
    let text = text_of_runs(v);
    let mut runs: Vec<InlineRun> = Vec::new();
    assert(runs_view(runs@) =~= seq![]);
    let md = match &one {
        Some(r) => {
            let x = inline_run(&text, r.fmt);
            runs.push(x);
            assert(runs_view(runs@) =~= seq![x@]);
            serialize_run(&text, r.fmt, &r.link)
        },
        None => serialize_run(&text, None, &None),
    };
    Node::Inline { text: string_of(&md), runs, unwrapped: false }
}

/// The node of a paragraph outside lists.
pub fn paragraph_node(p: &Paragraph) -> (r: Node)
    ensures
        crate::document::node_view(r) == paragraph_view(p@),
{
    match p.label {
        Label::Title => Node::Heading { level: 1, text: string_of(&escape_text(&p.text())) },
        Label::Heading(n) => Node::Heading {
            level: if n == 255 {
                255
            } else {
                n + 1
            },
            text: string_of(&escape_text(&p.text())),
        },
        Label::Text => body_node(&p.runs),
    }
}

/// The state of the lists: whether one is open, and how many items were
/// numbered at each level.
#[verifier::ext_equal]
pub struct StackV {
    pub open: bool,
    pub counts: Seq<u64>,
}

/// The numbers of the levels down to a depth; new levels begin at zero.
pub open spec fn opened(counts: Seq<u64>, depth: int) -> Seq<u64> {
    Seq::new(
        (depth + 1) as nat,
        |i: int|
            if i < counts.len() {
                counts[i]
            } else {
                0
            },
    )
}

/// The state after an item at a depth.
pub open spec fn counted(s: StackV, depth: int) -> StackV {
    let c = opened(s.counts, depth);
    StackV { open: true, counts: c.update(depth, next_number(c[depth])) }
}

/// An item closes the lists below its own: a deeper item behind it is the first
/// of its list, one of the same depth counts on, and the lists around it stay.
pub proof fn an_item_closes_the_lists_below(s: StackV, depth: int, next: int)
    requires
        0 <= depth,
        0 <= next,
    ensures
        next > depth ==> counted(counted(s, depth), next).counts[next] == 1,
        next == depth ==> counted(counted(s, depth), next).counts[next] == next_number(
            counted(s, depth).counts[depth],
        ),
        next < depth && next < s.counts.len() ==> counted(s, depth).counts[next]
            == s.counts[next],
{
}

/// No open list.
pub open spec fn closed() -> StackV {
    StackV { open: false, counts: seq![] }
}

/// The node of a list item.
pub open spec fn item_node(s: StackV, p: ParagraphV, l: ListLabelV) -> NodeV {
    let u = uniform(p.runs);
    NodeV::ListItem {
        ordered: l.enumerated,
        number: counted(s, l.depth as int).counts[l.depth as int],
        first_in_list: !s.open,
        text: match u {
            Some(r) => run_markdown(runs_text(p.runs), r.fmt, None),
            None => escaped(runs_text(p.runs)),
        },
        level: if l.depth > 255 {
            255
        } else {
            l.depth as u8
        },
        marker: Some(l.marker),
        href: match u {
            Some(r) => r.link,
            None => None,
        },
        layer: None,
    }
}

/// The state of the lists.
pub struct ListStack {
    pub open: bool,
    pub counts: Vec<u64>,
}

impl View for ListStack {
    type V = StackV;

    open spec fn view(&self) -> StackV {
        StackV { open: self.open, counts: self.counts@ }
    }
}

fn count_item(counts: &Vec<u64>, depth: usize) -> (r: Vec<u64>)
    requires
        depth < usize::MAX,
    ensures
        r@ == counted(StackV { open: true, counts: counts@ }, depth as int).counts,
{
    let mut out: Vec<u64> = Vec::new();
    let mut i: usize = 0;
    while i < depth
        invariant
            i <= depth,
            out@.len() == i,
            forall|k: int| 0 <= k < i ==> #[trigger] out@[k] == opened(counts@, depth as int)[k],
        decreases depth - i,
    {
        out.push(
            if i < counts.len() {
                counts[i]
            } else {
                0
            },
        );
        i += 1;
    }
    let last: u64 = if depth < counts.len() {
        counts[depth]
    } else {
        0
    };
    out.push(
        if last == u64::MAX {
            last
        } else {
            last + 1
        },
    );
    let ghost o = opened(counts@, depth as int);
    assert(out@ =~= o.update(depth as int, next_number(o[depth as int])));
    out
}

fn optional_string(o: Option<Vec<char>>) -> (r: Option<String>)
    ensures
        opt(r) == opt_chars(o),
{
    match o {
        Some(v) => Some(string_of(&v)),
        None => None,
    }
}

impl ListStack {
    /// Ends the list.
    pub fn close(&mut self)
        ensures
            final(self)@ == closed(),
    {
        self.open = false;
        self.counts = Vec::new();
        assert(self.counts@ =~= seq![]);
    }

    /// The node of the next item.
    pub fn item(&mut self, p: &Paragraph, label: &ListLabel) -> (r: Node)
        requires
            label.depth < usize::MAX,
        ensures
            crate::document::node_view(r) == item_node(old(self)@, p@, label@),
            final(self)@ == counted(old(self)@, label.depth as int),
    {
        let first = !self.open;
        let counts = count_item(&self.counts, label.depth);
        let number = counts[label.depth];
        let (one, _) = uniform_run(&p.runs);
        let all = p.text();
        let text: Vec<char>;
        let href: Option<Vec<char>>;
        match one {
            Some(r) => {
                text = serialize_run(&all, r.fmt, &None);
                href = r.link;
            },
            None => {
                text = escape_text(&all);
                href = None;
            },
        }
        self.open = true;
        self.counts = counts;
        Node::ListItem {
            ordered: label.enumerated,
            number,
            first_in_list: first,
            text: string_of(&text),
            level: if label.depth > 255 {
                255
            } else {
                label.depth as u8
            },
            marker: Some(string_of(&label.marker)),
            href: optional_string(href),
            layer: None,
        }
    }
}

/// Whether texts from `i` on hold one.
pub open spec fn holds(v: Seq<Seq<char>>, i: int, t: Seq<char>) -> bool
    decreases v.len() - i,
{
    i < v.len() && (v[i] == t || holds(v, i + 1, t))
}

/// The first block from `i` on with a mark.
pub open spec fn marked_block(v: Seq<BlockV>, i: int, anchor: Seq<char>) -> Option<int>
    decreases v.len() - i,
{
    if i >= v.len() {
        None
    } else {
        match v[i] {
            BlockV::Paragraph(p) => if holds(p.anchors, 0, anchor) {
                Some(i)
            } else {
                marked_block(v, i + 1, anchor)
            },
            _ => marked_block(v, i + 1, anchor),
        }
    }
}

/// The places of the comments from `i` on that are on a block, added to
/// `done`.
pub open spec fn comments_on(
    blocks: Seq<BlockV>,
    comments: Seq<CommentV>,
    at: int,
    i: int,
    done: Seq<usize>,
) -> Seq<usize>
    decreases comments.len() - i,
{
    if i >= comments.len() {
        done
    } else {
        comments_on(
            blocks,
            comments,
            at,
            i + 1,
            if marked_block(blocks, 0, comments[i].anchor) == Some(at) {
                done.push(i as usize)
            } else {
                done
            },
        )
    }
}

fn has_anchor(v: &Vec<Vec<char>>, t: &Vec<char>) -> (r: bool)
    ensures
        r == holds(texts(v@), 0, t@),
{
    let ghost w = texts(v@);
    let mut i: usize = 0;
    while i < v.len()
        invariant
            i <= v@.len(),
            w == texts(v@),
            holds(w, 0, t@) == holds(w, i as int, t@),
        decreases v@.len() - i,
    {
        assert(w[i as int] == v@[i as int]@);
        if same(&v[i], t) {
            return true;
        }
        i += 1;
    }
    false
}

fn find_marked(v: &Vec<Block>, anchor: &Vec<char>) -> (r: Option<usize>)
    ensures
        match r {
            Some(k) => marked_block(blocks_view(v@), 0, anchor@) == Some(k as int),
            None => marked_block(blocks_view(v@), 0, anchor@) is None,
        },
{
    let ghost w = blocks_view(v@);
    let mut i: usize = 0;
    while i < v.len()
        invariant
            i <= v@.len(),
            w == blocks_view(v@),
            marked_block(w, 0, anchor@) == marked_block(w, i as int, anchor@),
        decreases v@.len() - i,
    {
        assert(w[i as int] == v@[i as int]@);
        match &v[i] {
            Block::Paragraph(p) => {
                if has_anchor(&p.anchors, anchor) {
                    return Some(i);
                }
            },
            _ => {},
        }
        i += 1;
    }
    None
}

fn find_targets(blocks: &Vec<Block>, comments: &Vec<Comment>) -> (r: Vec<Option<usize>>)
    ensures
        r@.len() == comments@.len(),
        forall|k: int|
            0 <= k < r@.len() ==> match #[trigger] r@[k] {
                Some(b) => marked_block(
                    blocks_view(blocks@),
                    0,
                    comments_view(comments@)[k].anchor,
                ) == Some(b as int),
                None => marked_block(
                    blocks_view(blocks@),
                    0,
                    comments_view(comments@)[k].anchor,
                ) is None,
            },
{
    let ghost b = blocks_view(blocks@);
    let ghost c = comments_view(comments@);
    let mut out: Vec<Option<usize>> = Vec::new();
    let mut i: usize = 0;
    while i < comments.len()
        invariant
            i <= comments@.len(),
            out@.len() == i,
            b == blocks_view(blocks@),
            c == comments_view(comments@),
            forall|k: int|
                0 <= k < i ==> match #[trigger] out@[k] {
                    Some(x) => marked_block(b, 0, c[k].anchor) == Some(x as int),
                    None => marked_block(b, 0, c[k].anchor) is None,
                },
        decreases comments@.len() - i,
    {
        assert(c[i as int] == comments@[i as int]@);
        out.push(find_marked(blocks, &comments[i].anchor));
        i += 1;
    }
    out
}

/// The node of a block, and the state of the lists behind it.
pub open spec fn block_node(s: StackV, b: BlockV) -> (NodeV, StackV) {
    match b {
        BlockV::Paragraph(p) => match p.list {
            Some(l) => (item_node(s, p, l), counted(s, l.depth as int)),
            None => (paragraph_view(p), closed()),
        },
        BlockV::Picture(names) => (
            NodeV::Picture {
                caption: None,
                caption_href: None,
                caption_parent: CaptionParent::Body,
                sources: names,
            },
            closed(),
        ),
        BlockV::Table(t) => (NodeV::Table(t), closed()),
    }
}

/// A node with the comments that are on it.
pub open spec fn commented(n: NodeV, comments: Seq<usize>) -> NodeV {
    if comments.len() == 0 {
        n
    } else {
        NodeV::Commented { comments, inner: Box::new(n) }
    }
}

/// The nodes of the blocks from `i` on, added to `nodes`.
pub open spec fn blocks_from(c: ContentV, i: int, s: StackV, nodes: Seq<NodeV>) -> Seq<NodeV>
    decreases c.blocks.len() - i,
{
    if i >= c.blocks.len() {
        nodes
    } else {
        let p = block_node(s, c.blocks[i]);
        blocks_from(
            c,
            i + 1,
            p.1,
            nodes.push(commented(p.0, comments_on(c.blocks, c.comments, i, 0, seq![]))),
        )
    }
}

/// The furniture of the paragraphs from `i` on, added to `nodes`.
pub open spec fn furniture_from(v: Seq<ParagraphV>, i: int, nodes: Seq<NodeV>) -> Seq<NodeV>
    decreases v.len() - i,
{
    if i >= v.len() {
        nodes
    } else {
        furniture_from(
            v,
            i + 1,
            nodes.push(
                NodeV::Furniture {
                    layer: ContentLayer::Furniture,
                    inner: Box::new(paragraph_view(v[i])),
                },
            ),
        )
    }
}

/// The nodes of the comments from `i` on, added to `nodes`.
pub open spec fn comments_from(v: Seq<CommentV>, i: int, nodes: Seq<NodeV>) -> Seq<NodeV>
    decreases v.len() - i,
{
    if i >= v.len() {
        nodes
    } else {
        comments_from(v, i + 1, nodes.push(NodeV::Comment { text: escaped(v[i].text) }))
    }
}

/// The nodes of a document: its body, then headers, footers and footnotes,
/// then comments.
pub open spec fn emitted(c: ContentV) -> Seq<NodeV> {
    let a = blocks_from(c, 0, closed(), seq![]);
    let b = furniture_from(c.headers, 0, a);
    let d = furniture_from(c.footers, 0, b);
    let e = furniture_from(c.footnotes, 0, d);
    comments_from(c.comments, 0, e)
}

fn add_furniture(v: &Vec<Paragraph>, nodes: &mut Vec<Node>)
    ensures
        nodes_view(final(nodes)@) == furniture_from(
            paragraphs_view(v@),
            0,
            nodes_view(old(nodes)@),
        ),
{
    let ghost w = paragraphs_view(v@);
    let ghost first = nodes_view(nodes@);
    let mut i: usize = 0;
    while i < v.len()
        invariant
            i <= v@.len(),
            w == paragraphs_view(v@),
            furniture_from(w, 0, first) == furniture_from(w, i as int, nodes_view(nodes@)),
        decreases v@.len() - i,
    {
        assert(w[i as int] == v@[i as int]@);
        push_node(
            nodes,
            Node::Furniture {
                layer: ContentLayer::Furniture,
                inner: Box::new(paragraph_node(&v[i])),
            },
        );
        i += 1;
    }
}

fn places_on(
    blocks: &Vec<Block>,
    comments: &Vec<Comment>,
    targets: &Vec<Option<usize>>,
    at: usize,
) -> (r: Vec<usize>)
    requires
        targets@.len() == comments@.len(),
        forall|k: int|
            0 <= k < targets@.len() ==> match #[trigger] targets@[k] {
                Some(b) => marked_block(
                    blocks_view(blocks@),
                    0,
                    comments_view(comments@)[k].anchor,
                ) == Some(b as int),
                None => marked_block(
                    blocks_view(blocks@),
                    0,
                    comments_view(comments@)[k].anchor,
                ) is None,
            },
    ensures
        r@ == comments_on(
            blocks_view(blocks@),
            comments_view(comments@),
            at as int,
            0,
            seq![],
        ),
{
    let ghost b = blocks_view(blocks@);
    let ghost c = comments_view(comments@);
    let mut out: Vec<usize> = Vec::new();
    let mut i: usize = 0;
    assert(out@ =~= seq![]);
    while i < targets.len()
        invariant
            i <= targets@.len() == comments@.len(),
            b == blocks_view(blocks@),
            c == comments_view(comments@),
            forall|k: int|
                0 <= k < targets@.len() ==> match #[trigger] targets@[k] {
                    Some(x) => marked_block(b, 0, c[k].anchor) == Some(x as int),
                    None => marked_block(b, 0, c[k].anchor) is None,
                },
            comments_on(b, c, at as int, 0, seq![]) == comments_on(b, c, at as int, i as int, out@),
        decreases targets@.len() - i,
    {
        let ghost t = targets@[i as int];
        match targets[i] {
            Some(x) => {
                if x == at {
                    out.push(i);
                }
            },
            None => {},
        }
        i += 1;
    }
    out
}

/// Whether a list can be as deep as the content's items say.
pub open spec fn depths_fit(v: Seq<BlockV>) -> bool {
    forall|i: int|
        0 <= i < v.len() ==> (match #[trigger] v[i] {
            BlockV::Paragraph(p) => match p.list {
                Some(l) => l.depth < usize::MAX,
                None => true,
            },
            _ => true,
        })
}

/// The nodes of a document.
pub fn emit(content: &Content) -> (r: Vec<Node>)
    requires
        depths_fit(content@.blocks),
    ensures
        nodes_view(r@) == emitted(content@),
{
    let ghost c = content@;
    let targets = find_targets(&content.blocks, &content.comments);
    let mut nodes: Vec<Node> = Vec::new();
    assert(nodes_view(nodes@) =~= seq![]);
    let mut lists = ListStack { open: false, counts: Vec::new() };
    assert(lists@ =~= closed());
    let mut i: usize = 0;
    while i < content.blocks.len()
        invariant
            i <= content.blocks@.len(),
            c == content@,
            depths_fit(c.blocks),
            targets@.len() == content.comments@.len(),
            forall|k: int|
                0 <= k < targets@.len() ==> match #[trigger] targets@[k] {
                    Some(b) => marked_block(
                        blocks_view(content.blocks@),
                        0,
                        comments_view(content.comments@)[k].anchor,
                    ) == Some(b as int),
                    None => marked_block(
                        blocks_view(content.blocks@),
                        0,
                        comments_view(content.comments@)[k].anchor,
                    ) is None,
                },
            blocks_from(c, 0, closed(), seq![]) == blocks_from(
                c,
                i as int,
                lists@,
                nodes_view(nodes@),
            ),
        decreases content.blocks@.len() - i,
    {
        assert(c.blocks[i as int] == content.blocks@[i as int]@);
        let node = match &content.blocks[i] {
            Block::Paragraph(p) => match &p.list {
                Some(l) => lists.item(p, l),
                None => {
                    lists.close();
                    paragraph_node(p)
                },
            },
            Block::Picture(names) => {
                lists.close();
                let sources = strings(names);
                Node::Picture {
                    caption: None,
                    caption_href: None,
                    caption_parent: CaptionParent::Body,
                    sources,
                }
            },
            Block::Table(t) => {
                lists.close();
                Node::Table(copy_table(t))
            },
        };
        let comments = places_on(&content.blocks, &content.comments, &targets, i);
        if comments.len() == 0 {
            push_node(&mut nodes, node);
        } else {
            push_node(&mut nodes, Node::Commented { comments, inner: Box::new(node) });
        }
        i += 1;
    }
    add_furniture(&content.headers, &mut nodes);
    add_furniture(&content.footers, &mut nodes);
    add_furniture(&content.footnotes, &mut nodes);
    let ghost w = c.comments;
    let ghost first = nodes_view(nodes@);
    let mut k: usize = 0;
    while k < content.comments.len()
        invariant
            k <= content.comments@.len(),
            w == comments_view(content.comments@),
            comments_from(w, 0, first) == comments_from(w, k as int, nodes_view(nodes@)),
        decreases content.comments@.len() - k,
    {
        assert(w[k as int] == content.comments@[k as int]@);
        push_node(
            &mut nodes,
            Node::Comment { text: string_of(&escape_text(&content.comments[k].text)) },
        );
        k += 1;
    }
    nodes
}

} // verus!
