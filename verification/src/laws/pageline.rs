//! Laws of the text of Pages documents: how it is cut into paragraphs, and
//! which style, list and link is in force where.

use crate::decode::lossy;
use crate::pages::{
    clean_from, cleaned, entry_from, format_at, label_at, line_runs, link_at, positions, split_at,
    style_at, style_kind, style_label, value_in_force, Formatting, Label, ListStyleV, ParagraphV,
    StorageRunsV,
};
use crate::pages_iwa::{
    depth_entries, link_of, object, object_table, storage_tables, style_format, style_name,
    table_fields, target, text_from, ArchiveV,
};
use crate::pages_xml::{format_in, is_sf, level_label, link_in, named, sf, style_named, WholeV};
use crate::text::{index_from, strip};
use crate::tree::ElementV;
use crate::wire::{FieldV, ValueV};
use vstd::prelude::*;

verus! {

proof fn entries_are_passed<T>(t: Seq<(int, T)>, i: int, k: int, index: int, now: Option<int>)
    requires
        0 <= i <= k < t.len(),
        forall|j: int| i <= j <= k ==> (#[trigger] t[j]).0 <= index,
        k + 1 == t.len() || t[k + 1].0 > index,
    ensures
        entry_from(positions(t), i, index, now) == Some(k),
    decreases k - i,
{
    let p = positions(t);
    assert(p.len() == t.len());
    assert(p[i] == t[i].0);
    if i < k {
        entries_are_passed(t, i + 1, k, index, Some(i));
    } else {
        if k + 1 < t.len() {
            assert(p[k + 1] == t[k + 1].0);
        }
        assert(entry_from(p, i + 1, index, Some(i)) == Some(i));
    }
}

/// At a place the value of the last entry at or before it is in force; before
/// the first entry there is none.
pub proof fn the_last_entry_is_in_force<T>(t: Seq<(int, T)>, k: int, index: int)
    requires
        0 <= k < t.len(),
        forall|j: int| 0 <= j <= k ==> (#[trigger] t[j]).0 <= index,
        k + 1 == t.len() || t[k + 1].0 > index,
    ensures
        value_in_force(t, index) == Some(t[k].1),
        forall|n: int| n < t[0].0 ==> #[trigger] value_in_force(t, n) is None,
{
    entries_are_passed(t, 0, k, index, None);
    assert(positions(t).len() == t.len());
    assert(positions(t)[0] == t[0].0);
}

/// Characters have the format, and the link, that is in force where they
/// stand; a paragraph has the style in force where it begins, and a list label
/// by the list style and the depth in force there.
pub proof fn runs_take_what_is_in_force(
    runs: StorageRunsV,
    index: int,
    f: Option<Formatting>,
    s: ListStyleV,
    d: usize,
    n: Option<Seq<char>>,
)
    ensures
        value_in_force(runs.characters, index) == Some(f) ==> format_at(runs, index) == f,
        value_in_force(runs.links, index) == Some(n) ==> link_at(runs, index) == n,
        value_in_force(runs.styles, index) == Some(n) ==> style_at(runs, index) == n,
        value_in_force(runs.lists, index) == Some(Some(s)) && value_in_force(runs.depths, index)
            == Some(d) ==> label_at(runs, index) == style_label(s, d),
        value_in_force(runs.lists, index) == Some(Some(s)) && value_in_force(runs.depths, index)
            is None ==> label_at(runs, index) == style_label(s, 0),
        value_in_force(runs.lists, index) == Some(None::<ListStyleV>) ==> label_at(runs, index)
            is None,
        value_in_force(runs.lists, index) is None ==> label_at(runs, index) is None,
{
}

/// A paragraph without a style is text.
pub proof fn unstyled_paragraphs_are_text(s: Seq<char>)
    ensures
        style_kind(None) == Label::Text,
        strip(s).len() == 0 ==> style_kind(Some(s)) == Label::Text,
{
}

proof fn cleaning_goes_on(s: Seq<char>, i: int, out: Seq<char>)
    requires
        0 <= i <= s.len(),
    ensures
        clean_from(s, i, out) == out + clean_from(s, i, seq![]),
    decreases s.len() - i,
{
    if i < s.len() {
        if s[i] == '\u{FFFC}' {
            cleaning_goes_on(s, i + 1, out);
        } else {
            cleaning_goes_on(s, i + 1, out.push(s[i]));
            cleaning_goes_on(s, i + 1, Seq::<char>::empty().push(s[i]));
            assert(out.push(s[i]) =~= out + Seq::<char>::empty().push(s[i]));
        }
    } else {
        assert(out + seq![] =~= out);
    }
}

proof fn cleaning_moves(c: char, s: Seq<char>, i: int, out: Seq<char>)
    requires
        0 <= i <= s.len(),
    ensures
        clean_from(seq![c] + s, 1 + i, out) == clean_from(s, i, out),
    decreases s.len() - i,
{
    if i < s.len() {
        assert((seq![c] + s)[1 + i] == s[i]);
        cleaning_moves(
            c,
            s,
            i + 1,
            if s[i] == '\u{FFFC}' {
                out
            } else {
                out.push(s[i])
            },
        );
    }
}

/// The marks of attachments are taken out of the text, and nothing else is.
pub proof fn attachment_marks_are_taken_out(c: char, s: Seq<char>)
    ensures
        cleaned(seq![]) == Seq::<char>::empty(),
        c == '\u{FFFC}' ==> cleaned(seq![c] + s) == cleaned(s),
        c != '\u{FFFC}' ==> cleaned(seq![c] + s) == seq![c] + cleaned(s),
{
    assert((seq![c] + s)[0] == c);
    cleaning_moves(c, s, 0, seq![]);
    cleaning_moves(c, s, 0, Seq::<char>::empty().push(c));
    cleaning_goes_on(s, 0, Seq::<char>::empty().push(c));
    assert(Seq::<char>::empty().push(c) =~= seq![c]);
}

/// A line of the text that shows anything is a paragraph, with the style and
/// the list label in force where it begins; the next one begins behind the
/// line feed.
pub proof fn lines_are_paragraphs(
    text: Seq<char>,
    from: int,
    k: int,
    runs: StorageRunsV,
    done: Seq<ParagraphV>,
)
    requires
        0 <= from <= k < text.len(),
        text[k] == '\n',
        forall|i: int| from <= i < k ==> #[trigger] text[i] != '\n',
    ensures
        ({
            let line = line_runs(text.subrange(from, k), from, runs);
            &&& line.len() == 0 ==> split_at(text, from, runs, done) == split_at(
                text,
                k + 1,
                runs,
                done,
            )
            &&& line.len() > 0 ==> split_at(text, from, runs, done) == split_at(
                text,
                k + 1,
                runs,
                done + seq![
                    ParagraphV {
                        runs: line,
                        label: style_kind(style_at(runs, from)),
                        list: label_at(runs, from),
                        anchors: seq![],
                    },
                ],
            )
        }),
{
    the_line_ends(text, from, k);
    let line = line_runs(text.subrange(from, k), from, runs);
    let p = ParagraphV {
        runs: line,
        label: style_kind(style_at(runs, from)),
        list: label_at(runs, from),
        anchors: seq![],
    };
    assert(done.push(p) =~= done + seq![p]);
}

proof fn the_line_ends(text: Seq<char>, from: int, k: int)
    requires
        0 <= from <= k < text.len(),
        text[k] == '\n',
        forall|i: int| from <= i < k ==> #[trigger] text[i] != '\n',
    ensures
        index_from(text, '\n', from) == k,
    decreases k - from,
{
    if from < k {
        assert(text[from] != '\n');
        the_line_ends(text, from + 1, k);
    }
}

// ------------------------------------------------------------ objects

/// An object is found by its identifier, the last of several, and only if it
/// is of the type that is looked for.
pub proof fn objects_are_found_by_identifier(v: Seq<ArchiveV>, a: ArchiveV, ty: u32, other: u64)
    ensures
        object(v.push(a), a.id) == Some(a),
        a.ty == ty ==> target(v.push(a), Some(a.id), ty) == Some(a),
        a.ty != ty ==> target(v.push(a), Some(a.id), ty) is None,
        target(v, None, ty) is None,
{
}

/// The tables of styles, depths, lists, characters and links of a storage
/// stand in its fields 5, 6, 7, 8 and 11.
pub proof fn storages_have_their_tables(v: Seq<ArchiveV>, p: Seq<u8>, i: int)
    ensures
        ({
            let t = storage_tables(v, p);
            let styles = object_table(v, p, 5, 2022);
            let characters = object_table(v, p, 8, 2021);
            let lists = object_table(v, p, 7, 2023);
            let links = object_table(v, p, 11, 2032);
            &&& t.depths == depth_entries(table_fields(p, 6), 0, seq![])
            &&& t.styles.len() == styles.len() && t.characters.len() == characters.len()
            &&& t.lists.len() == lists.len() && t.links.len() == links.len()
            &&& 0 <= i < styles.len() ==> t.styles[i].0 == styles[i].0 && (
            styles[i].1 matches Some(a) ==> t.styles[i].1 == style_name(a.payload))
            &&& 0 <= i < characters.len() ==> t.characters[i].0 == characters[i].0 && (
            characters[i].1 matches Some(a) ==> t.characters[i].1 == style_format(a.payload))
            &&& 0 <= i < links.len() ==> t.links[i].0 == links[i].0 && (
            links[i].1 matches Some(a) ==> t.links[i].1 == link_of(a.payload))
            &&& 0 <= i < lists.len() ==> t.lists[i].0 == lists[i].0
        }),
{
}

/// The text of a storage stands in its third field; of several the texts
/// follow each other.
pub proof fn texts_stand_in_the_third_field(f: Seq<FieldV>, i: int, out: Seq<char>, b: Seq<u8>)
    requires
        0 <= i < f.len(),
        f[i].value == ValueV::Bytes(b),
    ensures
        f[i].number == 3 ==> text_from(f, i, out) == text_from(f, i + 1, out + lossy(b)),
        f[i].number != 3 ==> text_from(f, i, out) == text_from(f, i + 1, out),
        text_from(f, f.len() as int, out) == out,
{
}

// ------------------------------------------------------------ older files

/// A link of an older file leads to its address and a span has the format of
/// its style; other elements leave both as they are.
pub proof fn links_and_spans_of_older_files(
    e: ElementV,
    styles: Seq<ElementV>,
    wholes: Seq<WholeV>,
    f: Option<Formatting>,
    l: Option<Seq<char>>,
)
    ensures
        !(is_sf(e, "link"@)) ==> link_in(e, l) == l,
        !(is_sf(e, "span"@)) ==> format_in(e, styles, wholes, f) == f,
        is_sf(e, "span"@) && sf(e, "style"@) is None ==> format_in(e, styles, wholes, f) == f,
        is_sf(e, "span"@) ==> (sf(e, "style"@) matches Some(key) ==> (style_named(
            styles,
            0,
            key,
        ) is None ==> format_in(e, styles, wholes, f) == f)),
{
}

/// A list level of the type `none` has no label; one with a label that draws
/// no bullet, picture or text is numbered, and any other one shows the format
/// of its label.
pub proof fn levels_of_older_files(e: ElementV, t: ElementV)
    ensures
        sf(e, "type"@) == Some("none"@) ==> level_label(e).0 == 0,
        sf(e, "type"@) is None && named(e, "text-label"@) == seq![t] && sf(t, "type"@) == Some(
            "decimal"@,
        ) ==> level_label(e).0 == 3,
        sf(e, "type"@) is None && named(e, "text-label"@) == seq![t] && sf(t, "type"@) == Some(
            "bullet"@,
        ) && sf(t, "format"@) is None ==> level_label(e) == (2u64, Seq::<char>::empty()),
        sf(e, "type"@) is None && named(e, "text-label"@) == seq![t] && sf(t, "type"@) is None && (
        sf(t, "format"@) matches Some(x) && x.len() > 0) ==> level_label(e) == (2u64, sf(
            t,
            "format"@,
        )->0),
{
    reveal_strlit("decimal");
    reveal_strlit("bullet");
    reveal_strlit("image");
    reveal_strlit("string");
    reveal_strlit("text");
    assert("decimal"@.len() == 7 && "bullet"@.len() == 6 && "image"@.len() == 5 && "string"@.len()
        == 6 && "text"@.len() == 4);
}

} // verus!
