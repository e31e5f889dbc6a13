//! Laws of the lists, groups, tables and code of documents in JSON.

use crate::docling_json::{
    caption, caption_parent, is_furniture, is_numbered, kept_text, label, language, list_item,
    picture_sources, raw_text, ref_list, ref_path, ref_text, ref_texts, resolved, rows_of,
    section_level, table_of, walked, walked_all, with_code, with_group, with_list, with_table,
    with_text,
};
use crate::document::NodeV;
use crate::jats::next_level;
use crate::json::{member, number_at, range, JsonItemV};
use crate::text::{has_prefix, joined};
use vstd::prelude::*;

verus! {

/// The children of an item are shown one after the other.
pub proof fn children_come_in_order(
    v: Seq<JsonItemV>,
    i: int,
    end: int,
    level: u8,
    depth: int,
    nodes: Seq<NodeV>,
)
    requires
        i < end,
    ensures
        walked_all(v, i, end, level, depth, nodes) == walked_all(
            v,
            i + 1,
            end,
            level,
            depth,
            walked(v, i, level, depth, nodes),
        ),
        walked_all(v, end, end, level, depth, nodes) == nodes,
{
}

/// An item of a list is numbered by its place among its siblings, from one on,
/// with its children one level deeper; only the first one that is shown opens
/// the list. A group in a list lies one level deeper, and anything else shows
/// nothing there.
pub proof fn items_are_counted_by_place(
    v: Seq<JsonItemV>,
    from: int,
    i: int,
    end: int,
    level: u8,
    depth: int,
    first: bool,
    nodes: Seq<NodeV>,
    item: int,
)
    requires
        0 <= from <= i < end <= v.len(),
        v.len() < u64::MAX,
    ensures
        !has_prefix(ref_text(v, Some(i)), "#/groups/"@) && resolved(v, Some(i)) == Some(item)
            && label(v, item) == Some("list_item"@) && !is_furniture(v, item) ==> with_list(
            v,
            from,
            i,
            end,
            level,
            depth,
            first,
            nodes,
        ) == with_list(
            v,
            from,
            i + 1,
            end,
            level,
            depth,
            false,
            walked_all(
                v,
                range(v, member(v, Some(item), "children"@)).0,
                range(v, member(v, Some(item), "children"@)).1,
                if level < 255 {
                    (level + 1) as u8
                } else {
                    255
                },
                depth,
                nodes + seq![
                    list_item(v, item, (1 + i - from) as u64, is_numbered(v, from, end), first, level),
                ],
            ),
        ),
        has_prefix(ref_text(v, Some(i)), "#/groups/"@) ==> with_list(
            v,
            from,
            i,
            end,
            level,
            depth,
            first,
            nodes,
        ) == with_list(
            v,
            from,
            i + 1,
            end,
            level,
            depth,
            first,
            walked(
                v,
                i,
                if level < 255 {
                    (level + 1) as u8
                } else {
                    255
                },
                depth,
                nodes,
            ),
        ),
        !has_prefix(ref_text(v, Some(i)), "#/groups/"@) && resolved(v, Some(i)) is None
            ==> with_list(v, from, i, end, level, depth, first, nodes) == with_list(
            v,
            from,
            i + 1,
            end,
            level,
            depth,
            first,
            nodes,
        ),
{
    let x = list_item(v, item, (1 + i - from) as u64, is_numbered(v, from, end), first, level);
    assert(nodes.push(x) =~= nodes + seq![x]);
    let up: u8 = if level < 255 {
        (level + 1) as u8
    } else {
        255
    };
    assert(next_level(level) == up);
}

/// A group is a list, one line of text, or only what it holds.
pub proof fn groups_show_what_they_hold(
    v: Seq<JsonItemV>,
    item: int,
    level: u8,
    depth: int,
    nodes: Seq<NodeV>,
)
    ensures
        ({
            let p = range(v, member(v, Some(item), "children"@));
            let line = joined(ref_texts(v, p.0, p.1, true, seq![]), " "@);
            &&& label(v, item) == Some("list"@) || label(v, item) == Some("ordered_list"@)
                ==> with_group(v, item, level, depth, nodes) == with_list(
                v,
                p.0,
                p.0,
                p.1,
                level,
                depth,
                true,
                nodes,
            )
            &&& label(v, item) == Some("inline"@) && line.len() > 0 ==> with_group(
                v,
                item,
                level,
                depth,
                nodes,
            ) == nodes + seq![NodeV::Paragraph { text: line }]
            &&& label(v, item) is None || label(v, item) == Some("section"@) ==> with_group(
                v,
                item,
                level,
                depth,
                nodes,
            ) == walked_all(v, p.0, p.1, level, depth, nodes)
        }),
{
    reveal_strlit("list");
    reveal_strlit("ordered_list");
    reveal_strlit("inline");
    reveal_strlit("section");
    reveal_strlit("unspecified");
    assert("list"@.len() == 4 && "ordered_list"@.len() == 12 && "inline"@.len() == 6
        && "section"@.len() == 7 && "unspecified"@.len() == 11);
    let p = range(v, member(v, Some(item), "children"@));
    let line = joined(ref_texts(v, p.0, p.1, true, seq![]), " "@);
    let n = NodeV::Paragraph { text: line };
    assert(nodes.push(n) =~= nodes + seq![n]);
}

/// A reference says by its beginning what it leads to: a text with its
/// children behind it, a group, a table or a picture.
pub proof fn references_say_what_they_lead_to(
    v: Seq<JsonItemV>,
    r: int,
    item: int,
    level: u8,
    depth: int,
    nodes: Seq<NodeV>,
)
    requires
        depth > 0,
        resolved(v, Some(r)) == Some(item),
        !is_furniture(v, item),
    ensures
        ({
            let kind = ref_text(v, Some(r));
            let p = range(v, member(v, Some(item), "children"@));
            &&& has_prefix(kind, "#/texts/"@) ==> walked(v, r, level, depth, nodes) == walked_all(
                v,
                p.0,
                p.1,
                level,
                depth - 1,
                with_text(v, item, level, nodes),
            )
            &&& has_prefix(kind, "#/groups/"@) ==> walked(v, r, level, depth, nodes) == with_group(
                v,
                item,
                level,
                depth - 1,
                nodes,
            )
            &&& has_prefix(kind, "#/tables/"@) ==> walked(v, r, level, depth, nodes) == with_table(
                v,
                item,
                nodes,
            )
            &&& has_prefix(kind, "#/pictures/"@) ==> walked(v, r, level, depth, nodes) == nodes
                + seq![
                NodeV::Picture {
                    caption: caption(v, item),
                    caption_href: None,
                    caption_parent: caption_parent(v, item),
                    sources: picture_sources(
                        v,
                        item,
                        ref_list(ref_path(v, Some(r))->0) == "pictures"@,
                    ),
                },
            ]
        }),
        walked(v, r, level, 0, nodes) == nodes,
{
    reveal_strlit("#/texts/");
    reveal_strlit("#/groups/");
    reveal_strlit("#/tables/");
    reveal_strlit("#/pictures/");
    let kind = ref_text(v, Some(r));
    if has_prefix(kind, "#/texts/"@) {
        assert(kind.take(8)[2] == 't' && kind.take(8)[3] == 'e');
    }
    if has_prefix(kind, "#/groups/"@) {
        assert(kind.take(9)[2] == 'g');
    }
    if has_prefix(kind, "#/tables/"@) {
        assert(kind.take(9)[2] == 't' && kind.take(9)[3] == 'a');
    }
    if has_prefix(kind, "#/pictures/"@) {
        assert(kind.take(11)[2] == 'p');
    }
    let n = NodeV::Picture {
        caption: caption(v, item),
        caption_href: None,
        caption_parent: caption_parent(v, item),
        sources: picture_sources(v, item, ref_list(ref_path(v, Some(r))->0) == "pictures"@),
    };
    assert(nodes.push(n) =~= nodes + seq![n]);
}

/// A table with rows is shown. Code has its caption behind it.
pub proof fn tables_and_code_are_shown(v: Seq<JsonItemV>, item: int, nodes: Seq<NodeV>)
    ensures
        rows_of(v, item).rows.len() > 0 ==> with_table(v, item, nodes) == nodes + seq![
            NodeV::Table(table_of(v, item)),
        ],
        rows_of(v, item).rows.len() == 0 ==> with_table(v, item, nodes) == nodes,
        caption(v, item) is None ==> with_code(v, item, nodes) == nodes + seq![
            NodeV::Code { language: language(v, item), text: raw_text(v, item) },
        ],
        caption(v, item) matches Some(c) ==> with_code(v, item, nodes) == nodes + seq![
            NodeV::Code { language: language(v, item), text: raw_text(v, item) },
            NodeV::Paragraph { text: c },
        ],
{
    let t = NodeV::Table(table_of(v, item));
    assert(nodes.push(t) =~= nodes + seq![t]);
    let c = NodeV::Code { language: language(v, item), text: raw_text(v, item) };
    assert(nodes.push(c) =~= nodes + seq![c]);
    if let Some(x) = caption(v, item) {
        let d = NodeV::Paragraph { text: x };
        assert(nodes.push(c).push(d) =~= nodes + seq![c, d]);
    }
}

/// A kept marker stands before the text of its item.
pub proof fn kept_markers_stand_before_the_text(m: Seq<char>, s: Seq<char>)
    ensures
        kept_text(None, s) == s,
        kept_text(Some(m), seq![]) == m,
        s.len() > 0 ==> kept_text(Some(m), s) == m.push(' ') + s,
{
    reveal_strlit(" ");
    assert(m + " "@ + s =~= m.push(' ') + s);
}

/// A section header lies one level below the title that its level counts
/// from; without a level it is the first below the title.
pub proof fn section_levels_count_from_the_title(v: Seq<JsonItemV>, item: int, n: u64)
    ensures
        number_at(v, member(v, Some(item), "level"@)) is None ==> section_level(v, item) == 2,
        number_at(v, member(v, Some(item), "level"@)) == Some(n) && n < 255 ==> section_level(
            v,
            item,
        ) == n + 1,
{
}

} // verus!
