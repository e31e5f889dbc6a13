//! Laws of the parts of a presentation: the order of its slides, its notes,
//! and the tables, charts and pictures of a slide.

use crate::document::{CaptionParent, ContentLayer, Location, NodeV};
use crate::pptx::{
    at, chart_with, images_with, notes_shape, place, rids_from, spaced_id, target_from,
    targets_from, with_frame, with_notes, with_picture, RelationV, SheetV,
};
use crate::slide::{body_text, table_of, within};
use crate::text::has_suffix;
use crate::tree::{attr_of, self_and_under, ElementV};
use vstd::prelude::*;

verus! {

/// The notes of a slide are the text of the first shape that fills the body,
/// in the layer of the notes and without a place; empty ones show nothing.
pub proof fn notes_are_furniture(root: ElementV, sp: ElementV, tx: ElementV, nodes: Seq<NodeV>)
    ensures
        with_notes(None, nodes) == nodes,
        notes_shape(self_and_under(root), 0) is None ==> with_notes(Some(root), nodes) == nodes,
        notes_shape(self_and_under(root), 0) == Some(sp) && within(sp, "txBody"@) == Some(tx)
            && body_text(tx, '\u{b}').len() > 0 ==> with_notes(Some(root), nodes) == nodes + seq![
            NodeV::Furniture {
                layer: ContentLayer::Notes,
                inner: Box::new(
                    at(
                        Location { left: 0, top: 0, right: 0, bottom: 0 },
                        NodeV::Paragraph { text: body_text(tx, '\u{b}') },
                    ),
                ),
            },
        ],
        notes_shape(self_and_under(root), 0) == Some(sp) && within(sp, "txBody"@) == Some(tx)
            && body_text(tx, '\u{b}').len() == 0 ==> with_notes(Some(root), nodes) == nodes,
{
    let n = NodeV::Furniture {
        layer: ContentLayer::Notes,
        inner: Box::new(
            at(
                Location { left: 0, top: 0, right: 0, bottom: 0 },
                NodeV::Paragraph { text: body_text(tx, '\u{b}') },
            ),
        ),
    };
    assert(nodes.push(n) =~= nodes + seq![n]);
}

proof fn identifiers_add_up(v: Seq<ElementV>, i: int, done: Seq<Seq<char>>)
    requires
        0 <= i,
    ensures
        rids_from(v, i, done) == done + rids_from(v, i, seq![]),
    decreases v.len() - i,
{
    if i < v.len() {
        match spaced_id(v[i].attrs, 0) {
            Some(id) => {
                if v[i].tag == "sldId"@ {
                    identifiers_add_up(v, i + 1, done.push(id));
                    identifiers_add_up(v, i + 1, Seq::<Seq<char>>::empty().push(id));
                    assert(done.push(id) =~= done + Seq::<Seq<char>>::empty().push(id));
                } else {
                    identifiers_add_up(v, i + 1, done);
                }
            },
            None => {
                identifiers_add_up(v, i + 1, done);
            },
        }
    } else {
        assert(done + seq![] =~= done);
    }
}

/// The slides come in the order in which the presentation names them, by the
/// identifiers in a namespace of their `sldId` elements.
pub proof fn slides_come_as_they_are_named(v: Seq<ElementV>, i: int, id: Seq<char>)
    requires
        0 <= i < v.len(),
    ensures
        v[i].tag == "sldId"@ && spaced_id(v[i].attrs, 0) == Some(id) ==> rids_from(v, i, seq![])
            == seq![id] + rids_from(v, i + 1, seq![]),
        v[i].tag != "sldId"@ ==> rids_from(v, i, seq![]) == rids_from(v, i + 1, seq![]),
        v[i].attrs.len() == 2 && v[i].attrs[0].name == "id"@ && v[i].attrs[0].namespace.len() == 0
            && v[i].attrs[1].name == "id"@ && v[i].attrs[1].namespace.len() > 0
            && v[i].attrs[1].value == id ==> spaced_id(v[i].attrs, 0) == Some(id),
        rids_from(v, v.len() as int, seq![]) == Seq::<Seq<char>>::empty(),
{
    assert(Seq::<Seq<char>>::empty().push(id) =~= seq![id]);
    identifiers_add_up(v, i + 1, seq![id]);
    reveal_with_fuel(spaced_id, 3);
}

/// The first relation of a kind leads to the part; all of them lead to the
/// parts in their order.
pub proof fn relations_lead_to_parts(
    v: Seq<RelationV>,
    i: int,
    suffix: Seq<char>,
    done: Seq<Seq<char>>,
)
    requires
        0 <= i < v.len(),
    ensures
        has_suffix(v[i].rel_type, suffix) ==> target_from(v, i, suffix) == Some(v[i].path),
        !has_suffix(v[i].rel_type, suffix) ==> target_from(v, i, suffix) == target_from(
            v,
            i + 1,
            suffix,
        ),
        has_suffix(v[i].rel_type, suffix) ==> targets_from(v, i, suffix, done) == targets_from(
            v,
            i + 1,
            suffix,
            done + seq![v[i].path],
        ),
        !has_suffix(v[i].rel_type, suffix) ==> targets_from(v, i, suffix, done) == targets_from(
            v,
            i + 1,
            suffix,
            done,
        ),
        target_from(v, v.len() as int, suffix) is None,
{
    assert(done.push(v[i].path) =~= done + seq![v[i].path]);
}

/// A frame with a table shows the table, one with a chart the chart that its
/// identifier names, both at the place of the frame.
pub proof fn frames_show_tables_and_charts(
    e: ElementV,
    t: ElementV,
    c: ElementV,
    s: SheetV,
    nodes: Seq<NodeV>,
    id: Seq<char>,
    n: NodeV,
)
    ensures
        within(e, "tbl"@) == Some(t) ==> (table_of(t) matches Some(x) ==> with_frame(e, s, nodes)
            == nodes + seq![at(place(e, s), NodeV::Table(x))]),
        within(e, "tbl"@) is None && within(e, "chart"@) == Some(c) && attr_of(c, "id"@) == Some(id)
            && chart_with(s.charts, s.charts.len() as int, id) == Some(n) ==> with_frame(
            e,
            s,
            nodes,
        ) == nodes + seq![at(place(e, s), n)],
        within(e, "tbl"@) is None && within(e, "chart"@) is None ==> with_frame(e, s, nodes)
            == nodes,
{
    if let Some(x) = table_of(t) {
        let y = at(place(e, s), NodeV::Table(x));
        assert(nodes.push(y) =~= nodes + seq![y]);
    }
    let z = at(place(e, s), n);
    assert(nodes.push(z) =~= nodes + seq![z]);
}

/// A picture has the image that its `blip` embeds, at its own place and
/// without a caption.
pub proof fn pictures_embed_their_image(
    e: ElementV,
    b: ElementV,
    s: SheetV,
    nodes: Seq<NodeV>,
    id: Seq<char>,
)
    requires
        within(e, "blip"@) == Some(b),
        attr_of(b, "embed"@) == Some(id),
    ensures
        ({
            let sources = images_with(s.relations, s.relations.len() as int, id, seq![]);
            &&& sources.len() > 0 ==> with_picture(e, s, nodes) == nodes + seq![
                at(
                    place(e, s),
                    NodeV::Picture {
                        caption: None,
                        caption_href: None,
                        caption_parent: CaptionParent::Body,
                        sources,
                    },
                ),
            ]
            &&& sources.len() == 0 ==> with_picture(e, s, nodes) == nodes
        }),
{
    let sources = images_with(s.relations, s.relations.len() as int, id, seq![]);
    let p = at(
        place(e, s),
        NodeV::Picture {
            caption: None,
            caption_href: None,
            caption_parent: CaptionParent::Body,
            sources,
        },
    );
    assert(nodes.push(p) =~= nodes + seq![p]);
}

} // verus!
