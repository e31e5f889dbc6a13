//! The text of a table cell that holds blocks.
//!
//! Blocks stand a blank line apart, the items of one list on lines of their
//! own. A heading is plain text, and a line break inside a text is a hard one.

use crate::document::{node_view, nodes_view, FieldItemV, Node, NodeV};
use crate::text::{chars_of, decimal, push_all, push_decimal, push_str};
use vstd::prelude::*;

verus! {

/// The text from `i` on added to `out`, with two spaces before each newline.
pub open spec fn hard_from(s: Seq<char>, i: int, out: Seq<char>) -> Seq<char>
    decreases s.len() - i,
{
    if i >= s.len() {
        out
    } else {
        hard_from(
            s,
            i + 1,
            if s[i] == '\n' {
                out + "  \n"@
            } else {
                out.push(s[i])
            },
        )
    }
}

fn push_hard(out: &mut Vec<char>, s: &Vec<char>)
    ensures
        final(out)@ == hard_from(s@, 0, old(out)@),
{
    let ghost first = out@;
    let mut i: usize = 0;
    while i < s.len()
        invariant
            i <= s@.len(),
            hard_from(s@, 0, first) == hard_from(s@, i as int, out@),
        decreases s@.len() - i,
    {
        if s[i] == '\n' {
            push_str(out, "  \n");
        } else {
            out.push(s[i]);
        }
        i += 1;
    }
}

/// The indent of a list item.
pub open spec fn indent(level: int) -> Seq<char>
    decreases level,
{
    if level <= 0 {
        seq![]
    } else {
        indent(level - 1) + "    "@
    }
}

fn push_indent(out: &mut Vec<char>, level: u8)
    ensures
        final(out)@ == old(out)@ + indent(level as int),
{
    let ghost first = out@;
    let mut k: u8 = 0;
    assert(out@ =~= first + indent(0));
    while k < level
        invariant
            k <= level,
            out@ == first + indent(k as int),
        decreases level - k,
    {
        push_str(out, "    ");
        k += 1;
        assert(out@ =~= first + indent(k as int));
    }
}

/// The parts of a field, a blank line apart.
pub open spec fn with_part(out: Seq<char>, part: Option<Seq<char>>) -> Seq<char> {
    match part {
        Some(p) => (if out.len() == 0 {
            out
        } else {
            out + "\n\n"@
        }) + p,
        None => out,
    }
}

/// The fields from `i` on added to `out`.
pub open spec fn fields_from(v: Seq<FieldItemV>, i: int, out: Seq<char>) -> Seq<char>
    decreases v.len() - i,
{
    if i >= v.len() {
        out
    } else {
        fields_from(
            v,
            i + 1,
            with_part(with_part(with_part(out, v[i].marker), v[i].key), v[i].value),
        )
    }
}

fn push_part(out: &mut Vec<char>, part: &Option<String>)
    ensures
        final(out)@ == with_part(old(out)@, crate::document::opt(*part)),
{
    match part {
        Some(p) => {
            if out.len() > 0 {
                push_str(out, "\n\n");
            }
            push_str(out, p.as_str());
        },
        None => {},
    }
}

/// The text of one block. Page furniture, tables and page breaks show
/// nothing.
pub open spec fn block_text(n: NodeV) -> Seq<char>
    decreases n,
{
    match n {
        NodeV::Heading { text, .. } => text,
        NodeV::Paragraph { text } => hard_from(text, 0, seq![]),
        NodeV::Inline { text, .. } => hard_from(text, 0, seq![]),
        NodeV::ListItem { ordered, number, text, level, .. } => indent(level as int) + (if ordered {
            decimal(number as int) + ". "@
        } else {
            "- "@
        }) + text,
        NodeV::Picture { caption, .. } => with_part(
            match caption {
                Some(c) => c,
                None => seq![],
            },
            Some("<!-- image -->"@),
        ),
        NodeV::Formula { latex, .. } => "$$"@ + latex + "$$"@,
        NodeV::Code { text, .. } => "```\n"@ + text + "\n```"@,
        NodeV::Caption { text, .. } => text,
        NodeV::CheckboxItem { checked, text } => (if checked {
            "- [x] "@
        } else {
            "- [ ] "@
        }) + text,
        NodeV::FieldRegion { items } => fields_from(items, 0, seq![]),
        NodeV::Located { inner, .. } => block_text(*inner),
        NodeV::TextDump(t) => t,
        _ => seq![],
    }
}

fn text_of_block(n: &Node) -> (r: Vec<char>)
    ensures
        r@ == block_text(node_view(*n)),
    decreases n,
{
    let mut out: Vec<char> = Vec::new();
    assert(out@ =~= seq![]);
    match n {
        Node::Heading { text, .. } => {
            push_str(&mut out, text.as_str());
        },
        Node::Paragraph { text } => {
            push_hard(&mut out, &chars_of(text.as_str()));
        },
        Node::Inline { text, .. } => {
            push_hard(&mut out, &chars_of(text.as_str()));
        },
        Node::ListItem { ordered, number, text, level, .. } => {
            push_indent(&mut out, *level);
            assert(out@ =~= indent(*level as int));
            let mut mark: Vec<char> = Vec::new();
            assert(mark@ =~= seq![]);
            if *ordered {
                push_decimal(&mut mark, *number as u128);
                push_str(&mut mark, ". ");
                assert(mark@ =~= decimal(*number as int) + ". "@);
            } else {
                push_str(&mut mark, "- ");
                assert(mark@ =~= "- "@);
            }
            push_all(&mut out, &mark);
            push_str(&mut out, text.as_str());
        },
        Node::Picture { caption, .. } => {
            match caption {
                Some(c) => {
                    push_str(&mut out, c.as_str());
                    assert(out@ =~= c@);
                },
                None => {},
            }
            if out.len() > 0 {
                push_str(&mut out, "\n\n");
            }
            push_str(&mut out, "<!-- image -->");
        },
        Node::Formula { latex, .. } => {
            push_str(&mut out, "$$");
            push_str(&mut out, latex.as_str());
            push_str(&mut out, "$$");
        },
        Node::Code { text, .. } => {
            push_str(&mut out, "```\n");
            push_str(&mut out, text.as_str());
            push_str(&mut out, "\n```");
        },
        Node::Caption { text, .. } => {
            push_str(&mut out, text.as_str());
        },
        Node::CheckboxItem { checked, text } => {
            if *checked {
                push_str(&mut out, "- [x] ");
            } else {
                push_str(&mut out, "- [ ] ");
            }
            push_str(&mut out, text.as_str());
        },
        Node::FieldRegion { items } => {
            let ghost w = crate::document::fields_view(items@);
            let mut i: usize = 0;
            while i < items.len()
                invariant
                    i <= items@.len(),
                    w == crate::document::fields_view(items@),
                    fields_from(w, 0, seq![]) == fields_from(w, i as int, out@),
                decreases items@.len() - i,
            {
                assert(w[i as int] == items@[i as int]@);
                push_part(&mut out, &items[i].marker);
                push_part(&mut out, &items[i].key);
                push_part(&mut out, &items[i].value);
                i += 1;
            }
        },
        Node::Located { inner, .. } => {
            return text_of_block(inner);
        },
        Node::TextDump(t) => {
            push_str(&mut out, t.as_str());
        },
        _ => {},
    }
    assert(out@ =~= block_text(node_view(*n)));
    out
}

/// Whether a block is a list item, and begins a list of its own.
pub open spec fn item_kind(n: NodeV) -> (bool, bool) {
    match n {
        NodeV::ListItem { first_in_list, level, .. } => (true, first_in_list && level == 0),
        _ => (false, false),
    }
}

/// The blocks from `i` on added to `out`; `list` says that a list item came
/// last.
pub open spec fn cell_from(nodes: Seq<NodeV>, i: int, list: bool, out: Seq<char>) -> Seq<char>
    decreases nodes.len() - i,
{
    if i >= nodes.len() {
        out
    } else {
        let t = block_text(nodes[i]);
        let kind = item_kind(nodes[i]);
        if t.len() == 0 {
            cell_from(nodes, i + 1, list, out)
        } else {
            cell_from(
                nodes,
                i + 1,
                kind.0,
                (if out.len() == 0 {
                    out
                } else if list && kind.0 && !kind.1 {
                    out + "\n"@
                } else {
                    out + "\n\n"@
                }) + t,
            )
        }
    }
}

/// The text of a cell's blocks.
pub open spec fn cell_text(nodes: Seq<NodeV>) -> Seq<char> {
    cell_from(nodes, 0, false, seq![])
}

/// The text of a cell's blocks.
pub fn cell_markdown(nodes: &Vec<Node>) -> (r: Vec<char>)
    ensures
        r@ == cell_text(nodes_view(nodes@)),
{
    let ghost v = nodes_view(nodes@);
    let mut out: Vec<char> = Vec::new();
    let mut list = false;
    let mut i: usize = 0;
    assert(out@ =~= seq![]);
    while i < nodes.len()
        invariant
            i <= nodes@.len(),
            v == nodes_view(nodes@),
            cell_text(v) == cell_from(v, i as int, list, out@),
        decreases nodes@.len() - i,
    {
        assert(v[i as int] == node_view(nodes@[i as int]));
        let t = text_of_block(&nodes[i]);
        let (item, first) = match &nodes[i] {
            Node::ListItem { first_in_list, level, .. } => (true, *first_in_list && *level == 0),
            _ => (false, false),
        };
        if t.len() > 0 {
            if out.len() > 0 {
                if list && item && !first {
                    push_str(&mut out, "\n");
                } else {
                    push_str(&mut out, "\n\n");
                }
            }
            push_all(&mut out, &t);
            list = item;
        }
        i += 1;
    }
    out
}

} // verus!
