//! Copies of document nodes.

use crate::document::{
    cells_view, fields_view, flags, grid, node_view, nodes_view, opt, runs_view, strs, table_view,
    FieldItem, InlineRun, Node, Table, TableStructure,
};
use crate::text::{chars_of, string_of};
use vstd::prelude::*;

verus! {

/// A copy of a text.
pub fn copy_text(s: &String) -> (r: String)
    ensures
        r@ == s@,
{
    string_of(&chars_of(s.as_str()))
}

/// A copy of an optional text.
pub fn copy_opt_text(s: &Option<String>) -> (r: Option<String>)
    ensures
        opt(r) == opt(*s),
{
    match s {
        Some(x) => Some(copy_text(x)),
        None => None,
    }
}

/// A copy of texts.
pub fn copy_texts(v: &Vec<String>) -> (r: Vec<String>)
    ensures
        strs(r@) == strs(v@),
{
    let mut out: Vec<String> = Vec::new();
    let mut i: usize = 0;
    while i < v.len()
        invariant
            i <= v@.len(),
            out@.len() == i,
            forall|k: int| 0 <= k < i ==> (#[trigger] out@[k])@ == v@[k]@,
        decreases v@.len() - i,
    {
        out.push(copy_text(&v[i]));
        i += 1;
    }
    assert(strs(out@) =~= strs(v@));
    out
}

fn copy_rows(v: &Vec<Vec<String>>) -> (r: Vec<Vec<String>>)
    ensures
        grid(r@) == grid(v@),
{
    let mut out: Vec<Vec<String>> = Vec::new();
    let mut i: usize = 0;
    while i < v.len()
        invariant
            i <= v@.len(),
            out@.len() == i,
            forall|k: int| 0 <= k < i ==> strs((#[trigger] out@[k])@) == strs(v@[k]@),
        decreases v@.len() - i,
    {
        out.push(copy_texts(&v[i]));
        i += 1;
    }
    assert(grid(out@) =~= grid(v@));
    out
}

fn copy_flag_row(v: &Vec<bool>) -> (r: Vec<bool>)
    ensures
        r@ == v@,
{
    let mut out: Vec<bool> = Vec::new();
    let mut i: usize = 0;
    while i < v.len()
        invariant
            i <= v@.len(),
            out@ == v@.take(i as int),
        decreases v@.len() - i,
    {
        out.push(v[i]);
        i += 1;
        assert(out@ =~= v@.take(i as int));
    }
    assert(out@ =~= v@);
    out
}

fn copy_flags(v: &Vec<Vec<bool>>) -> (r: Vec<Vec<bool>>)
    ensures
        flags(r@) == flags(v@),
{
    let mut out: Vec<Vec<bool>> = Vec::new();
    let mut i: usize = 0;
    while i < v.len()
        invariant
            i <= v@.len(),
            out@.len() == i,
            forall|k: int| 0 <= k < i ==> (#[trigger] out@[k])@ == v@[k]@,
        decreases v@.len() - i,
    {
        out.push(copy_flag_row(&v[i]));
        i += 1;
    }
    assert(flags(out@) =~= flags(v@));
    out
}

fn copy_structure(s: &TableStructure) -> (r: TableStructure)
    ensures
        r@ == s@,
{
    TableStructure {
        header_row: copy_flag_row(&s.header_row),
        col_header: copy_flags(&s.col_header),
        row_header: copy_flags(&s.row_header),
        col_continuation: copy_flags(&s.col_continuation),
        row_continuation: copy_flags(&s.row_continuation),
    }
}

fn copy_runs(v: &Vec<InlineRun>) -> (r: Vec<InlineRun>)
    ensures
        runs_view(r@) == runs_view(v@),
{
    let mut out: Vec<InlineRun> = Vec::new();
    let mut i: usize = 0;
    while i < v.len()
        invariant
            i <= v@.len(),
            out@.len() == i,
            forall|k: int| 0 <= k < i ==> (#[trigger] out@[k])@ == v@[k]@,
        decreases v@.len() - i,
    {
        let x = &v[i];
        out.push(
            InlineRun {
                text: copy_text(&x.text),
                bold: x.bold,
                italic: x.italic,
                underline: x.underline,
                strike: x.strike,
                script: x.script,
                code: x.code,
                formula: x.formula,
            },
        );
        i += 1;
    }
    assert(runs_view(out@) =~= runs_view(v@));
    out
}

fn copy_fields(v: &Vec<FieldItem>) -> (r: Vec<FieldItem>)
    ensures
        fields_view(r@) == fields_view(v@),
{
    let mut out: Vec<FieldItem> = Vec::new();
    let mut i: usize = 0;
    while i < v.len()
        invariant
            i <= v@.len(),
            out@.len() == i,
            forall|k: int| 0 <= k < i ==> (#[trigger] out@[k])@ == v@[k]@,
        decreases v@.len() - i,
    {
        let x = &v[i];
        out.push(
            FieldItem {
                marker: copy_opt_text(&x.marker),
                key: copy_opt_text(&x.key),
                value: copy_opt_text(&x.value),
            },
        );
        i += 1;
    }
    assert(fields_view(out@) =~= fields_view(v@));
    out
}

fn copy_places(v: &Vec<usize>) -> (r: Vec<usize>)
    ensures
        r@ == v@,
{
    let mut out: Vec<usize> = Vec::new();
    let mut i: usize = 0;
    while i < v.len()
        invariant
            i <= v@.len(),
            out@ == v@.take(i as int),
        decreases v@.len() - i,
    {
        out.push(v[i]);
        assert(out@ =~= v@.take(i + 1));
        i += 1;
    }
    assert(v@.take(i as int) =~= v@);
    out
}

/// A copy of a node.
pub fn copy_node(n: &Node) -> (r: Node)
    ensures
        node_view(r) == node_view(*n),
    decreases n,
{
    match n {
        Node::Heading { level, text } => Node::Heading { level: *level, text: copy_text(text) },
        Node::Paragraph { text } => Node::Paragraph { text: copy_text(text) },
        Node::Inline { text, runs, unwrapped } => Node::Inline {
            text: copy_text(text),
            runs: copy_runs(runs),
            unwrapped: *unwrapped,
        },
        Node::ListItem {
            ordered,
            number,
            first_in_list,
            text,
            level,
            marker,
            href,
            layer,
        } => Node::ListItem {
            ordered: *ordered,
            number: *number,
            first_in_list: *first_in_list,
            text: copy_text(text),
            level: *level,
            marker: copy_opt_text(marker),
            href: copy_opt_text(href),
            layer: *layer,
        },
        Node::Table(t) => Node::Table(copy_table(t)),
        Node::Picture { caption, caption_href, caption_parent, sources } => Node::Picture {
            caption: copy_opt_text(caption),
            caption_href: copy_opt_text(caption_href),
            caption_parent: *caption_parent,
            sources: copy_texts(sources),
        },
        Node::Formula { latex, orig } => Node::Formula {
            latex: copy_text(latex),
            orig: copy_text(orig),
        },
        Node::Code { language, text } => Node::Code {
            language: copy_opt_text(language),
            text: copy_text(text),
        },
        Node::Caption { text, href } => Node::Caption {
            text: copy_text(text),
            href: copy_opt_text(href),
        },
        Node::CheckboxItem { checked, text } => Node::CheckboxItem {
            checked: *checked,
            text: copy_text(text),
        },
        Node::FieldRegion { items } => Node::FieldRegion { items: copy_fields(items) },
        Node::Furniture { layer, inner } => Node::Furniture {
            layer: *layer,
            inner: Box::new(copy_node(inner)),
        },
        Node::Located { location, inner } => Node::Located {
            location: *location,
            inner: Box::new(copy_node(inner)),
        },
        Node::TextDump(t) => Node::TextDump(copy_text(t)),
        Node::Chart { kind, table } => Node::Chart {
            kind: copy_text(kind),
            table: copy_table(table),
        },
        Node::Commented { comments, inner } => Node::Commented {
            comments: copy_places(comments),
            inner: Box::new(copy_node(inner)),
        },
        Node::Comment { text } => Node::Comment { text: copy_text(text) },
        Node::PageBreak => Node::PageBreak,
    }
}

/// A copy of nodes.
pub fn copy_nodes(v: &Vec<Node>) -> (r: Vec<Node>)
    ensures
        nodes_view(r@) == nodes_view(v@),
    decreases v,
{
    let mut out: Vec<Node> = Vec::new();
    let mut i: usize = 0;
    while i < v.len()
        invariant
            i <= v@.len(),
            out@.len() == i,
            forall|k: int| 0 <= k < i ==> node_view(#[trigger] out@[k]) == node_view(v@[k]),
        decreases v@.len() - i,
    {
        let x = copy_node(&v[i]);
        out.push(x);
        i += 1;
    }
    assert(nodes_view(out@) =~= nodes_view(v@));
    out
}

fn copy_cells(v: &Vec<Vec<Node>>) -> (r: Vec<Vec<Node>>)
    ensures
        cells_view(r@) == cells_view(v@),
    decreases v,
{
    let mut out: Vec<Vec<Node>> = Vec::new();
    let mut i: usize = 0;
    while i < v.len()
        invariant
            i <= v@.len(),
            out@.len() == i,
            forall|k: int| 0 <= k < i ==> nodes_view((#[trigger] out@[k])@) == nodes_view(v@[k]@),
        decreases v@.len() - i,
    {
        let x = copy_nodes(&v[i]);
        out.push(x);
        i += 1;
    }
    assert(cells_view(out@) =~= cells_view(v@));
    out
}

fn copy_blocks(v: &Vec<Vec<Vec<Node>>>) -> (r: Vec<Vec<Vec<Node>>>)
    ensures
        r@.len() == v@.len(),
        forall|k: int| 0 <= k < v@.len() ==> cells_view((#[trigger] r@[k])@) == cells_view(v@[k]@),
    decreases v,
{
    let mut out: Vec<Vec<Vec<Node>>> = Vec::new();
    let mut i: usize = 0;
    while i < v.len()
        invariant
            i <= v@.len(),
            out@.len() == i,
            forall|k: int| 0 <= k < i ==> cells_view((#[trigger] out@[k])@) == cells_view(v@[k]@),
        decreases v@.len() - i,
    {
        let x = copy_cells(&v[i]);
        out.push(x);
        i += 1;
    }
    out
}

/// A copy of a table.
pub fn copy_table(t: &Table) -> (r: Table)
    ensures
        table_view(r) == table_view(*t),
    decreases t,
{
    let structure = match &t.structure {
        Some(s) => Some(copy_structure(s)),
        None => None,
    };
    let cell_blocks = match &t.cell_blocks {
        Some(b) => Some(copy_blocks(b)),
        None => None,
    };
    let r = Table {
        rows: copy_rows(&t.rows),
        structure,
        cell_blocks,
        caption: copy_opt_text(&t.caption),
        caption_parent: t.caption_parent,
    };
    assert(table_view(r).cell_blocks == table_view(*t).cell_blocks) by {
        match (table_view(r).cell_blocks, table_view(*t).cell_blocks) {
            (Some(a), Some(b)) => {
                assert(a =~= b);
            },
            _ => {},
        }
    }
    r
}

} // verus!
