//! Laws of mainframe files: how records follow each other and which schema
//! each of them has.

use crate::document::{opt, plain_table_view, NodeV};
use crate::ebcdic::{
    body_at, body_size, chunk, codec, header_from, layout_error, length_at, nodes_from, opt_size,
    record_at, record_values, records_from, schema_from, schema_nodes, total_size, Buckets, Codec,
    EbcdicErrorV, Layout, LayoutError,
};
use vstd::prelude::*;

verus! {

/// The code pages by their names.
pub proof fn code_pages_have_names()
    ensures
        codec("cp037"@) == Some(Codec::Cp037),
        codec("cp500"@) == Some(Codec::Cp500),
        codec("cp1140"@) == Some(Codec::Cp1140),
        forall|s: Seq<char>|
            #![trigger codec(s)]
            codec(s) is Some ==> s == "cp037"@ || s == "cp500"@ || s == "cp1140"@,
{
    reveal_strlit("cp037");
    reveal_strlit("cp500");
    reveal_strlit("cp1140");
    assert("cp037"@[2] == '0' && "cp500"@[2] == '5');
    assert("cp037"@.len() == 5 && "cp500"@.len() == 5 && "cp1140"@.len() == 6);
}

proof fn schemas_are_skipped(l: Layout, t: Option<Seq<char>>, i: int, k: int)
    requires
        0 <= i <= k <= l.records@.len(),
        l.record_type_field is Some,
        forall|j: int| i <= j < k ==> opt((#[trigger] l.records@[j]).selector) != t,
    ensures
        schema_from(l, t, i) == schema_from(l, t, k),
    decreases k - i,
{
    if i < k {
        assert(opt(l.records@[i].selector) != t);
        schemas_are_skipped(l, t, i + 1, k);
    }
}

/// A record has the schema whose selector is its type; without a type field
/// it has the only schema.
pub proof fn selectors_choose_the_schema(l: Layout, t: Option<Seq<char>>, k: int)
    requires
        0 <= k <= l.records@.len(),
        forall|j: int| 0 <= j < k ==> opt((#[trigger] l.records@[j]).selector) != t,
    ensures
        l.record_type_field is Some && k < l.records@.len() && opt(l.records@[k].selector) == t
            ==> schema_from(l, t, 0) == Some(k),
        l.record_type_field is Some && k == l.records@.len() ==> schema_from(l, t, 0) is None,
        l.record_type_field is None && l.records@.len() > 0 ==> schema_from(l, t, 0) == Some(0int),
{
    if l.record_type_field is Some {
        schemas_are_skipped(l, t, 0, k);
    }
}

/// A record ends where its length says, counted from its start; without a
/// length it ends behind its type and its fields.
pub proof fn records_end_at_their_length(
    l: Layout,
    c: Codec,
    data: Seq<u8>,
    offset: int,
    end: int,
)
    requires
        record_at(l, c, data, offset, end) is Ok,
    ensures
        ({
            let r = record_at(l, c, data, offset, end)->Ok_0;
            &&& length_at(l, c, data, offset, end) matches Ok(Some(n)) ==> r.next == offset + n
            &&& l.record_length_field is None && l.record_type_field is None ==> r.next == offset
                + total_size(l.records@[r.schema].fields@)
            &&& r.next <= end
        }),
{
    let r = record_at(l, c, data, offset, end)->Ok_0;
    let length = length_at(l, c, data, offset, end)->Ok_0;
    let at = offset + opt_size(l.record_length_field) + opt_size(l.record_type_field);
    assert(body_at(l, c, data, at, end, r.schema, length) is Ok);
    assert(at == offset + l.prefix());
    assert(body_size(l, r.schema, length) is Ok);
}

/// The fields of a record without a type stand right behind its length; its
/// values are those of its fields.
pub proof fn fields_stand_behind_the_prefix(
    l: Layout,
    c: Codec,
    data: Seq<u8>,
    offset: int,
    end: int,
    values: Seq<Seq<char>>,
)
    requires
        l.record_length_field is None,
        l.record_type_field is None,
        l.records@.len() > 0,
        0 <= offset,
        offset + total_size(l.records@[0].fields@) <= end <= data.len(),
        record_values(
            l.records@[0].fields@,
            data.subrange(offset, offset + total_size(l.records@[0].fields@)),
            c,
            0,
            0,
            seq![],
        ) == Ok::<Seq<Seq<char>>, EbcdicErrorV>(values),
    ensures
        record_at(l, c, data, offset, end) matches Ok(r) && r.schema == 0 && r.values == values
            && r.next == offset + total_size(l.records@[0].fields@),
{
}

/// The size of a record is that of its fields together.
pub proof fn sizes_add_up(l: Layout, k: int, n: int)
    requires
        0 <= k < l.records@.len(),
        0 < n <= l.records@[k].fields@.len(),
    ensures
        total_size(l.records@[k].fields@.take(n)) == total_size(l.records@[k].fields@.take(n - 1))
            + l.records@[k].fields@[n - 1].size,
        total_size(l.records@[k].fields@.take(0)) == 0,
{
    let f = l.records@[k].fields@;
    assert(f.take(n).drop_last() =~= f.take(n - 1));
}

/// A piece that reaches over the end is reported with what is left and what
/// is needed; any other one is the bytes that stand there.
pub proof fn pieces_stay_inside(
    data: Seq<u8>,
    offset: int,
    size: int,
    end: int,
    name: Seq<char>,
    i: int,
)
    requires
        0 <= offset <= end <= data.len(),
        0 <= i < size,
    ensures
        offset + size > end ==> chunk(data, offset, size, end, name) == Err::<Seq<u8>, EbcdicErrorV>(
            EbcdicErrorV::Truncated { name, left: end - offset, size },
        ),
        offset + size <= end ==> (chunk(data, offset, size, end, name) matches Ok(d) && d.len()
            == size && d[i] == data[offset + i]),
{
}

/// A record is a further row of its schema, and the next one begins where it
/// ends.
pub proof fn records_follow_each_other(
    l: Layout,
    c: Codec,
    data: Seq<u8>,
    offset: int,
    end: int,
    rows: Buckets,
)
    requires
        offset < end,
        record_at(l, c, data, offset, end) matches Ok(r) && offset < r.next && 0 <= r.schema
            < rows.len(),
    ensures
        ({
            let r = record_at(l, c, data, offset, end)->Ok_0;
            records_from(l, c, data, offset, end, rows) == records_from(
                l,
                c,
                data,
                r.next,
                end,
                Seq::new(
                    rows.len(),
                    |k: int|
                        if k == r.schema {
                            rows[k] + seq![r.values]
                        } else {
                            rows[k]
                        },
                ),
            )
        }),
        records_from(l, c, data, end, end, rows) == Ok::<Buckets, EbcdicErrorV>(rows),
{
    let r = record_at(l, c, data, offset, end)->Ok_0;
    let more = Seq::new(
        rows.len(),
        |k: int|
            if k == r.schema {
                rows[k] + seq![r.values]
            } else {
                rows[k]
            },
    );
    assert(rows[r.schema].push(r.values) =~= rows[r.schema] + seq![r.values]);
    assert(rows.update(r.schema, rows[r.schema].push(r.values)) =~= more);
}

/// Every kind of record with rows is a table whose first row names the
/// fields; where there are several kinds, a heading of level two names each.
pub proof fn each_kind_is_a_table(l: Layout, k: int, rows: Seq<Seq<Seq<char>>>)
    requires
        0 <= k < l.records@.len(),
        rows.len() > 0,
    ensures
        ({
            let table = NodeV::Table(
                plain_table_view(seq![header_from(l.records@[k].fields@, 0, seq![])] + rows),
            );
            &&& l.records@.len() == 1 ==> schema_nodes(l, k, rows) == seq![table]
            &&& l.records@.len() > 1 ==> schema_nodes(l, k, rows) == seq![
                NodeV::Heading { level: 2, text: l.records@[k].name@ },
                table,
            ]
        }),
        schema_nodes(l, k, seq![]) == Seq::<NodeV>::empty(),
{
    let table = NodeV::Table(
        plain_table_view(seq![header_from(l.records@[k].fields@, 0, seq![])] + rows),
    );
    if l.records@.len() == 1 {
        assert(Seq::<NodeV>::empty().push(table) =~= seq![table]);
    } else {
        let h = NodeV::Heading { level: 2, text: l.records@[k].name@ };
        assert(seq![h].push(table) =~= seq![h, table]);
    }
}

proof fn kinds_add_up(l: Layout, rows: Buckets, k: int, done: Seq<NodeV>)
    requires
        0 <= k,
    ensures
        nodes_from(l, rows, k, done) == done + nodes_from(l, rows, k, seq![]),
    decreases l.records@.len() - k,
{
    if k < l.records@.len() {
        let one = schema_nodes(l, k, rows[k]);
        kinds_add_up(l, rows, k + 1, done + one);
        kinds_add_up(l, rows, k + 1, Seq::<NodeV>::empty() + one);
        assert(Seq::<NodeV>::empty() + one =~= one);
        assert(done + one + nodes_from(l, rows, k + 1, seq![]) =~= done + (one + nodes_from(
            l,
            rows,
            k + 1,
            seq![],
        )));
    } else {
        assert(done + seq![] =~= done);
    }
}

/// The kinds of records come in the order of the layout.
pub proof fn kinds_come_in_order(l: Layout, rows: Buckets, k: int)
    requires
        0 <= k < l.records@.len(),
    ensures
        nodes_from(l, rows, k, seq![]) == schema_nodes(l, k, rows[k]) + nodes_from(
            l,
            rows,
            k + 1,
            seq![],
        ),
        nodes_from(l, rows, l.records@.len() as int, seq![]) == Seq::<NodeV>::empty(),
{
    let one = schema_nodes(l, k, rows[k]);
    assert(Seq::<NodeV>::empty() + one =~= one);
    kinds_add_up(l, rows, k + 1, one);
}

/// A layout without records, or with a record without fields, is refused;
/// several kinds of records need a type field, and with one each kind needs a
/// selector of its own.
pub proof fn layouts_are_checked(l: Layout, i: int, j: int)
    requires
        0 <= i < j,
    ensures
        l.records@.len() == 0 ==> layout_error(l) == Some(LayoutError::NoRecords),
        i < l.records@.len() && l.records@[i].fields@.len() == 0 ==> layout_error(l) == Some(
            LayoutError::NoFields,
        ),
        layout_error(l) is None ==> l.records@.len() > 0 && (l.records@.len() > 1
            ==> l.record_type_field is Some),
        layout_error(l) is None && i < l.records@.len() ==> l.records@[i].fields@.len() > 0,
        layout_error(l) is None && i < l.records@.len() && l.record_type_field is Some
            ==> l.records@[i].selector is Some,
        layout_error(l) is None && j < l.records@.len() ==> opt(l.records@[i].selector) != opt(
            l.records@[j].selector,
        ),
{
    if i < l.records@.len() {
        let a = l.records@[i];
    }
    if j < l.records@.len() {
        let a = l.records@[j];
    }
}

} // verus!
