//! Laws of interchange files: what tells them apart, what their values are
//! and what they are turned into.

use crate::document::grid;
use crate::interchange::{
    dbf_table, dif_cells, dif_number, dif_start, is_conversion, is_dbf, kind_of, sylk_cells,
    sylk_value, Converted, InterchangeError, Kind,
};
use crate::sheet::{is_regions, tables_view, CellV};
use crate::text::{has_prefix, lines_of, lstrip, strip};
use vstd::prelude::*;

verus! {

/// A value in quotes is a text, without the quotes; any other one is a
/// number.
pub proof fn quoted_values_are_texts(s: Seq<char>)
    ensures
        sylk_value(seq!['"'] + s.push('"')) == CellV::Text(s),
        s.len() > 0 && s[0] != '"' ==> sylk_value(s) == CellV::Numeral(s),
{
    let q = seq!['"'] + s.push('"');
    assert(q.skip(1) =~= s.push('"'));
    assert(s.push('"').drop_last() =~= s);
}

/// A text that begins with `ID;` is a SYLK file, one whose first line is
/// `TABLE` is a DIF file, and bytes that begin as a dBase header are one;
/// anything else is refused.
pub proof fn files_are_told_apart(t: Seq<char>, d: Seq<u8>, r: Result<Converted, InterchangeError>)
    ensures
        has_prefix(lstrip(t), "ID;"@) ==> kind_of(Some(t), d) == Some(Kind::Sylk),
        !has_prefix(lstrip(t), "ID;"@) && lines_of(t).len() > 0 && strip(lines_of(t)[0])
            == "TABLE"@ ==> kind_of(Some(t), d) == Some(Kind::Dif),
        kind_of(None, d) == (if is_dbf(d) {
            Some(Kind::Dbf)
        } else {
            None
        }),
        d.len() < 32 ==> !is_dbf(d),
        is_dbf(d) ==> 1 <= d[2] <= 12 && 1 <= d[3] <= 31,
        d.len() >= 32 && d[0] == 3 && 1 <= d[2] <= 12 && 1 <= d[3] <= 31 ==> is_dbf(d),
        kind_of(Some(t), d) is None && is_conversion(Some(t), d, r) ==> r
            == Err::<Converted, InterchangeError>(InterchangeError::Unknown),
{
}

/// A SYLK file becomes the regions of its cells, and so does a DIF file, which
/// is refused if it has no data; a dBase file becomes one table.
pub proof fn files_become_tables(t: Seq<char>, d: Seq<u8>, r: Result<Converted, InterchangeError>)
    requires
        is_conversion(Some(t), d, r),
    ensures
        kind_of(Some(t), d) == Some(Kind::Sylk) ==> (r matches Ok(Converted::Sheet(v))
            && is_regions(sylk_cells(lines_of(t), 0, 1, 1, Map::empty()), tables_view(v@))),
        kind_of(Some(t), d) == Some(Kind::Dif) && dif_start(lines_of(t), 0) is None ==> r == Err::<
            Converted,
            InterchangeError,
        >(InterchangeError::NoData),
        kind_of(Some(t), d) == Some(Kind::Dif) ==> (dif_start(lines_of(t), 0) matches Some(i) ==> (
        r matches Ok(Converted::Sheet(v)) && is_regions(
            dif_cells(lines_of(t), i, 0, 0, false, Map::empty()),
            tables_view(v@),
        ))),
        kind_of(Some(t), d) == Some(Kind::Dbf) && dbf_table(d) is Ok ==> (r matches Ok(
            Converted::Table(v),
        ) && grid(v@) == dbf_table(d)->Ok_0),
{
}

proof fn headers_are_skipped(v: Seq<Seq<char>>, n: int, k: int)
    requires
        0 <= k <= n,
        3 * n < v.len(),
        forall|i: int| 0 <= i < n ==> strip(#[trigger] v[3 * i]) != "DATA"@,
    ensures
        dif_start(v, 3 * k) == dif_start(v, 3 * n),
    decreases n - k,
{
    if k < n {
        assert(strip(v[3 * k]) != "DATA"@);
        headers_are_skipped(v, n, k + 1);
        assert(3 * k + 3 == 3 * (k + 1));
    }
}

/// The data of a DIF file begin three lines behind the header item `DATA`;
/// header items have three lines each.
pub proof fn data_begin_behind_the_header(v: Seq<Seq<char>>, n: int)
    requires
        0 <= n,
        3 * n < v.len(),
        strip(v[3 * n]) == "DATA"@,
        forall|i: int| 0 <= i < n ==> strip(#[trigger] v[3 * i]) != "DATA"@,
    ensures
        dif_start(v, 0) == Some(3 * n + 3),
{
    headers_are_skipped(v, n, 0);
}

/// A number pair shows its number, unless its value says that it is missing,
/// an error or a truth value.
pub proof fn number_pairs_show_their_number(a: Seq<char>, b: Seq<char>)
    ensures
        strip(b) == "V"@ ==> dif_number(a, b) == CellV::Numeral(strip(a)),
        strip(b) == "NA"@ || strip(b) == "ERROR"@ || strip(b) == "TRUE"@ || strip(b) == "FALSE"@
            ==> dif_number(a, b) == CellV::Text(strip(b)),
{
    reveal_strlit("V");
    reveal_strlit("NA");
    reveal_strlit("ERROR");
    reveal_strlit("TRUE");
    reveal_strlit("FALSE");
    assert("V"@.len() == 1 && "NA"@.len() == 2 && "ERROR"@.len() == 5 && "TRUE"@.len() == 4
        && "FALSE"@.len() == 5);
}

} // verus!
