//! The content of an OpenDocument file.

use crate::cell::{cell_markdown, cell_text};
use crate::document::{
    heading, node_view, nodes_view, push_node, strs, table_view, CaptionParent, Node, NodeV, Table,
    TableV,
};
use crate::duplicate::copy_table;
use crate::html::full_rows;
use crate::htmltable::{rendered_view, rendered_view_push, Rendered, RenderedV};
use crate::odf::{
    clean_lines, collect_runs, inline_runs, is_named, list_styles_from, list_styles_view, number_or,
    one_line, para_runs, parse_styles, runs_text, runs_to_inline, runs_to_text, space_count, spaces,
    styles_from, styles_view, ListStyle, ListStyleV, Style, StyleV,
};
use crate::odflist::{
    add_odf_list, cont_view, is_list, is_list_tag, list_has_renderable, listed, renderable, ContV,
    ListCont,
};
use crate::odftable::{laid_out, lay_out, repeat, times};
use crate::text::{
    chars_of, chars_or_empty, copy, decimal, has_prefix, is, is_white, join, joined, lowered,
    or_empty, push_decimal, push_str, same, slice, starts_with, str_eq, string_of, strip, texts,
    texts_push, to_lower, trim, white,
};
use crate::tree::{
    all_text, attr, attr_of, child, child_of, descendants, either_kids, either_kids_of, find_tagged,
    first_tagged, has_descendant, has_tag, has_under, head, head_of, kids, kids_of, opt_str,
    refs_view, root_of, self_and_descendants, self_and_under, text_of, tree_view, trees_view, under,
    Element, ElementV, Tree, TreeV,
};
use crate::parse::{parse_xml, xml_items, xml_root, XmlError};
use crate::sheet::{is_regions, tables_view, Cell, CellV, Grid};
use vstd::prelude::*;

verus! {

// ------------------------------------------------------------ context

/// An embedded chart: the object's name, the chart's kind and its data.
pub struct Chart {
    pub name: Vec<char>,
    pub kind: Vec<char>,
    pub table: Table,
}

/// View of a [`Chart`].
#[verifier::ext_equal]
pub struct ChartV {
    pub name: Seq<char>,
    pub kind: Seq<char>,
    pub table: TableV,
}

impl View for Chart {
    type V = ChartV;

    open spec fn view(&self) -> ChartV {
        ChartV { name: self.name@, kind: self.kind@, table: table_view(self.table) }
    }
}

/// Views of charts.
pub open spec fn charts_view(v: Seq<Chart>) -> Seq<ChartV> {
    Seq::new(v.len(), |i: int| v[i]@)
}

/// What is known of a document: its styles, its embedded charts, the names of
/// the parts of its package, and the addresses whose images were fetched.
pub struct Odf {
    pub styles: Vec<Style>,
    pub lists: Vec<ListStyle>,
    pub charts: Vec<Chart>,
    pub parts: Option<Vec<Vec<char>>>,
    pub fetched: Vec<Vec<char>>,
}

/// View of an [`Odf`].
#[verifier::ext_equal]
pub struct OdfV {
    pub styles: Seq<StyleV>,
    pub lists: Seq<ListStyleV>,
    pub charts: Seq<ChartV>,
    pub parts: Option<Seq<Seq<char>>>,
    pub fetched: Seq<Seq<char>>,
}

impl View for Odf {
    type V = OdfV;

    open spec fn view(&self) -> OdfV {
        OdfV {
            styles: styles_view(self.styles@),
            lists: list_styles_view(self.lists@),
            charts: charts_view(self.charts@),
            parts: match self.parts {
                Some(p) => Some(texts(p@)),
                None => None,
            },
            fetched: texts(self.fetched@),
        }
    }
}

// ------------------------------------------------------------ images

/// A name without the `./` before it.
pub open spec fn undotted(s: Seq<char>) -> Seq<char>
    decreases s.len(),
{
    if has_prefix(s, "./"@) && "./"@.len() > 0 {
        undotted(s.skip("./"@.len() as int))
    } else {
        s
    }
}

fn trim_dots(s: &Vec<char>) -> (r: Vec<char>)
    ensures
        r@ == undotted(s@),
{
    let mut out = copy(s);
    proof {
        reveal_strlit("./");
        assert("./"@.len() == 2);
    }
    while starts_with(&out, "./")
        invariant
            undotted(s@) == undotted(out@),
            "./"@.len() == 2,
        decreases out@.len(),
    {
        let next = slice(&out, 2, out.len());
        assert(next@ =~= out@.skip(2));
        out = next;
    }
    out
}

/// A name without the `#` before it.
pub open spec fn unhashed(s: Seq<char>) -> Seq<char>
    decreases s.len(),
{
    if s.len() > 0 && s[0] == '#' {
        unhashed(s.skip(1))
    } else {
        s
    }
}

fn trim_hashes(s: &Vec<char>) -> (r: Vec<char>)
    ensures
        r@ == unhashed(s@),
{
    let mut i: usize = 0;
    assert(s@.skip(0) =~= s@);
    while i < s.len() && s[i] == '#'
        invariant
            i <= s@.len(),
            unhashed(s@) == unhashed(s@.skip(i as int)),
        decreases s@.len() - i,
    {
        assert(s@.skip(i as int).skip(1) =~= s@.skip(i + 1));
        i += 1;
    }
    let r = slice(s, i, s.len());
    assert(r@ =~= s@.skip(i as int));
    r
}

/// The value of a character of base 64, or 64.
pub open spec fn sextet(c: char) -> int {
    if 'A' <= c <= 'Z' {
        c as int - 'A' as int
    } else if 'a' <= c <= 'z' {
        c as int - 'a' as int + 26
    } else if '0' <= c <= '9' {
        c as int - '0' as int + 52
    } else if c == '+' {
        62
    } else if c == '/' {
        63
    } else {
        64
    }
}

/// The byte at `i` of a text in base 64.
pub open spec fn byte_at(s: Seq<char>, i: int) -> int {
    let k = 4 * (i / 3);
    if i % 3 == 0 {
        sextet(s[k]) * 4 + sextet(s[k + 1]) / 16
    } else if i % 3 == 1 {
        (sextet(s[k + 1]) % 16) * 16 + sextet(s[k + 2]) / 4
    } else {
        (sextet(s[k + 2]) % 4) * 64 + sextet(s[k + 3])
    }
}

/// How many bytes a number of base 64 characters makes.
pub open spec fn byte_count(n: int) -> int {
    (n / 4) * 3 + if n % 4 == 2 {
        1int
    } else if n % 4 == 3 {
        2int
    } else {
        0int
    }
}

/// A text without the padding behind it.
pub open spec fn unpadded(s: Seq<char>) -> Seq<char>
    decreases s.len(),
{
    if s.len() > 0 && s[s.len() - 1] == '=' {
        unpadded(s.drop_last())
    } else {
        s
    }
}

/// The bytes of a text in base 64; none where it is not valid.
pub open spec fn from_base64(s: Seq<char>) -> Option<Seq<int>> {
    let t = unpadded(s);
    if t.len() % 4 == 1 || exists|i: int| 0 <= i < t.len() && sextet(#[trigger] t[i]) == 64 {
        None
    } else {
        Some(Seq::new(byte_count(t.len() as int) as nat, |i: int| byte_at(t, i)))
    }
}

fn sextet_of(c: char) -> (r: u32)
    ensures
        r == sextet(c),
        r <= 64,
{
    if 'A' <= c && c <= 'Z' {
        c as u32 - 'A' as u32
    } else if 'a' <= c && c <= 'z' {
        c as u32 - 'a' as u32 + 26
    } else if '0' <= c && c <= '9' {
        c as u32 - '0' as u32 + 52
    } else if c == '+' {
        62
    } else if c == '/' {
        63
    } else {
        64
    }
}

/// View of decoded bytes.
pub open spec fn ints(o: Option<Vec<u32>>) -> Option<Seq<int>> {
    match o {
        Some(v) => Some(Seq::new(v@.len(), |i: int| v@[i] as int)),
        None => None,
    }
}

/// The bytes of a text in base 64.
pub fn decode_base64(s: &Vec<char>) -> (r: Option<Vec<u32>>)
    ensures
        ints(r) == from_base64(s@),
{
    let mut n: usize = s.len();
    assert(s@.take(n as int) =~= s@);
    while n > 0 && s[n - 1] == '='
        invariant
            n <= s@.len(),
            unpadded(s@) == unpadded(s@.take(n as int)),
        decreases n,
    {
        assert(s@.take(n as int).drop_last() =~= s@.take(n - 1));
        n -= 1;
    }
    let ghost t = s@.take(n as int);
    if n % 4 == 1 {
        return None;
    }
    let mut v: Vec<u32> = Vec::new();
    let mut i: usize = 0;
    while i < n
        invariant
            i <= n <= s@.len(),
            t == s@.take(n as int),
            unpadded(s@) == t,
            n % 4 != 1,
            v@.len() == i,
            forall|k: int| 0 <= k < i ==> #[trigger] v@[k] == sextet(t[k]) && v@[k] < 64,
        decreases n - i,
    {
        let x = sextet_of(s[i]);
        assert(t[i as int] == s@[i as int]);
        if x == 64 {
            assert(sextet(t[i as int]) == 64);
            return None;
        }
        v.push(x);
        i += 1;
    }
    let extra: usize = if n % 4 == 2 {
        1
    } else if n % 4 == 3 {
        2
    } else {
        0
    };
    let count: usize = (n / 4) * 3 + extra;
    let mut out: Vec<u32> = Vec::new();
    let mut j: usize = 0;
    while j < count
        invariant
            j <= count,
            count == byte_count(n as int),
            n == t.len(),
            v@.len() == n,
            n % 4 != 1,
            forall|k: int| 0 <= k < n ==> #[trigger] v@[k] == sextet(t[k]) && v@[k] < 64,
            out@.len() == j,
            forall|k: int| 0 <= k < j ==> #[trigger] out@[k] == byte_at(t, k),
        decreases count - j,
    {
        let k: usize = 4 * (j / 3);
        let b: u32 = if j % 3 == 0 {
            assert(v@[k as int] == sextet(t[k as int]));
            assert(v@[k + 1] == sextet(t[k + 1]));
            v[k] * 4 + v[k + 1] / 16
        } else if j % 3 == 1 {
            assert(v@[k + 1] == sextet(t[k + 1]));
            assert(v@[k + 2] == sextet(t[k + 2]));
            (v[k + 1] % 16) * 16 + v[k + 2] / 4
        } else {
            assert(v@[k + 2] == sextet(t[k + 2]));
            assert(v@[k + 3] == sextet(t[k + 3]));
            (v[k + 2] % 4) * 64 + v[k + 3]
        };
        out.push(b);
        j += 1;
    }
    assert forall|k: int| 0 <= k < t.len() implies sextet(#[trigger] t[k]) != 64 by {
        assert(v@[k] == sextet(t[k]));
    }
    assert(ints(Some(out))->0 =~= Seq::new(byte_count(n as int) as nat, |i: int| byte_at(t, i)));
    Some(out)
}

/// Whether bytes begin with others.
pub open spec fn begins(b: Seq<int>, p: Seq<int>) -> bool {
    b.len() >= p.len() && b.take(p.len() as int) == p
}

/// Whether bytes begin an image made of pixels: PNG, JPEG, GIF, BMP, TIFF or
/// WebP.
pub open spec fn is_raster(b: Seq<int>) -> bool {
    begins(b, seq![0x89, 0x50, 0x4e, 0x47]) || begins(b, seq![0xff, 0xd8, 0xff]) || begins(
        b,
        seq![0x47, 0x49, 0x46, 0x38],
    ) || begins(b, seq![0x42, 0x4d]) || begins(b, seq![0x49, 0x49, 0x2a, 0]) || begins(
        b,
        seq![0x4d, 0x4d, 0, 0x2a],
    ) || (begins(b, seq![0x52, 0x49, 0x46, 0x46]) && b.len() >= 12 && b[8] == 0x57 && b[9] == 0x45
        && b[10] == 0x42 && b[11] == 0x50)
}

fn begins_with(b: &Vec<u32>, p: &Vec<u32>) -> (r: bool)
    ensures
        r == begins(
            Seq::new(b@.len(), |i: int| b@[i] as int),
            Seq::new(p@.len(), |i: int| p@[i] as int),
        ),
{
    let ghost x = Seq::new(b@.len(), |i: int| b@[i] as int);
    let ghost y = Seq::new(p@.len(), |i: int| p@[i] as int);
    if b.len() < p.len() {
        return false;
    }
    let mut i: usize = 0;
    while i < p.len()
        invariant
            i <= p@.len() <= b@.len(),
            x == Seq::new(b@.len(), |i: int| b@[i] as int),
            y == Seq::new(p@.len(), |i: int| p@[i] as int),
            forall|k: int| 0 <= k < i ==> x[k] == #[trigger] y[k],
        decreases p@.len() - i,
    {
        if b[i] != p[i] {
            assert(x.take(y.len() as int)[i as int] != y[i as int]);
            return false;
        }
        i += 1;
    }
    assert(x.take(y.len() as int) =~= y);
    true
}

/// Whether bytes begin an image made of pixels.
pub fn is_raster_magic(b: &Vec<u32>) -> (r: bool)
    ensures
        r == is_raster(Seq::new(b@.len(), |i: int| b@[i] as int)),
{
    let ghost x = Seq::new(b@.len(), |i: int| b@[i] as int);
    let png: Vec<u32> = vec![0x89, 0x50, 0x4e, 0x47];
    let jpeg: Vec<u32> = vec![0xff, 0xd8, 0xff];
    let gif: Vec<u32> = vec![0x47, 0x49, 0x46, 0x38];
    let bmp: Vec<u32> = vec![0x42, 0x4d];
    let tiff: Vec<u32> = vec![0x49, 0x49, 0x2a, 0];
    let tiff_big: Vec<u32> = vec![0x4d, 0x4d, 0, 0x2a];
    let riff: Vec<u32> = vec![0x52, 0x49, 0x46, 0x46];
    assert(Seq::new(png@.len(), |i: int| png@[i] as int) =~= seq![0x89int, 0x50, 0x4e, 0x47]);
    assert(Seq::new(jpeg@.len(), |i: int| jpeg@[i] as int) =~= seq![0xffint, 0xd8, 0xff]);
    assert(Seq::new(gif@.len(), |i: int| gif@[i] as int) =~= seq![0x47int, 0x49, 0x46, 0x38]);
    assert(Seq::new(bmp@.len(), |i: int| bmp@[i] as int) =~= seq![0x42int, 0x4d]);
    assert(Seq::new(tiff@.len(), |i: int| tiff@[i] as int) =~= seq![0x49int, 0x49, 0x2a, 0]);
    assert(Seq::new(tiff_big@.len(), |i: int| tiff_big@[i] as int)
        =~= seq![0x4dint, 0x4d, 0, 0x2a]);
    assert(Seq::new(riff@.len(), |i: int| riff@[i] as int) =~= seq![0x52int, 0x49, 0x46, 0x46]);
    begins_with(b, &png) || begins_with(b, &jpeg) || begins_with(b, &gif) || begins_with(b, &bmp)
        || begins_with(b, &tiff) || begins_with(b, &tiff_big) || (begins_with(b, &riff) && b.len()
        >= 12 && b[8] == 0x57 && b[9] == 0x45 && b[10] == 0x42 && b[11] == 0x50)
}

/// The first characters from `i` on that are not white space, at most 16,
/// added to `done`.
pub open spec fn head_chars(s: Seq<char>, i: int, done: Seq<char>) -> Seq<char>
    decreases s.len() - i,
{
    if i >= s.len() || done.len() >= 16 {
        done
    } else {
        head_chars(
            s,
            i + 1,
            if white(s[i]) {
                done
            } else {
                done.push(s[i])
            },
        )
    }
}

fn first_chars(s: &Vec<char>) -> (r: Vec<char>)
    ensures
        r@ == head_chars(s@, 0, seq![]),
{
    let mut out: Vec<char> = Vec::new();
    let mut i: usize = 0;
    assert(out@ =~= seq![]);
    while i < s.len() && out.len() < 16
        invariant
            i <= s@.len(),
            head_chars(s@, 0, seq![]) == head_chars(s@, i as int, out@),
        decreases s@.len() - i,
    {
        if !is_white(s[i]) {
            out.push(s[i]);
        }
        i += 1;
    }
    out
}

/// The text behind the last `c` among the first `n` characters; the whole
/// text without one.
pub open spec fn behind_last(s: Seq<char>, c: char, n: int) -> Option<Seq<char>>
    decreases n,
{
    if n <= 0 || n > s.len() {
        None
    } else if s[n - 1] == c {
        Some(s.skip(n))
    } else {
        behind_last(s, c, n - 1)
    }
}

/// View of an optional text.
pub open spec fn chars_view(o: Option<Vec<char>>) -> Option<Seq<char>> {
    match o {
        Some(v) => Some(v@),
        None => None,
    }
}

fn text_behind(s: &Vec<char>, c: char) -> (r: Option<Vec<char>>)
    ensures
        chars_view(r) == behind_last(s@, c, s@.len() as int),
{
    let mut n: usize = s.len();
    while n > 0
        invariant
            n <= s@.len(),
            behind_last(s@, c, s@.len() as int) == behind_last(s@, c, n as int),
        decreases n,
    {
        if s[n - 1] == c {
            let t = slice(s, n, s.len());
            assert(t@ =~= s@.skip(n as int));
            return Some(t);
        }
        n -= 1;
    }
    None
}

/// Suffixes of images made of pixels.
pub open spec fn is_bitmap_suffix(t: Seq<char>) -> bool {
    t == "bmp"@ || t == "gif"@ || t == "jpeg"@ || t == "jpg"@ || t == "png"@ || t == "tif"@ || t
        == "tiff"@ || t == "webp"@
}

/// Types of images made of lines, and of metafiles.
pub open spec fn is_vector_type(t: Seq<char>) -> bool {
    t == "image/svg+xml"@ || t == "image/emf"@ || t == "image/x-emf"@ || t == "image/wmf"@ || t
        == "image/x-wmf"@ || t == "image/svm"@ || t == "image/x-svm"@
}

fn vector_type(t: &Vec<char>) -> (r: bool)
    ensures
        r == is_vector_type(t@),
{
    is(t, "image/svg+xml") || is(t, "image/emf") || is(t, "image/x-emf") || is(t, "image/wmf") || is(
        t,
        "image/x-wmf",
    ) || is(t, "image/svm") || is(t, "image/x-svm")
}

/// Whether an image is made of pixels: by its type, else by its data where it
/// has no address, else by its address' suffix.
pub open spec fn can_be_bitmap(img: ElementV, href: Seq<char>) -> bool {
    match attr_of(img, "mime-type"@) {
        Some(m) => has_prefix(m, "image/"@) && !is_vector_type(m),
        None => if href.len() == 0 {
            match child_of(img, "binary-data"@) {
                Some(d) => match head(d) {
                    Some(data) => match from_base64(head_chars(data, 0, seq![])) {
                        Some(b) => is_raster(b),
                        None => false,
                    },
                    None => false,
                },
                None => false,
            }
        } else {
            let name = match behind_last(href, '/', href.len() as int) {
                Some(n) => n,
                None => href,
            };
            match behind_last(name, '.', name.len() as int) {
                Some(s) => is_bitmap_suffix(lowered(s)),
                None => false,
            }
        },
    }
}

/// Whether an image is made of pixels.
pub fn image_can_be_bitmap(img: &Element, href: &Vec<char>) -> (r: bool)
    ensures
        r == can_be_bitmap(img@, href@),
{
    match attr(img, "mime-type") {
        Some(m) => {
            let t = chars_of(m);
            return starts_with(&t, "image/") && !vector_type(&t);
        },
        None => {},
    }
    if href.len() == 0 {
        return match child(img, "binary-data") {
            Some(d) => match head_of(d) {
                Some(data) => match decode_base64(&first_chars(&chars_of(data))) {
                    Some(b) => is_raster_magic(&b),
                    None => false,
                },
                None => false,
            },
            None => false,
        };
    }
    let name = match text_behind(href, '/') {
        Some(n) => n,
        None => copy(href),
    };
    match text_behind(&name, '.') {
        Some(s) => {
            let t = to_lower(&s);
            is(&t, "bmp") || is(&t, "gif") || is(&t, "jpeg") || is(&t, "jpg") || is(&t, "png") || is(
                &t,
                "tif",
            ) || is(&t, "tiff") || is(&t, "webp")
        },
        None => false,
    }
}

/// The picture of an image. A part of the package, or data of the document
/// itself, is one; an address on the web is one where it was fetched; any
/// other address is never read and shows nothing.
pub open spec fn picture(x: OdfV, img: ElementV) -> Option<NodeV> {
    let href = or_empty(attr_of(img, "href"@));
    let name = unhashed(undotted(href));
    if !can_be_bitmap(img, href) {
        None
    } else if href.len() == 0 || (x.parts is Some && x.parts->0.contains(name)) {
        Some(NodeV::Picture { caption: None, caption_href: None, caption_parent: CaptionParent::Body, sources: seq![] })
    } else if (has_prefix(href, "http://"@) || has_prefix(href, "https://"@)) && x.fetched.contains(
        href,
    ) {
        Some(NodeV::Picture { caption: None, caption_href: None, caption_parent: CaptionParent::Body, sources: seq![href] })
    } else {
        None
    }
}

/// No address that a document gives is read unasked: an image shows only where
/// its data is in the document or in its package, or where its address was
/// fetched, and only then does it name a source.
pub proof fn only_own_and_fetched_images_show(x: OdfV, img: ElementV)
    ensures
        match picture(x, img) {
            Some(n) => {
                let href = or_empty(attr_of(img, "href"@));
                let own = href.len() == 0 || (x.parts is Some && x.parts->0.contains(
                    unhashed(undotted(href)),
                ));
                &&& own || x.fetched.contains(href)
                &&& n matches NodeV::Picture { sources, .. } && sources == (if own {
                    seq![]
                } else {
                    seq![href]
                })
            },
            None => true,
        },
{
}

fn has_text(v: &Vec<Vec<char>>, t: &Vec<char>) -> (r: bool)
    ensures
        r == texts(v@).contains(t@),
{
    let ghost w = texts(v@);
    let mut i: usize = 0;
    while i < v.len()
        invariant
            i <= v@.len(),
            w == texts(v@),
            forall|k: int| 0 <= k < i ==> #[trigger] w[k] != t@,
        decreases v@.len() - i,
    {
        assert(w[i as int] == v@[i as int]@);
        if same(&v[i], t) {
            return true;
        }
        i += 1;
    }
    false
}

/// View of an optional node.
pub open spec fn opt_node(o: Option<Node>) -> Option<NodeV> {
    match o {
        Some(n) => Some(node_view(n)),
        None => None,
    }
}

/// The picture of an image.
pub fn odf_picture(x: &Odf, img: &Element) -> (r: Option<Node>)
    ensures
        opt_node(r) == picture(x@, img@),
{
    let href = chars_or_empty(attr(img, "href"));
    if !image_can_be_bitmap(img, &href) {
        return None;
    }
    let mut sources: Vec<String> = Vec::new();
    assert(strs(sources@) =~= seq![]);
    let part = match &x.parts {
        Some(p) => has_text(p, &trim_hashes(&trim_dots(&href))),
        None => false,
    };
    if href.len() == 0 || part {
        return Some(Node::Picture { caption: None, caption_href: None, caption_parent: CaptionParent::Body, sources });
    }
    if (starts_with(&href, "http://") || starts_with(&href, "https://")) && has_text(
        &x.fetched,
        &href,
    ) {
        sources.push(string_of(&href));
        assert(strs(sources@) =~= seq![href@]);
        return Some(Node::Picture { caption: None, caption_href: None, caption_parent: CaptionParent::Body, sources });
    }
    None
}

/// The pictures of the images under the nodes from `i` on that stand in no
/// frame, added to `nodes`.
pub open spec fn loose_from(ch: Seq<TreeV>, i: int, x: OdfV, nodes: Seq<NodeV>) -> Seq<NodeV>
    decreases ch, ch.len() - i,
{
    if i < 0 || i >= ch.len() {
        nodes
    } else {
        loose_from(
            ch,
            i + 1,
            x,
            match ch[i] {
                TreeV::Element(e) => if e.tag == "frame"@ {
                    nodes
                } else {
                    loose_from(
                        e.children,
                        0,
                        x,
                        if e.tag == "image"@ {
                            with_picture(nodes, picture(x, e))
                        } else {
                            nodes
                        },
                    )
                },
                _ => nodes,
            },
        )
    }
}

/// The nodes with a picture added, if there is one.
pub open spec fn with_picture(nodes: Seq<NodeV>, p: Option<NodeV>) -> Seq<NodeV> {
    match p {
        Some(n) => nodes.push(n),
        None => nodes,
    }
}

fn add_picture(nodes: &mut Vec<Node>, p: Option<Node>)
    ensures
        nodes_view(final(nodes)@) == with_picture(nodes_view(old(nodes)@), opt_node(p)),
{
    match p {
        Some(n) => {
            push_node(nodes, n);
        },
        None => {},
    }
}

fn add_loose(ch: &Vec<Tree>, x: &Odf, nodes: &mut Vec<Node>)
    ensures
        nodes_view(final(nodes)@) == loose_from(trees_view(ch@), 0, x@, nodes_view(old(nodes)@)),
    decreases ch,
{
    let ghost v = trees_view(ch@);
    let ghost first = nodes_view(nodes@);
    let mut i: usize = 0;
    while i < ch.len()
        invariant
            i <= ch@.len(),
            v == trees_view(ch@),
            loose_from(v, 0, x@, first) == loose_from(v, i as int, x@, nodes_view(nodes@)),
        decreases ch@.len() - i,
    {
        assert(v[i as int] == tree_view(ch@[i as int]));
        match &ch[i] {
            Tree::Element(e) => {
                if !has_tag(e, "frame") {
                    if has_tag(e, "image") {
                        add_picture(nodes, odf_picture(x, e));
                    }
                    add_loose(&e.children, x, nodes);
                }
            },
            _ => {},
        }
        i += 1;
    }
}

/// Whether an address names the preview of an embedded object.
pub open spec fn is_preview(href: Seq<char>) -> bool {
    has_prefix(undotted(href), "ObjectReplacements/"@)
}

/// The first picture among a frame's images from child `i` on that are no
/// previews.
pub open spec fn frame_picture(ch: Seq<TreeV>, i: int, x: OdfV) -> Option<NodeV>
    decreases ch.len() - i,
{
    if i >= ch.len() {
        None
    } else {
        match ch[i] {
            TreeV::Element(e) => if e.tag == "image"@ && !is_preview(
                or_empty(attr_of(e, "href"@)),
            ) && picture(x, e) is Some {
                picture(x, e)
            } else {
                frame_picture(ch, i + 1, x)
            },
            _ => frame_picture(ch, i + 1, x),
        }
    }
}

fn first_picture(ch: &Vec<Tree>, x: &Odf) -> (r: Option<Node>)
    ensures
        opt_node(r) == frame_picture(trees_view(ch@), 0, x@),
{
    let ghost v = trees_view(ch@);
    let mut i: usize = 0;
    while i < ch.len()
        invariant
            i <= ch@.len(),
            v == trees_view(ch@),
            frame_picture(v, 0, x@) == frame_picture(v, i as int, x@),
        decreases ch@.len() - i,
    {
        assert(v[i as int] == tree_view(ch@[i as int]));
        match &ch[i] {
            Tree::Element(e) => {
                if has_tag(e, "image") && !starts_with(
                    &trim_dots(&chars_or_empty(attr(e, "href"))),
                    "ObjectReplacements/",
                ) {
                    let p = odf_picture(x, e);
                    if p.is_some() {
                        return p;
                    }
                }
            },
            _ => {},
        }
        i += 1;
    }
    None
}

// ------------------------------------------------------------ charts

/// The kind of a chart by its class.
pub open spec fn kind_of(class: Option<Seq<char>>) -> Option<Seq<char>> {
    match class {
        None => None,
        Some(c) => if c == "chart:bar"@ {
            Some("bar_chart"@)
        } else if c == "chart:line"@ {
            Some("line_chart"@)
        } else if c == "chart:circle"@ || c == "chart:pie"@ {
            Some("pie_chart"@)
        } else if c == "chart:scatter"@ {
            Some("scatter_plot"@)
        } else {
            None
        },
    }
}

/// The kind of a chart by its class.
pub fn chart_kind(class: Option<&str>) -> (r: Option<Vec<char>>)
    ensures
        chars_view(r) == kind_of(opt_str(class)),
{
    match class {
        None => None,
        Some(c) => if str_eq(c, "chart:bar") {
            Some(chars_of("bar_chart"))
        } else if str_eq(c, "chart:line") {
            Some(chars_of("line_chart"))
        } else if str_eq(c, "chart:circle") || str_eq(c, "chart:pie") {
            Some(chars_of("pie_chart"))
        } else if str_eq(c, "chart:scatter") {
            Some(chars_of("scatter_plot"))
        } else {
            None
        },
    }
}

/// The first kind that an element with a tag from `i` on gives.
pub open spec fn kind_from(v: Seq<ElementV>, i: int, tag: Seq<char>) -> Option<Seq<char>>
    decreases v.len() - i,
{
    if i >= v.len() {
        None
    } else if v[i].tag == tag && kind_of(attr_of(v[i], "class"@)) is Some {
        kind_of(attr_of(v[i], "class"@))
    } else {
        kind_from(v, i + 1, tag)
    }
}

fn find_kind(v: &Vec<&Element>, tag: &str) -> (r: Option<Vec<char>>)
    ensures
        chars_view(r) == kind_from(refs_view(v@), 0, tag@),
{
    let ghost w = refs_view(v@);
    let mut i: usize = 0;
    while i < v.len()
        invariant
            i <= v@.len(),
            w == refs_view(v@),
            kind_from(w, 0, tag@) == kind_from(w, i as int, tag@),
        decreases v@.len() - i,
    {
        assert(w[i as int] == v@[i as int]@);
        if has_tag(v[i], tag) {
            let k = chart_kind(attr(v[i], "class"));
            if k.is_some() {
                return k;
            }
        }
        i += 1;
    }
    None
}

/// The kind of a chart in a document of its own: that of its chart element,
/// else of a series.
pub open spec fn part_kind(root: ElementV) -> Seq<char> {
    match kind_from(self_and_under(root), 0, "chart"@) {
        Some(k) => k,
        None => match kind_from(self_and_under(root), 0, "series"@) {
            Some(k) => k,
            None => "other_chart"@,
        },
    }
}

/// The kind of a chart inside an object: that of its chart element, else of a
/// series.
pub open spec fn inline_kind(obj: ElementV) -> Seq<char> {
    match kind_from(under(obj), 0, "chart"@) {
        Some(k) => k,
        None => match kind_from(under(obj), 0, "series"@) {
            Some(k) => k,
            None => "other_chart"@,
        },
    }
}

/// The chart with a name from `i` on.
pub open spec fn chart_named(v: Seq<ChartV>, i: int, name: Seq<char>) -> Option<ChartV>
    decreases v.len() - i,
{
    if i >= v.len() {
        None
    } else if v[i].name == name {
        Some(v[i])
    } else {
        chart_named(v, i + 1, name)
    }
}

fn find_chart<'a>(v: &'a Vec<Chart>, name: &Vec<char>) -> (r: Option<&'a Chart>)
    ensures
        match r {
            Some(c) => chart_named(charts_view(v@), 0, name@) == Some(c@),
            None => chart_named(charts_view(v@), 0, name@) is None,
        },
{
    let ghost w = charts_view(v@);
    let mut i: usize = 0;
    while i < v.len()
        invariant
            i <= v@.len(),
            w == charts_view(v@),
            chart_named(w, 0, name@) == chart_named(w, i as int, name@),
        decreases v@.len() - i,
    {
        assert(w[i as int] == v@[i as int]@);
        if same(&v[i].name, name) {
            return Some(&v[i]);
        }
        i += 1;
    }
    None
}

// ------------------------------------------------------------ plain text

/// The text under the nodes from `i` on without emphasis, added to `out`.
pub open spec fn plain_from(ch: Seq<TreeV>, i: int, out: Seq<char>) -> Seq<char>
    decreases ch, ch.len() - i,
{
    if i < 0 || i >= ch.len() {
        out
    } else {
        plain_from(
            ch,
            i + 1,
            match ch[i] {
                TreeV::Text(t) => out + t,
                TreeV::Other(_) => out,
                TreeV::Element(e) => if e.tag == "line-break"@ {
                    out.push('\n')
                } else if e.tag == "tab"@ || e.tag == "tab-stop"@ {
                    out.push('\t')
                } else if e.tag == "s"@ {
                    out + spaces(space_count(e))
                } else if e.tag == "object"@ || e.tag == "binary-data"@ {
                    out
                } else {
                    plain_from(e.children, 0, out)
                },
            },
        )
    }
}

/// The text of a paragraph without emphasis.
pub open spec fn plain_text(e: ElementV) -> Seq<char> {
    plain_from(e.children, 0, seq![])
}

fn para_plain_into(ch: &Vec<Tree>, out: &mut Vec<char>)
    ensures
        final(out)@ == plain_from(trees_view(ch@), 0, old(out)@),
    decreases ch,
{
    let ghost v = trees_view(ch@);
    let ghost first = out@;
    let mut i: usize = 0;
    while i < ch.len()
        invariant
            i <= ch@.len(),
            v == trees_view(ch@),
            plain_from(v, 0, first) == plain_from(v, i as int, out@),
        decreases ch@.len() - i,
    {
        assert(v[i as int] == tree_view(ch@[i as int]));
        match &ch[i] {
            Tree::Text(t) => {
                push_str(out, t.as_str());
            },
            Tree::Other(_) => {},
            Tree::Element(e) => {
                if has_tag(e, "line-break") {
                    out.push('\n');
                } else if has_tag(e, "tab") || has_tag(e, "tab-stop") {
                    out.push('\t');
                } else if has_tag(e, "s") {
                    crate::odf::push_spaces(out, e);
                } else if has_tag(e, "object") || has_tag(e, "binary-data") {
                } else {
                    para_plain_into(&e.children, out);
                }
            },
        }
        i += 1;
    }
}

fn para_plain_text(e: &Element) -> (r: Vec<char>)
    ensures
        r@ == plain_text(e@),
{
    let mut out: Vec<char> = Vec::new();
    assert(out@ =~= seq![]);
    para_plain_into(&e.children, &mut out);
    out
}

/// The texts of the paragraphs from `i` on that are not empty, added to
/// `done`.
pub open spec fn plain_parts(v: Seq<ElementV>, i: int, done: Seq<Seq<char>>) -> Seq<Seq<char>>
    decreases v.len() - i,
{
    if i >= v.len() {
        done
    } else {
        plain_parts(
            v,
            i + 1,
            if plain_text(v[i]).len() == 0 {
                done
            } else {
                done.push(plain_text(v[i]))
            },
        )
    }
}

/// The text of a plain cell.
pub open spec fn plain_cell(e: ElementV) -> Seq<char> {
    joined(plain_parts(either_kids_of(e, "p"@, "h"@), 0, seq![]), "\n\n"@)
}

fn plain_cell_text(e: &Element) -> (r: Vec<char>)
    ensures
        r@ == plain_cell(e@),
{
    let v = either_kids(e, "p", "h");
    let ghost w = refs_view(v@);
    let mut out: Vec<Vec<char>> = Vec::new();
    let mut i: usize = 0;
    assert(texts(out@) =~= seq![]);
    while i < v.len()
        invariant
            i <= v@.len(),
            w == refs_view(v@),
            plain_parts(w, 0, seq![]) == plain_parts(w, i as int, texts(out@)),
        decreases v@.len() - i,
    {
        broadcast use texts_push;

        assert(w[i as int] == v@[i as int]@);
        let t = para_plain_text(v[i]);
        if t.len() > 0 {
            out.push(t);
        }
        i += 1;
    }
    join(&out, "\n\n")
}

/// Whether a cell from `i` on shows something: a text that is not blank, or
/// an image.
pub open spec fn has_content(v: Seq<ElementV>, i: int) -> bool
    decreases v.len() - i,
{
    i < v.len() && ((v[i].tag == "table-cell"@ && (strip(plain_cell(v[i])).len() > 0 || has_under(
        v[i],
        "image"@,
    ))) || has_content(v, i + 1))
}

fn table_has_content(e: &Element) -> (r: bool)
    ensures
        r == has_content(under(e@), 0),
{
    let v = descendants(e);
    let ghost w = refs_view(v@);
    let mut i: usize = 0;
    while i < v.len()
        invariant
            i <= v@.len(),
            w == refs_view(v@),
            w == under(e@),
            has_content(w, 0) == has_content(w, i as int),
        decreases v@.len() - i,
    {
        assert(w[i as int] == v@[i as int]@);
        if has_tag(v[i], "table-cell") && (trim(&plain_cell_text(v[i])).len() > 0 || has_descendant(
            v[i],
            "image",
        )) {
            return true;
        }
        i += 1;
    }
    false
}

/// Whether a paragraph has text that is not blank.
pub open spec fn speaks(e: ElementV) -> bool {
    one_line(plain_text(e)).len() > 0
}

/// Whether one of a cell's children from `i` on makes it rich, or it has
/// several paragraphs, `n` being counted before.
pub open spec fn rich_children(ch: Seq<TreeV>, i: int, st: Seq<StyleV>, n: int) -> (bool, int)
    decreases ch.len() - i,
{
    if i >= ch.len() {
        (false, n)
    } else {
        match ch[i] {
            TreeV::Element(e) => if is_list(e.tag) && renderable(e.children, 0, true, st) {
                (true, n)
            } else if e.tag == "h"@ && speaks(e) {
                (true, n)
            } else if e.tag == "table"@ && has_content(under(e), 0) {
                (true, n)
            } else if e.tag == "p"@ {
                rich_children(
                    ch,
                    i + 1,
                    st,
                    if speaks(e) {
                        n + 1
                    } else {
                        n
                    },
                )
            } else {
                rich_children(ch, i + 1, st, n)
            },
            _ => rich_children(ch, i + 1, st, n),
        }
    }
}

/// Whether a cell is more than a plain text: it holds an image, a list, a
/// heading, a table, or several paragraphs, or a paragraph and no value.
pub open spec fn is_rich(e: ElementV, st: Seq<StyleV>) -> bool {
    let x = rich_children(e.children, 0, st, 0);
    has_under(e, "image"@) || x.0 || x.1 > 1 || (attr_of(e, "value-type"@) is None && x.1 > 0)
}

/// Whether a cell is more than a plain text.
pub fn is_rich_cell(e: &Element, styles: &Vec<Style>) -> (r: bool)
    ensures
        r == is_rich(e@, styles_view(styles@)),
{
    if has_descendant(e, "image") {
        return true;
    }
    let ghost v = e@.children;
    let ghost st = styles_view(styles@);
    let ghost want = rich_children(v, 0, st, 0);
    let mut n: usize = 0;
    let mut i: usize = 0;
    while i < e.children.len()
        invariant
            i <= e.children@.len(),
            n <= i,
            v == e@.children,
            v == trees_view(e.children@),
            st == styles_view(styles@),
            want == rich_children(e@.children, 0, styles_view(styles@), 0),
            want == rich_children(v, i as int, st, n as int),
        decreases e.children@.len() - i,
    {
        assert(v[i as int] == tree_view(e.children@[i as int]));
        match &e.children[i] {
            Tree::Element(c) => {
                if is_list_tag(c.tag.as_str()) && list_has_renderable(c, styles) {
                    return true;
                } else if has_tag(c, "h") && clean_lines(&para_plain_text(c)).len() > 0 {
                    return true;
                } else if has_tag(c, "table") && table_has_content(c) {
                    return true;
                } else if has_tag(c, "p") {
                    if clean_lines(&para_plain_text(c)).len() > 0 {
                        n += 1;
                    }
                }
            },
            _ => {},
        }
        i += 1;
    }
    n > 1 || (attr(e, "value-type").is_none() && n > 0)
}

// ------------------------------------------------------------ blocks

/// The table of a table element. `framed` tells whether it stands in a frame.
pub open spec fn parsed(e: ElementV, x: OdfV, framed: bool) -> Option<TableV>
    decreases e, 0int,
{
    laid_out(e, shown_from(e.children, 0, x, framed, seq![]))
}

/// The cells of the rows under the children from `i` on, in document order,
/// added to `done`; tables inside keep theirs.
pub open spec fn shown_from(
    ch: Seq<TreeV>,
    i: int,
    x: OdfV,
    framed: bool,
    done: Seq<RenderedV>,
) -> Seq<RenderedV>
    decreases ch, ch.len() - i,
{
    if i < 0 || i >= ch.len() {
        done
    } else {
        shown_from(
            ch,
            i + 1,
            x,
            framed,
            match ch[i] {
                TreeV::Element(e) => if e.tag == "table"@ {
                    done
                } else {
                    shown_from(
                        e.children,
                        0,
                        x,
                        framed || e.tag == "frame"@,
                        if e.tag == "table-row"@ {
                            row_shown(e.children, 0, x, framed, done)
                        } else {
                            done
                        },
                    )
                },
                _ => done,
            },
        )
    }
}

/// The cells of a row from child `i` on, added to `done`.
pub open spec fn row_shown(
    ch: Seq<TreeV>,
    i: int,
    x: OdfV,
    framed: bool,
    done: Seq<RenderedV>,
) -> Seq<RenderedV>
    decreases ch, ch.len() - i,
{
    if i < 0 || i >= ch.len() {
        done
    } else {
        row_shown(
            ch,
            i + 1,
            x,
            framed,
            match ch[i] {
                TreeV::Element(e) => if e.tag == "table-cell"@ {
                    done.push(shown_cell(e, x, framed))
                } else {
                    done
                },
                _ => done,
            },
        )
    }
}

/// What a cell shows. A rich one is walked twice: for its text, and for its
/// blocks.
pub open spec fn shown_cell(e: ElementV, x: OdfV, framed: bool) -> RenderedV
    decreases e, 0int,
{
    if is_rich(e, x.styles) {
        RenderedV {
            text: strip(cell_text(rich_from(e.children, 0, None, x, framed, seq![]))),
            rich: true,
            blocks: blocks_from(e.children, 0, None, x, framed, seq![]),
        }
    } else {
        RenderedV { text: plain_cell(e), rich: false, blocks: seq![] }
    }
}

/// The blocks of a rich cell from child `i` on, for its text: a table is one
/// text.
pub open spec fn rich_from(
    ch: Seq<TreeV>,
    i: int,
    cont: Option<ContV>,
    x: OdfV,
    framed: bool,
    nodes: Seq<NodeV>,
) -> Seq<NodeV>
    decreases ch, ch.len() - i,
{
    if i < 0 || i >= ch.len() {
        nodes
    } else {
        match ch[i] {
            TreeV::Element(e) => if is_list(e.tag) {
                let r = listed(e, x.styles, x.lists, 0, 1, false, cont, nodes);
                rich_from(ch, i + 1, r.cont, x, framed, r.nodes)
            } else if e.tag == "table"@ {
                rich_from(
                    ch,
                    i + 1,
                    None,
                    x,
                    framed,
                    match parsed(e, x, framed) {
                        Some(t) => {
                            let text = joined(full_rows(t.rows, 0, seq![]), " "@);
                            if text.len() == 0 {
                                nodes
                            } else {
                                nodes.push(NodeV::TextDump(text))
                            }
                        },
                        None => nodes,
                    },
                )
            } else if e.tag == "p"@ || e.tag == "h"@ {
                rich_from(ch, i + 1, None, x, framed, handled(e, x, framed, nodes))
            } else {
                rich_from(ch, i + 1, cont, x, framed, nodes)
            },
            _ => rich_from(ch, i + 1, cont, x, framed, nodes),
        }
    }
}

/// The blocks from child `i` on, added to `nodes`. A list may continue the
/// one right before it.
pub open spec fn blocks_from(
    ch: Seq<TreeV>,
    i: int,
    cont: Option<ContV>,
    x: OdfV,
    framed: bool,
    nodes: Seq<NodeV>,
) -> Seq<NodeV>
    decreases ch, ch.len() - i,
{
    if i < 0 || i >= ch.len() {
        nodes
    } else {
        match ch[i] {
            TreeV::Element(e) => if is_list(e.tag) {
                let r = listed(e, x.styles, x.lists, 0, 1, false, cont, nodes);
                blocks_from(ch, i + 1, r.cont, x, framed, r.nodes)
            } else {
                blocks_from(ch, i + 1, None, x, framed, handled(e, x, framed, nodes))
            },
            _ => blocks_from(ch, i + 1, cont, x, framed, nodes),
        }
    }
}

/// The level of a heading: its outline level, one deeper than a title.
pub open spec fn heading_level(e: ElementV) -> u8 {
    let v = match attr_of(e, "outline-level"@) {
        Some(v) => Some(v),
        None => attr_of(e, "level"@),
    };
    let n = number_or(v, 1);
    if n < 1 {
        2
    } else {
        ((n + 1) % 256) as u8
    }
}

/// The nodes with a paragraph of runs added, if it has text: a title, or a
/// paragraph.
pub open spec fn with_para(e: ElementV, x: OdfV, nodes: Seq<NodeV>) -> Seq<NodeV> {
    let runs = para_runs(e, x.styles);
    let text = runs_text(runs);
    let name = attr_of(e, "style-name"@);
    if text.len() == 0 {
        nodes
    } else if is_named(x.styles, name, "Title"@) {
        nodes.push(NodeV::Heading { level: 1, text })
    } else if is_named(x.styles, name, "Subtitle"@) {
        nodes.push(NodeV::Heading { level: 2, text })
    } else {
        nodes.push(NodeV::Inline { text, runs: inline_runs(runs), unwrapped: false })
    }
}

/// The nodes with a heading added, if it has text.
pub open spec fn with_heading(e: ElementV, x: OdfV, nodes: Seq<NodeV>) -> Seq<NodeV> {
    let text = runs_text(para_runs(e, x.styles));
    if text.len() == 0 {
        nodes
    } else {
        nodes.push(NodeV::Heading { level: heading_level(e), text })
    }
}

/// The nodes with a block added.
pub open spec fn handled(e: ElementV, x: OdfV, framed: bool, nodes: Seq<NodeV>) -> Seq<NodeV>
    decreases e, 1int,
{
    if e.tag == "h"@ {
        with_heading(e, x, images_of(e, x, framed, nodes))
    } else if e.tag == "p"@ {
        with_para(e, x, images_of(e, x, framed, nodes))
    } else if is_list(e.tag) {
        listed(e, x.styles, x.lists, 0, 1, false, None, nodes).nodes
    } else if e.tag == "table"@ {
        match parsed(e, x, framed) {
            Some(t) => nodes.push(NodeV::Table(t)),
            None => nodes,
        }
    } else if e.tag == "section"@ {
        blocks_from(e.children, 0, None, x, framed, nodes)
    } else {
        nodes
    }
}

/// The nodes with a paragraph's graphics added: one for each frame, then the
/// images that stand in none.
pub open spec fn images_of(e: ElementV, x: OdfV, framed: bool, nodes: Seq<NodeV>) -> Seq<NodeV>
    decreases e, 0int,
{
    let a = frames_from(e.children, 0, x, nodes);
    if framed {
        a
    } else {
        loose_from(e.children, 0, x, a)
    }
}

/// The nodes with the frames under the children from `i` on added.
pub open spec fn frames_from(ch: Seq<TreeV>, i: int, x: OdfV, nodes: Seq<NodeV>) -> Seq<NodeV>
    decreases ch, ch.len() - i,
{
    if i < 0 || i >= ch.len() {
        nodes
    } else {
        frames_from(
            ch,
            i + 1,
            x,
            match ch[i] {
                TreeV::Element(e) => frames_from(
                    e.children,
                    0,
                    x,
                    if e.tag == "frame"@ {
                        match object_chart(e.children, 0, x) {
                            Some(n) => nodes.push(n),
                            None => with_picture(nodes, frame_picture(e.children, 0, x)),
                        }
                    } else {
                        nodes
                    },
                ),
                _ => nodes,
            },
        )
    }
}

/// The chart of the first object among a frame's children from `i` on.
pub open spec fn object_chart(ch: Seq<TreeV>, i: int, x: OdfV) -> Option<NodeV>
    decreases ch, ch.len() - i,
{
    if i < 0 || i >= ch.len() {
        None
    } else {
        match ch[i] {
            TreeV::Element(e) => if e.tag == "object"@ {
                match chart_named(x.charts, 0, undotted(or_empty(attr_of(e, "href"@)))) {
                    Some(c) => Some(NodeV::Chart { kind: c.kind, table: c.table }),
                    None => match first_tagged(under(e), "chart"@) {
                        Some(_) => match table_in(e.children, 0, x) {
                            Some(Some(t)) => Some(
                                NodeV::Chart { kind: inline_kind(e), table: t },
                            ),
                            _ => None,
                        },
                        None => None,
                    },
                }
            } else {
                object_chart(ch, i + 1, x)
            },
            _ => object_chart(ch, i + 1, x),
        }
    }
}

/// The first table under the children from `i` on of an object in a frame:
/// none where there is no table element.
pub open spec fn table_in(ch: Seq<TreeV>, i: int, x: OdfV) -> Option<Option<TableV>>
    decreases ch, ch.len() - i,
{
    if i < 0 || i >= ch.len() {
        None
    } else {
        match ch[i] {
            TreeV::Element(e) => if e.tag == "table"@ {
                Some(parsed(e, x, true))
            } else {
                match table_in(e.children, 0, x) {
                    Some(t) => Some(t),
                    None => table_in(ch, i + 1, x),
                }
            },
            _ => table_in(ch, i + 1, x),
        }
    }
}

/// View of an optional table.
pub open spec fn opt_table(o: Option<Table>) -> Option<TableV> {
    match o {
        Some(t) => Some(table_view(t)),
        None => None,
    }
}

/// The table of a table element.
pub fn parse_table(e: &Element, x: &Odf, framed: bool) -> (r: Option<Table>)
    ensures
        opt_table(r) == parsed(e@, x@, framed),
    decreases e, 0int,
{
    let mut shown: Vec<Rendered> = Vec::new();
    assert(rendered_view(shown@) =~= seq![]);
    show_rows(&e.children, x, framed, &mut shown);
    lay_out(e, shown)
}

fn show_rows(ch: &Vec<Tree>, x: &Odf, framed: bool, out: &mut Vec<Rendered>)
    ensures
        rendered_view(final(out)@) == shown_from(
            trees_view(ch@),
            0,
            x@,
            framed,
            rendered_view(old(out)@),
        ),
    decreases ch, 0int,
{
    let ghost v = trees_view(ch@);
    let ghost first = rendered_view(out@);
    let mut i: usize = 0;
    while i < ch.len()
        invariant
            i <= ch@.len(),
            v == trees_view(ch@),
            shown_from(v, 0, x@, framed, first) == shown_from(
                v,
                i as int,
                x@,
                framed,
                rendered_view(out@),
            ),
        decreases ch@.len() - i,
    {
        assert(v[i as int] == tree_view(ch@[i as int]));
        match &ch[i] {
            Tree::Element(e) => {
                if !has_tag(e, "table") {
                    if has_tag(e, "table-row") {
                        show_row(&e.children, x, framed, out);
                    }
                    show_rows(&e.children, x, framed || has_tag(e, "frame"), out);
                }
            },
            _ => {},
        }
        i += 1;
    }
}

fn show_row(ch: &Vec<Tree>, x: &Odf, framed: bool, out: &mut Vec<Rendered>)
    ensures
        rendered_view(final(out)@) == row_shown(
            trees_view(ch@),
            0,
            x@,
            framed,
            rendered_view(old(out)@),
        ),
    decreases ch, 0int,
{
    let ghost v = trees_view(ch@);
    let ghost first = rendered_view(out@);
    let mut i: usize = 0;
    while i < ch.len()
        invariant
            i <= ch@.len(),
            v == trees_view(ch@),
            row_shown(v, 0, x@, framed, first) == row_shown(
                v,
                i as int,
                x@,
                framed,
                rendered_view(out@),
            ),
        decreases ch@.len() - i,
    {
        broadcast use rendered_view_push;

        assert(v[i as int] == tree_view(ch@[i as int]));
        match &ch[i] {
            Tree::Element(e) => {
                if has_tag(e, "table-cell") {
                    let c = show_cell(e, x, framed);
                    out.push(c);
                }
            },
            _ => {},
        }
        i += 1;
    }
}

fn show_cell(e: &Element, x: &Odf, framed: bool) -> (r: Rendered)
    ensures
        r@ == shown_cell(e@, x@, framed),
    decreases e, 0int,
{
    if is_rich_cell(e, &x.styles) {
        let mut plain: Vec<Node> = Vec::new();
        assert(nodes_view(plain@) =~= seq![]);
        rich_cell_nodes(&e.children, x, framed, &mut plain);
        let mut blocks: Vec<Node> = Vec::new();
        assert(nodes_view(blocks@) =~= seq![]);
        walk_blocks(&e.children, x, framed, &mut blocks);
        Rendered { text: trim(&cell_markdown(&plain)), rich: true, blocks }
    } else {
        let blocks: Vec<Node> = Vec::new();
        assert(nodes_view(blocks@) =~= seq![]);
        Rendered { text: plain_cell_text(e), rich: false, blocks }
    }
}

/// The cells of a table that are not empty, with spaces between them.
fn flat_text(t: &Table) -> (r: Vec<char>)
    ensures
        r@ == joined(full_rows(table_view(*t).rows, 0, seq![]), " "@),
{
    let ghost rows = table_view(*t).rows;
    let mut out: Vec<Vec<char>> = Vec::new();
    let mut i: usize = 0;
    assert(texts(out@) =~= seq![]);
    while i < t.rows.len()
        invariant
            i <= t.rows@.len(),
            rows == crate::document::grid(t.rows@),
            full_rows(rows, 0, seq![]) == full_rows(rows, i as int, texts(out@)),
        decreases t.rows@.len() - i,
    {
        let ghost row = rows[i as int];
        assert(row == strs(t.rows@[i as int]@));
        let ghost before = texts(out@);
        let mut j: usize = 0;
        while j < t.rows[i].len()
            invariant
                i < t.rows@.len(),
                j <= t.rows@[i as int]@.len(),
                row == strs(t.rows@[i as int]@),
                crate::html::full_cells(row, 0, before) == crate::html::full_cells(
                    row,
                    j as int,
                    texts(out@),
                ),
            decreases t.rows@[i as int]@.len() - j,
        {
            broadcast use texts_push;

            let c = chars_of(t.rows[i][j].as_str());
            assert(row[j as int] == c@);
            if c.len() > 0 {
                out.push(c);
            }
            j += 1;
        }
        i += 1;
    }
    join(&out, " ")
}

fn rich_cell_nodes(ch: &Vec<Tree>, x: &Odf, framed: bool, nodes: &mut Vec<Node>)
    ensures
        nodes_view(final(nodes)@) == rich_from(
            trees_view(ch@),
            0,
            None,
            x@,
            framed,
            nodes_view(old(nodes)@),
        ),
    decreases ch, 0int,
{
    let ghost v = trees_view(ch@);
    let ghost want = rich_from(v, 0, None, x@, framed, nodes_view(nodes@));
    let mut cont: Option<ListCont> = None;
    let mut i: usize = 0;
    while i < ch.len()
        invariant
            i <= ch@.len(),
            v == trees_view(ch@),
            want == rich_from(v, i as int, cont_view(cont), x@, framed, nodes_view(nodes@)),
        decreases ch@.len() - i,
    {
        assert(v[i as int] == tree_view(ch@[i as int]));
        match &ch[i] {
            Tree::Element(e) => {
                if is_list_tag(e.tag.as_str()) {
                    cont = add_odf_list(e, &x.styles, &x.lists, nodes, 0, 1, false, cont);
                } else if has_tag(e, "table") {
                    cont = None;
                    match parse_table(e, x, framed) {
                        Some(t) => {
                            let text = flat_text(&t);
                            if text.len() > 0 {
                                push_node(nodes, Node::TextDump(string_of(&text)));
                            }
                        },
                        None => {},
                    }
                } else if has_tag(e, "p") || has_tag(e, "h") {
                    cont = None;
                    handle_block(e, x, framed, nodes);
                }
            },
            _ => {},
        }
        i += 1;
    }
}

/// Adds the blocks of a container.
pub fn walk_blocks(ch: &Vec<Tree>, x: &Odf, framed: bool, nodes: &mut Vec<Node>)
    ensures
        nodes_view(final(nodes)@) == blocks_from(
            trees_view(ch@),
            0,
            None,
            x@,
            framed,
            nodes_view(old(nodes)@),
        ),
    decreases ch, 0int,
{
    let ghost v = trees_view(ch@);
    let ghost want = blocks_from(v, 0, None, x@, framed, nodes_view(nodes@));
    let mut cont: Option<ListCont> = None;
    let mut i: usize = 0;
    while i < ch.len()
        invariant
            i <= ch@.len(),
            v == trees_view(ch@),
            want == blocks_from(v, i as int, cont_view(cont), x@, framed, nodes_view(nodes@)),
        decreases ch@.len() - i,
    {
        assert(v[i as int] == tree_view(ch@[i as int]));
        match &ch[i] {
            Tree::Element(e) => {
                if is_list_tag(e.tag.as_str()) {
                    cont = add_odf_list(e, &x.styles, &x.lists, nodes, 0, 1, false, cont);
                } else {
                    cont = None;
                    handle_block(e, x, framed, nodes);
                }
            },
            _ => {},
        }
        i += 1;
    }
}

fn level_of_heading(e: &Element) -> (r: u8)
    ensures
        r == heading_level(e@),
{
    let v = match attr(e, "outline-level") {
        Some(v) => Some(v),
        None => attr(e, "level"),
    };
    let n = crate::odf::read_number(v, 1);
    if n < 1 {
        2
    } else {
        let m: u64 = (n as u64 + 1) % 256;
        m as u8
    }
}

fn handle_block(e: &Element, x: &Odf, framed: bool, nodes: &mut Vec<Node>)
    ensures
        nodes_view(final(nodes)@) == handled(e@, x@, framed, nodes_view(old(nodes)@)),
    decreases e, 1int,
{
    if has_tag(e, "h") {
        emit_paragraph_images(e, x, framed, nodes);
        let text = runs_to_text(&collect_runs(e, &x.styles));
        if text.len() > 0 {
            push_node(nodes, heading(level_of_heading(e), &text));
        }
    } else if has_tag(e, "p") {
        emit_paragraph_images(e, x, framed, nodes);
        add_para(e, x, nodes);
    } else if is_list_tag(e.tag.as_str()) {
        let _state = add_odf_list(e, &x.styles, &x.lists, nodes, 0, 1, false, None);
    } else if has_tag(e, "table") {
        match parse_table(e, x, framed) {
            Some(t) => {
                push_node(nodes, Node::Table(t));
            },
            None => {},
        }
    } else if has_tag(e, "section") {
        walk_blocks(&e.children, x, framed, nodes);
    }
}

fn add_para(e: &Element, x: &Odf, nodes: &mut Vec<Node>)
    ensures
        nodes_view(final(nodes)@) == with_para(e@, x@, nodes_view(old(nodes)@)),
{
    let runs = collect_runs(e, &x.styles);
    let text = runs_to_text(&runs);
    if text.len() == 0 {
        return;
    }
    let name = attr(e, "style-name");
    if crate::odf::style_is(&x.styles, name, "Title") {
        push_node(nodes, heading(1, &text));
    } else if crate::odf::style_is(&x.styles, name, "Subtitle") {
        push_node(nodes, heading(2, &text));
    } else {
        push_node(
            nodes,
            Node::Inline {
                text: string_of(&text),
                runs: runs_to_inline(&runs),
                unwrapped: false,
            },
        );
    }
}

fn emit_paragraph_images(e: &Element, x: &Odf, framed: bool, nodes: &mut Vec<Node>)
    ensures
        nodes_view(final(nodes)@) == images_of(e@, x@, framed, nodes_view(old(nodes)@)),
    decreases e, 0int,
{
    add_frames(&e.children, x, nodes);
    if !framed {
        add_loose(&e.children, x, nodes);
    }
}

fn add_frames(ch: &Vec<Tree>, x: &Odf, nodes: &mut Vec<Node>)
    ensures
        nodes_view(final(nodes)@) == frames_from(trees_view(ch@), 0, x@, nodes_view(old(nodes)@)),
    decreases ch, 0int,
{
    let ghost v = trees_view(ch@);
    let ghost first = nodes_view(nodes@);
    let mut i: usize = 0;
    while i < ch.len()
        invariant
            i <= ch@.len(),
            v == trees_view(ch@),
            frames_from(v, 0, x@, first) == frames_from(v, i as int, x@, nodes_view(nodes@)),
        decreases ch@.len() - i,
    {
        assert(v[i as int] == tree_view(ch@[i as int]));
        match &ch[i] {
            Tree::Element(e) => {
                if has_tag(e, "frame") {
                    match chart_in(&e.children, x) {
                        Some(n) => {
                            push_node(nodes, n);
                        },
                        None => {
                            add_picture(nodes, first_picture(&e.children, x));
                        },
                    }
                }
                add_frames(&e.children, x, nodes);
            },
            _ => {},
        }
        i += 1;
    }
}

fn chart_in(ch: &Vec<Tree>, x: &Odf) -> (r: Option<Node>)
    ensures
        opt_node(r) == object_chart(trees_view(ch@), 0, x@),
    decreases ch, 0int,
{
    let ghost v = trees_view(ch@);
    let ghost want = object_chart(v, 0, x@);
    let mut i: usize = 0;
    while i < ch.len()
        invariant
            i <= ch@.len(),
            v == trees_view(ch@),
            want == object_chart(trees_view(ch@), 0, x@),
            want == object_chart(v, i as int, x@),
        decreases ch@.len() - i,
    {
        assert(v[i as int] == tree_view(ch@[i as int]));
        match &ch[i] {
            Tree::Element(e) => {
                if has_tag(e, "object") {
                    let name = trim_dots(&chars_or_empty(attr(e, "href")));
                    match find_chart(&x.charts, &name) {
                        Some(c) => {
                            return Some(
                                Node::Chart {
                                    kind: string_of(&c.kind),
                                    table: copy_table(&c.table),
                                },
                            );
                        },
                        None => {},
                    }
                    let all = descendants(e);
                    match find_tagged(&all, "chart") {
                        Some(_) => {
                            let mut kind = find_kind(&all, "chart");
                            if kind.is_none() {
                                kind = find_kind(&all, "series");
                            }
                            let shown = match kind {
                                Some(k) => k,
                                None => chars_of("other_chart"),
                            };
                            return match first_table(&e.children, x) {
                                Some(Some(t)) => Some(
                                    Node::Chart { kind: string_of(&shown), table: t },
                                ),
                                _ => None,
                            };
                        },
                        None => {
                            return None;
                        },
                    }
                }
            },
            _ => {},
        }
        i += 1;
    }
    None
}

/// View of a table that may be missing or empty.
pub open spec fn opt_opt_table(o: Option<Option<Table>>) -> Option<Option<TableV>> {
    match o {
        Some(t) => Some(opt_table(t)),
        None => None,
    }
}

fn first_table(ch: &Vec<Tree>, x: &Odf) -> (r: Option<Option<Table>>)
    ensures
        opt_opt_table(r) == table_in(trees_view(ch@), 0, x@),
    decreases ch, 0int,
{
    let ghost v = trees_view(ch@);
    let ghost want = table_in(v, 0, x@);
    let mut i: usize = 0;
    while i < ch.len()
        invariant
            i <= ch@.len(),
            v == trees_view(ch@),
            want == table_in(trees_view(ch@), 0, x@),
            want == table_in(v, i as int, x@),
        decreases ch@.len() - i,
    {
        assert(v[i as int] == tree_view(ch@[i as int]));
        match &ch[i] {
            Tree::Element(e) => {
                if has_tag(e, "table") {
                    let t = parse_table(e, x, true);
                    return Some(t);
                }
                match first_table(&e.children, x) {
                    Some(t) => {
                        return Some(t);
                    },
                    None => {},
                }
            },
            _ => {},
        }
        i += 1;
    }
    None
}

// ------------------------------------------------------------ slides

/// Whether text that is not blank stands under the nodes from `i` on.
pub open spec fn text_in(ch: Seq<TreeV>, i: int) -> bool
    decreases ch, ch.len() - i,
{
    if i < 0 || i >= ch.len() {
        false
    } else {
        (match ch[i] {
            TreeV::Text(t) => strip(t).len() > 0,
            TreeV::Element(e) => text_in(e.children, 0),
            TreeV::Other(_) => false,
        }) || text_in(ch, i + 1)
    }
}

fn element_has_text(ch: &Vec<Tree>) -> (r: bool)
    ensures
        r == text_in(trees_view(ch@), 0),
    decreases ch,
{
    let ghost v = trees_view(ch@);
    let mut i: usize = 0;
    while i < ch.len()
        invariant
            i <= ch@.len(),
            v == trees_view(ch@),
            text_in(v, 0) == text_in(v, i as int),
        decreases ch@.len() - i,
    {
        assert(v[i as int] == tree_view(ch@[i as int]));
        match &ch[i] {
            Tree::Text(t) => {
                if trim(&chars_of(t.as_str())).len() > 0 {
                    return true;
                }
            },
            Tree::Element(e) => {
                if element_has_text(&e.children) {
                    return true;
                }
            },
            Tree::Other(_) => {},
        }
        i += 1;
    }
    false
}

/// Whether an element is a slide's title: it says so, or it is a shape with
/// the slide's first text.
pub open spec fn is_title(e: ElementV, first: bool) -> bool {
    attr_of(e, "class"@) == Some("title"@) || (first && e.tag == "custom-shape"@ && text_in(
        e.children,
        0,
    ))
}

fn is_slide_title_element(e: &Element, first: bool) -> (r: bool)
    ensures
        r == is_title(e@, first),
{
    let named = match attr(e, "class") {
        Some(c) => str_eq(c, "title"),
        None => false,
    };
    named || (first && has_tag(e, "custom-shape") && element_has_text(&e.children))
}

/// Notes and animations never reach the document.
pub open spec fn is_aside(e: ElementV) -> bool {
    e.tag == "notes"@ || e.tag == "par"@
}

/// Whether an element of a slide from child `i` on is its title; `seen` says
/// that text came before.
pub open spec fn titled(ch: Seq<TreeV>, i: int, seen: bool) -> bool
    decreases ch.len() - i,
{
    if i >= ch.len() {
        false
    } else {
        match ch[i] {
            TreeV::Element(e) => if is_aside(e) {
                titled(ch, i + 1, seen)
            } else {
                is_title(e, !seen) || titled(ch, i + 1, seen || text_in(e.children, 0))
            },
            _ => titled(ch, i + 1, seen),
        }
    }
}

fn slide_has_visible_title(page: &Element) -> (r: bool)
    ensures
        r == titled(page@.children, 0, false),
{
    let ghost v = page@.children;
    let ghost want = titled(v, 0, false);
    let mut seen = false;
    let mut i: usize = 0;
    while i < page.children.len()
        invariant
            i <= page.children@.len(),
            v == page@.children,
            v == trees_view(page.children@),
            want == titled(page@.children, 0, false),
            want == titled(v, i as int, seen),
        decreases page.children@.len() - i,
    {
        assert(v[i as int] == tree_view(page.children@[i as int]));
        match &page.children[i] {
            Tree::Element(e) => {
                if !(has_tag(e, "notes") || has_tag(e, "par")) {
                    if is_slide_title_element(e, !seen) {
                        return true;
                    }
                    if element_has_text(&e.children) {
                        seen = true;
                    }
                }
            },
            _ => {},
        }
        i += 1;
    }
    false
}

/// The nodes with a paragraph of a text box added: the slide's title, or a
/// paragraph.
pub open spec fn with_box_para(e: ElementV, x: OdfV, title: bool, nodes: Seq<NodeV>) -> Seq<NodeV> {
    let runs = para_runs(e, x.styles);
    let text = runs_text(runs);
    if text.len() == 0 {
        nodes
    } else if title {
        nodes.push(NodeV::Heading { level: 1, text })
    } else {
        nodes.push(NodeV::Inline { text, runs: inline_runs(runs), unwrapped: false })
    }
}

fn add_box_para(e: &Element, x: &Odf, title: bool, nodes: &mut Vec<Node>)
    ensures
        nodes_view(final(nodes)@) == with_box_para(e@, x@, title, nodes_view(old(nodes)@)),
{
    let runs = collect_runs(e, &x.styles);
    let text = runs_to_text(&runs);
    if text.len() == 0 {
        return;
    }
    if title {
        push_node(nodes, heading(1, &text));
    } else {
        push_node(
            nodes,
            Node::Inline {
                text: string_of(&text),
                runs: runs_to_inline(&runs),
                unwrapped: false,
            },
        );
    }
}

/// The nodes of a text box from child `i` on.
pub open spec fn box_from(
    ch: Seq<TreeV>,
    i: int,
    cont: Option<ContV>,
    title: bool,
    x: OdfV,
    framed: bool,
    nodes: Seq<NodeV>,
) -> Seq<NodeV>
    decreases ch.len() - i,
{
    if i < 0 || i >= ch.len() {
        nodes
    } else {
        match ch[i] {
            TreeV::Element(e) => if e.tag == "h"@ {
                box_from(ch, i + 1, None, title, x, framed, handled(e, x, framed, nodes))
            } else if e.tag == "p"@ {
                box_from(ch, i + 1, None, title, x, framed, with_box_para(e, x, title, nodes))
            } else if is_list(e.tag) {
                let r = listed(e, x.styles, x.lists, 0, 1, false, cont, nodes);
                box_from(ch, i + 1, r.cont, title, x, framed, r.nodes)
            } else {
                box_from(ch, i + 1, cont, title, x, framed, nodes)
            },
            _ => box_from(ch, i + 1, cont, title, x, framed, nodes),
        }
    }
}

fn walk_textbox_children(ch: &Vec<Tree>, x: &Odf, title: bool, framed: bool, nodes: &mut Vec<Node>)
    ensures
        nodes_view(final(nodes)@) == box_from(
            trees_view(ch@),
            0,
            None,
            title,
            x@,
            framed,
            nodes_view(old(nodes)@),
        ),
{
    let ghost v = trees_view(ch@);
    let ghost want = box_from(v, 0, None, title, x@, framed, nodes_view(nodes@));
    let mut cont: Option<ListCont> = None;
    let mut i: usize = 0;
    while i < ch.len()
        invariant
            i <= ch@.len(),
            v == trees_view(ch@),
            want == box_from(
                v,
                i as int,
                cont_view(cont),
                title,
                x@,
                framed,
                nodes_view(nodes@),
            ),
        decreases ch@.len() - i,
    {
        assert(v[i as int] == tree_view(ch@[i as int]));
        match &ch[i] {
            Tree::Element(e) => {
                if has_tag(e, "h") {
                    cont = None;
                    handle_block(e, x, framed, nodes);
                } else if has_tag(e, "p") {
                    cont = None;
                    add_box_para(e, x, title, nodes);
                } else if is_list_tag(e.tag.as_str()) {
                    cont = add_odf_list(e, &x.styles, &x.lists, nodes, 0, 1, false, cont);
                }
            },
            _ => {},
        }
        i += 1;
    }
}

/// The tables under the nodes from `i` on that stand in no object, those
/// inside other tables with them.
pub open spec fn slide_tables(ch: Seq<TreeV>, i: int, x: OdfV, nodes: Seq<NodeV>) -> Seq<NodeV>
    decreases ch, ch.len() - i,
{
    if i < 0 || i >= ch.len() {
        nodes
    } else {
        slide_tables(
            ch,
            i + 1,
            x,
            match ch[i] {
                TreeV::Element(e) => if e.tag == "object"@ {
                    nodes
                } else {
                    slide_tables(
                        e.children,
                        0,
                        x,
                        if e.tag == "table"@ {
                            match parsed(e, x, true) {
                                Some(t) => nodes.push(NodeV::Table(t)),
                                None => nodes,
                            }
                        } else {
                            nodes
                        },
                    )
                },
                _ => nodes,
            },
        )
    }
}

fn add_slide_tables(ch: &Vec<Tree>, x: &Odf, nodes: &mut Vec<Node>)
    ensures
        nodes_view(final(nodes)@) == slide_tables(trees_view(ch@), 0, x@, nodes_view(old(nodes)@)),
    decreases ch,
{
    let ghost v = trees_view(ch@);
    let ghost first = nodes_view(nodes@);
    let mut i: usize = 0;
    while i < ch.len()
        invariant
            i <= ch@.len(),
            v == trees_view(ch@),
            slide_tables(v, 0, x@, first) == slide_tables(v, i as int, x@, nodes_view(nodes@)),
        decreases ch@.len() - i,
    {
        assert(v[i as int] == tree_view(ch@[i as int]));
        match &ch[i] {
            Tree::Element(e) => {
                if !has_tag(e, "object") {
                    if has_tag(e, "table") {
                        match parse_table(e, x, true) {
                            Some(t) => {
                                push_node(nodes, Node::Table(t));
                            },
                            None => {},
                        }
                    }
                    add_slide_tables(&e.children, x, nodes);
                }
            },
            _ => {},
        }
        i += 1;
    }
}

/// The pictures of the images among the elements from `i` on of a frame; with
/// a chart its previews show nothing.
pub open spec fn slide_images(v: Seq<ElementV>, i: int, x: OdfV, chart: bool, nodes: Seq<NodeV>) -> Seq<
    NodeV,
>
    decreases v.len() - i,
{
    if i >= v.len() {
        nodes
    } else {
        let href = or_empty(attr_of(v[i], "href"@));
        slide_images(
            v,
            i + 1,
            x,
            chart,
            if v[i].tag == "image"@ && !(chart && (href.len() == 0 || is_preview(href))) {
                with_picture(nodes, picture(x, v[i]))
            } else {
                nodes
            },
        )
    }
}

fn add_slide_images(frame: &Element, x: &Odf, chart: bool, nodes: &mut Vec<Node>)
    ensures
        nodes_view(final(nodes)@) == slide_images(
            under(frame@),
            0,
            x@,
            chart,
            nodes_view(old(nodes)@),
        ),
{
    let v = descendants(frame);
    let ghost w = refs_view(v@);
    let ghost first = nodes_view(nodes@);
    let mut i: usize = 0;
    while i < v.len()
        invariant
            i <= v@.len(),
            w == refs_view(v@),
            slide_images(w, 0, x@, chart, first) == slide_images(
                w,
                i as int,
                x@,
                chart,
                nodes_view(nodes@),
            ),
        decreases v@.len() - i,
    {
        assert(w[i as int] == v@[i as int]@);
        if has_tag(v[i], "image") {
            let href = chars_or_empty(attr(v[i], "href"));
            if !(chart && (href.len() == 0 || starts_with(
                &trim_dots(&href),
                "ObjectReplacements/",
            ))) {
                add_picture(nodes, odf_picture(x, v[i]));
            }
        }
        i += 1;
    }
}

/// The nodes of the text boxes under the nodes from `i` on.
pub open spec fn boxes_from(ch: Seq<TreeV>, i: int, x: OdfV, title: bool, nodes: Seq<NodeV>) -> Seq<
    NodeV,
>
    decreases ch, ch.len() - i,
{
    if i < 0 || i >= ch.len() {
        nodes
    } else {
        boxes_from(
            ch,
            i + 1,
            x,
            title,
            match ch[i] {
                TreeV::Element(e) => boxes_from(
                    e.children,
                    0,
                    x,
                    title,
                    if e.tag == "text-box"@ {
                        box_from(e.children, 0, None, title, x, true, nodes)
                    } else {
                        nodes
                    },
                ),
                _ => nodes,
            },
        )
    }
}

fn add_boxes(ch: &Vec<Tree>, x: &Odf, title: bool, nodes: &mut Vec<Node>)
    ensures
        nodes_view(final(nodes)@) == boxes_from(
            trees_view(ch@),
            0,
            x@,
            title,
            nodes_view(old(nodes)@),
        ),
    decreases ch,
{
    let ghost v = trees_view(ch@);
    let ghost first = nodes_view(nodes@);
    let mut i: usize = 0;
    while i < ch.len()
        invariant
            i <= ch@.len(),
            v == trees_view(ch@),
            boxes_from(v, 0, x@, title, first) == boxes_from(
                v,
                i as int,
                x@,
                title,
                nodes_view(nodes@),
            ),
        decreases ch@.len() - i,
    {
        assert(v[i as int] == tree_view(ch@[i as int]));
        match &ch[i] {
            Tree::Element(e) => {
                if has_tag(e, "text-box") {
                    walk_textbox_children(&e.children, x, title, true, nodes);
                }
                add_boxes(&e.children, x, title, nodes);
            },
            _ => {},
        }
        i += 1;
    }
}

/// The nodes of a slide's frame: its chart, its tables, its images, then its
/// text boxes.
pub open spec fn with_frame(e: ElementV, x: OdfV, title: bool, nodes: Seq<NodeV>) -> Seq<NodeV> {
    let chart = object_chart(e.children, 0, x);
    let a = slide_tables(e.children, 0, x, with_picture(nodes, chart));
    boxes_from(e.children, 0, x, title, slide_images(under(e), 0, x, chart is Some, a))
}

/// Adds the nodes of a slide's frame.
pub fn walk_slide_frame(e: &Element, x: &Odf, title: bool, nodes: &mut Vec<Node>)
    ensures
        nodes_view(final(nodes)@) == with_frame(e@, x@, title, nodes_view(old(nodes)@)),
{
    let chart = chart_in(&e.children, x);
    let found = chart.is_some();
    add_picture(nodes, chart);
    add_slide_tables(&e.children, x, nodes);
    add_slide_images(e, x, found, nodes);
    add_boxes(&e.children, x, title, nodes);
}

/// The nodes of a slide from child `i` on; `seen` says that text came before.
pub open spec fn slide_from(
    ch: Seq<TreeV>,
    i: int,
    seen: bool,
    x: OdfV,
    framed: bool,
    nodes: Seq<NodeV>,
) -> Seq<NodeV>
    decreases ch.len() - i,
{
    if i >= ch.len() {
        nodes
    } else {
        match ch[i] {
            TreeV::Element(e) => if is_aside(e) {
                slide_from(ch, i + 1, seen, x, framed, nodes)
            } else {
                slide_from(
                    ch,
                    i + 1,
                    seen || text_in(e.children, 0),
                    x,
                    framed,
                    if e.tag == "frame"@ {
                        with_frame(e, x, is_title(e, !seen), nodes)
                    } else {
                        box_from(e.children, 0, None, is_title(e, !seen), x, framed, nodes)
                    },
                )
            },
            _ => slide_from(ch, i + 1, seen, x, framed, nodes),
        }
    }
}

fn walk_slide(page: &Element, x: &Odf, framed: bool, nodes: &mut Vec<Node>)
    ensures
        nodes_view(final(nodes)@) == slide_from(
            page@.children,
            0,
            false,
            x@,
            framed,
            nodes_view(old(nodes)@),
        ),
{
    let ghost v = page@.children;
    let ghost want = slide_from(v, 0, false, x@, framed, nodes_view(nodes@));
    let mut seen = false;
    let mut i: usize = 0;
    while i < page.children.len()
        invariant
            i <= page.children@.len(),
            v == trees_view(page.children@),
            want == slide_from(v, i as int, seen, x@, framed, nodes_view(nodes@)),
        decreases page.children@.len() - i,
    {
        assert(v[i as int] == tree_view(page.children@[i as int]));
        match &page.children[i] {
            Tree::Element(e) => {
                if !(has_tag(e, "notes") || has_tag(e, "par")) {
                    let title = is_slide_title_element(e, !seen);
                    if has_tag(e, "frame") {
                        walk_slide_frame(e, x, title, nodes);
                    } else {
                        walk_textbox_children(&e.children, x, title, framed, nodes);
                    }
                    if element_has_text(&e.children) {
                        seen = true;
                    }
                }
            },
            _ => {},
        }
        i += 1;
    }
}

/// The name of a slide: its own, or its number.
pub open spec fn slide_name(e: ElementV, k: int) -> Seq<char> {
    match attr_of(e, "name"@) {
        Some(n) => if n.len() == 0 {
            "slide-"@ + decimal(k + 1)
        } else {
            n
        },
        None => "slide-"@ + decimal(k + 1),
    }
}

fn name_of_slide(e: &Element, k: usize) -> (r: Vec<char>)
    ensures
        r@ == slide_name(e@, k as int),
{
    match attr(e, "name") {
        Some(n) => {
            let v = chars_of(n);
            if v.len() > 0 {
                return v;
            }
        },
        None => {},
    }
    let mut out = chars_of("slide-");
    push_decimal(&mut out, k as u128 + 1);
    out
}

/// The nodes of the slides from `k` on: a slide without a title has its name
/// for one.
pub open spec fn slides_from(v: Seq<ElementV>, k: int, x: OdfV, framed: bool, nodes: Seq<NodeV>) -> Seq<
    NodeV,
>
    decreases v.len() - k,
{
    if k >= v.len() {
        nodes
    } else {
        slides_from(
            v,
            k + 1,
            x,
            framed,
            slide_from(
                v[k].children,
                0,
                false,
                x,
                framed,
                if titled(v[k].children, 0, false) {
                    nodes
                } else {
                    nodes.push(NodeV::Heading { level: 1, text: slide_name(v[k], k) })
                },
            ),
        )
    }
}

/// The nodes of a presentation.
pub fn walk_presentation(e: &Element, x: &Odf, framed: bool) -> (r: Vec<Node>)
    ensures
        nodes_view(r@) == slides_from(kids_of(e@, "page"@), 0, x@, framed, seq![]),
{
    let v = kids(e, "page");
    let ghost w = refs_view(v@);
    let mut nodes: Vec<Node> = Vec::new();
    let mut k: usize = 0;
    assert(nodes_view(nodes@) =~= seq![]);
    while k < v.len()
        invariant
            k <= v@.len(),
            w == refs_view(v@),
            slides_from(w, 0, x@, framed, seq![]) == slides_from(
                w,
                k as int,
                x@,
                framed,
                nodes_view(nodes@),
            ),
        decreases v@.len() - k,
    {
        assert(w[k as int] == v@[k as int]@);
        if !slide_has_visible_title(v[k]) {
            push_node(&mut nodes, heading(1, &name_of_slide(v[k], k)));
        }
        walk_slide(v[k], x, framed, &mut nodes);
        k += 1;
    }
    nodes
}

// ------------------------------------------------------------ sheets

/// The texts of the paragraphs from `i` on that are not blank, added to
/// `done`.
pub open spec fn sheet_parts(v: Seq<ElementV>, i: int, done: Seq<Seq<char>>) -> Seq<Seq<char>>
    decreases v.len() - i,
{
    if i >= v.len() {
        done
    } else {
        sheet_parts(
            v,
            i + 1,
            if strip(all_text(v[i])).len() == 0 {
                done
            } else {
                done.push(all_text(v[i]))
            },
        )
    }
}

/// The text of a sheet's cell.
pub open spec fn sheet_text(e: ElementV) -> Seq<char> {
    joined(sheet_parts(either_kids_of(e, "p"@, "h"@), 0, seq![]), "\n"@)
}

fn ods_cell_text(e: &Element) -> (r: Vec<char>)
    ensures
        r@ == sheet_text(e@),
{
    let v = either_kids(e, "p", "h");
    let ghost w = refs_view(v@);
    let mut out: Vec<Vec<char>> = Vec::new();
    let mut i: usize = 0;
    assert(texts(out@) =~= seq![]);
    while i < v.len()
        invariant
            i <= v@.len(),
            w == refs_view(v@),
            sheet_parts(w, 0, seq![]) == sheet_parts(w, i as int, texts(out@)),
        decreases v@.len() - i,
    {
        broadcast use texts_push;

        assert(w[i as int] == v@[i as int]@);
        let t = text_of(v[i]);
        if trim(&t).len() > 0 {
            out.push(t);
        }
        i += 1;
    }
    join(&out, "\n")
}

/// A place farther on; the last one that can be counted stays.
pub open spec fn farther(a: int, b: int) -> int {
    if a + b > u64::MAX {
        u64::MAX as int
    } else {
        a + b
    }
}

fn go_on(a: u64, b: u64) -> (r: u64)
    ensures
        r == farther(a as int, b as int),
{
    if u64::MAX - a < b {
        u64::MAX
    } else {
        a + b
    }
}

/// A cell of a row at a column.
#[verifier::ext_equal]
pub struct PlacedV {
    pub col: int,
    pub text: Seq<char>,
}

/// The cells with a text at the columns from `col`, from the `k`-th on, up to
/// `n` of them.
pub open spec fn repeated(col: int, k: int, n: int, text: Seq<char>, done: Seq<PlacedV>) -> Seq<PlacedV>
    decreases n - k,
{
    if k >= n {
        done
    } else {
        repeated(col, k + 1, n, text, done.push(PlacedV { col: farther(col, k), text }))
    }
}

/// At most 1024: longer repeats of content are cut.
pub open spec fn bounded(n: int) -> int {
    if n > 1024 {
        1024
    } else {
        n
    }
}

/// The cells of a row from `i` on that hold text or are covered, added to
/// `done`.
pub open spec fn placed_cells(v: Seq<ElementV>, i: int, col: int, done: Seq<PlacedV>) -> Seq<PlacedV>
    decreases v.len() - i,
{
    if i >= v.len() {
        done
    } else {
        let n = times(v[i], "number-columns-repeated"@);
        let text = sheet_text(v[i]);
        placed_cells(
            v,
            i + 1,
            farther(col, n),
            if text.len() > 0 || v[i].tag == "covered-table-cell"@ {
                repeated(col, 0, bounded(n), text, done)
            } else {
                done
            },
        )
    }
}

/// The cells of a sheet with those of a row from `j` on at row `r`.
pub open spec fn with_cells(
    m: Map<(int, int), CellV>,
    row: Seq<PlacedV>,
    j: int,
    r: int,
) -> Map<(int, int), CellV>
    decreases row.len() - j,
{
    if j >= row.len() {
        m
    } else {
        with_cells(m.insert((r, row[j].col), CellV::Text(row[j].text)), row, j + 1, r)
    }
}

/// The cells of a sheet with a row at the rows from `r`, from the `k`-th on,
/// up to `n` of them.
pub open spec fn with_rows(
    m: Map<(int, int), CellV>,
    row: Seq<PlacedV>,
    r: int,
    k: int,
    n: int,
) -> Map<(int, int), CellV>
    decreases n - k,
{
    if k >= n {
        m
    } else {
        with_rows(with_cells(m, row, 0, farther(r, k)), row, r, k + 1, n)
    }
}

/// The cells of a sheet with those of the rows from `i` on, the first at row
/// `r`.
pub open spec fn sheet_from(
    rows: Seq<ElementV>,
    i: int,
    r: int,
    m: Map<(int, int), CellV>,
) -> Map<(int, int), CellV>
    decreases rows.len() - i,
{
    if i >= rows.len() {
        m
    } else {
        let n = times(rows[i], "number-rows-repeated"@);
        let row = placed_cells(
            either_kids_of(rows[i], "table-cell"@, "covered-table-cell"@),
            0,
            0,
            seq![],
        );
        sheet_from(rows, i + 1, farther(r, n), with_rows(m, row, r, 0, bounded(n)))
    }
}

/// The cells of a sheet.
pub open spec fn sheet_cells(e: ElementV) -> Map<(int, int), CellV> {
    sheet_from(kids_of(e, "table-row"@), 0, 0, Map::empty())
}

struct Placed {
    col: u64,
    text: Vec<char>,
}

impl Placed {
    spec fn model(self) -> PlacedV {
        PlacedV { col: self.col as int, text: self.text@ }
    }
}

spec fn placed_view(v: Seq<Placed>) -> Seq<PlacedV> {
    Seq::new(v.len(), |i: int| v[i].model())
}

fn cut_off(n: usize) -> (r: u64)
    ensures
        r == bounded(n as int),
{
    if n > 1024 {
        1024
    } else {
        n as u64
    }
}

fn place_cells(tr: &Element) -> (r: Vec<Placed>)
    ensures
        placed_view(r@) == placed_cells(
            either_kids_of(tr@, "table-cell"@, "covered-table-cell"@),
            0,
            0,
            seq![],
        ),
{
    let v = either_kids(tr, "table-cell", "covered-table-cell");
    let ghost w = refs_view(v@);
    let mut out: Vec<Placed> = Vec::new();
    let mut col: u64 = 0;
    let mut i: usize = 0;
    assert(placed_view(out@) =~= seq![]);
    while i < v.len()
        invariant
            i <= v@.len(),
            w == refs_view(v@),
            placed_cells(w, 0, 0, seq![]) == placed_cells(
                w,
                i as int,
                col as int,
                placed_view(out@),
            ),
        decreases v@.len() - i,
    {
        assert(w[i as int] == v@[i as int]@);
        let n: usize = repeat(v[i], "number-columns-repeated");
        let text = ods_cell_text(v[i]);
        if text.len() > 0 || has_tag(v[i], "covered-table-cell") {
            let most = cut_off(n);
            let ghost before = placed_view(out@);
            let mut k: u64 = 0;
            while k < most
                invariant
                    k <= most,
                    repeated(col as int, 0, most as int, text@, before) == repeated(
                        col as int,
                        k as int,
                        most as int,
                        text@,
                        placed_view(out@),
                    ),
                decreases most - k,
            {
                let x = Placed { col: go_on(col, k), text: copy(&text) };
                let ghost b = out@;
                out.push(x);
                assert(placed_view(out@) =~= placed_view(b).push(x.model()));
                k += 1;
            }
        }
        col = go_on(col, n as u64);
        i += 1;
    }
    out
}

/// The cells of a sheet, a position each.
pub fn sheet_grid(e: &Element) -> (r: Grid)
    ensures
        r.wf(),
        r@ == sheet_cells(e@),
{
    let rows = kids(e, "table-row");
    let ghost w = refs_view(rows@);
    let mut g = Grid::new();
    let mut at: u64 = 0;
    let mut i: usize = 0;
    assert(g@ =~= Map::empty());
    while i < rows.len()
        invariant
            i <= rows@.len(),
            w == refs_view(rows@),
            g.wf(),
            sheet_from(w, 0, 0, Map::empty()) == sheet_from(w, i as int, at as int, g@),
        decreases rows@.len() - i,
    {
        assert(w[i as int] == rows@[i as int]@);
        let n: usize = repeat(rows[i], "number-rows-repeated");
        let row = place_cells(rows[i]);
        let ghost cells = placed_view(row@);
        let most = cut_off(n);
        let ghost before = g@;
        let mut k: u64 = 0;
        while k < most
            invariant
                k <= most,
                g.wf(),
                cells == placed_view(row@),
                with_rows(before, cells, at as int, 0, most as int) == with_rows(
                    g@,
                    cells,
                    at as int,
                    k as int,
                    most as int,
                ),
            decreases most - k,
        {
            let r = go_on(at, k);
            let ghost b = g@;
            let mut j: usize = 0;
            while j < row.len()
                invariant
                    j <= row@.len(),
                    g.wf(),
                    cells == placed_view(row@),
                    with_cells(b, cells, 0, r as int) == with_cells(
                        g@,
                        cells,
                        j as int,
                        r as int,
                    ),
                decreases row@.len() - j,
            {
                assert(cells[j as int] == row@[j as int].model());
                g.insert(r, row[j].col, Cell::Text(string_of(&row[j].text)));
                j += 1;
            }
            k += 1;
        }
        at = go_on(at, n as u64);
        i += 1;
    }
    g
}

/// The tables of the sheets: for each sheet its connected regions.
pub open spec fn are_sheets(e: ElementV, sheets: Seq<Vec<Vec<Vec<Cell>>>>) -> bool {
    let v = kids_of(e, "table"@);
    sheets.len() == v.len() && forall|i: int|
        0 <= i < v.len() ==> is_regions(sheet_cells(v[i]), tables_view(#[trigger] sheets[i]@))
}

/// The tables of the sheets.
pub fn walk_spreadsheet(e: &Element) -> (r: Vec<Vec<Vec<Vec<Cell>>>>)
    ensures
        are_sheets(e@, r@),
{
    let v = kids(e, "table");
    let ghost w = refs_view(v@);
    let mut out: Vec<Vec<Vec<Vec<Cell>>>> = Vec::new();
    let mut i: usize = 0;
    while i < v.len()
        invariant
            i <= v@.len(),
            w == refs_view(v@),
            out@.len() == i,
            forall|k: int|
                0 <= k < i ==> is_regions(sheet_cells(w[k]), tables_view(#[trigger] out@[k]@)),
        decreases v@.len() - i,
    {
        assert(w[i as int] == v@[i as int]@);
        let g = sheet_grid(v[i]);
        out.push(g.regions());
        i += 1;
    }
    out
}

// ------------------------------------------------------------ documents

/// The names of the embedded objects among the elements from `i` on, added
/// to `done`.
pub open spec fn objects_from(v: Seq<ElementV>, i: int, done: Seq<Seq<char>>) -> Seq<Seq<char>>
    decreases v.len() - i,
{
    if i >= v.len() {
        done
    } else {
        objects_from(
            v,
            i + 1,
            match attr_of(v[i], "href"@) {
                Some(h) => if v[i].tag == "object"@ {
                    done.push(undotted(h))
                } else {
                    done
                },
                None => done,
            },
        )
    }
}

/// The names of the embedded objects of a document, in document order.
pub fn object_names(root: &Element) -> (r: Vec<Vec<char>>)
    ensures
        texts(r@) == objects_from(self_and_under(root@), 0, seq![]),
{
    let v = self_and_descendants(root);
    let ghost w = refs_view(v@);
    let mut out: Vec<Vec<char>> = Vec::new();
    let mut i: usize = 0;
    assert(texts(out@) =~= seq![]);
    while i < v.len()
        invariant
            i <= v@.len(),
            w == refs_view(v@),
            objects_from(w, 0, seq![]) == objects_from(w, i as int, texts(out@)),
        decreases v@.len() - i,
    {
        broadcast use texts_push;

        assert(w[i as int] == v@[i as int]@);
        match attr(v[i], "href") {
            Some(h) => {
                if has_tag(v[i], "object") {
                    out.push(trim_dots(&chars_of(h)));
                }
            },
            None => {},
        }
        i += 1;
    }
    out
}

/// A chart part of a package: the object's name and its XML text.
pub struct ObjectPart {
    pub name: String,
    pub xml: String,
}

/// View of an [`ObjectPart`].
#[verifier::ext_equal]
pub struct ObjectPartV {
    pub name: Seq<char>,
    pub xml: Seq<char>,
}

impl View for ObjectPart {
    type V = ObjectPartV;

    open spec fn view(&self) -> ObjectPartV {
        ObjectPartV { name: self.name@, xml: self.xml@ }
    }
}

/// Views of object parts.
pub open spec fn objects_view(v: Seq<ObjectPart>) -> Seq<ObjectPartV> {
    Seq::new(v.len(), |i: int| v[i]@)
}

/// The chart of an object's document: none without a chart or without data.
pub open spec fn chart_of(name: Seq<char>, root: ElementV, x: OdfV) -> Option<ChartV> {
    match first_tagged(self_and_under(root), "chart"@) {
        None => None,
        Some(_) => match first_tagged(self_and_under(root), "table"@) {
            None => None,
            Some(t) => match parsed(t, x, false) {
                None => None,
                Some(table) => Some(ChartV { name, kind: part_kind(root), table }),
            },
        },
    }
}

/// The chart of an object's document. The frames that its tables stand in
/// are not looked for: chart data holds no pictures.
pub fn read_chart(name: &Vec<char>, root: &Element, x: &Odf) -> (r: Option<Chart>)
    ensures
        match r {
            Some(c) => chart_of(name@, root@, x@) == Some(c@),
            None => chart_of(name@, root@, x@) is None,
        },
{
    let all = self_and_descendants(root);
    match find_tagged(&all, "chart") {
        None => None,
        Some(_) => match find_tagged(&all, "table") {
            None => None,
            Some(t) => match parse_table(t, x, false) {
                None => None,
                Some(table) => {
                    let mut kind = find_kind(&all, "chart");
                    if kind.is_none() {
                        kind = find_kind(&all, "series");
                    }
                    let shown = match kind {
                        Some(k) => k,
                        None => chars_of("other_chart"),
                    };
                    Some(Chart { name: copy(name), kind: shown, table })
                },
            },
        },
    }
}

/// The charts with those of the parts from `i` on; the first of a name
/// counts.
pub open spec fn charts_from(v: Seq<ObjectPartV>, i: int, x: OdfV, done: Seq<ChartV>) -> Seq<ChartV>
    decreases v.len() - i,
{
    if i >= v.len() {
        done
    } else {
        charts_from(
            v,
            i + 1,
            x,
            if chart_named(done, 0, v[i].name) is Some {
                done
            } else {
                match xml_root(v[i].xml, false) {
                    Some(root) => match chart_of(v[i].name, root, x) {
                        Some(c) => done.push(c),
                        None => done,
                    },
                    None => done,
                }
            },
        )
    }
}

fn load_charts(v: &Vec<ObjectPart>, x: &Odf) -> (r: Vec<Chart>)
    ensures
        charts_view(r@) == charts_from(objects_view(v@), 0, x@, seq![]),
{
    let ghost w = objects_view(v@);
    let mut out: Vec<Chart> = Vec::new();
    let mut i: usize = 0;
    assert(charts_view(out@) =~= seq![]);
    while i < v.len()
        invariant
            i <= v@.len(),
            w == objects_view(v@),
            charts_from(w, 0, x@, seq![]) == charts_from(w, i as int, x@, charts_view(out@)),
        decreases v@.len() - i,
    {
        assert(w[i as int] == v@[i as int]@);
        let name = chars_of(v[i].name.as_str());
        if find_chart(&out, &name).is_none() {
            match parse_xml(v[i].xml.as_str(), false) {
                Ok(root) => match read_chart(&name, &root, x) {
                    Some(c) => {
                        let ghost before = out@;
                        out.push(c);
                        assert(charts_view(out@) =~= charts_view(before).push(c@));
                    },
                    None => {},
                },
                Err(_) => {},
            }
        }
        i += 1;
    }
    out
}

/// The kinds of content.
#[derive(Clone, Copy, Debug, PartialEq, Eq, Structural)]
pub enum Kind {
    Text,
    Sheet,
    Slides,
}

/// One piece of a document's content.
#[verifier::ext_equal]
pub struct PieceV {
    pub kind: Kind,
    pub element: ElementV,
}

/// The kind of content that a tag holds.
pub open spec fn content_kind(t: Seq<char>) -> Option<Kind> {
    if t == "text"@ {
        Some(Kind::Text)
    } else if t == "spreadsheet"@ {
        Some(Kind::Sheet)
    } else if t == "presentation"@ {
        Some(Kind::Slides)
    } else {
        None
    }
}

/// The pieces of content among the children from `i` on of a body, added to
/// `done`.
pub open spec fn pieces_from(ch: Seq<TreeV>, i: int, done: Seq<PieceV>) -> Seq<PieceV>
    decreases ch.len() - i,
{
    if i >= ch.len() {
        done
    } else {
        pieces_from(
            ch,
            i + 1,
            match ch[i] {
                TreeV::Element(e) => match content_kind(e.tag) {
                    Some(kind) => done.push(PieceV { kind, element: e }),
                    None => done,
                },
                _ => done,
            },
        )
    }
}

/// The content of a document. A body without a container is one itself: of
/// the kind that the root's class names, or slides where it holds a page.
pub open spec fn content_of(root: ElementV) -> Seq<PieceV> {
    match child_of(root, "body"@) {
        None => seq![],
        Some(body) => {
            let p = pieces_from(body.children, 0, seq![]);
            let class = attr_of(root, "class"@);
            if p.len() > 0 {
                p
            } else if class == Some("presentation"@) || child_of(body, "page"@) is Some {
                seq![PieceV { kind: Kind::Slides, element: body }]
            } else if class == Some("spreadsheet"@) {
                seq![PieceV { kind: Kind::Sheet, element: body }]
            } else {
                seq![PieceV { kind: Kind::Text, element: body }]
            }
        },
    }
}

/// A converted piece of content.
pub enum Converted {
    Nodes(Vec<Node>),
    Sheets(Vec<Vec<Vec<Vec<Cell>>>>),
}

/// Whether a piece was converted so.
pub open spec fn is_converted(c: Converted, p: PieceV, x: OdfV, framed: bool) -> bool {
    match p.kind {
        Kind::Text => c matches Converted::Nodes(v) && nodes_view(v@) == blocks_from(
            p.element.children,
            0,
            None,
            x,
            framed,
            seq![],
        ),
        Kind::Slides => c matches Converted::Nodes(v) && nodes_view(v@) == slides_from(
            kids_of(p.element, "page"@),
            0,
            x,
            framed,
            seq![],
        ),
        Kind::Sheet => c matches Converted::Sheets(s) && are_sheets(p.element, s@),
    }
}

/// Whether the content of a document was converted so.
pub open spec fn all_converted(r: Seq<Converted>, root: ElementV, x: OdfV) -> bool {
    let p = content_of(root);
    r.len() == p.len() && forall|i: int|
        0 <= i < p.len() ==> is_converted(#[trigger] r[i], p[i], x, root.tag == "frame"@)
}

fn convert_piece(e: &Element, kind: Kind, x: &Odf, framed: bool) -> (r: Converted)
    ensures
        is_converted(r, PieceV { kind, element: e@ }, x@, framed),
{
    match kind {
        Kind::Text => {
            let mut nodes: Vec<Node> = Vec::new();
            assert(nodes_view(nodes@) =~= seq![]);
            walk_blocks(&e.children, x, framed, &mut nodes);
            Converted::Nodes(nodes)
        },
        Kind::Slides => Converted::Nodes(walk_presentation(e, x, framed)),
        Kind::Sheet => Converted::Sheets(walk_spreadsheet(e)),
    }
}

/// The content of a document's tree.
pub fn convert_tree(root: &Element, x: &Odf) -> (r: Vec<Converted>)
    ensures
        all_converted(r@, root@, x@),
{
    let framed = has_tag(root, "frame");
    let mut out: Vec<Converted> = Vec::new();
    let body = match child(root, "body") {
        None => {
            return out;
        },
        Some(b) => b,
    };
    let ghost v = body@.children;
    let ghost want = pieces_from(v, 0, seq![]);
    let ghost mut done: Seq<PieceV> = seq![];
    let mut i: usize = 0;
    while i < body.children.len()
        invariant
            i <= body.children@.len(),
            v == trees_view(body.children@),
            framed == (root@.tag == "frame"@),
            want == pieces_from(v, i as int, done),
            out@.len() == done.len(),
            forall|k: int|
                0 <= k < done.len() ==> is_converted(#[trigger] out@[k], done[k], x@, framed),
        decreases body.children@.len() - i,
    {
        assert(v[i as int] == tree_view(body.children@[i as int]));
        match &body.children[i] {
            Tree::Element(e) => {
                let kind = if has_tag(e, "text") {
                    Some(Kind::Text)
                } else if has_tag(e, "spreadsheet") {
                    Some(Kind::Sheet)
                } else if has_tag(e, "presentation") {
                    Some(Kind::Slides)
                } else {
                    None
                };
                match kind {
                    Some(k) => {
                        let c = convert_piece(e, k, x, framed);
                        proof {
                            done = done.push(PieceV { kind: k, element: e@ });
                        }
                        out.push(c);
                    },
                    None => {},
                }
            },
            _ => {},
        }
        i += 1;
    }
    if out.len() == 0 {
        let class = attr(root, "class");
        let slides = match class {
            Some(c) => str_eq(c, "presentation"),
            None => false,
        };
        let sheet = match class {
            Some(c) => str_eq(c, "spreadsheet"),
            None => false,
        };
        let kind = if slides || child(body, "page").is_some() {
            Kind::Slides
        } else if sheet {
            Kind::Sheet
        } else {
            Kind::Text
        };
        let c = convert_piece(body, kind, x, framed);
        out.push(c);
        assert(out@[0] == c);
        assert(content_of(root@) =~= seq![PieceV { kind, element: body@ }]);
    } else {
        assert(content_of(root@) == done);
    }
    out
}

/// A file to convert. `parts` are the names of the parts of a package, none
/// for a flat document; `objects` the documents of its embedded objects;
/// `fetched` the addresses whose images were fetched.
pub struct OdfSource {
    pub content: String,
    pub styles: String,
    pub parts: Option<Vec<String>>,
    pub objects: Vec<ObjectPart>,
    pub fetched: Vec<String>,
}

/// Why a file was not converted.
#[derive(Debug, PartialEq, Eq)]
pub enum OdfError {
    /// The content has no tree.
    Xml(XmlError),
    /// The file is neither a package nor a flat document.
    NotOffice,
}

/// The styles of a document: those of its content, then those of its styles
/// part.
pub open spec fn styles_of(root: ElementV, styles: Seq<char>) -> Seq<StyleV> {
    let a = styles_from(self_and_under(root), 0, seq![]);
    match xml_root(styles, false) {
        Some(s) => styles_from(self_and_under(s), 0, a),
        None => a,
    }
}

/// The list styles of a document.
pub open spec fn list_styles_of(root: ElementV, styles: Seq<char>) -> Seq<ListStyleV> {
    let a = list_styles_from(self_and_under(root), 0, seq![]);
    match xml_root(styles, false) {
        Some(s) => list_styles_from(self_and_under(s), 0, a),
        None => a,
    }
}

/// What is known of a document before its charts are read.
pub open spec fn known(root: ElementV, s: OdfSource) -> OdfV {
    OdfV {
        styles: styles_of(root, s.styles@),
        lists: list_styles_of(root, s.styles@),
        charts: seq![],
        parts: match s.parts {
            Some(p) => Some(strs(p@)),
            None => None,
        },
        fetched: strs(s.fetched@),
    }
}

/// What is known of a document. Only a package has chart parts.
pub open spec fn context(root: ElementV, s: OdfSource) -> OdfV {
    let k = known(root, s);
    if s.parts is Some {
        OdfV { charts: charts_from(objects_view(s.objects@), 0, k, seq![]), ..k }
    } else {
        k
    }
}

fn text_list(v: &Vec<String>) -> (r: Vec<Vec<char>>)
    ensures
        texts(r@) == strs(v@),
{
    let mut out: Vec<Vec<char>> = Vec::new();
    let mut i: usize = 0;
    while i < v.len()
        invariant
            i <= v@.len(),
            out@.len() == i,
            forall|k: int| 0 <= k < i ==> (#[trigger] out@[k])@ == v@[k]@,
        decreases v@.len() - i,
    {
        out.push(chars_of(v[i].as_str()));
        i += 1;
    }
    assert(texts(out@) =~= strs(v@));
    out
}

/// Reads what is known of a document.
pub fn read_context(root: &Element, s: &OdfSource) -> (r: Odf)
    ensures
        r@ == context(root@, *s),
{
    let mut styles: Vec<Style> = Vec::new();
    let mut lists: Vec<ListStyle> = Vec::new();
    assert(styles_view(styles@) =~= seq![]);
    assert(list_styles_view(lists@) =~= seq![]);
    parse_styles(root, &mut styles, &mut lists);
    match parse_xml(s.styles.as_str(), false) {
        Ok(more) => {
            parse_styles(&more, &mut styles, &mut lists);
        },
        Err(_) => {},
    }
    let parts = match &s.parts {
        Some(p) => Some(text_list(p)),
        None => None,
    };
    let packaged = parts.is_some();
    let charts: Vec<Chart> = Vec::new();
    assert(charts_view(charts@) =~= seq![]);
    let mut x = Odf { styles, lists, charts, parts, fetched: text_list(&s.fetched) };
    assert(x@ == known(root@, *s));
    if packaged {
        x.charts = load_charts(&s.objects, &x);
    }
    x
}

/// The OpenDocument backend.
pub struct OdfBackend;

impl OdfBackend {
    /// The content of a file, in the order of its pieces.
    pub fn convert(&self, s: &OdfSource) -> (r: Result<Vec<Converted>, OdfError>)
        ensures
            match xml_items(s.content@, false) {
                Err(e) => r matches Err(OdfError::Xml(XmlError::Syntax(m))) && m@ == e,
                Ok(items) => match root_of(items) {
                    None => r matches Err(OdfError::Xml(XmlError::NoRoot)),
                    Some(root) => if s.parts is None && root.tag != "document"@ && root.tag
                        != "document-content"@ {
                        r matches Err(OdfError::NotOffice)
                    } else {
                        r matches Ok(v) && all_converted(v@, root, context(root, *s))
                    },
                },
            },
    {
        match parse_xml(s.content.as_str(), false) {
            Err(e) => Err(OdfError::Xml(e)),
            Ok(root) => {
                if s.parts.is_none() && !has_tag(&root, "document") && !has_tag(
                    &root,
                    "document-content",
                ) {
                    return Err(OdfError::NotOffice);
                }
                let x = read_context(&root, s);
                Ok(convert_tree(&root, &x))
            },
        }
    }
}

} // verus!
