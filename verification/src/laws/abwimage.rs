//! Laws of the pictures and runs of AbiWord documents.

use crate::abw::{
    image_named, image_of, images_from, inline_from, inline_run, is_gzip, is_label, markdown_from,
    packed_from, picture, pictures_from, run_markdown, untabbed, ImageV, RunV,
};
use crate::document::{InlineRunV, NodeV};
use crate::odfbody::from_base64;
use crate::text::{has_prefix, strip};
use crate::tree::{head, plain_attr_of, ElementV};
use vstd::prelude::*;

verus! {

/// A data element with a name, the type of a picture and encoded content is a
/// picture with an address that holds that type and that content; any other
/// one is none.
pub proof fn data_elements_are_pictures(
    e: ElementV,
    name: Seq<char>,
    kind: Seq<char>,
    text: Seq<char>,
)
    requires
        plain_attr_of(e, "name"@) == Some(name),
        plain_attr_of(e, "mime-type"@) == Some(kind),
        head(e) == Some(text),
    ensures
        ({
            let data = packed_from(text, 0, seq![]);
            &&& has_prefix(kind, "image/"@) && plain_attr_of(e, "base64"@) == Some("yes"@)
                && from_base64(data) is Some ==> image_of(e) == Some(
                ImageV { name, address: "data:"@ + kind + ";base64,"@ + data },
            )
            &&& !has_prefix(kind, "image/"@) ==> image_of(e) is None
            &&& plain_attr_of(e, "base64"@) is None ==> image_of(e) is None
        }),
{
}

/// The pictures of a document are its `d` elements, in their order; of several
/// with a name the last one counts.
pub proof fn pictures_are_found_by_name(
    v: Seq<ElementV>,
    i: int,
    done: Seq<ImageV>,
    x: ImageV,
    other: Seq<char>,
)
    requires
        0 <= i < v.len(),
    ensures
        v[i].tag == "d"@ && image_of(v[i]) == Some(x) ==> images_from(v, i, done) == images_from(
            v,
            i + 1,
            done + seq![x],
        ),
        v[i].tag != "d"@ ==> images_from(v, i, done) == images_from(v, i + 1, done),
        image_named(done.push(x), done.len() as int + 1, x.name) == Some(x.address),
        image_named(done.push(x), 0, other) is None,
{
    assert(done.push(x) =~= done + seq![x]);
}

/// Every `image` element is a picture, in its order.
pub proof fn images_come_in_order(
    v: Seq<ElementV>,
    i: int,
    images: Seq<ImageV>,
    nodes: Seq<NodeV>,
)
    requires
        0 <= i < v.len(),
    ensures
        v[i].tag == "image"@ ==> pictures_from(v, i, images, nodes) == pictures_from(
            v,
            i + 1,
            images,
            nodes + seq![picture(v[i], images)],
        ),
        v[i].tag != "image"@ ==> pictures_from(v, i, images, nodes) == pictures_from(
            v,
            i + 1,
            images,
            nodes,
        ),
{
    assert(nodes.push(picture(v[i], images)) =~= nodes + seq![picture(v[i], images)]);
}

/// Runs are written one behind the other; blank ones are no runs of their own.
pub proof fn runs_follow_each_other(v: Seq<RunV>, i: int, out: Seq<char>, done: Seq<InlineRunV>)
    requires
        0 <= i < v.len(),
    ensures
        markdown_from(v, i, out) == markdown_from(v, i + 1, out + run_markdown(v[i])),
        markdown_from(v, v.len() as int, out) == out,
        strip(v[i].text).len() > 0 ==> inline_from(v, i, done) == inline_from(
            v,
            i + 1,
            done + seq![inline_run(v[i])],
        ),
        strip(v[i].text).len() == 0 ==> inline_from(v, i, done) == inline_from(v, i + 1, done),
{
    assert(done.push(inline_run(v[i])) =~= done + seq![inline_run(v[i])]);
}

/// Tabs at the start are taken off; a field of the type `list_label` is a
/// label; a packed file begins with its two bytes.
pub proof fn labels_and_tabs(e: ElementV, s: Seq<char>, b: Seq<u8>)
    ensures
        untabbed(seq!['\t'] + s) == untabbed(s),
        s.len() == 0 || s[0] != '\t' ==> untabbed(s) == s,
        plain_attr_of(e, "type"@) == Some("list_label"@) ==> is_label(e),
        plain_attr_of(e, "type"@) is None ==> !(is_label(e)),
        is_gzip(seq![0x1fu8, 0x8bu8] + b),
        b.len() > 0 && b[0] == 0x3c ==> !(is_gzip(b)),
{
    assert((seq!['\t'] + s).skip(1) =~= s);
}

} // verus!
