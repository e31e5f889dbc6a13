//! What the readers promise of the documents they read: each law says, over
//! the elements, attributes and bytes of a source by their own names, what
//! comes out of them.

pub mod abw;
pub mod abwimage;
pub mod article;
pub mod articlehead;
pub mod decode;
pub mod docling;
pub mod doclinglist;
pub mod ebcdic;
pub mod flow;
pub mod html;
pub mod htmltable;
pub mod interchange;
pub mod iwatable;
pub mod jats;
pub mod lines;
pub mod location;
pub mod mhtml;
pub mod notes;
pub mod ocr;
pub mod odf;
pub mod odfsheet;
pub mod odfslide;
pub mod page;
pub mod pageline;
pub mod pages;
pub mod pptx;
pub mod quattro;
pub mod quattrocell;
pub mod records;
pub mod sheet;
pub mod slide;
pub mod sylk;
pub mod text;
pub mod tree;
pub mod wire;
