//! Document backends: readers that turn the formats of a document collection
//! into one flat list of document nodes.

pub mod abw;
pub mod bytes;
pub mod cell;
pub mod celltable;
pub mod chandra;
pub mod codepage;
pub mod decode;
pub mod deepseek;
pub mod docling_json;
pub mod document;
pub mod duplicate;
pub mod ebcdic;
pub mod html;
pub mod htmllist;
pub mod htmltable;
pub mod inline;
pub mod interchange;
pub mod iwatable;
pub mod jats;
pub mod json;
pub mod laws;
pub mod location;
pub mod mhtml;
pub mod odf;
pub mod odfbody;
pub mod odflist;
pub mod odftable;
pub mod pages;
pub mod pages_graph;
pub mod pages_iwa;
pub mod pages_xml;
pub mod parse;
pub mod pattern;
pub mod pptx;
pub mod quattro;
pub mod sheet;
pub mod shown;
pub mod slide;
pub mod text;
pub mod tree;
pub mod wire;
