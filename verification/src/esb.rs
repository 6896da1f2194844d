//! Conversion between ESB XML messages and JSON.
//!
//! An ESB message is an XML document: a `<service>` holding headers and a
//! `<body>`, made of `<data name="...">` entries whose values are
//! `<field>`s, `<array>`s and `<struct>`s.

pub mod to_json;
pub mod to_xml;

use vstd::prelude::*;
use vstd::string::*;
use crate::ascii;

pub use to_json::{esb_xml_to_json, XmlToJson};
pub use to_xml::{esb_json_to_xml, match_field, match_head, try_esb_json_to_xml, JsonToXml, Level};

verus! {

/// Whether `name`, lower-cased, is the literal `lit`.
pub open spec fn name_is(name: Seq<u8>, lit: &str) -> bool {
    ascii::lower_is(name, lit.spec_bytes())
}

/// An error of a conversion.
#[derive(Debug)]
pub enum EsbError {
    /// The XML reader or writer reported this error.
    Xml(quick_xml::Error),
    /// `serde_json` could not read the message as JSON.
    Json(serde_json::Error),
}

} // verus!
