//! Conversion between the ESB XML message format and JSON, and the decision
//! logic of a few small asynchronous combinators: a stream over a set of
//! futures, and a future with a deadline.

pub mod ascii;
pub mod bytes_buf;
pub mod esb;
pub mod json;
pub mod select;
pub mod stream_vec;
pub mod strings;
pub mod timeout;
pub mod xml;

pub use esb::{esb_json_to_xml, esb_xml_to_json};
pub use select::Select;
pub use stream_vec::StreamVec;
