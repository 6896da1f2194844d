//! The XML reader and writer of `quick_xml`, as the conversions use them.
//!
//! Reading: a reader made from a message is modelled by the sequence of
//! events it has yet to report (`pending_events`); the whole sequence that
//! `quick_xml` reports for a message is named `xml_events`.  Writing: a
//! writer is modelled by the bytes written so far (`written`), and each event
//! the library writes is stated byte by byte, as `quick_xml`'s source writes
//! it.

use vstd::prelude::*;
use vstd::string::*;
use bytes::{Buf, BufMut, Bytes};
use quick_xml::events::{BytesEnd, BytesStart, BytesText, Event};
use quick_xml::{Reader, Writer};

verus! {

#[verifier::external_type_specification]
#[verifier::external_body]
#[verifier::reject_recursive_types(R)]
pub struct ExXmlReader<R>(Reader<R>);

#[verifier::external_type_specification]
#[verifier::external_body]
#[verifier::reject_recursive_types(W)]
pub struct ExXmlWriter<W>(Writer<W>);

#[verifier::external_type_specification]
#[verifier::external_body]
pub struct ExXmlError(quick_xml::Error);

#[verifier::external_type_specification]
#[verifier::external_body]
pub struct ExBytesStart<'a>(BytesStart<'a>);

#[verifier::external_type_specification]
#[verifier::external_body]
pub struct ExBytesEnd<'a>(BytesEnd<'a>);

#[verifier::external_type_specification]
#[verifier::external_body]
pub struct ExBytesText<'a>(BytesText<'a>);

/// An XML reader over a message held in `Bytes`.
pub type MessageReader = Reader<bytes::buf::Reader<Bytes>>;

/// An XML writer into a growing byte vector.
pub type MessageWriter = Writer<bytes::buf::Writer<Vec<u8>>>;

/// One attribute of a start tag, as the attribute iterator reports it.
#[derive(Debug, PartialEq, Eq)]
pub enum XmlAttr {
    /// A well-formed attribute: its raw key and its raw (still escaped) value.
    Pair(Vec<u8>, Vec<u8>),
    /// The iterator reported a malformed attribute here.
    Malformed,
}

/// One event of an XML document, holding what the conversions read of it.
#[derive(Debug, PartialEq, Eq)]
pub enum XmlEvent {
    /// `<name ...>`: the raw name and every attribute in order.
    Start(Vec<u8>, Vec<XmlAttr>),
    /// `</name>`: the raw name.
    End(Vec<u8>),
    /// `<name .../>`: the raw name.
    Empty(Vec<u8>),
    /// Character data between tags, raw (still escaped).
    Text(Vec<u8>),
    /// The end of the document.
    Eof,
    /// Any other event (declaration, comment, CDATA, processing instruction,
    /// document type).
    Other,
}

/// The outcome of one read.
pub type ReadResult = Result<XmlEvent, quick_xml::Error>;

/// A sequence of reads that ends where a reader stops: every read but the
/// last gives an event other than `Eof`, and the last gives `Eof` or an error.
pub open spec fn reads_closed(s: Seq<ReadResult>) -> bool {
    &&& s.len() > 0
    &&& forall|i: int| 0 <= i < s.len() - 1 ==> (#[trigger] s[i] matches Ok(e) && !(e is Eof))
    &&& (s.last() matches Ok(e) ==> e is Eof)
}

/// What `quick_xml`'s `Reader` (default settings) reports, one
/// `read_event_into` call after another, when it reads `input` from the
/// start: every event up to and including the first `Eof` or error, each
/// event as `read_event` copies it into an `XmlEvent`.
pub uninterp spec fn xml_events(input: Seq<u8>) -> Seq<ReadResult>;

/// What a reader has yet to report, up to and including the first `Eof` or
/// error.
pub uninterp spec fn pending_events(r: MessageReader) -> Seq<ReadResult>;

/// `Reader::from_reader(b.reader())`.  The reader will report
/// `xml_events` of the message.  That sequence is finite and ends in `Eof` or
/// an error: every event before the end consumes at least one byte of the
/// message, and after `Eof` or an error the reader stays in its final state.
#[verifier::external_body]
pub(crate) fn xml_reader(b: Bytes) -> (r: MessageReader)
    ensures
        pending_events(r) == xml_events(crate::bytes_buf::bytes_view(b)),
        reads_closed(pending_events(r)),
{
    Reader::from_reader(b.reader())
}

/// One read, as a reader in state `before` makes it: it gives the next
/// pending event and drops it from what is pending; with nothing pending
/// (after `Eof` or an error) it gives `Eof` again.
pub open spec fn read_step(before: Seq<ReadResult>, res: ReadResult, after: Seq<ReadResult>) -> bool {
    if before.len() > 0 {
        res == before[0] && after == before.drop_first()
    } else {
        res is Ok && res->Ok_0 is Eof && after.len() == 0
    }
}

/// `Reader::read_event_into`, with the event copied out of the buffer.  It
/// reports the next pending event; once none is pending (after `Eof` or an
/// error) it reports `Eof` again.  Nothing is stated of what the buffer
/// holds afterwards.
#[verifier::external_body]
pub(crate) fn read_event(r: &mut MessageReader, buf: &mut Vec<u8>) -> (res: ReadResult)
    ensures
        read_step(pending_events(*old(r)), res, pending_events(*final(r))),
{
    Ok(match r.read_event_into(buf)? {
        Event::Start(s) => XmlEvent::Start(
            s.name().as_ref().to_vec(),
            s.attributes().map(|a| match a {
                Ok(a) => XmlAttr::Pair(a.key.into_inner().to_vec(), a.value.to_vec()),
                Err(_) => XmlAttr::Malformed,
            }).collect(),
        ),
        Event::End(e) => XmlEvent::End(e.name().as_ref().to_vec()),
        Event::Empty(s) => XmlEvent::Empty(s.name().as_ref().to_vec()),
        Event::Text(t) => XmlEvent::Text(t.to_vec()),
        Event::Eof => XmlEvent::Eof,
        _ => XmlEvent::Other,
    })
}

/// What `quick_xml::escape::escape` writes for one byte of a string.
pub open spec fn escape_byte(b: u8) -> Seq<u8> {
    if b == '<' as u8 {
        "&lt;".spec_bytes()
    } else if b == '>' as u8 {
        "&gt;".spec_bytes()
    } else if b == '&' as u8 {
        "&amp;".spec_bytes()
    } else if b == '\'' as u8 {
        "&apos;".spec_bytes()
    } else if b == '"' as u8 {
        "&quot;".spec_bytes()
    } else {
        seq![b]
    }
}

/// The bytes of a string with the XML special characters `<`, `>`, `&`,
/// `'`, `"` escaped, as `quick_xml::escape::escape` does it.
pub open spec fn xml_escape(s: Seq<u8>) -> Seq<u8>
    decreases s.len(),
{
    if s.len() == 0 {
        Seq::empty()
    } else {
        xml_escape(s.drop_last()) + escape_byte(s.last())
    }
}

/// The bytes of a string of ASCII characters are those characters.
proof fn lemma_ascii_bytes(s: &str)
    requires
        vstd::utf8::is_ascii_chars(s@),
    ensures
        s.spec_bytes().len() == s@.len(),
        forall|i: int| 0 <= i < s@.len() ==> #[trigger] s.spec_bytes()[i] == s@[i] as u8,
{
    vstd::utf8::is_ascii_chars_encode_utf8(s@);
}

/// What `escape_byte` writes holds no `<`, `>`, `'` or `"`.
proof fn lemma_escape_byte_no_markup(b: u8)
    ensures
        forall|i: int|
            0 <= i < escape_byte(b).len() ==> {
                let c = #[trigger] escape_byte(b)[i];
                c != '<' as u8 && c != '>' as u8 && c != '\'' as u8 && c != '"' as u8
            },
{
    reveal_strlit("&lt;");
    reveal_strlit("&gt;");
    reveal_strlit("&amp;");
    reveal_strlit("&apos;");
    reveal_strlit("&quot;");
    lemma_ascii_bytes("&lt;");
    lemma_ascii_bytes("&gt;");
    lemma_ascii_bytes("&amp;");
    lemma_ascii_bytes("&apos;");
    lemma_ascii_bytes("&quot;");
}

/// Escaped text holds no `<`, `>`, `'` or `"`: no value written through the
/// escape can open or close a tag or an attribute value.
pub proof fn lemma_escape_no_markup(s: Seq<u8>)
    ensures
        forall|i: int|
            0 <= i < xml_escape(s).len() ==> {
                let b = #[trigger] xml_escape(s)[i];
                b != '<' as u8 && b != '>' as u8 && b != '\'' as u8 && b != '"' as u8
            },
    decreases s.len(),
{
    if s.len() > 0 {
        lemma_escape_no_markup(s.drop_last());
        lemma_escape_byte_no_markup(s.last());
        let e = escape_byte(s.last());
        let p = xml_escape(s.drop_last());
        assert forall|i: int| 0 <= i < xml_escape(s).len() implies {
            let b = #[trigger] xml_escape(s)[i];
            b != '<' as u8 && b != '>' as u8 && b != '\'' as u8 && b != '"' as u8
        } by {
            if i < p.len() {
                assert(xml_escape(s)[i] == p[i]);
            } else {
                assert(xml_escape(s)[i] == e[i - p.len()]);
            }
        }
    }
}

/// The bytes that `BytesStart::push_attribute((key, value))` appends to a
/// start tag: a space, the key, `="`, the escaped value, `"`.
pub open spec fn attribute_bytes(key: Seq<u8>, value: Seq<u8>) -> Seq<u8> {
    " ".spec_bytes() + key + "=\"".spec_bytes() + xml_escape(value) + "\"".spec_bytes()
}

/// The bytes written so far by a writer.
pub uninterp spec fn written(w: MessageWriter) -> Seq<u8>;

/// The content of a start tag: its name and its attributes.
pub uninterp spec fn start_content(s: BytesStart<'static>) -> Seq<u8>;

/// The name of a start tag.
pub uninterp spec fn start_name(s: BytesStart<'static>) -> Seq<u8>;

/// The name of an end tag.
pub uninterp spec fn end_name(e: BytesEnd<'static>) -> Seq<u8>;

/// The (escaped) content of a text event.
pub uninterp spec fn text_content(t: BytesText<'static>) -> Seq<u8>;

/// `Writer::new(v.writer())`: a writer (without indentation) whose
/// output starts with the bytes of `v`.  A `Vec<u8>` never holds more than
/// `isize::MAX` bytes.
#[verifier::external_body]
pub(crate) fn xml_writer(v: Vec<u8>) -> (w: MessageWriter)
    ensures
        written(w) == v@,
        written(w).len() <= isize::MAX,
{
    Writer::new(v.writer())
}

/// `w.into_inner().into_inner()`: the bytes written.
#[verifier::external_body]
pub(crate) fn writer_into_vec(w: MessageWriter) -> (v: Vec<u8>)
    ensures
        v@ == written(w),
{
    w.into_inner().into_inner()
}

/// `BytesStart::new(name)`: a start tag with that name and no attributes.
#[verifier::external_body]
pub(crate) fn start_tag_new(name: &'static str) -> (s: BytesStart<'static>)
    ensures
        start_content(s) == name.spec_bytes(),
        start_name(s) == name.spec_bytes(),
{
    BytesStart::new(name)
}

/// `BytesStart::push_attribute((key, value))`: appends the attribute, with
/// the value escaped; the name stays.
#[verifier::external_body]
pub(crate) fn push_attribute(s: &mut BytesStart<'static>, key: &str, value: &str)
    ensures
        start_content(*final(s)) == start_content(*old(s)) + attribute_bytes(
            key.spec_bytes(),
            value.spec_bytes(),
        ),
        start_name(*final(s)) == start_name(*old(s)),
{
    s.push_attribute((key, value))
}

/// `BytesStart::to_end`, owned: the end tag of the same name.
#[verifier::external_body]
pub(crate) fn end_of(s: &BytesStart<'static>) -> (e: BytesEnd<'static>)
    ensures
        end_name(e) == start_name(*s),
{
    s.to_end().into_owned()
}

/// `BytesEnd::new(name)`: an end tag with that name.
#[verifier::external_body]
pub(crate) fn end_tag_new(name: &'static str) -> (e: BytesEnd<'static>)
    ensures
        end_name(e) == name.spec_bytes(),
{
    BytesEnd::new(name)
}

/// `BytesText::new(text)`, owned: the text, escaped.
#[verifier::external_body]
pub(crate) fn text_new(text: &str) -> (t: BytesText<'static>)
    ensures
        text_content(t) == xml_escape(text.spec_bytes()),
{
    BytesText::new(text).into_owned()
}

/// An event to write.
pub enum XmlOut<'a> {
    Start(&'a BytesStart<'static>),
    End(BytesEnd<'static>),
    Text(BytesText<'static>),
}

/// The bytes that `Writer::write_event` writes for an event: `<` content
/// `>` for a start tag, `</` name `>` for an end tag, the content for text.
pub open spec fn out_bytes(ev: XmlOut<'_>) -> Seq<u8> {
    match ev {
        XmlOut::Start(s) => "<".spec_bytes() + start_content(*s) + ">".spec_bytes(),
        XmlOut::End(e) => "</".spec_bytes() + end_name(e) + ">".spec_bytes(),
        XmlOut::Text(t) => text_content(t),
    }
}

/// `Writer::write_event`.  When it succeeds it has appended `out_bytes`.  It
/// succeeds whenever the output stays within `isize::MAX` bytes: the
/// underlying `bytes` writer accepts all it is given up to that size, and an
/// error can only come from it.  The vector under it never holds more than
/// `isize::MAX` bytes.  Which error, and what the writer holds after one,
/// is not stated.
#[verifier::external_body]
pub(crate) fn write_event(w: &mut MessageWriter, ev: XmlOut<'_>) -> (res: Result<(), quick_xml::Error>)
    ensures
        res is Ok ==> written(*final(w)) == written(*old(w)) + out_bytes(ev),
        written(*old(w)).len() + out_bytes(ev).len() <= isize::MAX ==> res is Ok,
        written(*final(w)).len() <= isize::MAX,
{
    match ev {
        XmlOut::Start(s) => w.write_event(Event::Start(s.clone())),
        XmlOut::End(e) => w.write_event(Event::End(e)),
        XmlOut::Text(t) => w.write_event(Event::Text(t)),
    }
}

} // verus!
