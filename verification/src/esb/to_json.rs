//! From ESB XML to JSON.

use vstd::prelude::*;
use bytes::{Bytes, BytesMut};
use vstd::string::*;
use crate::ascii;
use crate::bytes_buf;
use crate::xml::{self, XmlAttr, XmlEvent};
use super::EsbError;

verus! {

/// Whether `s` ends with `needle`.
pub open spec fn ends_with(s: Seq<u8>, needle: Seq<u8>) -> bool {
    needle.len() <= s.len() && s.subrange(s.len() - needle.len(), s.len() as int) == needle
}

/// `s` with one trailing `needle` removed, where it ends with one.
pub open spec fn without_trailing(s: Seq<u8>, needle: Seq<u8>) -> Seq<u8> {
    if ends_with(s, needle) {
        s.take(s.len() - needle.len())
    } else {
        s
    }
}

/// The value of the first attribute whose key is `name` (in any case),
/// scanning the attributes in order and stopping at the first malformed one.
pub open spec fn data_key(attrs: Seq<XmlAttr>) -> Option<Seq<u8>>
    decreases attrs.len(),
{
    if attrs.len() == 0 {
        None
    } else {
        match attrs[0] {
            XmlAttr::Malformed => None,
            XmlAttr::Pair(k, v) => if super::name_is(k@, "name") {
                Some(v@)
            } else {
                data_key(attrs.drop_first())
            },
        }
    }
}

/// Whether some attribute `type` (in any case) has the value `byte` or
/// `string` (in any case), scanning the attributes in order and stopping at
/// the first malformed one.
pub open spec fn quoted_field(attrs: Seq<XmlAttr>) -> bool
    decreases attrs.len(),
{
    if attrs.len() == 0 {
        false
    } else {
        match attrs[0] {
            XmlAttr::Malformed => false,
            XmlAttr::Pair(k, v) => if super::name_is(k@, "type") && (super::name_is(v@, "byte") || super::name_is(
                v@,
                "string",
            )) {
                true
            } else {
                quoted_field(attrs.drop_first())
            },
        }
    }
}

/// Where a conversion from XML to JSON stands: the JSON written so far, and
/// whether the next text is the value of a `field` and is to be quoted.
pub struct JsonProgress {
    pub msg: Seq<u8>,
    pub is_field: bool,
    pub need_quote: bool,
}

/// Appends bytes to the JSON written so far.
pub open spec fn emit(st: JsonProgress, b: Seq<u8>) -> JsonProgress {
    JsonProgress { msg: st.msg + b, is_field: st.is_field, need_quote: st.need_quote }
}

/// Drops one trailing comma, then appends bytes.
pub open spec fn close_with(st: JsonProgress, b: Seq<u8>) -> JsonProgress {
    JsonProgress {
        msg: without_trailing(st.msg, ",".spec_bytes()) + b,
        is_field: st.is_field,
        need_quote: st.need_quote,
    }
}

/// What one XML event does to the JSON being written.
pub open spec fn json_step(st: JsonProgress, ev: XmlEvent) -> JsonProgress {
    match ev {
        XmlEvent::Start(name, attrs) => {
            if super::name_is(name@, "service") || super::name_is(name@, "struct") {
                emit(st, "{".spec_bytes())
            } else if super::name_is(name@, "body") {
                emit(st, "\"BODY\":{".spec_bytes())
            } else if super::name_is(name@, "array") {
                emit(st, "[".spec_bytes())
            } else if super::name_is(name@, "data") {
                match data_key(attrs@) {
                    Some(v) => emit(st, "\"".spec_bytes() + v + "\":".spec_bytes()),
                    None => st,
                }
            } else if super::name_is(name@, "field") {
                JsonProgress {
                    msg: st.msg,
                    is_field: true,
                    need_quote: st.need_quote || quoted_field(attrs@),
                }
            } else {
                st
            }
        },
        XmlEvent::End(name) => {
            if super::name_is(name@, "service") {
                close_with(st, "}".spec_bytes())
            } else if super::name_is(name@, "struct") || super::name_is(name@, "body") {
                close_with(st, "},".spec_bytes())
            } else if super::name_is(name@, "array") {
                close_with(st, "],".spec_bytes())
            } else {
                st
            }
        },
        XmlEvent::Empty(name) => {
            if super::name_is(name@, "struct") {
                emit(st, "{}".spec_bytes())
            } else if super::name_is(name@, "array") {
                emit(st, "[]".spec_bytes())
            } else if super::name_is(name@, "field") {
                emit(st, "null,".spec_bytes())
            } else {
                st
            }
        },
        XmlEvent::Text(t) => {
            if st.is_field {
                let value = if st.need_quote {
                    "\"".spec_bytes() + t@ + "\"".spec_bytes()
                } else {
                    t@
                };
                JsonProgress { msg: st.msg + value + ",".spec_bytes(), is_field: false, need_quote: false }
            } else {
                st
            }
        },
        XmlEvent::Eof => st,
        XmlEvent::Other => st,
    }
}

/// Removing a trailing `needle` undoes appending it.
pub proof fn lemma_truncate_undoes_append(s: Seq<u8>, needle: Seq<u8>)
    ensures
        without_trailing(s + needle, needle) == s,
{
    let t = s + needle;
    assert(t.subrange(t.len() - needle.len(), t.len() as int) =~= needle);
    assert(t.take(t.len() - needle.len()) =~= s);
}

/// Removing a trailing `needle` leaves a prefix of the string, shorter by
/// the needle where the string ended with it and the whole string otherwise.
pub proof fn lemma_truncate_prefix(s: Seq<u8>, needle: Seq<u8>)
    ensures
        s.take(without_trailing(s, needle).len() as int) == without_trailing(s, needle),
        ends_with(s, needle) ==> without_trailing(s, needle).len() + needle.len() == s.len(),
        !ends_with(s, needle) ==> without_trailing(s, needle) == s,
{
    assert(s.take(s.len() as int) =~= s);
}

/// Tells whether `s` ends with `needle`.
fn slice_ends_with(s: &[u8], needle: &[u8]) -> (r: bool)
    ensures
        r == ends_with(s@, needle@),
{
    if needle.len() > s.len() {
        return false;
    }
    let n = s.len();
    let start = n - needle.len();
    let mut i: usize = 0;
    while i < needle.len()
        invariant
            n == s@.len(),
            start == s@.len() - needle@.len(),
            start + needle@.len() == n,
            i <= needle@.len(),
            forall|j: int| 0 <= j < i ==> s@[start + j] == needle@[j],
        decreases needle@.len() - i,
    {
        if s[start + i] != needle[i] {
            proof {
                assert(s@.subrange(start as int, s@.len() as int)[i as int] != needle@[i as int]);
            }
            return false;
        }
        i = i + 1;
    }
    proof {
        assert(s@.subrange(start as int, s@.len() as int) =~= needle@);
    }
    true
}

/// Removes one trailing `needle` from `msg`, where `msg` ends with one.
pub fn truncate(msg: &mut BytesMut, needle: &[u8])
    ensures
        bytes_buf::bytes_mut_view(*final(msg)) == without_trailing(
            bytes_buf::bytes_mut_view(*old(msg)),
            needle@,
        ),
{
    let s = bytes_buf::bytes_mut_as_slice(msg);
    if slice_ends_with(s, needle) {
        let keep = s.len() - needle.len();
        bytes_buf::bytes_mut_truncate(msg, keep);
    }
}

/// The index of the attribute that `data_key` takes its value from.
fn find_data_key(attrs: &Vec<XmlAttr>) -> (r: Option<usize>)
    ensures
        match r {
            Some(i) => i < attrs@.len() && (attrs@[i as int] matches XmlAttr::Pair(_, v) && data_key(
                attrs@,
            ) == Some(v@)),
            None => data_key(attrs@) is None,
        },
{
    let mut i: usize = 0;
    assert(attrs@.skip(0) =~= attrs@);
    while i < attrs.len()
        invariant
            i <= attrs@.len(),
            data_key(attrs@) == data_key(attrs@.skip(i as int)),
        decreases attrs@.len() - i,
    {
        assert(attrs@.skip(i as int)[0] == attrs@[i as int]);
        assert(attrs@.skip(i as int).drop_first() =~= attrs@.skip(i + 1));
        match &attrs[i] {
            XmlAttr::Malformed => {
                return None;
            },
            XmlAttr::Pair(k, _) => {
                if ascii::lower_eq(k.as_slice(), "name".as_bytes()) {
                    return Some(i);
                }
            },
        }
        i = i + 1;
    }
    assert(attrs@.skip(i as int).len() == 0);
    None
}

/// Computes `quoted_field`.
fn has_quoted_type(attrs: &Vec<XmlAttr>) -> (r: bool)
    ensures
        r == quoted_field(attrs@),
{
    let mut i: usize = 0;
    assert(attrs@.skip(0) =~= attrs@);
    while i < attrs.len()
        invariant
            i <= attrs@.len(),
            quoted_field(attrs@) == quoted_field(attrs@.skip(i as int)),
        decreases attrs@.len() - i,
    {
        assert(attrs@.skip(i as int)[0] == attrs@[i as int]);
        assert(attrs@.skip(i as int).drop_first() =~= attrs@.skip(i + 1));
        match &attrs[i] {
            XmlAttr::Malformed => {
                return false;
            },
            XmlAttr::Pair(k, v) => {
                if ascii::lower_eq(k.as_slice(), "type".as_bytes()) && (ascii::lower_eq(
                    v.as_slice(),
                    "byte".as_bytes(),
                ) || ascii::lower_eq(v.as_slice(), "string".as_bytes())) {
                    return true;
                }
            },
        }
        i = i + 1;
    }
    assert(attrs@.skip(i as int).len() == 0);
    false
}

/// A conversion from ESB XML to JSON in progress: it is fed the events of
/// the XML message one by one and writes the JSON as it goes.
pub struct XmlToJson {
    msg: BytesMut,
    is_field: bool,
    field_need_quote: bool,
}

impl View for XmlToJson {
    type V = JsonProgress;

    closed spec fn view(&self) -> JsonProgress {
        JsonProgress {
            msg: bytes_buf::bytes_mut_view(self.msg),
            is_field: self.is_field,
            need_quote: self.field_need_quote,
        }
    }
}

/// Where a conversion starts: nothing written, no field open.
pub open spec fn json_start() -> JsonProgress {
    JsonProgress { msg: Seq::empty(), is_field: false, need_quote: false }
}

impl XmlToJson {
    /// A conversion with nothing written yet.
    pub fn new() -> (r: Self)
        ensures
            r@ == json_start(),
    {
        XmlToJson { msg: bytes_buf::bytes_mut_new(), is_field: false, field_need_quote: false }
    }

    fn put(&mut self, s: &[u8])
        ensures
            final(self)@ == emit(old(self)@, s@),
    {
        bytes_buf::bytes_mut_put_slice(&mut self.msg, s);
    }

    fn close(&mut self, s: &[u8])
        ensures
            final(self)@ == close_with(old(self)@, s@),
    {
        truncate(&mut self.msg, ",".as_bytes());
        bytes_buf::bytes_mut_put_slice(&mut self.msg, s);
    }

    /// Takes one event of the XML message into account.
    pub fn feed(&mut self, ev: &XmlEvent)
        ensures
            final(self)@ == json_step(old(self)@, *ev),
    {
        match ev {
            XmlEvent::Start(name, attrs) => {
                let name = name.as_slice();
                if ascii::lower_eq(name, "service".as_bytes()) || ascii::lower_eq(
                    name,
                    "struct".as_bytes(),
                ) {
                    self.put("{".as_bytes());
                } else if ascii::lower_eq(name, "body".as_bytes()) {
                    self.put("\"BODY\":{".as_bytes());
                } else if ascii::lower_eq(name, "array".as_bytes()) {
                    self.put("[".as_bytes());
                } else if ascii::lower_eq(name, "data".as_bytes()) {
                    if let Some(i) = find_data_key(attrs) {
                        if let XmlAttr::Pair(_, v) = &attrs[i] {
                            let ghost before = self@.msg;
                            bytes_buf::bytes_mut_put_slice(&mut self.msg, "\"".as_bytes());
                            bytes_buf::bytes_mut_put_slice(&mut self.msg, v.as_slice());
                            bytes_buf::bytes_mut_put_slice(&mut self.msg, "\":".as_bytes());
                            assert(self@.msg =~= before + ("\"".spec_bytes() + v@
                                + "\":".spec_bytes()));
                        }
                    }
                } else if ascii::lower_eq(name, "field".as_bytes()) {
                    self.is_field = true;
                    if has_quoted_type(attrs) {
                        self.field_need_quote = true;
                    }
                }
            },
            XmlEvent::End(name) => {
                let name = name.as_slice();
                if ascii::lower_eq(name, "service".as_bytes()) {
                    self.close("}".as_bytes());
                } else if ascii::lower_eq(name, "struct".as_bytes()) || ascii::lower_eq(
                    name,
                    "body".as_bytes(),
                ) {
                    self.close("},".as_bytes());
                } else if ascii::lower_eq(name, "array".as_bytes()) {
                    self.close("],".as_bytes());
                }
            },
            XmlEvent::Empty(name) => {
                let name = name.as_slice();
                if ascii::lower_eq(name, "struct".as_bytes()) {
                    self.put("{}".as_bytes());
                } else if ascii::lower_eq(name, "array".as_bytes()) {
                    self.put("[]".as_bytes());
                } else if ascii::lower_eq(name, "field".as_bytes()) {
                    self.put("null,".as_bytes());
                }
            },
            XmlEvent::Text(t) => {
                if self.is_field {
                    let ghost before = self@.msg;
                    if self.field_need_quote {
                        bytes_buf::bytes_mut_put_slice(&mut self.msg, "\"".as_bytes());
                        bytes_buf::bytes_mut_put_slice(&mut self.msg, t.as_slice());
                        bytes_buf::bytes_mut_put_slice(&mut self.msg, "\"".as_bytes());
                    } else {
                        bytes_buf::bytes_mut_put_slice(&mut self.msg, t.as_slice());
                    }
                    bytes_buf::bytes_mut_put_slice(&mut self.msg, ",".as_bytes());
                    assert(self@.msg =~= before + (if old(self)@.need_quote {
                        "\"".spec_bytes() + t@ + "\"".spec_bytes()
                    } else {
                        t@
                    }) + ",".spec_bytes());
                    self.is_field = false;
                    self.field_need_quote = false;
                }
            },
            XmlEvent::Eof => {},
            XmlEvent::Other => {},
        }
    }

    /// The JSON written so far.
    pub fn finish(self) -> (b: Bytes)
        ensures
            bytes_buf::bytes_view(b) == self@.msg,
    {
        bytes_buf::bytes_mut_freeze(self.msg)
    }
}

/// A value is to be quoted only while a field is open: every event keeps
/// this, so no quoting carries over to text outside a field.
pub proof fn lemma_step_keeps_quote_in_field(st: JsonProgress, ev: XmlEvent)
    requires
        st.need_quote ==> st.is_field,
    ensures
        json_step(st, ev).need_quote ==> json_step(st, ev).is_field,
{
}

/// Every run of events, from the start, has a value quoted only while a
/// field is open.
pub proof fn lemma_run_quote_in_field(evs: Seq<XmlEvent>)
    ensures
        json_run(evs).need_quote ==> json_run(evs).is_field,
    decreases evs.len(),
{
    if evs.len() > 0 {
        lemma_run_quote_in_field(evs.drop_last());
        lemma_step_keeps_quote_in_field(json_run(evs.drop_last()), evs.last());
    }
}

/// What a run of events writes, starting from nothing.
pub open spec fn json_run(evs: Seq<XmlEvent>) -> JsonProgress
    decreases evs.len(),
{
    if evs.len() == 0 {
        json_start()
    } else {
        json_step(json_run(evs.drop_last()), evs.last())
    }
}

/// The events of a sequence of reads; an error stands as `Eof`.
pub open spec fn events_of(reads: Seq<xml::ReadResult>) -> Seq<XmlEvent> {
    reads.map_values(
        |r: xml::ReadResult|
            match r {
                Ok(e) => e,
                Err(_) => XmlEvent::Eof,
            },
    )
}

/// The JSON form of the ESB XML message `input`: the bytes written for the
/// events that `quick_xml` reports for it, or the reader's error where it
/// reports one.
pub open spec fn xml_to_json(input: Seq<u8>) -> Result<Seq<u8>, quick_xml::Error> {
    let reads = xml::xml_events(input);
    match reads.last() {
        Ok(_) => Ok(json_run(events_of(reads)).msg),
        Err(e) => Err(e),
    }
}

/// Converts an ESB XML message to JSON.
///
/// `<service>` and `<struct>` become objects, `<body>` becomes the member
/// `"BODY"`, `<array>` an array, `<data name="k">` the key `"k"` of the
/// value inside it, and the text of a `<field>` its value, quoted where the
/// field's `type` is `byte` or `string`; an empty `<field/>` is `null`.
pub fn esb_xml_to_json(b: Bytes) -> (res: Result<Bytes, EsbError>)
    ensures
        match xml_to_json(bytes_buf::bytes_view(b)) {
            Ok(json) => res matches Ok(out) && bytes_buf::bytes_view(out) == json,
            Err(e) => res matches Err(EsbError::Xml(err)) && err == e,
        },
{
    let ghost input = bytes_buf::bytes_view(b);
    let mut reader = xml::xml_reader(b);
    let ghost reads = xml::pending_events(reader);
    let ghost mut k: int = 0;
    let mut buf: Vec<u8> = Vec::new();
    let mut conv = XmlToJson::new();
    proof {
        assert(reads.skip(0) =~= reads);
        assert(events_of(reads).take(0) =~= Seq::<XmlEvent>::empty());
    }
    loop
        invariant
            input == bytes_buf::bytes_view(b),
            reads == xml::xml_events(input),
            xml::reads_closed(reads),
            0 <= k < reads.len(),
            xml::pending_events(reader) == reads.skip(k),
            conv@ == json_run(events_of(reads).take(k)),
        decreases xml::pending_events(reader).len(),
    {
        let ghost pending = xml::pending_events(reader);
        let res = xml::read_event(&mut reader, &mut buf);
        assert(res == reads[k]);
        match res {
            Err(e) => {
                assert(k == reads.len() - 1);
                assert(reads.last() == reads[k]);
                return Err(EsbError::Xml(e));
            },
            Ok(ev) => {
                if let XmlEvent::Eof = ev {
                    assert(k == reads.len() - 1);
                    assert(reads.last() == reads[k]);
                    assert(events_of(reads).take(k + 1) =~= events_of(reads));
                    assert(events_of(reads).take(k + 1).drop_last() =~= events_of(reads).take(k));
                    return Ok(conv.finish());
                }
                conv.feed(&ev);
                proof {
                    assert(events_of(reads).take(k + 1).drop_last() =~= events_of(reads).take(k));
                    assert(reads.skip(k).drop_first() =~= reads.skip(k + 1));
                    k = k + 1;
                }
            },
        }
    }
}

/// Two byte strings that differ at most in ASCII case.
pub open spec fn same_but_case(a: Seq<u8>, b: Seq<u8>) -> bool {
    ascii::lower_bytes(a) == ascii::lower_bytes(b)
}

/// Two attributes alike but for case: keys that differ at most in case,
/// and the same value, which for the key `type` may also differ in case.
pub open spec fn attr_alike(x: XmlAttr, y: XmlAttr) -> bool {
    match x {
        XmlAttr::Malformed => y is Malformed,
        XmlAttr::Pair(k1, v1) => match y {
            XmlAttr::Pair(k2, v2) => same_but_case(k1@, k2@) && if super::name_is(k1@, "type") {
                same_but_case(v1@, v2@)
            } else {
                v1@ == v2@
            },
            XmlAttr::Malformed => false,
        },
    }
}

/// Two attribute lists alike, attribute by attribute.
pub open spec fn attrs_alike(a: Seq<XmlAttr>, b: Seq<XmlAttr>) -> bool {
    a.len() == b.len() && forall|i: int| 0 <= i < a.len() ==> #[trigger] attr_alike(a[i], b[i])
}

/// Two events alike but for the case of tag names, attribute keys and
/// `type` values.
pub open spec fn events_alike(x: XmlEvent, y: XmlEvent) -> bool {
    match x {
        XmlEvent::Start(n1, a1) => y matches XmlEvent::Start(n2, a2) && same_but_case(n1@, n2@)
            && attrs_alike(a1@, a2@),
        XmlEvent::End(n1) => y matches XmlEvent::End(n2) && same_but_case(n1@, n2@),
        XmlEvent::Empty(n1) => y matches XmlEvent::Empty(n2) && same_but_case(n1@, n2@),
        XmlEvent::Text(t1) => y matches XmlEvent::Text(t2) && t1@ == t2@,
        XmlEvent::Eof => y is Eof,
        XmlEvent::Other => y is Other,
    }
}

/// Two sequences of reads alike, read by read: alike events, or an error
/// on both sides.
pub open spec fn reads_alike(a: Seq<xml::ReadResult>, b: Seq<xml::ReadResult>) -> bool {
    a.len() == b.len() && forall|i: int|
        0 <= i < a.len() ==> match #[trigger] a[i] {
            Ok(x) => b[i] matches Ok(y) && events_alike(x, y),
            Err(_) => b[i] is Err,
        }
}

/// No key is both `name` and `type`.
proof fn lemma_name_not_type(k: Seq<u8>)
    ensures
        !(super::name_is(k, "name") && super::name_is(k, "type")),
{
    reveal_strlit("name");
    reveal_strlit("type");
    vstd::utf8::is_ascii_chars_encode_utf8("name"@);
    vstd::utf8::is_ascii_chars_encode_utf8("type"@);
    assert("name".spec_bytes()[0] != "type".spec_bytes()[0]);
}

proof fn lemma_data_key_alike(a: Seq<XmlAttr>, b: Seq<XmlAttr>)
    requires
        attrs_alike(a, b),
    ensures
        data_key(a) == data_key(b),
    decreases a.len(),
{
    if a.len() > 0 {
        if let XmlAttr::Pair(k, _) = a[0] {
            lemma_name_not_type(k@);
        }
        assert(attr_alike(a[0], b[0]));
        assert(attrs_alike(a.drop_first(), b.drop_first())) by {
            assert forall|i: int| 0 <= i < a.len() - 1 implies #[trigger] attr_alike(
                a.drop_first()[i],
                b.drop_first()[i],
            ) by {
                assert(attr_alike(a[i + 1], b[i + 1]));
            }
        }
        lemma_data_key_alike(a.drop_first(), b.drop_first());
    }
}

proof fn lemma_quoted_field_alike(a: Seq<XmlAttr>, b: Seq<XmlAttr>)
    requires
        attrs_alike(a, b),
    ensures
        quoted_field(a) == quoted_field(b),
    decreases a.len(),
{
    if a.len() > 0 {
        assert(attr_alike(a[0], b[0]));
        assert(attrs_alike(a.drop_first(), b.drop_first())) by {
            assert forall|i: int| 0 <= i < a.len() - 1 implies #[trigger] attr_alike(
                a.drop_first()[i],
                b.drop_first()[i],
            ) by {
                assert(attr_alike(a[i + 1], b[i + 1]));
            }
        }
        lemma_quoted_field_alike(a.drop_first(), b.drop_first());
    }
}

/// Events alike but for case write the same JSON.
pub proof fn lemma_step_ignores_case(st: JsonProgress, x: XmlEvent, y: XmlEvent)
    requires
        events_alike(x, y),
    ensures
        json_step(st, x) == json_step(st, y),
{
    match x {
        XmlEvent::Start(_, a1) => {
            if let XmlEvent::Start(_, a2) = y {
                lemma_data_key_alike(a1@, a2@);
                lemma_quoted_field_alike(a1@, a2@);
            }
        },
        _ => {},
    }
}

/// Runs of events alike but for case, event by event, write the same JSON.
pub proof fn lemma_run_ignores_case(a: Seq<XmlEvent>, b: Seq<XmlEvent>)
    requires
        a.len() == b.len(),
        forall|i: int| 0 <= i < a.len() ==> #[trigger] events_alike(a[i], b[i]),
    ensures
        json_run(a) == json_run(b),
    decreases a.len(),
{
    if a.len() > 0 {
        assert forall|i: int| 0 <= i < a.len() - 1 implies #[trigger] events_alike(
            a.drop_last()[i],
            b.drop_last()[i],
        ) by {
            assert(events_alike(a[i], b[i]));
        }
        lemma_run_ignores_case(a.drop_last(), b.drop_last());
        assert(events_alike(a[a.len() - 1], b[b.len() - 1]));
        lemma_step_ignores_case(json_run(a.drop_last()), a.last(), b.last());
    }
}

/// Two messages whose events, as `quick_xml` reports them, are alike but
/// for the case of tag names, attribute keys and `type` values convert to
/// the same JSON: the conversion reads every name it acts on without regard
/// to case.  (`quick_xml` always reports a closed sequence of reads; see
/// `xml::xml_reader`.)
pub proof fn lemma_conversion_ignores_case(x1: Seq<u8>, x2: Seq<u8>)
    requires
        xml::reads_closed(xml::xml_events(x1)),
        reads_alike(xml::xml_events(x1), xml::xml_events(x2)),
    ensures
        xml_to_json(x1) is Ok <==> xml_to_json(x2) is Ok,
        xml_to_json(x1) is Ok ==> xml_to_json(x1) == xml_to_json(x2),
{
    let r1 = xml::xml_events(x1);
    let r2 = xml::xml_events(x2);
    if r1.len() > 0 {
        assert(r1.last() == r1[r1.len() - 1] && r2.last() == r2[r2.len() - 1]);
        assert(match r1[r1.len() - 1] {
            Ok(x) => r2[r2.len() - 1] matches Ok(y) && events_alike(x, y),
            Err(_) => r2[r2.len() - 1] is Err,
        });
        if r1.last() is Ok {
            assert forall|i: int| 0 <= i < r1.len() implies #[trigger] events_alike(
                events_of(r1)[i],
                events_of(r2)[i],
            ) by {
                assert(match r1[i] {
                    Ok(x) => r2[i] matches Ok(y) && events_alike(x, y),
                    Err(_) => r2[i] is Err,
                });
            }
            lemma_run_ignores_case(events_of(r1), events_of(r2));
        }
    }
}

/// Two different ASCII literals: no name is both, in any case.
proof fn lemma_names_differ(n: Seq<u8>, a: &str, b: &str)
    requires
        vstd::utf8::is_ascii_chars(a@),
        vstd::utf8::is_ascii_chars(b@),
        a@ != b@,
    ensures
        !(super::name_is(n, a) && super::name_is(n, b)),
{
    vstd::utf8::is_ascii_chars_encode_utf8(a@);
    vstd::utf8::is_ascii_chars_encode_utf8(b@);
    if a@.len() == b@.len() {
        assert(!(a@ =~= b@));
        let i = choose|i: int| 0 <= i < a@.len() && a@[i] != b@[i];
        assert(a.spec_bytes()[i] != b.spec_bytes()[i]);
    } else {
        assert(a.spec_bytes().len() != b.spec_bytes().len());
    }
}

/// `field` is none of the other tag names the conversion acts on.
proof fn lemma_field_is_no_other(n: Seq<u8>)
    ensures
        super::name_is(n, "field") ==> !super::name_is(n, "service") && !super::name_is(n, "struct")
            && !super::name_is(n, "body") && !super::name_is(n, "array") && !super::name_is(
            n,
            "data",
        ),
{
    reveal_strlit("field");
    reveal_strlit("service");
    reveal_strlit("struct");
    reveal_strlit("body");
    reveal_strlit("array");
    reveal_strlit("data");
    lemma_names_differ(n, "field", "service");
    lemma_names_differ(n, "field", "struct");
    lemma_names_differ(n, "field", "body");
    lemma_names_differ(n, "field", "array");
    lemma_names_differ(n, "field", "data");
}

/// Whether an attribute's value says `byte` or `string`, in any case.
pub open spec fn says_quoted(a: XmlAttr) -> bool {
    a matches XmlAttr::Pair(_, v) && (super::name_is(v@, "byte") || super::name_is(v@, "string"))
}

/// Attributes none of whose values says `byte` or `string` never ask for
/// quotes.
proof fn lemma_unquoted_attrs(attrs: Seq<XmlAttr>)
    requires
        forall|i: int| 0 <= i < attrs.len() ==> !says_quoted(#[trigger] attrs[i]),
    ensures
        !quoted_field(attrs),
    decreases attrs.len(),
{
    if attrs.len() > 0 {
        assert(!says_quoted(attrs[0]));
        assert forall|i: int| 0 <= i < attrs.drop_first().len() implies !says_quoted(
            #[trigger] attrs.drop_first()[i],
        ) by {
            assert(!says_quoted(attrs[i + 1]));
        }
        lemma_unquoted_attrs(attrs.drop_first());
    }
}

/// An attribute `type` (any case) saying `byte` or `string`, with no
/// malformed attribute before it, asks for quotes.
proof fn lemma_quoted_attrs(attrs: Seq<XmlAttr>, i: int)
    requires
        0 <= i < attrs.len(),
        attrs[i] matches XmlAttr::Pair(k, _) && super::name_is(k@, "type"),
        says_quoted(attrs[i]),
        forall|j: int| 0 <= j < i ==> #[trigger] attrs[j] is Pair,
    ensures
        quoted_field(attrs),
    decreases i,
{
    if i > 0 {
        assert(attrs[0] is Pair);
        assert forall|j: int| 0 <= j < i - 1 implies #[trigger] attrs.drop_first()[j] is Pair by {
            assert(attrs[j + 1] is Pair);
        }
        lemma_quoted_attrs(attrs.drop_first(), i - 1);
    }
}

/// The text of a `<field>` is written raw, followed by a comma, unless a
/// `type` attribute says `byte` or `string` (in any case): then it is
/// written between double quotes.  A type `float`, `double`, `int` or any
/// other leaves the value a bare JSON number.  After the text no field is
/// open any more.
pub proof fn lemma_field_text(st: JsonProgress, name: Vec<u8>, attrs: Vec<XmlAttr>, t: Vec<u8>)
    requires
        super::name_is(name@, "field"),
        !st.need_quote,
    ensures
        ({
            let after = json_step(json_step(st, XmlEvent::Start(name, attrs)), XmlEvent::Text(t));
            &&& (forall|i: int| 0 <= i < attrs@.len() ==> !says_quoted(#[trigger] attrs@[i]))
                ==> after.msg == st.msg + t@ + ",".spec_bytes()
            &&& (exists|i: int|
                0 <= i < attrs@.len() && (attrs@[i] matches XmlAttr::Pair(k, _) && super::name_is(
                    k@,
                    "type",
                )) && says_quoted(#[trigger] attrs@[i]) && forall|j: int|
                    0 <= j < i ==> #[trigger] attrs@[j] is Pair) ==> after.msg == st.msg
                + "\"".spec_bytes() + t@ + "\"".spec_bytes() + ",".spec_bytes()
            &&& !after.is_field && !after.need_quote
        }),
{
    lemma_field_is_no_other(name@);
    if forall|i: int| 0 <= i < attrs@.len() ==> !says_quoted(#[trigger] attrs@[i]) {
        lemma_unquoted_attrs(attrs@);
    }
    if exists|i: int|
        0 <= i < attrs@.len() && (attrs@[i] matches XmlAttr::Pair(k, _) && super::name_is(
            k@,
            "type",
        )) && says_quoted(#[trigger] attrs@[i]) && forall|j: int|
            0 <= j < i ==> #[trigger] attrs@[j] is Pair {
        let i = choose|i: int|
            0 <= i < attrs@.len() && (attrs@[i] matches XmlAttr::Pair(k, _) && super::name_is(
                k@,
                "type",
            )) && says_quoted(#[trigger] attrs@[i]) && forall|j: int|
                0 <= j < i ==> #[trigger] attrs@[j] is Pair;
        lemma_quoted_attrs(attrs@, i);
    }
}

/// A start tag never takes back JSON already written: what was written is
/// a prefix of what is written after it.  `<service>` and `<struct>` each
/// append exactly `{`, so the items of an array stay separated by the
/// commas their end tags wrote.
pub proof fn lemma_start_appends(st: JsonProgress, name: Vec<u8>, attrs: Vec<XmlAttr>)
    ensures
        ({
            let after = json_step(st, XmlEvent::Start(name, attrs));
            &&& after.msg.len() >= st.msg.len()
            &&& after.msg.subrange(0, st.msg.len() as int) == st.msg
            &&& (super::name_is(name@, "struct") || super::name_is(name@, "service")) ==> after.msg
                == st.msg + "{".spec_bytes()
        }),
{
    let after = json_step(st, XmlEvent::Start(name, attrs));
    assert(after.msg.subrange(0, st.msg.len() as int) =~= st.msg);
}

/// Only an end tag takes anything back, and then at most one trailing
/// comma: for every other event what was written is a prefix of what is
/// written after it, and for an end tag what was written, less one
/// trailing comma, is.
pub proof fn lemma_only_end_tags_take_back(st: JsonProgress, ev: XmlEvent)
    ensures
        ({
            let after = json_step(st, ev);
            let kept = if ev is End {
                without_trailing(st.msg, ",".spec_bytes())
            } else {
                st.msg
            };
            after.msg.len() >= kept.len() && after.msg.subrange(0, kept.len() as int) == kept
        }),
{
    let after = json_step(st, ev);
    let kept = if ev is End {
        without_trailing(st.msg, ",".spec_bytes())
    } else {
        st.msg
    };
    assert(after.msg.subrange(0, kept.len() as int) =~= kept);
}

/// The tag names the conversion acts on are told apart.
proof fn lemma_tag_names_differ(n: Seq<u8>)
    ensures
        super::name_is(n, "service") ==> !super::name_is(n, "struct") && !super::name_is(n, "body")
            && !super::name_is(n, "array") && !super::name_is(n, "data") && !super::name_is(
            n,
            "field",
        ),
        super::name_is(n, "struct") ==> !super::name_is(n, "body") && !super::name_is(n, "array")
            && !super::name_is(n, "data") && !super::name_is(n, "field"),
        super::name_is(n, "body") ==> !super::name_is(n, "array") && !super::name_is(n, "data")
            && !super::name_is(n, "field"),
        super::name_is(n, "array") ==> !super::name_is(n, "data") && !super::name_is(n, "field"),
        super::name_is(n, "data") ==> !super::name_is(n, "field"),
{
    reveal_strlit("field");
    reveal_strlit("service");
    reveal_strlit("struct");
    reveal_strlit("body");
    reveal_strlit("array");
    reveal_strlit("data");
    lemma_names_differ(n, "service", "struct");
    lemma_names_differ(n, "service", "body");
    lemma_names_differ(n, "service", "array");
    lemma_names_differ(n, "service", "data");
    lemma_names_differ(n, "struct", "body");
    lemma_names_differ(n, "struct", "array");
    lemma_names_differ(n, "struct", "data");
    lemma_names_differ(n, "body", "array");
    lemma_names_differ(n, "body", "data");
    lemma_names_differ(n, "array", "data");
    lemma_field_is_no_other(n);
}

/// The key of a `<data>` is the value of its first attribute `name` (any
/// case), where no malformed attribute comes before it.
proof fn lemma_data_key_first(attrs: Seq<XmlAttr>, i: int)
    requires
        0 <= i < attrs.len(),
        attrs[i] matches XmlAttr::Pair(k, _) && super::name_is(k@, "name"),
        forall|j: int|
            0 <= j < i ==> (#[trigger] attrs[j] matches XmlAttr::Pair(k, _) && !super::name_is(
                k@,
                "name",
            )),
    ensures
        data_key(attrs) == Some(attrs[i]->Pair_1@),
    decreases i,
{
    if i > 0 {
        assert(attrs[0] is Pair);
        assert forall|j: int| 0 <= j < i - 1 implies (#[trigger] attrs.drop_first()[j] matches XmlAttr::Pair(
            k,
            _,
        ) && !super::name_is(k@, "name")) by {
            assert(attrs[j + 1] is Pair);
        }
        lemma_data_key_first(attrs.drop_first(), i - 1);
    }
}

/// Without a well-formed attribute `name` before any malformed one, a
/// `<data>` has no key.
proof fn lemma_data_key_none(attrs: Seq<XmlAttr>)
    requires
        forall|j: int|
            0 <= j < attrs.len() ==> !(#[trigger] attrs[j] matches XmlAttr::Pair(k, _)
                && super::name_is(k@, "name")),
    ensures
        data_key(attrs) is None,
    decreases attrs.len(),
{
    if attrs.len() > 0 {
        assert(!(attrs[0] matches XmlAttr::Pair(k, _) && super::name_is(k@, "name")));
        assert forall|j: int| 0 <= j < attrs.drop_first().len() implies !(
        #[trigger] attrs.drop_first()[j] matches XmlAttr::Pair(k, _) && super::name_is(k@, "name")) by {
            assert(!(attrs[j + 1] matches XmlAttr::Pair(k, _) && super::name_is(k@, "name")));
        }
        lemma_data_key_none(attrs.drop_first());
    }
}

/// What each start tag writes: `<service>` and `<struct>` open an object,
/// `<body>` opens the member `"BODY"`, `<array>` opens an array, a
/// `<data>` writes its key (the value of its first `name` attribute) as a
/// string and a colon, or nothing without one; a `<field>` writes nothing
/// yet but opens a field; any other tag changes nothing.
pub proof fn lemma_start_writes(st: JsonProgress, name: Vec<u8>, attrs: Vec<XmlAttr>)
    ensures
        ({
            let after = json_step(st, XmlEvent::Start(name, attrs));
            let n = name@;
            &&& super::name_is(n, "body") ==> after.msg == st.msg + "\"BODY\":{".spec_bytes()
            &&& super::name_is(n, "array") ==> after.msg == st.msg + "[".spec_bytes()
            &&& (super::name_is(n, "data") && exists|i: int|
                0 <= i < attrs@.len() && (#[trigger] attrs@[i] matches XmlAttr::Pair(k, _)
                    && super::name_is(k@, "name")) && forall|j: int|
                    0 <= j < i ==> (#[trigger] attrs@[j] matches XmlAttr::Pair(k, _)
                        && !super::name_is(k@, "name"))) ==> exists|i: int|
                0 <= i < attrs@.len() && after.msg == st.msg + "\"".spec_bytes()
                    + (#[trigger] attrs@[i])->Pair_1@ + "\":".spec_bytes() && (
                attrs@[i] matches XmlAttr::Pair(k, _) && super::name_is(k@, "name"))
            &&& (super::name_is(n, "data") && forall|j: int|
                0 <= j < attrs@.len() ==> !(#[trigger] attrs@[j] matches XmlAttr::Pair(k, _)
                    && super::name_is(k@, "name"))) ==> after == st
            &&& super::name_is(n, "field") ==> after.msg == st.msg && after.is_field
            &&& !super::name_is(n, "service") && !super::name_is(n, "struct") && !super::name_is(
                n,
                "body",
            ) && !super::name_is(n, "array") && !super::name_is(n, "data") && !super::name_is(
                n,
                "field",
            ) ==> after == st
            &&& after.need_quote ==> after.is_field || st.need_quote
        }),
{
    lemma_tag_names_differ(name@);
    if super::name_is(name@, "data") {
        if exists|i: int|
            0 <= i < attrs@.len() && (#[trigger] attrs@[i] matches XmlAttr::Pair(k, _)
                && super::name_is(k@, "name")) && forall|j: int|
                0 <= j < i ==> (#[trigger] attrs@[j] matches XmlAttr::Pair(k, _)
                    && !super::name_is(k@, "name")) {
            let i = choose|i: int|
                0 <= i < attrs@.len() && (#[trigger] attrs@[i] matches XmlAttr::Pair(k, _)
                    && super::name_is(k@, "name")) && forall|j: int|
                    0 <= j < i ==> (#[trigger] attrs@[j] matches XmlAttr::Pair(k, _)
                        && !super::name_is(k@, "name"));
            lemma_data_key_first(attrs@, i);
        }
        if forall|j: int|
            0 <= j < attrs@.len() ==> !(#[trigger] attrs@[j] matches XmlAttr::Pair(k, _)
                && super::name_is(k@, "name")) {
            lemma_data_key_none(attrs@);
        }
    }
}

/// What each end tag writes: a trailing comma is dropped, then `</service>`
/// closes the object with `}`, `</struct>` and `</body>` close theirs with
/// `},` and `</array>` closes the array with `],`; any other end tag
/// changes nothing.  No end tag opens or closes a field.
pub proof fn lemma_end_writes(st: JsonProgress, name: Vec<u8>)
    ensures
        ({
            let after = json_step(st, XmlEvent::End(name));
            let n = name@;
            let kept = without_trailing(st.msg, ",".spec_bytes());
            &&& super::name_is(n, "service") ==> after.msg == kept + "}".spec_bytes()
            &&& (super::name_is(n, "struct") || super::name_is(n, "body")) ==> after.msg == kept
                + "},".spec_bytes()
            &&& super::name_is(n, "array") ==> after.msg == kept + "],".spec_bytes()
            &&& !super::name_is(n, "service") && !super::name_is(n, "struct") && !super::name_is(
                n,
                "body",
            ) && !super::name_is(n, "array") ==> after.msg == st.msg
            &&& after.is_field == st.is_field && after.need_quote == st.need_quote
        }),
{
    lemma_tag_names_differ(name@);
}

/// What each empty tag writes: `<struct/>` an empty object `{}`, `<array/>`
/// an empty array `[]`, `<field/>` the value `null` and a comma; any other
/// changes nothing.
pub proof fn lemma_empty_writes(st: JsonProgress, name: Vec<u8>)
    ensures
        ({
            let after = json_step(st, XmlEvent::Empty(name));
            let n = name@;
            &&& super::name_is(n, "struct") ==> after.msg == st.msg + "{}".spec_bytes()
            &&& super::name_is(n, "array") ==> after.msg == st.msg + "[]".spec_bytes()
            &&& super::name_is(n, "field") ==> after.msg == st.msg + "null,".spec_bytes()
            &&& !super::name_is(n, "struct") && !super::name_is(n, "array") && !super::name_is(
                n,
                "field",
            ) ==> after.msg == st.msg
            &&& after.is_field == st.is_field && after.need_quote == st.need_quote
        }),
{
    lemma_tag_names_differ(name@);
}

/// Text outside a field, the end of the document and any other event
/// change nothing; text inside a field is written once and closes it.
pub proof fn lemma_text_and_others(st: JsonProgress, t: Vec<u8>)
    ensures
        !st.is_field ==> json_step(st, XmlEvent::Text(t)) == st,
        st.is_field && !st.need_quote ==> json_step(st, XmlEvent::Text(t)).msg == st.msg + t@
            + ",".spec_bytes(),
        st.is_field && st.need_quote ==> json_step(st, XmlEvent::Text(t)).msg == st.msg
            + "\"".spec_bytes() + t@ + "\"".spec_bytes() + ",".spec_bytes(),
        st.is_field ==> !json_step(st, XmlEvent::Text(t)).is_field && !json_step(
            st,
            XmlEvent::Text(t),
        ).need_quote,
        json_step(st, XmlEvent::Eof) == st,
        json_step(st, XmlEvent::Other) == st,
{
}

/// A run of events writes them one after the other: the JSON of a run
/// extended by one event is what that event writes after the run.
pub proof fn lemma_run_push(evs: Seq<XmlEvent>, e: XmlEvent)
    ensures
        json_run(evs.push(e)) == json_step(json_run(evs), e),
        json_run(Seq::<XmlEvent>::empty()) == json_start(),
{
    assert(evs.push(e).drop_last() =~= evs);
}

} // verus!
