//! From JSON to ESB XML.

use vstd::prelude::*;
use vstd::string::*;
use vstd::utf8::*;
use bytes::Bytes;
use serde_json::Value;
use crate::ascii;
use crate::bytes_buf;
use crate::json::{self, Json, JsonRef};
use crate::strings;
use crate::xml::{self, MessageWriter, XmlOut};
use super::EsbError;

verus! {

/// Where in the message a JSON value is written: the top of the
/// `<service>`, inside its `<body>`, or inside a field.
#[derive(Clone, Copy, PartialEq, Eq, Structural)]
pub enum Level {
    Service,
    Body,
    Field,
}

/// The tag name that a header entry of the service is wrapped in:
/// `sys_head`, `app_head` and `local_head` (in any case) give
/// `sys-header`, `app-header` and `local-header`; any other name gives the
/// empty name.
pub open spec fn head_of(name: Seq<u8>) -> Seq<char> {
    if super::name_is(name, "sys_head") {
        "sys-header"@
    } else if super::name_is(name, "app_head") {
        "app-header"@
    } else if super::name_is(name, "local_head") {
        "local-header"@
    } else {
        ""@
    }
}

/// Whether a field type code is one of `s`, `d`, `f`, `i` (in any case).
pub open spec fn field_type_known(t: Seq<u8>) -> bool {
    super::name_is(t, "s") || super::name_is(t, "d") || super::name_is(t, "f") || super::name_is(
        t,
        "i",
    )
}

/// The type name of a field type code: `string`, `double`, `float`, `int`.
pub open spec fn field_type_of(t: Seq<u8>) -> Seq<char> {
    if super::name_is(t, "s") {
        "string"@
    } else if super::name_is(t, "d") {
        "double"@
    } else if super::name_is(t, "f") {
        "float"@
    } else {
        "int"@
    }
}

/// `<` content `>`.
pub open spec fn start_tag(content: Seq<u8>) -> Seq<u8> {
    "<".spec_bytes() + content + ">".spec_bytes()
}

/// `</` name `>`.
pub open spec fn end_tag(name: Seq<u8>) -> Seq<u8> {
    "</".spec_bytes() + name + ">".spec_bytes()
}

/// An attribute with a literal key and a string value.
pub open spec fn attr(key: &str, value: Seq<char>) -> Seq<u8> {
    xml::attribute_bytes(key.spec_bytes(), encode_utf8(value))
}

/// The content of the start tag of a field whose string is split into
/// `parts`: the type, length and scale of the field.
pub open spec fn field_start(parts: Seq<Seq<char>>) -> Seq<u8> {
    "field".spec_bytes() + attr("type", field_type_of(encode_utf8(parts[0]))) + attr(
        "length",
        parts[1],
    ) + attr("scale", parts[2])
}

/// The XML of a JSON string `type,length,scale[,value]`: a `<field>` with
/// those attributes whose text is the value (which may itself hold commas).
/// A string of fewer than three parts writes nothing.
pub open spec fn field_xml(s: Seq<char>) -> Seq<u8> {
    let parts = strings::split_on(s, ',');
    if parts.len() < 3 {
        Seq::empty()
    } else {
        start_tag(field_start(parts)) + (if parts.len() > 3 {
            xml::xml_escape(encode_utf8(strings::join_with(parts.skip(3), ',')))
        } else {
            Seq::empty()
        }) + end_tag("field".spec_bytes())
    }
}

/// The type code of a JSON string written as a field, where that code is
/// not known (a string of fewer than three parts has none).
pub open spec fn field_unknown(s: Seq<char>) -> Option<Seq<char>> {
    let parts = strings::split_on(s, ',');
    if parts.len() >= 3 && !field_type_known(encode_utf8(parts[0])) {
        Some(parts[0])
    } else {
        None
    }
}

/// Whether a JSON string can be written as a field: it has fewer than three
/// parts, or its type code is known.
pub open spec fn field_ok(s: Seq<char>) -> bool {
    field_unknown(s) is None
}

/// `<data name="k">`.
pub open spec fn data_start(k: Seq<char>) -> Seq<u8> {
    start_tag("data".spec_bytes() + attr("name", k))
}

/// The XML of a JSON value at a level.
pub open spec fn value_xml(v: Json, level: Level) -> Seq<u8>
    decreases v, 0nat,
{
    match v {
        Json::Str(s) => field_xml(s),
        Json::Array(a) => start_tag("array".spec_bytes()) + items_xml(a) + end_tag(
            "array".spec_bytes(),
        ),
        Json::Object(o) => map_xml(o, level),
        Json::Scalar => Seq::empty(),
    }
}

/// The XML of the items of an array, each written as a field.
pub open spec fn items_xml(a: Seq<Json>) -> Seq<u8>
    decreases a, 0nat,
{
    if a.len() == 0 {
        Seq::empty()
    } else {
        items_xml(a.drop_last()) + value_xml(a.last(), Level::Field)
    }
}

/// The XML of an object: its entries, inside a `<struct>` where the object
/// is a field.
pub open spec fn map_xml(o: Seq<(Seq<char>, Json)>, level: Level) -> Seq<u8>
    decreases o, 1nat,
{
    if level is Field {
        start_tag("struct".spec_bytes()) + entries_xml(o, level) + end_tag("struct".spec_bytes())
    } else {
        entries_xml(o, level)
    }
}

/// The XML of one entry of an object.  At the top of the service, the
/// entry `body` (in any case) becomes the `<body>` (holding the entries of
/// its value, where that is an object), and every other entry is a
/// `<data>` wrapped in its header tag (see `head_of`); elsewhere an entry is
/// a `<data>` holding its value as a field.
pub open spec fn entry_xml(k: Seq<char>, v: Json, level: Level) -> Seq<u8>
    decreases v, 1nat,
{
    let data = data_start(k) + value_xml(v, Level::Field) + end_tag("data".spec_bytes());
    if level is Service && super::name_is(encode_utf8(k), "body") {
        start_tag("body".spec_bytes()) + (match v {
            Json::Object(o2) => map_xml(o2, Level::Body),
            _ => Seq::empty(),
        }) + end_tag("body".spec_bytes())
    } else if level is Service {
        let h = encode_utf8(head_of(encode_utf8(k)));
        start_tag(h) + data + end_tag(h)
    } else {
        data
    }
}

/// The XML of the entries of an object, one after the other.
pub open spec fn entries_xml(o: Seq<(Seq<char>, Json)>, level: Level) -> Seq<u8>
    decreases o, 0nat,
{
    if o.len() == 0 {
        Seq::empty()
    } else {
        entries_xml(o.drop_last(), level) + entry_xml(o.last().0, o.last().1, level)
    }
}

/// The first unknown type code met in writing a JSON value at a level, in
/// the order the message is written, if any.
pub open spec fn value_unknown(v: Json, level: Level) -> Option<Seq<char>>
    decreases v, 0nat,
{
    match v {
        Json::Str(s) => field_unknown(s),
        Json::Array(a) => items_unknown(a),
        Json::Object(o) => map_unknown(o, level),
        Json::Scalar => None,
    }
}

/// The first unknown type code met in writing the items of an array.
pub open spec fn items_unknown(a: Seq<Json>) -> Option<Seq<char>>
    decreases a, 0nat,
{
    if a.len() == 0 {
        None
    } else {
        match items_unknown(a.drop_last()) {
            Some(c) => Some(c),
            None => value_unknown(a.last(), Level::Field),
        }
    }
}

/// The first unknown type code met in writing an object at a level.
pub open spec fn map_unknown(o: Seq<(Seq<char>, Json)>, level: Level) -> Option<Seq<char>>
    decreases o, 1nat,
{
    entries_unknown(o, level)
}

/// The first unknown type code met in writing one entry at a level.
pub open spec fn entry_unknown(k: Seq<char>, v: Json, level: Level) -> Option<Seq<char>>
    decreases v, 1nat,
{
    if level is Service && super::name_is(encode_utf8(k), "body") {
        match v {
            Json::Object(o2) => map_unknown(o2, Level::Body),
            _ => None,
        }
    } else {
        value_unknown(v, Level::Field)
    }
}

/// The first unknown type code met in writing the entries of an object.
pub open spec fn entries_unknown(o: Seq<(Seq<char>, Json)>, level: Level) -> Option<Seq<char>>
    decreases o, 0nat,
{
    if o.len() == 0 {
        None
    } else {
        match entries_unknown(o.drop_last(), level) {
            Some(c) => Some(c),
            None => entry_unknown(o.last().0, o.last().1, level),
        }
    }
}

/// Whether a JSON value can be written at a level: every string that is
/// written as a field has a known type code.
pub open spec fn value_ok(v: Json, level: Level) -> bool {
    value_unknown(v, level) is None
}

/// Whether every item of an array can be written as a field.
pub open spec fn items_ok(a: Seq<Json>) -> bool {
    items_unknown(a) is None
}

/// Whether an object can be written at a level.
pub open spec fn map_ok(o: Seq<(Seq<char>, Json)>, level: Level) -> bool {
    map_unknown(o, level) is None
}

/// Whether one entry of an object can be written at a level.
pub open spec fn entry_ok(k: Seq<char>, v: Json, level: Level) -> bool {
    entry_unknown(k, v, level) is None
}

/// Whether every entry of an object can be written at a level.
pub open spec fn entries_ok(o: Seq<(Seq<char>, Json)>, level: Level) -> bool {
    entries_unknown(o, level) is None
}

/// Once an unknown type code is met among the first items of an array, it
/// is the first met among all of them.
proof fn lemma_items_unknown_prefix(a: Seq<Json>, j: int)
    requires
        0 <= j <= a.len(),
        items_unknown(a.take(j)) is Some,
    ensures
        items_unknown(a) == items_unknown(a.take(j)),
    decreases a.len(),
{
    if j < a.len() {
        assert(a.drop_last().take(j) =~= a.take(j));
        lemma_items_unknown_prefix(a.drop_last(), j);
    } else {
        assert(a.take(j) =~= a);
    }
}

/// Once an unknown type code is met among the first entries of an object,
/// it is the first met among all of them.
proof fn lemma_entries_unknown_prefix(o: Seq<(Seq<char>, Json)>, level: Level, j: int)
    requires
        0 <= j <= o.len(),
        entries_unknown(o.take(j), level) is Some,
    ensures
        entries_unknown(o, level) == entries_unknown(o.take(j), level),
    decreases o.len(),
{
    if j < o.len() {
        assert(o.drop_last().take(j) =~= o.take(j));
        lemma_entries_unknown_prefix(o.drop_last(), level, j);
    } else {
        assert(o.take(j) =~= o);
    }
}

/// An array can be written only where each of its items can.
pub proof fn lemma_items_ok_at(a: Seq<Json>, i: int)
    requires
        items_ok(a),
        0 <= i < a.len(),
    ensures
        value_ok(a[i], Level::Field),
    decreases a.len(),
{
    if i < a.len() - 1 {
        lemma_items_ok_at(a.drop_last(), i);
    }
}

/// An object can be written only where each of its entries can.
pub proof fn lemma_entries_ok_at(o: Seq<(Seq<char>, Json)>, level: Level, i: int)
    requires
        entries_ok(o, level),
        0 <= i < o.len(),
    ensures
        entry_ok(o[i].0, o[i].1, level),
    decreases o.len(),
{
    if i < o.len() - 1 {
        lemma_entries_ok_at(o.drop_last(), level, i);
    }
}

/// The tag name that the header entry `data_name` is wrapped in.
pub fn match_head(data_name: &str) -> (r: &'static str)
    ensures
        r@ == head_of(data_name.spec_bytes()),
{
    let name = data_name.as_bytes();
    if ascii::lower_eq(name, "sys_head".as_bytes()) {
        "sys-header"
    } else if ascii::lower_eq(name, "app_head".as_bytes()) {
        "app-header"
    } else if ascii::lower_eq(name, "local_head".as_bytes()) {
        "local-header"
    } else {
        ""
    }
}

/// Tells whether `field_type` is a known field type code.
pub fn is_field_type(field_type: &str) -> (r: bool)
    ensures
        r == field_type_known(field_type.spec_bytes()),
{
    let t = field_type.as_bytes();
    ascii::lower_eq(t, "s".as_bytes()) || ascii::lower_eq(t, "d".as_bytes()) || ascii::lower_eq(
        t,
        "f".as_bytes(),
    ) || ascii::lower_eq(t, "i".as_bytes())
}

/// The type name of the field type code `field_type`.  There is no type
/// name for any other code.
pub fn match_field(field_type: &str) -> (r: &'static str)
    requires
        field_type_known(field_type.spec_bytes()),
    ensures
        r@ == field_type_of(field_type.spec_bytes()),
{
    let t = field_type.as_bytes();
    if ascii::lower_eq(t, "s".as_bytes()) {
        "string"
    } else if ascii::lower_eq(t, "d".as_bytes()) {
        "double"
    } else if ascii::lower_eq(t, "f".as_bytes()) {
        "float"
    } else {
        "int"
    }
}

/// Writes one event; the contract of `xml::write_event` in the terms of
/// this module.
fn emit(w: &mut MessageWriter, ev: XmlOut<'_>) -> (res: Result<(), quick_xml::Error>)
    ensures
        res is Ok ==> xml::written(*final(w)) == xml::written(*old(w)) + xml::out_bytes(ev),
        xml::written(*old(w)).len() + xml::out_bytes(ev).len() <= isize::MAX ==> res is Ok,
        res is Err ==> xml::written(*old(w)).len() + xml::out_bytes(ev).len() > isize::MAX,
{
    xml::write_event(w, ev)
}

/// Writes a JSON string as a field.
fn write_field(w: &mut MessageWriter, s: &str) -> (res: Result<(), quick_xml::Error>)
    requires
        field_ok(s@),
    ensures
        res is Ok ==> xml::written(*final(w)) == xml::written(*old(w)) + field_xml(s@),
        res is Err ==> xml::written(*old(w)).len() + field_xml(s@).len() > isize::MAX,
{
    let ghost w0 = xml::written(*w);
    let ghost parts = strings::split_on(s@, ',');
    let fields = strings::split_commas(s);
    assert(fields@.len() == parts.len());
    if fields.len() < 3 {
        assert(xml::written(*w) =~= w0 + field_xml(s@));
        return Ok(());
    }
    assert(fields@[0]@ == parts[0] && fields@[1]@ == parts[1] && fields@[2]@ == parts[2]);
    let mut elem = xml::start_tag_new("field");
    xml::push_attribute(&mut elem, "type", match_field(fields[0]));
    xml::push_attribute(&mut elem, "length", fields[1]);
    xml::push_attribute(&mut elem, "scale", fields[2]);
    assert(xml::start_content(elem) == field_start(parts));
    emit(w, XmlOut::Start(&elem))?;
    let ghost text: Seq<u8> = if parts.len() > 3 {
        xml::xml_escape(encode_utf8(strings::join_with(parts.skip(3), ',')))
    } else {
        Seq::empty()
    };
    if fields.len() > 3 {
        let mut rest: Vec<&str> = Vec::new();
        let mut i: usize = 3;
        while i < fields.len()
            invariant
                3 <= i <= fields@.len(),
                fields@.len() == parts.len(),
                strings::views(fields@) == parts,
                strings::views(rest@) == parts.subrange(3, i as int),
            decreases fields@.len() - i,
        {
            let ghost before = rest@;
            rest.push(fields[i]);
            proof {
                assert(strings::views(fields@)[i as int] == fields@[i as int]@);
                assert(rest@ == before.push(fields@[i as int]));
                assert(strings::views(before).len() == before.len());
                assert(before.len() == i - 3);
                assert(rest@.len() == i - 2);
                assert(parts.subrange(3, i + 1).len() == i - 2);
                assert forall|j: int| 0 <= j < rest@.len() implies #[trigger] strings::views(
                    rest@,
                )[j] == parts.subrange(3, i + 1)[j] by {
                    if j < before.len() {
                        assert(strings::views(before)[j] == parts.subrange(3, i as int)[j]);
                        assert(strings::views(rest@)[j] == rest@[j]@);
                    } else {
                        assert(strings::views(rest@)[j] == rest@[j]@);
                        assert(rest@[j] == fields@[i as int]);
                    }
                }
                assert(strings::views(rest@) =~= parts.subrange(3, i + 1));
            }
            i = i + 1;
        }
        assert(parts.subrange(3, parts.len() as int) =~= parts.skip(3));
        let field = strings::join_commas(rest.as_slice());
        emit(w, XmlOut::Text(xml::text_new(field.as_str())))?;
    }
    assert(xml::written(*w) == w0 + start_tag(field_start(parts)) + text);
    emit(w, XmlOut::End(xml::end_of(&elem)))?;
    assert(xml::written(*w) =~= w0 + field_xml(s@));
    Ok(())
}

/// The XML of the first items of an array is never longer than that of
/// all of them.
proof fn lemma_items_xml_prefix(a: Seq<Json>, i: int)
    requires
        0 <= i <= a.len(),
    ensures
        items_xml(a.take(i)).len() <= items_xml(a).len(),
    decreases a.len(),
{
    if i < a.len() {
        lemma_items_xml_prefix(a.drop_last(), i);
        assert(a.drop_last().take(i) =~= a.take(i));
    } else {
        assert(a.take(i) =~= a);
    }
}

/// The XML of the first entries of an object is never longer than that of
/// all of them.
proof fn lemma_entries_xml_prefix(o: Seq<(Seq<char>, Json)>, level: Level, i: int)
    requires
        0 <= i <= o.len(),
    ensures
        entries_xml(o.take(i), level).len() <= entries_xml(o, level).len(),
    decreases o.len(),
{
    if i < o.len() {
        lemma_entries_xml_prefix(o.drop_last(), level, i);
        assert(o.drop_last().take(i) =~= o.take(i));
    } else {
        assert(o.take(i) =~= o);
    }
}

/// Writes `<data name="name">`.
fn write_data_start(w: &mut MessageWriter, name: &str) -> (res: Result<(), quick_xml::Error>)
    ensures
        res is Ok ==> xml::written(*final(w)) == xml::written(*old(w)) + data_start(name@),
        res is Err ==> xml::written(*old(w)).len() + data_start(name@).len() > isize::MAX,
{
    let mut data = xml::start_tag_new("data");
    xml::push_attribute(&mut data, "name", name);
    emit(w, XmlOut::Start(&data))
}

/// Writes `</data>`.
fn write_data_end(w: &mut MessageWriter) -> (res: Result<(), quick_xml::Error>)
    ensures
        res is Ok ==> xml::written(*final(w)) == xml::written(*old(w)) + end_tag(
            "data".spec_bytes(),
        ),
        res is Err ==> xml::written(*old(w)).len() + end_tag("data".spec_bytes()).len()
            > isize::MAX,
{
    emit(w, XmlOut::End(xml::end_tag_new("data")))
}

/// Writes a JSON value at a level.
fn write_value(w: &mut MessageWriter, v: &Value, level: Level) -> (res: Result<
    (),
    quick_xml::Error,
>)
    requires
        value_ok(json::json_view(*v), level),
    ensures
        res is Ok ==> xml::written(*final(w)) == xml::written(*old(w)) + value_xml(
            json::json_view(*v),
            level,
        ),
        res is Err ==> xml::written(*old(w)).len() + value_xml(json::json_view(*v), level).len()
            > isize::MAX,
    decreases json::json_view(*v), 0nat,
{
    match json::classify(v) {
        JsonRef::Str(s) => write_field(w, s.as_str()),
        JsonRef::Array(a) => {
            let ghost w0 = xml::written(*w);
            let ghost items = a@.map_values(|x: Value| json::json_view(x));
            let ghost total = value_xml(json::json_view(*v), level);
            let elem = xml::start_tag_new("array");
            emit(w, XmlOut::Start(&elem))?;
            assert(items.take(0) =~= Seq::<Json>::empty());
            let mut i: usize = 0;
            while i < a.len()
                invariant
                    i <= a@.len(),
                    items == a@.map_values(|x: Value| json::json_view(x)),
                    json::json_view(*v) == Json::Array(items),
                    items_ok(items),
                    total == value_xml(json::json_view(*v), level),
                    w0 == xml::written(*old(w)),
                    xml::start_content(elem) == "array".spec_bytes(),
                    xml::start_name(elem) == "array".spec_bytes(),
                    xml::written(*w) == w0 + start_tag("array".spec_bytes()) + items_xml(
                        items.take(i as int),
                    ),
                decreases a@.len() - i,
            {
                proof {
                    lemma_items_ok_at(items, i as int);
                    assert(items.take(i + 1).drop_last() =~= items.take(i as int));
                    lemma_items_xml_prefix(items, i + 1);
                }
                assert(json::json_view(a@[i as int]) == items[i as int]);
                assert(items_xml(items.take(i + 1)) == items_xml(items.take(i as int)) + value_xml(
                    items[i as int],
                    Level::Field,
                ));
                match write_value(w, &a[i], Level::Field) {
                    Ok(()) => {},
                    Err(e) => {
                        assert(total == start_tag("array".spec_bytes()) + items_xml(items)
                            + end_tag("array".spec_bytes()));
                        return Err(e);
                    },
                }
                i = i + 1;
            }
            assert(items.take(i as int) =~= items);
            emit(w, XmlOut::End(xml::end_of(&elem)))?;
            Ok(())
        },
        JsonRef::Object(m) => write_map(w, m, level),
        JsonRef::Scalar => Ok(()),
    }
}

/// Writes a JSON object at a level.
fn write_map(w: &mut MessageWriter, m: &serde_json::Map<String, Value>, level: Level) -> (res:
    Result<(), quick_xml::Error>)
    requires
        map_ok(json::entries_view(*m), level),
    ensures
        res is Ok ==> xml::written(*final(w)) == xml::written(*old(w)) + map_xml(
            json::entries_view(*m),
            level,
        ),
        res is Err ==> xml::written(*old(w)).len() + map_xml(json::entries_view(*m), level).len()
            > isize::MAX,
    decreases json::entries_view(*m), 1nat,
{
    let ghost w0 = xml::written(*w);
    let ghost ents = json::entries_view(*m);
    let ghost pre: Seq<u8> = if level is Field {
        start_tag("struct".spec_bytes())
    } else {
        Seq::empty()
    };
    if level == Level::Field {
        emit(w, XmlOut::Start(&xml::start_tag_new("struct")))?;
    }
    assert(xml::written(*w) == w0 + pre);
    let entries = json::map_entries(m);
    assert(ents.take(0) =~= Seq::<(Seq<char>, Json)>::empty());
    let mut i: usize = 0;
    while i < entries.len()
        invariant
            i <= entries@.len(),
            entries@.len() == ents.len(),
            ents == json::entries_view(*m),
            forall|j: int|
                0 <= j < entries@.len() ==> (#[trigger] entries@[j]).0@ == ents[j].0
                    && json::json_view(*entries@[j].1) == ents[j].1,
            entries_ok(ents, level),
            w0 == xml::written(*old(w)),
            pre == (if level is Field {
                start_tag("struct".spec_bytes())
            } else {
                Seq::<u8>::empty()
            }),
            xml::written(*w) == w0 + pre + entries_xml(ents.take(i as int), level),
        decreases entries@.len() - i,
    {
        let (k, v) = entries[i];
        proof {
            assert(entries@[i as int].0@ == ents[i as int].0);
            lemma_entries_ok_at(ents, level, i as int);
            assert(ents.take(i + 1).drop_last() =~= ents.take(i as int));
            lemma_entries_xml_prefix(ents, level, i + 1);
        }
        assert(entries_xml(ents.take(i + 1), level) == entries_xml(ents.take(i as int), level)
            + entry_xml(ents[i as int].0, ents[i as int].1, level));
        match write_entry(w, k.as_str(), v, level) {
            Ok(()) => {},
            Err(e) => {
                assert(map_xml(ents, level).len() >= pre.len() + entries_xml(ents, level).len());
                return Err(e);
            },
        }
        i = i + 1;
    }
    assert(ents.take(i as int) =~= ents);
    if level == Level::Field {
        emit(w, XmlOut::End(xml::end_tag_new("struct")))?;
    }
    Ok(())
}

/// Writes one entry of a JSON object at a level.
fn write_entry(w: &mut MessageWriter, name: &str, v: &Value, level: Level) -> (res: Result<
    (),
    quick_xml::Error,
>)
    requires
        entry_ok(name@, json::json_view(*v), level),
    ensures
        res is Ok ==> xml::written(*final(w)) == xml::written(*old(w)) + entry_xml(
            name@,
            json::json_view(*v),
            level,
        ),
        res is Err ==> xml::written(*old(w)).len() + entry_xml(
            name@,
            json::json_view(*v),
            level,
        ).len() > isize::MAX,
    decreases json::json_view(*v), 1nat,
{
    let ghost w0 = xml::written(*w);
    let ghost total = entry_xml(name@, json::json_view(*v), level);
    if level == Level::Service && ascii::lower_eq(name.as_bytes(), "body".as_bytes()) {
        let elem = xml::start_tag_new("body");
        emit(w, XmlOut::Start(&elem))?;
        if let JsonRef::Object(o) = json::classify(v) {
            write_map(w, o, Level::Body)?;
        }
        emit(w, XmlOut::End(xml::end_of(&elem)))?;
        assert(xml::written(*w) =~= w0 + total);
    } else if level == Level::Service {
        let elem = xml::start_tag_new(match_head(name));
        emit(w, XmlOut::Start(&elem))?;
        write_data_start(w, name)?;
        write_value(w, v, Level::Field)?;
        write_data_end(w)?;
        emit(w, XmlOut::End(xml::end_of(&elem)))?;
        assert(xml::written(*w) =~= w0 + total);
    } else {
        write_data_start(w, name)?;
        write_value(w, v, Level::Field)?;
        write_data_end(w)?;
        assert(xml::written(*w) =~= w0 + total);
    }
    Ok(())
}

/// The view of an optional type code.
pub open spec fn code_view(c: Option<String>) -> Option<Seq<char>> {
    match c {
        Some(s) => Some(s@),
        None => None,
    }
}

/// Finds the first unknown type code met in writing a JSON value at a
/// level.
fn first_unknown(v: &Value, level: Level) -> (r: Option<String>)
    ensures
        code_view(r) == value_unknown(json::json_view(*v), level),
    decreases json::json_view(*v), 0nat,
{
    match json::classify(v) {
        JsonRef::Str(s) => {
            let fields = strings::split_commas(s.as_str());
            proof {
                if fields@.len() >= 3 {
                    assert(strings::views(fields@)[0] == fields@[0]@);
                }
            }
            if fields.len() >= 3 && !is_field_type(fields[0]) {
                Some(String::from_str(fields[0]))
            } else {
                None
            }
        },
        JsonRef::Array(a) => {
            let ghost items = a@.map_values(|x: Value| json::json_view(x));
            assert(items.take(0) =~= Seq::<Json>::empty());
            let mut i: usize = 0;
            while i < a.len()
                invariant
                    i <= a@.len(),
                    items == a@.map_values(|x: Value| json::json_view(x)),
                    json::json_view(*v) == Json::Array(items),
                    items_unknown(items.take(i as int)) is None,
                decreases a@.len() - i,
            {
                assert(json::json_view(a@[i as int]) == items[i as int]);
                assert(items.take(i + 1).drop_last() =~= items.take(i as int));
                assert(json::json_view(*v)->Array_0 == items);
                assert(decreases_to!(json::json_view(*v) => items[i as int]));
                let c = first_unknown(&a[i], Level::Field);
                if c.is_some() {
                    proof {
                        lemma_items_unknown_prefix(items, i + 1);
                    }
                    return c;
                }
                i = i + 1;
            }
            assert(items.take(i as int) =~= items);
            None
        },
        JsonRef::Object(m) => {
            assert(json::json_view(*v)->Object_0 == json::entries_view(*m));
            assert(decreases_to!(json::json_view(*v) => json::entries_view(*m)));
            map_first_unknown(m, level)
        },
        JsonRef::Scalar => None,
    }
}

/// Finds the first unknown type code met in writing a JSON object at a
/// level.
fn map_first_unknown(m: &serde_json::Map<String, Value>, level: Level) -> (r: Option<String>)
    ensures
        code_view(r) == map_unknown(json::entries_view(*m), level),
    decreases json::entries_view(*m), 1nat,
{
    let ghost ents = json::entries_view(*m);
    let entries = json::map_entries(m);
    assert(ents.take(0) =~= Seq::<(Seq<char>, Json)>::empty());
    let mut i: usize = 0;
    while i < entries.len()
        invariant
            i <= entries@.len(),
            entries@.len() == ents.len(),
            ents == json::entries_view(*m),
            forall|j: int|
                0 <= j < entries@.len() ==> (#[trigger] entries@[j]).0@ == ents[j].0
                    && json::json_view(*entries@[j].1) == ents[j].1,
            entries_unknown(ents.take(i as int), level) is None,
        decreases entries@.len() - i,
    {
        let (k, v) = entries[i];
        assert(entries@[i as int].0@ == ents[i as int].0);
        assert(ents.take(i + 1).drop_last() =~= ents.take(i as int));
        let c = entry_first_unknown(k.as_str(), v, level);
        if c.is_some() {
            proof {
                lemma_entries_unknown_prefix(ents, level, i + 1);
            }
            return c;
        }
        i = i + 1;
    }
    assert(ents.take(i as int) =~= ents);
    None
}

/// Finds the first unknown type code met in writing one entry of a JSON
/// object at a level.
fn entry_first_unknown(name: &str, v: &Value, level: Level) -> (r: Option<String>)
    ensures
        code_view(r) == entry_unknown(name@, json::json_view(*v), level),
    decreases json::json_view(*v), 1nat,
{
    if level == Level::Service && ascii::lower_eq(name.as_bytes(), "body".as_bytes()) {
        match json::classify(v) {
            JsonRef::Object(o) => {
                assert(json::json_view(*v)->Object_0 == json::entries_view(*o));
                assert(decreases_to!(json::json_view(*v) => json::entries_view(*o)));
                map_first_unknown(o, Level::Body)
            },
            _ => None,
        }
    } else {
        first_unknown(v, Level::Field)
    }
}

/// What a message begins with: the XML declaration and `<service>`.
pub open spec fn xml_header() -> Seq<u8> {
    "<?xml version=\"1.0\" encoding=\"UTF-8\"?><service>".spec_bytes()
}

/// The ESB XML message of a JSON value: the declaration, then the value
/// written at the top of the `<service>`, then `</service>`.
pub open spec fn document_xml(j: Json) -> Seq<u8> {
    xml_header() + value_xml(j, Level::Service) + end_tag("service".spec_bytes())
}

/// What converting the JSON text `input` gives: where it is not JSON, the
/// error `serde_json` reports for it; otherwise the message of its value, or an error from the writer,
/// which comes only where the message would exceed `isize::MAX` bytes.
pub open spec fn json_to_xml_result(input: Seq<u8>, res: Result<Bytes, EsbError>) -> bool {
    match json::json_read(input) {
        Err(err) => res matches Err(EsbError::Json(e)) && e == err,
        Ok(j) => match res {
            Ok(out) => bytes_buf::bytes_view(out) == document_xml(j),
            Err(e) => e is Xml && document_xml(j).len() > isize::MAX,
        },
    }
}

/// Converts a JSON message to ESB XML (see `document_xml`).  Every field
/// of the message must have a known type code.
pub fn esb_json_to_xml(b: Bytes) -> (res: Result<Bytes, EsbError>)
    requires
        json::json_read(bytes_buf::bytes_view(b)) matches Ok(j) ==> value_ok(j, Level::Service),
    ensures
        json_to_xml_result(bytes_buf::bytes_view(b), res),
{
    let header = vstd::slice::slice_to_vec(
        "<?xml version=\"1.0\" encoding=\"UTF-8\"?><service>".as_bytes(),
    );
    let mut writer = xml::xml_writer(header);
    let json = match json::parse_json(bytes_buf::bytes_as_slice(&b)) {
        Ok(v) => v,
        Err(e) => {
            return Err(EsbError::Json(e));
        },
    };
    let ghost j = json::json_view(json);
    match write_value(&mut writer, &json, Level::Service) {
        Ok(()) => {},
        Err(e) => {
            return Err(EsbError::Xml(e));
        },
    }
    match emit(&mut writer, XmlOut::End(xml::end_tag_new("service"))) {
        Ok(()) => {},
        Err(e) => {
            return Err(EsbError::Xml(e));
        },
    }
    assert(xml::written(writer) =~= document_xml(j));
    Ok(bytes_buf::bytes_from_vec(xml::writer_into_vec(writer)))
}

/// What `try_esb_json_to_xml` gives.
#[derive(Debug)]
pub enum JsonToXml {
    /// The message was converted, or could not be read or written.
    Converted(Result<Bytes, EsbError>),
    /// The message was not converted: this is the first field type code,
    /// in the order the message is written, that is not known.
    UnknownFieldType(String),
}

/// Converts a JSON message to ESB XML as `esb_json_to_xml` does, and
/// answers `UnknownFieldType`, without converting, where a field of the
/// message has an unknown type code.
pub fn try_esb_json_to_xml(b: Bytes) -> (res: JsonToXml)
    ensures
        match json::json_read(bytes_buf::bytes_view(b)) {
            Ok(j) if value_unknown(j, Level::Service) is Some => res matches JsonToXml::UnknownFieldType(
                code,
            ) && Some(code@) == value_unknown(j, Level::Service),
            _ => res matches JsonToXml::Converted(r) && json_to_xml_result(
                bytes_buf::bytes_view(b),
                r,
            ),
        },
{
    let unknown = match json::parse_json(bytes_buf::bytes_as_slice(&b)) {
        Ok(v) => first_unknown(&v, Level::Service),
        Err(_) => None,
    };
    match unknown {
        Some(code) => JsonToXml::UnknownFieldType(code),
        None => JsonToXml::Converted(esb_json_to_xml(b)),
    }
}

/// The XML of an array's items holds the XML of every item, in order, each
/// written as a field: appending an item appends its XML.
pub proof fn lemma_items_xml_push(a: Seq<Json>, x: Json)
    ensures
        items_xml(a.push(x)) == items_xml(a) + value_xml(x, Level::Field),
        items_xml(Seq::<Json>::empty()) == Seq::<u8>::empty(),
{
    assert(a.push(x).drop_last() =~= a);
}

/// An array is written as `<array>`, its items, `</array>`, at any level.
pub proof fn lemma_array_xml(a: Seq<Json>, level: Level)
    ensures
        value_xml(Json::Array(a), level) == start_tag("array".spec_bytes()) + items_xml(a)
            + end_tag("array".spec_bytes()),
{
}

/// The XML of an object's entries holds one entry for each member, in
/// order, at every level: appending a member appends its entry.
pub proof fn lemma_entries_xml_push(o: Seq<(Seq<char>, Json)>, e: (Seq<char>, Json), level: Level)
    ensures
        entries_xml(o.push(e), level) == entries_xml(o, level) + entry_xml(e.0, e.1, level),
        entries_xml(Seq::<(Seq<char>, Json)>::empty(), level) == Seq::<u8>::empty(),
{
    assert(o.push(e).drop_last() =~= o);
}

/// An object written as a field is wrapped in `<struct>`; at the top of the
/// service or in the body its entries stand unwrapped.
pub proof fn lemma_object_xml(o: Seq<(Seq<char>, Json)>, level: Level)
    ensures
        value_xml(Json::Object(o), Level::Field) == start_tag("struct".spec_bytes()) + entries_xml(
            o,
            Level::Field,
        ) + end_tag("struct".spec_bytes()),
        !(level is Field) ==> value_xml(Json::Object(o), level) == entries_xml(o, level),
{
}

/// Below the service level an entry's value is always written as a field:
/// `<data name="k">`, the value at field level, `</data>`.  So an object
/// in the body is wrapped in `<struct>`.
pub proof fn lemma_entry_below_service(k: Seq<char>, v: Json, level: Level)
    requires
        !(level is Service),
    ensures
        entry_xml(k, v, level) == data_start(k) + value_xml(v, Level::Field) + end_tag(
            "data".spec_bytes(),
        ),
{
}

/// A string is written as a field, and a scalar not at all, at any level.
pub proof fn lemma_scalar_xml(s: Seq<char>, level: Level)
    ensures
        value_xml(Json::Str(s), level) == field_xml(s),
        value_xml(Json::Scalar, level) == Seq::<u8>::empty(),
{
}

/// The start tag of a field with type code `c`, length `l` and scale `sc`.
pub open spec fn field_tag(c: Seq<char>, l: Seq<char>, sc: Seq<char>) -> Seq<u8> {
    "field".spec_bytes() + attr("type", field_type_of(encode_utf8(c))) + attr("length", l) + attr(
        "scale",
        sc,
    )
}

/// How a JSON string `code,length,scale[,value]` is written: a `<field>`
/// whose attributes are the type name of the code, the length and the
/// scale, holding the escaped value, that is everything after the third
/// comma, commas included; with no value part the field is empty; with
/// fewer than three parts nothing is written.
pub proof fn lemma_field_xml(c: Seq<char>, l: Seq<char>, sc: Seq<char>, rest: Seq<char>)
    requires
        !c.contains(','),
        !l.contains(','),
        !sc.contains(','),
    ensures
        field_xml(c.push(',') + l.push(',') + sc.push(',') + rest) == start_tag(
            field_tag(c, l, sc),
        ) + xml::xml_escape(encode_utf8(rest)) + end_tag("field".spec_bytes()),
        field_xml(c.push(',') + l.push(',') + sc) == start_tag(field_tag(c, l, sc)) + end_tag(
            "field".spec_bytes(),
        ),
        field_xml(c.push(',') + l) == Seq::<u8>::empty(),
        field_xml(c) == Seq::<u8>::empty(),
{
    strings::lemma_split_single(c, ',');
    strings::lemma_split_single(l, ',');
    strings::lemma_split_single(sc, ',');
    // four parts or more
    let s4 = c.push(',') + l.push(',') + sc.push(',') + rest;
    assert(s4 =~= c.push(',') + (l.push(',') + (sc.push(',') + rest)));
    strings::lemma_split_concat(sc, rest, ',');
    strings::lemma_split_concat(l, sc.push(',') + rest, ',');
    strings::lemma_split_concat(c, l.push(',') + (sc.push(',') + rest), ',');
    let p4 = strings::split_on(s4, ',');
    assert(p4 =~= seq![c, l, sc] + strings::split_on(rest, ','));
    strings::lemma_split_nonempty(rest, ',');
    assert(p4.skip(3) =~= strings::split_on(rest, ','));
    strings::lemma_join_split(rest, ',');
    assert(p4[0] == c && p4[1] == l && p4[2] == sc);
    // three parts
    let s3 = c.push(',') + l.push(',') + sc;
    assert(s3 =~= c.push(',') + (l.push(',') + sc));
    strings::lemma_split_concat(l, sc, ',');
    strings::lemma_split_concat(c, l.push(',') + sc, ',');
    let p3 = strings::split_on(s3, ',');
    assert(p3 =~= seq![c, l, sc]);
    // two parts, one part
    strings::lemma_split_concat(c, l, ',');
    assert(strings::split_on(c.push(',') + l, ',') =~= seq![c, l]);
}

/// Outside the top of the service, an entry is a `<data>` (see
/// `lemma_entry_below_service`); at the top, the entry `body` (any case)
/// is the `<body>` holding the object's entries unwrapped (or nothing when
/// its value is not an object), and any other entry is its `<data>`
/// wrapped in the header tag its name maps to.
pub proof fn lemma_entry_at_service(k: Seq<char>, v: Json)
    ensures
        super::name_is(encode_utf8(k), "body") ==> entry_xml(k, v, Level::Service) == start_tag(
            "body".spec_bytes(),
        ) + (match v {
            Json::Object(o) => entries_xml(o, Level::Body),
            _ => Seq::<u8>::empty(),
        }) + end_tag("body".spec_bytes()),
        !super::name_is(encode_utf8(k), "body") ==> entry_xml(k, v, Level::Service) == start_tag(
            encode_utf8(head_of(encode_utf8(k))),
        ) + data_start(k) + value_xml(v, Level::Field) + end_tag("data".spec_bytes()) + end_tag(
            encode_utf8(head_of(encode_utf8(k))),
        ),
{
    if !super::name_is(encode_utf8(k), "body") {
        let h = encode_utf8(head_of(encode_utf8(k)));
        assert(start_tag(h) + (data_start(k) + value_xml(v, Level::Field) + end_tag(
            "data".spec_bytes(),
        )) + end_tag(h) =~= start_tag(h) + data_start(k) + value_xml(v, Level::Field) + end_tag(
            "data".spec_bytes(),
        ) + end_tag(h));
    }
}

/// A message is the declaration and `<service>`, then the value at the top
/// of the service, then `</service>`.
pub proof fn lemma_document_frame(j: Json)
    ensures
        document_xml(j) == "<?xml version=\"1.0\" encoding=\"UTF-8\"?><service>".spec_bytes()
            + value_xml(j, Level::Service) + "</service>".spec_bytes(),
{
    reveal_strlit("</");
    reveal_strlit(">");
    reveal_strlit("service");
    reveal_strlit("</service>");
    vstd::utf8::is_ascii_chars_encode_utf8("</"@);
    vstd::utf8::is_ascii_chars_encode_utf8(">"@);
    vstd::utf8::is_ascii_chars_encode_utf8("service"@);
    vstd::utf8::is_ascii_chars_encode_utf8("</service>"@);
    assert(end_tag("service".spec_bytes()) =~= "</service>".spec_bytes());
}

} // verus!
