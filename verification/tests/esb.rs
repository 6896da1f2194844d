use bytes::{Bytes, BytesMut};
use util::esb::{match_field, match_head, try_esb_json_to_xml, EsbError, JsonToXml, XmlToJson};
use util::esb::to_json::truncate;
use util::xml::{XmlAttr, XmlEvent};

const SAMPLE_XML: &str = r#"<?xml version="1.0" encoding="UTF-8"?><service><body><data name="ACCT_NO"><field type="string" length="20" scale="0">6222</field></data><data name="AMT"><field type="double" length="16" scale="2">100.50</field></data><data name="LIST"><array><struct><data name="ID"><field type="int" length="4" scale="0">1</field></data></struct></array></data></body><sys-header><data name="SYS_HEAD"><struct><data name="SERVICE_CODE"><field type="string" length="11" scale="0">11002000001</field></data></struct></data></sys-header></service>"#;

const SAMPLE_JSON: &str = r#"{"BODY":{"ACCT_NO":"6222","AMT":100.50,"LIST":[{"ID":1}]},"SYS_HEAD":{"SERVICE_CODE":"11002000001"}}"#;

const SAMPLE_ESB_JSON: &str = r#"{"SYS_HEAD":{"SERVICE_CODE":"s,11,0,11002000001"},"BODY":{"ACCT_NO":"s,20,0,6222","AMT":"d,16,2,100.50","LIST":[{"ID":"i,4,0,1"}]}}"#;

fn to_json(xml: &str) -> String {
    let out = util::esb_xml_to_json(Bytes::from(xml.to_string())).unwrap();
    String::from_utf8(out.to_vec()).unwrap()
}

fn to_xml(json: &str) -> String {
    let out = util::esb_json_to_xml(Bytes::from(json.to_string())).unwrap();
    String::from_utf8(out.to_vec()).unwrap()
}

#[test]
fn esb_xml_to_json() {
    assert_eq!(to_json(SAMPLE_XML), SAMPLE_JSON);
}

#[test]
fn esb_json_to_xml() {
    assert_eq!(to_xml(SAMPLE_ESB_JSON), SAMPLE_XML);
}

#[test]
fn xml_to_json_empty_elements() {
    let xml = r#"<service><data name="A"><field/></data><data name="B"><struct/></data><data name="C"><array/></data></service>"#;
    assert_eq!(to_json(xml), r#"{"A":null,"B":{}"C":[]}"#);
}

#[test]
fn xml_to_json_tag_names_ignore_case() {
    let xml = r#"<SERVICE><Data NAME="x"><FIELD TYPE="STRING">v</FIELD></Data></SERVICE>"#;
    assert_eq!(to_json(xml), r#"{"x":"v"}"#);
}

#[test]
fn xml_to_json_byte_fields_are_quoted() {
    let xml = r#"<service><data name="b"><field type="byte">ab</field></data><data name="n"><field type="int">7</field></data></service>"#;
    assert_eq!(to_json(xml), r#"{"b":"ab","n":7}"#);
}

#[test]
fn xml_to_json_keeps_text_raw() {
    let xml = r#"<service><data name="t"><field type="string">a&amp;b</field></data></service>"#;
    assert_eq!(to_json(xml), r#"{"t":"a&amp;b"}"#);
}

#[test]
fn xml_to_json_text_outside_fields_is_ignored() {
    let xml = "<service> <data name=\"k\"> <field type=\"int\">3</field> </data> </service>";
    assert_eq!(to_json(xml), r#"{"k":3}"#);
}

#[test]
fn xml_to_json_reports_mismatched_tags() {
    let res = util::esb_xml_to_json(Bytes::from_static(b"<service><body></service>"));
    assert!(matches!(res, Err(EsbError::Xml(_))));
}

#[test]
fn xml_to_json_empty_input() {
    assert_eq!(to_json(""), "");
}

#[test]
fn json_to_xml_escapes_values() {
    let xml = to_xml(r#"{"k":"s,5,0,<a&b>"}"#);
    assert_eq!(
        xml,
        r#"<?xml version="1.0" encoding="UTF-8"?><service><><data name="k"><field type="string" length="5" scale="0">&lt;a&amp;b&gt;</field></data></></service>"#
    );
}

#[test]
fn json_to_xml_escapes_names_and_attributes() {
    let xml = to_xml(r#"{"BODY":{"a\"b":"s,1'2,0"}}"#);
    assert_eq!(
        xml,
        r#"<?xml version="1.0" encoding="UTF-8"?><service><body><data name="a&quot;b"><field type="string" length="1&apos;2" scale="0"></field></data></body></service>"#
    );
}

#[test]
fn json_to_xml_value_with_commas() {
    let xml = to_xml(r#"{"BODY":{"x":"S,10,0,a,b,,c"}}"#);
    assert_eq!(
        xml,
        r#"<?xml version="1.0" encoding="UTF-8"?><service><body><data name="x"><field type="string" length="10" scale="0">a,b,,c</field></data></body></service>"#
    );
}

#[test]
fn json_to_xml_short_strings_write_nothing() {
    let xml = to_xml(r#"{"BODY":{"x":"s,1","y":"zz"}}"#);
    assert_eq!(
        xml,
        r#"<?xml version="1.0" encoding="UTF-8"?><service><body><data name="x"></data><data name="y"></data></body></service>"#
    );
}

#[test]
fn json_to_xml_headers() {
    let xml = to_xml(r#"{"App_Head":{"a":"f,3,1,1.5"},"LOCAL_HEAD":{},"body":[]}"#);
    assert_eq!(
        xml,
        r#"<?xml version="1.0" encoding="UTF-8"?><service><app-header><data name="App_Head"><struct><data name="a"><field type="float" length="3" scale="1">1.5</field></data></struct></data></app-header><local-header><data name="LOCAL_HEAD"><struct></struct></data></local-header><body></body></service>"#
    );
}

#[test]
fn json_to_xml_scalars_write_nothing() {
    let xml = to_xml(r#"{"BODY":{"a":1,"b":null,"c":true}}"#);
    assert_eq!(
        xml,
        r#"<?xml version="1.0" encoding="UTF-8"?><service><body><data name="a"></data><data name="b"></data><data name="c"></data></body></service>"#
    );
}

#[test]
fn json_to_xml_top_level_string() {
    assert_eq!(
        to_xml(r#""i,2,0,42""#),
        r#"<?xml version="1.0" encoding="UTF-8"?><service><field type="int" length="2" scale="0">42</field></service>"#
    );
}

#[test]
fn json_to_xml_rejects_invalid_json() {
    let res = util::esb_json_to_xml(Bytes::from_static(b"{\"a\":"));
    let expected = serde_json::from_reader::<_, serde_json::Value>(&b"{\"a\":"[..]).unwrap_err();
    match res {
        Err(EsbError::Json(e)) => assert_eq!(e.to_string(), expected.to_string()),
        _ => panic!("expected a JSON error"),
    }
    let res = try_esb_json_to_xml(Bytes::from_static(b"not json"));
    assert!(matches!(res, JsonToXml::Converted(Err(EsbError::Json(_)))));
    for bad in [&b""[..], &b"{"[..], &b"{} x"[..]] {
        let res = util::esb_json_to_xml(Bytes::copy_from_slice(bad));
        assert!(matches!(res, Err(EsbError::Json(_))));
    }
}

#[test]
fn try_json_to_xml_refuses_unknown_field_types() {
    let res = try_esb_json_to_xml(Bytes::from_static(br#"{"BODY":{"a":"s,1,0,v","b":"X,1,0,v","c":"y,1,0"}}"#));
    match res {
        JsonToXml::UnknownFieldType(code) => assert_eq!(code, "X"),
        other => panic!("unexpected {:?}", other),
    }
}

#[test]
fn try_json_to_xml_ignores_body_that_is_not_an_object() {
    let res = try_esb_json_to_xml(Bytes::from_static(br#"{"body":"x,1,0,v"}"#));
    let xml = match res {
        JsonToXml::Converted(Ok(out)) => String::from_utf8(out.to_vec()).unwrap(),
        other => panic!("unexpected {:?}", other),
    };
    assert_eq!(xml, r#"<?xml version="1.0" encoding="UTF-8"?><service><body></body></service>"#);
}

#[test]
fn try_json_to_xml_converts_supported_messages() {
    match try_esb_json_to_xml(Bytes::from(SAMPLE_ESB_JSON.to_string())) {
        JsonToXml::Converted(Ok(out)) => {
            assert_eq!(String::from_utf8(out.to_vec()).unwrap(), SAMPLE_XML)
        }
        other => panic!("unexpected {:?}", other),
    }
}

#[test]
fn round_trip_through_xml() {
    assert_eq!(to_json(&to_xml(SAMPLE_ESB_JSON)), SAMPLE_JSON);
}

#[test]
fn match_head_names() {
    assert_eq!(match_head("sys_head"), "sys-header");
    assert_eq!(match_head("APP_HEAD"), "app-header");
    assert_eq!(match_head("Local_Head"), "local-header");
    assert_eq!(match_head("body"), "");
    assert_eq!(match_head("sys_head2"), "");
}

#[test]
fn match_field_names() {
    assert_eq!(match_field("s"), "string");
    assert_eq!(match_field("D"), "double");
    assert_eq!(match_field("f"), "float");
    assert_eq!(match_field("I"), "int");
}

#[test]
fn truncate_removes_one_trailing_needle() {
    let mut m = BytesMut::from(&b"a,b,,"[..]);
    truncate(&mut m, b",");
    assert_eq!(&m[..], b"a,b,");
    truncate(&mut m, b",");
    assert_eq!(&m[..], b"a,b");
    truncate(&mut m, b",");
    assert_eq!(&m[..], b"a,b");
    let mut e = BytesMut::new();
    truncate(&mut e, b",");
    assert_eq!(&e[..], b"");
}

#[test]
fn feeding_events_one_by_one() {
    let mut conv = XmlToJson::new();
    conv.feed(&XmlEvent::Start(b"service".to_vec(), vec![]));
    conv.feed(&XmlEvent::Start(
        b"data".to_vec(),
        vec![XmlAttr::Pair(b"id".to_vec(), b"1".to_vec()), XmlAttr::Pair(b"Name".to_vec(), b"k".to_vec())],
    ));
    conv.feed(&XmlEvent::Start(
        b"field".to_vec(),
        vec![XmlAttr::Pair(b"type".to_vec(), b"double".to_vec()), XmlAttr::Pair(b"TYPE".to_vec(), b"String".to_vec())],
    ));
    conv.feed(&XmlEvent::Text(b"v".to_vec()));
    conv.feed(&XmlEvent::Other);
    conv.feed(&XmlEvent::End(b"service".to_vec()));
    assert_eq!(&conv.finish()[..], br#"{"k":"v"}"#);
}

#[test]
fn malformed_attributes_stop_the_scan() {
    let mut conv = XmlToJson::new();
    conv.feed(&XmlEvent::Start(
        b"data".to_vec(),
        vec![XmlAttr::Malformed, XmlAttr::Pair(b"name".to_vec(), b"k".to_vec())],
    ));
    conv.feed(&XmlEvent::Start(
        b"field".to_vec(),
        vec![XmlAttr::Malformed, XmlAttr::Pair(b"type".to_vec(), b"string".to_vec())],
    ));
    conv.feed(&XmlEvent::Text(b"v".to_vec()));
    assert_eq!(&conv.finish()[..], b"v,");
}

#[test]
fn xml_to_json_same_for_any_case() {
    let upper = r#"<SERVICE><Data NAME="a"><FIELD Type="STRING">x</FIELD></Data></SERVICE>"#;
    let lower = r#"<service><data name="a"><field type="string">x</field></data></service>"#;
    assert_eq!(to_json(upper), r#"{"a":"x"}"#);
    assert_eq!(to_json(upper), to_json(lower));
}
