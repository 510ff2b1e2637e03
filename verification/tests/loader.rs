use phonenumber::error::LoadError;
use phonenumber::loader::{load, metadata};
use phonenumber::metadata::{Format, Metadata};
use phonenumber::xml::{XmlAttribute, XmlDocument, XmlEvent};

const UNITED_STATES: &str = r#"<?xml version="1.0" encoding="UTF-8"?>
<!-- test data -->
<phoneNumberMetadata>
  <territories>
    <territory id="US" countryCode="1" internationalPrefix="011" nationalPrefix="1"
               mainCountryForCode="true" mobileNumberPortableRegion="true">
      <references>
        <sourceUrl>http://example.org</sourceUrl>
      </references>
      <availableFormats>
        <numberFormat pattern="(\d{3})(\d{4})">
          <format>$1-$2</format>
          <intlFormat>NA</intlFormat>
        </numberFormat>
        <numberFormat pattern="(\d{3})(\d{3})(\d{4})" nationalPrefixOptionalWhenFormatting="true">
          <leadingDigits>[2-9]</leadingDigits>
          <format>($1) $2-$3</format>
          <intlFormat>$1-$2-$3</intlFormat>
        </numberFormat>
      </availableFormats>
      <generalDesc>
        <nationalNumberPattern>[2-9]\d{9}</nationalNumberPattern>
      </generalDesc>
      <fixedLine>
        <possibleLengths national="10"/>
        <exampleNumber>2015550123</exampleNumber>
      </fixedLine>
    </territory>
  </territories>
</phoneNumberMetadata>
"#;

fn wrap(territory: &str) -> String {
    format!("<phoneNumberMetadata><territories>{}</territories></phoneNumberMetadata>", territory)
}

fn only(list: Vec<Metadata>) -> Metadata {
    assert_eq!(list.len(), 1);
    list.into_iter().next().unwrap()
}

fn s(text: &str) -> Option<String> {
    Some(text.to_string())
}

fn unhandled_element(phase: &str, name: &str) -> LoadError {
    LoadError::UnhandledElement { phase: phase.to_string(), name: name.to_string() }
}

#[test]
fn loads_a_territory() {
    let meta = only(load(UNITED_STATES.as_bytes()).unwrap());
    assert_eq!(meta.id, s("US"));
    assert_eq!(meta.country_code, Some(1));
    assert_eq!(meta.international_prefix, s("011"));
    assert_eq!(meta.national_prefix, s("1"));
    assert!(meta.main_country_for_code);
    assert!(meta.mobile_number_portable);
    assert_eq!(meta.preferred_international_prefix, None);
    assert_eq!(meta.leading_digits, None);

    let general = meta.general.as_ref().unwrap();
    assert_eq!(general.national_number, s(r"[2-9]\d{9}"));
    assert_eq!(general.example, None);
    let fixed = meta.fixed_line.as_ref().unwrap();
    assert_eq!(fixed.example, s("2015550123"));
    assert_eq!(fixed.national_number, None);
    assert!(fixed.possible_length.is_empty());
    assert!(meta.mobile.is_none());
    assert!(meta.toll_free.is_none());
}

#[test]
fn loads_number_formats() {
    let meta = only(load(UNITED_STATES.as_bytes()).unwrap());
    assert_eq!(meta.format.len(), 2);
    let first = &meta.format[0];
    assert_eq!(first.pattern, s(r"(\d{3})(\d{4})"));
    assert_eq!(first.format, s("$1-$2"));
    assert!(first.leading_digits.is_empty());
    assert!(!first.national_prefix_optional_when_formatting);
    let second = &meta.format[1];
    assert_eq!(second.pattern, s(r"(\d{3})(\d{3})(\d{4})"));
    assert_eq!(second.format, s("($1) $2-$3"));
    assert_eq!(second.leading_digits, vec!["[2-9]".to_string()]);
    assert!(second.national_prefix_optional_when_formatting);

    assert_eq!(meta.international_format.len(), 1);
    let intl = &meta.international_format[0];
    assert_eq!(intl.format, s("$1-$2-$3"));
}

#[test]
fn international_format_is_national_with_other_pattern() {
    let meta = only(load(UNITED_STATES.as_bytes()).unwrap());
    let national = &meta.format[1];
    let intl = &meta.international_format[0];
    assert!(intl.format.is_some());
    assert_eq!(intl.pattern, national.pattern);
    assert_eq!(intl.leading_digits, national.leading_digits);
    assert_eq!(intl.national_prefix, national.national_prefix);
    assert_eq!(intl.national_prefix_formatting_rule, national.national_prefix_formatting_rule);
    assert_eq!(
        intl.national_prefix_optional_when_formatting,
        national.national_prefix_optional_when_formatting
    );
    assert_eq!(intl.domestic_carrier, national.domestic_carrier);
}

#[test]
fn format_without_intl_format_is_international_too() {
    let xml = wrap(
        r#"<territory id="X"><availableFormats><numberFormat pattern="(\d)"><format>$1</format></numberFormat></availableFormats></territory>"#,
    );
    let meta = only(load(xml.as_bytes()).unwrap());
    assert_eq!(meta.format.len(), 1);
    assert_eq!(meta.international_format.len(), 1);
    assert_eq!(meta.international_format[0].format, s("$1"));
    assert_eq!(meta.international_format[0].pattern, s(r"(\d)"));
}

#[test]
fn international_formats_not_more_than_national() {
    let xml = wrap(
        r#"<territory><availableFormats>
            <numberFormat><format>a</format><intlFormat>NA</intlFormat></numberFormat>
            <numberFormat><leadingDigits>1</leadingDigits></numberFormat>
            <numberFormat><format>b</format></numberFormat>
        </availableFormats></territory>"#,
    );
    let meta = only(load(xml.as_bytes()).unwrap());
    assert_eq!(meta.format.len(), 3);
    assert_eq!(meta.international_format.len(), 1);
    assert!(meta.international_format.len() <= meta.format.len());
    assert_eq!(meta.international_format[0].format, s("b"));
}

#[test]
fn territory_defaults_flow_into_formats() {
    let xml = wrap(
        r#"<territory nationalPrefixFormattingRule="0$FG" carrierCodeFormattingRule="$CC"
              nationalPrefixOptionalWhenFormatting="true">
            <availableFormats>
              <numberFormat pattern="1"><format>x</format></numberFormat>
              <numberFormat pattern="2" nationalPrefixFormattingRule="$FG" nationalPrefixOptionalWhenFormatting="false"><format>y</format></numberFormat>
            </availableFormats>
          </territory>"#,
    );
    let meta = only(load(xml.as_bytes()).unwrap());
    assert_eq!(meta.defaults.format.national_prefix_formatting_rule, s("0$FG"));
    assert_eq!(meta.defaults.format.domestic_carrier, s("$CC"));
    assert!(meta.defaults.format.national_prefix_optional_when_formatting);
    assert_eq!(meta.format[0].national_prefix_formatting_rule, s("0$FG"));
    assert_eq!(meta.format[0].domestic_carrier, s("$CC"));
    assert!(meta.format[0].national_prefix_optional_when_formatting);
    assert_eq!(meta.format[1].national_prefix_formatting_rule, s("$FG"));
    assert_eq!(meta.format[1].domestic_carrier, s("$CC"));
    assert!(!meta.format[1].national_prefix_optional_when_formatting);
}

#[test]
fn default_descriptor_stays_empty() {
    let meta = only(load(UNITED_STATES.as_bytes()).unwrap());
    let d = &meta.defaults.descriptor;
    assert_eq!(d.national_number, None);
    assert_eq!(d.possible_number, None);
    assert!(d.possible_length.is_empty());
    assert!(d.possible_local_length.is_empty());
    assert_eq!(d.example, None);
    assert!(meta.short_code.is_none());
    assert!(meta.standard_rate.is_none());
    assert!(meta.carrier.is_none());
}

#[test]
fn all_territory_attributes() {
    let xml = wrap(
        r#"<territory id="GB" countryCode="+44" internationalPrefix="00" preferredInternationalPrefix="000"
             nationalPrefix="0" preferredExtnPrefix=" ext. " nationalPrefixForParsing="0?"
             nationalPrefixTransformRule="$1" mainCountryForCode="false" leadingDigits="7"
             mobileNumberPortableRegion="false"></territory>"#,
    );
    let meta = only(load(xml.as_bytes()).unwrap());
    assert_eq!(meta.id, s("GB"));
    assert_eq!(meta.country_code, Some(44));
    assert_eq!(meta.international_prefix, s("00"));
    assert_eq!(meta.preferred_international_prefix, s("000"));
    assert_eq!(meta.national_prefix, s("0"));
    assert_eq!(meta.preferred_extension_prefix, s(" ext. "));
    assert_eq!(meta.national_prefix_for_parsing, s("0?"));
    assert_eq!(meta.national_prefix_transform_rule, s("$1"));
    assert!(!meta.main_country_for_code);
    assert_eq!(meta.leading_digits, s("7"));
    assert!(!meta.mobile_number_portable);
}

#[test]
fn every_descriptor_element() {
    let names = [
        "generalDesc", "fixedLine", "mobile", "tollFree", "premiumRate", "sharedCost",
        "personalNumber", "voip", "pager", "uan", "emergency", "voicemail",
        "noInternationalDialling",
    ];
    let mut body = String::new();
    for (i, name) in names.iter().enumerate() {
        body.push_str(&format!("<{0}><exampleNumber>{1}</exampleNumber></{0}>", name, i));
    }
    let meta = only(load(wrap(&format!("<territory>{}</territory>", body)).as_bytes()).unwrap());
    let fields = [
        &meta.general, &meta.fixed_line, &meta.mobile, &meta.toll_free, &meta.premium_rate,
        &meta.shared_cost, &meta.personal, &meta.voip, &meta.pager, &meta.uan, &meta.emergency,
        &meta.voicemail, &meta.no_international,
    ];
    for (i, field) in fields.iter().enumerate() {
        assert_eq!(field.as_ref().unwrap().example, Some(i.to_string()));
    }
    assert!(meta.short_code.is_none());
    assert!(meta.standard_rate.is_none());
    assert!(meta.carrier.is_none());
}

#[test]
fn several_territories_in_document_order() {
    let xml = r#"<phoneNumberMetadata>
        <comment><nested><deeper>x</deeper></nested><empty/></comment>
        <territories><territory id="A"></territory><other><territory id="skipped"></territory></other><territory id="B"></territory></territories>
        <territories><territory id="C"></territory></territories>
      </phoneNumberMetadata>"#;
    let list = load(xml.as_bytes()).unwrap();
    let ids: Vec<Option<String>> = list.iter().map(|m| m.id.clone()).collect();
    assert_eq!(ids, vec![s("A"), s("B"), s("C")]);
}

#[test]
fn skipping_composes() {
    let xml = wrap(
        r#"<territory id="Z"><references><a><b>1</b><b><c/></b></a><d>2</d></references><areaCodeOptional><x></x></areaCodeOptional><mobile><exampleNumber>5</exampleNumber></mobile></territory>"#,
    );
    let meta = only(load(xml.as_bytes()).unwrap());
    assert_eq!(meta.mobile.unwrap().example, s("5"));
}

#[test]
fn self_closing_elements_are_passed_over() {
    let xml = wrap(r#"<territory id="E"/><territory id="F"><generalDesc/></territory>"#);
    let meta = only(load(xml.as_bytes()).unwrap());
    assert_eq!(meta.id, s("F"));
    assert!(meta.general.is_none());
}

#[test]
fn empty_input_loads_nothing() {
    assert_eq!(load(b"").unwrap().len(), 0);
    assert_eq!(load(b"<phoneNumberMetadata></phoneNumberMetadata>").unwrap().len(), 0);
}

#[test]
fn unhandled_attribute() {
    let r = load(wrap(r#"<territory foo="bar"></territory>"#).as_bytes());
    assert_eq!(
        r.unwrap_err(),
        LoadError::UnhandledAttribute { phase: "format".to_string(), name: "foo".to_string(), value: "bar".to_string() }
    );
    let r = load(wrap(r#"<territory><availableFormats><numberFormat baz="1"></numberFormat></availableFormats></territory>"#).as_bytes());
    assert_eq!(
        r.unwrap_err(),
        LoadError::UnhandledAttribute { phase: "format".to_string(), name: "baz".to_string(), value: "1".to_string() }
    );
}

#[test]
fn unhandled_elements() {
    let r = load(wrap("<territory><shortCode></shortCode></territory>").as_bytes());
    assert_eq!(r.unwrap_err(), unhandled_element("territory", "shortCode"));
    let r = load(wrap("<territory><generalDesc><possibleNumberPattern>1</possibleNumberPattern></generalDesc></territory>").as_bytes());
    assert_eq!(r.unwrap_err(), unhandled_element("descriptor", "possibleNumberPattern"));
    let r = load(wrap("<territory><availableFormats><foo></foo></availableFormats></territory>").as_bytes());
    assert_eq!(r.unwrap_err(), unhandled_element("formats", "foo"));
    let r = load(wrap("<territory><availableFormats><numberFormat><bar></bar></numberFormat></availableFormats></territory>").as_bytes());
    assert_eq!(r.unwrap_err(), unhandled_element("format", "bar"));
}

#[test]
fn invalid_numbers_and_booleans() {
    assert_eq!(load(wrap(r#"<territory countryCode="x1"></territory>"#).as_bytes()).unwrap_err(), LoadError::ParseInt);
    assert_eq!(load(wrap(r#"<territory countryCode="70000"></territory>"#).as_bytes()).unwrap_err(), LoadError::ParseInt);
    assert_eq!(load(wrap(r#"<territory countryCode=""></territory>"#).as_bytes()).unwrap_err(), LoadError::ParseInt);
    assert_eq!(load(wrap(r#"<territory mainCountryForCode="yes"></territory>"#).as_bytes()).unwrap_err(), LoadError::ParseBool);
    assert_eq!(
        load(wrap(r#"<territory><availableFormats><numberFormat nationalPrefixOptionalWhenFormatting="True"></numberFormat></availableFormats></territory>"#).as_bytes()).unwrap_err(),
        LoadError::ParseBool
    );
}

#[test]
fn mismatched_tag_inside_text() {
    let r = load(wrap("<territory><generalDesc><nationalNumberPattern>1<b>2</b>3</nationalNumberPattern></generalDesc></territory>").as_bytes());
    assert_eq!(r.unwrap_err(), LoadError::MismatchedTag("b".to_string()));
}

#[test]
fn malformed_document_never_loads() {
    let r = load(b"<phoneNumberMetadata><territories></phoneNumberMetadata>");
    assert!(matches!(r, Err(LoadError::Xml(_))));
    let r = load(b"<phoneNumberMetadata></phoneNumberMetadata><");
    assert!(matches!(r, Err(LoadError::Xml(_))));
}

#[test]
fn malformed_attribute() {
    let r = load(wrap("<territory id=US></territory>").as_bytes());
    assert!(matches!(r, Err(LoadError::Xml(_))));
}

fn start(name: &str, attributes: Vec<Result<XmlAttribute, String>>) -> XmlEvent {
    XmlEvent::Start { name: name.as_bytes().to_vec(), attributes }
}

fn end(name: &str) -> XmlEvent {
    XmlEvent::End { name: name.as_bytes().to_vec() }
}

fn attribute(key: &[u8], value: &[u8]) -> Result<XmlAttribute, String> {
    Ok(XmlAttribute { key: key.to_vec(), value: value.to_vec() })
}

#[test]
fn document_that_ends_inside_an_element() {
    let d = XmlDocument { events: vec![start("phoneNumberMetadata", vec![]), start("territories", vec![])], failure: None };
    assert_eq!(metadata(&d).unwrap_err(), LoadError::UnexpectedEof);
    let d = XmlDocument {
        events: vec![start("phoneNumberMetadata", vec![]), start("territories", vec![])],
        failure: Some("broken".to_string()),
    };
    assert_eq!(metadata(&d).unwrap_err(), LoadError::Xml("broken".to_string()));
    let d = XmlDocument { events: vec![start("territories", vec![]), XmlEvent::Eof], failure: None };
    assert_eq!(metadata(&d).unwrap_err(), LoadError::UnexpectedEof);
}

#[test]
fn eof_event_ends_the_document() {
    let d = XmlDocument { events: vec![XmlEvent::Eof, end("junk")], failure: Some("x".to_string()) };
    assert_eq!(metadata(&d).unwrap().len(), 0);
}

#[test]
fn stray_end_tag() {
    let d = XmlDocument { events: vec![end("territory")], failure: None };
    assert_eq!(metadata(&d).unwrap_err(), LoadError::MismatchedTag("territory".to_string()));
    let d = XmlDocument { events: vec![end("phoneNumberMetadata"), XmlEvent::Other], failure: None };
    assert_eq!(metadata(&d).unwrap().len(), 0);
}

#[test]
fn invalid_utf8() {
    let d = XmlDocument {
        events: vec![
            start("territories", vec![]),
            start("territory", vec![attribute(b"id", &[0xff, 0xfe])]),
            end("territory"),
            end("territories"),
        ],
        failure: None,
    };
    assert_eq!(metadata(&d).unwrap_err(), LoadError::Utf8);
    let d = XmlDocument { events: vec![XmlEvent::End { name: vec![0xc0] }], failure: None };
    assert_eq!(metadata(&d).unwrap_err(), LoadError::Utf8);
}

#[test]
fn attribute_error_stops_at_its_place() {
    let d = XmlDocument {
        events: vec![
            start("territories", vec![]),
            start("territory", vec![attribute(b"id", b"A"), Err("bad attribute".to_string())]),
            end("territory"),
            end("territories"),
        ],
        failure: None,
    };
    assert_eq!(metadata(&d).unwrap_err(), LoadError::Xml("bad attribute".to_string()));
    let d = XmlDocument {
        events: vec![
            start("territories", vec![]),
            start("territory", vec![attribute(b"odd", b"A"), Err("bad attribute".to_string())]),
            end("territory"),
            end("territories"),
        ],
        failure: None,
    };
    assert_eq!(
        metadata(&d).unwrap_err(),
        LoadError::UnhandledAttribute { phase: "format".to_string(), name: "odd".to_string(), value: "A".to_string() }
    );
}

#[test]
fn text_concatenates_text_events() {
    let d = XmlDocument {
        events: vec![
            start("territories", vec![]),
            start("territory", vec![]),
            start("generalDesc", vec![]),
            start("nationalNumberPattern", vec![]),
            XmlEvent::Text { content: b"12".to_vec() },
            XmlEvent::Other,
            XmlEvent::Text { content: b"34".to_vec() },
            end("nationalNumberPattern"),
            end("generalDesc"),
            end("territory"),
            end("territories"),
        ],
        failure: None,
    };
    let meta = only(metadata(&d).unwrap());
    assert_eq!(meta.general.unwrap().national_number, s("1234"));
}

#[test]
fn clone_and_default() {
    let meta = only(load(UNITED_STATES.as_bytes()).unwrap());
    let copy = meta.clone();
    assert_eq!(copy.id, meta.id);
    assert_eq!(copy.format.len(), meta.format.len());
    assert_eq!(copy.format[1].leading_digits, meta.format[1].leading_digits);
    let empty = Metadata::default();
    assert!(empty.id.is_none() && empty.format.is_empty() && !empty.main_country_for_code);
    let f = Format::default();
    assert!(f.pattern.is_none() && f.leading_digits.is_empty());
}

#[test]
fn skipped_events_change_nothing() {
    let plain = load(UNITED_STATES.as_bytes());
    let noisy = UNITED_STATES
        .replace("<availableFormats>", "<availableFormats><!-- formats --><?hint x?>")
        .replace("<generalDesc>", "<generalDesc><empty/><![CDATA[ignored]]>")
        .replace("</territory>", "<!-- end --></territory>");
    let noisy = load(noisy.as_bytes());
    assert_eq!(format!("{:?}", plain), format!("{:?}", noisy));

    let d = XmlDocument { events: vec![start("territories", vec![]), end("territory")], failure: None };
    let mut e = d.events.iter().map(|x| match x {
        XmlEvent::Start { name, .. } => XmlEvent::Start { name: name.clone(), attributes: vec![] },
        XmlEvent::End { name } => XmlEvent::End { name: name.clone() },
        _ => XmlEvent::Other,
    }).collect::<Vec<_>>();
    e.insert(1, XmlEvent::Other);
    let with_other = XmlDocument { events: e, failure: None };
    assert_eq!(metadata(&d).unwrap_err(), LoadError::MismatchedTag("territory".to_string()));
    assert_eq!(format!("{:?}", metadata(&d)), format!("{:?}", metadata(&with_other)));
}
