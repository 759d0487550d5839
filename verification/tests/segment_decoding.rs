use segstyle::color::ColorValue;
use segstyle::color::NamedColor;
use segstyle::segment::ConfigNode;
use segstyle::segment::DecodeError;
use segstyle::segment::SegmentValue;
use segstyle::segment::decode;
use segstyle::style::StyleAttributes;

fn text(s: &str) -> ConfigNode {
    ConfigNode::Text(s.to_string())
}

fn record(entries: Vec<(&str, ConfigNode)>) -> ConfigNode {
    ConfigNode::Record(entries.into_iter().map(|(k, n)| (k.to_string(), n)).collect())
}

#[test]
fn test_load_string() {
    // symbol = "S "
    let decoded = decode(&text("S ")).unwrap();
    assert_eq!(decoded.style, None);
    assert_eq!(decoded.text, "S ");
}

#[test]
fn test_load_struct() {
    // symbol = { value = "S ", style = "red bold" }
    let decoded = decode(&record(vec![("value", text("S ")), ("style", text("red bold"))]))
        .unwrap();
    assert_eq!(
        decoded.style,
        Some(StyleAttributes {
            bold: true,
            foreground: Some(ColorValue::Named(NamedColor::Red)),
            ..StyleAttributes::default()
        })
    );
    assert_eq!(decoded.text, "S ");
}

#[test]
fn decode_scalar_has_no_style() {
    assert_eq!(
        decode(&text("S ")),
        Ok(SegmentValue { text: "S ".to_string(), style: None })
    );
}

#[test]
fn decode_record_with_nullified_style() {
    // A style string that folds to nothing is a soft failure, not an error
    let decoded = decode(&record(vec![("value", text("S ")), ("style", text("none"))])).unwrap();
    assert_eq!(decoded.text, "S ");
    assert_eq!(decoded.style, None);

    let broken = decode(&record(vec![("value", text("S ")), ("style", text("x"))])).unwrap();
    assert_eq!(broken.style, None);
}

#[test]
fn decode_record_with_noop_style() {
    // An empty style string is an explicit, present, no-op style
    let decoded = decode(&record(vec![("value", text("S ")), ("style", text(""))])).unwrap();
    assert_eq!(decoded.style, Some(StyleAttributes::default()));
}

#[test]
fn decode_missing_style_field() {
    assert_eq!(
        decode(&record(vec![("value", text("S "))])),
        Err(DecodeError::MissingField("style".to_string()))
    );
}

#[test]
fn decode_missing_value_field() {
    // A missing `value` is reported before a missing `style`
    assert_eq!(
        decode(&record(vec![])),
        Err(DecodeError::MissingField("value".to_string()))
    );
    assert_eq!(
        decode(&record(vec![("style", text("bold"))])),
        Err(DecodeError::MissingField("value".to_string()))
    );
}

#[test]
fn decode_unknown_field() {
    assert_eq!(
        decode(&record(vec![
            ("value", text("S ")),
            ("style", text("x")),
            ("extra", ConfigNode::Other),
        ])),
        Err(DecodeError::UnknownField("extra".to_string()))
    );
    // The first unknown key decides, before any missing key is noticed
    assert_eq!(
        decode(&record(vec![("stile", text("bold"))])),
        Err(DecodeError::UnknownField("stile".to_string()))
    );
}

#[test]
fn decode_duplicate_fields() {
    assert_eq!(
        decode(&record(vec![("value", text("a")), ("value", text("b"))])),
        Err(DecodeError::DuplicateField("value".to_string()))
    );
    assert_eq!(
        decode(&record(vec![
            ("value", text("a")),
            ("style", text("bold")),
            ("style", text("red")),
        ])),
        Err(DecodeError::DuplicateField("style".to_string()))
    );
}

#[test]
fn decode_invalid_shapes() {
    // A node that is neither a string nor a record
    assert_eq!(decode(&ConfigNode::Other), Err(DecodeError::InvalidShape));
    // A record whose field value is not a string
    assert_eq!(
        decode(&record(vec![("value", ConfigNode::Other)])),
        Err(DecodeError::InvalidShape)
    );
    assert_eq!(
        decode(&record(vec![("value", text("S ")), ("style", record(vec![]))])),
        Err(DecodeError::InvalidShape)
    );
}
