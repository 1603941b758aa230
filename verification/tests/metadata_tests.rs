use boop_core::metadata::{parse, ParseError};

fn src(text: &str) -> Vec<u8> {
    text.as_bytes().to_vec()
}

#[test]
fn full_block_parses() {
    let s = src(
        "/**\n{ \"name\": \"Base64 Encode\", \"description\": \"Encodes text\", \"author\": \"Ben\", \"icon\": \"lock\", \"category\": \"Encode\", \"bias\": -5, \"preview\": true }\n**/\nfunction main(state) {}\n",
    );
    let md = parse(&s).expect("well-formed metadata");
    assert_eq!(md.name, b"Base64 Encode".to_vec());
    assert_eq!(md.description, Some(b"Encodes text".to_vec()));
    assert_eq!(md.author, Some(b"Ben".to_vec()));
    assert_eq!(md.icon, Some(b"lock".to_vec()));
    assert_eq!(md.category, Some(b"Encode".to_vec()));
    assert_eq!(md.bias, -5);
    assert!(md.has_preview);
}

#[test]
fn minimal_block_defaults() {
    let s = src("/** { \"name\": \"Reverse\" } **/ code");
    let md = parse(&s).expect("well-formed metadata");
    assert_eq!(md.name, b"Reverse".to_vec());
    assert_eq!(md.description, None);
    assert_eq!(md.author, None);
    assert_eq!(md.icon, None);
    assert_eq!(md.category, None);
    assert_eq!(md.bias, 0);
    assert!(!md.has_preview);
}

#[test]
fn no_block_is_missing_block() {
    let s = src("function main(state) { return 1; }");
    assert_eq!(parse(&s).unwrap_err(), ParseError::MissingBlock);
}

#[test]
fn unclosed_block_is_missing_block() {
    let s = src("/** { \"name\": \"X\" } function main() {}");
    assert_eq!(parse(&s).unwrap_err(), ParseError::MissingBlock);
}

#[test]
fn block_without_name_is_missing_name() {
    let s = src("/** { \"author\": \"Ben\" } **/");
    assert_eq!(parse(&s).unwrap_err(), ParseError::MissingName);
}

#[test]
fn empty_name_is_missing_name() {
    let s = src("/** { \"name\": \"\" } **/");
    assert_eq!(parse(&s).unwrap_err(), ParseError::MissingName);
}

#[test]
fn broken_structure_is_malformed() {
    let s = src("/** { \"name\": \"X\", } **/");
    assert_eq!(parse(&s).unwrap_err(), ParseError::Malformed);
}

#[test]
fn missing_braces_is_malformed() {
    let s = src("/** \"name\": \"X\" **/");
    assert_eq!(parse(&s).unwrap_err(), ParseError::Malformed);
}

#[test]
fn wrong_type_for_name_is_malformed() {
    let s = src("/** { \"name\": 7 } **/");
    assert_eq!(parse(&s).unwrap_err(), ParseError::Malformed);
}

#[test]
fn wrong_type_for_bias_is_malformed() {
    let s = src("/** { \"name\": \"X\", \"bias\": \"big\" } **/");
    assert_eq!(parse(&s).unwrap_err(), ParseError::Malformed);
}

#[test]
fn oversized_bias_is_malformed() {
    let s = src("/** { \"name\": \"X\", \"bias\": 1234567890123 } **/");
    assert_eq!(parse(&s).unwrap_err(), ParseError::Malformed);
}

#[test]
fn unknown_keys_are_ignored() {
    let s = src("/** { \"api\": 1, \"tags\": \"text\", \"name\": \"X\" } **/");
    let md = parse(&s).expect("well-formed metadata");
    assert_eq!(md.name, b"X".to_vec());
}

#[test]
fn repeated_key_keeps_later_value() {
    let s = src("/** { \"name\": \"First\", \"name\": \"Second\" } **/");
    let md = parse(&s).expect("well-formed metadata");
    assert_eq!(md.name, b"Second".to_vec());
}

#[test]
fn bias_can_be_positive_and_boolean_false() {
    let s = src("/** { \"name\": \"X\", \"bias\": 42, \"preview\": false } **/");
    let md = parse(&s).expect("well-formed metadata");
    assert_eq!(md.bias, 42);
    assert!(!md.has_preview);
}

#[test]
fn trailing_text_after_object_is_malformed() {
    let s = src("/** { \"name\": \"X\" } trailing **/");
    assert_eq!(parse(&s).unwrap_err(), ParseError::Malformed);
}
