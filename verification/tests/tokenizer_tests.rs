use csv_validate::tokenizer::{line_processor, TokenizeError};

#[test]
fn tokenizer_round_trip_on_joined_fields() {
    let fields = vec!["foo", "bar", "baz"];
    let row = fields.join(",");
    let parsed = line_processor(&row, ",", '"').unwrap();
    assert_eq!(parsed, vec!["foo".to_string(), "bar".to_string(), "baz".to_string()]);
}

#[test]
fn tokenizer_escaped_quote_yields_one_field() {
    let parsed = line_processor("\"a\"\"b\"", ",", '"').unwrap();
    assert_eq!(parsed, vec!["a\"b".to_string()]);
}

#[test]
fn tokenizer_handles_multi_character_separator() {
    let line = "field1$$$\"field$$$2\"$$$\"field3 with \"\"quo$$$ted\"\" text\"$$$field4";
    let result = line_processor(line, "$$$", '"').unwrap();
    assert_eq!(result.len(), 4);
    assert_eq!(result[0], "field1");
    assert_eq!(result[1], "field$$$2");
    assert_eq!(result[2], "field3 with \"quo$$$ted\" text");
    assert_eq!(result[3], "field4");
}

#[test]
fn tokenizer_reports_unterminated_quote() {
    let result = line_processor("\"abc", ",", '"');
    assert_eq!(result, Err(TokenizeError::UnterminatedQuote));
}

#[test]
fn tokenizer_edge_rows() {
    // an empty row has no fields
    assert_eq!(line_processor("", ",", '"').unwrap(), Vec::<String>::new());
    // a trailing separator closes the last field
    assert_eq!(line_processor("a,", ",", '"').unwrap(), vec!["a".to_string()]);
    // an empty field in the middle survives
    assert_eq!(
        line_processor("a,,b", ",", '"').unwrap(),
        vec!["a".to_string(), "".to_string(), "b".to_string()]
    );
}

#[test]
fn tokenizer_handles_non_ascii_fields() {
    let parsed = line_processor("á,ß,ü", ",", '"').unwrap();
    assert_eq!(parsed, vec!["á".to_string(), "ß".to_string(), "ü".to_string()]);
}

#[test]
fn tokenizer_round_trip_with_multi_char_separator() {
    let fields = vec!["foo", "bar", "baz"];
    let row = fields.join("##");
    let parsed = line_processor(&row, "##", '"').unwrap();
    assert_eq!(parsed, vec!["foo".to_string(), "bar".to_string(), "baz".to_string()]);
}
