use csv_validate::infer::{infer_multi_char_separator, infer_separator};

#[test]
fn test_infer_multi_char_separator() {
    let sample = "a,b,c\n1,2,3\n4,5,6";
    let result = infer_multi_char_separator(sample);
    assert_eq!(result.unwrap(), ",");

    let sample = "a;b;c\n1;2;3\n4;5;6";
    let result = infer_multi_char_separator(sample);
    assert_eq!(result.unwrap(), ";");

    let sample = "a\tb\tc\n1\t2\t3\n4\t5\t6";
    let result = infer_multi_char_separator(sample);
    assert_eq!(result.unwrap(), "\t");

    let sample = "a##b##c\n1##2##3\n4##5##6";
    let result = infer_multi_char_separator(sample);
    assert_eq!(result.unwrap(), "##");

    let sample = "a#@#b#@#c\n1#@#2#@#3\n4#@#5#@#6";
    let result = infer_multi_char_separator(sample);
    assert_eq!(result.unwrap(), "#@#");
}

#[test]
fn multi_char_inference_needs_two_lines() {
    assert_eq!(infer_multi_char_separator("a##b##c"), None);
    assert_eq!(infer_multi_char_separator(""), None);
}

#[test]
fn multi_char_inference_rejects_unstable_windows() {
    // "xx" repeats, but not the same number of times on each line
    assert_eq!(infer_multi_char_separator("axxbxxc\n1xx2"), None);
    // nothing repeats at all
    assert_eq!(infer_multi_char_separator("ab\ncd"), None);
}

#[test]
fn infer_separator_picks_most_frequent() {
    assert_eq!(infer_separator("a,b,c\n1,2,3"), ',');
    assert_eq!(infer_separator("a;b;c\n1;2;3"), ';');
    assert_eq!(infer_separator("a\tb\tc"), '\t');
}

#[test]
fn infer_separator_defaults_to_comma() {
    assert_eq!(infer_separator(""), ',');
    assert_eq!(infer_separator("abc"), ',');
    // a tie goes to the comma
    assert_eq!(infer_separator("a,b;c"), ',');
}

#[test]
fn multi_char_inference_handles_crlf_samples() {
    assert_eq!(infer_multi_char_separator("a,b\r\n1,2\r\n"), Some(",".to_string()));
}
