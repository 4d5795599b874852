use csv_validate::config::{parse_char_replacement, CommonConfig, ValidatorSpec};
use csv_validate::issue::ValidationResult;
use csv_validate::line_validators::{validate_line_field_count, validate_line_separator};
use csv_validate::validators::{
    build_pipeline, FieldCount, FieldCountConfig, IllegalChars, IllegalCharsConfig,
    ValidatorBuildError,
};

fn common(sep: Option<&str>) -> CommonConfig {
    CommonConfig { quote_char: '"', separator: sep.map(|s| s.to_string()), has_header: false }
}

#[test]
fn field_count_validator_matches_and_mismatches() {
    let fc = FieldCount::new(FieldCountConfig { expected: 3, common: common(Some(",")) }).unwrap();
    let ok = fc.validate("a,b,c", 1);
    assert_eq!(ok.message, "");
    assert!(!ok.modified);
    assert_eq!(ok.fixed, "a,b,c");

    let bad = fc.validate("a,b", 1);
    assert_eq!(bad.message, "Expected 3, found 2");
    assert!(bad.message.contains("3") && bad.message.contains("2"));
    assert_eq!(bad.fixed, "a,b");
    assert!(!bad.modified);
}

#[test]
fn field_count_validator_defaults_to_comma() {
    let fc = FieldCount::new(FieldCountConfig { expected: 2, common: common(None) }).unwrap();
    assert_eq!(fc.validate("x,y", 1).message, "");
    assert_eq!(fc.validate("x;y", 1).message, "Expected 2, found 1");
}

#[test]
fn field_count_rejects_empty_separator() {
    let r = FieldCount::new(FieldCountConfig { expected: 2, common: common(Some("")) });
    assert!(matches!(r, Err(ValidatorBuildError::EmptySeparator)));
}

#[test]
fn illegal_chars_reports_patterns_and_offsets() {
    let ic = IllegalChars::new(IllegalCharsConfig {
        illegal_chars: vec!["@".to_string(), "?".to_string()],
        replace_with: vec!["_".to_string(), ".".to_string()],
        fix: true,
        common: common(Some(",")),
    })
    .unwrap();
    let out = ic.validate("a@b?c", 1);
    assert!(out.modified);
    assert_eq!(out.fixed, "a_b.c");
    assert_eq!(
        out.message,
        "Illegal char found on row 1 at positions: |-> @ <-|:1\n\
         Illegal char found on row 1 at positions: |-> ? <-|:3\n"
    );
}

#[test]
fn illegal_chars_without_fix_keeps_text() {
    let ic = IllegalChars::new(IllegalCharsConfig {
        illegal_chars: vec!["@".to_string()],
        replace_with: vec!["_".to_string()],
        fix: false,
        common: common(Some(",")),
    })
    .unwrap();
    let out = ic.validate("x@y@z", 7);
    assert!(out.modified);
    assert_eq!(out.fixed, "x@y@z");
    assert_eq!(out.message, "Illegal char found on row 7 at positions: |-> @ <-|:1, 3\n");
}

#[test]
fn illegal_chars_fix_is_idempotent() {
    let ic = IllegalChars::new(IllegalCharsConfig {
        illegal_chars: vec!["@".to_string(), "?".to_string()],
        replace_with: vec!["_".to_string(), ".".to_string()],
        fix: true,
        common: common(Some(",")),
    })
    .unwrap();
    let once = ic.validate("a@b?c@", 1);
    let twice = ic.validate(&once.fixed, 2);
    assert_eq!(twice.fixed, once.fixed);
    assert_eq!(twice.message, "");
    assert!(!twice.modified);
}

#[test]
fn illegal_chars_missing_replacement_deletes() {
    let ic = IllegalChars::new(IllegalCharsConfig {
        illegal_chars: vec!["#".to_string()],
        replace_with: vec![],
        fix: true,
        common: common(Some(",")),
    })
    .unwrap();
    assert_eq!(ic.validate("a#b#c", 1).fixed, "abc");
}

#[test]
fn illegal_chars_rejects_empty_pattern() {
    let r = IllegalChars::new(IllegalCharsConfig {
        illegal_chars: vec!["".to_string()],
        replace_with: vec![],
        fix: false,
        common: common(Some(",")),
    });
    assert!(matches!(r, Err(ValidatorBuildError::EmptyPattern)));
}

#[test]
fn line_field_count_accepts_exact_rows() {
    let input = ValidationResult::new("a,b,c".to_string());
    let result = validate_line_field_count(input, 3, &",".to_string(), Some('"'), 0);
    assert_eq!(result.issues.len(), 0);
    assert_eq!(result.line, "a,b,c");
}

#[test]
fn line_field_count_trims_long_rows() {
    let input = ValidationResult::new("a,b,c,d".to_string());
    let result = validate_line_field_count(input, 3, &",".to_string(), Some('"'), 4);
    assert_eq!(result.line, "a,b,c");
    assert_eq!(result.issues.len(), 1);
    assert_eq!(
        result.issues[0].message,
        "Incorrect field count: expected 3, got 4. Fixed by trimming."
    );
    assert!(result.issues[0].fixed);
}

#[test]
fn line_field_count_pads_short_rows() {
    let input = ValidationResult::new("a,b".to_string());
    let result = validate_line_field_count(input, 3, &",".to_string(), Some('"'), 1);
    assert_eq!(result.line, "a,b, ");
    assert_eq!(result.issues.len(), 1);
    assert!(result.issues[0].message.contains("Incorrect field count"));
    assert_eq!(result.issues[0].message, "Incorrect field count: expected 3, got 2.");
}

#[test]
fn line_field_count_reports_parse_errors() {
    let input = ValidationResult::new("\"abc".to_string());
    let result = validate_line_field_count(input, 1, &",".to_string(), Some('"'), 9);
    assert_eq!(result.line, "\"abc");
    assert_eq!(result.issues.len(), 1);
    assert_eq!(result.issues[0].message, "Error parsing fields");
    assert!(!result.issues[0].fixed);
}

#[test]
fn line_separator_checks_presence() {
    let ok = validate_line_separator(ValidationResult::new("a,b,c".to_string()), ',', 0);
    assert_eq!(ok.issues.len(), 0);

    let missing = validate_line_separator(ValidationResult::new("a;b;c".to_string()), ',', 0);
    assert_eq!(missing.issues.len(), 1);
    assert!(missing.issues[0].message.contains("Expected separator"));
    assert_eq!(missing.issues[0].message, "Expected separator ',' not found.");
}

#[test]
fn parse_char_replacement_splits_on_equals() {
    let r = parse_char_replacement("@=_").unwrap();
    assert_eq!(r.pattern, "@");
    assert_eq!(r.replace_with, Some("_".to_string()));

    let r = parse_char_replacement("?=.").unwrap();
    assert_eq!(r.pattern, "?");
    assert_eq!(r.replace_with, Some(".".to_string()));

    let r = parse_char_replacement("x").unwrap();
    assert_eq!(r.pattern, "x");
    assert_eq!(r.replace_with, None);

    assert_eq!(parse_char_replacement("").unwrap_err(), "Pattern must not be empty");
    assert_eq!(parse_char_replacement("=y").unwrap_err(), "Pattern must not be empty");
}

#[test]
fn build_pipeline_keeps_enabled_validators_in_order() {
    let specs = vec![
        ValidatorSpec::FieldCount { expected: 3, enabled: true, common: common(Some(",")) },
        ValidatorSpec::IllegalChars {
            illegal_chars: vec!["@".to_string()],
            replace_with: vec!["_".to_string()],
            fix: true,
            enabled: false,
            common: common(Some(",")),
        },
        ValidatorSpec::LineCount { min: None, max: None, enabled: false, common: common(None) },
    ];
    let pipeline = build_pipeline(specs).unwrap();
    assert_eq!(pipeline.len(), 1);
}

#[test]
fn build_pipeline_rejects_enabled_line_count() {
    let specs = vec![ValidatorSpec::LineCount {
        min: Some(1),
        max: None,
        enabled: true,
        common: common(None),
    }];
    assert!(matches!(build_pipeline(specs), Err(ValidatorBuildError::LineCountUnsupported)));
}

#[test]
fn build_pipeline_rejects_bad_parameters() {
    let specs = vec![ValidatorSpec::IllegalChars {
        illegal_chars: vec!["".to_string()],
        replace_with: vec![],
        fix: false,
        enabled: true,
        common: common(None),
    }];
    assert!(matches!(build_pipeline(specs), Err(ValidatorBuildError::EmptyPattern)));

    let specs = vec![ValidatorSpec::FieldCount {
        expected: 1,
        enabled: true,
        common: common(Some("")),
    }];
    assert!(matches!(build_pipeline(specs), Err(ValidatorBuildError::EmptySeparator)));
}

#[test]
fn illegal_chars_offsets_render_with_several_digits() {
    let ic = IllegalChars::new(IllegalCharsConfig {
        illegal_chars: vec!["@".to_string()],
        replace_with: vec![],
        fix: false,
        common: common(Some(",")),
    })
    .unwrap();
    let out = ic.validate("0123456789@x", 3);
    assert_eq!(out.message, "Illegal char found on row 3 at positions: |-> @ <-|:10\n");
}

#[test]
fn illegal_chars_offsets_are_byte_offsets() {
    let ic = IllegalChars::new(IllegalCharsConfig {
        illegal_chars: vec!["@".to_string()],
        replace_with: vec![],
        fix: false,
        common: common(Some(",")),
    })
    .unwrap();
    // the accent takes two bytes, so the pattern sits at byte offset 2
    let out = ic.validate("é@x", 1);
    assert_eq!(out.message, "Illegal char found on row 1 at positions: |-> @ <-|:2\n");
}
