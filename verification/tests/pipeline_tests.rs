use csv_validate::config::CommonConfig;
use csv_validate::pipeline::{evaluate_row, format_report, pipeline_should_fix, run_pipeline};
use csv_validate::validators::{
    FieldCount, FieldCountConfig, IllegalChars, IllegalCharsConfig, RowValidator,
};

fn common(sep: &str) -> CommonConfig {
    CommonConfig { quote_char: '"', separator: Some(sep.to_string()), has_header: false }
}

fn field_count_pipeline(expected: usize) -> Vec<RowValidator> {
    vec![RowValidator::FieldCount(
        FieldCount::new(FieldCountConfig { expected, common: common(",") }).unwrap(),
    )]
}

#[test]
fn end_to_end_field_count_run() {
    let rows = vec!["a,b,c".to_string(), "a;b".to_string(), "a,b,c,d".to_string()];
    let pipeline = field_count_pipeline(3);
    let out = run_pipeline(&rows, &pipeline, 1024, true);
    assert_eq!(
        out.lines,
        vec![
            "a,b,c".to_string(),
            "-> Expected 3, found 1".to_string(),
            "-> Expected 3, found 4".to_string(),
        ]
    );
    assert_eq!(
        out.messages,
        vec!["Expected 3, found 1".to_string(), "Expected 3, found 4".to_string()]
    );
    assert_eq!(
        out.report,
        vec![
            "".to_string(),
            "Errors:".to_string(),
            "  Expected 3, found 1".to_string(),
            "  Expected 3, found 4".to_string(),
        ]
    );
}

#[test]
fn batching_never_reorders_output() {
    let rows: Vec<String> =
        vec!["a,b", "x,y,z", "1,2,3,4", "", "q,w,e"].into_iter().map(String::from).collect();
    let pipeline = field_count_pipeline(3);
    let reference: Vec<String> =
        (0..rows.len()).map(|i| evaluate_row(&pipeline, &rows[i], i + 1).line).collect();
    for limit in [0usize, 1, 2, 7, 100, usize::MAX] {
        let out = run_pipeline(&rows, &pipeline, limit, false);
        assert_eq!(out.lines, reference);
        assert!(out.report.is_empty());
    }
}

#[test]
fn chained_validators_see_prior_repairs() {
    let fixer = RowValidator::IllegalChars(
        IllegalChars::new(IllegalCharsConfig {
            illegal_chars: vec![";".to_string()],
            replace_with: vec![",".to_string()],
            fix: true,
            common: common(","),
        })
        .unwrap(),
    );
    let counter = RowValidator::FieldCount(
        FieldCount::new(FieldCountConfig { expected: 3, common: common(",") }).unwrap(),
    );
    let pipeline = vec![fixer, counter];
    assert!(pipeline_should_fix(&pipeline));

    // the separator repair runs first, so the count check sees three fields
    let r = evaluate_row(&pipeline, &"a;b;c".to_string(), 1);
    assert_eq!(r.line, "a,b,c");
    assert_eq!(r.messages.len(), 1);
    assert!(r.messages[0].contains("Illegal char found on row 1"));
}

#[test]
fn unmodified_rows_with_messages_get_an_arrow() {
    let pipeline = field_count_pipeline(2);
    let r = evaluate_row(&pipeline, &"a,b,c".to_string(), 5);
    assert_eq!(r.line, "-> Expected 2, found 3");
    assert_eq!(r.messages, vec!["Expected 2, found 3".to_string()]);

    let clean = evaluate_row(&pipeline, &"a,b".to_string(), 6);
    assert_eq!(clean.line, "a,b");
    assert!(clean.messages.is_empty());
}

#[test]
fn report_is_empty_without_messages() {
    assert!(format_report(&Vec::new()).is_empty());
    let lines = format_report(&vec!["one".to_string(), "two".to_string()]);
    assert_eq!(
        lines,
        vec!["".to_string(), "Errors:".to_string(), "  one".to_string(), "  two".to_string()]
    );
}

#[test]
fn fixer_pipeline_end_to_end() {
    let fixer = RowValidator::IllegalChars(
        IllegalChars::new(IllegalCharsConfig {
            illegal_chars: vec!["@".to_string()],
            replace_with: vec!["_".to_string()],
            fix: true,
            common: common(","),
        })
        .unwrap(),
    );
    let rows = vec!["a@b".to_string(), "ok".to_string()];
    let out = run_pipeline(&rows, &vec![fixer], 1, true);
    assert_eq!(out.lines, vec!["a_b".to_string(), "ok".to_string()]);
    assert_eq!(
        out.messages,
        vec!["Illegal char found on row 1 at positions: |-> @ <-|:1\n".to_string()]
    );
    assert_eq!(out.report.len(), 3);
    assert_eq!(out.report[1], "Errors:");
}

#[test]
fn counts_render_with_several_digits() {
    let pipeline = field_count_pipeline(12);
    let row = "a,a,a,a,a,a,a,a,a,a".to_string();
    let r = evaluate_row(&pipeline, &row, 1);
    assert_eq!(r.line, "-> Expected 12, found 10");
}

#[test]
fn diagnostics_without_repair_get_an_arrow() {
    // a non-fixing scan leaves the text equal to the input, so the
    // diagnostics are emitted, not the unchanged row
    let checker = RowValidator::IllegalChars(
        IllegalChars::new(IllegalCharsConfig {
            illegal_chars: vec!["@".to_string()],
            replace_with: vec!["_".to_string()],
            fix: false,
            common: common(","),
        })
        .unwrap(),
    );
    let r = evaluate_row(&vec![checker], &"a@b".to_string(), 1);
    assert_eq!(r.line, "-> Illegal char found on row 1 at positions: |-> @ <-|:1");
}

#[test]
fn identity_repair_emits_diagnostics() {
    // a repair that replaces the pattern with itself changes nothing, and a
    // row whose text equals the input gets its diagnostics instead
    let fixer = RowValidator::IllegalChars(
        IllegalChars::new(IllegalCharsConfig {
            illegal_chars: vec!["@".to_string()],
            replace_with: vec!["@".to_string()],
            fix: true,
            common: common(","),
        })
        .unwrap(),
    );
    let r = evaluate_row(&vec![fixer], &"a@b".to_string(), 2);
    assert_eq!(r.line, "-> Illegal char found on row 2 at positions: |-> @ <-|:1");
}
