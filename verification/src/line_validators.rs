//! Row-level validators over [`ValidationResult`]: a field-count check that
//! repairs the row, and a separator-presence check.
//!
//! Where a row has too many fields it is repaired by trimming the extra
//! fields; where it has too few, by appending one delimiter and one blank
//! field per missing field, so that the repaired row splits into the expected
//! count.  This crate documents that pair as its one canonical repair rule
//! for field counts.

use vstd::prelude::*;

use crate::issue::{issue_is, ValidationIssue, ValidationResult};
use crate::text::{chars_string, contains_char, dec_str_spec, push_chars, push_dec, str_chars};
use crate::tokenizer::{join_with, lemma_join_push, tokenize_chars, tokenize_spec};

verus! {

/// The message recorded when a row cannot be tokenized.
pub open spec fn parse_error_msg() -> Seq<char> {
    "Error parsing fields"@
}

/// The message recorded for a wrong field count.
pub open spec fn field_count_msg(expected: nat, got: nat, trimmed: bool) -> Seq<char> {
    "Incorrect field count: expected "@ + dec_str_spec(expected) + ", got "@ + dec_str_spec(got)
        + (if trimmed {
        ". Fixed by trimming."@
    } else {
        "."@
    })
}

/// The message recorded when the expected separator is missing.
pub open spec fn separator_msg(c: char) -> Seq<char> {
    "Expected separator '"@ + seq![c] + "' not found."@
}

/// The quote character used when none is configured.
pub open spec fn quote_or_default(q: Option<char>) -> char {
    match q {
        Some(c) => c,
        None => '"',
    }
}

/// What a short row gains: one delimiter and one blank field per missing
/// field.
pub open spec fn pad_fields(sep: Seq<char>, n: int) -> Seq<char>
    decreases n,
{
    if n <= 0 {
        Seq::empty()
    } else {
        pad_fields(sep, n - 1) + sep + seq![' ']
    }
}

/// The row text after the field-count repair.
pub open spec fn field_count_fixed_line(
    line: Seq<char>,
    fields: Seq<Seq<char>>,
    expected: int,
    sep: Seq<char>,
) -> Seq<char> {
    if fields.len() > expected {
        join_with(fields.take(expected), sep)
    } else if fields.len() < expected {
        line + pad_fields(sep, expected - fields.len())
    } else {
        line
    }
}

/// Joins the first `upto` fields with the delimiter.
fn join_upto(fields: &Vec<Vec<char>>, upto: usize, sep: &Vec<char>) -> (out: Vec<char>)
    requires
        upto <= fields@.len(),
    ensures
        out@ == join_with(fields.deep_view().take(upto as int), sep@),
{
    let mut out: Vec<char> = Vec::new();
    let mut i: usize = 0;
    assert(fields.deep_view().take(0) =~= Seq::<Seq<char>>::empty());
    while i < upto
        invariant
            i <= upto <= fields@.len(),
            out@ == join_with(fields.deep_view().take(i as int), sep@),
        decreases upto - i,
    {
        let ghost dv = fields.deep_view();
        if i > 0 {
            push_chars(&mut out, sep);
        }
        push_chars(&mut out, &fields[i]);
        proof {
            lemma_join_push(dv.take(i as int), dv[i as int], sep@);
            assert(dv.take(i as int).push(dv[i as int]) =~= dv.take(i + 1));
            if i > 0 {
                assert(out@ =~= join_with(dv.take(i as int), sep@) + sep@ + dv[i as int]);
            }
        }
        i += 1;
    }
    out
}

fn field_count_message(expected: usize, got: usize, trimmed: bool) -> (m: String)
    ensures
        m@ == field_count_msg(expected as nat, got as nat, trimmed),
{
    let mut v = str_chars("Incorrect field count: expected ");
    push_dec(&mut v, expected as u128);
    push_chars(&mut v, &str_chars(", got "));
    push_dec(&mut v, got as u128);
    if trimmed {
        push_chars(&mut v, &str_chars(". Fixed by trimming."));
    } else {
        push_chars(&mut v, &str_chars("."));
    }
    chars_string(&v)
}

/// Checks that the row tokenizes into the expected number of fields and
/// repairs it when it does not, as [`field_count_fixed_line`] states; a
/// tokenization error becomes a diagnostic, never a fault.
pub fn validate_line_field_count(
    input: ValidationResult,
    num_fields: usize,
    separator: &String,
    quote_char: Option<char>,
    line_number: usize,
) -> (r: ValidationResult)
    requires
        separator@.len() > 0,
    ensures
        ({
            let toks = tokenize_spec(input.line@, separator@, quote_or_default(quote_char));
            match toks {
                None => {
                    &&& r.line@ == input.line@
                    &&& r.issues@.len() == input.issues@.len() + 1
                    &&& r.issues@.drop_last() == input.issues@
                    &&& issue_is(
                        r.issues@.last(),
                        line_number as int,
                        None,
                        parse_error_msg(),
                        false,
                    )
                },
                Some(fields) => {
                    if fields.len() == num_fields {
                        r.line@ == input.line@ && r.issues@ == input.issues@
                    } else {
                        &&& r.line@ == field_count_fixed_line(
                            input.line@,
                            fields,
                            num_fields as int,
                            separator@,
                        )
                        &&& r.issues@.len() == input.issues@.len() + 1
                        &&& r.issues@.drop_last() == input.issues@
                        &&& issue_is(
                            r.issues@.last(),
                            line_number as int,
                            None,
                            field_count_msg(
                                num_fields as nat,
                                fields.len(),
                                fields.len() > num_fields,
                            ),
                            true,
                        )
                    }
                },
            }
        }),
{
    let q = match quote_char {
        Some(c) => c,
        None => '"',
    };
    let line_chars = str_chars(input.line.as_str());
    let sep_chars = str_chars(separator.as_str());
    match tokenize_chars(&line_chars, &sep_chars, q) {
        None => {
            let issue = ValidationIssue {
                line_number,
                position: None,
                message: chars_string(&str_chars("Error parsing fields")),
                fixed: false,
            };
            let r = input.add_issue(issue);
            proof {
                assert(r.issues@.drop_last() =~= input.issues@);
            }
            r
        },
        Some(fields) => {
            let got = fields.len();
            if got > num_fields {
                let fixed = join_upto(&fields, num_fields, &sep_chars);
                let message = field_count_message(num_fields, got, true);
                let issue = ValidationIssue { line_number, position: None, message, fixed: true };
                let ValidationResult { line: _, issues } = input;
                let mut issues = issues;
                issues.push(issue);
                proof {
                    assert(issues@.drop_last() =~= input.issues@);
                }
                ValidationResult { line: chars_string(&fixed), issues }
            } else if got < num_fields {
                let mut padded = line_chars;
                let mut k: usize = 0;
                let missing = num_fields - got;
                while k < missing
                    invariant
                        k <= missing,
                        padded@ == input.line@ + pad_fields(sep_chars@, k as int),
                    decreases missing - k,
                {
                    push_chars(&mut padded, &sep_chars);
                    padded.push(' ');
                    assert(padded@ =~= input.line@ + (pad_fields(sep_chars@, k as int) + sep_chars@
                        + seq![' ']));
                    k += 1;
                }
                let message = field_count_message(num_fields, got, false);
                let issue = ValidationIssue { line_number, position: None, message, fixed: true };
                let ValidationResult { line: _, issues } = input;
                let mut issues = issues;
                issues.push(issue);
                proof {
                    assert(issues@.drop_last() =~= input.issues@);
                }
                ValidationResult { line: chars_string(&padded), issues }
            } else {
                input
            }
        },
    }
}

/// Checks that the expected separator occurs in the row; a missing separator
/// becomes a diagnostic, and the row is never changed.
pub fn validate_line_separator(input: ValidationResult, expected_sep: char, line_number: usize) -> (r:
    ValidationResult)
    ensures
        ({
            if input.line@.contains(expected_sep) {
                r.line@ == input.line@ && r.issues@ == input.issues@
            } else {
                &&& r.line@ == input.line@
                &&& r.issues@.len() == input.issues@.len() + 1
                &&& r.issues@.drop_last() == input.issues@
                &&& issue_is(
                    r.issues@.last(),
                    line_number as int,
                    None,
                    separator_msg(expected_sep),
                    false,
                )
            }
        }),
{
    let chars = str_chars(input.line.as_str());
    if contains_char(&chars, expected_sep) {
        input
    } else {
        let mut m = str_chars("Expected separator '");
        m.push(expected_sep);
        push_chars(&mut m, &str_chars("' not found."));
        assert(m@ =~= "Expected separator '"@ + seq![expected_sep] + "' not found."@);
        let issue = ValidationIssue {
            line_number,
            position: None,
            message: chars_string(&m),
            fixed: false,
        };
        let r = input.add_issue(issue);
        proof {
            assert(r.issues@.drop_last() =~= input.issues@);
        }
        r
    }
}

} // verus!
