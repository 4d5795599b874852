//! Per-row validation state: the current text of a row and the diagnostics
//! recorded for it so far.  Diagnostics are only ever appended, never changed
//! or removed.

use vstd::prelude::*;

verus! {

/// One validation finding for one row.
#[derive(Debug, Clone, PartialEq)]
pub struct ValidationIssue {
    /// 1-based line number the finding belongs to, used in messages only.
    pub line_number: usize,
    /// Offset within the row, where one applies.
    pub position: Option<usize>,
    /// Human-readable description of the finding.
    pub message: String,
    /// Whether the finding was repaired in the row's current text.
    pub fixed: bool,
}

/// A row's current text together with the diagnostics recorded so far.
#[derive(Debug, Clone)]
pub struct ValidationResult {
    /// The row's current (possibly repaired) text.
    pub line: String,
    /// The diagnostics recorded for the row, in the order they were found.
    pub issues: Vec<ValidationIssue>,
}

/// The issue carries exactly the given line number, position, message and
/// repair mark.
pub open spec fn issue_is(
    iss: ValidationIssue,
    line_number: int,
    position: Option<int>,
    message: Seq<char>,
    fixed: bool,
) -> bool {
    &&& iss.line_number as int == line_number
    &&& (match (iss.position, position) {
        (Some(p), Some(q)) => p as int == q,
        (None, None) => true,
        _ => false,
    })
    &&& iss.message@ == message
    &&& iss.fixed == fixed
}

impl ValidationResult {
    /// A fresh row state with no diagnostics.
    pub fn new(line: String) -> (r: ValidationResult)
        ensures
            r.line@ == line@,
            r.issues@ == Seq::<ValidationIssue>::empty(),
    {
        ValidationResult { line, issues: Vec::new() }
    }

    /// Appends one diagnostic, leaving the text and the earlier diagnostics
    /// as they were.
    pub fn add_issue(self, issue: ValidationIssue) -> (r: ValidationResult)
        ensures
            r.line@ == self.line@,
            r.issues@ == self.issues@.push(issue),
    {
        let ValidationResult { line, mut issues } = self;
        issues.push(issue);
        ValidationResult { line, issues }
    }
}

} // verus!
