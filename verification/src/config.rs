//! Run configuration: the settings shared by all validators, the tagged
//! specification of each validator, and the parser for command-line
//! pattern-replacement arguments.  All of it is built once at startup and
//! read-only for the rest of the run.

use vstd::prelude::*;

use crate::text::{find_from, lemma_find_from, lemma_occurs_single, str_chars, sub_vec,
    chars_string};

verus! {

/// Settings shared by every validator of a run.
#[derive(Debug, Clone)]
pub struct CommonConfig {
    /// The quote character fields may be wrapped in.
    pub quote_char: char,
    /// The field separator; `None` falls back to a comma.
    pub separator: Option<String>,
    /// Whether the first row is a header.
    pub has_header: bool,
}

/// One validator of the run, with its parameters; a closed set, matched
/// exhaustively wherever a pipeline is built.
#[derive(Debug)]
pub enum ValidatorSpec {
    /// Scan for forbidden patterns and optionally replace them.
    IllegalChars {
        /// The forbidden patterns.
        illegal_chars: Vec<String>,
        /// The replacement for each pattern, by index; a missing entry
        /// deletes the pattern.
        replace_with: Vec<String>,
        /// Whether occurrences are repaired in the row text.
        fix: bool,
        /// A disabled validator is left out of the pipeline entirely.
        enabled: bool,
        /// The shared settings this validator runs with.
        common: CommonConfig,
    },
    /// Bounds on the number of rows; accepted in configuration but not yet
    /// runnable, so building a pipeline from an enabled one fails.
    LineCount {
        /// Fewest rows allowed.
        min: Option<usize>,
        /// Most rows allowed.
        max: Option<usize>,
        /// A disabled validator is left out of the pipeline entirely.
        enabled: bool,
        /// The shared settings this validator runs with.
        common: CommonConfig,
    },
    /// Check that each row splits into an expected number of fields.
    FieldCount {
        /// The number of fields every row must have.
        expected: usize,
        /// A disabled validator is left out of the pipeline entirely.
        enabled: bool,
        /// The shared settings this validator runs with.
        common: CommonConfig,
    },
}

/// A whole run's validator configuration.
#[derive(Debug)]
pub struct ValidatorConfig {
    /// Settings shared by the validators.
    pub common: CommonConfig,
    /// The validators, in pipeline order.
    pub validators: Vec<ValidatorSpec>,
}

/// One forbidden pattern and what replaces it; no replacement means the
/// pattern is deleted.
#[derive(Debug, Clone)]
pub struct Replacement {
    /// The forbidden pattern.
    pub pattern: String,
    /// What every occurrence is replaced with.
    pub replace_with: Option<String>,
}

/// Parses a `pattern=replacement` argument: the text before the first `=` is
/// the pattern, the text after it the replacement; without `=` the whole
/// argument is the pattern and there is no replacement.  An empty pattern is
/// rejected.
pub fn parse_char_replacement(s: &str) -> (r: Result<Replacement, String>)
    ensures
        match r {
            Ok(rep) => {
                &&& s@.len() > 0 && s@[0] != '='
                &&& match find_from(s@, seq!['='], 0) {
                    None => rep.pattern@ == s@ && rep.replace_with is None,
                    Some(i) => rep.pattern@ == s@.take(i) && (match rep.replace_with {
                        Some(w) => w@ == s@.skip(i + 1),
                        None => false,
                    }),
                }
            },
            Err(e) => (s@.len() == 0 || s@[0] == '=') && e@ == "Pattern must not be empty"@,
        },
{
    let chars = str_chars(s);
    let eq: Vec<char> = vec!['='];
    assert(eq@ =~= seq!['=']);
    proof {
        lemma_find_from(s@, seq!['='], 0);
    }
    match crate::text::find_sub(&chars, &eq, 0) {
        None => {
            proof {
                if s@.len() > 0 && s@[0] == '=' {
                    lemma_occurs_single(s@, '=', 0);
                }
            }
            if chars.len() == 0 {
                Err(chars_string(&str_chars("Pattern must not be empty")))
            } else {
                assert(chars@.subrange(0, s@.len() as int) =~= s@);
                Ok(Replacement { pattern: chars_string(&chars), replace_with: None })
            }
        },
        Some(i) => {
            proof {
                lemma_occurs_single(s@, '=', i as int);
                if i > 0 && s@[0] == '=' {
                    lemma_occurs_single(s@, '=', 0);
                }
            }
            if i == 0 {
                Err(chars_string(&str_chars("Pattern must not be empty")))
            } else {
                let n = chars.len();
                let pat = sub_vec(&chars, 0, i);
                let rep = sub_vec(&chars, i + 1, n);
                assert(pat@ =~= s@.take(i as int));
                assert(rep@ =~= s@.skip(i + 1));
                Ok(Replacement {
                    pattern: chars_string(&pat),
                    replace_with: Some(chars_string(&rep)),
                })
            }
        },
    }
}

} // verus!
