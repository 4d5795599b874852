//! The field tokenizer: splits one row into fields given a delimiter (one or
//! more characters) and a quote character.
//!
//! A field beginning with the quote character runs to the next unescaped
//! quote, two consecutive quote characters standing for one literal quote; a
//! field that does not begin with the quote character runs to the next
//! occurrence of the delimiter or the end of the row.  After each field the
//! delimiter is consumed if present; otherwise tokenization ends.  An
//! unterminated quote is a tokenization error.

use vstd::prelude::*;

use crate::text::{
    find_from, find_sub, lemma_find_from, match_at, occurs_at, push_chars, str_chars, sub_vec,
    chars_string,
};

verus! {

/// Why a row could not be tokenized.
#[derive(Debug, Clone, Copy, PartialEq, Eq, Structural)]
pub enum TokenizeError {
    /// A field began with the quote character and no unescaped closing quote
    /// followed.
    UnterminatedQuote,
}

/// Content and end position of the quoted field whose opening quote stands
/// just before `pos`; `None` when no unescaped closing quote follows.
pub open spec fn parse_quoted_from(s: Seq<char>, pos: int, quote: char) -> Option<(Seq<char>, int)>
    decreases s.len() - pos,
    when 0 <= pos <= s.len()
    via parse_quoted_from_decreases
{
    match find_from(s, seq![quote], pos) {
        None => None,
        Some(i) => {
            let part = s.subrange(pos, i);
            if i + 1 < s.len() && s[i + 1] == quote {
                match parse_quoted_from(s, i + 2, quote) {
                    None => None,
                    Some(fe) => Some((part + seq![quote] + fe.0, fe.1)),
                }
            } else {
                Some((part, i + 1))
            }
        },
    }
}

#[via_fn]
proof fn parse_quoted_from_decreases(s: Seq<char>, pos: int, quote: char) {
    lemma_find_from(s, seq![quote], pos);
}

/// The end position a successful quoted parse reports stays within the row.
pub proof fn lemma_parse_quoted_bounds(s: Seq<char>, pos: int, quote: char)
    requires
        0 <= pos <= s.len(),
    ensures
        match parse_quoted_from(s, pos, quote) {
            Some(fe) => pos <= fe.1 <= s.len(),
            None => true,
        },
    decreases s.len() - pos,
{
    lemma_find_from(s, seq![quote], pos);
    match find_from(s, seq![quote], pos) {
        None => {},
        Some(i) => {
            if i + 1 < s.len() && s[i + 1] == quote {
                lemma_parse_quoted_bounds(s, i + 2, quote);
            }
        },
    }
}

/// Content and end position of the unquoted field starting at `pos`: it runs
/// to the next occurrence of `sep` or to the end of the row.
pub open spec fn parse_unquoted_from(s: Seq<char>, pos: int, sep: Seq<char>) -> (Seq<char>, int) {
    match find_from(s, sep, pos) {
        None => (s.subrange(pos, s.len() as int), s.len() as int),
        Some(i) => (s.subrange(pos, i), i),
    }
}

/// Content and end position of the field starting at `pos`, quoted or not.
pub open spec fn parse_field_from(s: Seq<char>, pos: int, sep: Seq<char>, quote: char) -> Option<
    (Seq<char>, int),
> {
    if pos < s.len() && s[pos] == quote {
        parse_quoted_from(s, pos + 1, quote)
    } else {
        Some(parse_unquoted_from(s, pos, sep))
    }
}

/// The end position a successful field parse reports stays within the row.
pub proof fn lemma_parse_field_bounds(s: Seq<char>, pos: int, sep: Seq<char>, quote: char)
    requires
        0 <= pos <= s.len(),
    ensures
        match parse_field_from(s, pos, sep, quote) {
            Some(fe) => pos <= fe.1 <= s.len(),
            None => true,
        },
{
    if pos < s.len() && s[pos] == quote {
        lemma_parse_quoted_bounds(s, pos + 1, quote);
    } else {
        lemma_find_from(s, sep, pos);
    }
}

/// The fields of the part of the row from `pos` on: one field, then, where
/// the delimiter follows, the fields after it.  `None` is a tokenization
/// error.
pub open spec fn tokenize_from(s: Seq<char>, pos: int, sep: Seq<char>, quote: char) -> Option<
    Seq<Seq<char>>,
>
    decreases s.len() - pos,
    when 0 <= pos <= s.len() && sep.len() > 0
    via tokenize_from_decreases
{
    if pos == s.len() {
        Some(seq![])
    } else {
        match parse_field_from(s, pos, sep, quote) {
            None => None,
            Some(fe) => {
                if occurs_at(s, sep, fe.1) {
                    match tokenize_from(s, fe.1 + sep.len(), sep, quote) {
                        None => None,
                        Some(fs) => Some(seq![fe.0] + fs),
                    }
                } else {
                    Some(seq![fe.0])
                }
            },
        }
    }
}

#[via_fn]
proof fn tokenize_from_decreases(s: Seq<char>, pos: int, sep: Seq<char>, quote: char) {
    lemma_parse_field_bounds(s, pos, sep, quote);
}

/// The fields of the whole row, or `None` on a tokenization error.
pub open spec fn tokenize_spec(s: Seq<char>, sep: Seq<char>, quote: char) -> Option<Seq<Seq<char>>> {
    tokenize_from(s, 0, sep, quote)
}

/// The fields joined by the delimiter: the row they form together.
pub open spec fn join_with(fields: Seq<Seq<char>>, sep: Seq<char>) -> Seq<char>
    decreases fields.len(),
{
    if fields.len() == 0 {
        Seq::empty()
    } else if fields.len() == 1 {
        fields[0]
    } else {
        fields[0] + sep + join_with(fields.drop_first(), sep)
    }
}

/// Joining one more field appends one delimiter and that field.
pub proof fn lemma_join_push(a: Seq<Seq<char>>, f: Seq<char>, sep: Seq<char>)
    ensures
        join_with(a.push(f), sep) == if a.len() == 0 {
            f
        } else {
            join_with(a, sep) + sep + f
        },
    decreases a.len(),
{
    if a.len() == 0 {
        assert(a.push(f) =~= seq![f]);
        assert(join_with(seq![f], sep) == f);
    } else if a.len() == 1 {
        assert(a.push(f).drop_first() =~= seq![f]);
        assert(a.push(f)[0] == a[0]);
        assert(join_with(seq![f], sep) == f);
        assert(join_with(a.push(f), sep) == a[0] + sep + f);
    } else {
        assert(a.push(f).drop_first() =~= a.drop_first().push(f));
        lemma_join_push(a.drop_first(), f, sep);
        assert(a.push(f)[0] == a[0]);
        assert(a[0] + sep + (join_with(a.drop_first(), sep) + sep + f) =~= (a[0] + sep
            + join_with(a.drop_first(), sep)) + sep + f);
    }
}

proof fn lemma_round_trip_from(
    s: Seq<char>,
    pos: int,
    fields: Seq<Seq<char>>,
    sep: Seq<char>,
    quote: char,
)
    requires
        sep.len() >= 1,
        sep[0] != quote,
        0 <= pos <= s.len(),
        s.subrange(pos, s.len() as int) == join_with(fields, sep),
        forall|k: int, j: int|
            #![trigger occurs_at(fields[k] + sep, sep, j)]
            0 <= k < fields.len() && 0 <= j < fields[k].len() ==> !occurs_at(
                fields[k] + sep,
                sep,
                j,
            ),
        forall|k: int|
            0 <= k < fields.len() && fields[k].len() > 0 ==> (#[trigger] fields[k])[0] != quote,
        fields.len() > 0 ==> fields.last().len() > 0,
    ensures
        tokenize_from(s, pos, sep, quote) == Some(fields),
    decreases fields.len(),
{
    let join = join_with(fields, sep);
    let rest = s.subrange(pos, s.len() as int);
    let ghost sl = sep.len() as int;
    assert(s.len() - pos == join.len());
    assert(forall|k: int| 0 <= k < join.len() ==> s[pos + k] == #[trigger] rest[k]);
    if fields.len() == 0 {
        assert(pos == s.len());
        assert(fields =~= Seq::<Seq<char>>::empty());
    } else if fields.len() == 1 {
        let f0 = fields[0];
        assert(f0.len() > 0);
        assert(join == f0);
        assert(s[pos] == f0[0]);
        assert(s[pos] != quote) by {
            assert(fields[0].len() > 0 && fields[0][0] != quote);
        }
        // no occurrence of the delimiter inside the final field
        assert(forall|j: int| pos <= j < s.len() ==> s[j] == f0[j - pos]);
        assert(forall|j: int| pos <= j ==> !occurs_at(s, sep, j)) by {
            assert forall|j: int| pos <= j implies !occurs_at(s, sep, j) by {
                if occurs_at(s, sep, j) {
                    let o = j - pos;
                    assert(o + sl <= f0.len());
                    assert((f0 + sep).subrange(o, o + sl) =~= sep) by {
                        assert forall|t: int|
                            0 <= t < sl implies (f0 + sep).subrange(o, o + sl)[t] == sep[t] by {
                            assert((f0 + sep).subrange(o, o + sl)[t] == (f0 + sep)[o + t]);
                            assert((f0 + sep)[o + t] == f0[o + t]);
                            assert(f0[o + t] == s[j + t]);
                            assert(s.subrange(j, j + sl)[t] == s[j + t]);
                        }
                    }
                    assert(occurs_at(f0 + sep, sep, o));
                }
            }
        }
        lemma_find_from(s, sep, pos);
        assert(find_from(s, sep, pos) is None) by {
            if find_from(s, sep, pos) is Some {
                lemma_find_from(s, sep, pos);
            }
        }
        assert(parse_unquoted_from(s, pos, sep) == (rest, s.len() as int));
        assert(!occurs_at(s, sep, s.len() as int));
        assert(tokenize_from(s, pos, sep, quote) == Some(seq![rest]));
        assert(seq![rest] =~= fields);
    } else {
        let f0 = fields[0];
        let tail = fields.drop_first();
        let jt = join_with(tail, sep);
        assert(join == f0 + sep + jt);
        let m = f0.len() as int;
        assert(forall|k: int| 0 <= k < m ==> #[trigger] join[k] == f0[k]);
        assert(pos < s.len());
        // the field is read unquoted: its first character is not the quote
        assert(s[pos] == rest[0]);
        assert(rest[0] == join[0]);
        if f0.len() > 0 {
            assert(join[0] == (f0 + sep)[0]);
            assert((f0 + sep)[0] == f0[0]);
            assert(fields[0].len() > 0 && fields[0][0] != quote);
        } else {
            assert(join[0] == (f0 + sep)[0]);
            assert((f0 + sep)[0] == sep[0]);
        }
        assert(s[pos] != quote);
        // the first delimiter occurrence after `pos` is right after the field
        assert(occurs_at(s, sep, pos + m)) by {
            assert(pos + m + sl <= s.len());
            assert forall|t: int|
                0 <= t < sl implies s.subrange(pos + m, pos + m + sl)[t] == sep[t] by {
                assert(s.subrange(pos + m, pos + m + sl)[t] == s[pos + m + t]);
                assert(s[pos + m + t] == rest[m + t]);
                assert(rest[m + t] == join[m + t]);
                assert(join[m + t] == (f0 + sep)[m + t]);
                assert((f0 + sep)[m + t] == sep[t]);
            }
            assert(s.subrange(pos + m, pos + m + sl) =~= sep);
        }
        assert(forall|j: int| pos <= j < pos + m ==> !occurs_at(s, sep, j)) by {
            assert forall|j: int| pos <= j < pos + m implies !occurs_at(s, sep, j) by {
                if occurs_at(s, sep, j) {
                    let o = j - pos;
                    assert(o + sl <= m + sl);
                    assert((f0 + sep).subrange(o, o + sl) =~= sep) by {
                        assert forall|t: int|
                            0 <= t < sl implies (f0 + sep).subrange(o, o + sl)[t] == sep[t] by {
                            assert((f0 + sep).subrange(o, o + sl)[t] == (f0 + sep)[o + t]);
                            assert((f0 + sep)[o + t] == join[o + t]);
                            assert(join[o + t] == rest[o + t]);
                            assert(rest[o + t] == s[j + t]);
                            assert(s.subrange(j, j + sl)[t] == s[j + t]);
                        }
                    }
                    assert(occurs_at(f0 + sep, sep, o));
                }
            }
        }
        lemma_find_from(s, sep, pos);
        assert(find_from(s, sep, pos) == Some(pos + m));
        assert(parse_unquoted_from(s, pos, sep) == (s.subrange(pos, pos + m), pos + m));
        assert(s.subrange(pos, pos + m) =~= f0);
        // past the delimiter, the remainder is the join of the remaining fields
        let pos2 = pos + m + sl;
        assert(s.subrange(pos2, s.len() as int) =~= jt) by {
            assert forall|k: int|
                0 <= k < jt.len() implies s.subrange(pos2, s.len() as int)[k] == jt[k] by {
                assert(s.subrange(pos2, s.len() as int)[k] == s[pos2 + k]);
                assert(s[pos2 + k] == rest[m + sl + k]);
                assert(rest[m + sl + k] == join[m + sl + k]);
                assert(join[m + sl + k] == jt[k]);
            }
        }
        assert(forall|k: int| 0 <= k < tail.len() ==> tail[k] == #[trigger] fields[k + 1]);
        assert(tail.last() == fields.last());
        lemma_round_trip_from(s, pos2, tail, sep, quote);
        assert(tokenize_from(s, pos, sep, quote) == Some(seq![f0] + tail));
        assert(seq![f0] + tail =~= fields);
    }
}

/// Tokenizer round trip: a row built by joining fields with a delimiter
/// whose first character differs from the quote character tokenizes back to
/// exactly those fields, provided the delimiter occurs in each field
/// followed by the delimiter only at their junction, no field begins with
/// the quote character, and the last field is not empty.
pub proof fn lemma_tokenize_round_trip(fields: Seq<Seq<char>>, sep: Seq<char>, quote: char)
    requires
        sep.len() >= 1,
        sep[0] != quote,
        forall|k: int, j: int|
            #![trigger occurs_at(fields[k] + sep, sep, j)]
            0 <= k < fields.len() && 0 <= j < fields[k].len() ==> !occurs_at(
                fields[k] + sep,
                sep,
                j,
            ),
        forall|k: int|
            0 <= k < fields.len() && fields[k].len() > 0 ==> (#[trigger] fields[k])[0] != quote,
        fields.len() > 0 ==> fields.last().len() > 0,
    ensures
        tokenize_spec(join_with(fields, sep), sep, quote) == Some(fields),
{
    let s = join_with(fields, sep);
    assert(s.subrange(0, s.len() as int) =~= s);
    lemma_round_trip_from(s, 0, fields, sep, quote);
}

/// The round trip for a one-character delimiter: a field free of the
/// delimiter character meets the junction condition.
pub proof fn lemma_tokenize_round_trip_single(fields: Seq<Seq<char>>, sep: Seq<char>, quote: char)
    requires
        sep.len() == 1,
        sep[0] != quote,
        forall|k: int| 0 <= k < fields.len() ==> !(#[trigger] fields[k]).contains(sep[0]),
        forall|k: int|
            0 <= k < fields.len() && fields[k].len() > 0 ==> (#[trigger] fields[k])[0] != quote,
        fields.len() > 0 ==> fields.last().len() > 0,
    ensures
        tokenize_spec(join_with(fields, sep), sep, quote) == Some(fields),
{
    assert forall|k: int, j: int|
        #![trigger occurs_at(fields[k] + sep, sep, j)]
        0 <= k < fields.len() && 0 <= j < fields[k].len() implies !occurs_at(
        fields[k] + sep,
        sep,
        j,
    ) by {
        if occurs_at(fields[k] + sep, sep, j) {
            assert((fields[k] + sep).subrange(j, j + 1)[0] == (fields[k] + sep)[j]);
            assert((fields[k] + sep)[j] == sep[0]);
            assert(fields[k][j] == sep[0]);
            assert(fields[k].contains(sep[0]));
        }
    }
    lemma_tokenize_round_trip(fields, sep, quote);
}

fn parse_quoted(s: &Vec<char>, pos: usize, quote: char) -> (r: Option<(Vec<char>, usize)>)
    requires
        pos <= s@.len(),
    ensures
        match r {
            None => parse_quoted_from(s@, pos as int, quote) is None,
            Some(fe) => {
                &&& parse_quoted_from(s@, pos as int, quote) == Some((fe.0@, fe.1 as int))
                &&& pos <= fe.1 <= s@.len()
            },
        },
    decreases s@.len() - pos,
{
    let qv: Vec<char> = vec![quote];
    assert(qv@ =~= seq![quote]);
    match find_sub(s, &qv, pos) {
        None => None,
        Some(i) => {
            proof {
                lemma_find_from(s@, seq![quote], pos as int);
            }
            let part = sub_vec(s, pos, i);
            let n = s.len();
            if i + 1 < n && s[i + 1] == quote {
                match parse_quoted(s, i + 2, quote) {
                    None => None,
                    Some((f2, end)) => {
                        let mut field = part;
                        field.push(quote);
                        push_chars(&mut field, &f2);
                        assert(field@ =~= s@.subrange(pos as int, i as int) + seq![quote] + f2@);
                        Some((field, end))
                    },
                }
            } else {
                Some((part, i + 1))
            }
        },
    }
}

fn parse_unquoted(s: &Vec<char>, pos: usize, sep: &Vec<char>) -> (r: (Vec<char>, usize))
    requires
        pos <= s@.len(),
    ensures
        parse_unquoted_from(s@, pos as int, sep@) == (r.0@, r.1 as int),
        pos <= r.1 <= s@.len(),
{
    match find_sub(s, sep, pos) {
        None => (sub_vec(s, pos, s.len()), s.len()),
        Some(i) => {
            proof {
                lemma_find_from(s@, sep@, pos as int);
            }
            (sub_vec(s, pos, i), i)
        },
    }
}

fn parse_field(s: &Vec<char>, pos: usize, sep: &Vec<char>, quote: char) -> (r: Option<
    (Vec<char>, usize),
>)
    requires
        pos <= s@.len(),
    ensures
        match r {
            None => parse_field_from(s@, pos as int, sep@, quote) is None,
            Some(fe) => {
                &&& parse_field_from(s@, pos as int, sep@, quote) == Some((fe.0@, fe.1 as int))
                &&& pos <= fe.1 <= s@.len()
            },
        },
{
    if pos < s.len() && s[pos] == quote {
        parse_quoted(s, pos + 1, quote)
    } else {
        Some(parse_unquoted(s, pos, sep))
    }
}

/// Prepends `a` to the fields of a tokenization that may have failed.
pub open spec fn opt_prepend(a: Seq<Seq<char>>, r: Option<Seq<Seq<char>>>) -> Option<
    Seq<Seq<char>>,
> {
    match r {
        None => None,
        Some(b) => Some(a + b),
    }
}

pub(crate) fn tokenize_chars(s: &Vec<char>, sep: &Vec<char>, quote: char) -> (r: Option<Vec<Vec<char>>>)
    requires
        sep@.len() > 0,
    ensures
        match r {
            None => tokenize_spec(s@, sep@, quote) is None,
            Some(fs) => tokenize_spec(s@, sep@, quote) == Some(fs.deep_view()),
        },
{
    let mut out: Vec<Vec<char>> = Vec::new();
    let mut pos: usize = 0;
    let s_len = s.len();
    assert(out.deep_view() =~~= Seq::<Seq<char>>::empty());
    loop
        invariant
            sep@.len() > 0,
            pos <= s@.len(),
            s@.len() <= usize::MAX,
            tokenize_spec(s@, sep@, quote) == opt_prepend(
                out.deep_view(),
                tokenize_from(s@, pos as int, sep@, quote),
            ),
        ensures
            tokenize_spec(s@, sep@, quote) == opt_prepend(out.deep_view(), Some(seq![])),
        decreases s@.len() - pos,
    {
        if pos == s.len() {
            break;
        }
        let ghost prev = out.deep_view();
        match parse_field(s, pos, sep, quote) {
            None => {
                return None;
            },
            Some((fv, end)) => {
                let ghost f = fv@;
                if match_at(s, sep, end) {
                    out.push(fv);
                    assert(out.deep_view() =~~= prev + seq![f]);
                    proof {
                        let rest = tokenize_from(s@, end + sep@.len(), sep@, quote);
                        assert(tokenize_from(s@, pos as int, sep@, quote) == opt_prepend(
                            seq![f],
                            rest,
                        ));
                        if rest is Some {
                            assert(prev + (seq![f] + rest->Some_0) =~~= (prev + seq![f])
                                + rest->Some_0);
                        }
                    }
                    pos = end + sep.len();
                } else {
                    out.push(fv);
                    assert(out.deep_view() =~~= prev + seq![f]);
                    assert(tokenize_from(s@, pos as int, sep@, quote) == Some(seq![f]));
                    assert(prev + seq![f] =~~= (prev + seq![f]) + seq![]);
                    return Some(out);
                }
            },
        }
    }
    assert(out.deep_view() + Seq::<Seq<char>>::empty() =~~= out.deep_view());
    Some(out)
}

/// Splits one row into its fields, honouring quoting and escaped quotes, as
/// [`tokenize_spec`] describes; an unterminated quote is reported as an
/// error, never a fault.
pub fn line_processor(line: &str, separator: &str, quote_char: char) -> (r: Result<
    Vec<String>,
    TokenizeError,
>)
    requires
        separator@.len() > 0,
    ensures
        match r {
            Ok(fields) => tokenize_spec(line@, separator@, quote_char) == Some(fields.deep_view()),
            Err(_) => tokenize_spec(line@, separator@, quote_char) is None,
        },
{
    let chars = str_chars(line);
    let sep = str_chars(separator);
    match tokenize_chars(&chars, &sep, quote_char) {
        None => Err(TokenizeError::UnterminatedQuote),
        Some(fields) => {
            let mut out: Vec<String> = Vec::new();
            let mut i: usize = 0;
            while i < fields.len()
                invariant
                    i <= fields@.len(),
                    out.deep_view() =~~= fields.deep_view().take(i as int),
                decreases fields@.len() - i,
            {
                let ghost prev = out.deep_view();
                let si = chars_string(&fields[i]);
                out.push(si);
                assert(out.deep_view() =~~= prev.push(fields.deep_view()[i as int]));
                assert(prev.push(fields.deep_view()[i as int]) =~~= fields.deep_view().take(
                    i + 1,
                ));
                i += 1;
            }
            assert(fields.deep_view().take(fields@.len() as int) =~~= fields.deep_view());
            Ok(out)
        },
    }
}

} // verus!
