//! Separator inference: guesses the field delimiter of a sample, either as a
//! single character (by occurrence counts) or as a token of one to four
//! characters (by stable per-line occurrence counts).

use vstd::prelude::*;

use crate::text::{
    chars_string, count_hits, count_nonoverlap, count_occurrences, match_at, split_lines,
    split_lines_spec, str_chars, sub_vec,
};

verus! {

/// How often `c` occurs in `s`.
pub open spec fn char_count(s: Seq<char>, c: char) -> nat
    decreases s.len(),
{
    if s.len() == 0 {
        0
    } else {
        char_count(s.drop_last(), c) + (if s.last() == c {
            1nat
        } else {
            0nat
        })
    }
}

/// The single-character separator inferred from a sample: the most frequent
/// of comma, semicolon and tab, the comma winning ties and empty samples.
pub open spec fn infer_separator_spec(s: Seq<char>) -> char {
    let commas = char_count(s, ',');
    let semis = char_count(s, ';');
    let tabs = char_count(s, '\t');
    let best = if semis > commas {
        semis
    } else {
        commas
    };
    if tabs > best {
        '\t'
    } else if semis > commas {
        ';'
    } else {
        ','
    }
}

fn count_char_in(s: &Vec<char>, c: char) -> (n: usize)
    ensures
        n as nat == char_count(s@, c),
{
    let mut n: usize = 0;
    let mut i: usize = 0;
    assert(s@.take(0) =~= Seq::<char>::empty());
    while i < s.len()
        invariant
            i <= s@.len(),
            n <= i,
            n as nat == char_count(s@.take(i as int), c),
        decreases s@.len() - i,
    {
        proof {
            assert(s@.take(i + 1).drop_last() =~= s@.take(i as int));
            assert(s@.take(i + 1).last() == s@[i as int]);
        }
        if s[i] == c {
            n += 1;
        }
        i += 1;
    }
    assert(s@.take(s@.len() as int) =~= s@);
    n
}

/// Infers the field separator of a sample by occurrence counts over the
/// candidates comma, semicolon and tab; the comma wins ties and empty
/// samples.
pub fn infer_separator(csv: &str) -> (sep: char)
    ensures
        sep == infer_separator_spec(csv@),
{
    let chars = str_chars(csv);
    let commas = count_char_in(&chars, ',');
    let semis = count_char_in(&chars, ';');
    let tabs = count_char_in(&chars, '\t');
    let best = if semis > commas {
        semis
    } else {
        commas
    };
    if tabs > best {
        '\t'
    } else if semis > commas {
        ';'
    } else {
        ','
    }
}

/// Overlapping occurrences of `pat`, totalled across all lines.
pub open spec fn total_hits(lines: Seq<Seq<char>>, pat: Seq<char>) -> nat
    decreases lines.len(),
{
    if lines.len() == 0 {
        0
    } else {
        total_hits(lines.drop_last(), pat) + count_hits(lines.last(), pat, 0)
    }
}

/// A true delimiter recurs with a stable per-line count: the same positive
/// number of non-overlapping occurrences on every line.
pub open spec fn stable_candidate(lines: Seq<Seq<char>>, pat: Seq<char>) -> bool {
    &&& lines.len() > 0
    &&& count_nonoverlap(lines[0], pat) > 0
    &&& forall|i: int|
        0 <= i < lines.len() ==> count_nonoverlap(#[trigger] lines[i], pat) == count_nonoverlap(
            lines[0],
            pat,
        )
}

/// A candidate is accepted when it recurs at all (two or more occurrences
/// anywhere) and its per-line count is stable.
pub open spec fn accept(lines: Seq<Seq<char>>, pat: Seq<char>) -> bool {
    total_hits(lines, pat) >= 2 && stable_candidate(lines, pat)
}

/// The first accepted window of width `w`, scanning lines in order and
/// offsets left to right, starting at line `li`, offset `pos`.
pub open spec fn search_w(lines: Seq<Seq<char>>, w: int, li: int, pos: int) -> Option<Seq<char>>
    decreases lines.len() - li, (if li < lines.len() {
        lines[li].len() + 1 - pos
    } else {
        0
    }),
    when 0 <= li <= lines.len() && 0 <= pos && w >= 1
{
    if li == lines.len() {
        None
    } else if pos + w > lines[li].len() {
        search_w(lines, w, li + 1, 0)
    } else {
        let cand = lines[li].subrange(pos, pos + w);
        if accept(lines, cand) {
            Some(cand)
        } else {
            search_w(lines, w, li, pos + 1)
        }
    }
}

/// The first accepted candidate, widest window first.
pub open spec fn multi_sep_search(lines: Seq<Seq<char>>, w: int) -> Option<Seq<char>>
    decreases w,
    when w >= 0
{
    if w <= 0 {
        None
    } else {
        match search_w(lines, w, 0, 0) {
            Some(c) => Some(c),
            None => multi_sep_search(lines, w - 1),
        }
    }
}

/// The multi-character separator inferred from a sample: the first window of
/// one to four characters, widest first, that recurs with a stable per-line
/// count; `None` for samples of fewer than two lines or without such a
/// window.
pub open spec fn infer_multi_sep_spec(sample: Seq<char>) -> Option<Seq<char>> {
    let lines = split_lines_spec(sample);
    if lines.len() < 2 {
        None
    } else {
        multi_sep_search(lines, 4)
    }
}

fn count_hits_line(hay: &Vec<char>, pat: &Vec<char>) -> (n: usize)
    requires
        pat@.len() > 0,
    ensures
        n as nat == count_hits(hay@, pat@, 0),
{
    let mut n: usize = 0;
    let mut k: usize = 0;
    let hay_len = hay.len();
    loop
        invariant
            hay_len == hay@.len(),
            pat@.len() > 0,
            0 <= k <= hay@.len(),
            n <= k,
            count_hits(hay@, pat@, 0) == n + count_hits(hay@, pat@, k as int),
        ensures
            count_hits(hay@, pat@, 0) == n,
        decreases hay@.len() - k,
    {
        if pat.len() > hay_len - k {
            assert(count_hits(hay@, pat@, k as int) == 0);
            break;
        }
        if match_at(hay, pat, k) {
            n += 1;
        }
        k += 1;
    }
    n
}

/// Caps the total hit count at two: all the acceptance test needs.
fn has_two_hits(lines: &Vec<Vec<char>>, pat: &Vec<char>) -> (b: bool)
    requires
        pat@.len() > 0,
    ensures
        b == (total_hits(lines.deep_view(), pat@) >= 2),
{
    let ghost dv = lines.deep_view();
    let mut n: usize = 0;
    let mut i: usize = 0;
    assert(dv.take(0) =~= Seq::<Seq<char>>::empty());
    while i < lines.len()
        invariant
            dv == lines.deep_view(),
            pat@.len() > 0,
            i <= lines@.len(),
            dv.len() == lines@.len(),
            n <= 2,
            if total_hits(dv.take(i as int), pat@) >= 2 {
                n == 2
            } else {
                n as nat == total_hits(dv.take(i as int), pat@)
            },
        decreases lines@.len() - i,
    {
        let c = count_hits_line(&lines[i], pat);
        proof {
            assert(dv.take(i + 1).drop_last() =~= dv.take(i as int));
            assert(dv.take(i + 1).last() == dv[i as int]);
            assert(dv[i as int] == lines@[i as int]@);
        }
        if c >= 2 {
            n = 2;
        } else {
            let s = n + c;
            if s >= 2 {
                n = 2;
            } else {
                n = s;
            }
        }
        i += 1;
    }
    assert(dv.take(dv.len() as int) =~= dv);
    n >= 2
}

fn is_stable(lines: &Vec<Vec<char>>, pat: &Vec<char>) -> (b: bool)
    requires
        pat@.len() > 0,
        lines@.len() > 0,
    ensures
        b == stable_candidate(lines.deep_view(), pat@),
{
    let ghost dv = lines.deep_view();
    let c0 = count_occurrences(&lines[0], pat);
    assert(dv[0] == lines@[0]@);
    if c0 == 0 {
        return false;
    }
    let mut i: usize = 1;
    while i < lines.len()
        invariant
            dv == lines.deep_view(),
            dv.len() == lines@.len(),
            pat@.len() > 0,
            lines@.len() > 0,
            1 <= i <= lines@.len(),
            c0 as nat == count_nonoverlap(dv[0], pat@),
            c0 > 0,
            forall|k: int|
                0 <= k < i ==> count_nonoverlap(#[trigger] dv[k], pat@) == count_nonoverlap(
                    dv[0],
                    pat@,
                ),
        decreases lines@.len() - i,
    {
        let c = count_occurrences(&lines[i], pat);
        assert(dv[i as int] == lines@[i as int]@);
        if c != c0 {
            return false;
        }
        i += 1;
    }
    true
}

fn accept_candidate(lines: &Vec<Vec<char>>, pat: &Vec<char>) -> (b: bool)
    requires
        pat@.len() > 0,
        lines@.len() > 0,
    ensures
        b == accept(lines.deep_view(), pat@),
{
    if has_two_hits(lines, pat) {
        is_stable(lines, pat)
    } else {
        false
    }
}

fn search_window(lines: &Vec<Vec<char>>, w: usize) -> (r: Option<Vec<char>>)
    requires
        w >= 1,
        lines@.len() > 0,
    ensures
        match r {
            Some(c) => search_w(lines.deep_view(), w as int, 0, 0) == Some(c@) && c@.len() == w,
            None => search_w(lines.deep_view(), w as int, 0, 0) is None,
        },
{
    let ghost dv = lines.deep_view();
    let mut li: usize = 0;
    let mut pos: usize = 0;
    loop
        invariant
            dv == lines.deep_view(),
            dv.len() == lines@.len(),
            w >= 1,
            li <= lines@.len(),
            li < lines@.len() ==> pos <= lines@[li as int]@.len(),
            search_w(dv, w as int, 0, 0) == search_w(dv, w as int, li as int, pos as int),
        decreases lines@.len() - li, (if li < lines@.len() {
            lines@[li as int]@.len() + 1 - pos
        } else {
            0int
        }),
    {
        if li == lines.len() {
            return None;
        }
        let line_len = lines[li].len();
        assert(dv[li as int] == lines@[li as int]@);
        if line_len < w || pos > line_len - w {
            assert(pos + w > dv[li as int].len());
            li += 1;
            pos = 0;
        } else {
            let cand = sub_vec(&lines[li], pos, pos + w);
            assert(cand@ == dv[li as int].subrange(pos as int, pos + w));
            if accept_candidate(lines, &cand) {
                return Some(cand);
            }
            pos += 1;
        }
    }
}

/// Infers a separator of one to four characters from a sample: among the
/// windows that occur more than once anywhere, the widest one whose per-line
/// occurrence count is equal and positive across every line of the sample;
/// `None` where the sample has fewer than two lines or no window qualifies.
pub fn infer_multi_char_separator(sample: &str) -> (r: Option<String>)
    ensures
        match r {
            Some(s) => infer_multi_sep_spec(sample@) == Some(s@),
            None => infer_multi_sep_spec(sample@) is None,
        },
{
    let chars = str_chars(sample);
    let lines = split_lines(&chars);
    let ghost dv = lines.deep_view();
    if lines.len() < 2 {
        return None;
    }
    let mut w: usize = 4;
    loop
        invariant
            dv == lines.deep_view(),
            dv == split_lines_spec(sample@),
            dv.len() >= 2,
            lines@.len() == dv.len(),
            w <= 4,
            multi_sep_search(dv, 4) == multi_sep_search(dv, w as int),
        decreases w,
    {
        if w == 0 {
            return None;
        }
        match search_window(&lines, w) {
            Some(c) => {
                return Some(chars_string(&c));
            },
            None => {
                w -= 1;
            },
        }
    }
}

} // verus!
