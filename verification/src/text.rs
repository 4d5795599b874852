//! Character-sequence primitives shared by the tokenizer, the separator
//! inference and the validators: substring search, occurrence counting and
//! replacement, all specified over `Seq<char>`.

use vstd::prelude::*;

verus! {

/// `pat` occurs in `hay` starting at position `i`.
pub open spec fn occurs_at<T>(hay: Seq<T>, pat: Seq<T>, i: int) -> bool {
    0 <= i && i + pat.len() <= hay.len() && hay.subrange(i, i + pat.len() as int) == pat
}

/// `pat` occurs somewhere in `hay`.
pub open spec fn contains_seq<T>(hay: Seq<T>, pat: Seq<T>) -> bool {
    exists|i: int| occurs_at(hay, pat, i)
}

/// Position of the first occurrence of `pat` in `hay` at or after `from`.
/// An empty pattern occurs everywhere, so it is found immediately.
pub open spec fn find_from<T>(hay: Seq<T>, pat: Seq<T>, from: int) -> Option<int>
    decreases hay.len() - from,
    when 0 <= from <= hay.len()
{
    if pat.len() == 0 {
        Some(from)
    } else if from + pat.len() > hay.len() {
        None
    } else if hay.subrange(from, from + pat.len() as int) == pat {
        Some(from)
    } else {
        find_from(hay, pat, from + 1)
    }
}

/// What `find_from` returns is the first occurrence at or after `from`.
pub proof fn lemma_find_from<T>(hay: Seq<T>, pat: Seq<T>, from: int)
    requires
        0 <= from <= hay.len(),
    ensures
        match find_from(hay, pat, from) {
            Some(i) => from <= i && occurs_at(hay, pat, i) && (forall|j: int|
                from <= j < i ==> !occurs_at(hay, pat, j)),
            None => forall|j: int| from <= j ==> !occurs_at(hay, pat, j),
        },
    decreases hay.len() - from,
{
    if pat.len() == 0 {
        assert(hay.subrange(from, from) =~= pat);
    } else if from + pat.len() > hay.len() {
    } else if hay.subrange(from, from + pat.len() as int) == pat {
    } else {
        lemma_find_from(hay, pat, from + 1);
    }
}

/// A one-element pattern occurs exactly where that element stands.
pub proof fn lemma_occurs_single<T>(s: Seq<T>, c: T, i: int)
    ensures
        occurs_at(s, seq![c], i) <==> (0 <= i < s.len() && s[i] == c),
{
    if 0 <= i < s.len() && s[i] == c {
        assert(s.subrange(i, i + 1) =~= seq![c]);
    }
    if occurs_at(s, seq![c], i) {
        assert(s.subrange(i, i + 1)[0] == s[i]);
    }
}

/// Whether `pat` occurs in `hay` at position `i`.
pub fn match_at(hay: &Vec<char>, pat: &Vec<char>, i: usize) -> (b: bool)
    requires
        i <= hay@.len(),
    ensures
        b == occurs_at(hay@, pat@, i as int),
{
    if pat.len() > hay.len() - i {
        return false;
    }
    let mut j: usize = 0;
    while j < pat.len()
        invariant
            hay@.len() <= usize::MAX,
            i + pat@.len() <= hay@.len(),
            j <= pat@.len(),
            forall|k: int| 0 <= k < j ==> hay@[i + k] == pat@[k],
        decreases pat@.len() - j,
    {
        if hay[i + j] != pat[j] {
            assert(hay@.subrange(i as int, i + pat@.len() as int)[j as int] != pat@[j as int]);
            return false;
        }
        j += 1;
    }
    assert(hay@.subrange(i as int, i + pat@.len() as int) =~= pat@);
    true
}

/// First occurrence of `pat` in `hay` at or after `from`.
pub fn find_sub(hay: &Vec<char>, pat: &Vec<char>, from: usize) -> (r: Option<usize>)
    requires
        from <= hay@.len(),
    ensures
        match r {
            Some(i) => {
                &&& find_from(hay@, pat@, from as int) == Some(i as int)
                &&& from <= i
                &&& i + pat@.len() <= hay@.len()
            },
            None => find_from(hay@, pat@, from as int) is None,
        },
{
    if pat.len() == 0 {
        assert(hay@.subrange(from as int, from as int) =~= pat@);
        return Some(from);
    }
    let mut i = from;
    loop
        invariant
            pat@.len() >= 1,
            from <= i <= hay@.len(),
            find_from(hay@, pat@, from as int) == find_from(hay@, pat@, i as int),
        decreases hay@.len() - i,
    {
        if pat.len() > hay.len() - i {
            return None;
        }
        if match_at(hay, pat, i) {
            return Some(i);
        }
        i += 1;
    }
}

/// Number of non-overlapping occurrences of `pat` in `hay`, scanning left to
/// right, as `str::matches` counts them.
pub open spec fn count_nonoverlap<T>(hay: Seq<T>, pat: Seq<T>) -> nat
    decreases hay.len(),
    when pat.len() > 0
{
    if hay.len() < pat.len() {
        0
    } else if hay.take(pat.len() as int) == pat {
        1 + count_nonoverlap(hay.skip(pat.len() as int), pat)
    } else {
        count_nonoverlap(hay.skip(1), pat)
    }
}

/// Number of positions at or after `from` where `pat` occurs in `hay`,
/// overlapping occurrences counted separately.
pub open spec fn count_hits<T>(hay: Seq<T>, pat: Seq<T>, from: int) -> nat
    decreases hay.len() - from + 1,
    when 0 <= from
{
    if from + pat.len() > hay.len() {
        0
    } else {
        (if occurs_at(hay, pat, from) {
            1nat
        } else {
            0nat
        }) + count_hits(hay, pat, from + 1)
    }
}

/// Counts the non-overlapping occurrences of `pat` in `hay`.
pub fn count_occurrences(hay: &Vec<char>, pat: &Vec<char>) -> (n: usize)
    requires
        pat@.len() > 0,
    ensures
        n as nat == count_nonoverlap(hay@, pat@),
{
    let mut i: usize = 0;
    let mut n: usize = 0;
    let hay_len = hay.len();
    assert(hay@.skip(0) =~= hay@);
    while i < hay_len
        invariant
            hay_len == hay@.len(),
            pat@.len() > 0,
            i <= hay@.len(),
            n <= i,
            count_nonoverlap(hay@, pat@) == n + count_nonoverlap(hay@.skip(i as int), pat@),
        decreases hay@.len() - i,
    {
        let rest = Ghost(hay@.skip(i as int));
        if match_at(hay, pat, i) {
            assert(rest@.take(pat@.len() as int) =~= pat@);
            assert(rest@.skip(pat@.len() as int) =~= hay@.skip(i + pat@.len()));
            n += 1;
            i += pat.len();
        } else {
            if pat.len() <= hay_len - i {
                assert(rest@.take(pat@.len() as int) != pat@) by {
                    assert(rest@.take(pat@.len() as int) =~= hay@.subrange(
                        i as int,
                        i + pat@.len() as int,
                    ));
                }
            }
            assert(rest@.skip(1) =~= hay@.skip(i + 1));
            i += 1;
        }
    }
    n
}

/// `hay` with every non-overlapping occurrence of `pat`, scanning left to
/// right, replaced by `rep`.
pub open spec fn replace_all_spec(hay: Seq<char>, pat: Seq<char>, rep: Seq<char>) -> Seq<char>
    decreases hay.len(),
    when pat.len() > 0
{
    if hay.len() < pat.len() {
        hay
    } else if hay.take(pat.len() as int) == pat {
        rep + replace_all_spec(hay.skip(pat.len() as int), pat, rep)
    } else {
        seq![hay[0]] + replace_all_spec(hay.skip(1), pat, rep)
    }
}

/// Appends all of `s` to `out`.
pub fn push_chars(out: &mut Vec<char>, s: &Vec<char>)
    ensures
        final(out)@ == old(out)@ + s@,
{
    let mut j: usize = 0;
    while j < s.len()
        invariant
            j <= s@.len(),
            out@ == old(out)@ + s@.take(j as int),
        decreases s@.len() - j,
    {
        out.push(s[j]);
        assert(old(out)@ + s@.take(j as int) + seq![s@[j as int]] =~= old(out)@ + s@.take(
            j + 1,
        ));
        j += 1;
    }
    assert(s@.take(s@.len() as int) =~= s@);
}

/// Replaces every non-overlapping occurrence of `pat` in `hay` by `rep`.
pub fn replace_all(hay: &Vec<char>, pat: &Vec<char>, rep: &Vec<char>) -> (out: Vec<char>)
    requires
        pat@.len() > 0,
    ensures
        out@ == replace_all_spec(hay@, pat@, rep@),
{
    let mut out: Vec<char> = Vec::new();
    let mut i: usize = 0;
    let hay_len = hay.len();
    assert(hay@.skip(0) =~= hay@);
    while i < hay_len
        invariant
            hay_len == hay@.len(),
            pat@.len() > 0,
            i <= hay@.len(),
            replace_all_spec(hay@, pat@, rep@) == out@ + replace_all_spec(
                hay@.skip(i as int),
                pat@,
                rep@,
            ),
        decreases hay@.len() - i,
    {
        let rest = Ghost(hay@.skip(i as int));
        if match_at(hay, pat, i) {
            assert(rest@.take(pat@.len() as int) =~= pat@);
            assert(rest@.skip(pat@.len() as int) =~= hay@.skip(i + pat@.len()));
            let ghost old_out = out@;
            push_chars(&mut out, rep);
            assert(old_out + (rep@ + replace_all_spec(hay@.skip(i + pat@.len()), pat@, rep@))
                =~= out@ + replace_all_spec(hay@.skip(i + pat@.len()), pat@, rep@));
            i += pat.len();
        } else {
            if pat.len() <= hay_len - i {
                assert(rest@.take(pat@.len() as int) != pat@) by {
                    assert(rest@.take(pat@.len() as int) =~= hay@.subrange(
                        i as int,
                        i + pat@.len() as int,
                    ));
                }
            }
            assert(rest@.skip(1) =~= hay@.skip(i + 1));
            let ghost old_out = out@;
            out.push(hay[i]);
            assert(old_out + (seq![hay@[i as int]] + replace_all_spec(hay@.skip(i + 1), pat@, rep@))
                =~= out@ + replace_all_spec(hay@.skip(i + 1), pat@, rep@));
            i += 1;
        }
    }
    assert(hay@.skip(hay@.len() as int) =~= Seq::<char>::empty());
    assert(out@ + Seq::<char>::empty() =~= out@);
    out
}

/// Whether `c` is one of the characters of `s`.
pub fn contains_char(s: &Vec<char>, c: char) -> (b: bool)
    ensures
        b == s@.contains(c),
{
    let mut i: usize = 0;
    while i < s.len()
        invariant
            i <= s@.len(),
            forall|k: int| 0 <= k < i ==> s@[k] != c,
        decreases s@.len() - i,
    {
        if s[i] == c {
            return true;
        }
        i += 1;
    }
    false
}

/// The characters of `s` from position `a` (inclusive) to `b` (exclusive).
pub fn sub_vec(s: &Vec<char>, a: usize, b: usize) -> (out: Vec<char>)
    requires
        a <= b <= s@.len(),
    ensures
        out@ == s@.subrange(a as int, b as int),
{
    let mut out: Vec<char> = Vec::new();
    let mut i = a;
    while i < b
        invariant
            a <= i <= b <= s@.len(),
            out@ == s@.subrange(a as int, i as int),
        decreases b - i,
    {
        out.push(s[i]);
        assert(s@.subrange(a as int, i as int) + seq![s@[i as int]] =~= s@.subrange(
            a as int,
            i + 1,
        ));
        i += 1;
    }
    out
}

/// The characters of the string `s`, collected one by one.
pub fn str_chars(s: &str) -> (v: Vec<char>)
    ensures
        v@ == s@,
{
    let n = s.unicode_len();
    let mut v: Vec<char> = Vec::new();
    let mut i: usize = 0;
    while i < n
        invariant
            n == s@.len(),
            i <= n,
            v@ == s@.take(i as int),
        decreases n - i,
    {
        v.push(s.get_char(i));
        assert(s@.take(i as int) + seq![s@[i as int]] =~= s@.take(i + 1));
        i += 1;
    }
    assert(s@.take(n as int) =~= s@);
    v
}

/// Relies on `String::push`: appends exactly one character to the string.
#[verifier::external_body]
fn push_char(s: &mut String, c: char)
    ensures
        final(s)@ == old(s)@.push(c),
{
    s.push(c);
}

/// A `String` holding exactly the characters of `v`.
pub fn chars_string(v: &Vec<char>) -> (s: String)
    ensures
        s@ == v@,
{
    let mut s = String::new();
    let mut i: usize = 0;
    while i < v.len()
        invariant
            i <= v@.len(),
            s@ == v@.take(i as int),
        decreases v@.len() - i,
    {
        push_char(&mut s, v[i]);
        assert(v@.take(i as int).push(v@[i as int]) =~= v@.take(i + 1));
        i += 1;
    }
    assert(v@.take(v@.len() as int) =~= v@);
    s
}

/// The character for the decimal digit `d`.
pub open spec fn dec_digit(d: int) -> char {
    if d == 0 {
        '0'
    } else if d == 1 {
        '1'
    } else if d == 2 {
        '2'
    } else if d == 3 {
        '3'
    } else if d == 4 {
        '4'
    } else if d == 5 {
        '5'
    } else if d == 6 {
        '6'
    } else if d == 7 {
        '7'
    } else if d == 8 {
        '8'
    } else {
        '9'
    }
}

/// The decimal notation for `n`, without leading zeroes.
pub open spec fn dec_str_spec(n: nat) -> Seq<char>
    decreases n,
{
    if n < 10 {
        seq![dec_digit(n as int)]
    } else {
        dec_str_spec(n / 10) + seq![dec_digit((n % 10) as int)]
    }
}

fn digit_char(d: u128) -> (c: char)
    requires
        d < 10,
    ensures
        c == dec_digit(d as int),
{
    if d == 0 {
        '0'
    } else if d == 1 {
        '1'
    } else if d == 2 {
        '2'
    } else if d == 3 {
        '3'
    } else if d == 4 {
        '4'
    } else if d == 5 {
        '5'
    } else if d == 6 {
        '6'
    } else if d == 7 {
        '7'
    } else if d == 8 {
        '8'
    } else {
        '9'
    }
}

/// Appends the decimal notation for `n` to `out`.
pub fn push_dec(out: &mut Vec<char>, n: u128)
    ensures
        final(out)@ == old(out)@ + dec_str_spec(n as nat),
    decreases n,
{
    if n < 10 {
        out.push(digit_char(n));
        assert(old(out)@.push(dec_digit(n as int)) =~= old(out)@ + dec_str_spec(n as nat));
    } else {
        push_dec(out, n / 10);
        out.push(digit_char(n % 10));
        assert((old(out)@ + dec_str_spec((n / 10) as nat)).push(dec_digit((n % 10) as int))
            =~= old(out)@ + dec_str_spec(n as nat));
    }
}

/// Whether `c` has Unicode's `White_Space` property, the set that
/// `str::trim` removes.
pub open spec fn is_space_char(c: char) -> bool {
    ||| c == '\u{9}'
    ||| c == '\u{a}'
    ||| c == '\u{b}'
    ||| c == '\u{c}'
    ||| c == '\u{d}'
    ||| c == ' '
    ||| c == '\u{85}'
    ||| c == '\u{a0}'
    ||| c == '\u{1680}'
    ||| ('\u{2000}' <= c && c <= '\u{200a}')
    ||| c == '\u{2028}'
    ||| c == '\u{2029}'
    ||| c == '\u{202f}'
    ||| c == '\u{205f}'
    ||| c == '\u{3000}'
}

fn is_space(c: char) -> (b: bool)
    ensures
        b == is_space_char(c),
{
    c == '\u{9}' || c == '\u{a}' || c == '\u{b}' || c == '\u{c}' || c == '\u{d}' || c == ' '
        || c == '\u{85}' || c == '\u{a0}' || c == '\u{1680}' || ('\u{2000}' <= c && c
        <= '\u{200a}') || c == '\u{2028}' || c == '\u{2029}' || c == '\u{202f}' || c == '\u{205f}'
        || c == '\u{3000}'
}

/// `s` without its leading white space.
pub open spec fn trim_start_spec(s: Seq<char>) -> Seq<char>
    decreases s.len(),
{
    if s.len() > 0 && is_space_char(s[0]) {
        trim_start_spec(s.drop_first())
    } else {
        s
    }
}

/// `s` without its trailing white space.
pub open spec fn trim_end_spec(s: Seq<char>) -> Seq<char>
    decreases s.len(),
{
    if s.len() > 0 && is_space_char(s.last()) {
        trim_end_spec(s.drop_last())
    } else {
        s
    }
}

/// `s` without leading and trailing white space, as `str::trim` leaves it.
pub open spec fn trim_spec(s: Seq<char>) -> Seq<char> {
    trim_end_spec(trim_start_spec(s))
}

/// Removes leading and trailing white space.
pub fn trim_chars(s: &Vec<char>) -> (out: Vec<char>)
    ensures
        out@ == trim_spec(s@),
{
    let mut a: usize = 0;
    assert(s@.skip(0) =~= s@);
    while a < s.len() && is_space(s[a])
        invariant
            a <= s@.len(),
            trim_start_spec(s@) == trim_start_spec(s@.skip(a as int)),
        decreases s@.len() - a,
    {
        assert(s@.skip(a as int).drop_first() =~= s@.skip(a + 1));
        a += 1;
    }
    assert(trim_start_spec(s@) =~= s@.skip(a as int)) by {
        if a < s@.len() {
            assert(s@.skip(a as int)[0] == s@[a as int]);
        } else {
            assert(s@.skip(a as int) =~= Seq::<char>::empty());
        }
    }
    let mut b: usize = s.len();
    while b > a && is_space(s[b - 1])
        invariant
            a <= b <= s@.len(),
            trim_end_spec(s@.skip(a as int)) == trim_end_spec(s@.subrange(a as int, b as int)),
        decreases b,
    {
        assert(s@.subrange(a as int, b as int).drop_last() =~= s@.subrange(a as int, b - 1));
        assert(s@.subrange(a as int, b as int).last() == s@[b - 1]);
        b -= 1;
    }
    assert(trim_end_spec(s@.subrange(a as int, b as int)) =~= s@.subrange(a as int, b as int)) by {
        if b > a {
            assert(s@.subrange(a as int, b as int).last() == s@[b - 1]);
        }
    }
    sub_vec(s, a, b)
}

/// `s` without one trailing carriage return, as `str::lines` strips it.
pub open spec fn strip_cr(s: Seq<char>) -> Seq<char> {
    if s.len() > 0 && s.last() == '\r' {
        s.drop_last()
    } else {
        s
    }
}

/// The lines of `s.skip(from)`: pieces separated by line feeds, each with one
/// trailing carriage return removed, a final line feed closing the last line.
pub open spec fn split_lines_from(s: Seq<char>, from: int) -> Seq<Seq<char>>
    decreases s.len() - from,
    when 0 <= from <= s.len()
    via split_lines_from_decreases
{
    if from == s.len() {
        seq![]
    } else {
        match find_from(s, seq!['\n'], from) {
            None => seq![s.skip(from)],
            Some(i) => seq![strip_cr(s.subrange(from, i))] + split_lines_from(s, i + 1),
        }
    }
}

#[via_fn]
proof fn split_lines_from_decreases(s: Seq<char>, from: int) {
    lemma_find_from(s, seq!['\n'], from);
}

/// The lines of `s`, as `str::lines` yields them.
pub open spec fn split_lines_spec(s: Seq<char>) -> Seq<Seq<char>> {
    split_lines_from(s, 0)
}

/// Splits `s` into its lines.
pub fn split_lines(s: &Vec<char>) -> (out: Vec<Vec<char>>)
    ensures
        out.deep_view() == split_lines_spec(s@),
{
    let nl: Vec<char> = vec!['\n'];
    assert(nl@ =~= seq!['\n']);
    let mut out: Vec<Vec<char>> = Vec::new();
    let mut pos: usize = 0;
    let s_len = s.len();
    assert(out.deep_view() =~~= Seq::<Seq<char>>::empty());
    assert(Seq::<Seq<char>>::empty() + split_lines_from(s@, 0) =~~= split_lines_from(s@, 0));
    loop
        invariant
            nl@ == seq!['\n'],
            pos <= s@.len(),
            s@.len() <= usize::MAX,
            split_lines_spec(s@) == out.deep_view() + split_lines_from(s@, pos as int),
        ensures
            split_lines_spec(s@) == out.deep_view(),
        decreases s@.len() - pos,
    {
        if pos == s.len() {
            assert(out.deep_view() + split_lines_from(s@, pos as int) =~= out.deep_view());
            break;
        }
        let ghost prev = out.deep_view();
        match find_sub(s, &nl, pos) {
            None => {
                proof {
                    lemma_find_from(s@, nl@, pos as int);
                }
                let line = sub_vec(s, pos, s.len());
                assert(line@ =~= s@.skip(pos as int));
                out.push(line);
                assert(out.deep_view() =~~= prev + seq![s@.skip(pos as int)]);
                assert(out.deep_view() + split_lines_from(s@, s@.len() as int)
                    =~= out.deep_view());
                pos = s.len();
                break;
            },
            Some(i) => {
                let mut line = sub_vec(s, pos, i);
                if line.len() > 0 && line[line.len() - 1] == '\r' {
                    line.truncate(line.len() - 1);
                    assert(line@ =~= strip_cr(s@.subrange(pos as int, i as int)));
                } else {
                    assert(line@ =~= strip_cr(s@.subrange(pos as int, i as int)));
                }
                out.push(line);
                assert(out.deep_view() =~~= prev + seq![strip_cr(
                    s@.subrange(pos as int, i as int),
                )]);
                assert(prev + (seq![strip_cr(s@.subrange(pos as int, i as int))]
                    + split_lines_from(s@, i + 1)) =~= out.deep_view() + split_lines_from(
                    s@,
                    i + 1,
                ));
                pos = i + 1;
            },
        }
    }
    out
}


/// An element is in a concatenation exactly when it is in one of the parts.
pub proof fn lemma_concat_contains<T>(a: Seq<T>, b: Seq<T>, x: T)
    ensures
        (a + b).contains(x) <==> a.contains(x) || b.contains(x),
{
    if a.contains(x) {
        let i = choose|i: int| 0 <= i < a.len() && a[i] == x;
        assert((a + b)[i] == x);
    }
    if b.contains(x) {
        let i = choose|i: int| 0 <= i < b.len() && b[i] == x;
        assert((a + b)[a.len() + i] == x);
    }
    if (a + b).contains(x) {
        let i = choose|i: int| 0 <= i < (a + b).len() && (a + b)[i] == x;
        if i < a.len() {
            assert(a[i] == x);
        } else {
            assert(b[i - a.len()] == x);
        }
    }
}

/// Replacement introduces no character that neither the text nor the
/// replacement held.
pub proof fn lemma_replace_preserves_absence(
    hay: Seq<char>,
    pat: Seq<char>,
    rep: Seq<char>,
    c: char,
)
    requires
        pat.len() > 0,
        !hay.contains(c),
        !rep.contains(c),
    ensures
        !replace_all_spec(hay, pat, rep).contains(c),
    decreases hay.len(),
{
    if hay.len() < pat.len() {
    } else if hay.take(pat.len() as int) == pat {
        let rest = hay.skip(pat.len() as int);
        assert(!rest.contains(c)) by {
            if rest.contains(c) {
                let i = choose|i: int| 0 <= i < rest.len() && rest[i] == c;
                assert(hay[pat.len() + i] == c);
            }
        }
        lemma_replace_preserves_absence(rest, pat, rep, c);
        lemma_concat_contains(rep, replace_all_spec(rest, pat, rep), c);
    } else {
        let rest = hay.skip(1);
        assert(!rest.contains(c)) by {
            if rest.contains(c) {
                let i = choose|i: int| 0 <= i < rest.len() && rest[i] == c;
                assert(hay[1 + i] == c);
            }
        }
        assert(hay[0] != c);
        lemma_replace_preserves_absence(rest, pat, rep, c);
        lemma_concat_contains(seq![hay[0]], replace_all_spec(rest, pat, rep), c);
    }
}

/// Replacing a single character by text free of it removes it entirely.
pub proof fn lemma_replace_removes(hay: Seq<char>, c: char, rep: Seq<char>)
    requires
        !rep.contains(c),
    ensures
        !replace_all_spec(hay, seq![c], rep).contains(c),
    decreases hay.len(),
{
    let pat = seq![c];
    if hay.len() < 1 {
    } else {
        assert(hay.take(1) =~= seq![hay[0]]);
        if hay[0] == c {
            assert(hay.take(1) == pat);
            lemma_replace_removes(hay.skip(1), c, rep);
            lemma_concat_contains(rep, replace_all_spec(hay.skip(1), pat, rep), c);
        } else {
            assert(hay.take(1) != pat) by {
                assert(hay.take(1)[0] == hay[0]);
            }
            lemma_replace_removes(hay.skip(1), c, rep);
            lemma_concat_contains(seq![hay[0]], replace_all_spec(hay.skip(1), pat, rep), c);
        }
    }
}

} // verus!\n