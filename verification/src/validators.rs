//! The pipeline validators: the illegal-character scanner/fixer built on the
//! multi-pattern matcher, the field-count check, and the closed validator
//! type the pipeline dispatches over.

use vstd::prelude::*;
use vstd::utf8::encode_utf8;

use crate::config::{CommonConfig, ValidatorSpec};
use crate::matcher::{ac_builds, ac_find, ac_match_seq, ac_new, ac_patterns, byte_patterns, pairs_view};
use crate::bytes::{lemma_ascii_byte_occurs, lemma_ascii_encode_single};
use crate::text::{
    chars_string, contains_seq, count_nonoverlap, count_occurrences, dec_str_spec,
    lemma_occurs_single, occurs_at, push_chars, push_dec, replace_all, replace_all_spec,
    str_chars,
};
use vstd::utf8::char_u32_cast;
use crate::tokenizer::{join_with, lemma_join_push};

verus! {

/// What one validator reports for one row.
#[derive(Debug, Clone)]
pub struct RowOutcome {
    /// The row text the validator was given.
    pub original: String,
    /// The row text after this validator's repairs, the input where it made
    /// none.
    pub fixed: String,
    /// Whether the validator found anything at all.
    pub modified: bool,
    /// The diagnostic messages, empty where nothing was found.
    pub message: String,
}

/// Why a validator could not be built; fatal at startup, before any row is
/// processed.
#[derive(Debug, Clone, Copy, PartialEq, Eq, Structural)]
pub enum ValidatorBuildError {
    /// An illegal-character pattern was empty.
    EmptyPattern,
    /// A field separator was configured as the empty string.
    EmptySeparator,
    /// The multi-pattern matcher could not be built.
    MatcherBuild,
    /// A line-count validator was enabled, which no pipeline can run yet.
    LineCountUnsupported,
}

/// Parameters of the illegal-character validator.
#[derive(Debug)]
pub struct IllegalCharsConfig {
    /// The forbidden patterns.
    pub illegal_chars: Vec<String>,
    /// The replacement for each pattern, by index; a missing entry deletes
    /// the pattern.
    pub replace_with: Vec<String>,
    /// Whether occurrences are repaired in the row text.
    pub fix: bool,
    /// The shared settings this validator runs with.
    pub common: CommonConfig,
}

/// The replacement for pattern `i`; a missing entry deletes the pattern.
pub open spec fn rep_or_empty(reps: Seq<Seq<char>>, i: int) -> Seq<char> {
    if 0 <= i < reps.len() {
        reps[i]
    } else {
        Seq::empty()
    }
}

/// The byte offsets at which pattern `i` matched, in match order.
pub open spec fn hits_for(matches: Seq<(int, int)>, i: int) -> Seq<int>
    decreases matches.len(),
{
    if matches.len() == 0 {
        Seq::empty()
    } else {
        let rest = hits_for(matches.drop_last(), i);
        if matches.last().0 == i {
            rest.push(matches.last().1)
        } else {
            rest
        }
    }
}

/// The match offsets written out in decimal, separated by commas.
pub open spec fn positions_str(ps: Seq<int>) -> Seq<char> {
    join_with(ps.map_values(|p: int| dec_str_spec(p as nat)), ", "@)
}

/// The diagnostic for one pattern with matches.
pub open spec fn illegal_msg(row: int, pat: Seq<char>, ps: Seq<int>) -> Seq<char> {
    "Illegal char found on row "@ + dec_str_spec(row as nat) + " at positions: |-> "@ + pat
        + " <-|:"@ + positions_str(ps) + "\n"@
}

/// Folds the illegal-character validator over patterns `i` and later: for a
/// pattern with matches, its diagnostic is appended and, when fixing, every
/// occurrence of it in the current text is replaced.
pub open spec fn illegal_step(
    pats: Seq<Seq<char>>,
    reps: Seq<Seq<char>>,
    fix: bool,
    row: int,
    matches: Seq<(int, int)>,
    i: int,
    text: Seq<char>,
) -> (Seq<char>, Seq<char>, bool)
    decreases pats.len() - i,
    when 0 <= i <= pats.len()
{
    if i == pats.len() {
        (text, Seq::empty(), false)
    } else {
        let ps = hits_for(matches, i);
        if ps.len() == 0 {
            illegal_step(pats, reps, fix, row, matches, i + 1, text)
        } else {
            let text2 = if fix {
                replace_all_spec(text, pats[i], rep_or_empty(reps, i))
            } else {
                text
            };
            let rec = illegal_step(pats, reps, fix, row, matches, i + 1, text2);
            (rec.0, illegal_msg(row, pats[i], ps) + rec.1, true)
        }
    }
}

/// What the illegal-character validator produces for one row: text after
/// repairs, accumulated message, and whether anything matched.
pub open spec fn illegal_outcome(
    pats: Seq<Seq<char>>,
    reps: Seq<Seq<char>>,
    fix: bool,
    row: int,
    input: Seq<char>,
) -> (Seq<char>, Seq<char>, bool) {
    let matches = ac_match_seq(byte_patterns(pats), encode_utf8(input));
    illegal_step(pats, reps, fix, row, matches, 0, input)
}

/// Scans rows for forbidden patterns in one pass over the row, whatever the
/// number of patterns, and optionally replaces them.
pub struct IllegalChars {
    cfg: IllegalCharsConfig,
    matcher: aho_corasick::AhoCorasick,
}

impl IllegalChars {
    /// The forbidden patterns, in order.
    pub closed spec fn patterns(&self) -> Seq<Seq<char>> {
        self.cfg.illegal_chars.deep_view()
    }

    /// The replacements, by pattern index.
    pub closed spec fn replacements(&self) -> Seq<Seq<char>> {
        self.cfg.replace_with.deep_view()
    }

    /// Whether this validator repairs rows.
    pub closed spec fn fix_enabled(&self) -> bool {
        self.cfg.fix
    }

    /// The matcher was built over exactly the configured patterns, none of
    /// them empty.
    pub closed spec fn wf(&self) -> bool {
        &&& ac_patterns(self.matcher) == byte_patterns(self.patterns())
        &&& forall|j: int| 0 <= j < self.patterns().len() ==> (#[trigger] self.patterns()[j]).len() > 0
    }

    /// Builds the validator; empty patterns are rejected before the matcher
    /// is built.
    pub fn new(cfg: IllegalCharsConfig) -> (r: Result<IllegalChars, ValidatorBuildError>)
        ensures
            match r {
                Ok(v) => {
                    &&& v.wf()
                    &&& v.patterns() == cfg.illegal_chars.deep_view()
                    &&& v.replacements() == cfg.replace_with.deep_view()
                    &&& v.fix_enabled() == cfg.fix
                    &&& ac_builds(byte_patterns(cfg.illegal_chars.deep_view()))
                },
                Err(e) => match e {
                    ValidatorBuildError::EmptyPattern => exists|j: int|
                        0 <= j < cfg.illegal_chars@.len() && (#[trigger] cfg.illegal_chars@[j])@.len()
                            == 0,
                    ValidatorBuildError::MatcherBuild => (forall|j: int|
                        0 <= j < cfg.illegal_chars@.len() ==> (#[trigger] cfg.illegal_chars@[j])@.len()
                            > 0) && !ac_builds(byte_patterns(cfg.illegal_chars.deep_view())),
                    _ => false,
                },
            },
    {
        let mut j: usize = 0;
        while j < cfg.illegal_chars.len()
            invariant
                j <= cfg.illegal_chars@.len(),
                forall|k: int| 0 <= k < j ==> (#[trigger] cfg.illegal_chars@[k])@.len() > 0,
            decreases cfg.illegal_chars@.len() - j,
        {
            if cfg.illegal_chars[j].as_str().is_empty() {
                return Err(ValidatorBuildError::EmptyPattern);
            }
            j += 1;
        }
        match ac_new(&cfg.illegal_chars) {
            Ok(matcher) => {
                let v = IllegalChars { cfg, matcher };
                proof {
                    assert(forall|k: int|
                        0 <= k < v.patterns().len() ==> (#[trigger] v.patterns()[k])
                            == cfg.illegal_chars@[k]@);
                }
                Ok(v)
            },
            Err(_) => Err(ValidatorBuildError::MatcherBuild),
        }
    }

    /// Whether this validator repairs rows.
    pub fn should_fix(&self) -> (b: bool)
        ensures
            b == self.fix_enabled(),
    {
        self.cfg.fix
    }

    /// Scans one row: for every pattern with at least one match it appends
    /// one diagnostic naming the pattern and all its match offsets and, when
    /// fixing is enabled, replaces every occurrence of the pattern in the
    /// current text, pattern by pattern in configuration order.
    pub fn validate(&self, input: &str, row: usize) -> (r: RowOutcome)
        requires
            self.wf(),
        ensures
            r.original@ == input@,
            ({
                let st = illegal_outcome(
                    self.patterns(),
                    self.replacements(),
                    self.fix_enabled(),
                    row as int,
                    input@,
                );
                r.fixed@ == st.0 && r.message@ == st.1 && r.modified == st.2
            }),
            // an already-repaired row passes untouched: where no pattern
            // occurs in the row's bytes, nothing is reported or changed
            (forall|j: int|
                0 <= j < self.patterns().len() ==> !contains_seq(
                    encode_utf8(input@),
                    encode_utf8(#[trigger] self.patterns()[j]),
                )) ==> (r.fixed@ == input@ && r.message@.len() == 0 && !r.modified),
            // with fixing on, pairwise distinct single ASCII-character
            // patterns whose replacements hold no pattern character are all
            // gone from the repaired row, so a second run reports nothing
            // and changes nothing
            ({
                &&& self.fix_enabled()
                &&& (forall|j: int|
                    0 <= j < self.patterns().len() ==> (#[trigger] self.patterns()[j]).len() == 1
                        && (self.patterns()[j][0] as u32) <= 0x7f)
                &&& (forall|j: int, k: int|
                    #![trigger self.patterns()[j], self.patterns()[k]]
                    0 <= j < k < self.patterns().len() ==> self.patterns()[j]
                        != self.patterns()[k])
                &&& (forall|j: int, k: int|
                    #![trigger rep_or_empty(self.replacements(), k), self.patterns()[j]]
                    0 <= j < self.patterns().len() ==> !rep_or_empty(
                        self.replacements(),
                        k,
                    ).contains(self.patterns()[j][0]))
            }) ==> (forall|j: int|
                0 <= j < self.patterns().len() ==> !contains_seq(
                    encode_utf8(r.fixed@),
                    encode_utf8(#[trigger] self.patterns()[j]),
                )),
    {
        let pairs = ac_find(&self.matcher, input);
        let ghost matches = ac_match_seq(byte_patterns(self.patterns()), encode_utf8(input@));
        let ghost pats = self.patterns();
        let ghost reps = self.replacements();
        let ghost fix = self.fix_enabled();
        let np = pairs.len();
        proof {
            assert(pairs@.len() == np);
        }
        let mut text = str_chars(input);
        let mut msg: Vec<char> = Vec::new();
        let mut modified = false;
        let n = self.cfg.illegal_chars.len();
        let mut i: usize = 0;
        while i < n
            invariant
                self.wf(),
                pats == self.patterns(),
                reps == self.replacements(),
                fix == self.fix_enabled(),
                matches == pairs_view(pairs@),
                pairs@.len() <= usize::MAX,
                n == pats.len(),
                n == self.cfg.illegal_chars@.len(),
                i <= n,
                illegal_step(pats, reps, fix, row as int, matches, 0, input@) == ({
                    let rec = illegal_step(pats, reps, fix, row as int, matches, i as int, text@);
                    (rec.0, msg@ + rec.1, modified || rec.2)
                }),
            decreases n - i,
        {
            let ghost rec_i = illegal_step(pats, reps, fix, row as int, matches, i as int, text@);
            // gather the offsets at which this pattern matched
            let mut ps: Vec<usize> = Vec::new();
            let mut k: usize = 0;
            assert(pairs_view(pairs@).take(0) =~= Seq::<(int, int)>::empty());
            while k < pairs.len()
                invariant
                    matches == pairs_view(pairs@),
                    k <= pairs@.len(),
                    pairs@.len() <= usize::MAX,
                    ps@.map_values(|u: usize| u as int) == hits_for(
                        pairs_view(pairs@).take(k as int),
                        i as int,
                    ),
                decreases pairs@.len() - k,
            {
                let ghost pv = pairs_view(pairs@);
                let pair = pairs[k];
                proof {
                    assert(pv.take(k + 1).drop_last() =~= pv.take(k as int));
                    let ghost pk = pairs@[k as int];
                    assert(pv.take(k + 1).last() == (pk.0 as int, pk.1 as int));
                }
                if pair.0 == i {
                    let ghost old_ps = ps@;
                    ps.push(pair.1);
                    assert(ps@.map_values(|u: usize| u as int) =~= old_ps.map_values(
                        |u: usize| u as int,
                    ).push(pairs@[k as int].1 as int));
                }
                k += 1;
            }
            assert(pairs_view(pairs@).take(pairs@.len() as int) =~= pairs_view(pairs@));
            let ghost hits = hits_for(matches, i as int);
            assert(ps@.map_values(|u: usize| u as int) == hits);
            if ps.len() > 0 {
                // one diagnostic for this pattern, naming all its offsets
                let mut m = str_chars("Illegal char found on row ");
                push_dec(&mut m, row as u128);
                push_chars(&mut m, &str_chars(" at positions: |-> "));
                let pat_chars = str_chars(self.cfg.illegal_chars[i].as_str());
                assert(pat_chars@ == pats[i as int]);
                push_chars(&mut m, &pat_chars);
                push_chars(&mut m, &str_chars(" <-|:"));
                push_chars(&mut m, &join_positions(&ps));
                push_chars(&mut m, &str_chars("\n"));
                assert(m@ == illegal_msg(row as int, pats[i as int], hits));
                if self.cfg.fix {
                    let rep_chars = if i < self.cfg.replace_with.len() {
                        str_chars(self.cfg.replace_with[i].as_str())
                    } else {
                        Vec::new()
                    };
                    assert(rep_chars@ == rep_or_empty(reps, i as int));
                    assert(pats[i as int].len() > 0);
                    text = replace_all(&text, &pat_chars, &rep_chars);
                }
                let ghost old_msg = msg@;
                push_chars(&mut msg, &m);
                modified = true;
                proof {
                    let rec_next = illegal_step(
                        pats,
                        reps,
                        fix,
                        row as int,
                        matches,
                        i + 1,
                        text@,
                    );
                    assert(rec_i == (rec_next.0, m@ + rec_next.1, true));
                    assert(old_msg + (m@ + rec_next.1) =~= (old_msg + m@) + rec_next.1);
                }
            }
            i += 1;
        }
        proof {
            let full = illegal_step(pats, reps, fix, row as int, matches, 0, input@);
            assert(full.0 == text@);
            let bpats = byte_patterns(pats);
            assert(forall|p: int|
                0 <= p < pats.len() ==> #[trigger] bpats[p] == encode_utf8(pats[p]));
            if forall|j: int|
                0 <= j < pats.len() ==> !contains_seq(
                    encode_utf8(input@),
                    encode_utf8(#[trigger] pats[j]),
                ) {
                assert(pairs@.len() == 0) by {
                    if pairs@.len() > 0 {
                        let pid = pairs@[0].0 as int;
                        let st0 = pairs@[0].1 as int;
                        assert(occurs_at(encode_utf8(input@), bpats[pid], st0));
                        assert(contains_seq(encode_utf8(input@), encode_utf8(pats[pid])));
                    }
                }
                assert(matches =~= Seq::<(int, int)>::empty());
                lemma_illegal_step_empty(pats, reps, fix, row as int, 0, input@);
            }
            if ({
                &&& fix
                &&& (forall|j: int|
                    0 <= j < pats.len() ==> (#[trigger] pats[j]).len() == 1 && (
                    pats[j][0] as u32) <= 0x7f)
                &&& (forall|j: int, k: int|
                    #![trigger pats[j], pats[k]]
                    0 <= j < k < pats.len() ==> pats[j] != pats[k])
                &&& (forall|j: int, k: int|
                    #![trigger rep_or_empty(reps, k), pats[j]]
                    0 <= j < pats.len() ==> !rep_or_empty(reps, k).contains(pats[j][0]))
            }) {
                assert forall|p: int| 0 <= p < bpats.len() implies (#[trigger] bpats[p]).len()
                    == 1 by {
                    lemma_ascii_encode_single(pats[p][0]);
                    assert(pats[p] =~= seq![pats[p][0]]);
                }
                assert forall|p: int, q: int|
                    #![trigger bpats[p], bpats[q]]
                    0 <= p < q < bpats.len() implies bpats[p] != bpats[q] by {
                    let cp = pats[p][0];
                    let cq = pats[q][0];
                    lemma_ascii_encode_single(cp);
                    lemma_ascii_encode_single(cq);
                    assert(pats[p] =~= seq![cp]);
                    assert(pats[q] =~= seq![cq]);
                    assert(cp != cq) by {
                        if cp == cq {
                            assert(pats[p] =~= pats[q]);
                        }
                    }
                    let vp = cp as u32;
                    let vq = cq as u32;
                    char_u32_cast(cp, vp);
                    char_u32_cast(cq, vq);
                    assert(vp != vq);
                    assert(vp as u8 != vq as u8) by (bit_vector)
                        requires
                            vp <= 0x7f,
                            vq <= 0x7f,
                            vp != vq,
                    ;
                    assert(bpats[p][0] != bpats[q][0]);
                }
                assert forall|j: int|
                    0 <= j < pats.len() implies !text@.contains((#[trigger] pats[j])[0]) by {
                    let cj = pats[j][0];
                    assert(pats[j] =~= seq![cj]);
                    assert(forall|k: int| !(#[trigger] rep_or_empty(reps, k)).contains(cj));
                    if hits_for(matches, j).len() > 0 {
                        lemma_illegal_step_clears(pats, reps, row as int, matches, 0, j, input@, cj);
                    } else {
                        let bj = (cj as u32) as u8;
                        lemma_ascii_encode_single(cj);
                        assert(!input@.contains(cj)) by {
                            if input@.contains(cj) {
                                lemma_ascii_byte_occurs(input@, cj);
                                let si = choose|si: int|
                                    0 <= si < encode_utf8(input@).len() && encode_utf8(
                                        input@,
                                    )[si] == bj;
                                lemma_occurs_single(encode_utf8(input@), bj, si);
                                assert(bpats[j] =~= seq![bj]);
                                assert(occurs_at(encode_utf8(input@), bpats[j], si));
                                assert(occurs_at(
                                    encode_utf8(input@),
                                    ac_patterns(self.matcher)[j],
                                    si,
                                ));
                                assert(pairs_view(pairs@).contains((j, si)));
                                lemma_hits_member(pairs_view(pairs@), j, si);
                            }
                        }
                        lemma_illegal_step_absent(pats, reps, fix, row as int, matches, 0, input@, cj);
                    }
                }
                assert forall|j: int|
                    0 <= j < pats.len() implies !contains_seq(
                        encode_utf8(text@),
                        encode_utf8(#[trigger] pats[j]),
                    ) by {
                    let cj = pats[j][0];
                    let bj = (cj as u32) as u8;
                    assert(pats[j] =~= seq![cj]);
                    lemma_ascii_encode_single(cj);
                    if contains_seq(encode_utf8(text@), encode_utf8(pats[j])) {
                        let pos = choose|pos: int|
                            occurs_at(encode_utf8(text@), encode_utf8(pats[j]), pos);
                        assert(occurs_at(encode_utf8(text@), seq![bj], pos));
                        lemma_occurs_single(encode_utf8(text@), bj, pos);
                        assert(encode_utf8(text@).contains(bj));
                        lemma_ascii_byte_occurs(text@, cj);
                    }
                }
            }
        }
        RowOutcome {
            original: input.to_owned(),
            fixed: chars_string(&text),
            message: chars_string(&msg),
            modified,
        }
    }
}

/// Joins the offsets in decimal with commas.
fn join_positions(ps: &Vec<usize>) -> (out: Vec<char>)
    ensures
        out@ == positions_str(ps@.map_values(|u: usize| u as int)),
{
    let ghost mapped = ps@.map_values(|u: usize| dec_str_spec(u as nat));
    let mut out: Vec<char> = Vec::new();
    let mut j: usize = 0;
    assert(mapped.take(0) =~= Seq::<Seq<char>>::empty());
    while j < ps.len()
        invariant
            mapped == ps@.map_values(|u: usize| dec_str_spec(u as nat)),
            j <= ps@.len(),
            out@ == join_with(mapped.take(j as int), ", "@),
        decreases ps@.len() - j,
    {
        if j > 0 {
            push_chars(&mut out, &str_chars(", "));
        }
        push_dec(&mut out, ps[j] as u128);
        proof {
            lemma_join_push(mapped.take(j as int), mapped[j as int], ", "@);
            assert(mapped.take(j as int).push(mapped[j as int]) =~= mapped.take(j + 1));
        }
        j += 1;
    }
    assert(mapped.take(ps@.len() as int) =~= mapped);
    assert(ps@.map_values(|u: usize| u as int).map_values(|p: int| dec_str_spec(p as nat))
        =~= mapped);
    out
}

/// Parameters of the field-count validator.
#[derive(Debug)]
pub struct FieldCountConfig {
    /// The number of fields every row must have.
    pub expected: usize,
    /// The shared settings this validator runs with.
    pub common: CommonConfig,
}

/// The separator the field-count validator splits on; a comma where none is
/// configured.
pub open spec fn sep_or_comma(sep: Option<String>) -> Seq<char> {
    match sep {
        Some(s) => s@,
        None => ","@,
    }
}

/// How many fields splitting on the separator yields: one more than the
/// number of non-overlapping separator occurrences, as `str::split` counts.
pub open spec fn split_count(s: Seq<char>, sep: Seq<char>) -> nat {
    count_nonoverlap(s, sep) + 1
}

/// The diagnostic for a field-count mismatch.
pub open spec fn field_count_mismatch_msg(expected: nat, actual: nat) -> Seq<char> {
    "Expected "@ + dec_str_spec(expected) + ", found "@ + dec_str_spec(actual)
}

/// The field-count validator's message: empty when the count is right.
pub open spec fn field_count_outcome_msg(expected: nat, actual: nat) -> Seq<char> {
    if actual == expected {
        Seq::empty()
    } else {
        field_count_mismatch_msg(expected, actual)
    }
}

/// Splits each row on the configured separator and compares the field count
/// to the expected value; it never repairs a row.
pub struct FieldCount {
    cfg: FieldCountConfig,
}

impl FieldCount {
    /// The number of fields every row must have.
    pub closed spec fn expected(&self) -> nat {
        self.cfg.expected as nat
    }

    /// The separator rows are split on.
    pub closed spec fn sep_chars(&self) -> Seq<char> {
        sep_or_comma(self.cfg.common.separator)
    }

    /// The separator is not empty.
    pub closed spec fn wf(&self) -> bool {
        self.sep_chars().len() > 0
    }

    /// Builds the validator; an empty separator is rejected.
    pub fn new(cfg: FieldCountConfig) -> (r: Result<FieldCount, ValidatorBuildError>)
        ensures
            match r {
                Ok(v) => {
                    &&& v.wf()
                    &&& v.expected() == cfg.expected as nat
                    &&& v.sep_chars() == sep_or_comma(cfg.common.separator)
                },
                Err(e) => {
                    &&& e == ValidatorBuildError::EmptySeparator
                    &&& sep_or_comma(cfg.common.separator).len() == 0
                },
            },
    {
        let ok = match &cfg.common.separator {
            Some(s) => !s.as_str().is_empty(),
            None => {
                proof {
                    reveal_strlit(",");
                }
                true
            },
        };
        if ok {
            Ok(FieldCount { cfg })
        } else {
            Err(ValidatorBuildError::EmptySeparator)
        }
    }

    /// A field-count check never repairs a row.
    pub fn should_fix(&self) -> (b: bool)
        ensures
            b == false,
    {
        false
    }

    /// Counts the row's fields by splitting on the separator; a mismatch
    /// becomes a diagnostic naming the expected and the actual count, and
    /// the row is never changed.
    pub fn validate(&self, input: &str, _row: usize) -> (r: RowOutcome)
        requires
            self.wf(),
        ensures
            r.original@ == input@,
            r.fixed@ == input@,
            r.modified == false,
            r.message@ == field_count_outcome_msg(self.expected(), split_count(input@, self.sep_chars())),
    {
        let chars = str_chars(input);
        let sep = match &self.cfg.common.separator {
            Some(s) => str_chars(s.as_str()),
            None => str_chars(","),
        };
        let count = count_occurrences(&chars, &sep);
        let actual: u128 = count as u128 + 1;
        let mismatch = actual != self.cfg.expected as u128;
        let message = if mismatch {
            let mut m = str_chars("Expected ");
            push_dec(&mut m, self.cfg.expected as u128);
            push_chars(&mut m, &str_chars(", found "));
            push_dec(&mut m, actual);
            chars_string(&m)
        } else {
            chars_string(&Vec::new())
        };
        RowOutcome { original: input.to_owned(), fixed: input.to_owned(), modified: false, message }
    }
}

/// One validator of the pipeline: a closed set, matched exhaustively.
pub enum RowValidator {
    /// The illegal-character scanner/fixer.
    IllegalChars(IllegalChars),
    /// The field-count check.
    FieldCount(FieldCount),
}

/// What a validator produces for one row: (text after repairs, message,
/// whether anything was found).
pub open spec fn validator_out(v: RowValidator, input: Seq<char>, row: int) -> (
    Seq<char>,
    Seq<char>,
    bool,
) {
    match v {
        RowValidator::IllegalChars(ic) => illegal_outcome(
            ic.patterns(),
            ic.replacements(),
            ic.fix_enabled(),
            row,
            input,
        ),
        RowValidator::FieldCount(fc) => (
            input,
            field_count_outcome_msg(fc.expected(), split_count(input, fc.sep_chars())),
            false,
        ),
    }
}

/// Whether a validator repairs rows.
pub open spec fn validator_fixes(v: RowValidator) -> bool {
    match v {
        RowValidator::IllegalChars(ic) => ic.fix_enabled(),
        RowValidator::FieldCount(_) => false,
    }
}

impl RowValidator {
    /// The validator's invariant, whichever kind it is.
    pub open spec fn wf(&self) -> bool {
        match *self {
            RowValidator::IllegalChars(ic) => ic.wf(),
            RowValidator::FieldCount(fc) => fc.wf(),
        }
    }

    /// Whether this validator repairs rows; the executor chooses chained or
    /// independent evaluation by this.
    pub fn should_fix(&self) -> (b: bool)
        ensures
            b == validator_fixes(*self),
    {
        match self {
            RowValidator::IllegalChars(ic) => ic.should_fix(),
            RowValidator::FieldCount(fc) => fc.should_fix(),
        }
    }

    /// Runs the validator on one row.
    pub fn validate(&self, input: &str, row: usize) -> (r: RowOutcome)
        requires
            self.wf(),
        ensures
            r.original@ == input@,
            ({
                let st = validator_out(*self, input@, row as int);
                r.fixed@ == st.0 && r.message@ == st.1 && r.modified == st.2
            }),
    {
        match self {
            RowValidator::IllegalChars(ic) => ic.validate(input, row),
            RowValidator::FieldCount(fc) => fc.validate(input, row),
        }
    }
}

/// Whether a configured validator takes part in the run at all.
pub open spec fn spec_enabled(s: ValidatorSpec) -> bool {
    match s {
        ValidatorSpec::IllegalChars { enabled, .. } => enabled,
        ValidatorSpec::LineCount { enabled, .. } => enabled,
        ValidatorSpec::FieldCount { enabled, .. } => enabled,
    }
}

/// The enabled validators, in order; the disabled ones are excluded from
/// pipeline construction entirely.
pub open spec fn enabled_specs(specs: Seq<ValidatorSpec>) -> Seq<ValidatorSpec>
    decreases specs.len(),
{
    if specs.len() == 0 {
        Seq::empty()
    } else {
        let rest = enabled_specs(specs.drop_last());
        if spec_enabled(specs.last()) {
            rest.push(specs.last())
        } else {
            rest
        }
    }
}

/// The built validator carries exactly the spec's parameters.
pub open spec fn corresponds(s: ValidatorSpec, v: RowValidator) -> bool {
    match (s, v) {
        (
            ValidatorSpec::IllegalChars { illegal_chars, replace_with, fix, .. },
            RowValidator::IllegalChars(ic),
        ) => {
            &&& ic.patterns() == illegal_chars.deep_view()
            &&& ic.replacements() == replace_with.deep_view()
            &&& ic.fix_enabled() == fix
        },
        (ValidatorSpec::FieldCount { expected, common, .. }, RowValidator::FieldCount(fc)) => {
            &&& fc.expected() == expected as nat
            &&& fc.sep_chars() == sep_or_comma(common.separator)
        },
        _ => false,
    }
}

/// A build error names a spec that warrants it.
pub open spec fn spec_rejects(s: ValidatorSpec, e: ValidatorBuildError) -> bool {
    spec_enabled(s) && match e {
        ValidatorBuildError::EmptyPattern => match s {
            ValidatorSpec::IllegalChars { illegal_chars, .. } => exists|j: int|
                0 <= j < illegal_chars@.len() && (#[trigger] illegal_chars@[j])@.len() == 0,
            _ => false,
        },
        ValidatorBuildError::EmptySeparator => match s {
            ValidatorSpec::FieldCount { common, .. } => sep_or_comma(common.separator).len() == 0,
            _ => false,
        },
        ValidatorBuildError::MatcherBuild => match s {
            ValidatorSpec::IllegalChars { illegal_chars, .. } => (forall|j: int|
                0 <= j < illegal_chars@.len() ==> (#[trigger] illegal_chars@[j])@.len() > 0)
                && !ac_builds(byte_patterns(illegal_chars.deep_view())),
            _ => false,
        },
        ValidatorBuildError::LineCountUnsupported => s is LineCount,
    }
}

/// Builds the run's pipeline from the configured validators: the enabled
/// ones, in order, each constructed from its parameters; a disabled one is
/// excluded entirely.  An enabled line-count validator cannot be run and
/// fails the construction, as does any invalid parameter set.
#[verifier::loop_isolation(false)]
pub fn build_pipeline(specs: Vec<ValidatorSpec>) -> (r: Result<
    Vec<RowValidator>,
    ValidatorBuildError,
>)
    ensures
        match r {
            Ok(p) => {
                &&& forall|k: int| 0 <= k < p@.len() ==> (#[trigger] p@[k]).wf()
                &&& p@.len() == enabled_specs(specs@).len()
                &&& forall|k: int|
                    0 <= k < p@.len() ==> corresponds(
                        enabled_specs(specs@)[k],
                        #[trigger] p@[k],
                    )
            },
            Err(e) => exists|k: int| 0 <= k < specs@.len() && spec_rejects(#[trigger] specs@[k], e),
        },
{
    let ghost orig = specs@;
    let total = specs.len();
    proof {
        assert(orig.len() == total);
    }
    let mut queue = specs;
    let mut out: Vec<RowValidator> = Vec::new();
    let mut j: usize = 0;
    assert(enabled_specs(orig.take(0)) =~= Seq::<ValidatorSpec>::empty());
    while queue.len() > 0
        invariant
            orig.len() <= usize::MAX,
            j <= orig.len(),
            queue@ == orig.skip(j as int),
            out@.len() == enabled_specs(orig.take(j as int)).len(),
            forall|k: int| 0 <= k < out@.len() ==> (#[trigger] out@[k]).wf(),
            forall|k: int|
                0 <= k < out@.len() ==> corresponds(
                    enabled_specs(orig.take(j as int))[k],
                    #[trigger] out@[k],
                ),
        decreases queue@.len(),
    {
        let s = queue.remove(0);
        proof {
            assert(s == orig[j as int]);
            assert(queue@ =~= orig.skip(j + 1));
            assert(orig.take(j + 1).drop_last() =~= orig.take(j as int));
            assert(orig.take(j + 1).last() == orig[j as int]);
        }
        let enabled = match &s {
            ValidatorSpec::IllegalChars { enabled, .. } => *enabled,
            ValidatorSpec::LineCount { enabled, .. } => *enabled,
            ValidatorSpec::FieldCount { enabled, .. } => *enabled,
        };
        if enabled {
            match s {
                ValidatorSpec::IllegalChars { illegal_chars, replace_with, fix, common, .. } => {
                    match IllegalChars::new(
                        IllegalCharsConfig { illegal_chars, replace_with, fix, common },
                    ) {
                        Ok(v) => {
                            out.push(RowValidator::IllegalChars(v));
                        },
                        Err(e) => {
                            proof {
                                assert(spec_rejects(orig[j as int], e));
                                assert(exists|k: int|
                                    0 <= k < orig.len() && spec_rejects(
                                        #[trigger] orig[k],
                                        e,
                                    ));
                            }
                            return Err(e);
                        },
                    }
                },
                ValidatorSpec::LineCount { .. } => {
                    proof {
                        assert(spec_rejects(
                            orig[j as int],
                            ValidatorBuildError::LineCountUnsupported,
                        ));
                        assert(exists|k: int|
                            0 <= k < orig.len() && spec_rejects(
                                #[trigger] orig[k],
                                ValidatorBuildError::LineCountUnsupported,
                            ));
                    }
                    return Err(ValidatorBuildError::LineCountUnsupported);
                },
                ValidatorSpec::FieldCount { expected, common, .. } => {
                    match FieldCount::new(FieldCountConfig { expected, common }) {
                        Ok(v) => {
                            out.push(RowValidator::FieldCount(v));
                        },
                        Err(e) => {
                            proof {
                                assert(spec_rejects(orig[j as int], e));
                                assert(exists|k: int|
                                    0 <= k < orig.len() && spec_rejects(
                                        #[trigger] orig[k],
                                        e,
                                    ));
                            }
                            return Err(e);
                        },
                    }
                },
            }
        }
        j += 1;
    }
    assert(orig.take(orig.len() as int) =~= orig);
    Ok(out)
}


/// With no matches at all, the fold changes nothing and reports nothing.
pub proof fn lemma_illegal_step_empty(
    pats: Seq<Seq<char>>,
    reps: Seq<Seq<char>>,
    fix: bool,
    row: int,
    i: int,
    text: Seq<char>,
)
    requires
        0 <= i <= pats.len(),
    ensures
        illegal_step(pats, reps, fix, row, Seq::empty(), i, text) == (
            text,
            Seq::<char>::empty(),
            false,
        ),
    decreases pats.len() - i,
{
    if i == pats.len() {
    } else {
        assert(hits_for(Seq::empty(), i) =~= Seq::<int>::empty());
        lemma_illegal_step_empty(pats, reps, fix, row, i + 1, text);
    }
}

/// A match pair for a pattern puts an offset in that pattern's hit list.
pub proof fn lemma_hits_member(matches: Seq<(int, int)>, p: int, s: int)
    requires
        matches.contains((p, s)),
    ensures
        hits_for(matches, p).len() > 0,
    decreases matches.len(),
{
    let i = choose|i: int| 0 <= i < matches.len() && matches[i] == (p, s);
    if i == matches.len() - 1 {
        assert(matches.last() == (p, s));
    } else {
        assert(matches.drop_last()[i] == (p, s));
        assert(matches.drop_last().contains((p, s)));
        lemma_hits_member(matches.drop_last(), p, s);
    }
}

/// A character absent from the text and from every replacement stays absent
/// through the fold.
pub proof fn lemma_illegal_step_absent(
    pats: Seq<Seq<char>>,
    reps: Seq<Seq<char>>,
    fix: bool,
    row: int,
    matches: Seq<(int, int)>,
    i: int,
    text: Seq<char>,
    c: char,
)
    requires
        0 <= i <= pats.len(),
        forall|j: int| 0 <= j < pats.len() ==> (#[trigger] pats[j]).len() > 0,
        !text.contains(c),
        forall|k: int| !(#[trigger] rep_or_empty(reps, k)).contains(c),
    ensures
        !illegal_step(pats, reps, fix, row, matches, i, text).0.contains(c),
    decreases pats.len() - i,
{
    if i == pats.len() {
    } else {
        let ps = hits_for(matches, i);
        if ps.len() == 0 {
            lemma_illegal_step_absent(pats, reps, fix, row, matches, i + 1, text, c);
        } else {
            if fix {
                crate::text::lemma_replace_preserves_absence(
                    text,
                    pats[i],
                    rep_or_empty(reps, i),
                    c,
                );
                lemma_illegal_step_absent(
                    pats,
                    reps,
                    fix,
                    row,
                    matches,
                    i + 1,
                    replace_all_spec(text, pats[i], rep_or_empty(reps, i)),
                    c,
                );
            } else {
                lemma_illegal_step_absent(pats, reps, fix, row, matches, i + 1, text, c);
            }
        }
    }
}

/// Once a matched single-character pattern is processed with fixing on, its
/// character is gone from the text the fold leaves, provided no replacement
/// holds it.
pub proof fn lemma_illegal_step_clears(
    pats: Seq<Seq<char>>,
    reps: Seq<Seq<char>>,
    row: int,
    matches: Seq<(int, int)>,
    i: int,
    j: int,
    text: Seq<char>,
    c: char,
)
    requires
        0 <= i <= j < pats.len(),
        forall|k: int| 0 <= k < pats.len() ==> (#[trigger] pats[k]).len() > 0,
        pats[j] == seq![c],
        hits_for(matches, j).len() > 0,
        forall|k: int| !(#[trigger] rep_or_empty(reps, k)).contains(c),
    ensures
        !illegal_step(pats, reps, true, row, matches, i, text).0.contains(c),
    decreases pats.len() - i,
{
    let ps = hits_for(matches, i);
    if i == j {
        let text2 = replace_all_spec(text, seq![c], rep_or_empty(reps, i));
        crate::text::lemma_replace_removes(text, c, rep_or_empty(reps, i));
        lemma_illegal_step_absent(pats, reps, true, row, matches, i + 1, text2, c);
    } else {
        if ps.len() == 0 {
            lemma_illegal_step_clears(pats, reps, row, matches, i + 1, j, text, c);
        } else {
            lemma_illegal_step_clears(
                pats,
                reps,
                row,
                matches,
                i + 1,
                j,
                replace_all_spec(text, pats[i], rep_or_empty(reps, i)),
                c,
            );
        }
    }
}


/// With fixing off, the fold never changes the text.
pub proof fn lemma_illegal_step_nofix(
    pats: Seq<Seq<char>>,
    reps: Seq<Seq<char>>,
    row: int,
    matches: Seq<(int, int)>,
    i: int,
    text: Seq<char>,
)
    requires
        0 <= i <= pats.len(),
    ensures
        illegal_step(pats, reps, false, row, matches, i, text).0 == text,
    decreases pats.len() - i,
{
    if i == pats.len() {
    } else {
        lemma_illegal_step_nofix(pats, reps, row, matches, i + 1, text);
    }
}

/// A validator that does not fix leaves the row text as it was.
pub proof fn lemma_nonfixer_keeps_text(v: RowValidator, input: Seq<char>, row: int)
    requires
        !validator_fixes(v),
    ensures
        validator_out(v, input, row).0 == input,
{
    match v {
        RowValidator::IllegalChars(ic) => {
            let matches = ac_match_seq(byte_patterns(ic.patterns()), encode_utf8(input));
            lemma_illegal_step_nofix(ic.patterns(), ic.replacements(), row, matches, 0, input);
        },
        RowValidator::FieldCount(_) => {},
    }
}

} // verus!\n