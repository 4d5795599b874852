//! Trusted interface to the `aho_corasick` crate: the multi-pattern matcher
//! the illegal-character validator scans rows with.  The matcher works on
//! bytes, so its contracts speak of the UTF-8 encoding of the texts involved.

use vstd::prelude::*;
use vstd::utf8::encode_utf8;

use crate::text::occurs_at;

verus! {

/// Declares `aho_corasick::AhoCorasick`, the compiled multi-pattern matcher,
/// as an opaque outside type.
#[verifier::external_type_specification]
#[verifier::external_body]
pub struct ExAhoCorasick(aho_corasick::AhoCorasick);

/// Declares `aho_corasick::BuildError`, what building a matcher can fail
/// with, as an opaque outside type.
#[verifier::external_type_specification]
#[verifier::external_body]
pub struct ExBuildError(aho_corasick::BuildError);

/// The byte strings a matcher was built from, in order.
pub uninterp spec fn ac_patterns(m: aho_corasick::AhoCorasick) -> Seq<Seq<u8>>;

/// Whether a matcher can be built over the given byte patterns: the builder
/// succeeds or fails as a function of the patterns alone (it rejects only
/// structural limits, such as too many or too large patterns).
pub uninterp spec fn ac_builds(patterns: Seq<Seq<u8>>) -> bool;

/// The (pattern index, byte offset) pairs the matcher reports on a haystack,
/// in the order its search yields them.  The search is a pure function of the
/// patterns and the haystack.
pub uninterp spec fn ac_match_seq(patterns: Seq<Seq<u8>>, hay: Seq<u8>) -> Seq<(int, int)>;

/// The UTF-8 encodings of the given texts.
pub open spec fn byte_patterns(pats: Seq<Seq<char>>) -> Seq<Seq<u8>> {
    pats.map_values(|s: Seq<char>| encode_utf8(s))
}

/// Exec match pairs as mathematical pairs.
pub open spec fn pairs_view(v: Seq<(usize, usize)>) -> Seq<(int, int)> {
    v.map_values(|p: (usize, usize)| (p.0 as int, p.1 as int))
}

/// Relies on `aho_corasick::AhoCorasick::new`: whether the build succeeds
/// depends on the patterns alone, and a built matcher holds exactly the
/// given patterns, with the crate's default standard match semantics.
#[verifier::external_body]
pub(crate) fn ac_new(patterns: &Vec<String>) -> (r: Result<
    aho_corasick::AhoCorasick,
    aho_corasick::BuildError,
>)
    ensures
        r is Ok <==> ac_builds(byte_patterns(patterns.deep_view())),
        r is Ok ==> ac_patterns(r->Ok_0) == byte_patterns(patterns.deep_view()),
{
    aho_corasick::AhoCorasick::new(patterns)
}

/// Relies on `AhoCorasick::find_iter` under standard match semantics: every
/// reported match is an occurrence of its pattern in the haystack's bytes;
/// matches come in increasing position and do not overlap; and with pairwise
/// distinct single-byte patterns every occurrence of every pattern is
/// reported, since no two such matches can overlap.
#[verifier::external_body]
pub(crate) fn ac_find(m: &aho_corasick::AhoCorasick, hay: &str) -> (r: Vec<(usize, usize)>)
    ensures
        pairs_view(r@) == ac_match_seq(ac_patterns(*m), encode_utf8(hay@)),
        forall|k: int|
            0 <= k < r@.len() ==> (r@[k].0 as int) < ac_patterns(*m).len() && occurs_at(
                encode_utf8(hay@),
                ac_patterns(*m)[r@[k].0 as int],
                r@[k].1 as int,
            ),
        forall|k: int|
            0 <= k < r@.len() - 1 ==> r@[k].1 + ac_patterns(*m)[r@[k].0 as int].len()
                <= r@[k + 1].1,
        ((forall|p: int| 0 <= p < ac_patterns(*m).len() ==> ac_patterns(*m)[p].len() == 1)
            && (forall|p: int, q: int|
            0 <= p < q < ac_patterns(*m).len() ==> ac_patterns(*m)[p] != ac_patterns(*m)[q]))
            ==> (forall|p: int, s: int|
            0 <= p < ac_patterns(*m).len() && occurs_at(encode_utf8(hay@), ac_patterns(*m)[p], s)
                ==> pairs_view(r@).contains((p, s))),
{
    m.find_iter(hay).map(|mat| (mat.pattern().as_usize(), mat.start())).collect()
}

} // verus!
