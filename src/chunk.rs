//! Chunk tokenization: the decision procedure that turns one
//! whitespace-free chunk into tokens with absolute character offsets.

use vstd::prelude::*;
use vstd::string::StrSliceExecFns;
use crate::exceptions::{orths, ExceptionToken};
use crate::external::{
    literal_matches, regex_all_matches, regex_first_match, spans_as_int, strings_view,
    LiteralMatcher, Pattern,
};
use crate::rules::{literals_of, sources, TokenizerRules};
use crate::spans::{
    concat_all, lemma_concat_all_append, lemma_concat_all_one, lemma_span_order_total,
    lemma_split_pieces_concat, lemma_sweep_ordered, resolve_spans, resolved_spans, span_order,
    spans_proper, split_at_spans, split_pieces, sorted_spans,
};

verus! {

/// A token as text and absolute character offsets.
pub open spec fn token_view(t: (String, usize, usize)) -> (Seq<char>, int, int) {
    (t.0@, t.1 as int, t.2 as int)
}

pub open spec fn tokens_view(v: Seq<(String, usize, usize)>) -> Seq<(Seq<char>, int, int)> {
    v.map_values(|t: (String, usize, usize)| token_view(t))
}

/// Pieces laid end to end from `base`: each gets the offsets of the
/// characters it covers.
pub open spec fn placed(pieces: Seq<Seq<char>>, base: int) -> Seq<(Seq<char>, int, int)>
    decreases pieces.len(),
{
    if pieces.len() == 0 {
        Seq::empty()
    } else {
        let start = base + concat_all(pieces.drop_last()).len();
        placed(pieces.drop_last(), base).push((pieces.last(), start, start + pieces.last().len()))
    }
}

/// The exception entry for `c` applies: there is one, and its surface texts
/// are exactly as long as `c`.
pub open spec fn exception_applies(rules: TokenizerRules, c: Seq<char>) -> bool {
    &&& rules.exceptions@.contains_key(c)
    &&& concat_all(orths(rules.exceptions@[c]@)).len() == c.len()
}

/// A pattern that matches all of `c`.
pub open spec fn whole_match(p: Option<Pattern>, c: Seq<char>) -> bool {
    match p {
        Some(p) => regex_first_match(p@, c) == Some((0int, c.len() as int)),
        None => false,
    }
}

/// The end of the first non-empty match at the start of `s`, trying the
/// patterns from index `i` on in order; 0 when none matches there.
pub open spec fn prefix_end(pats: Seq<Seq<char>>, s: Seq<char>, i: int) -> int
    decreases pats.len() - i,
{
    if i < 0 || i >= pats.len() {
        0
    } else {
        match regex_first_match(pats[i], s) {
            Some(m) if m.0 == 0 && 0 < m.1 <= s.len() => m.1,
            _ => prefix_end(pats, s, i + 1),
        }
    }
}

/// Peels prefixes off `s` while one matches: the prefixes in order, and what
/// is left.
pub open spec fn strip_prefixes(pats: Seq<Seq<char>>, s: Seq<char>) -> (Seq<Seq<char>>, Seq<char>)
    decreases s.len(),
{
    let e = prefix_end(pats, s, 0);
    if s.len() == 0 || e <= 0 || e > s.len() {
        (Seq::empty(), s)
    } else {
        let rest = strip_prefixes(pats, s.subrange(e, s.len() as int));
        (seq![s.subrange(0, e)] + rest.0, rest.1)
    }
}

/// The start of the last non-empty match that ends exactly at `n`.
pub open spec fn anchored_start(ms: Seq<(int, int)>, n: int) -> Option<int>
    decreases ms.len(),
{
    if ms.len() == 0 {
        None
    } else {
        let m = ms.last();
        if m.1 == n && 0 <= m.0 < m.1 {
            Some(m.0)
        } else {
            anchored_start(ms.drop_last(), n)
        }
    }
}

/// The start of the suffix found by the first pattern, from index `i` on,
/// that has a non-empty match ending at the end of `s`.
pub open spec fn suffix_start(pats: Seq<Seq<char>>, s: Seq<char>, i: int) -> Option<int>
    decreases pats.len() - i,
{
    if i < 0 || i >= pats.len() {
        None
    } else {
        match anchored_start(regex_all_matches(pats[i], s), s.len() as int) {
            Some(a) => Some(a),
            None => suffix_start(pats, s, i + 1),
        }
    }
}

/// Peels suffixes off `s` while one matches: the suffixes outermost first,
/// and what is left.
pub open spec fn strip_suffixes(pats: Seq<Seq<char>>, s: Seq<char>) -> (Seq<Seq<char>>, Seq<char>)
    decreases s.len(),
{
    if s.len() == 0 {
        (Seq::empty(), s)
    } else {
        match suffix_start(pats, s, 0) {
            Some(a) if 0 <= a < s.len() => {
                let rest = strip_suffixes(pats, s.subrange(0, a));
                (seq![s.subrange(a, s.len() as int)] + rest.0, rest.1)
            },
            _ => (Seq::empty(), s),
        }
    }
}

/// The non-empty matches inside `[0, n)`, in order.
pub open spec fn proper_only(ms: Seq<(int, int)>, n: int) -> Seq<(int, int)>
    decreases ms.len(),
{
    if ms.len() == 0 {
        Seq::empty()
    } else {
        let p = proper_only(ms.drop_last(), n);
        let m = ms.last();
        if 0 <= m.0 < m.1 <= n {
            p.push(m)
        } else {
            p
        }
    }
}

/// The non-empty matches of each regex infix pattern, pattern by pattern.
pub open spec fn regex_candidates(pats: Seq<Seq<char>>, s: Seq<char>) -> Seq<(int, int)>
    decreases pats.len(),
{
    if pats.len() == 0 {
        Seq::empty()
    } else {
        regex_candidates(pats.drop_last(), s) + proper_only(
            regex_all_matches(pats.last(), s),
            s.len() as int,
        )
    }
}

/// Every infix candidate span in `s`: the literal matches, then the regex
/// matches.
pub open spec fn infix_candidates(
    lits: Option<Seq<Seq<char>>>,
    pats: Seq<Seq<char>>,
    s: Seq<char>,
) -> Seq<(int, int)> {
    let from_literals = match lits {
        Some(l) => proper_only(literal_matches(l, s), s.len() as int),
        None => Seq::empty(),
    };
    from_literals + regex_candidates(pats, s)
}

/// The segments that infix splitting makes of `s`.
pub open spec fn infix_pieces(lits: Option<Seq<Seq<char>>>, pats: Seq<Seq<char>>, s: Seq<char>) -> Seq<Seq<char>> {
    let c = infix_candidates(lits, pats, s);
    if s.len() == 0 {
        Seq::empty()
    } else if c.len() == 0 {
        seq![s]
    } else {
        split_pieces(s, resolved_spans(c))
    }
}

/// The pieces that general splitting makes of `c`: prefixes, infix
/// segments of the middle, then suffixes innermost first.
pub open spec fn split_chunk(rules: TokenizerRules, c: Seq<char>) -> Seq<Seq<char>> {
    let pre = strip_prefixes(sources(rules.prefixes@), c);
    let suf = strip_suffixes(sources(rules.suffixes@), pre.1);
    let mid = infix_pieces(literals_of(rules.literal_infix_matcher), sources(rules.regex_infixes@), suf.1);
    let all = pre.0 + mid + suf.0.reverse();
    if all.len() == 0 {
        seq![c]
    } else {
        all
    }
}

/// The token texts of chunk `c`, by the first rule that resolves it.
pub open spec fn chunk_pieces(rules: TokenizerRules, c: Seq<char>) -> Seq<Seq<char>> {
    if c.len() == 0 {
        Seq::empty()
    } else if exception_applies(rules, c) {
        orths(rules.exceptions@[c]@)
    } else if whole_match(rules.token_match, c) || whole_match(rules.url_match, c) {
        seq![c]
    } else {
        split_chunk(rules, c)
    }
}

/// The tokens of chunk `c` at absolute offset `base`.
pub open spec fn chunk_tokens(rules: TokenizerRules, c: Seq<char>, base: int) -> Seq<(Seq<char>, int, int)> {
    placed(chunk_pieces(rules, c), base)
}

/// Placed pieces: the i-th starts where the first i pieces end, and spans
/// exactly its own length.
pub proof fn lemma_placed(pieces: Seq<Seq<char>>, base: int)
    ensures
        placed(pieces, base).len() == pieces.len(),
        forall|i: int|
            0 <= i < pieces.len() ==> #[trigger] placed(pieces, base)[i] == (
                pieces[i],
                base + concat_all(pieces.take(i)).len(),
                base + concat_all(pieces.take(i)).len() + pieces[i].len(),
            ),
    decreases pieces.len(),
{
    if pieces.len() > 0 {
        let prev = pieces.drop_last();
        lemma_placed(prev, base);
        assert forall|i: int| 0 <= i < pieces.len() implies #[trigger] placed(pieces, base)[i] == (
            pieces[i],
            base + concat_all(pieces.take(i)).len(),
            base + concat_all(pieces.take(i)).len() + pieces[i].len(),
        ) by {
            if i < prev.len() {
                assert(prev.take(i) =~= pieces.take(i));
            } else {
                assert(pieces.take(i) =~= prev);
            }
        }
    }
}

/// Consecutive placed pieces meet: each ends where the next starts, and the
/// last ends after all of them.
pub proof fn lemma_placed_contiguous(pieces: Seq<Seq<char>>, base: int)
    ensures
        forall|i: int|
            0 <= i < pieces.len() - 1 ==> (#[trigger] placed(pieces, base)[i]).2 == placed(pieces, base)[i + 1].1,
        pieces.len() > 0 ==> placed(pieces, base)[0].1 == base,
        pieces.len() > 0 ==> placed(pieces, base)[pieces.len() - 1].2 == base + concat_all(pieces).len(),
{
    lemma_placed(pieces, base);
    assert forall|i: int| 0 <= i < pieces.len() - 1 implies (#[trigger] placed(pieces, base)[i]).2 == placed(pieces, base)[i + 1].1 by {
        assert(pieces.take(i + 1).drop_last() =~= pieces.take(i));
        assert(pieces.take(i + 1).last() == pieces[i]);
    }
    if pieces.len() > 0 {
        assert(pieces.take(0) =~= Seq::<Seq<char>>::empty());
        let n = pieces.len() - 1;
        assert(pieces.drop_last() =~= pieces.take(n));
    }
}

pub proof fn lemma_concat_cons(x: Seq<char>, rest: Seq<Seq<char>>)
    ensures
        concat_all(seq![x] + rest) == x + concat_all(rest),
{
    lemma_concat_all_append(seq![x], rest);
    lemma_concat_all_one(x);
}

/// Prefix stripping loses nothing: the prefixes and the rest make up `s`.
pub proof fn lemma_strip_prefixes_concat(pats: Seq<Seq<char>>, s: Seq<char>)
    ensures
        concat_all(strip_prefixes(pats, s).0) + strip_prefixes(pats, s).1 == s,
    decreases s.len(),
{
    let e = prefix_end(pats, s, 0);
    if s.len() == 0 || e <= 0 || e > s.len() {
        assert(concat_all(Seq::<Seq<char>>::empty()) + s =~= s);
    } else {
        let t = s.subrange(e, s.len() as int);
        lemma_strip_prefixes_concat(pats, t);
        let rest = strip_prefixes(pats, t);
        lemma_concat_cons(s.subrange(0, e), rest.0);
        assert(concat_all(rest.0) + rest.1 == t);
        assert(s.subrange(0, e) + t =~= s);
        assert(s.subrange(0, e) + concat_all(rest.0) + rest.1 =~= s.subrange(0, e) + (concat_all(rest.0) + rest.1));
    }
}

/// Suffix stripping loses nothing: the rest and the suffixes, innermost
/// first, make up `s`.
pub proof fn lemma_strip_suffixes_concat(pats: Seq<Seq<char>>, s: Seq<char>)
    ensures
        strip_suffixes(pats, s).1 + concat_all(strip_suffixes(pats, s).0.reverse()) == s,
    decreases s.len(),
{
    if s.len() == 0 {
        assert(Seq::<Seq<char>>::empty().reverse() =~= Seq::<Seq<char>>::empty());
        assert(s + concat_all(Seq::<Seq<char>>::empty()) =~= s);
    } else {
        match suffix_start(pats, s, 0) {
            Some(a) if 0 <= a < s.len() => {
                let t = s.subrange(0, a);
                lemma_strip_suffixes_concat(pats, t);
                let rest = strip_suffixes(pats, t);
                let x = s.subrange(a, s.len() as int);
                assert((seq![x] + rest.0).reverse() =~= rest.0.reverse() + seq![x]);
                lemma_concat_all_append(rest.0.reverse(), seq![x]);
                lemma_concat_all_one(x);
                assert(rest.1 + concat_all(rest.0.reverse()) == t);
                assert(t + x =~= s);
                assert(rest.1 + (concat_all(rest.0.reverse()) + x) =~= (rest.1 + concat_all(rest.0.reverse())) + x);
            },
            _ => {
                assert(Seq::<Seq<char>>::empty().reverse() =~= Seq::<Seq<char>>::empty());
                assert(s + concat_all(Seq::<Seq<char>>::empty()) =~= s);
            },
        }
    }
}

pub proof fn lemma_proper_only(ms: Seq<(int, int)>, n: int)
    ensures
        spans_proper(proper_only(ms, n), n),
    decreases ms.len(),
{
    if ms.len() > 0 {
        lemma_proper_only(ms.drop_last(), n);
    }
}

pub proof fn lemma_regex_candidates_proper(pats: Seq<Seq<char>>, s: Seq<char>)
    ensures
        spans_proper(regex_candidates(pats, s), s.len() as int),
    decreases pats.len(),
{
    if pats.len() > 0 {
        lemma_regex_candidates_proper(pats.drop_last(), s);
        lemma_proper_only(regex_all_matches(pats.last(), s), s.len() as int);
        let a = regex_candidates(pats.drop_last(), s);
        let b = proper_only(regex_all_matches(pats.last(), s), s.len() as int);
        assert forall|i: int| 0 <= i < (a + b).len() implies 0 <= #[trigger] (a + b)[i].0 < (a + b)[i].1 <= s.len() by {
            if i >= a.len() {
                assert((a + b)[i] == b[i - a.len()]);
            }
        }
    }
}

pub proof fn lemma_infix_candidates_proper(lits: Option<Seq<Seq<char>>>, pats: Seq<Seq<char>>, s: Seq<char>)
    ensures
        spans_proper(infix_candidates(lits, pats, s), s.len() as int),
{
    let n = s.len() as int;
    let a = match lits {
        Some(l) => proper_only(literal_matches(l, s), n),
        None => Seq::empty(),
    };
    if let Some(l) = lits {
        lemma_proper_only(literal_matches(l, s), n);
    }
    lemma_regex_candidates_proper(pats, s);
    let b = regex_candidates(pats, s);
    assert forall|i: int| 0 <= i < (a + b).len() implies 0 <= #[trigger] (a + b)[i].0 < (a + b)[i].1 <= n by {
        if i >= a.len() {
            assert((a + b)[i] == b[i - a.len()]);
        }
    }
}

/// The resolved boundary spans of proper candidates are ordered.
pub proof fn lemma_resolved_ordered(c: Seq<(int, int)>, n: int)
    requires
        spans_proper(c, n),
    ensures
        crate::spans::spans_ordered(resolved_spans(c), n),
        resolved_spans(c).len() > 0 <==> c.len() > 0,
{
    lemma_span_order_total();
    c.lemma_sort_by_ensures(span_order());
    let t = sorted_spans(c);
    assert(t.to_multiset().len() == t.len()) by {
        broadcast use vstd::seq_lib::group_to_multiset_ensures;
    }
    assert(c.to_multiset().len() == c.len()) by {
        broadcast use vstd::seq_lib::group_to_multiset_ensures;
    }
    assert forall|i: int| 0 <= i < t.len() implies 0 <= #[trigger] t[i].0 < t[i].1 <= n by {
        assert(t.contains(t[i]));
        assert(c.contains(t[i]));
    }
    lemma_sweep_ordered(t, n);
}

/// Infix splitting loses nothing: the segments make up `s`.
pub proof fn lemma_infix_pieces_concat(lits: Option<Seq<Seq<char>>>, pats: Seq<Seq<char>>, s: Seq<char>)
    ensures
        concat_all(infix_pieces(lits, pats, s)) == s,
{
    let c = infix_candidates(lits, pats, s);
    if s.len() == 0 {
        assert(concat_all(Seq::<Seq<char>>::empty()) =~= s);
    } else if c.len() == 0 {
        lemma_concat_all_one(s);
    } else {
        lemma_infix_candidates_proper(lits, pats, s);
        lemma_resolved_ordered(c, s.len() as int);
        lemma_split_pieces_concat(s, resolved_spans(c));
    }
}

/// General splitting loses nothing: its pieces make up `c`.
pub proof fn lemma_split_chunk_concat(rules: TokenizerRules, c: Seq<char>)
    ensures
        concat_all(split_chunk(rules, c)) == c,
{
    let pre = strip_prefixes(sources(rules.prefixes@), c);
    let suf = strip_suffixes(sources(rules.suffixes@), pre.1);
    let lits = literals_of(rules.literal_infix_matcher);
    let mid = infix_pieces(lits, sources(rules.regex_infixes@), suf.1);
    lemma_strip_prefixes_concat(sources(rules.prefixes@), c);
    lemma_strip_suffixes_concat(sources(rules.suffixes@), pre.1);
    lemma_infix_pieces_concat(lits, sources(rules.regex_infixes@), suf.1);
    lemma_concat_all_append(pre.0 + mid, suf.0.reverse());
    lemma_concat_all_append(pre.0, mid);
    let all = pre.0 + mid + suf.0.reverse();
    assert(concat_all(all) =~= c);
    if all.len() == 0 {
        lemma_concat_all_one(c);
    }
}

/// Tiling: the tokens of a non-empty chunk start at `base`, each spans its
/// own length, each ends where the next starts, and the last ends at `base`
/// plus the length of the chunk, whatever the exception table holds. When
/// the chunk's exception entry spells it out wherever it applies, the tokens
/// also spell the chunk exactly.
pub proof fn lemma_chunk_tiling(rules: TokenizerRules, c: Seq<char>, base: int)
    requires
        c.len() > 0,
    ensures
        (exception_applies(rules, c) ==> concat_all(orths(rules.exceptions@[c]@)) == c) ==> concat_all(
            chunk_pieces(rules, c),
        ) == c,
        concat_all(chunk_pieces(rules, c)).len() == c.len(),
        chunk_tokens(rules, c, base).len() > 0,
        chunk_tokens(rules, c, base)[0].1 == base,
        chunk_tokens(rules, c, base).last().2 == base + c.len(),
        forall|i: int|
            0 <= i < chunk_tokens(rules, c, base).len() ==> (#[trigger] chunk_tokens(rules, c, base)[i]).2
                == chunk_tokens(rules, c, base)[i].1 + chunk_tokens(rules, c, base)[i].0.len(),
        forall|i: int|
            0 <= i < chunk_tokens(rules, c, base).len() - 1 ==> (#[trigger] chunk_tokens(rules, c, base)[i]).2
                == chunk_tokens(rules, c, base)[i + 1].1,
{
    let p = chunk_pieces(rules, c);
    if exception_applies(rules, c) {
    } else if whole_match(rules.token_match, c) || whole_match(rules.url_match, c) {
        lemma_concat_all_one(c);
    } else {
        lemma_split_chunk_concat(rules, c);
    }
    assert(p.len() > 0) by {
        if p.len() == 0 {
            assert(concat_all(p) =~= Seq::<char>::empty());
        }
    }
    lemma_placed(p, base);
    lemma_placed_contiguous(p, base);
}

/// The end of the first non-empty match at the start of `s`, trying the
/// patterns in order; 0 when none matches there.
fn first_prefix_end(pats: &Vec<Pattern>, s: &str) -> (r: usize)
    ensures
        r as int == prefix_end(sources(pats@), s@, 0),
        r <= s@.len(),
{
    let mut i: usize = 0;
    while i < pats.len()
        invariant
            i <= pats.len(),
            prefix_end(sources(pats@), s@, 0) == prefix_end(sources(pats@), s@, i as int),
        decreases pats.len() - i,
    {
        assert(sources(pats@)[i as int] == pats@[i as int]@);
        match pats[i].find(s) {
            Some(m) => {
                if m.0 == 0 && m.1 > 0 {
                    return m.1;
                }
            },
            None => {},
        }
        i = i + 1;
    }
    0
}

/// The start of the last non-empty match in `ms` that ends at `n`.
fn last_anchored(ms: &Vec<(usize, usize)>, n: usize) -> (r: Option<usize>)
    ensures
        anchored_start(spans_as_int(ms@), n as int) == (match r {
            Some(a) => Some(a as int),
            None => None::<int>,
        }),
        r matches Some(a) ==> a < n,
{
    let mut k: usize = ms.len();
    proof {
        assert(ms@.take(k as int) =~= ms@);
    }
    while k > 0
        invariant
            k <= ms.len(),
            anchored_start(spans_as_int(ms@), n as int) == anchored_start(spans_as_int(ms@.take(k as int)), n as int),
        decreases k,
    {
        let m = ms[k - 1];
        proof {
            assert(spans_as_int(ms@.take(k as int)).drop_last() =~= spans_as_int(ms@.take(k as int - 1)));
            assert(spans_as_int(ms@.take(k as int)).last() == (m.0 as int, m.1 as int));
        }
        if m.1 == n && m.0 < m.1 {
            return Some(m.0);
        }
        k = k - 1;
    }
    None
}

/// The start of the suffix found by the first pattern with a non-empty
/// match ending at the end of `s`.
fn first_suffix_start(pats: &Vec<Pattern>, s: &str) -> (r: Option<usize>)
    ensures
        suffix_start(sources(pats@), s@, 0) == (match r {
            Some(a) => Some(a as int),
            None => None::<int>,
        }),
        r matches Some(a) ==> a < s@.len(),
{
    let n = s.unicode_len();
    let mut i: usize = 0;
    while i < pats.len()
        invariant
            i <= pats.len(),
            n == s@.len(),
            suffix_start(sources(pats@), s@, 0) == suffix_start(sources(pats@), s@, i as int),
        decreases pats.len() - i,
    {
        assert(sources(pats@)[i as int] == pats@[i as int]@);
        let ms = pats[i].find_all(s);
        match last_anchored(&ms, n) {
            Some(a) => {
                return Some(a);
            },
            None => {},
        }
        i = i + 1;
    }
    None
}

/// Appends the non-empty matches of `ms` to `candidates`.
fn push_proper(candidates: &mut Vec<(usize, usize)>, ms: &Vec<(usize, usize)>, n: usize)
    requires
        crate::external::spans_within(spans_as_int(ms@), n as int),
    ensures
        spans_as_int(final(candidates)@) == spans_as_int(old(candidates)@) + proper_only(spans_as_int(ms@), n as int),
{
    let ghost start = spans_as_int(candidates@);
    let mut k: usize = 0;
    while k < ms.len()
        invariant
            k <= ms.len(),
            crate::external::spans_within(spans_as_int(ms@), n as int),
            spans_as_int(candidates@) == start + proper_only(spans_as_int(ms@.take(k as int)), n as int),
        decreases ms.len() - k,
    {
        let m = ms[k];
        proof {
            assert(spans_as_int(ms@.take(k as int + 1)).drop_last() =~= spans_as_int(ms@.take(k as int)));
            assert(spans_as_int(ms@.take(k as int + 1)).last() == (m.0 as int, m.1 as int));
            assert(spans_as_int(ms@)[k as int] == (m.0 as int, m.1 as int));
            assert(0 <= spans_as_int(ms@)[k as int].0 <= spans_as_int(ms@)[k as int].1 <= n);
        }
        let ghost before = candidates@;
        if m.0 < m.1 {
            candidates.push(m);
            proof {
                let q = spans_as_int(ms@.take(k as int + 1));
                assert(proper_only(q, n as int) == proper_only(q.drop_last(), n as int).push(q.last()));
                assert(spans_as_int(candidates@) =~= spans_as_int(before).push((m.0 as int, m.1 as int)));
                assert(spans_as_int(candidates@) =~= start + proper_only(spans_as_int(ms@.take(k as int + 1)), n as int));
            }
        }
        k = k + 1;
    }
    proof {
        assert(ms@.take(k as int) =~= ms@);
    }
}

/// Splits a residual text at its infix boundaries: collects literal and
/// regex matches, resolves overlaps, and cuts the text around what is left.
pub fn simple_infix_tokenize_chunk_internal(
    chunk: &str,
    literal_matcher: Option<&LiteralMatcher>,
    regex_infixes: &Vec<Pattern>,
) -> (r: Vec<String>)
    ensures
        strings_view(r@) == infix_pieces(
            match literal_matcher {
                Some(m) => Some(m@),
                None => None,
            },
            sources(regex_infixes@),
            chunk@,
        ),
{
    let ghost lits = match literal_matcher {
        Some(m) => Some(m@),
        None => None::<Seq<Seq<char>>>,
    };
    let ghost pats = sources(regex_infixes@);
    if chunk.is_empty() {
        return Vec::new();
    }
    let n = chunk.unicode_len();
    let mut candidates: Vec<(usize, usize)> = Vec::new();
    match literal_matcher {
        Some(m) => {
            let ms = m.find_all(chunk);
            push_proper(&mut candidates, &ms, n);
        },
        None => {},
    }
    proof {
        assert(spans_as_int(candidates@) =~= match lits {
            Some(l) => proper_only(literal_matches(l, chunk@), n as int),
            None => Seq::empty(),
        });
    }
    let ghost from_literals = spans_as_int(candidates@);
    let mut i: usize = 0;
    while i < regex_infixes.len()
        invariant
            i <= regex_infixes.len(),
            n == chunk@.len(),
            pats == sources(regex_infixes@),
            spans_as_int(candidates@) == from_literals + regex_candidates(pats.take(i as int), chunk@),
        decreases regex_infixes.len() - i,
    {
        let ms = regex_infixes[i].find_all(chunk);
        proof {
            assert(pats.take(i as int + 1).drop_last() =~= pats.take(i as int));
            assert(pats.take(i as int + 1).last() == regex_infixes@[i as int]@);
        }
        push_proper(&mut candidates, &ms, n);
        proof {
            assert(spans_as_int(candidates@) =~= from_literals + regex_candidates(pats.take(i as int + 1), chunk@));
        }
        i = i + 1;
    }
    proof {
        assert(pats.take(i as int) =~= pats);
        assert(spans_as_int(candidates@) == infix_candidates(lits, pats, chunk@));
    }
    if candidates.len() == 0 {
        let mut whole: Vec<String> = Vec::new();
        whole.push(chunk.to_owned());
        proof {
            assert(strings_view(whole@) =~= seq![chunk@]);
        }
        return whole;
    }
    let spans = resolve_spans(&candidates);
    proof {
        lemma_infix_candidates_proper(lits, pats, chunk@);
        lemma_resolved_ordered(spans_as_int(candidates@), n as int);
    }
    split_at_spans(chunk, &spans)
}

/// Lays pieces end to end from `base`, giving each its absolute offsets.
fn place_pieces(pieces: &Vec<String>, base: usize) -> (r: Vec<(String, usize, usize)>)
    requires
        base + concat_all(strings_view(pieces@)).len() <= usize::MAX,
    ensures
        tokens_view(r@) == placed(strings_view(pieces@), base as int),
{
    let ghost p = strings_view(pieces@);
    let mut r: Vec<(String, usize, usize)> = Vec::new();
    let mut offset: usize = base;
    let mut i: usize = 0;
    while i < pieces.len()
        invariant
            i <= pieces.len(),
            p == strings_view(pieces@),
            base + concat_all(p).len() <= usize::MAX,
            offset as int == base + concat_all(p.take(i as int)).len(),
            tokens_view(r@) == placed(p.take(i as int), base as int),
        decreases pieces.len() - i,
    {
        let text = pieces[i].clone();
        let len = text.as_str().unicode_len();
        proof {
            assert(p.take(i as int + 1).drop_last() =~= p.take(i as int));
            assert(p.take(i as int + 1).last() == text@);
            assert(p =~= p.take(i as int + 1) + p.skip(i as int + 1));
            lemma_concat_all_append(p.take(i as int + 1), p.skip(i as int + 1));
        }
        r.push((text, offset, offset + len));
        offset = offset + len;
        proof {
            assert(tokens_view(r@) =~= placed(p.take(i as int + 1), base as int));
        }
        i = i + 1;
    }
    proof {
        assert(p.take(i as int) =~= p);
    }
    r
}

/// The surface texts of an exception entry, when together they are exactly
/// `n` characters long.
fn exception_pieces(entry: &Vec<ExceptionToken>, n: usize) -> (r: Option<Vec<String>>)
    ensures
        r.is_some() == (concat_all(orths(entry@)).len() == n),
        r matches Some(v) ==> strings_view(v@) == orths(entry@),
{
    let ghost o = orths(entry@);
    let mut total: usize = 0;
    let mut k: usize = 0;
    while k < entry.len()
        invariant
            k <= entry.len(),
            o == orths(entry@),
            total as int == concat_all(o.take(k as int)).len(),
            total <= n,
        decreases entry.len() - k,
    {
        let len = entry[k].orth.as_str().unicode_len();
        proof {
            assert(o.take(k as int + 1).drop_last() =~= o.take(k as int));
            assert(o.take(k as int + 1).last() == entry@[k as int].orth@);
        }
        if len > n - total {
            proof {
                assert(o =~= o.take(k as int + 1) + o.skip(k as int + 1));
                lemma_concat_all_append(o.take(k as int + 1), o.skip(k as int + 1));
            }
            return None;
        }
        total = total + len;
        k = k + 1;
    }
    proof {
        assert(o.take(k as int) =~= o);
    }
    if total != n {
        return None;
    }
    let mut v: Vec<String> = Vec::new();
    let mut j: usize = 0;
    while j < entry.len()
        invariant
            j <= entry.len(),
            o == orths(entry@),
            strings_view(v@) == o.take(j as int),
        decreases entry.len() - j,
    {
        let x = entry[j].orth.clone();
        let ghost before = strings_view(v@);
        v.push(x);
        proof {
            assert(x@ == o[j as int]);
            assert(strings_view(v@) =~= before.push(x@));
            assert(strings_view(v@) =~= o.take(j as int + 1));
        }
        j = j + 1;
    }
    proof {
        assert(o.take(j as int) =~= o);
    }
    Some(v)
}

/// Whether an optional pattern matches all of `c`.
fn matches_whole(p: &Option<Pattern>, c: &str, n: usize) -> (r: bool)
    requires
        n == c@.len(),
    ensures
        r == whole_match(*p, c@),
{
    match p {
        Some(p) => match p.find(c) {
            Some(m) => m.0 == 0 && m.1 == n,
            None => false,
        },
        None => false,
    }
}

/// General splitting of a chunk: prefixes peeled from the left, suffixes
/// from the right, infix segments of what is left in between.
fn split_chunk_pieces(c: &str, rules: &TokenizerRules) -> (r: Vec<String>)
    ensures
        strings_view(r@) == split_chunk(*rules, c@),
{
    let ghost pp = sources(rules.prefixes@);
    let ghost sp = sources(rules.suffixes@);
    let cl = c.unicode_len();
    let mut lo: usize = 0;
    let mut pieces: Vec<String> = Vec::new();
    proof {
        assert(c@.subrange(0, cl as int) =~= c@);
        assert(strip_prefixes(pp, c@).0 =~= strings_view(pieces@) + strip_prefixes(pp, c@).0);
    }
    loop
        invariant
            lo <= cl,
            cl == c@.len(),
            pp == sources(rules.prefixes@),
            strip_prefixes(pp, c@).0 == strings_view(pieces@) + strip_prefixes(pp, c@.subrange(lo as int, cl as int)).0,
            strip_prefixes(pp, c@).1 == strip_prefixes(pp, c@.subrange(lo as int, cl as int)).1,
        ensures
            lo <= cl,
            strip_prefixes(pp, c@).0 == strings_view(pieces@),
            strip_prefixes(pp, c@).1 == c@.subrange(lo as int, cl as int),
        decreases cl - lo,
    {
        if lo == cl {
            proof {
                assert(strings_view(pieces@) + Seq::<Seq<char>>::empty() =~= strings_view(pieces@));
            }
            break;
        }
        let cur = c.substring_char(lo, cl);
        let e = first_prefix_end(&rules.prefixes, cur);
        if e == 0 {
            proof {
                assert(strings_view(pieces@) + Seq::<Seq<char>>::empty() =~= strings_view(pieces@));
            }
            break;
        }
        let ghost before = strings_view(pieces@);
        let ghost rest = strip_prefixes(pp, cur@.subrange(e as int, cur@.len() as int));
        pieces.push(cur.substring_char(0, e).to_owned());
        proof {
            assert(cur@.subrange(e as int, cur@.len() as int) =~= c@.subrange(lo + e, cl as int));
            assert(strip_prefixes(pp, cur@) == (seq![cur@.subrange(0, e as int)] + rest.0, rest.1));
            assert(strings_view(pieces@) =~= before.push(cur@.subrange(0, e as int)));
            assert(before + (seq![cur@.subrange(0, e as int)] + rest.0) =~= strings_view(pieces@) + rest.0);
        }
        lo = lo + e;
    }
    let ghost rest0 = c@.subrange(lo as int, cl as int);
    let mut hi: usize = cl;
    let mut found: Vec<String> = Vec::new();
    proof {
        assert(c@.subrange(lo as int, hi as int) =~= rest0);
        assert(strip_suffixes(sp, rest0).0 =~= strings_view(found@) + strip_suffixes(sp, rest0).0);
    }
    loop
        invariant
            lo <= hi <= cl,
            cl == c@.len(),
            sp == sources(rules.suffixes@),
            strip_suffixes(sp, rest0).0 == strings_view(found@) + strip_suffixes(sp, c@.subrange(lo as int, hi as int)).0,
            strip_suffixes(sp, rest0).1 == strip_suffixes(sp, c@.subrange(lo as int, hi as int)).1,
        ensures
            lo <= hi <= cl,
            strip_suffixes(sp, rest0).0 == strings_view(found@),
            strip_suffixes(sp, rest0).1 == c@.subrange(lo as int, hi as int),
        decreases hi - lo,
    {
        if hi == lo {
            proof {
                assert(strings_view(found@) + Seq::<Seq<char>>::empty() =~= strings_view(found@));
            }
            break;
        }
        let cur = c.substring_char(lo, hi);
        match first_suffix_start(&rules.suffixes, cur) {
            Some(a) => {
                let ghost before = strings_view(found@);
                let ghost rest = strip_suffixes(sp, cur@.subrange(0, a as int));
                found.push(cur.substring_char(a, hi - lo).to_owned());
                proof {
                    assert(cur@.subrange(0, a as int) =~= c@.subrange(lo as int, lo + a));
                    assert(strip_suffixes(sp, cur@) == (seq![cur@.subrange(a as int, cur@.len() as int)] + rest.0, rest.1));
                    assert(strings_view(found@) =~= before.push(cur@.subrange(a as int, cur@.len() as int)));
                    assert(before + (seq![cur@.subrange(a as int, cur@.len() as int)] + rest.0) =~= strings_view(found@) + rest.0);
                }
                hi = lo + a;
            },
            None => {
                proof {
                    assert(strings_view(found@) + Seq::<Seq<char>>::empty() =~= strings_view(found@));
                }
                break;
            },
        }
    }
    let mid = c.substring_char(lo, hi);
    let lm: Option<&LiteralMatcher> = match &rules.literal_infix_matcher {
        Some(m) => Some(m),
        None => None,
    };
    let infixes = simple_infix_tokenize_chunk_internal(mid, lm, &rules.regex_infixes);
    let ghost pre = strings_view(pieces@);
    let mut i: usize = 0;
    while i < infixes.len()
        invariant
            i <= infixes.len(),
            strings_view(pieces@) == pre + strings_view(infixes@).take(i as int),
        decreases infixes.len() - i,
    {
        let x = infixes[i].clone();
        let ghost before = strings_view(pieces@);
        pieces.push(x);
        proof {
            assert(x@ == strings_view(infixes@)[i as int]);
            assert(strings_view(pieces@) =~= before.push(x@));
            assert(strings_view(pieces@) =~= pre + strings_view(infixes@).take(i as int + 1));
        }
        i = i + 1;
    }
    let ghost with_mid = strings_view(pieces@);
    let ghost fv = strings_view(found@);
    proof {
        assert(strings_view(infixes@).take(i as int) =~= strings_view(infixes@));
    }
    let mut k: usize = found.len();
    while k > 0
        invariant
            k <= found.len(),
            fv == strings_view(found@),
            strings_view(pieces@) == with_mid + fv.skip(k as int).reverse(),
        decreases k,
    {
        let x = found[k - 1].clone();
        let ghost before = strings_view(pieces@);
        pieces.push(x);
        proof {
            assert(x@ == fv[k as int - 1]);
            assert(strings_view(pieces@) =~= before.push(x@));
            assert(fv.skip(k as int - 1).reverse() =~= fv.skip(k as int).reverse().push(fv[k as int - 1]));
            assert(strings_view(pieces@) =~= with_mid + fv.skip(k as int - 1).reverse());
        }
        k = k - 1;
    }
    proof {
        assert(fv.skip(0) =~= fv);
    }
    if pieces.len() == 0 {
        pieces.push(c.to_owned());
        proof {
            assert(strings_view(pieces@) =~= seq![c@]);
        }
    }
    pieces
}

/// Tokenizes one chunk at absolute character offset `base_char_offset`: by
/// its exception entry when that covers it, as one token when the
/// whole-token or URL pattern matches all of it, and otherwise by prefix,
/// suffix and infix splitting.
pub fn tokenize_chunk(
    chunk: &str,
    rules: &TokenizerRules,
    base_char_offset: usize,
) -> (r: Vec<(String, usize, usize)>)
    requires
        base_char_offset + chunk@.len() <= usize::MAX,
    ensures
        tokens_view(r@) == chunk_tokens(*rules, chunk@, base_char_offset as int),
{
    let c = chunk;
    let cl = c.unicode_len();
    if cl == 0 {
        let empty: Vec<(String, usize, usize)> = Vec::new();
        proof {
            assert(tokens_view(empty@) =~= Seq::<(Seq<char>, int, int)>::empty());
        }
        return empty;
    }
    match rules.exceptions.get(c) {
        Some(entry) => match exception_pieces(entry, cl) {
            Some(pieces) => {
                return place_pieces(&pieces, base_char_offset);
            },
            None => {},
        },
        None => {},
    }
    if matches_whole(&rules.token_match, c, cl) || matches_whole(&rules.url_match, c, cl) {
        let mut one: Vec<String> = Vec::new();
        one.push(c.to_owned());
        proof {
            assert(strings_view(one@) =~= seq![c@]);
            lemma_concat_all_one(c@);
        }
        return place_pieces(&one, base_char_offset);
    }
    let pieces = split_chunk_pieces(c, rules);
    proof {
        lemma_split_chunk_concat(*rules, c@);
    }
    place_pieces(&pieces, base_char_offset)
}

/// Exception precedence: a non-empty chunk whose exception entry is exactly
/// as long as the chunk yields that entry's surface texts, whatever the
/// other rules would make of it.
pub proof fn lemma_exception_precedence(rules: TokenizerRules, c: Seq<char>, base: int)
    requires
        c.len() > 0,
        rules.exceptions@.contains_key(c),
        concat_all(orths(rules.exceptions@[c]@)).len() == c.len(),
    ensures
        chunk_pieces(rules, c) == orths(rules.exceptions@[c]@),
        chunk_tokens(rules, c, base) == placed(orths(rules.exceptions@[c]@), base),
{
}

/// No-rule fallback: a non-empty chunk with no exception entry, no
/// whole-token or URL match, no prefix, no suffix and no infix candidate is
/// one token spanning all of it.
pub proof fn lemma_no_rule_fallback(rules: TokenizerRules, c: Seq<char>, base: int)
    requires
        c.len() > 0,
        !rules.exceptions@.contains_key(c),
        !whole_match(rules.token_match, c),
        !whole_match(rules.url_match, c),
        prefix_end(sources(rules.prefixes@), c, 0) == 0,
        suffix_start(sources(rules.suffixes@), c, 0) is None,
        infix_candidates(literals_of(rules.literal_infix_matcher), sources(rules.regex_infixes@), c).len() == 0,
    ensures
        chunk_tokens(rules, c, base) == seq![(c, base, base + c.len())],
{
    let pre = strip_prefixes(sources(rules.prefixes@), c);
    assert(pre == (Seq::<Seq<char>>::empty(), c));
    let suf = strip_suffixes(sources(rules.suffixes@), c);
    assert(suf == (Seq::<Seq<char>>::empty(), c));
    assert(Seq::<Seq<char>>::empty().reverse() =~= Seq::<Seq<char>>::empty());
    assert(split_chunk(rules, c) =~= seq![c]);
    let p = seq![c];
    assert(p.drop_last() =~= Seq::<Seq<char>>::empty());
    assert(concat_all(Seq::<Seq<char>>::empty()) =~= Seq::<char>::empty());
    assert(placed(Seq::<Seq<char>>::empty(), base) =~= Seq::<(Seq<char>, int, int)>::empty());
    assert(chunk_tokens(rules, c, base) =~= seq![(c, base, base + c.len())]);
}

/// Each piece of a tiling sits in the text at the position where the
/// pieces before it end.
pub proof fn lemma_piece_in_text(pieces: Seq<Seq<char>>, c: Seq<char>, k: int)
    requires
        concat_all(pieces) == c,
        0 <= k < pieces.len(),
    ensures
        concat_all(pieces.take(k)).len() + pieces[k].len() <= c.len(),
        pieces[k] == c.subrange(
            concat_all(pieces.take(k)).len() as int,
            (concat_all(pieces.take(k)).len() + pieces[k].len()) as int,
        ),
{
    let a = pieces.take(k + 1);
    let b = pieces.skip(k + 1);
    assert(pieces =~= a + b);
    lemma_concat_all_append(a, b);
    assert(a.drop_last() =~= pieces.take(k));
    assert(a.last() == pieces[k]);
    let pre = concat_all(pieces.take(k));
    assert(concat_all(a) == pre + pieces[k]);
    assert(c == pre + pieces[k] + concat_all(b));
    assert(c.subrange(pre.len() as int, (pre.len() + pieces[k].len()) as int) =~= pieces[k]);
}

/// Placed pieces lie between `base` and the end of all of them.
pub proof fn lemma_placed_bounds(p: Seq<Seq<char>>, base: int)
    ensures
        forall|i: int|
            0 <= i < placed(p, base).len() ==> base <= (#[trigger] placed(p, base)[i]).1 <= placed(p, base)[i].2 <= base
                + concat_all(p).len(),
{
    lemma_placed(p, base);
    assert forall|i: int|
        0 <= i < placed(p, base).len() implies base <= (#[trigger] placed(p, base)[i]).1 <= placed(p, base)[i].2 <= base
            + concat_all(p).len() by {
        let a = p.take(i + 1);
        let b = p.skip(i + 1);
        assert(p =~= a + b);
        lemma_concat_all_append(a, b);
        assert(a.drop_last() =~= p.take(i));
        assert(a.last() == p[i]);
    }
}

/// Every token of a non-empty chunk lies within the chunk, whatever the
/// exception table holds.
pub proof fn lemma_chunk_tokens_bounds(rules: TokenizerRules, c: Seq<char>, base: int)
    requires
        c.len() > 0,
    ensures
        forall|i: int|
            0 <= i < chunk_tokens(rules, c, base).len() ==> base <= (#[trigger] chunk_tokens(rules, c, base)[i]).1
                <= chunk_tokens(rules, c, base)[i].2 <= base + c.len(),
{
    lemma_chunk_tiling(rules, c, base);
    lemma_placed_bounds(chunk_pieces(rules, c), base);
}

/// Pieces that tile `c`, laid from `base`: each is the text of `c` at its
/// offsets, and lies within `c`.
pub proof fn lemma_placed_in_text(p: Seq<Seq<char>>, c: Seq<char>, base: int)
    requires
        concat_all(p) == c,
    ensures
        forall|i: int|
            0 <= i < placed(p, base).len() ==> {
                let t = #[trigger] placed(p, base)[i];
                &&& base <= t.1 <= t.2 <= base + c.len()
                &&& t.0 == c.subrange(t.1 - base, t.2 - base)
            },
{
    lemma_placed(p, base);
    assert forall|i: int| 0 <= i < placed(p, base).len() implies {
        let t = #[trigger] placed(p, base)[i];
        &&& base <= t.1 <= t.2 <= base + c.len()
        &&& t.0 == c.subrange(t.1 - base, t.2 - base)
    } by {
        lemma_piece_in_text(p, c, i);
    }
}

/// Every token of a chunk whose exception entry spells it out wherever it
/// applies is the chunk's text at the token's offsets, and lies within the
/// chunk.
pub proof fn lemma_chunk_tokens_in_text(rules: TokenizerRules, c: Seq<char>, base: int)
    requires
        c.len() > 0,
        exception_applies(rules, c) ==> concat_all(orths(rules.exceptions@[c]@)) == c,
    ensures
        forall|i: int|
            0 <= i < chunk_tokens(rules, c, base).len() ==> {
                let t = #[trigger] chunk_tokens(rules, c, base)[i];
                &&& base <= t.1 <= t.2 <= base + c.len()
                &&& t.0 == c.subrange(t.1 - base, t.2 - base)
            },
{
    lemma_chunk_tiling(rules, c, base);
    lemma_placed_in_text(chunk_pieces(rules, c), c, base);
}

} // verus!
