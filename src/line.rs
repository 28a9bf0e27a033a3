//! Line tokenization: whitespace chunking, per-chunk tokenization, and
//! reassembly of per-chunk results in chunk-offset order.

use vstd::prelude::*;
use vstd::multiset::Multiset;
use vstd::relations::sorted_by;
use vstd::string::StrSliceExecFns;
use vstd::std_specs::iter::IteratorSpec;
use crate::chunk::{
    chunk_tokens, lemma_chunk_tiling, lemma_chunk_tokens_bounds, lemma_chunk_tokens_in_text, tokenize_chunk, tokens_view,
};
use crate::exceptions::{applied_entries_spell, orths};
use crate::order::{lemma_sorted_arrangement_unique, lemma_sorted_insert};
use crate::spans::concat_all;
use crate::rules::TokenizerRules;

verus! {

broadcast use vstd::seq_lib::group_to_multiset_ensures;

/// The Unicode `White_Space` characters, which `char::is_whitespace` tests.
pub open spec fn is_white_space(c: char) -> bool {
    let u = c as u32;
    (0x09 <= u && u <= 0x0D) || u == 0x20 || u == 0x85 || u == 0xA0 || u == 0x1680 || (0x2000 <= u
        && u <= 0x200A) || u == 0x2028 || u == 0x2029 || u == 0x202F || u == 0x205F || u == 0x3000
}

/// Whether `c` is a Unicode whitespace character.
pub fn is_whitespace_char(c: char) -> (r: bool)
    ensures
        r == is_white_space(c),
{
    let u = c as u32;
    (0x09 <= u && u <= 0x0D) || u == 0x20 || u == 0x85 || u == 0xA0 || u == 0x1680 || (0x2000 <= u
        && u <= 0x200A) || u == 0x2028 || u == 0x2029 || u == 0x202F || u == 0x205F || u == 0x3000
}

/// The characters of a string, in order.
pub fn chars_of(s: &str) -> (r: Vec<char>)
    ensures
        r@ == s@,
{
    let n = s.unicode_len();
    let mut it = s.chars();
    let mut v: Vec<char> = Vec::new();
    let mut i: usize = 0;
    while i < n
        invariant
            i <= n,
            n == s@.len(),
            v@.len() == i,
            v@ + it.remaining() == s@,
        decreases n - i,
    {
        match it.next() {
            Some(c) => {
                v.push(c);
            },
            None => {
                assert(false);
            },
        }
        i = i + 1;
    }
    proof {
        assert(v@ =~= s@);
    }
    v
}

/// The maximal whitespace-free runs of `s`, each with the character offset
/// where it starts.
pub open spec fn line_chunks(s: Seq<char>) -> Seq<(int, Seq<char>)>
    decreases s.len(),
{
    if s.len() == 0 {
        Seq::empty()
    } else {
        let prev = line_chunks(s.drop_last());
        let n = s.len() - 1;
        let c = s[n];
        if is_white_space(c) {
            prev
        } else if n > 0 && !is_white_space(s[n - 1]) && prev.len() > 0 {
            prev.update(prev.len() - 1, (prev.last().0, prev.last().1.push(c)))
        } else {
            prev.push((n, seq![c]))
        }
    }
}

pub open spec fn chunks_view(v: Seq<(usize, String)>) -> Seq<(int, Seq<char>)> {
    v.map_values(|x: (usize, String)| (x.0 as int, x.1@))
}

/// Each chunk is the non-empty text of `s` at its offset, and the offsets
/// strictly increase.
pub open spec fn chunks_in(ch: Seq<(int, Seq<char>)>, s: Seq<char>) -> bool {
    &&& forall|i: int|
        0 <= i < ch.len() ==> 0 <= (#[trigger] ch[i]).0 && ch[i].1.len() > 0 && ch[i].0 + ch[i].1.len()
            <= s.len() && ch[i].1 == s.subrange(ch[i].0, ch[i].0 + ch[i].1.len())
    &&& forall|i: int, j: int| 0 <= i < j < ch.len() ==> (#[trigger] ch[i]).0 + ch[i].1.len() < (#[trigger] ch[j]).0
    &&& forall|i: int, k: int| 0 <= i < ch.len() && 0 <= k < ch[i].1.len() ==> !is_white_space(#[trigger] ch[i].1[k])
}

pub proof fn lemma_line_chunks_in(s: Seq<char>)
    ensures
        chunks_in(line_chunks(s), s),
        line_chunks(s).len() > 0 ==> line_chunks(s).last().0 + line_chunks(s).last().1.len() <= s.len(),
        line_chunks(s).len() > 0 && s.len() > 0 && !is_white_space(s.last()) ==> line_chunks(s).last().0
            + line_chunks(s).last().1.len() == s.len(),
        s.len() > 0 && !is_white_space(s.last()) ==> line_chunks(s).len() > 0,
    decreases s.len(),
{
    if s.len() > 0 {
        let p = s.drop_last();
        lemma_line_chunks_in(p);
        let prev = line_chunks(p);
        let n = s.len() - 1;
        let c = s[n];
        let ch = line_chunks(s);
        if prev.len() > 0 {
            assert(prev.last() == prev[prev.len() - 1]);
        }
        if is_white_space(c) {
            assert forall|i: int| 0 <= i < ch.len() implies (#[trigger] ch[i]).1 == s.subrange(ch[i].0, ch[i].0 + ch[i].1.len()) by {
                assert(prev[i].1 == p.subrange(prev[i].0, prev[i].0 + prev[i].1.len()));
                assert(p.subrange(prev[i].0, prev[i].0 + prev[i].1.len()) =~= s.subrange(prev[i].0, prev[i].0 + prev[i].1.len()));
            }
        } else if n > 0 && !is_white_space(s[n - 1]) && prev.len() > 0 {
            assert(p.last() == s[n - 1]);
            let k = prev.len() - 1;
            assert forall|i: int| 0 <= i < ch.len() implies (#[trigger] ch[i]).1 == s.subrange(ch[i].0, ch[i].0 + ch[i].1.len()) by {
                if i < k {
                    assert(p.subrange(prev[i].0, prev[i].0 + prev[i].1.len()) =~= s.subrange(prev[i].0, prev[i].0 + prev[i].1.len()));
                } else {
                    assert(prev[k].1 == p.subrange(prev[k].0, prev[k].0 + prev[k].1.len()));
                    assert(ch[i].1 =~= s.subrange(ch[i].0, ch[i].0 + ch[i].1.len()));
                }
            }
            assert forall|i: int, j: int| 0 <= i < j < ch.len() implies (#[trigger] ch[i]).0 + ch[i].1.len() < (#[trigger] ch[j]).0 by {
                assert(prev[i].0 + prev[i].1.len() < prev[j].0);
            }
            assert forall|i: int, q: int| 0 <= i < ch.len() && 0 <= q < ch[i].1.len() implies !is_white_space(#[trigger] ch[i].1[q]) by {
                if i == k && q < prev[k].1.len() {
                    assert(ch[i].1[q] == prev[k].1[q]);
                }
            }
        } else {
            assert forall|i: int| 0 <= i < ch.len() implies (#[trigger] ch[i]).1 == s.subrange(ch[i].0, ch[i].0 + ch[i].1.len()) by {
                if i < prev.len() {
                    assert(prev[i].1 == p.subrange(prev[i].0, prev[i].0 + prev[i].1.len()));
                    assert(p.subrange(prev[i].0, prev[i].0 + prev[i].1.len()) =~= s.subrange(prev[i].0, prev[i].0 + prev[i].1.len()));
                } else {
                    assert(ch[i].1 =~= s.subrange(ch[i].0, ch[i].0 + ch[i].1.len()));
                }
            }
            assert forall|i: int, j: int| 0 <= i < j < ch.len() implies (#[trigger] ch[i]).0 + ch[i].1.len() < (#[trigger] ch[j]).0 by {
                if j == prev.len() && prev.len() > 0 {
                    let l = prev.last();
                    assert(prev[i].0 + prev[i].1.len() <= l.0 + l.1.len());
                    assert(p.last() == s[n - 1]);
                    if l.0 + l.1.len() == n {
                        assert(l.1[l.1.len() - 1] == p[n - 1]);
                    }
                } else if j < prev.len() {
                    assert(prev[i].0 + prev[i].1.len() < prev[j].0);
                }
            }
        }
    }
}

/// Splits a line into its whitespace-free chunks with their character
/// offsets.
pub fn split_chunks(line: &str) -> (r: Vec<(usize, String)>)
    ensures
        chunks_view(r@) == line_chunks(line@),
{
    let cs = chars_of(line);
    let mut r: Vec<(usize, String)> = Vec::new();
    let mut start: usize = 0;
    let mut inside = false;
    let mut i: usize = 0;
    while i < cs.len()
        invariant
            i <= cs.len(),
            cs@ == line@,
            inside <==> (i > 0 && !is_white_space(cs@[i - 1])),
            inside ==> start < i,
            inside ==> line_chunks(cs@.take(i as int)) == chunks_view(r@).push(
                (start as int, cs@.subrange(start as int, i as int)),
            ),
            !inside ==> line_chunks(cs@.take(i as int)) == chunks_view(r@),
        decreases cs.len() - i,
    {
        let c = cs[i];
        let ws = is_whitespace_char(c);
        let ghost before = chunks_view(r@);
        proof {
            assert(cs@.take(i as int + 1).drop_last() =~= cs@.take(i as int));
            assert(cs@.take(i as int + 1).last() == c);
            if i > 0 {
                assert(cs@.take(i as int + 1)[i - 1] == cs@[i - 1]);
            }
        }
        if ws {
            if inside {
                let text = line.substring_char(start, i).to_owned();
                r.push((start, text));
                inside = false;
                proof {
                    assert(chunks_view(r@) =~= before.push((start as int, cs@.subrange(start as int, i as int))));
                }
            }
        } else {
            if inside {
                proof {
                    assert(cs@.subrange(start as int, i as int + 1) =~= cs@.subrange(start as int, i as int).push(c));
                    assert(line_chunks(cs@.take(i as int + 1)) =~= before.push((start as int, cs@.subrange(start as int, i as int + 1))));
                }
            } else {
                start = i;
                inside = true;
                proof {
                    assert(cs@.subrange(start as int, i as int + 1) =~= seq![c]);
                }
            }
        }
        i = i + 1;
    }
    proof {
        assert(cs@.take(i as int) =~= cs@);
    }
    if inside {
        let ghost before = chunks_view(r@);
        let text = line.substring_char(start, i).to_owned();
        r.push((start, text));
        proof {
            assert(chunks_view(r@) =~= before.push((start as int, cs@.subrange(start as int, i as int))));
        }
    }
    r
}

/// The tokens of the chunks `ch` of a line starting at offset `base`, chunk
/// by chunk.
pub open spec fn line_tokens(rules: TokenizerRules, ch: Seq<(int, Seq<char>)>, base: int) -> Seq<(Seq<char>, int, int)>
    decreases ch.len(),
{
    if ch.len() == 0 {
        Seq::empty()
    } else {
        line_tokens(rules, ch.drop_last(), base) + chunk_tokens(rules, ch.last().1, base + ch.last().0)
    }
}

/// The tokens of `line` at absolute offset `base`.
pub open spec fn tokenized_line(rules: TokenizerRules, line: Seq<char>, base: int) -> Seq<(Seq<char>, int, int)> {
    line_tokens(rules, line_chunks(line), base)
}

/// Tokenizes one line whose first character is at absolute offset
/// `base_offset`: each whitespace-free chunk in turn, in line order.
pub fn tokenize_line(line: &str, rules: &TokenizerRules, base_offset: usize) -> (r: Vec<(String, usize, usize)>)
    requires
        base_offset + line@.len() <= usize::MAX,
    ensures
        tokens_view(r@) == tokenized_line(*rules, line@, base_offset as int),
{
    let chunks = split_chunks(line);
    let ghost ch = chunks_view(chunks@);
    proof {
        lemma_line_chunks_in(line@);
    }
    let mut out: Vec<(String, usize, usize)> = Vec::new();
    let mut i: usize = 0;
    while i < chunks.len()
        invariant
            i <= chunks.len(),
            ch == chunks_view(chunks@),
            ch == line_chunks(line@),
            chunks_in(ch, line@),
            base_offset + line@.len() <= usize::MAX,
            tokens_view(out@) == line_tokens(*rules, ch.take(i as int), base_offset as int),
        decreases chunks.len() - i,
    {
        let off = chunks[i].0;
        let text = &chunks[i].1;
        proof {
            assert(ch[i as int] == (off as int, text@));
            assert(ch.take(i as int + 1).drop_last() =~= ch.take(i as int));
            assert(ch.take(i as int + 1).last() == ch[i as int]);
        }
        let mut toks = tokenize_chunk(text.as_str(), rules, base_offset + off);
        let ghost before = tokens_view(out@);
        let ghost added = tokens_view(toks@);
        out.append(&mut toks);
        proof {
            assert(tokens_view(out@) =~= before + added);
        }
        i = i + 1;
    }
    proof {
        assert(ch.take(i as int) =~= ch);
    }
    out
}

/// The document offset of the line after one that starts at `offset`:
/// past the line's characters and its terminator (empty for the last line
/// of a document without one); `None` when that does not fit in `usize`.
pub fn next_line_offset(offset: usize, line: &str, terminator: &str) -> (r: Option<usize>)
    ensures
        r is Some <==> offset + line@.len() + terminator@.len() <= usize::MAX,
        r matches Some(n) ==> n == offset + line@.len() + terminator@.len(),
{
    let a = line.unicode_len();
    let b = terminator.unicode_len();
    if a > usize::MAX - offset || b > usize::MAX - offset - a {
        None
    } else {
        Some(offset + a + b)
    }
}

/// Tokens of one chunk, tagged with the chunk's offset in its line.
pub type ChunkTokens = (usize, Vec<(String, usize, usize)>);

pub open spec fn offset_order() -> spec_fn(ChunkTokens, ChunkTokens) -> bool {
    |x: ChunkTokens, y: ChunkTokens| x.0 <= y.0
}

/// The tokens of tagged chunk results, one result after another.
pub open spec fn flatten_results(s: Seq<ChunkTokens>) -> Seq<(Seq<char>, int, int)>
    decreases s.len(),
{
    if s.len() == 0 {
        Seq::empty()
    } else {
        flatten_results(s.drop_last()) + tokens_view(s.last().1@)
    }
}

/// `out` is the tokens of `results` put in chunk-offset order.
pub open spec fn assembled(results: Seq<ChunkTokens>, out: Seq<(Seq<char>, int, int)>) -> bool {
    exists|s: Seq<ChunkTokens>|
        sorted_by(s, offset_order()) && s.to_multiset() == results.to_multiset() && out == flatten_results(s)
}

/// No two results carry the same chunk offset.
pub open spec fn offsets_distinct(s: Seq<ChunkTokens>) -> bool {
    forall|i: int, j: int| 0 <= i < s.len() && 0 <= j < s.len() && s[i].0 == s[j].0 ==> i == j
}

/// Puts per-chunk token lists, which may arrive in any order, back in
/// chunk-offset order and joins them into the line's token list.
pub fn assemble_chunk_tokens(results: Vec<ChunkTokens>) -> (r: Vec<(String, usize, usize)>)
    ensures
        assembled(results@, tokens_view(r@)),
{
    let ghost all = results@;
    let mut rest = results;
    let mut sorted: Vec<ChunkTokens> = Vec::new();
    while rest.len() > 0
        invariant
            sorted_by(sorted@, offset_order()),
            sorted@.to_multiset().add(rest@.to_multiset()) == all.to_multiset(),
        decreases rest.len(),
    {
        let ghost before_rest = rest@;
        let x = rest.pop().unwrap();
        proof {
            assert(before_rest =~= rest@.push(x));
        }
        let mut j: usize = 0;
        while j < sorted.len() && sorted[j].0 <= x.0
            invariant
                j <= sorted.len(),
                forall|k: int| 0 <= k < j ==> (#[trigger] sorted@[k]).0 <= x.0,
            decreases sorted.len() - j,
        {
            j = j + 1;
        }
        let ghost old_sorted = sorted@;
        proof {
            assert forall|k: int| j <= k < old_sorted.len() implies offset_order()(x, #[trigger] old_sorted[k]) by {
                if k > j {
                    assert(offset_order()(old_sorted[j as int], old_sorted[k]));
                }
            }
            lemma_sorted_insert(old_sorted, j as int, x, offset_order());
        }
        sorted.insert(j, x);
        proof {
            assert(sorted@.to_multiset().add(rest@.to_multiset()) =~= all.to_multiset());
        }
    }
    proof {
        assert(rest@.to_multiset() =~= Multiset::<ChunkTokens>::empty());
        assert(sorted@.to_multiset() =~= all.to_multiset());
    }
    let ghost order = sorted@;
    let total = sorted.len();
    let mut out: Vec<(String, usize, usize)> = Vec::new();
    let mut k: usize = 0;
    while sorted.len() > 0
        invariant
            k + sorted@.len() == order.len(),
            order.len() == total,
            sorted@ == order.skip(k as int),
            tokens_view(out@) == flatten_results(order.take(k as int)),
        decreases sorted.len(),
    {
        let (_, mut toks) = sorted.remove(0);
        let ghost before = tokens_view(out@);
        let ghost added = tokens_view(toks@);
        proof {
            assert(order.take(k as int + 1).drop_last() =~= order.take(k as int));
            assert(order.take(k as int + 1).last() == order[k as int]);
        }
        out.append(&mut toks);
        proof {
            assert(tokens_view(out@) =~= before + added);
            assert(sorted@ =~= order.skip(k as int + 1));
        }
        k = k + 1;
    }
    proof {
        assert(order.take(k as int) =~= order);
    }
    out
}

/// Order determinism: per-chunk results that arrive in different orders
/// assemble into the same token list, as long as no two of them carry the
/// same chunk offset.
pub proof fn lemma_assembly_order_independent(
    a: Seq<ChunkTokens>,
    b: Seq<ChunkTokens>,
    out_a: Seq<(Seq<char>, int, int)>,
    out_b: Seq<(Seq<char>, int, int)>,
)
    requires
        a.to_multiset() == b.to_multiset(),
        offsets_distinct(a),
        assembled(a, out_a),
        assembled(b, out_b),
    ensures
        out_a == out_b,
{
    let sa = choose|s: Seq<ChunkTokens>|
        sorted_by(s, offset_order()) && s.to_multiset() == a.to_multiset() && out_a == flatten_results(s);
    let sb = choose|s: Seq<ChunkTokens>|
        sorted_by(s, offset_order()) && s.to_multiset() == b.to_multiset() && out_b == flatten_results(s);
    lemma_same_offsets_same_result(sa, a);
    lemma_sorted_arrangement_unique(sa, sb, offset_order());
}

/// Within an arrangement of results with distinct offsets, two results
/// that precede each other are the same.
proof fn lemma_same_offsets_same_result(s: Seq<ChunkTokens>, a: Seq<ChunkTokens>)
    requires
        s.to_multiset() == a.to_multiset(),
        offsets_distinct(a),
    ensures
        forall|x: ChunkTokens, y: ChunkTokens|
            s.contains(x) && s.contains(y) && offset_order()(x, y) && offset_order()(y, x) ==> x == y,
{
    assert forall|x: ChunkTokens, y: ChunkTokens|
        s.contains(x) && s.contains(y) && offset_order()(x, y) && offset_order()(y, x) implies x == y by {
        assert(s.to_multiset().count(x) > 0);
        assert(s.to_multiset().count(y) > 0);
        assert(a.contains(x));
        assert(a.contains(y));
        let i = choose|i: int| 0 <= i < a.len() && a[i] == x;
        let j = choose|j: int| 0 <= j < a.len() && a[j] == y;
    }
}

/// Parallel tokenization of a line matches sequential tokenization: when
/// the chunk results, tagged with their offsets, arrive in any order and
/// are assembled, the tokens are those of [`tokenize_line`].
pub proof fn lemma_assembly_matches_sequential(
    rules: TokenizerRules,
    line: Seq<char>,
    base: int,
    tagged: Seq<ChunkTokens>,
    arrived: Seq<ChunkTokens>,
    out: Seq<(Seq<char>, int, int)>,
)
    requires
        tagged.len() == line_chunks(line).len(),
        forall|i: int|
            0 <= i < tagged.len() ==> (#[trigger] tagged[i]).0 as int == line_chunks(line)[i].0
                && tokens_view(tagged[i].1@) == chunk_tokens(rules, line_chunks(line)[i].1, base + line_chunks(line)[i].0),
        arrived.to_multiset() == tagged.to_multiset(),
        assembled(arrived, out),
    ensures
        out == tokenized_line(rules, line, base),
{
    let ch = line_chunks(line);
    lemma_line_chunks_in(line);
    assert(sorted_by(tagged, offset_order())) by {
        assert forall|i: int, j: int| 0 <= i < j < tagged.len() implies #[trigger] offset_order()(tagged[i], tagged[j]) by {
            assert(ch[i].0 + ch[i].1.len() < ch[j].0);
        }
    }
    assert(offsets_distinct(tagged)) by {
        assert forall|i: int, j: int| 0 <= i < tagged.len() && 0 <= j < tagged.len() && tagged[i].0 == tagged[j].0 implies i == j by {
            if i < j {
                assert(ch[i].0 + ch[i].1.len() < ch[j].0);
            } else if j < i {
                assert(ch[j].0 + ch[j].1.len() < ch[i].0);
            }
        }
    }
    let s = choose|s: Seq<ChunkTokens>|
        sorted_by(s, offset_order()) && s.to_multiset() == arrived.to_multiset() && out == flatten_results(s);
    lemma_same_offsets_same_result(s, tagged);
    lemma_sorted_arrangement_unique(s, tagged, offset_order());
    lemma_flatten_tagged(rules, ch, base, tagged);
}

proof fn lemma_flatten_tagged(rules: TokenizerRules, ch: Seq<(int, Seq<char>)>, base: int, tagged: Seq<ChunkTokens>)
    requires
        tagged.len() == ch.len(),
        forall|i: int|
            0 <= i < tagged.len() ==> tokens_view((#[trigger] tagged[i]).1@) == chunk_tokens(rules, ch[i].1, base + ch[i].0),
    ensures
        flatten_results(tagged) == line_tokens(rules, ch, base),
    decreases ch.len(),
{
    if ch.len() > 0 {
        let n = ch.len() - 1;
        assert(tokens_view(tagged[n].1@) == chunk_tokens(rules, ch[n].1, base + ch[n].0));
        lemma_flatten_tagged(rules, ch.drop_last(), base, tagged.drop_last());
    }
}

/// Offset monotonicity: on a line with at most one chunk, starting at the
/// line's first character, the first token starts at the line's base offset and each token ends
/// where the next starts.
pub proof fn lemma_line_offsets_contiguous(rules: TokenizerRules, line: Seq<char>, base: int)
    requires
        line_chunks(line).len() <= 1,
        line_chunks(line).len() == 1 ==> line_chunks(line)[0].0 == 0,
    ensures
        tokenized_line(rules, line, base).len() > 0 ==> tokenized_line(rules, line, base)[0].1 == base,
        forall|i: int|
            0 <= i < tokenized_line(rules, line, base).len() - 1 ==> (#[trigger] tokenized_line(rules, line, base)[i]).2
                == tokenized_line(rules, line, base)[i + 1].1,
{
    let ch = line_chunks(line);
    if ch.len() == 0 {
        assert(tokenized_line(rules, line, base) =~= Seq::<(Seq<char>, int, int)>::empty());
    } else {
        lemma_line_chunks_in(line);
        let c = ch[0].1;
        assert(ch.drop_last() =~= Seq::<(int, Seq<char>)>::empty());
        assert(ch.last() == (0int, c));
        assert(line_tokens(rules, ch.drop_last(), base) =~= Seq::<(Seq<char>, int, int)>::empty());
        assert(tokenized_line(rules, line, base) == Seq::<(Seq<char>, int, int)>::empty() + chunk_tokens(rules, c, base));
        assert(tokenized_line(rules, line, base) =~= chunk_tokens(rules, c, base));
        lemma_chunk_tiling(rules, c, base);
    }
}

/// Where the last chunk ends; 0 when there is none.
pub open spec fn chunks_end(ch: Seq<(int, Seq<char>)>) -> int {
    if ch.len() == 0 {
        0
    } else {
        ch.last().0 + ch.last().1.len()
    }
}

/// Outside its chunks a line is whitespace: before the first, between any
/// two, and after the last.
proof fn lemma_line_chunks_bounds(s: Seq<char>)
    ensures
        forall|i: int|
            0 <= i < line_chunks(s).len() ==> 0 <= (#[trigger] line_chunks(s)[i]).0 && line_chunks(s)[i].0
                + line_chunks(s)[i].1.len() <= s.len(),
{
    lemma_line_chunks_in(s);
}

#[verifier::rlimit(40)]
pub proof fn lemma_line_chunks_gaps(s: Seq<char>)
    ensures
        forall|k: int| chunks_end(line_chunks(s)) <= k < s.len() ==> is_white_space(#[trigger] s[k]),
        line_chunks(s).len() > 0 ==> forall|k: int| 0 <= k < line_chunks(s)[0].0 ==> is_white_space(#[trigger] s[k]),
        forall|i: int, k: int|
            #![trigger line_chunks(s)[i], s[k]]
            0 < i < line_chunks(s).len() && line_chunks(s)[i - 1].0 + line_chunks(s)[i - 1].1.len() <= k
                < line_chunks(s)[i].0 ==> is_white_space(s[k]),
    decreases s.len(),
{
    if s.len() > 0 {
        let p = s.drop_last();
        lemma_line_chunks_gaps(p);
        lemma_line_chunks_bounds(p);
        let prev = line_chunks(p);
        let ch = line_chunks(s);
        let n = s.len() - 1;
        let c = s[n];
        assert forall|k: int| 0 <= k < n implies s[k] == p[k] by {}
        if prev.len() > 0 {
            assert(prev.last() == prev[prev.len() - 1]);
        }
        if is_white_space(c) {
            assert(ch == prev);
            if prev.len() > 0 {
                assert(0 <= prev[prev.len() - 1].0);
            }
            assert forall|k: int| chunks_end(ch) <= k < s.len() implies is_white_space(#[trigger] s[k]) by {
                if k < n {
                    assert(is_white_space(p[k]));
                }
            }
            assert forall|i: int, k: int|
                #![trigger ch[i], s[k]]
                0 < i < ch.len() && ch[i - 1].0 + ch[i - 1].1.len() <= k < ch[i].0 implies is_white_space(s[k]) by {
                assert(prev[i] == ch[i]);
                assert(0 <= prev[i - 1].0);
                assert(prev[i].0 + prev[i].1.len() <= p.len());
                assert(is_white_space(p[k]));
            }
        } else if n > 0 && !is_white_space(s[n - 1]) && prev.len() > 0 {
            assert forall|i: int, k: int|
                #![trigger ch[i], s[k]]
                0 < i < ch.len() && ch[i - 1].0 + ch[i - 1].1.len() <= k < ch[i].0 implies is_white_space(s[k]) by {
                assert(ch[i].0 == prev[i].0);
                assert(ch[i - 1] == prev[i - 1]);
                assert(prev[i - 1].0 + prev[i - 1].1.len() <= k < prev[i].0);
                assert(0 <= prev[i - 1].0);
                assert(prev[i].0 + prev[i].1.len() <= p.len());
                assert(is_white_space(p[k]));
            }
            if ch.len() > 0 {
                assert(ch[0].0 == prev[0].0);
                assert forall|k: int| 0 <= k < ch[0].0 implies is_white_space(#[trigger] s[k]) by {
                    assert(is_white_space(p[k]));
                }
            }
        } else {
            assert(ch == prev.push((n, seq![c])));
            assert forall|i: int, k: int|
                #![trigger ch[i], s[k]]
                0 < i < ch.len() && ch[i - 1].0 + ch[i - 1].1.len() <= k < ch[i].0 implies is_white_space(s[k]) by {
                if i < prev.len() {
                    assert(prev[i] == ch[i]);
                    assert(prev[i - 1] == ch[i - 1]);
                    assert(0 <= prev[i - 1].0);
                    assert(prev[i].0 + prev[i].1.len() <= p.len());
                    assert(is_white_space(p[k]));
                } else {
                    assert(ch[i - 1] == prev.last());
                    assert(0 <= prev[i - 1].0);
                    assert(chunks_end(prev) <= k < p.len());
                    assert(is_white_space(p[k]));
                }
            }
            assert forall|k: int| 0 <= k < ch[0].0 implies is_white_space(#[trigger] s[k]) by {
                if prev.len() > 0 {
                    assert(ch[0] == prev[0]);
                } else {
                    assert(chunks_end(prev) <= k < p.len());
                }
                assert(is_white_space(p[k]));
            }
        }
    }
}

/// Between consecutive tokens there is only whitespace.
pub open spec fn gaps_white(t: Seq<(Seq<char>, int, int)>, line: Seq<char>, base: int) -> bool {
    forall|i: int, k: int|
        #![trigger t[i], line[k]]
        0 <= i < t.len() - 1 && t[i].2 - base <= k < t[i + 1].1 - base ==> is_white_space(line[k])
}

/// Tokens within the line, each ending at or before the start of the next.
pub open spec fn tokens_ordered(t: Seq<(Seq<char>, int, int)>, line: Seq<char>, base: int) -> bool {
    &&& forall|i: int| 0 <= i < t.len() ==> base <= (#[trigger] t[i]).1 <= t[i].2 <= base + line.len()
    &&& forall|i: int| 0 <= i < t.len() - 1 ==> (#[trigger] t[i]).2 <= t[i + 1].1
}

/// Each token is the line's text at its offsets less `base`.
pub open spec fn tokens_are_text(t: Seq<(Seq<char>, int, int)>, line: Seq<char>, base: int) -> bool {
    forall|i: int| 0 <= i < t.len() ==> (#[trigger] t[i]).0 == line.subrange(t[i].1 - base, t[i].2 - base)
}

proof fn lemma_append_chunk_offsets(
    prev: Seq<(Seq<char>, int, int)>,
    cur: Seq<(Seq<char>, int, int)>,
    line: Seq<char>,
    base: int,
    o: int,
    n: int,
)
    requires
        tokens_ordered(prev, line, base),
        gaps_white(prev, line, base),
        prev.len() > 0 ==> prev.last().2 < base + o,
        prev.len() > 0 ==> forall|k: int| prev.last().2 - base <= k < o ==> is_white_space(#[trigger] line[k]),
        0 <= o,
        o + n <= line.len(),
        cur.len() > 0,
        cur[0].1 == base + o,
        cur.last().2 == base + o + n,
        forall|i: int| 0 <= i < cur.len() - 1 ==> (#[trigger] cur[i]).2 == cur[i + 1].1,
        forall|i: int| 0 <= i < cur.len() ==> base + o <= (#[trigger] cur[i]).1 <= cur[i].2 <= base + o + n,
    ensures
        tokens_ordered(prev + cur, line, base),
        gaps_white(prev + cur, line, base),
        (prev + cur).last().2 == base + o + n,
        (prev + cur)[0].1 == if prev.len() > 0 {
            prev[0].1
        } else {
            base + o
        },
{
    let all = prev + cur;
    assert forall|i: int, k: int|
        #![trigger all[i], line[k]]
        0 <= i < all.len() - 1 && all[i].2 - base <= k < all[i + 1].1 - base implies is_white_space(line[k]) by {
        if i >= prev.len() {
            assert(all[i] == cur[i - prev.len()]);
            assert(all[i + 1] == cur[i + 1 - prev.len()]);
        } else if i + 1 < prev.len() {
            assert(all[i] == prev[i]);
            assert(all[i + 1] == prev[i + 1]);
        } else {
            assert(all[i] == prev.last());
            assert(all[i + 1] == cur[0]);
        }
    }
    assert forall|i: int| 0 <= i < all.len() implies base <= (#[trigger] all[i]).1 <= all[i].2 <= base + line.len() by {
        if i >= prev.len() {
            assert(all[i] == cur[i - prev.len()]);
        } else {
            assert(all[i] == prev[i]);
        }
    }
    assert forall|i: int| 0 <= i < all.len() - 1 implies (#[trigger] all[i]).2 <= all[i + 1].1 by {
        if i >= prev.len() {
            assert(all[i] == cur[i - prev.len()]);
            assert(all[i + 1] == cur[i + 1 - prev.len()]);
        } else if i + 1 < prev.len() {
            assert(all[i] == prev[i]);
            assert(all[i + 1] == prev[i + 1]);
        } else {
            assert(all[i] == prev.last());
            assert(all[i + 1] == cur[0]);
        }
    }
    assert(all.last() == cur.last());
}

proof fn lemma_append_chunk_texts(
    prev: Seq<(Seq<char>, int, int)>,
    cur: Seq<(Seq<char>, int, int)>,
    line: Seq<char>,
    base: int,
    o: int,
    c: Seq<char>,
)
    requires
        tokens_are_text(prev, line, base),
        0 <= o,
        o + c.len() <= line.len(),
        c == line.subrange(o, o + c.len()),
        forall|i: int|
            0 <= i < cur.len() ==> {
                let t = #[trigger] cur[i];
                &&& base + o <= t.1 <= t.2 <= base + o + c.len()
                &&& t.0 == c.subrange(t.1 - (base + o), t.2 - (base + o))
            },
    ensures
        tokens_are_text(prev + cur, line, base),
{
    let all = prev + cur;
    assert forall|i: int| 0 <= i < all.len() implies (#[trigger] all[i]).0 == line.subrange(all[i].1 - base, all[i].2 - base) by {
        if i >= prev.len() {
            let t = cur[i - prev.len()];
            assert(all[i] == t);
            assert(c.subrange(t.1 - (base + o), t.2 - (base + o)) =~= line.subrange(t.1 - base, t.2 - base));
        } else {
            assert(all[i] == prev[i]);
        }
    }
}

proof fn lemma_line_tokens_prefix(rules: TokenizerRules, line: Seq<char>, base: int, n: int)
    requires
        chunks_in(line_chunks(line), line),
        0 <= n <= line_chunks(line).len(),
    ensures
        tokens_ordered(line_tokens(rules, line_chunks(line).take(n), base), line, base),
        gaps_white(line_tokens(rules, line_chunks(line).take(n), base), line, base),
        applied_entries_spell(rules.exceptions@) ==> tokens_are_text(
            line_tokens(rules, line_chunks(line).take(n), base),
            line,
            base,
        ),
        line_tokens(rules, line_chunks(line).take(n), base).len() > 0 <==> n > 0,
        n > 0 ==> line_tokens(rules, line_chunks(line).take(n), base).last().2 == base + line_chunks(line)[n
            - 1].0 + line_chunks(line)[n - 1].1.len(),
        n > 0 ==> line_tokens(rules, line_chunks(line).take(n), base)[0].1 == base + line_chunks(line)[0].0,
    decreases n,
{
    let ch = line_chunks(line);
    if n == 0 {
        assert(line_tokens(rules, ch.take(0), base) =~= Seq::<(Seq<char>, int, int)>::empty());
    } else {
        lemma_line_tokens_prefix(rules, line, base, n - 1);
        let prev = line_tokens(rules, ch.take(n - 1), base);
        let o = ch[n - 1].0;
        let c = ch[n - 1].1;
        assert(ch.take(n).drop_last() =~= ch.take(n - 1));
        assert(ch.take(n).last() == ch[n - 1]);
        let cur = chunk_tokens(rules, c, base + o);
        assert(line_tokens(rules, ch.take(n), base) == prev + cur);
        lemma_chunk_tiling(rules, c, base + o);
        lemma_chunk_tokens_bounds(rules, c, base + o);
        if n >= 2 {
            assert(ch[n - 2].0 + ch[n - 2].1.len() < ch[n - 1].0);
            lemma_line_chunks_gaps(line);
            assert forall|k: int| prev.last().2 - base <= k < o implies is_white_space(#[trigger] line[k]) by {
                assert(ch[n - 1] == line_chunks(line)[n - 1]);
                assert(ch[n - 2].0 + ch[n - 2].1.len() <= k < ch[n - 1].0);
            }
        }
        if n == 1 {
            assert(prev =~= Seq::<(Seq<char>, int, int)>::empty());
        }
        lemma_append_chunk_offsets(prev, cur, line, base, o, c.len() as int);
        if applied_entries_spell(rules.exceptions@) {
            assert(rules.exceptions@.contains_key(c) && concat_all(orths(rules.exceptions@[c]@)).len() == c.len()
                ==> concat_all(orths(rules.exceptions@[c]@)) == c);
            lemma_chunk_tokens_in_text(rules, c, base + o);
            lemma_append_chunk_texts(prev, cur, line, base, o, c);
        }
    }
}

/// Line layout: each token of a line lies within it and ends at or before
/// the start of the next, with only whitespace between them; the first
/// token starts after the line's leading whitespace, at `base` when there
/// is none; all whatever the exception table holds. When every exception entry spells
/// out its key wherever it applies, each token is also the line's text at
/// its offsets less `base`.
pub proof fn lemma_line_tokens_in_order(rules: TokenizerRules, line: Seq<char>, base: int)
    ensures
        tokens_ordered(tokenized_line(rules, line, base), line, base),
        gaps_white(tokenized_line(rules, line, base), line, base),
        applied_entries_spell(rules.exceptions@) ==> tokens_are_text(tokenized_line(rules, line, base), line, base),
        line.len() > 0 && !is_white_space(line[0]) ==> tokenized_line(rules, line, base).len() > 0
            && tokenized_line(rules, line, base)[0].1 == base,
        tokenized_line(rules, line, base).len() > 0 ==> {
            let f = tokenized_line(rules, line, base)[0].1 - base;
            &&& forall|k: int| 0 <= k < f ==> is_white_space(#[trigger] line[k])
            &&& 0 <= f < line.len() && !is_white_space(line[f])
        },
{
    lemma_line_chunks_in(line);
    lemma_line_chunks_gaps(line);
    let ch = line_chunks(line);
    lemma_line_tokens_prefix(rules, line, base, ch.len() as int);
    assert(ch.take(ch.len() as int) =~= ch);
    if ch.len() > 0 {
        assert(ch[0].1[0] == line[ch[0].0]);
        assert(!is_white_space(ch[0].1[0]));
    }
    if line.len() > 0 && !is_white_space(line[0]) {
        if ch.len() == 0 {
            assert(chunks_end(ch) == 0);
        } else if ch[0].0 > 0 {
            assert(is_white_space(line[0]));
        }
    }
}

} // verus!
