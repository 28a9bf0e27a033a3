//! Infix span resolution: ordering candidate spans, merging overlaps, and
//! cutting a text around the resulting boundaries.

use vstd::prelude::*;
use vstd::string::StrSliceExecFns;
use vstd::relations::{sorted_by, total_ordering};
use crate::external::{spans_as_int, strings_view};
use crate::order::{lemma_sorted_arrangement_unique, lemma_sorted_insert};

verus! {

broadcast use vstd::seq_lib::group_to_multiset_ensures;

/// Candidate order: leftmost first; among spans with one start, longest first.
pub open spec fn span_leq(x: (int, int), y: (int, int)) -> bool {
    x.0 < y.0 || (x.0 == y.0 && x.1 >= y.1)
}

pub open spec fn span_order() -> spec_fn((int, int), (int, int)) -> bool {
    |x: (int, int), y: (int, int)| span_leq(x, y)
}

pub proof fn lemma_span_order_total()
    ensures
        total_ordering(span_order()),
{
}

/// The candidate spans in resolution order.
pub open spec fn sorted_spans(c: Seq<(int, int)>) -> Seq<(int, int)> {
    c.sort_by(span_order())
}

/// The left-to-right sweep over sorted candidates: a candidate that starts at
/// or after the end of the last accepted span is accepted; one that starts
/// inside it and reaches further extends it; one inside it is dropped.
pub open spec fn sweep(c: Seq<(int, int)>) -> Seq<(int, int)>
    decreases c.len(),
{
    if c.len() == 0 {
        Seq::empty()
    } else {
        let acc = sweep(c.drop_last());
        let x = c.last();
        let end = end_of(acc);
        if acc.len() == 0 || x.0 >= end {
            acc.push(x)
        } else if x.1 > end {
            acc.update(acc.len() - 1, (acc.last().0, x.1))
        } else {
            acc
        }
    }
}

/// Where the last span ends; 0 when there is none.
pub open spec fn end_of(s: Seq<(int, int)>) -> int {
    if s.len() == 0 {
        0
    } else {
        s.last().1
    }
}

/// The boundary spans that the resolver keeps for a list of candidates.
pub open spec fn resolved_spans(c: Seq<(int, int)>) -> Seq<(int, int)> {
    sweep(sorted_spans(c))
}

/// Non-empty spans inside `[0, n)`, in order, none overlapping the next.
pub open spec fn spans_ordered(s: Seq<(int, int)>, n: int) -> bool {
    &&& forall|i: int| 0 <= i < s.len() ==> 0 <= #[trigger] s[i].0 < s[i].1 <= n
    &&& forall|i: int| 0 < i < s.len() ==> s[i - 1].1 <= #[trigger] s[i].0
}

/// Every span is non-empty and inside `[0, n)`.
pub open spec fn spans_proper(s: Seq<(int, int)>, n: int) -> bool {
    forall|i: int| 0 <= i < s.len() ==> 0 <= #[trigger] s[i].0 < s[i].1 <= n
}

/// All pieces joined in order.
pub open spec fn concat_all(p: Seq<Seq<char>>) -> Seq<char>
    decreases p.len(),
{
    if p.len() == 0 {
        Seq::empty()
    } else {
        concat_all(p.drop_last()) + p.last()
    }
}

/// The pieces of `text` up to the end of the last span: each gap before a
/// span (when not empty), then the span itself.
pub open spec fn pieces_through(text: Seq<char>, spans: Seq<(int, int)>) -> Seq<Seq<char>>
    decreases spans.len(),
{
    if spans.len() == 0 {
        Seq::empty()
    } else {
        let prev = spans.drop_last();
        let x = spans.last();
        let from = end_of(prev);
        let gap = if x.0 > from {
            seq![text.subrange(from, x.0)]
        } else {
            Seq::empty()
        };
        pieces_through(text, prev) + gap + seq![text.subrange(x.0, x.1)]
    }
}

/// `text` cut around the spans: the plain runs between them (when not
/// empty) and the spans themselves, in order; the whole text when that
/// yields nothing.
pub open spec fn split_pieces(text: Seq<char>, spans: Seq<(int, int)>) -> Seq<Seq<char>> {
    let e = end_of(spans);
    let tail = if e < text.len() {
        seq![text.subrange(e, text.len() as int)]
    } else {
        Seq::empty()
    };
    let p = pieces_through(text, spans) + tail;
    if p.len() == 0 && text.len() > 0 {
        seq![text]
    } else {
        p
    }
}

pub proof fn lemma_concat_all_append(p: Seq<Seq<char>>, q: Seq<Seq<char>>)
    ensures
        concat_all(p + q) == concat_all(p) + concat_all(q),
    decreases q.len(),
{
    if q.len() == 0 {
        assert(p + q =~= p);
        assert(concat_all(p) + concat_all(q) =~= concat_all(p));
    } else {
        assert((p + q).drop_last() =~= p + q.drop_last());
        lemma_concat_all_append(p, q.drop_last());
        assert(concat_all(p + q) =~= concat_all(p) + concat_all(q));
    }
}

pub proof fn lemma_concat_all_one(x: Seq<char>)
    ensures
        concat_all(seq![x]) == x,
{
    assert(seq![x].drop_last() =~= Seq::<Seq<char>>::empty());
    assert(seq![x].last() == x);
    assert(concat_all(Seq::<Seq<char>>::empty()) =~= Seq::<char>::empty());
    assert(concat_all(seq![x]) =~= x);
}

/// The sweep keeps spans ordered whatever order its candidates come in.
pub proof fn lemma_sweep_ordered(c: Seq<(int, int)>, n: int)
    requires
        spans_proper(c, n),
    ensures
        spans_ordered(sweep(c), n),
        sweep(c).len() > 0 <==> c.len() > 0,
    decreases c.len(),
{
    if c.len() > 0 {
        lemma_sweep_ordered(c.drop_last(), n);
        let acc = sweep(c.drop_last());
        let x = c.last();
        assert(0 <= x.0 < x.1 <= n);
    }
}

/// Cutting a text around ordered spans loses and adds nothing up to the
/// last span's end.
pub proof fn lemma_pieces_through_concat(text: Seq<char>, spans: Seq<(int, int)>)
    requires
        spans_ordered(spans, text.len() as int),
    ensures
        concat_all(pieces_through(text, spans)) == text.subrange(0, end_of(spans)),
    decreases spans.len(),
{
    if spans.len() > 0 {
        let prev = spans.drop_last();
        let x = spans.last();
        let from = end_of(prev);
        assert(spans_ordered(prev, text.len() as int));
        lemma_pieces_through_concat(text, prev);
        if prev.len() > 0 {
            assert(prev.last() == spans[spans.len() - 2]);
        }
        let gap = if x.0 > from {
            seq![text.subrange(from, x.0)]
        } else {
            Seq::empty()
        };
        lemma_concat_all_append(pieces_through(text, prev) + gap, seq![text.subrange(x.0, x.1)]);
        lemma_concat_all_append(pieces_through(text, prev), gap);
        lemma_concat_all_one(text.subrange(x.0, x.1));
        if x.0 > from {
            lemma_concat_all_one(text.subrange(from, x.0));
        } else {
            assert(concat_all(gap) =~= Seq::<char>::empty());
        }
        assert(concat_all(pieces_through(text, spans)) =~= text.subrange(0, end_of(spans)));
    }
}

/// Cutting a text around ordered spans reproduces it exactly.
pub proof fn lemma_split_pieces_concat(text: Seq<char>, spans: Seq<(int, int)>)
    requires
        spans_ordered(spans, text.len() as int),
    ensures
        concat_all(split_pieces(text, spans)) == text,
{
    lemma_pieces_through_concat(text, spans);
    let e = end_of(spans);
    let tail = if e < text.len() {
        seq![text.subrange(e, text.len() as int)]
    } else {
        Seq::empty()
    };
    let p = pieces_through(text, spans) + tail;
    lemma_concat_all_append(pieces_through(text, spans), tail);
    if e < text.len() {
        lemma_concat_all_one(text.subrange(e, text.len() as int));
    } else {
        assert(concat_all(tail) =~= Seq::<char>::empty());
    }
    if spans.len() > 0 {
        assert(spans[spans.len() - 1].1 <= text.len());
    }
    assert(concat_all(p) =~= text);
    if p.len() == 0 && text.len() > 0 {
        lemma_concat_all_one(text);
    }
}

/// Sorts candidate spans leftmost first and, at one start, longest first.
pub fn sort_spans(candidates: &Vec<(usize, usize)>) -> (r: Vec<(usize, usize)>)
    ensures
        spans_as_int(r@) == sorted_spans(spans_as_int(candidates@)),
{
    let mut r: Vec<(usize, usize)> = Vec::new();
    let mut i: usize = 0;
    while i < candidates.len()
        invariant
            i <= candidates.len(),
            sorted_by(spans_as_int(r@), span_order()),
            spans_as_int(r@).to_multiset() == spans_as_int(candidates@.take(i as int)).to_multiset(),
        decreases candidates.len() - i,
    {
        let x = candidates[i];
        let mut j: usize = 0;
        while j < r.len() && (r[j].0 < x.0 || (r[j].0 == x.0 && r[j].1 >= x.1))
            invariant
                j <= r.len(),
                forall|k: int| 0 <= k < j ==> span_leq(#[trigger] spans_as_int(r@)[k], (x.0 as int, x.1 as int)),
            decreases r.len() - j,
        {
            j = j + 1;
        }
        let ghost old_r = spans_as_int(r@);
        let ghost xi = (x.0 as int, x.1 as int);
        proof {
            assert forall|k: int| j <= k < old_r.len() implies span_leq(xi, #[trigger] old_r[k]) by {
                if k > j {
                    assert(span_order()(old_r[j as int], old_r[k]));
                }
            }
            lemma_sorted_insert(old_r, j as int, xi, span_order());
        }
        r.insert(j, x);
        proof {
            assert(spans_as_int(r@) =~= old_r.insert(j as int, xi));
            assert(candidates@.take(i as int + 1) =~= candidates@.take(i as int).push(x));
            assert(spans_as_int(candidates@.take(i as int + 1)) =~= spans_as_int(candidates@.take(i as int)).push(xi));
        }
        i = i + 1;
    }
    proof {
        assert(candidates@.take(i as int) =~= candidates@);
        let c = spans_as_int(candidates@);
        lemma_span_order_total();
        c.lemma_sort_by_ensures(span_order());
        lemma_sorted_arrangement_unique(spans_as_int(r@), c.sort_by(span_order()), span_order());
    }
    r
}

/// Merges sorted candidate spans: a span that starts inside the last kept
/// one and reaches further extends it; one inside it is dropped.
pub fn merge_sorted_spans(sorted: &Vec<(usize, usize)>) -> (r: Vec<(usize, usize)>)
    ensures
        spans_as_int(r@) == sweep(spans_as_int(sorted@)),
{
    let mut r: Vec<(usize, usize)> = Vec::new();
    let mut end: usize = 0;
    let mut i: usize = 0;
    while i < sorted.len()
        invariant
            i <= sorted.len(),
            spans_as_int(r@) == sweep(spans_as_int(sorted@.take(i as int))),
            end as int == end_of(spans_as_int(r@)),
        decreases sorted.len() - i,
    {
        let x = sorted[i];
        proof {
            assert(spans_as_int(sorted@.take(i as int + 1)).drop_last() =~= spans_as_int(sorted@.take(i as int)));
            assert(spans_as_int(sorted@.take(i as int + 1)).last() == (x.0 as int, x.1 as int));
        }
        if r.len() == 0 || x.0 >= end {
            r.push(x);
            end = x.1;
            proof {
                assert(spans_as_int(r@) =~= sweep(spans_as_int(sorted@.take(i as int + 1))));
            }
        } else if x.1 > end {
            let k = r.len() - 1;
            let s0 = r[k].0;
            r.set(k, (s0, x.1));
            end = x.1;
            proof {
                assert(spans_as_int(r@) =~= sweep(spans_as_int(sorted@.take(i as int + 1))));
            }
        }
        i = i + 1;
    }
    proof {
        assert(sorted@.take(i as int) =~= sorted@);
    }
    r
}

/// Resolves infix candidate spans into non-overlapping boundary spans: sorts
/// them leftmost first (longest first at one start), then merges overlaps.
pub fn resolve_spans(candidates: &Vec<(usize, usize)>) -> (r: Vec<(usize, usize)>)
    ensures
        spans_as_int(r@) == resolved_spans(spans_as_int(candidates@)),
{
    let sorted = sort_spans(candidates);
    merge_sorted_spans(&sorted)
}

/// Cuts `text` around ordered boundary spans: each non-empty run before a
/// span, the span's text, and the non-empty run after the last span.
pub fn split_at_spans(text: &str, spans: &Vec<(usize, usize)>) -> (r: Vec<String>)
    requires
        spans_ordered(spans_as_int(spans@), text@.len() as int),
    ensures
        strings_view(r@) == split_pieces(text@, spans_as_int(spans@)),
{
    let n = text.unicode_len();
    let ghost sp = spans_as_int(spans@);
    let mut r: Vec<String> = Vec::new();
    let mut last: usize = 0;
    let mut i: usize = 0;
    while i < spans.len()
        invariant
            i <= spans.len(),
            n == text@.len(),
            sp == spans_as_int(spans@),
            spans_ordered(sp, n as int),
            strings_view(r@) == pieces_through(text@, spans_as_int(spans@.take(i as int))),
            last as int == end_of(spans_as_int(spans@.take(i as int))),
            last <= n,
        decreases spans.len() - i,
    {
        let (a, e) = spans[i];
        let ghost before = strings_view(r@);
        proof {
            assert(spans_as_int(spans@.take(i as int + 1)).drop_last() =~= spans_as_int(spans@.take(i as int)));
            assert(spans_as_int(spans@.take(i as int + 1)).last() == (a as int, e as int));
            assert(sp[i as int] == (a as int, e as int));
            if i > 0 {
                assert(sp[i as int - 1] == spans_as_int(spans@.take(i as int)).last());
            }
        }
        if a > last {
            let gap = text.substring_char(last, a).to_owned();
            r.push(gap);
        }
        let piece = text.substring_char(a, e).to_owned();
        r.push(piece);
        proof {
            assert(strings_view(r@) =~= pieces_through(text@, spans_as_int(spans@.take(i as int + 1))));
        }
        last = e;
        i = i + 1;
    }
    proof {
        assert(spans@.take(i as int) =~= spans@);
    }
    let ghost body = strings_view(r@);
    if last < n {
        let tail = text.substring_char(last, n).to_owned();
        r.push(tail);
    }
    proof {
        if last < n {
            assert(strings_view(r@) =~= body + seq![text@.subrange(last as int, n as int)]);
        } else {
            assert(strings_view(r@) =~= body + Seq::<Seq<char>>::empty());
        }
    }
    if r.len() == 0 && n > 0 {
        r.push(text.to_owned());
        proof {
            assert(strings_view(r@) =~= seq![text@]);
        }
    }
    r
}

} // verus!
