//! Exception entries: fixed decompositions of exact chunk texts, and the
//! English exception tables.

use vstd::prelude::*;
use vstd::string::StrSliceExecFns;
use crate::external::{regex_compiles, regex_first_match, uppercase_char, uppercase_of, Pattern};
use crate::pattern::{abbreviation_list, emoticon_list, get_english_url_match_pattern_str, url_pattern_parts, emoticons, exclude_from_exceptions, excluded_words, get_abbreviations_list, strs_view};
use crate::rules::ExceptionMap;
use crate::spans::{concat_all, lemma_concat_all_one};

verus! {

/// One sub-token of an exception: its surface text and an optional
/// normalised form.
#[derive(Clone, Debug)]
pub struct ExceptionToken {
    pub orth: String,
    pub norm: Option<String>,
}

/// The surface texts of an exception entry.
pub open spec fn orths(v: Seq<ExceptionToken>) -> Seq<Seq<char>> {
    v.map_values(|t: ExceptionToken| t.orth@)
}

/// Every entry spells out its key: its surface texts joined are the key.
pub open spec fn entries_spell_keys(m: Map<Seq<char>, Vec<ExceptionToken>>) -> bool {
    forall|k: Seq<char>| #[trigger] m.contains_key(k) ==> concat_all(orths(m[k]@)) == k
}

/// Every entry whose surface texts are as long as its key spells the key
/// out.
pub open spec fn applied_entries_spell(m: Map<Seq<char>, Vec<ExceptionToken>>) -> bool {
    forall|k: Seq<char>|
        #[trigger] m.contains_key(k) && concat_all(orths(m[k]@)).len() == k.len() ==> concat_all(orths(m[k]@)) == k
}

/// One sub-token as its surface text and optional normalised form.
pub open spec fn exc_token_view(t: ExceptionToken) -> (Seq<char>, Option<Seq<char>>) {
    (
        t.orth@,
        match t.norm {
            Some(n) => Some(n@),
            None => None,
        },
    )
}

/// An exception entry as surface texts and normalised forms.
pub open spec fn entry_view(v: Seq<ExceptionToken>) -> Seq<(Seq<char>, Option<Seq<char>>)> {
    v.map_values(|t: ExceptionToken| exc_token_view(t))
}

/// The key an entry spells: its surface texts joined.
pub open spec fn entry_key_of(e: Seq<(Seq<char>, Option<Seq<char>>)>) -> Seq<char> {
    concat_all(e.map_values(|p: (Seq<char>, Option<Seq<char>>)| p.0))
}

/// An exception map with its entries as surface texts and normalised forms.
pub open spec fn table_view(m: Map<Seq<char>, Vec<ExceptionToken>>) -> Map<
    Seq<char>,
    Seq<(Seq<char>, Option<Seq<char>>)>,
> {
    m.map_values(|v: Vec<ExceptionToken>| entry_view(v@))
}

/// `m` with the entries added in order, each under the key it spells.
pub open spec fn with_entries(
    m: Map<Seq<char>, Seq<(Seq<char>, Option<Seq<char>>)>>,
    es: Seq<Seq<(Seq<char>, Option<Seq<char>>)>>,
) -> Map<Seq<char>, Seq<(Seq<char>, Option<Seq<char>>)>>
    decreases es.len(),
{
    if es.len() == 0 {
        m
    } else {
        with_entries(m, es.drop_last()).insert(entry_key_of(es.last()), es.last())
    }
}

pub proof fn lemma_with_entries_append(
    m: Map<Seq<char>, Seq<(Seq<char>, Option<Seq<char>>)>>,
    a: Seq<Seq<(Seq<char>, Option<Seq<char>>)>>,
    b: Seq<Seq<(Seq<char>, Option<Seq<char>>)>>,
)
    ensures
        with_entries(m, a + b) == with_entries(with_entries(m, a), b),
    decreases b.len(),
{
    if b.len() == 0 {
        assert(a + b =~= a);
    } else {
        assert((a + b).drop_last() =~= a + b.drop_last());
        lemma_with_entries_append(m, a, b.drop_last());
    }
}

/// One-token entries, each a text that stands for itself.
pub open spec fn self_entries(texts: Seq<Seq<char>>) -> Seq<Seq<(Seq<char>, Option<Seq<char>>)>> {
    texts.map_values(|t: Seq<char>| seq![(t, None::<Seq<char>>)])
}

/// The characters of an optional text.
pub open spec fn opt_text(n: Option<&str>) -> Option<Seq<char>> {
    match n {
        Some(x) => Some(x@),
        None => None,
    }
}

/// A text with its first character in upper case.
pub open spec fn capitalized(s: Seq<char>) -> Seq<char> {
    if s.len() == 0 {
        Seq::empty()
    } else {
        uppercase_of(s[0]) + s.drop_first()
    }
}

/// `s` with its first character in upper case.
pub fn capitalize(s: &str) -> (r: String)
    ensures
        r@ == capitalized(s@),
{
    let n = s.unicode_len();
    if n == 0 {
        return String::new();
    }
    let first = s.get_char(0);
    let mut r = uppercase_char(first);
    r.append(s.substring_char(1, n));
    proof {
        assert(s@.subrange(1, n as int) =~= s@.drop_first());
    }
    r
}

/// An exception sub-token with surface text `orth` and normalised form
/// `norm`, if any.
pub fn exc_entry(orth: &str, norm: Option<&str>) -> (r: ExceptionToken)
    ensures
        r.orth@ == orth@,
        r.norm matches Some(n) <==> norm is Some,
        r.norm matches Some(n) ==> n@ == norm->0@,
        exc_token_view(r) == (orth@, opt_text(norm)),
{
    let n = match norm {
        Some(x) => Some(x.to_owned()),
        None => None,
    };
    ExceptionToken { orth: orth.to_owned(), norm: n }
}

/// A copy of an exception sub-token.
pub fn copy_token(t: &ExceptionToken) -> (r: ExceptionToken)
    ensures
        r == *t,
{
    let n = match &t.norm {
        Some(x) => Some(x.clone()),
        None => None,
    };
    ExceptionToken { orth: t.orth.clone(), norm: n }
}

/// A copy of an exception entry.
pub fn copy_entry(v: &Vec<ExceptionToken>) -> (r: Vec<ExceptionToken>)
    ensures
        r@ == v@,
{
    let mut r: Vec<ExceptionToken> = Vec::new();
    let mut i: usize = 0;
    while i < v.len()
        invariant
            i <= v.len(),
            r@ == v@.take(i as int),
        decreases v.len() - i,
    {
        r.push(copy_token(&v[i]));
        proof {
            assert(r@ =~= v@.take(i as int + 1));
        }
        i = i + 1;
    }
    proof {
        assert(v@.take(i as int) =~= v@);
    }
    r
}

/// The key an entry spells: its surface texts joined.
pub fn entry_key(parts: &Vec<ExceptionToken>) -> (r: String)
    ensures
        r@ == concat_all(orths(parts@)),
{
    let mut r = String::new();
    let mut i: usize = 0;
    while i < parts.len()
        invariant
            i <= parts.len(),
            r@ == concat_all(orths(parts@).take(i as int)),
        decreases parts.len() - i,
    {
        r.append(parts[i].orth.as_str());
        proof {
            assert(orths(parts@).take(i as int + 1).drop_last() =~= orths(parts@).take(i as int));
            assert(orths(parts@).take(i as int + 1).last() == parts@[i as int].orth@);
        }
        i = i + 1;
    }
    proof {
        assert(orths(parts@).take(i as int) =~= orths(parts@));
    }
    r
}

/// Adds an entry under the key it spells.
pub fn add_entry(m: &mut ExceptionMap, parts: Vec<ExceptionToken>)
    ensures
        final(m)@ == old(m)@.insert(concat_all(orths(parts@)), parts),
        entries_spell_keys(old(m)@) ==> entries_spell_keys(final(m)@),
        table_view(final(m)@) == table_view(old(m)@).insert(entry_key_of(entry_view(parts@)), entry_view(parts@)),
{
    let ghost before = m@;
    let ghost pv = parts@;
    let key = entry_key(&parts);
    m.insert(key, parts);
    proof {
        assert(entry_view(pv).map_values(|p: (Seq<char>, Option<Seq<char>>)| p.0) =~= orths(pv));
        assert(table_view(m@) =~= table_view(before).insert(entry_key_of(entry_view(pv)), entry_view(pv)));
    }
}

/// An entry given as surface texts and optional normalised forms.
pub open spec fn parts_view(v: Seq<(&str, Option<&str>)>) -> Seq<(Seq<char>, Option<Seq<char>>)> {
    v.map_values(|p: (&str, Option<&str>)| (p.0@, opt_text(p.1)))
}

/// Entries given as surface texts and optional normalised forms.
pub open spec fn entries_of(es: Seq<Vec<(&str, Option<&str>)>>) -> Seq<Seq<(Seq<char>, Option<Seq<char>>)>> {
    es.map_values(|v: Vec<(&str, Option<&str>)>| parts_view(v@))
}

pub proof fn lemma_with_entries_push(m: Map<Seq<char>, Seq<(Seq<char>, Option<Seq<char>>)>>, es: Seq<Seq<(Seq<char>, Option<Seq<char>>)>>, e: Seq<(Seq<char>, Option<Seq<char>>)>)
    ensures
        with_entries(m, es.push(e)) == with_entries(m, es).insert(entry_key_of(e), e),
{
    assert(es.push(e).drop_last() =~= es);
}

/// Adds the entry made of these surface texts and normalised forms.
fn add_parts(m: &mut ExceptionMap, parts: &Vec<(&str, Option<&str>)>)
    ensures
        entries_spell_keys(old(m)@) ==> entries_spell_keys(final(m)@),
        table_view(final(m)@) == table_view(old(m)@).insert(entry_key_of(parts_view(parts@)), parts_view(parts@)),
{
    let mut entry: Vec<ExceptionToken> = Vec::new();
    let mut i: usize = 0;
    while i < parts.len()
        invariant
            i <= parts.len(),
            entry_view(entry@) == parts_view(parts@.take(i as int)),
        decreases parts.len() - i,
    {
        let t = exc_entry(parts[i].0, parts[i].1);
        let ghost before = entry@;
        entry.push(t);
        proof {
            assert(entry_view(entry@) =~= entry_view(before).push(exc_token_view(t)));
            assert(parts_view(parts@.take(i as int + 1)) =~= parts_view(parts@.take(i as int)).push(
                (parts@[i as int].0@, opt_text(parts@[i as int].1)),
            ));
        }
        i = i + 1;
    }
    proof {
        assert(parts@.take(i as int) =~= parts@);
    }
    add_entry(m, entry);
}

/// Adds the entries in order.
fn add_all(m: &mut ExceptionMap, es: &Vec<Vec<(&str, Option<&str>)>>)
    ensures
        entries_spell_keys(old(m)@) ==> entries_spell_keys(final(m)@),
        table_view(final(m)@) == with_entries(table_view(old(m)@), entries_of(es@)),
{
    let ghost start = table_view(m@);
    let mut i: usize = 0;
    while i < es.len()
        invariant
            i <= es.len(),
            entries_spell_keys(old(m)@) ==> entries_spell_keys(m@),
            table_view(m@) == with_entries(start, entries_of(es@.take(i as int))),
        decreases es.len() - i,
    {
        add_parts(m, &es[i]);
        proof {
            assert(entries_of(es@.take(i as int + 1)) =~= entries_of(es@.take(i as int)).push(parts_view(es@[i as int]@)));
            lemma_with_entries_push(start, entries_of(es@.take(i as int)), parts_view(es@[i as int]@));
        }
        i = i + 1;
    }
    proof {
        assert(es@.take(i as int) =~= es@);
    }
}

/// Adds a one-token entry.
fn add_single(m: &mut ExceptionMap, orth: &str, norm: Option<&str>)
    ensures
        entries_spell_keys(old(m)@) ==> entries_spell_keys(final(m)@),
        table_view(final(m)@) == table_view(old(m)@).insert(
            entry_key_of(seq![(orth@, opt_text(norm))]),
            seq![(orth@, opt_text(norm))],
        ),
        entry_key_of(seq![(orth@, opt_text(norm))]) == orth@,
{
    let t = exc_entry(orth, norm);
    let v = vec![t];
    proof {
        assert(entry_view(v@) =~= seq![(orth@, opt_text(norm))]);
        let e = seq![(orth@, opt_text(norm))];
        assert(e.map_values(|p: (Seq<char>, Option<Seq<char>>)| p.0) =~= seq![orth@]);
        lemma_concat_all_one(orth@);
    }
    add_entry(m, v);
}

/// Adds a three-token entry.
fn add_triple(
    m: &mut ExceptionMap,
    a: &str,
    a_norm: Option<&str>,
    b: &str,
    b_norm: Option<&str>,
    c: &str,
    c_norm: Option<&str>,
)
    ensures
        entries_spell_keys(old(m)@) ==> entries_spell_keys(final(m)@),
        table_view(final(m)@) == table_view(old(m)@).insert(
            entry_key_of(seq![(a@, opt_text(a_norm)), (b@, opt_text(b_norm)), (c@, opt_text(c_norm))]),
            seq![(a@, opt_text(a_norm)), (b@, opt_text(b_norm)), (c@, opt_text(c_norm))],
        ),
{
    let ta = exc_entry(a, a_norm);
    let tb = exc_entry(b, b_norm);
    let tc = exc_entry(c, c_norm);
    let v = vec![ta, tb, tc];
    proof {
        assert(entry_view(v@) =~= seq![(a@, opt_text(a_norm)), (b@, opt_text(b_norm)), (c@, opt_text(c_norm))]);
    }
    add_entry(m, v);
}

/// The families of contracted forms that the table adds for a word.
#[derive(Clone, Copy)]
pub enum FormKind {
    Am,
    Will,
    Would,
    Have,
    Are,
    Is,
    NotHave,
    Not,
}

/// The entries of one family of contracted forms of `o`, whose first token
/// is normalised to `n`.
pub open spec fn forms(k: FormKind, o: Seq<char>, n: Seq<char>) -> Seq<Seq<(Seq<char>, Option<Seq<char>>)>> {
    let w = (o, Some(n));
    match k {
        FormKind::Am => seq![
            seq![w, ("'m"@, Some("am"@))],
            seq![w, ("m"@, None)],
            seq![w, ("'m"@, Some("am"@)), ("a"@, Some("gonna"@))],
            seq![w, ("m"@, Some("am"@)), ("a"@, Some("gonna"@))],
        ],
        FormKind::Will => seq![
            seq![w, ("'ll"@, Some("will"@))],
            seq![w, ("ll"@, Some("will"@))],
            seq![w, ("'ll"@, Some("will"@)), ("'ve"@, Some("have"@))],
            seq![w, ("ll"@, Some("will"@)), ("ve"@, Some("have"@))],
        ],
        FormKind::Would => seq![
            seq![w, ("'d"@, Some("'d"@))],
            seq![w, ("d"@, Some("'d"@))],
            seq![w, ("'d"@, Some("would"@)), ("'ve"@, Some("have"@))],
            seq![w, ("d"@, Some("would"@)), ("ve"@, Some("have"@))],
        ],
        FormKind::Have => seq![seq![w, ("'ve"@, Some("have"@))], seq![w, ("ve"@, Some("have"@))]],
        FormKind::Are => seq![seq![w, ("'re"@, Some("are"@))], seq![w, ("re"@, Some("are"@))]],
        FormKind::Is => seq![seq![w, ("'s"@, Some("'s"@))], seq![w, ("s"@, None)]],
        FormKind::NotHave => seq![
            seq![w, ("n't"@, Some("not"@))],
            seq![w, ("nt"@, Some("not"@))],
            seq![w, ("n't"@, Some("not"@)), ("'ve"@, Some("have"@))],
            seq![w, ("nt"@, Some("not"@)), ("ve"@, Some("have"@))],
        ],
        FormKind::Not => seq![seq![w, ("n't"@, Some("not"@))], seq![w, ("nt"@, Some("not"@))]],
    }
}

/// The entries of several families of forms of `o`, family by family.
pub open spec fn forms_all(ks: Seq<FormKind>, o: Seq<char>, n: Seq<char>) -> Seq<Seq<(Seq<char>, Option<Seq<char>>)>>
    decreases ks.len(),
{
    if ks.len() == 0 {
        Seq::empty()
    } else {
        forms_all(ks.drop_last(), o, n) + forms(ks.last(), o, n)
    }
}

/// For each word and normalised form: its forms, then those of its
/// capitalised spelling.
pub open spec fn pair_block(ks: Seq<FormKind>, ps: Seq<(Seq<char>, Seq<char>)>) -> Seq<Seq<(Seq<char>, Option<Seq<char>>)>>
    decreases ps.len(),
{
    if ps.len() == 0 {
        Seq::empty()
    } else {
        pair_block(ks, ps.drop_last()) + forms_all(ks, ps.last().0, ps.last().1) + forms_all(
            ks,
            capitalized(ps.last().0),
            ps.last().1,
        )
    }
}

pub open spec fn pairs_view(ps: Seq<(&str, &str)>) -> Seq<(Seq<char>, Seq<char>)> {
    ps.map_values(|p: (&str, &str)| (p.0@, p.1@))
}

/// Adds one family of contracted forms of `orth`.
fn add_forms(m: &mut ExceptionMap, k: FormKind, orth: &str, norm: &str)
    ensures
        entries_spell_keys(old(m)@) ==> entries_spell_keys(final(m)@),
        table_view(final(m)@) == with_entries(table_view(old(m)@), forms(k, orth@, norm@)),
{
    let w = (orth, Some(norm));
    let es: Vec<Vec<(&str, Option<&str>)>> = match k {
        FormKind::Am => vec![
            vec![w, ("'m", Some("am"))],
            vec![w, ("m", None)],
            vec![w, ("'m", Some("am")), ("a", Some("gonna"))],
            vec![w, ("m", Some("am")), ("a", Some("gonna"))],
        ],
        FormKind::Will => vec![
            vec![w, ("'ll", Some("will"))],
            vec![w, ("ll", Some("will"))],
            vec![w, ("'ll", Some("will")), ("'ve", Some("have"))],
            vec![w, ("ll", Some("will")), ("ve", Some("have"))],
        ],
        FormKind::Would => vec![
            vec![w, ("'d", Some("'d"))],
            vec![w, ("d", Some("'d"))],
            vec![w, ("'d", Some("would")), ("'ve", Some("have"))],
            vec![w, ("d", Some("would")), ("ve", Some("have"))],
        ],
        FormKind::Have => vec![vec![w, ("'ve", Some("have"))], vec![w, ("ve", Some("have"))]],
        FormKind::Are => vec![vec![w, ("'re", Some("are"))], vec![w, ("re", Some("are"))]],
        FormKind::Is => vec![vec![w, ("'s", Some("'s"))], vec![w, ("s", None)]],
        FormKind::NotHave => vec![
            vec![w, ("n't", Some("not"))],
            vec![w, ("nt", Some("not"))],
            vec![w, ("n't", Some("not")), ("'ve", Some("have"))],
            vec![w, ("nt", Some("not")), ("ve", Some("have"))],
        ],
        FormKind::Not => vec![vec![w, ("n't", Some("not"))], vec![w, ("nt", Some("not"))]],
    };
    proof {
        assert(entries_of(es@) =~~= forms(k, orth@, norm@));
    }
    add_all(m, &es);
}

/// Adds several families of contracted forms of `orth`, in order.
fn add_forms_all(m: &mut ExceptionMap, ks: &Vec<FormKind>, orth: &str, norm: &str)
    ensures
        entries_spell_keys(old(m)@) ==> entries_spell_keys(final(m)@),
        table_view(final(m)@) == with_entries(table_view(old(m)@), forms_all(ks@, orth@, norm@)),
{
    let ghost start = table_view(m@);
    let mut i: usize = 0;
    while i < ks.len()
        invariant
            i <= ks.len(),
            entries_spell_keys(old(m)@) ==> entries_spell_keys(m@),
            table_view(m@) == with_entries(start, forms_all(ks@.take(i as int), orth@, norm@)),
        decreases ks.len() - i,
    {
        add_forms(m, ks[i], orth, norm);
        proof {
            assert(ks@.take(i as int + 1).drop_last() =~= ks@.take(i as int));
            lemma_with_entries_append(start, forms_all(ks@.take(i as int), orth@, norm@), forms(ks@[i as int], orth@, norm@));
        }
        i = i + 1;
    }
    proof {
        assert(ks@.take(i as int) =~= ks@);
    }
}

/// Adds the forms of each word, then of its capitalised spelling.
fn add_pair_block(m: &mut ExceptionMap, ks: &Vec<FormKind>, ps: &Vec<(&str, &str)>)
    ensures
        entries_spell_keys(old(m)@) ==> entries_spell_keys(final(m)@),
        table_view(final(m)@) == with_entries(table_view(old(m)@), pair_block(ks@, pairs_view(ps@))),
{
    let ghost start = table_view(m@);
    let mut i: usize = 0;
    while i < ps.len()
        invariant
            i <= ps.len(),
            entries_spell_keys(old(m)@) ==> entries_spell_keys(m@),
            table_view(m@) == with_entries(start, pair_block(ks@, pairs_view(ps@.take(i as int)))),
        decreases ps.len() - i,
    {
        let (orth, norm) = ps[i];
        let cap = capitalize(orth);
        let ghost before = pair_block(ks@, pairs_view(ps@.take(i as int)));
        add_forms_all(m, ks, orth, norm);
        add_forms_all(m, ks, cap.as_str(), norm);
        proof {
            let q = pairs_view(ps@.take(i as int + 1));
            assert(q.drop_last() =~= pairs_view(ps@.take(i as int)));
            assert(q.last() == (orth@, norm@));
            lemma_with_entries_append(start, before, forms_all(ks@, orth@, norm@));
            lemma_with_entries_append(start, before + forms_all(ks@, orth@, norm@), forms_all(ks@, cap@, norm@));
        }
        i = i + 1;
    }
    proof {
        assert(ps@.take(i as int) =~= ps@);
    }
}

/// Whether an optional text equals `b`.
fn text_is(a: Option<&str>, b: &str) -> (r: bool)
    ensures
        r == (a matches Some(x) && x@ == b@),
{
    match a {
        Some(x) => x.to_owned() == b.to_owned(),
        None => false,
    }
}

/// The families of forms of a question word or demonstrative: no "is"
/// forms for a plural one, no "are" or "have" forms for a singular one.
pub open spec fn w_kinds(morph: Option<Seq<char>>) -> Seq<FormKind> {
    (if morph == Some("Number=Plur|Person=3"@) {
        Seq::empty()
    } else {
        seq![FormKind::Is]
    }) + seq![FormKind::Will] + (if morph == Some("Number=Sing|Person=3"@) {
        Seq::empty()
    } else {
        seq![FormKind::Are, FormKind::Have]
    }) + seq![FormKind::Would]
}

fn w_kinds_of(morph: Option<&str>) -> (r: Vec<FormKind>)
    ensures
        r@ == w_kinds(opt_text(morph)),
{
    let plural = text_is(morph, "Number=Plur|Person=3");
    let singular = text_is(morph, "Number=Sing|Person=3");
    let mut r: Vec<FormKind> = Vec::new();
    if !plural {
        r.push(FormKind::Is);
    }
    r.push(FormKind::Will);
    if !singular {
        r.push(FormKind::Are);
        r.push(FormKind::Have);
    }
    r.push(FormKind::Would);
    proof {
        assert(r@ =~= w_kinds(opt_text(morph)));
    }
    r
}

pub open spec fn words_view(ws: Seq<(&str, Option<&str>)>) -> Seq<(Seq<char>, Option<Seq<char>>)> {
    ws.map_values(|p: (&str, Option<&str>)| (p.0@, opt_text(p.1)))
}

/// For each question word or demonstrative: its forms, then those of its
/// capitalised spelling.
pub open spec fn w_block(ws: Seq<(Seq<char>, Option<Seq<char>>)>) -> Seq<Seq<(Seq<char>, Option<Seq<char>>)>>
    decreases ws.len(),
{
    if ws.len() == 0 {
        Seq::empty()
    } else {
        let (w, morph) = ws.last();
        w_block(ws.drop_last()) + forms_all(w_kinds(morph), w, w) + forms_all(w_kinds(morph), capitalized(w), w)
    }
}

/// A word with a dropped final letter: itself, and itself with an apostrophe.
pub open spec fn trailing_entries(o: Seq<char>, n: Seq<char>) -> Seq<Seq<(Seq<char>, Option<Seq<char>>)>> {
    seq![seq![(o, Some(n))], seq![(o + "'"@, Some(n))]]
}

pub open spec fn trailing_block(ps: Seq<(Seq<char>, Seq<char>)>) -> Seq<Seq<(Seq<char>, Option<Seq<char>>)>>
    decreases ps.len(),
{
    if ps.len() == 0 {
        Seq::empty()
    } else {
        let (o, n) = ps.last();
        trailing_block(ps.drop_last()) + trailing_entries(o, n) + trailing_entries(capitalized(o), n)
    }
}

/// A word with a dropped first letter: itself, and with an apostrophe first.
pub open spec fn leading_block(ps: Seq<(Seq<char>, Seq<char>)>) -> Seq<Seq<(Seq<char>, Option<Seq<char>>)>>
    decreases ps.len(),
{
    if ps.len() == 0 {
        Seq::empty()
    } else {
        let (o, n) = ps.last();
        leading_block(ps.drop_last()) + seq![seq![(o, Some(n))], seq![("'"@ + o, Some(n))]]
    }
}

/// An hour followed by "a.m.", "am", "p.m." or "pm".
pub open spec fn hours_block(hs: Seq<Seq<char>>) -> Seq<Seq<(Seq<char>, Option<Seq<char>>)>>
    decreases hs.len(),
{
    if hs.len() == 0 {
        Seq::empty()
    } else {
        let h = hs.last();
        hours_block(hs.drop_last()) + seq![
            seq![(h, None), ("a.m."@, Some("a.m."@))],
            seq![(h, None), ("am"@, Some("a.m."@))],
            seq![(h, None), ("p.m."@, Some("p.m."@))],
            seq![(h, None), ("pm"@, Some("p.m."@))],
        ]
    }
}

/// One-token entries with their normalised forms.
pub open spec fn single_entries(ps: Seq<(&str, Option<&str>)>) -> Seq<Seq<(Seq<char>, Option<Seq<char>>)>> {
    ps.map_values(|p: (&str, Option<&str>)| seq![(p.0@, opt_text(p.1))])
}

/// `m` with a one-token entry for each text that has none yet.
pub open spec fn with_absent(m: Map<Seq<char>, Seq<(Seq<char>, Option<Seq<char>>)>>, ts: Seq<Seq<char>>) -> Map<Seq<char>, Seq<(Seq<char>, Option<Seq<char>>)>>
    decreases ts.len(),
{
    if ts.len() == 0 {
        m
    } else {
        let p = with_absent(m, ts.drop_last());
        if p.contains_key(ts.last()) {
            p
        } else {
            p.insert(ts.last(), seq![(ts.last(), None)])
        }
    }
}

/// `m` without the given keys.
pub open spec fn without_keys(m: Map<Seq<char>, Seq<(Seq<char>, Option<Seq<char>>)>>, ks: Seq<Seq<char>>) -> Map<Seq<char>, Seq<(Seq<char>, Option<Seq<char>>)>>
    decreases ks.len(),
{
    if ks.len() == 0 {
        m
    } else {
        without_keys(m, ks.drop_last()).remove(ks.last())
    }
}

pub open spec fn pronoun_list() -> Seq<(&'static str, &'static str)> {
    seq![("i", "i"), ("you", "you"), ("he", "he"), ("she", "she"), ("it", "it"), ("we", "we"), ("they", "they")]
}

pub open spec fn have_pronoun_list() -> Seq<(&'static str, &'static str)> {
    seq![("i", "i"), ("you", "you"), ("we", "we"), ("they", "they")]
}

pub open spec fn are_pronoun_list() -> Seq<(&'static str, &'static str)> {
    seq![("you", "you"), ("we", "we"), ("they", "they")]
}

pub open spec fn is_pronoun_list() -> Seq<(&'static str, &'static str)> {
    seq![("he", "he"), ("she", "she"), ("it", "it")]
}

pub open spec fn w_word_list() -> Seq<(&'static str, Option<&'static str>)> {
    seq![
        ("who", None), ("what", None), ("when", None), ("where", None), ("why", None),
        ("how", None), ("there", None), ("that", Some("Number=Sing|Person=3")),
        ("this", Some("Number=Sing|Person=3")), ("these", Some("Number=Plur|Person=3")),
        ("those", Some("Number=Plur|Person=3")),
    ]
}

pub open spec fn not_have_verb_list() -> Seq<(&'static str, &'static str)> {
    seq![
        ("ca", "can"), ("could", "could"), ("do", "do"),
        ("does", "does"), ("did", "do"), ("had", "have"),
        ("may", "may"), ("might", "might"), ("must", "must"),
        ("need", "need"), ("ought", "ought"), ("sha", "shall"),
        ("should", "should"), ("wo", "will"), ("would", "would"),
    ]
}

pub open spec fn have_verb_list() -> Seq<(&'static str, &'static str)> {
    seq![
        ("could", "could"), ("might", "might"), ("must", "must"),
        ("should", "should"), ("would", "would"),
    ]
}

pub open spec fn not_verb_list() -> Seq<(&'static str, &'static str)> {
    seq![
        ("ai", "ai"), ("are", "are"), ("is", "is"), ("was", "was"), ("were", "were"),
        ("have", "have"), ("has", "has"), ("dare", "dare"),
    ]
}

pub open spec fn trailing_apostrophe_list() -> Seq<(&'static str, &'static str)> {
    seq![
        ("doin", "doing"), ("goin", "going"), ("nothin", "nothing"),
        ("nuthin", "nothing"), ("ol", "old"), ("somethin", "something"),
    ]
}

pub open spec fn leading_apostrophe_list() -> Seq<(&'static str, &'static str)> {
    seq![
        ("em", "them"), ("ll", "will"), ("nuff", "enough"),
    ]
}

pub open spec fn hour_list() -> Seq<&'static str> {
    seq!["1", "2", "3", "4", "5", "6", "7", "8", "9", "10", "11", "12"]
}

pub open spec fn fixed_entry_list() -> Seq<Seq<(&'static str, Option<&'static str>)>> {
    seq![
        seq![("y'", Some("you")), ("all", None)],
        seq![("y", Some("you")), ("all", None)],
        seq![("how", None), ("'d", None), ("'y", Some("you"))],
        seq![("How", Some("how")), ("'d", None), ("'y", Some("you"))],
        seq![("not", None), ("'ve", Some("have"))],
        seq![("not", None), ("ve", Some("have"))],
        seq![("Not", Some("not")), ("'ve", Some("have"))],
        seq![("Not", Some("not")), ("ve", Some("have"))],
        seq![("can", None), ("not", None)],
        seq![("Can", Some("can")), ("not", None)],
        seq![("gon", Some("going")), ("na", Some("to"))],
        seq![("Gon", Some("going")), ("na", Some("to"))],
        seq![("got", None), ("ta", Some("to"))],
        seq![("Got", Some("got")), ("ta", Some("to"))],
        seq![("let", None), ("'s", Some("us"))],
        seq![("Let", Some("let")), ("'s", Some("us"))],
        seq![("c'm", Some("come")), ("on", None)],
        seq![("C'm", Some("come")), ("on", None)],
    ]
}

pub open spec fn single_token_list() -> Seq<(&'static str, Option<&'static str>)> {
    seq![
        ("'S", Some("'s")), ("'s", Some("'s")), ("\u{2018}S", Some("'s")), ("\u{2018}s", Some("'s")),
        ("and/or", None), ("w/o", Some("without")), ("'re", Some("are")),
        ("'Cause", Some("because")), ("'cause", Some("because")), ("'cos", Some("because")),
        ("'Cos", Some("because")), ("'coz", Some("because")), ("'Coz", Some("because")),
        ("'cuz", Some("because")), ("'Cuz", Some("because")), ("'bout", Some("about")),
        ("ma'am", Some("madam")), ("Ma'am", Some("madam")),
        ("o'clock", None), ("O'clock", None),
        ("lovin'", Some("loving")), ("Lovin'", Some("loving")), ("lovin", Some("loving")), ("Lovin", Some("loving")),
        ("havin'", Some("having")), ("Havin'", Some("having")), ("havin", Some("having")), ("Havin", Some("having")),
        ("doin'", Some("doing")), ("Doin'", Some("doing")), ("doin", Some("doing")), ("Doin", Some("doing")),
        ("goin'", Some("going")), ("Goin'", Some("going")), ("goin", Some("going")), ("Goin", Some("going")),
        ("Mt.", Some("Mount")), ("Ak.", Some("Alaska")), ("Ala.", Some("Alabama")), ("Apr.", Some("April")),
        ("Ariz.", Some("Arizona")), ("Ark.", Some("Arkansas")), ("Aug.", Some("August")),
        ("Calif.", Some("California")), ("Colo.", Some("Colorado")), ("Conn.", Some("Connecticut")),
        ("Dec.", Some("December")), ("Del.", Some("Delaware")), ("Feb.", Some("February")),
        ("Fla.", Some("Florida")), ("Ga.", Some("Georgia")), ("Ia.", Some("Iowa")),
        ("Id.", Some("Idaho")), ("Ill.", Some("Illinois")), ("Ind.", Some("Indiana")),
        ("Jan.", Some("January")), ("Jul.", Some("July")), ("Jun.", Some("June")),
        ("Kan.", Some("Kansas")), ("Kans.", Some("Kansas")), ("Ky.", Some("Kentucky")),
        ("La.", Some("Louisiana")), ("Mar.", Some("March")), ("Mass.", Some("Massachusetts")),
        ("Mich.", Some("Michigan")), ("Minn.", Some("Minnesota")), ("Miss.", Some("Mississippi")),
        ("N.C.", Some("North Carolina")), ("N.D.", Some("North Dakota")), ("N.H.", Some("New Hampshire")),
        ("N.J.", Some("New Jersey")), ("N.M.", Some("New Mexico")), ("N.Y.", Some("New York")),
        ("Neb.", Some("Nebraska")), ("Nebr.", Some("Nebraska")), ("Nev.", Some("Nevada")),
        ("Nov.", Some("November")), ("Oct.", Some("October")), ("Okla.", Some("Oklahoma")),
        ("Ore.", Some("Oregon")), ("Pa.", Some("Pennsylvania")), ("S.C.", Some("South Carolina")),
        ("Sep.", Some("September")), ("Sept.", Some("September")), ("Tenn.", Some("Tennessee")),
        ("Va.", Some("Virginia")), ("Wash.", Some("Washington")), ("Wis.", Some("Wisconsin")),
    ]
}

pub open spec fn plain_orth_list() -> Seq<&'static str> {
    seq![
        "'d", "a.m.", "Adm.", "Bros.", "co.", "Co.", "Corp.", "D.C.", "Dr.",
        "e.g.", "E.g.", "E.G.", "Gen.", "Gov.", "i.e.", "I.e.", "I.E.", "Inc.", "Jr.",
        "Ltd.", "Md.", "Messrs.", "Mo.", "Mont.", "Mr.", "Mrs.", "Ms.", "p.m.",
        "Ph.D.", "Prof.", "Rep.", "Rev.", "Sen.", "St.", "vs.", "v.s.",
    ]
}

/// The English entries added before abbreviations and emoticons, in order.
pub open spec fn english_main_entries() -> Seq<Seq<(Seq<char>, Option<Seq<char>>)>> {
    pair_block(seq![FormKind::Am], pairs_view(seq![("i", "i")])) + pair_block(
        seq![FormKind::Will, FormKind::Would],
        pairs_view(pronoun_list()),
    ) + pair_block(seq![FormKind::Have], pairs_view(have_pronoun_list())) + pair_block(
        seq![FormKind::Are],
        pairs_view(are_pronoun_list()),
    ) + pair_block(seq![FormKind::Is], pairs_view(is_pronoun_list())) + w_block(words_view(w_word_list()))
        + pair_block(seq![FormKind::NotHave], pairs_view(not_have_verb_list())) + pair_block(
        seq![FormKind::Have],
        pairs_view(have_verb_list()),
    ) + pair_block(seq![FormKind::Not], pairs_view(not_verb_list())) + trailing_block(
        pairs_view(trailing_apostrophe_list()),
    ) + leading_block(pairs_view(leading_apostrophe_list())) + hours_block(strs_view(hour_list()))
        + fixed_entry_list().map_values(|v: Seq<(&str, Option<&str>)>| parts_view(v)) + single_entries(
        single_token_list(),
    ) + self_entries(strs_view(plain_orth_list()))
}

/// The English tokenizer exceptions.
pub open spec fn english_exception_table() -> Map<Seq<char>, Seq<(Seq<char>, Option<Seq<char>>)>> {
    without_keys(
        with_entries(
            with_absent(with_entries(Map::empty(), english_main_entries()), strs_view(abbreviation_list())),
            self_entries(strs_view(emoticon_list())),
        ),
        excluded_words(),
    )
}

pub proof fn lemma_with_two(m: Map<Seq<char>, Seq<(Seq<char>, Option<Seq<char>>)>>, a: Seq<(Seq<char>, Option<Seq<char>>)>, b: Seq<(Seq<char>, Option<Seq<char>>)>)
    ensures
        with_entries(m, seq![a, b]) == m.insert(entry_key_of(a), a).insert(entry_key_of(b), b),
{
    assert(seq![a, b].drop_last() =~= seq![a]);
    assert(seq![a, b].last() == b);
    assert(seq![a].last() == a);
    assert(with_entries(m, seq![a].drop_last()) == with_entries(m, Seq::<Seq<(Seq<char>, Option<Seq<char>>)>>::empty()));
    assert(with_entries(m, seq![a]) == m.insert(entry_key_of(a), a));
    assert(seq![a].drop_last() =~= Seq::<Seq<(Seq<char>, Option<Seq<char>>)>>::empty());
}

/// Adds the contracted forms of pronouns.
fn add_pronoun_forms(m: &mut ExceptionMap)
    ensures
        entries_spell_keys(old(m)@) ==> entries_spell_keys(final(m)@),
        table_view(final(m)@) == with_entries(
            table_view(old(m)@),
            pair_block(seq![FormKind::Am], pairs_view(seq![("i", "i")])) + pair_block(
                seq![FormKind::Will, FormKind::Would],
                pairs_view(pronoun_list()),
            ) + pair_block(seq![FormKind::Have], pairs_view(have_pronoun_list())) + pair_block(
                seq![FormKind::Are],
                pairs_view(are_pronoun_list()),
            ) + pair_block(seq![FormKind::Is], pairs_view(is_pronoun_list())),
        ),
{
    let ghost e0 = table_view(m@);
    let am = vec![("i", "i")];
    let pronouns = vec![("i", "i"), ("you", "you"), ("he", "he"), ("she", "she"), ("it", "it"), ("we", "we"), ("they", "they")];
    let have_pronouns = vec![("i", "i"), ("you", "you"), ("we", "we"), ("they", "they")];
    let are_pronouns = vec![("you", "you"), ("we", "we"), ("they", "they")];
    let is_pronouns = vec![("he", "he"), ("she", "she"), ("it", "it")];
    let k1 = vec![FormKind::Am];
    let k2 = vec![FormKind::Will, FormKind::Would];
    let k3 = vec![FormKind::Have];
    let k4 = vec![FormKind::Are];
    let k5 = vec![FormKind::Is];
    proof {
        assert(am@ =~= seq![("i", "i")]);
        assert(pronouns@ =~= pronoun_list());
        assert(have_pronouns@ =~= have_pronoun_list());
        assert(are_pronouns@ =~= are_pronoun_list());
        assert(is_pronouns@ =~= is_pronoun_list());
        assert(k1@ =~= seq![FormKind::Am]);
        assert(k2@ =~= seq![FormKind::Will, FormKind::Would]);
        assert(k3@ =~= seq![FormKind::Have]);
        assert(k4@ =~= seq![FormKind::Are]);
        assert(k5@ =~= seq![FormKind::Is]);
    }
    let ghost b1 = pair_block(seq![FormKind::Am], pairs_view(seq![("i", "i")]));
    let ghost b2 = pair_block(seq![FormKind::Will, FormKind::Would], pairs_view(pronoun_list()));
    let ghost b3 = pair_block(seq![FormKind::Have], pairs_view(have_pronoun_list()));
    let ghost b4 = pair_block(seq![FormKind::Are], pairs_view(are_pronoun_list()));
    let ghost b5 = pair_block(seq![FormKind::Is], pairs_view(is_pronoun_list()));
    add_pair_block(m, &k1, &am);
    add_pair_block(m, &k2, &pronouns);
    proof {
        lemma_with_entries_append(e0, b1, b2);
    }
    add_pair_block(m, &k3, &have_pronouns);
    proof {
        lemma_with_entries_append(e0, b1 + b2, b3);
    }
    add_pair_block(m, &k4, &are_pronouns);
    proof {
        lemma_with_entries_append(e0, b1 + b2 + b3, b4);
    }
    add_pair_block(m, &k5, &is_pronouns);
    proof {
        lemma_with_entries_append(e0, b1 + b2 + b3 + b4, b5);
    }
}

/// Adds the contracted forms of question words and demonstratives.
fn add_w_word_forms(m: &mut ExceptionMap)
    ensures
        entries_spell_keys(old(m)@) ==> entries_spell_keys(final(m)@),
        table_view(final(m)@) == with_entries(table_view(old(m)@), w_block(words_view(w_word_list()))),
{
    let ghost e0 = table_view(m@);
    let w_words: Vec<(&str, Option<&str>)> = vec![
        ("who", None), ("what", None), ("when", None), ("where", None), ("why", None),
        ("how", None), ("there", None), ("that", Some("Number=Sing|Person=3")),
        ("this", Some("Number=Sing|Person=3")), ("these", Some("Number=Plur|Person=3")),
        ("those", Some("Number=Plur|Person=3")),
    ];
    proof {
        assert(w_words@ =~= w_word_list());
    }
    let mut i: usize = 0;
    while i < w_words.len()
        invariant
            i <= w_words.len(),
            w_words@ == w_word_list(),
            entries_spell_keys(old(m)@) ==> entries_spell_keys(m@),
            table_view(m@) == with_entries(e0, w_block(words_view(w_words@.take(i as int)))),
        decreases w_words.len() - i,
    {
        let (word, morph) = w_words[i];
        let kinds = w_kinds_of(morph);
        let cap = capitalize(word);
        let ghost before = w_block(words_view(w_words@.take(i as int)));
        add_forms_all(m, &kinds, word, word);
        add_forms_all(m, &kinds, cap.as_str(), word);
        proof {
            let q = words_view(w_words@.take(i as int + 1));
            assert(q.drop_last() =~= words_view(w_words@.take(i as int)));
            assert(q.last() == (word@, opt_text(morph)));
            lemma_with_entries_append(e0, before, forms_all(kinds@, word@, word@));
            lemma_with_entries_append(e0, before + forms_all(kinds@, word@, word@), forms_all(kinds@, cap@, word@));
        }
        i = i + 1;
    }
    proof {
        assert(w_words@.take(i as int) =~= w_words@);
    }
}

/// Adds the negated and "have" forms of verbs.
fn add_verb_forms(m: &mut ExceptionMap)
    ensures
        entries_spell_keys(old(m)@) ==> entries_spell_keys(final(m)@),
        table_view(final(m)@) == with_entries(
            table_view(old(m)@),
            pair_block(seq![FormKind::NotHave], pairs_view(not_have_verb_list())) + pair_block(
                seq![FormKind::Have],
                pairs_view(have_verb_list()),
            ) + pair_block(seq![FormKind::Not], pairs_view(not_verb_list())),
        ),
{
    let ghost e0 = table_view(m@);
    let not_have_verbs: Vec<(&str, &str)> = vec![
        ("ca", "can"), ("could", "could"), ("do", "do"),
        ("does", "does"), ("did", "do"), ("had", "have"),
        ("may", "may"), ("might", "might"), ("must", "must"),
        ("need", "need"), ("ought", "ought"), ("sha", "shall"),
        ("should", "should"), ("wo", "will"), ("would", "would"),
    ];
    let have_verbs: Vec<(&str, &str)> = vec![
        ("could", "could"), ("might", "might"), ("must", "must"),
        ("should", "should"), ("would", "would"),
    ];
    let not_verbs: Vec<(&str, &str)> = vec![
        ("ai", "ai"), ("are", "are"), ("is", "is"), ("was", "was"), ("were", "were"),
        ("have", "have"), ("has", "has"), ("dare", "dare"),
    ];
    let k1 = vec![FormKind::NotHave];
    let k2 = vec![FormKind::Have];
    let k3 = vec![FormKind::Not];
    proof {
        assert(not_have_verbs@ =~= not_have_verb_list());
        assert(have_verbs@ =~= have_verb_list());
        assert(not_verbs@ =~= not_verb_list());
        assert(k1@ =~= seq![FormKind::NotHave]);
        assert(k2@ =~= seq![FormKind::Have]);
        assert(k3@ =~= seq![FormKind::Not]);
    }
    let ghost b1 = pair_block(seq![FormKind::NotHave], pairs_view(not_have_verb_list()));
    let ghost b2 = pair_block(seq![FormKind::Have], pairs_view(have_verb_list()));
    let ghost b3 = pair_block(seq![FormKind::Not], pairs_view(not_verb_list()));
    add_pair_block(m, &k1, &not_have_verbs);
    add_pair_block(m, &k2, &have_verbs);
    proof {
        lemma_with_entries_append(e0, b1, b2);
    }
    add_pair_block(m, &k3, &not_verbs);
    proof {
        lemma_with_entries_append(e0, b1 + b2, b3);
    }
}

/// Adds a word with a dropped final letter, and with an apostrophe.
fn add_trailing_forms(m: &mut ExceptionMap, form: &str, norm: &str)
    ensures
        entries_spell_keys(old(m)@) ==> entries_spell_keys(final(m)@),
        table_view(final(m)@) == with_entries(table_view(old(m)@), trailing_entries(form@, norm@)),
{
    let ghost e0 = table_view(m@);
    let mut with_apos = form.to_owned();
    with_apos.append("'");
    add_single(m, form, Some(norm));
    add_single(m, with_apos.as_str(), Some(norm));
    proof {
        assert(trailing_entries(form@, norm@) =~= seq![
            seq![(form@, opt_text(Some(norm)))],
            seq![(with_apos@, opt_text(Some(norm)))],
        ]);
        lemma_with_two(e0, seq![(form@, opt_text(Some(norm)))], seq![(with_apos@, opt_text(Some(norm)))]);
    }
}

/// Adds the words with dropped letters, and the times of day.
fn add_dropped_letter_and_hour_forms(m: &mut ExceptionMap)
    ensures
        entries_spell_keys(old(m)@) ==> entries_spell_keys(final(m)@),
        table_view(final(m)@) == with_entries(
            table_view(old(m)@),
            trailing_block(pairs_view(trailing_apostrophe_list())) + leading_block(
                pairs_view(leading_apostrophe_list()),
            ) + hours_block(strs_view(hour_list())),
        ),
{
    let ghost e0 = table_view(m@);
    let trailing: Vec<(&str, &str)> = vec![
        ("doin", "doing"), ("goin", "going"), ("nothin", "nothing"),
        ("nuthin", "nothing"), ("ol", "old"), ("somethin", "something"),
    ];
    let leading: Vec<(&str, &str)> = vec![
        ("em", "them"), ("ll", "will"), ("nuff", "enough"),
    ];
    let hours: Vec<&str> = vec!["1", "2", "3", "4", "5", "6", "7", "8", "9", "10", "11", "12"];
    proof {
        assert(trailing@ =~= trailing_apostrophe_list());
        assert(leading@ =~= leading_apostrophe_list());
        assert(hours@ =~= hour_list());
    }
    let mut i: usize = 0;
    while i < trailing.len()
        invariant
            i <= trailing.len(),
            entries_spell_keys(old(m)@) ==> entries_spell_keys(m@),
            table_view(m@) == with_entries(e0, trailing_block(pairs_view(trailing@.take(i as int)))),
        decreases trailing.len() - i,
    {
        let (orth, norm) = trailing[i];
        let cap = capitalize(orth);
        let ghost before = trailing_block(pairs_view(trailing@.take(i as int)));
        add_trailing_forms(m, orth, norm);
        add_trailing_forms(m, cap.as_str(), norm);
        proof {
            let q = pairs_view(trailing@.take(i as int + 1));
            assert(q.drop_last() =~= pairs_view(trailing@.take(i as int)));
            assert(q.last() == (orth@, norm@));
            lemma_with_entries_append(e0, before, trailing_entries(orth@, norm@));
            lemma_with_entries_append(e0, before + trailing_entries(orth@, norm@), trailing_entries(cap@, norm@));
        }
        i = i + 1;
    }
    proof {
        assert(trailing@.take(i as int) =~= trailing@);
    }
    let ghost acc = trailing_block(pairs_view(trailing_apostrophe_list()));
    let mut i: usize = 0;
    while i < leading.len()
        invariant
            i <= leading.len(),
            entries_spell_keys(old(m)@) ==> entries_spell_keys(m@),
            table_view(m@) == with_entries(e0, acc + leading_block(pairs_view(leading@.take(i as int)))),
        decreases leading.len() - i,
    {
        let (orth, norm) = leading[i];
        let mut with_apos = "'".to_owned();
        with_apos.append(orth);
        let ghost before = acc + leading_block(pairs_view(leading@.take(i as int)));
        let ghost x = with_entries(e0, before);
        add_single(m, orth, Some(norm));
        add_single(m, with_apos.as_str(), Some(norm));
        proof {
            let a = seq![(orth@, opt_text(Some(norm)))];
            let b = seq![(with_apos@, opt_text(Some(norm)))];
            lemma_with_two(x, a, b);
            lemma_with_entries_append(e0, before, seq![a, b]);
            let q = pairs_view(leading@.take(i as int + 1));
            assert(q.drop_last() =~= pairs_view(leading@.take(i as int)));
            assert(q.last() == (orth@, norm@));
            assert(before + seq![a, b] =~= acc + leading_block(q));
        }
        i = i + 1;
    }
    proof {
        assert(leading@.take(i as int) =~= leading@);
    }
    let ghost acc = acc + leading_block(pairs_view(leading_apostrophe_list()));
    let mut i: usize = 0;
    while i < hours.len()
        invariant
            i <= hours.len(),
            entries_spell_keys(old(m)@) ==> entries_spell_keys(m@),
            table_view(m@) == with_entries(e0, acc + hours_block(strs_view(hours@.take(i as int)))),
        decreases hours.len() - i,
    {
        let h = hours[i];
        let es = vec![
            vec![(h, None), ("a.m.", Some("a.m."))],
            vec![(h, None), ("am", Some("a.m."))],
            vec![(h, None), ("p.m.", Some("p.m."))],
            vec![(h, None), ("pm", Some("p.m."))],
        ];
        let ghost before = acc + hours_block(strs_view(hours@.take(i as int)));
        add_all(m, &es);
        proof {
            let q = strs_view(hours@.take(i as int + 1));
            assert(q.drop_last() =~= strs_view(hours@.take(i as int)));
            assert(q.last() == h@);
            lemma_with_entries_append(e0, before, entries_of(es@));
            assert(before + entries_of(es@) =~~= acc + hours_block(q));
        }
        i = i + 1;
    }
    proof {
        assert(hours@.take(i as int) =~= hours@);
    }
}

/// Adds the fixed multi-token forms and the one-token forms.
fn add_fixed_forms(m: &mut ExceptionMap)
    ensures
        entries_spell_keys(old(m)@) ==> entries_spell_keys(final(m)@),
        table_view(final(m)@) == with_entries(
            table_view(old(m)@),
            fixed_entry_list().map_values(|v: Seq<(&str, Option<&str>)>| parts_view(v)) + single_entries(
                single_token_list(),
            ) + self_entries(strs_view(plain_orth_list())),
        ),
{
    let ghost e0 = table_view(m@);
    let fixed: Vec<Vec<(&str, Option<&str>)>> = vec![
        vec![("y'", Some("you")), ("all", None)],
        vec![("y", Some("you")), ("all", None)],
        vec![("how", None), ("'d", None), ("'y", Some("you"))],
        vec![("How", Some("how")), ("'d", None), ("'y", Some("you"))],
        vec![("not", None), ("'ve", Some("have"))],
        vec![("not", None), ("ve", Some("have"))],
        vec![("Not", Some("not")), ("'ve", Some("have"))],
        vec![("Not", Some("not")), ("ve", Some("have"))],
        vec![("can", None), ("not", None)],
        vec![("Can", Some("can")), ("not", None)],
        vec![("gon", Some("going")), ("na", Some("to"))],
        vec![("Gon", Some("going")), ("na", Some("to"))],
        vec![("got", None), ("ta", Some("to"))],
        vec![("Got", Some("got")), ("ta", Some("to"))],
        vec![("let", None), ("'s", Some("us"))],
        vec![("Let", Some("let")), ("'s", Some("us"))],
        vec![("c'm", Some("come")), ("on", None)],
        vec![("C'm", Some("come")), ("on", None)],
    ];
    let singles: Vec<(&str, Option<&str>)> = vec![
        ("'S", Some("'s")), ("'s", Some("'s")), ("\u{2018}S", Some("'s")), ("\u{2018}s", Some("'s")),
        ("and/or", None), ("w/o", Some("without")), ("'re", Some("are")),
        ("'Cause", Some("because")), ("'cause", Some("because")), ("'cos", Some("because")),
        ("'Cos", Some("because")), ("'coz", Some("because")), ("'Coz", Some("because")),
        ("'cuz", Some("because")), ("'Cuz", Some("because")), ("'bout", Some("about")),
        ("ma'am", Some("madam")), ("Ma'am", Some("madam")),
        ("o'clock", None), ("O'clock", None),
        ("lovin'", Some("loving")), ("Lovin'", Some("loving")), ("lovin", Some("loving")), ("Lovin", Some("loving")),
        ("havin'", Some("having")), ("Havin'", Some("having")), ("havin", Some("having")), ("Havin", Some("having")),
        ("doin'", Some("doing")), ("Doin'", Some("doing")), ("doin", Some("doing")), ("Doin", Some("doing")),
        ("goin'", Some("going")), ("Goin'", Some("going")), ("goin", Some("going")), ("Goin", Some("going")),
        ("Mt.", Some("Mount")), ("Ak.", Some("Alaska")), ("Ala.", Some("Alabama")), ("Apr.", Some("April")),
        ("Ariz.", Some("Arizona")), ("Ark.", Some("Arkansas")), ("Aug.", Some("August")),
        ("Calif.", Some("California")), ("Colo.", Some("Colorado")), ("Conn.", Some("Connecticut")),
        ("Dec.", Some("December")), ("Del.", Some("Delaware")), ("Feb.", Some("February")),
        ("Fla.", Some("Florida")), ("Ga.", Some("Georgia")), ("Ia.", Some("Iowa")),
        ("Id.", Some("Idaho")), ("Ill.", Some("Illinois")), ("Ind.", Some("Indiana")),
        ("Jan.", Some("January")), ("Jul.", Some("July")), ("Jun.", Some("June")),
        ("Kan.", Some("Kansas")), ("Kans.", Some("Kansas")), ("Ky.", Some("Kentucky")),
        ("La.", Some("Louisiana")), ("Mar.", Some("March")), ("Mass.", Some("Massachusetts")),
        ("Mich.", Some("Michigan")), ("Minn.", Some("Minnesota")), ("Miss.", Some("Mississippi")),
        ("N.C.", Some("North Carolina")), ("N.D.", Some("North Dakota")), ("N.H.", Some("New Hampshire")),
        ("N.J.", Some("New Jersey")), ("N.M.", Some("New Mexico")), ("N.Y.", Some("New York")),
        ("Neb.", Some("Nebraska")), ("Nebr.", Some("Nebraska")), ("Nev.", Some("Nevada")),
        ("Nov.", Some("November")), ("Oct.", Some("October")), ("Okla.", Some("Oklahoma")),
        ("Ore.", Some("Oregon")), ("Pa.", Some("Pennsylvania")), ("S.C.", Some("South Carolina")),
        ("Sep.", Some("September")), ("Sept.", Some("September")), ("Tenn.", Some("Tennessee")),
        ("Va.", Some("Virginia")), ("Wash.", Some("Washington")), ("Wis.", Some("Wisconsin")),
    ];
    let plain: Vec<&str> = vec![
        "'d", "a.m.", "Adm.", "Bros.", "co.", "Co.", "Corp.", "D.C.", "Dr.",
        "e.g.", "E.g.", "E.G.", "Gen.", "Gov.", "i.e.", "I.e.", "I.E.", "Inc.", "Jr.",
        "Ltd.", "Md.", "Messrs.", "Mo.", "Mont.", "Mr.", "Mrs.", "Ms.", "p.m.",
        "Ph.D.", "Prof.", "Rep.", "Rev.", "Sen.", "St.", "vs.", "v.s.",
    ];
    proof {
        assert(entries_of(fixed@) =~~= fixed_entry_list().map_values(|v: Seq<(&str, Option<&str>)>| parts_view(v)));
        assert(singles@ =~= single_token_list());
        assert(plain@ =~= plain_orth_list());
    }
    add_all(m, &fixed);
    let ghost acc = fixed_entry_list().map_values(|v: Seq<(&str, Option<&str>)>| parts_view(v));
    let mut i: usize = 0;
    while i < singles.len()
        invariant
            i <= singles.len(),
            entries_spell_keys(old(m)@) ==> entries_spell_keys(m@),
            table_view(m@) == with_entries(e0, acc + single_entries(singles@.take(i as int))),
        decreases singles.len() - i,
    {
        add_single(m, singles[i].0, singles[i].1);
        proof {
            let q = single_entries(singles@.take(i as int + 1));
            assert(q =~= single_entries(singles@.take(i as int)).push(
                seq![(singles@[i as int].0@, opt_text(singles@[i as int].1))],
            ));
            assert(acc + q =~= (acc + single_entries(singles@.take(i as int))).push(q.last()));
            lemma_with_entries_push(e0, acc + single_entries(singles@.take(i as int)), q.last());
        }
        i = i + 1;
    }
    proof {
        assert(singles@.take(i as int) =~= singles@);
    }
    let ghost acc = acc + single_entries(single_token_list());
    add_self_entries(m, &plain);
    proof {
        lemma_with_entries_append(e0, acc, self_entries(strs_view(plain_orth_list())));
    }
}

/// Adds the English entries that come before abbreviations and emoticons.
fn add_english_main_entries(exc: &mut ExceptionMap)
    ensures
        entries_spell_keys(old(exc)@) ==> entries_spell_keys(final(exc)@),
        table_view(final(exc)@) == with_entries(table_view(old(exc)@), english_main_entries()),
{
    let ghost e0 = table_view(exc@);
    let ghost b1 = pair_block(seq![FormKind::Am], pairs_view(seq![("i", "i")])) + pair_block(
        seq![FormKind::Will, FormKind::Would],
        pairs_view(pronoun_list()),
    ) + pair_block(seq![FormKind::Have], pairs_view(have_pronoun_list())) + pair_block(
        seq![FormKind::Are],
        pairs_view(are_pronoun_list()),
    ) + pair_block(seq![FormKind::Is], pairs_view(is_pronoun_list()));
    let ghost b2 = w_block(words_view(w_word_list()));
    let ghost b3 = pair_block(seq![FormKind::NotHave], pairs_view(not_have_verb_list())) + pair_block(
        seq![FormKind::Have],
        pairs_view(have_verb_list()),
    ) + pair_block(seq![FormKind::Not], pairs_view(not_verb_list()));
    let ghost b4 = trailing_block(pairs_view(trailing_apostrophe_list())) + leading_block(
        pairs_view(leading_apostrophe_list()),
    ) + hours_block(strs_view(hour_list()));
    let ghost b5 = fixed_entry_list().map_values(|v: Seq<(&str, Option<&str>)>| parts_view(v)) + single_entries(
        single_token_list(),
    ) + self_entries(strs_view(plain_orth_list()));
    add_pronoun_forms(exc);
    add_w_word_forms(exc);
    proof {
        lemma_with_entries_append(e0, b1, b2);
    }
    add_verb_forms(exc);
    proof {
        lemma_with_entries_append(e0, b1 + b2, b3);
    }
    add_dropped_letter_and_hour_forms(exc);
    proof {
        lemma_with_entries_append(e0, b1 + b2 + b3, b4);
    }
    add_fixed_forms(exc);
    proof {
        lemma_with_entries_append(e0, b1 + b2 + b3 + b4, b5);
        assert(b1 + b2 + b3 + b4 + b5 =~= english_main_entries());
    }
}

/// Adds a one-token entry for each abbreviation that has no entry yet.
fn add_abbreviations(exc: &mut ExceptionMap)
    ensures
        entries_spell_keys(old(exc)@) ==> entries_spell_keys(final(exc)@),
        table_view(final(exc)@) == with_absent(table_view(old(exc)@), strs_view(abbreviation_list())),
{
    let ghost main = table_view(exc@);
    let abbreviations = get_abbreviations_list();
    let mut i: usize = 0;
    while i < abbreviations.len()
        invariant
            i <= abbreviations.len(),
            entries_spell_keys(old(exc)@) ==> entries_spell_keys(exc@),
            table_view(exc@) == with_absent(main, strs_view(abbreviations@.take(i as int))),
        decreases abbreviations.len() - i,
    {
        proof {
            let q = strs_view(abbreviations@.take(i as int + 1));
            assert(q.drop_last() =~= strs_view(abbreviations@.take(i as int)));
            assert(q.last() == abbreviations@[i as int]@);
        }
        if !exc.contains_key(abbreviations[i]) {
            add_single(exc, abbreviations[i], None);
        }
        i = i + 1;
    }
    proof {
        assert(abbreviations@.take(i as int) =~= abbreviations@);
    }
}

/// Removes the words that only look like contractions.
fn remove_excluded(exc: &mut ExceptionMap)
    ensures
        entries_spell_keys(old(exc)@) ==> entries_spell_keys(final(exc)@),
        table_view(final(exc)@) == without_keys(table_view(old(exc)@), excluded_words()),
        forall|i: int| 0 <= i < excluded_words().len() ==> !final(exc)@.contains_key(#[trigger] excluded_words()[i]),
{
    let excluded = exclude_from_exceptions();
    let ghost before_removal = table_view(exc@);
    let mut i: usize = 0;
    while i < excluded.len()
        invariant
            i <= excluded.len(),
            strs_view(excluded@) == excluded_words(),
            entries_spell_keys(old(exc)@) ==> entries_spell_keys(exc@),
            forall|j: int| 0 <= j < i ==> !exc@.contains_key(#[trigger] excluded_words()[j]),
            table_view(exc@) == without_keys(before_removal, excluded_words().take(i as int)),
        decreases excluded.len() - i,
    {
        assert(excluded_words()[i as int] == excluded@[i as int]@);
        let ghost before = exc@;
        exc.remove(excluded[i]);
        proof {
            assert(excluded_words().take(i as int + 1).drop_last() =~= excluded_words().take(i as int));
            assert(table_view(exc@) =~= table_view(before).remove(excluded_words()[i as int]));
        }
        i = i + 1;
    }
    proof {
        assert(excluded_words().take(i as int) =~= excluded_words());
    }
}

/// The English tokenizer exceptions: pronoun and verb contractions, words
/// with dropped letters, times of day, fixed multi-token forms,
/// abbreviations and emoticons; without a few words that look like
/// contractions.
fn get_english_tokenizer_exceptions_inner() -> (r: ExceptionMap)
    ensures
        table_view(r@) == english_exception_table(),
        entries_spell_keys(r@),
        forall|i: int| 0 <= i < excluded_words().len() ==> !r@.contains_key(#[trigger] excluded_words()[i]),
{
    let mut exc: ExceptionMap = ExceptionMap::new();
    proof {
        assert(table_view(exc@) =~= Map::<Seq<char>, Seq<(Seq<char>, Option<Seq<char>>)>>::empty());
    }
    add_english_main_entries(&mut exc);
    add_abbreviations(&mut exc);
    let emo = emoticons();
    add_self_entries(&mut exc, &emo);
    remove_excluded(&mut exc);
    exc
}

/// The English tokenizer exceptions; every entry spells out its key.
pub fn get_english_tokenizer_exceptions() -> (r: ExceptionMap)
    ensures
        table_view(r@) == english_exception_table(),
        entries_spell_keys(r@),
        forall|i: int| 0 <= i < excluded_words().len() ==> !r@.contains_key(#[trigger] excluded_words()[i]),
{
    get_english_tokenizer_exceptions_inner()
}

/// Adds every text as a one-token entry of itself.
fn add_self_entries(m: &mut ExceptionMap, texts: &Vec<&str>)
    ensures
        entries_spell_keys(old(m)@) ==> entries_spell_keys(final(m)@),
        table_view(final(m)@) == with_entries(table_view(old(m)@), self_entries(strs_view(texts@))),
{
    let ghost start = table_view(m@);
    let mut i: usize = 0;
    while i < texts.len()
        invariant
            i <= texts.len(),
            entries_spell_keys(old(m)@) ==> entries_spell_keys(m@),
            table_view(m@) == with_entries(start, self_entries(strs_view(texts@.take(i as int)))),
        decreases texts.len() - i,
    {
        add_single(m, texts[i], None);
        proof {
            let e = self_entries(strs_view(texts@.take(i as int + 1)));
            assert(e.drop_last() =~= self_entries(strs_view(texts@.take(i as int))));
            assert(e.last() =~= seq![(texts@[i as int]@, opt_text(None))]);
        }
        i = i + 1;
    }
    proof {
        assert(texts@.take(i as int) =~= texts@);
    }
}

/// Whitespace and dash texts that stay whole.
pub open spec fn base_whitespace_list() -> Seq<&'static str> {
    seq![" ", "\t", "\\t", "\n", "\\n", "\u{2014}"]
}

/// Quotes, "C++" and single letters with a period.
pub open spec fn base_orth_list() -> Seq<&'static str> {
    seq![
            "'", "\\\")", "<space>", "''", "C++", "a.", "b.", "c.", "d.", "e.", "f.", "g.", "h.",
            "i.", "j.", "k.", "l.", "m.", "n.", "o.", "p.", "q.", "r.", "s.", "t.", "u.", "v.",
            "w.", "x.", "y.", "z.", "ä.", "ö.", "ü.",
        ]
}

/// The emoticons of the base exceptions.
pub open spec fn base_emoticon_list() -> Seq<&'static str> {
    seq![
            ":)", ":-)", ":))", ":-))", ":)))", ":-)))", "(:", "(-:", "=)", "(=", ":]", ":-]", "[:", "[-:", "[=", "=]", ":o)", "(o:", ":}", ":-}", "8)", "8-)", "(-8", ";)", ";-)", "(;", "(-;", ":(", ":-(", ":((", ":-((", ":(((", ":-(((", "):", ")-:", "=(", ">:(", ":')", ":'-)", ":'(", ":'-(", ":/", ":-/", "=/", "=|", ":|", ":-|", "]=", "=[", ":1", ":P", ":-P", ":p", ":-p", ":O", ":-O", ":o", ":-o", ":0", ":-0", ":()", ">:o", ":*", ":-*", ":3", ":-3", "=3", ":>", ":- >", ":X", ":-X", ":x", ":-x", ":D", ":-D", ";D", ";-D", "=D", "xD", "XD", "xDD", "XDD", "8D", "8-D", "^_^", "^__^", "^___^", ">.<", ">.>", "<.<", "._.", ";_;", "-_-", "-__-", "v.v", "V.V", "v_v", "V_V", "o_o", "o_O", "O_o", "O_O", "0_o", "o_0", "0_0", "o.O", "O.o", "O.O", "o.o", "0.0", "o.0", "0.o", "@_@", "<3", "<33", "<333", "</3", "(^_^)", "(-_-)", "(._.)", "(>_<)", "(*_*)", "(¬_¬)", "ಠ_ಠ", "ಠ︵ಠ", "(ಠ_ಠ)", "¯\\(ツ)/¯", "(╯°□°）╯︵┻━┻", "><(((*>",
        ]
}

/// A degree sign, a unit letter and a period, as three tokens.
pub open spec fn degree_entries(units: Seq<Seq<char>>) -> Seq<Seq<(Seq<char>, Option<Seq<char>>)>> {
    units.map_values(|u: Seq<char>| seq![("°"@, None::<Seq<char>>), (u, None::<Seq<char>>), ("."@, None::<Seq<char>>)])
}

/// The base exception entries, in the order they are added.
pub open spec fn base_exception_entries() -> Seq<Seq<(Seq<char>, Option<Seq<char>>)>> {
    self_entries(strs_view(base_whitespace_list())) + seq![seq![("\u{00a0}"@, Some("  "@))]] + self_entries(
        strs_view(base_orth_list()),
    ) + self_entries(strs_view(base_emoticon_list())) + degree_entries(strs_view(seq!["c", "f", "k", "C", "F", "K"]))
}

/// The base exceptions shared by all languages.
pub open spec fn base_exception_table() -> Map<Seq<char>, Seq<(Seq<char>, Option<Seq<char>>)>> {
    with_entries(Map::empty(), base_exception_entries())
}

/// The base exceptions shared by all languages: whitespace and dashes,
/// quotes, "C++", single letters with a period, emoticons, and degree signs
/// with a unit letter and a period.
pub fn base_exceptions() -> (r: ExceptionMap)
    ensures
        entries_spell_keys(r@),
        table_view(r@) == base_exception_table(),
{
    let mut m: ExceptionMap = ExceptionMap::new();
    proof {
        assert(table_view(m@) =~= Map::<Seq<char>, Seq<(Seq<char>, Option<Seq<char>>)>>::empty());
    }
    let ghost e0 = Map::<Seq<char>, Seq<(Seq<char>, Option<Seq<char>>)>>::empty();
    let whitespace = vec![" ", "\t", "\\t", "\n", "\\n", "\u{2014}"];
    let orth = vec![
            "'", "\\\")", "<space>", "''", "C++", "a.", "b.", "c.", "d.", "e.", "f.", "g.", "h.",
            "i.", "j.", "k.", "l.", "m.", "n.", "o.", "p.", "q.", "r.", "s.", "t.", "u.", "v.",
            "w.", "x.", "y.", "z.", "ä.", "ö.", "ü.",
        ];
    let emo = vec![
            ":)", ":-)", ":))", ":-))", ":)))", ":-)))", "(:", "(-:", "=)", "(=", ":]", ":-]", "[:", "[-:", "[=", "=]", ":o)", "(o:", ":}", ":-}", "8)", "8-)", "(-8", ";)", ";-)", "(;", "(-;", ":(", ":-(", ":((", ":-((", ":(((", ":-(((", "):", ")-:", "=(", ">:(", ":')", ":'-)", ":'(", ":'-(", ":/", ":-/", "=/", "=|", ":|", ":-|", "]=", "=[", ":1", ":P", ":-P", ":p", ":-p", ":O", ":-O", ":o", ":-o", ":0", ":-0", ":()", ">:o", ":*", ":-*", ":3", ":-3", "=3", ":>", ":- >", ":X", ":-X", ":x", ":-x", ":D", ":-D", ";D", ";-D", "=D", "xD", "XD", "xDD", "XDD", "8D", "8-D", "^_^", "^__^", "^___^", ">.<", ">.>", "<.<", "._.", ";_;", "-_-", "-__-", "v.v", "V.V", "v_v", "V_V", "o_o", "o_O", "O_o", "O_O", "0_o", "o_0", "0_0", "o.O", "O.o", "O.O", "o.o", "0.0", "o.0", "0.o", "@_@", "<3", "<33", "<333", "</3", "(^_^)", "(-_-)", "(._.)", "(>_<)", "(*_*)", "(¬_¬)", "ಠ_ಠ", "ಠ︵ಠ", "(ಠ_ಠ)", "¯\\(ツ)/¯", "(╯°□°）╯︵┻━┻", "><(((*>",
        ];
    let units: Vec<&str> = vec!["c", "f", "k", "C", "F", "K"];
    proof {
        assert(whitespace@ =~= base_whitespace_list());
        assert(orth@ =~= base_orth_list());
        assert(emo@ =~= base_emoticon_list());
        assert(units@ =~= seq!["c", "f", "k", "C", "F", "K"]);
    }
    let ghost a = self_entries(strs_view(base_whitespace_list()));
    let ghost b = seq![seq![("\u{00a0}"@, Some("  "@))]];
    let ghost c = self_entries(strs_view(base_orth_list()));
    let ghost d = self_entries(strs_view(base_emoticon_list()));
    add_self_entries(&mut m, &whitespace);
    add_single(&mut m, "\u{00a0}", Some("  "));
    proof {
        assert(b.drop_last() =~= Seq::<Seq<(Seq<char>, Option<Seq<char>>)>>::empty());
        assert(with_entries(with_entries(e0, a), b.drop_last()) == with_entries(e0, a));
        assert(opt_text(Some("  ")) == Some("  "@));
        assert(b.last() =~= seq![("\u{00a0}"@, opt_text(Some("  ")))]);
        assert(table_view(m@) == with_entries(with_entries(e0, a), b));
        lemma_with_entries_append(e0, a, b);
    }
    add_self_entries(&mut m, &orth);
    proof {
        lemma_with_entries_append(e0, a + b, c);
    }
    add_self_entries(&mut m, &emo);
    proof {
        lemma_with_entries_append(e0, a + b + c, d);
    }
    let ghost done = a + b + c + d;
    let ghost us = strs_view(units@);
    let mut i: usize = 0;
    while i < units.len()
        invariant
            i <= units.len(),
            entries_spell_keys(m@),
            us == strs_view(units@),
            table_view(m@) == with_entries(with_entries(e0, done), degree_entries(us.take(i as int))),
        decreases units.len() - i,
    {
        add_triple(&mut m, "°", None, units[i], None, ".", None);
        proof {
            let e = degree_entries(us.take(i as int + 1));
            assert(e.drop_last() =~= degree_entries(us.take(i as int)));
            assert(e.last() =~= seq![("°"@, opt_text(None)), (units@[i as int]@, opt_text(None)), ("."@, opt_text(None))]);
        }
        i = i + 1;
    }
    proof {
        assert(us.take(i as int) =~= us);
        lemma_with_entries_append(e0, done, degree_entries(us));
        assert(done + degree_entries(us) =~= base_exception_entries());
    }
    m
}

/// The base exception entry for `orth`, if there is one.
pub fn get_exception(orth: &str) -> (r: Option<Vec<ExceptionToken>>)
    ensures
        match r {
            Some(v) => base_exception_table().contains_key(orth@) && entry_view(v@) == base_exception_table()[orth@],
            None => !base_exception_table().contains_key(orth@),
        },
        r matches Some(v) ==> concat_all(orths(v@)) == orth@,
{
    let m = base_exceptions();
    match m.get(orth) {
        Some(v) => {
            let c = copy_entry(v);
            proof {
                assert(table_view(m@)[orth@] == entry_view(v@));
            }
            Some(c)
        },
        None => None,
    }
}

/// `m` with the custom entries put in, in order; a later entry for a key
/// replaces an earlier one.
pub open spec fn with_overrides(
    m: Map<Seq<char>, Seq<(Seq<char>, Option<Seq<char>>)>>,
    custom: Seq<(String, Vec<ExceptionToken>)>,
) -> Map<Seq<char>, Seq<(Seq<char>, Option<Seq<char>>)>>
    decreases custom.len(),
{
    if custom.len() == 0 {
        m
    } else {
        with_overrides(m, custom.drop_last()).insert(custom.last().0@, entry_view(custom.last().1@))
    }
}

/// Puts the custom entries into `base`, in order.
pub fn merge_into(base: ExceptionMap, custom: &[(String, Vec<ExceptionToken>)]) -> (r: ExceptionMap)
    ensures
        table_view(r@) == with_overrides(table_view(base@), custom@),
{
    let mut m = base;
    let ghost start = table_view(m@);
    let mut i: usize = 0;
    while i < custom.len()
        invariant
            i <= custom.len(),
            table_view(m@) == with_overrides(start, custom@.take(i as int)),
        decreases custom.len() - i,
    {
        let key = custom[i].0.clone();
        let entry = copy_entry(&custom[i].1);
        let ghost before = m@;
        let ghost ev = entry@;
        m.insert(key, entry);
        proof {
            assert(custom@.take(i as int + 1).drop_last() =~= custom@.take(i as int));
            assert(custom@.take(i as int + 1).last() == custom@[i as int]);
            assert(table_view(m@) =~= table_view(before).insert(custom@[i as int].0@, entry_view(ev)));
        }
        i = i + 1;
    }
    proof {
        assert(custom@.take(i as int) =~= custom@);
    }
    m
}

/// The base exceptions with the custom entries put in, in order.
pub fn merge_exceptions(custom: &[(String, Vec<ExceptionToken>)]) -> (r: ExceptionMap)
    ensures
        table_view(r@) == with_overrides(base_exception_table(), custom@),
{
    let base = base_exceptions();
    merge_into(base, custom)
}

/// Whether `s` is a URL by the English URL pattern (false when the pattern
/// does not compile).
pub fn url_match(s: &str) -> (r: bool)
    ensures
        r == (regex_compiles(concat_all(url_pattern_parts())) && regex_first_match(
            concat_all(url_pattern_parts()),
            s@,
        ) is Some),
{
    let source = get_english_url_match_pattern_str();
    match Pattern::compile(source.as_str()) {
        Some(p) => p.find(s).is_some(),
        None => false,
    }
}

} // verus!
