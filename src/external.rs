//! The regular-expression and multi-literal matchers this library relies on,
//! with the contracts under which the rest of the crate uses them.

use vstd::prelude::*;

verus! {

/// What `fancy_regex::Regex::new` decides: whether a pattern compiles.
pub uninterp spec fn regex_compiles(pattern: Seq<char>) -> bool;

/// The first match of a compiled pattern in a haystack, as character
/// positions; `None` when there is no match or the search gave up.
pub uninterp spec fn regex_first_match(pattern: Seq<char>, haystack: Seq<char>) -> Option<(int, int)>;

/// All successive non-overlapping matches of a compiled pattern in a
/// haystack, as character positions; empty when the search gave up.
pub uninterp spec fn regex_all_matches(pattern: Seq<char>, haystack: Seq<char>) -> Seq<(int, int)>;

/// The characters that `fancy_regex::escape` escapes with a backslash.
pub open spec fn is_regex_special(c: char) -> bool {
    c == '\\' || c == '.' || c == '+' || c == '*' || c == '?' || c == '(' || c == ')' || c == '|' || c == '['
        || c == ']' || c == '{' || c == '}' || c == '^' || c == '$' || c == '#'
}

/// One character as a quoted regex: newline, tab and carriage return as
/// `\n`, `\t`, `\r`, a special character after a backslash, any other as
/// it is.
pub open spec fn quoted_char(c: char) -> Seq<char> {
    if c == '\n' {
        seq!['\\', 'n']
    } else if c == '\t' {
        seq!['\\', 't']
    } else if c == '\r' {
        seq!['\\', 'r']
    } else if is_regex_special(c) {
        seq!['\\', c]
    } else {
        seq![c]
    }
}

/// Each character of `s` quoted.
pub open spec fn quoted(s: Seq<char>) -> Seq<char>
    decreases s.len(),
{
    if s.len() == 0 {
        Seq::empty()
    } else {
        quoted(s.drop_last()) + quoted_char(s.last())
    }
}

/// The text that `fancy_regex::escape` makes of a literal: the literal
/// itself when it holds no special character, and otherwise every character
/// quoted.
pub open spec fn regex_escape_of(text: Seq<char>) -> Seq<char> {
    if exists|i: int| 0 <= i < text.len() && is_regex_special(#[trigger] text[i]) {
        quoted(text)
    } else {
        text
    }
}

/// Whether an Aho-Corasick automaton with standard match semantics can be
/// built over the given literals.
pub uninterp spec fn literal_matcher_builds(literals: Seq<Seq<char>>) -> bool;

/// Every occurrence of every literal of a set in a haystack, overlapping
/// ones included, as character positions.
pub uninterp spec fn literal_matches(literals: Seq<Seq<char>>, haystack: Seq<char>) -> Seq<(int, int)>;

/// What `char::to_uppercase` yields for a character.
pub uninterp spec fn uppercase_of(c: char) -> Seq<char>;

/// Every span lies inside a haystack of `n` characters.
pub open spec fn spans_within(spans: Seq<(int, int)>, n: int) -> bool {
    forall|i: int| 0 <= i < spans.len() ==> 0 <= #[trigger] spans[i].0 <= spans[i].1 <= n
}

/// Character positions of `usize` spans.
pub open spec fn spans_as_int(spans: Seq<(usize, usize)>) -> Seq<(int, int)> {
    spans.map_values(|s: (usize, usize)| (s.0 as int, s.1 as int))
}

/// `fancy_regex::Regex`, carried as an opaque value.
#[verifier::external_type_specification]
#[verifier::external_body]
pub struct ExRegex(fancy_regex::Regex);

/// `aho_corasick::AhoCorasick`, carried as an opaque value.
#[verifier::external_type_specification]
#[verifier::external_body]
pub struct ExAhoCorasick(aho_corasick::AhoCorasick);

/// A compiled regular expression together with the source it was compiled
/// from; only [`Pattern::compile`] makes one.
pub struct Pattern {
    source: String,
    compiled: fancy_regex::Regex,
}

impl View for Pattern {
    type V = Seq<char>;

    closed spec fn view(&self) -> Seq<char> {
        self.source@
    }
}

impl Pattern {
    /// Relies on `fancy_regex::Regex::new`: compiles `source` with the
    /// default options, or fails.
    #[verifier::external_body]
    pub(crate) fn compile(source: &str) -> (r: Option<Pattern>)
        ensures
            r.is_some() == regex_compiles(source@),
            r matches Some(p) ==> p@ == source@,
    {
        match fancy_regex::Regex::new(source) {
            Ok(re) => Some(Pattern { source: source.to_string(), compiled: re }),
            Err(_) => None,
        }
    }

    /// Relies on `fancy_regex::Regex::find`: the first match, with its byte
    /// offsets turned into character positions; a search error counts as no
    /// match.
    #[verifier::external_body]
    pub(crate) fn find(&self, haystack: &str) -> (r: Option<(usize, usize)>)
        ensures
            r matches Some(m) ==> m.0 <= m.1 <= haystack@.len(),
            regex_first_match(self@, haystack@) == (match r {
                Some(m) => Some((m.0 as int, m.1 as int)),
                None => None::<(int, int)>,
            }),
    {
        match self.compiled.find(haystack) {
            Ok(Some(m)) => Some((haystack[..m.start()].chars().count(), haystack[..m.end()].chars().count())),
            _ => None,
        }
    }

    /// Relies on `fancy_regex::Regex::find_iter`: all successive matches,
    /// with byte offsets turned into character positions; when the search
    /// gives up on any of them the result is empty.
    #[verifier::external_body]
    pub(crate) fn find_all(&self, haystack: &str) -> (r: Vec<(usize, usize)>)
        ensures
            spans_within(spans_as_int(r@), haystack@.len() as int),
            spans_as_int(r@) == regex_all_matches(self@, haystack@),
    {
        match self.compiled.find_iter(haystack).collect::<Result<Vec<_>, _>>() {
            Ok(ms) => ms.iter().map(|m| (haystack[..m.start()].chars().count(), haystack[..m.end()].chars().count())).collect(),
            Err(_) => Vec::new(),
        }
    }
}

/// A multi-literal automaton, built for overlapping search, together with
/// its literals; only
/// [`LiteralMatcher::build`] makes one.
pub struct LiteralMatcher {
    literals: Vec<String>,
    automaton: aho_corasick::AhoCorasick,
}

/// The character sequences of a list of strings.
pub open spec fn strings_view(v: Seq<String>) -> Seq<Seq<char>> {
    v.map_values(|s: String| s@)
}

impl View for LiteralMatcher {
    type V = Seq<Seq<char>>;

    closed spec fn view(&self) -> Seq<Seq<char>> {
        strings_view(self.literals@)
    }
}

/// Every literal has at least one character.
pub open spec fn literals_nonempty(l: Seq<Seq<char>>) -> bool {
    forall|k: int| 0 <= k < l.len() ==> (#[trigger] l[k]).len() > 0
}

/// Relies on `aho_corasick::AhoCorasickBuilder::build` with
/// `MatchKind::Standard`: builds the automaton over the literals, or fails.
#[verifier::external_body]
fn build_automaton(literals: &Vec<String>) -> (r: Option<aho_corasick::AhoCorasick>)
    requires
        literals_nonempty(strings_view(literals@)),
    ensures
        r.is_some() == literal_matcher_builds(strings_view(literals@)),
{
    aho_corasick::AhoCorasickBuilder::new().match_kind(aho_corasick::MatchKind::Standard).build(literals).ok()
}

impl LiteralMatcher {
    #[verifier::type_invariant]
    spec fn inv(&self) -> bool {
        literals_nonempty(strings_view(self.literals@))
    }

    /// Builds a matcher for overlapping search over non-empty literals, or
    /// fails.
    pub(crate) fn build(literals: &Vec<String>) -> (r: Option<LiteralMatcher>)
        requires
            literals_nonempty(strings_view(literals@)),
        ensures
            r.is_some() == literal_matcher_builds(strings_view(literals@)),
            r matches Some(m) ==> m@ == strings_view(literals@),
    {
        let mut copy: Vec<String> = Vec::new();
        let mut i: usize = 0;
        while i < literals.len()
            invariant
                i <= literals.len(),
                strings_view(copy@) == strings_view(literals@).take(i as int),
            decreases literals.len() - i,
        {
            let ghost before = strings_view(copy@);
            let s = literals[i].clone();
            copy.push(s);
            proof {
                assert(strings_view(copy@) =~= before.push(s@));
                assert(strings_view(literals@).take(i as int + 1) =~= strings_view(literals@).take(i as int).push(
                    literals@[i as int]@,
                ));
            }
            i = i + 1;
        }
        proof {
            assert(strings_view(literals@).take(i as int) =~= strings_view(literals@));
        }
        match build_automaton(literals) {
            Some(ac) => Some(LiteralMatcher { literals: copy, automaton: ac }),
            None => None,
        }
    }

    /// Every occurrence of every literal in `haystack`, overlapping ones
    /// included, as character positions.
    pub(crate) fn find_all(&self, haystack: &str) -> (r: Vec<(usize, usize)>)
        ensures
            spans_within(spans_as_int(r@), haystack@.len() as int),
            spans_as_int(r@) == literal_matches(self@, haystack@),
    {
        proof {
            use_type_invariant(self);
        }
        self.find_overlapping(haystack)
    }

    /// Relies on `aho_corasick::AhoCorasick::find_overlapping_iter`: every
    /// occurrence of every literal, overlapping ones included, with byte
    /// offsets turned into character positions. The automaton is built with
    /// standard semantics for unanchored search, so the call does not panic;
    /// its literals are not empty, so every match starts and ends on a
    /// character boundary.
    #[verifier::external_body]
    fn find_overlapping(&self, haystack: &str) -> (r: Vec<(usize, usize)>)
        requires
            literals_nonempty(self@),
        ensures
            spans_within(spans_as_int(r@), haystack@.len() as int),
            spans_as_int(r@) == literal_matches(self@, haystack@),
    {
        self.automaton.find_overlapping_iter(haystack).map(|m| (haystack[..m.start()].chars().count(), haystack[..m.end()].chars().count())).collect()
    }
}

/// Relies on `fancy_regex::escape`: `text` unchanged when it holds no
/// special character, and otherwise with every character quoted.
#[verifier::external_body]
pub(crate) fn escape_literal(text: &str) -> (r: String)
    ensures
        r@ == regex_escape_of(text@),
{
    fancy_regex::escape(text).into_owned()
}

/// Relies on `char::to_uppercase`: the uppercase form of one character.
#[verifier::external_body]
pub(crate) fn uppercase_char(c: char) -> (r: String)
    ensures
        r@ == uppercase_of(c),
{
    c.to_uppercase().collect()
}

} // verus!
