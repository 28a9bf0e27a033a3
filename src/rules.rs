//! The compiled rule set that chunk tokenization reads.

use vstd::prelude::*;
use vstd::hash_map::StringHashMap;
use crate::external::{literals_nonempty, literal_matcher_builds, regex_compiles, strings_view, LiteralMatcher, Pattern};
use crate::exceptions::{english_exception_table, entries_spell_keys, get_english_tokenizer_exceptions, table_view};
use crate::pattern::{
    get_english_literal_infix_strings, get_english_prefix_patterns, get_english_regex_infix_patterns,
    get_english_suffix_patterns, get_english_token_match_pattern_str, get_english_url_match_pattern_str,
    english_literal_infixes, english_regex_infix_patterns, english_suffix_patterns, english_token_match_pattern,
    prefix_pattern_list, push_texts, strs_view, url_pattern_parts,
};
use crate::spans::concat_all;
use crate::exceptions::ExceptionToken;

verus! {

/// Exception lookup: exact chunk text to its fixed decomposition.
pub type ExceptionMap = StringHashMap<Vec<ExceptionToken>>;

/// Every rule that chunk tokenization consults. Immutable once built, so it
/// can be shared by any number of concurrent readers.
pub struct TokenizerRules {
    pub prefixes: Vec<Pattern>,
    pub suffixes: Vec<Pattern>,
    pub regex_infixes: Vec<Pattern>,
    pub literal_infix_matcher: Option<LiteralMatcher>,
    pub token_match: Option<Pattern>,
    pub url_match: Option<Pattern>,
    pub exceptions: ExceptionMap,
}

/// The sources of a list of compiled patterns.
pub open spec fn sources(v: Seq<Pattern>) -> Seq<Seq<char>> {
    v.map_values(|p: Pattern| p@)
}

/// The literals of an optional literal matcher.
pub open spec fn literals_of(m: Option<LiteralMatcher>) -> Option<Seq<Seq<char>>> {
    match m {
        Some(m) => Some(m@),
        None => None,
    }
}

/// Why a rule set could not be built: the index of the first pattern of a
/// list that does not compile, or the single rule that failed.
#[derive(Debug, PartialEq, Eq, Structural)]
pub enum RuleError {
    Prefix(usize),
    Suffix(usize),
    RegexInfix(usize),
    LiteralInfix,
    TokenMatch,
    UrlMatch,
}

/// Every pattern compiles.
pub open spec fn all_compile(p: Seq<Seq<char>>) -> bool {
    forall|i: int| 0 <= i < p.len() ==> regex_compiles(#[trigger] p[i])
}

/// `i` is the first pattern that does not compile.
pub open spec fn first_failing(p: Seq<Seq<char>>, i: int) -> bool {
    &&& 0 <= i < p.len()
    &&& !regex_compiles(p[i])
    &&& forall|j: int| 0 <= j < i ==> regex_compiles(#[trigger] p[j])
}

/// An absent pattern, or one that compiles.
pub open spec fn opt_compiles(p: Option<Seq<char>>) -> bool {
    match p {
        Some(p) => regex_compiles(p),
        None => true,
    }
}

pub open spec fn opt_view(p: Option<&str>) -> Option<Seq<char>> {
    match p {
        Some(p) => Some(p@),
        None => None,
    }
}

pub open spec fn opt_source(p: Option<Pattern>) -> Option<Seq<char>> {
    match p {
        Some(p) => Some(p@),
        None => None,
    }
}

/// No literal is empty, and a matcher can be built over them.
pub open spec fn literals_usable(l: Seq<Seq<char>>) -> bool {
    literals_nonempty(l) && literal_matcher_builds(l)
}

/// Whether no string of `v` is empty.
fn no_empty_string(v: &Vec<String>) -> (r: bool)
    ensures
        r == literals_nonempty(strings_view(v@)),
{
    let mut i: usize = 0;
    while i < v.len()
        invariant
            i <= v.len(),
            forall|k: int| 0 <= k < i ==> (#[trigger] strings_view(v@)[k]).len() > 0,
        decreases v.len() - i,
    {
        assert(strings_view(v@)[i as int] == v@[i as int]@);
        if v[i].as_str().is_empty() {
            return false;
        }
        i = i + 1;
    }
    true
}

/// Every pattern compiles and the literal matcher, if any, builds over
/// non-empty literals.
pub open spec fn rules_compile(
    p: Seq<Seq<char>>,
    s: Seq<Seq<char>>,
    i: Seq<Seq<char>>,
    l: Seq<Seq<char>>,
    t: Option<Seq<char>>,
    u: Option<Seq<char>>,
) -> bool {
    &&& all_compile(p)
    &&& all_compile(s)
    &&& all_compile(i)
    &&& (l.len() == 0 || literals_usable(l))
    &&& opt_compiles(t)
    &&& opt_compiles(u)
}

/// The rule set holds exactly the compiled sources, and a literal matcher
/// over `l` unless `l` is empty.
pub open spec fn built_from(
    rules: TokenizerRules,
    p: Seq<Seq<char>>,
    s: Seq<Seq<char>>,
    i: Seq<Seq<char>>,
    l: Seq<Seq<char>>,
    t: Option<Seq<char>>,
    u: Option<Seq<char>>,
) -> bool {
    &&& sources(rules.prefixes@) == p
    &&& sources(rules.suffixes@) == s
    &&& sources(rules.regex_infixes@) == i
    &&& literals_of(rules.literal_infix_matcher) == (if l.len() == 0 {
        None
    } else {
        Some(l)
    })
    &&& opt_source(rules.token_match) == t
    &&& opt_source(rules.url_match) == u
}

/// The error names the first rule, in build order, that fails.
pub open spec fn explains(
    e: RuleError,
    p: Seq<Seq<char>>,
    s: Seq<Seq<char>>,
    i: Seq<Seq<char>>,
    l: Seq<Seq<char>>,
    t: Option<Seq<char>>,
    u: Option<Seq<char>>,
) -> bool {
    match e {
        RuleError::Prefix(k) => first_failing(p, k as int),
        RuleError::Suffix(k) => all_compile(p) && first_failing(s, k as int),
        RuleError::RegexInfix(k) => all_compile(p) && all_compile(s) && first_failing(i, k as int),
        RuleError::LiteralInfix => all_compile(p) && all_compile(s) && all_compile(i) && l.len() > 0
            && !literals_usable(l),
        RuleError::TokenMatch => all_compile(p) && all_compile(s) && all_compile(i) && (l.len() == 0
            || literals_usable(l)) && !opt_compiles(t),
        RuleError::UrlMatch => all_compile(p) && all_compile(s) && all_compile(i) && (l.len() == 0
            || literals_usable(l)) && opt_compiles(t) && !opt_compiles(u),
    }
}

/// Compiles each pattern, or names the first that does not compile.
pub fn compile_all(patterns: &Vec<String>) -> (r: Result<Vec<Pattern>, usize>)
    ensures
        match r {
            Ok(v) => all_compile(strings_view(patterns@)) && sources(v@) == strings_view(patterns@),
            Err(i) => first_failing(strings_view(patterns@), i as int),
        },
{
    let ghost p = strings_view(patterns@);
    let mut v: Vec<Pattern> = Vec::new();
    let mut i: usize = 0;
    while i < patterns.len()
        invariant
            i <= patterns.len(),
            p == strings_view(patterns@),
            sources(v@) == p.take(i as int),
            forall|j: int| 0 <= j < i ==> regex_compiles(#[trigger] p[j]),
        decreases patterns.len() - i,
    {
        assert(p[i as int] == patterns@[i as int]@);
        match Pattern::compile(patterns[i].as_str()) {
            Some(c) => {
                assert(c@ == p[i as int]);
                let ghost before = sources(v@);
                v.push(c);
                proof {
                    assert(sources(v@) =~= before.push(c@));
                    assert(sources(v@) =~= p.take(i as int + 1));
                }
            },
            None => {
                return Err(i);
            },
        }
        i = i + 1;
    }
    proof {
        assert(p.take(i as int) =~= p);
    }
    Ok(v)
}

/// Compiles an optional pattern.
fn compile_opt(p: Option<&str>) -> (r: Result<Option<Pattern>, ()>)
    ensures
        r is Ok <==> opt_compiles(opt_view(p)),
        r matches Ok(c) ==> opt_source(c) == opt_view(p),
{
    match p {
        Some(src) => match Pattern::compile(src) {
            Some(c) => Ok(Some(c)),
            None => Err(()),
        },
        None => Ok(None),
    }
}

impl TokenizerRules {
    /// Builds a rule set from pattern sources and an exception map. An empty
    /// list of literal infixes means no literal matcher.
    pub fn from_parts(
        prefixes: &Vec<String>,
        suffixes: &Vec<String>,
        regex_infixes: &Vec<String>,
        literal_infixes: &Vec<String>,
        token_match: Option<&str>,
        url_match: Option<&str>,
        exceptions: ExceptionMap,
    ) -> (r: Result<TokenizerRules, RuleError>)
        ensures
            r is Ok <==> rules_compile(
                strings_view(prefixes@),
                strings_view(suffixes@),
                strings_view(regex_infixes@),
                strings_view(literal_infixes@),
                opt_view(token_match),
                opt_view(url_match),
            ),
            r matches Ok(rules) ==> built_from(
                rules,
                strings_view(prefixes@),
                strings_view(suffixes@),
                strings_view(regex_infixes@),
                strings_view(literal_infixes@),
                opt_view(token_match),
                opt_view(url_match),
            ) && rules.exceptions@ == exceptions@,
            r matches Err(e) ==> explains(
                e,
                strings_view(prefixes@),
                strings_view(suffixes@),
                strings_view(regex_infixes@),
                strings_view(literal_infixes@),
                opt_view(token_match),
                opt_view(url_match),
            ),
    {
        let prefixes = match compile_all(prefixes) {
            Ok(v) => v,
            Err(i) => {
                return Err(RuleError::Prefix(i));
            },
        };
        let suffixes = match compile_all(suffixes) {
            Ok(v) => v,
            Err(i) => {
                return Err(RuleError::Suffix(i));
            },
        };
        let regex_infixes = match compile_all(regex_infixes) {
            Ok(v) => v,
            Err(i) => {
                return Err(RuleError::RegexInfix(i));
            },
        };
        let literal_infix_matcher = if literal_infixes.len() > 0 {
            if !no_empty_string(literal_infixes) {
                return Err(RuleError::LiteralInfix);
            }
            match LiteralMatcher::build(literal_infixes) {
                Some(m) => Some(m),
                None => {
                    return Err(RuleError::LiteralInfix);
                },
            }
        } else {
            None
        };
        let token_match = match compile_opt(token_match) {
            Ok(c) => c,
            Err(_) => {
                return Err(RuleError::TokenMatch);
            },
        };
        let url_match = match compile_opt(url_match) {
            Ok(c) => c,
            Err(_) => {
                return Err(RuleError::UrlMatch);
            },
        };
        Ok(TokenizerRules {
            prefixes,
            suffixes,
            regex_infixes,
            literal_infix_matcher,
            token_match,
            url_match,
            exceptions,
        })
    }

    /// The English rule set: the English prefix, suffix, regex infix,
    /// literal infix, whole-token and URL patterns, and the English
    /// exceptions. It is built exactly when all of them compile, and a
    /// failure names the first rule that does not.
    pub fn new() -> (r: Result<TokenizerRules, RuleError>)
        ensures
            r is Ok <==> rules_compile(
                strs_view(prefix_pattern_list()),
                english_suffix_patterns(),
                english_regex_infix_patterns(),
                english_literal_infixes(),
                Some(english_token_match_pattern()),
                Some(concat_all(url_pattern_parts())),
            ),
            r matches Ok(rules) ==> built_from(
                rules,
                strs_view(prefix_pattern_list()),
                english_suffix_patterns(),
                english_regex_infix_patterns(),
                english_literal_infixes(),
                Some(english_token_match_pattern()),
                Some(concat_all(url_pattern_parts())),
            ) && entries_spell_keys(rules.exceptions@) && table_view(rules.exceptions@)
                == english_exception_table(),
            r matches Err(e) ==> explains(
                e,
                strs_view(prefix_pattern_list()),
                english_suffix_patterns(),
                english_regex_infix_patterns(),
                english_literal_infixes(),
                Some(english_token_match_pattern()),
                Some(concat_all(url_pattern_parts())),
            ),
    {
        let prefix_strs = get_english_prefix_patterns();
        let mut prefixes: Vec<String> = Vec::new();
        push_texts(&mut prefixes, &prefix_strs);
        let suffixes = get_english_suffix_patterns();
        let regex_infixes = get_english_regex_infix_patterns();
        let literal_infixes = get_english_literal_infix_strings();
        let token_match = get_english_token_match_pattern_str();
        let url_match = get_english_url_match_pattern_str();
        let exceptions = get_english_tokenizer_exceptions();
        let token_ref: Option<&str> = match &token_match {
            Some(t) => Some(t.as_str()),
            None => None,
        };
        TokenizerRules::from_parts(
            &prefixes,
            &suffixes,
            &regex_infixes,
            &literal_infixes,
            token_ref,
            Some(url_match.as_str()),
            exceptions,
        )
    }
}

} // verus!
