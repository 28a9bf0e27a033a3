//! The English rule tables: prefix, suffix and infix patterns, the
//! whole-token and URL patterns, and the lists they are built from.

use vstd::prelude::*;
use vstd::relations::sorted_by;
use vstd::string::StrSliceExecFns;
use crate::external::{escape_literal, regex_escape_of, strings_view};
use crate::line::chars_of;
use crate::order::lemma_sorted_insert;
use crate::spans::concat_all;

verus! {

broadcast use vstd::seq_lib::group_to_multiset_ensures;

pub const FINAL_ALPHA_LOWER_CONTENT_STR: &'static str = "a-z";
pub const FINAL_ALPHA_UPPER_CONTENT_STR: &'static str = "A-Z";
pub const FINAL_ALPHA_CONTENT_STR: &'static str = "a-zA-Z";
pub const DIGITS_CONTENT_STR: &'static str = "0-9";
pub const FINAL_ALPHANUM_CONTENT_STR: &'static str = "a-zA-Z0-9";
pub const CONCAT_QUOTES_CONTENT_STR: &'static str = r#"'"`‘’“”„»«「」『』（）〔〕【】《》〈〉⟦⟧"#;
/// Multi-character hyphens, as a regex alternation.
pub const REGEX_MULTI_HYPHENS_PART: &'static str = r"--|---|——";
pub const CURRENCY_PATTERN_PART: &'static str = r"\$|£|€|¥|฿|US\$|C\$|A\$|₽|﷼|₴|₠|₡|₢|₣|₤|₥|₦|₧|₨|₩|₪|₫|€|₭|₮|₯|₰|₱|₲|₳|₴|₵|₶|₷|₸|₹|₺|₻|₼|₽|₾|₿";
pub const UNITS_PATTERN_PART: &'static str = "km|km²|km³|m|m²|m³|dm|dm²|dm³|cm|cm²|cm³|mm|mm²|mm³|ha|µm|nm|yd|in|ft|kg|g|mg|µg|t|lb|oz|m/s|km/h|kmh|mph|hPa|Pa|mbar|mb|MB|kb|KB|gb|GB|tb|TB|T|G|M|K|%";

/// The emoticons recognised as single tokens.
pub open spec fn emoticon_list() -> Seq<&'static str> {
    seq![
    ":)", ":-)", ":))", ":-))", ":)))", ":-)))", "(:", "(-:", "=)", "(=", ":]", ":-]", "[:", "[-:", "[=", "=]",
    ":o)", "(o:", ":}", ":-}", "8)", "8-)", "(-8", ";)", ";-)", "(;", "(-;", ":(", ":-(", ":((", ":-((", ":(((", ":-(((",
    "):", ")-:", "=(", ">:(", ":')", ":'-)", ":'(", ":'-(", ":/", ":-/", "=/", "=|", ":|", ":-|", "]=", "=[", ":1",
    ":P", ":-P", ":p", ":-p", ":O", ":-O", ":o", ":-o", ":0", ":-0", ":()", ">:o", ":*", ":-*", ":3", ":-3", "=3",
    ":>", ":->", ":X", ":-X", ":x", ":-x", ":D", ":-D", ";D", ";-D", "=D", "xD", "XD", "xDD", "XDD", "8D", "8-D",
    "^_^", "^__^", "^___^", ">.<", ">.>", "<.<", "._.", ";_;", "-_-", "-__-", "v.v", "V.V", "v_v", "V_V", "o_o",
    "o_O", "O_o", "O_O", "0_o", "o_0", "0_0", "o.O", "O.o", "O.O", "o.o", "0.0", "o.0", "0.o", "@_@", "<3", "<33",
    "<333", "</3", "(^_^)", "(-_-)", "(._.)", "(>_<)", "(*_*)", "(¬_¬)", "ಠ_ಠ", "ಠ︵ಠ", "(ಠ_ಠ)", "¯\\(ツ)/¯",
    "(╯°□°）╯︵┻━┻", "><(((*>",
    ]
}

/// The emoticons recognised as single tokens.
pub fn emoticons() -> (r: Vec<&'static str>)
    ensures
        r@ == emoticon_list(),
        r@.len() == 129,
{
    let v = vec![
    ":)", ":-)", ":))", ":-))", ":)))", ":-)))", "(:", "(-:", "=)", "(=", ":]", ":-]", "[:", "[-:", "[=", "=]",
    ":o)", "(o:", ":}", ":-}", "8)", "8-)", "(-8", ";)", ";-)", "(;", "(-;", ":(", ":-(", ":((", ":-((", ":(((", ":-(((",
    "):", ")-:", "=(", ">:(", ":')", ":'-)", ":'(", ":'-(", ":/", ":-/", "=/", "=|", ":|", ":-|", "]=", "=[", ":1",
    ":P", ":-P", ":p", ":-p", ":O", ":-O", ":o", ":-o", ":0", ":-0", ":()", ">:o", ":*", ":-*", ":3", ":-3", "=3",
    ":>", ":->", ":X", ":-X", ":x", ":-x", ":D", ":-D", ";D", ";-D", "=D", "xD", "XD", "xDD", "XDD", "8D", "8-D",
    "^_^", "^__^", "^___^", ">.<", ">.>", "<.<", "._.", ";_;", "-_-", "-__-", "v.v", "V.V", "v_v", "V_V", "o_o",
    "o_O", "O_o", "O_O", "0_o", "o_0", "0_0", "o.O", "O.o", "O.O", "o.o", "0.0", "o.0", "0.o", "@_@", "<3", "<33",
    "<333", "</3", "(^_^)", "(-_-)", "(._.)", "(>_<)", "(*_*)", "(¬_¬)", "ಠ_ಠ", "ಠ︵ಠ", "(ಠ_ಠ)", "¯\\(ツ)/¯",
    "(╯°□°）╯︵┻━┻", "><(((*>",
    ];
    proof {
        assert(v@ =~= emoticon_list());
    }
    v
}

/// Single-character hyphens, matched literally.
pub open spec fn hyphen_list() -> Seq<&'static str> {
    seq!["-", "–", "—", "~"]
}

/// Single-character hyphens, matched literally.
pub fn simple_literal_hyphens() -> (r: Vec<&'static str>)
    ensures
        r@ == hyphen_list(),
        r@.len() == 4,
        one_char_texts(r@),
{
    let v = vec!["-", "–", "—", "~"];
    proof {
        reveal_strlit("-");
        reveal_strlit("–");
        reveal_strlit("—");
        reveal_strlit("~");
        assert(v@ =~= hyphen_list());
    }
    v
}

/// Ellipsis characters, matched literally.
pub open spec fn ellipsis_literal_list() -> Seq<&'static str> {
    seq!["…", "⋯", "⋮"]
}

/// Ellipsis characters, matched literally.
pub fn list_ellipses_literals() -> (r: Vec<&'static str>)
    ensures
        r@ == ellipsis_literal_list(),
        r@.len() == 3,
        one_char_texts(r@),
{
    let v = vec!["…", "⋯", "⋮"];
    proof {
        reveal_strlit("…");
        reveal_strlit("⋯");
        reveal_strlit("⋮");
        assert(v@ =~= ellipsis_literal_list());
    }
    v
}

/// Ellipses of dots, as regexes: three or more dots, and two dots.
pub open spec fn ellipsis_regex_list() -> Seq<&'static str> {
    seq![r"\.{3,}", r"\.{2}"]
}

/// Ellipses of dots, as regexes: three or more dots, and two dots.
pub fn list_ellipses_regex() -> (r: Vec<&'static str>)
    ensures
        r@ == ellipsis_regex_list(),
        r@.len() == 2,
{
    let v = vec![r"\.{3,}", r"\.{2}"];
    proof {
        assert(v@ =~= ellipsis_regex_list());
    }
    v
}

/// Icon patterns.
pub open spec fn icon_pattern_list() -> Seq<&'static str> {
    seq![
    r"[❤⭐👍✔✘]",
    r"[😊😂😍🤔😅]",
    r":placeholdericon1:",
    r"placeholdericon2",
    ]
}

/// Icon patterns.
pub fn list_icons_patterns() -> (r: Vec<&'static str>)
    ensures
        r@ == icon_pattern_list(),
        r@.len() == 4,
{
    let v = vec![
    r"[❤⭐👍✔✘]",
    r"[😊😂😍🤔😅]",
    r":placeholdericon1:",
    r"placeholdericon2",
    ];
    proof {
        assert(v@ =~= icon_pattern_list());
    }
    v
}

/// Abbreviations that end in a period and stay whole.
pub open spec fn abbreviation_list() -> Seq<&'static str> {
    seq![
        "'d", "a.m.", "Adm.", "Bros.", "co.", "Co.", "Corp.", "D.C.", "Dr.",
        "e.g.", "E.g.", "E.G.", "etc.", "Gen.", "Gov.", "i.e.", "I.e.", "I.E.",
        "Inc.", "Jr.", "Ltd.", "Md.", "Messrs.", "Mo.", "Mont.", "Mr.", "Mrs.",
        "Ms.", "p.m.", "Ph.D.", "Prof.", "Rep.", "Rev.", "Sen.", "Sr.", "St.",
        "vs.", "v.s.", "viz.", "U.S.", "U.K.", "N.Y.", "L.A.",
        "Dec.", "approx.",
    
    ]
}

/// Abbreviations that end in a period and stay whole.
pub fn get_abbreviations_list() -> (r: Vec<&'static str>)
    ensures
        r@ == abbreviation_list(),
        r@.len() == 45,
{
    let v = vec![
        "'d", "a.m.", "Adm.", "Bros.", "co.", "Co.", "Corp.", "D.C.", "Dr.",
        "e.g.", "E.g.", "E.G.", "etc.", "Gen.", "Gov.", "i.e.", "I.e.", "I.E.",
        "Inc.", "Jr.", "Ltd.", "Md.", "Messrs.", "Mo.", "Mont.", "Mr.", "Mrs.",
        "Ms.", "p.m.", "Ph.D.", "Prof.", "Rep.", "Rev.", "Sen.", "Sr.", "St.",
        "vs.", "v.s.", "viz.", "U.S.", "U.K.", "N.Y.", "L.A.",
        "Dec.", "approx.",
    
    ];
    proof {
        assert(v@ =~= abbreviation_list());
    }
    v
}

/// Words left out of the exceptions although they look like contractions.
pub open spec fn excluded_words() -> Seq<Seq<char>> {
    seq!["Ill"@, "ill"@, "Its"@, "its"@, "Hell"@, "hell"@, "Shell"@, "shell"@, "Shed"@, "shed"@, "were"@, "Were"@, "Well"@, "well"@, "Whore"@, "whore"@]
}

/// Words that look like contractions but are left out of the exceptions.
pub fn exclude_from_exceptions() -> (r: Vec<&'static str>)
    ensures
        strs_view(r@) == excluded_words(),
{
    let v = vec![
    "Ill", "ill", "Its", "its", "Hell", "hell", "Shell", "shell",
    "Shed", "shed", "were", "Were", "Well", "well", "Whore", "whore",
    ];
    proof {
        assert(strs_view(v@) =~= excluded_words());
    }
    v
}

/// The prefix patterns, in the order they are tried.
pub open spec fn prefix_pattern_list() -> Seq<&'static str> {
    seq![
        r"§", r"%", r"=", r"—", r"–", r"\+(?![0-9])",
        r"\(", r"\[", r"\{", r"<",
        r#"""#, r"'", r"`", r"“", r"‘", r"‚", r"„", r"«", r"»",
        r"「", r"」", r"『", r"』", r"（", r"〔", r"【", r"《", r"〈", r"⟦",
        r"\$", r"¢", r"£", r"€", r"¥", r"֏", r"؋", r"₡", r"₢", r"₣", r"₤", r"₥", r"₦", r"₧",
        r"₨", r"₩", r"₪", r"₫", r"₭", r"₮", r"₯", r"₰", r"₱", r"₲", r"₳", r"₴", r"₵", r"₸",
        r"₺", r"₼", r"₽", r"₾", r"₿", r"៛", r"₹",
        r"#", r"&",
    ]
}

/// The prefix patterns, in the order they are tried.
pub fn get_english_prefix_patterns() -> (r: Vec<&'static str>)
    ensures
        r@ == prefix_pattern_list(),
        r@.len() == 66,
{
    let v = vec![
        r"§", r"%", r"=", r"—", r"–", r"\+(?![0-9])",
        r"\(", r"\[", r"\{", r"<",
        r#"""#, r"'", r"`", r"“", r"‘", r"‚", r"„", r"«", r"»",
        r"「", r"」", r"『", r"』", r"（", r"〔", r"【", r"《", r"〈", r"⟦",
        r"\$", r"¢", r"£", r"€", r"¥", r"֏", r"؋", r"₡", r"₢", r"₣", r"₤", r"₥", r"₦", r"₧",
        r"₨", r"₩", r"₪", r"₫", r"₭", r"₮", r"₯", r"₰", r"₱", r"₲", r"₳", r"₴", r"₵", r"₸",
        r"₺", r"₼", r"₽", r"₾", r"₿", r"៛", r"₹",
        r"#", r"&",
    ];
    proof {
        assert(v@ =~= prefix_pattern_list());
    }
    v
}

/// The character sequences of a list of string slices.
pub open spec fn strs_view(v: Seq<&str>) -> Seq<Seq<char>> {
    v.map_values(|s: &str| s@)
}

/// Longer texts (in bytes) first.
pub open spec fn longer_first() -> spec_fn(&'static str, &'static str) -> bool {
    |x: &'static str, y: &'static str| x.len() >= y.len()
}

/// The parts joined with `sep` between each two.
pub open spec fn joined(parts: Seq<Seq<char>>, sep: Seq<char>) -> Seq<char>
    decreases parts.len(),
{
    if parts.len() == 0 {
        Seq::empty()
    } else if parts.len() == 1 {
        parts[0]
    } else {
        joined(parts.drop_last(), sep) + sep + parts.last()
    }
}

/// A text with `[`, `]` and `-` escaped by a backslash, ready to stand in a
/// regex character class.
pub open spec fn class_escaped(s: Seq<char>) -> Seq<char>
    decreases s.len(),
{
    if s.len() == 0 {
        Seq::empty()
    } else {
        let c = s.last();
        let tail = if c == '[' || c == ']' || c == '-' {
            seq!['\\', c]
        } else {
            seq![c]
        };
        class_escaped(s.drop_last()) + tail
    }
}

/// Every text is one character long.
pub open spec fn one_char_texts(v: Seq<&str>) -> bool {
    forall|k: int| 0 <= k < v.len() ==> (#[trigger] v[k])@.len() == 1
}

/// None of the texts is an emoticon that the literal infix matcher leaves
/// out.
pub open spec fn keeps_out_excluded(v: Seq<Seq<char>>) -> bool {
    forall|k: int| 0 <= k < v.len() ==> !infix_excluded_emoticons().contains(#[trigger] v[k])
}

proof fn lemma_excluded_emoticons_are_longer()
    ensures
        forall|x: Seq<char>| infix_excluded_emoticons().contains(x) ==> x.len() >= 2,
{
    reveal_strlit("o.o");
    reveal_strlit("0.0");
    reveal_strlit("._.");
    reveal_strlit(":0");
    reveal_strlit(":1");
    reveal_strlit(":3");
    assert forall|x: Seq<char>| infix_excluded_emoticons().contains(x) implies x.len() >= 2 by {
        let k = choose|k: int| 0 <= k < infix_excluded_emoticons().len() && infix_excluded_emoticons()[k] == x;
    }
}

/// Appends one-character texts, none of which is an excluded emoticon.
fn push_one_char_texts(dst: &mut Vec<&'static str>, src: &Vec<&'static str>)
    requires
        one_char_texts(src@),
        keeps_out_excluded(strs_view(old(dst)@)),
    ensures
        keeps_out_excluded(strs_view(final(dst)@)),
        final(dst)@ == old(dst)@ + src@,
{
    proof {
        lemma_excluded_emoticons_are_longer();
    }
    let ghost start = dst@;
    let mut i: usize = 0;
    while i < src.len()
        invariant
            i <= src.len(),
            one_char_texts(src@),
            keeps_out_excluded(strs_view(dst@)),
            forall|x: Seq<char>| infix_excluded_emoticons().contains(x) ==> x.len() >= 2,
            dst@ == start + src@.take(i as int),
        decreases src.len() - i,
    {
        let ghost before = strs_view(dst@);
        dst.push(src[i]);
        proof {
            assert(src@[i as int]@.len() == 1);
            assert(strs_view(dst@) =~= before.push(src@[i as int]@));
            assert(dst@ =~= start + src@.take(i as int + 1));
        }
        i = i + 1;
    }
    proof {
        assert(src@.take(i as int) =~= src@);
    }
}

/// The emoticons that the literal infix matcher leaves out.
pub open spec fn infix_excluded_emoticons() -> Seq<Seq<char>> {
    seq!["o.o"@, "0.0"@, "._."@, ":0"@, ":1"@, ":3"@]
}

/// Concatenates string slices in order.
pub fn concat_strs(parts: &Vec<&str>) -> (r: String)
    ensures
        r@ == concat_all(strs_view(parts@)),
{
    let mut r = String::new();
    let mut i: usize = 0;
    while i < parts.len()
        invariant
            i <= parts.len(),
            r@ == concat_all(strs_view(parts@).take(i as int)),
        decreases parts.len() - i,
    {
        let ghost before = r@;
        r.append(parts[i]);
        proof {
            assert(strs_view(parts@).take(i as int + 1).drop_last() =~= strs_view(parts@).take(i as int));
            assert(strs_view(parts@).take(i as int + 1).last() == parts@[i as int]@);
        }
        i = i + 1;
    }
    proof {
        assert(strs_view(parts@).take(i as int) =~= strs_view(parts@));
    }
    r
}

/// Joins strings with `sep` between each two.
pub fn join_with(parts: &Vec<String>, sep: &str) -> (r: String)
    ensures
        r@ == joined(strings_view(parts@), sep@),
{
    let mut r = String::new();
    let mut i: usize = 0;
    while i < parts.len()
        invariant
            i <= parts.len(),
            r@ == joined(strings_view(parts@).take(i as int), sep@),
        decreases parts.len() - i,
    {
        proof {
            assert(strings_view(parts@).take(i as int + 1).drop_last() =~= strings_view(parts@).take(i as int));
            assert(strings_view(parts@).take(i as int + 1).last() == parts@[i as int]@);
        }
        if i > 0 {
            r.append(sep);
        } else {
            proof {
                assert(r@ =~= Seq::<char>::empty());
            }
        }
        r.append(parts[i].as_str());
        proof {
            if i == 0 {
                assert(strings_view(parts@).take(1)[0] == parts@[0]@);
            }
        }
        i = i + 1;
    }
    proof {
        assert(strings_view(parts@).take(i as int) =~= strings_view(parts@));
    }
    r
}

/// Escapes `[`, `]` and `-` with a backslash.
pub fn escape_class_chars(s: &str) -> (r: String)
    ensures
        r@ == class_escaped(s@),
{
    let cs = chars_of(s);
    let mut r = String::new();
    let mut i: usize = 0;
    while i < cs.len()
        invariant
            i <= cs.len(),
            cs@ == s@,
            r@ == class_escaped(s@.take(i as int)),
        decreases cs.len() - i,
    {
        let c = cs[i];
        proof {
            assert(s@.take(i as int + 1).drop_last() =~= s@.take(i as int));
            assert(s@.take(i as int + 1).last() == c);
        }
        if c == '[' || c == ']' || c == '-' {
            proof {
                reveal_strlit("\\");
            }
            r.append("\\");
        }
        let one = s.substring_char(i, i + 1);
        proof {
            assert(one@ =~= seq![c]);
        }
        r.append(one);
        proof {
            if c == '[' || c == ']' || c == '-' {
                assert(r@ =~= class_escaped(s@.take(i as int)) + seq!['\\', c]);
            } else {
                assert(r@ =~= class_escaped(s@.take(i as int)) + seq![c]);
            }
        }
        i = i + 1;
    }
    proof {
        assert(s@.take(i as int) =~= s@);
    }
    r
}

/// Escapes each literal for use in a regex.
/// Each text escaped for use in a regex.
pub open spec fn escaped(s: Seq<Seq<char>>) -> Seq<Seq<char>> {
    s.map_values(|t: Seq<char>| regex_escape_of(t))
}

pub fn escape_each(v: &Vec<&str>) -> (r: Vec<String>)
    ensures
        strings_view(r@) == escaped(strs_view(v@)),
        r@.len() == v@.len(),
        forall|i: int| 0 <= i < v@.len() ==> (#[trigger] r@[i])@ == regex_escape_of(v@[i]@),
{
    let mut r: Vec<String> = Vec::new();
    let mut i: usize = 0;
    while i < v.len()
        invariant
            i <= v.len(),
            r@.len() == i,
            forall|k: int| 0 <= k < i ==> (#[trigger] r@[k])@ == regex_escape_of(v@[k]@),
        decreases v.len() - i,
    {
        r.push(escape_literal(v[i]));
        i = i + 1;
    }
    proof {
        assert(strings_view(r@) =~= escaped(strs_view(v@)));
    }
    r
}

/// Sorts texts longest first (in bytes), keeping the order of texts of one
/// length.
/// The first index from `j` on whose text is shorter (in bytes) than `x`;
/// the length of `r` when there is none.
pub open spec fn first_shorter(r: Seq<&'static str>, x: &'static str, j: int) -> int
    decreases r.len() - j,
{
    if j < 0 || j >= r.len() {
        r.len() as int
    } else if r[j].len() < x.len() {
        j
    } else {
        first_shorter(r, x, j + 1)
    }
}

/// The texts sorted longest first (in bytes), texts of one length in their
/// order in `s`: each is inserted before the first text shorter than it.
pub open spec fn sorted_longest_first(s: Seq<&'static str>) -> Seq<&'static str>
    decreases s.len(),
{
    if s.len() == 0 {
        Seq::empty()
    } else {
        let r = sorted_longest_first(s.drop_last());
        r.insert(first_shorter(r, s.last(), 0), s.last())
    }
}

pub fn sort_longest_first(v: &Vec<&'static str>) -> (r: Vec<&'static str>)
    ensures
        r@ == sorted_longest_first(v@),
        sorted_by(r@, longer_first()),
        r@.to_multiset() == v@.to_multiset(),
{
    let mut r: Vec<&'static str> = Vec::new();
    let mut i: usize = 0;
    while i < v.len()
        invariant
            i <= v.len(),
            sorted_by(r@, longer_first()),
            r@.to_multiset() == v@.take(i as int).to_multiset(),
            r@ == sorted_longest_first(v@.take(i as int)),
        decreases v.len() - i,
    {
        let x = v[i];
        let xl = x.len();
        let mut j: usize = 0;
        while j < r.len() && r[j].len() >= xl
            invariant
                j <= r.len(),
                xl == x.len(),
                first_shorter(r@, x, 0) == first_shorter(r@, x, j as int),
                forall|k: int| 0 <= k < j ==> (#[trigger] r@[k]).len() >= x.len(),
            decreases r.len() - j,
        {
            j = j + 1;
        }
        let ghost old_r = r@;
        proof {
            assert forall|k: int| j <= k < old_r.len() implies longer_first()(x, #[trigger] old_r[k]) by {
                if k > j {
                    assert(longer_first()(old_r[j as int], old_r[k]));
                }
            }
            lemma_sorted_insert(old_r, j as int, x, longer_first());
        }
        r.insert(j, x);
        proof {
            assert(v@.take(i as int + 1) =~= v@.take(i as int).push(x));
            assert(v@.take(i as int + 1).drop_last() =~= v@.take(i as int));
            assert(first_shorter(old_r, x, j as int) == j);
        }
        i = i + 1;
    }
    proof {
        assert(v@.take(i as int) =~= v@);
    }
    r
}

/// Whether `v` holds a text equal to `s`.
pub fn contains_text(v: &Vec<&str>, s: &str) -> (r: bool)
    ensures
        r == strs_view(v@).contains(s@),
{
    let target = s.to_owned();
    let mut i: usize = 0;
    while i < v.len()
        invariant
            i <= v.len(),
            target@ == s@,
            forall|k: int| 0 <= k < i ==> strs_view(v@)[k] != s@,
        decreases v.len() - i,
    {
        let candidate = v[i].to_owned();
        if candidate == target {
            proof {
                assert(strs_view(v@)[i as int] == s@);
            }
            return true;
        }
        i = i + 1;
    }
    false
}

/// The texts of `v` without repeats, each at its first occurrence.
/// The texts of `s` without repeats (by their characters), each at its
/// first occurrence.
pub open spec fn without_repeats(s: Seq<&'static str>) -> Seq<&'static str>
    decreases s.len(),
{
    if s.len() == 0 {
        Seq::empty()
    } else {
        let p = without_repeats(s.drop_last());
        if strs_view(p).contains(s.last()@) {
            p
        } else {
            p.push(s.last())
        }
    }
}

pub fn dedup_texts(v: &Vec<&'static str>) -> (r: Vec<&'static str>)
    ensures
        r@ == without_repeats(v@),
        strs_view(r@).no_duplicates(),
        forall|x: Seq<char>| strs_view(r@).contains(x) <==> strs_view(v@).contains(x),
        forall|k: int| 0 <= k < r@.len() ==> v@.contains(#[trigger] r@[k]),
{
    let mut r: Vec<&'static str> = Vec::new();
    let mut i: usize = 0;
    while i < v.len()
        invariant
            i <= v.len(),
            strs_view(r@).no_duplicates(),
            forall|x: Seq<char>| strs_view(r@).contains(x) <==> strs_view(v@.take(i as int)).contains(x),
            forall|k: int| 0 <= k < r@.len() ==> v@.contains(#[trigger] r@[k]),
            r@ == without_repeats(v@.take(i as int)),
        decreases v.len() - i,
    {
        let x = v[i];
        let ghost before = r@;
        proof {
            assert(v@.take(i as int + 1).drop_last() =~= v@.take(i as int));
            assert(v@.take(i as int + 1).last() == x);
        }
        let ghost was = strs_view(v@.take(i as int));
        assert(forall|y: Seq<char>| strs_view(before).contains(y) <==> was.contains(y));
        let seen = contains_text(&r, x);
        if !seen {
            r.push(x);
            proof {
                assert(strs_view(r@) =~= strs_view(before).push(x@));
            }
        }
        proof {
            let a = strs_view(v@.take(i as int));
            assert(strs_view(v@.take(i as int + 1)) =~= a.push(x@));
            assert forall|y: Seq<char>| a.push(x@).contains(y) <==> (a.contains(y) || y == x@) by {
                if y == x@ {
                    assert(a.push(x@)[a.len() as int] == x@);
                }
                if a.contains(y) {
                    let k = choose|k: int| 0 <= k < a.len() && a[k] == y;
                    assert(a.push(x@)[k] == y);
                }
                if a.push(x@).contains(y) && y != x@ {
                    let k = choose|k: int| 0 <= k < a.len() + 1 && a.push(x@)[k] == y;
                    assert(a[k] == y);
                }
            }
            assert forall|y: Seq<char>| strs_view(before).push(x@).contains(y) <==> (strs_view(before).contains(y) || y == x@) by {
                let b = strs_view(before);
                if y == x@ {
                    assert(b.push(x@)[b.len() as int] == x@);
                }
                if b.contains(y) {
                    let k = choose|k: int| 0 <= k < b.len() && b[k] == y;
                    assert(b.push(x@)[k] == y);
                }
                if b.push(x@).contains(y) && y != x@ {
                    let k = choose|k: int| 0 <= k < b.len() + 1 && b.push(x@)[k] == y;
                    assert(b[k] == y);
                }
            }
            assert(v@.contains(v@[i as int]));
            assert forall|y: Seq<char>| strs_view(r@).contains(y) <==> strs_view(v@.take(i as int + 1)).contains(y) by {
                assert(strs_view(v@.take(i as int + 1)) == was.push(x@));
                assert(was.push(x@).contains(y) <==> (was.contains(y) || y == x@));
                assert(strs_view(before).contains(y) <==> was.contains(y));
                assert(strs_view(before).push(x@).contains(y) <==> (strs_view(before).contains(y) || y == x@));
                if seen {
                    assert(strs_view(r@) == strs_view(before));
                    assert(strs_view(before).contains(x@));
                } else {
                    assert(strs_view(r@) == strs_view(before).push(x@));
                }
            }
        }
        i = i + 1;
    }
    proof {
        assert(v@.take(i as int) =~= v@);
    }
    r
}

/// A regex alternation that matches any of the texts literally, tried in
/// the given order.
pub open spec fn alternation_of(items: Seq<Seq<char>>) -> Seq<char> {
    "(?:"@ + joined(items.map_values(|t: Seq<char>| regex_escape_of(t)), "|"@) + ")"@
}

/// Builds a regex alternation matching any of `items` literally, in order.
pub fn literal_alternation(items: &Vec<&str>) -> (r: String)
    ensures
        r@ == alternation_of(strs_view(items@)),
{
    let escaped = escape_each(items);
    proof {
        assert(strings_view(escaped@) =~= strs_view(items@).map_values(|t: Seq<char>| regex_escape_of(t)));
    }
    let body = join_with(&escaped, "|");
    let mut r = "(?:".to_owned();
    r.append(body.as_str());
    r.append(")");
    r
}

/// The emoticons, longest first, as one regex alternation.
pub open spec fn emoticon_alternation() -> Seq<char> {
    alternation_of(strs_view(sorted_longest_first(emoticon_list())))
}

fn get_emoticon_alternation_regex_str() -> (r: String)
    ensures
        r@ == emoticon_alternation(),
{
    let emo = emoticons();
    let sorted = sort_longest_first(&emo);
    literal_alternation(&sorted)
}

/// Appends each text, as an owned string, to `dst`.
pub(crate) fn push_texts(dst: &mut Vec<String>, src: &Vec<&str>)
    ensures
        strings_view(final(dst)@) == strings_view(old(dst)@) + strs_view(src@),
{
    let ghost start = strings_view(dst@);
    let mut i: usize = 0;
    while i < src.len()
        invariant
            i <= src.len(),
            strings_view(dst@) == start + strs_view(src@).take(i as int),
        decreases src.len() - i,
    {
        let ghost before = strings_view(dst@);
        dst.push(src[i].to_owned());
        proof {
            assert(strings_view(dst@) =~= before.push(src@[i as int]@));
            assert(strings_view(dst@) =~= start + strs_view(src@).take(i as int + 1));
        }
        i = i + 1;
    }
    proof {
        assert(strs_view(src@).take(i as int) =~= strs_view(src@));
    }
}

/// Appends strings to `dst`.
fn push_strings(dst: &mut Vec<String>, src: Vec<String>)
    ensures
        strings_view(final(dst)@) == strings_view(old(dst)@) + strings_view(src@),
{
    let ghost start = strings_view(dst@);
    let ghost added = strings_view(src@);
    let mut src = src;
    dst.append(&mut src);
    proof {
        assert(strings_view(dst@) =~= start + added);
    }
}

/// Punctuation, quote, clitic and dash suffixes, matched as they are.
pub open spec fn common_suffix_list() -> Seq<&'static str> {
    seq![
        r":", r";", r"!", r"\?", r"\.", r",",
        r"\)", r"\]", r"\}", r">",
        r#"""#, r"'", r"`", r"”", r"’", r"‚", r"„", r"»", r"«",
        r"」", r"「", r"』", r"『", r"）", r"〕", r"】", r"》", r"〉", r"⟧",
        r"'s", r"'S", r"’s", r"’S",
        r"—", r"–",
        r"(?<=[0-9])\+",
        r"(?<=°[FfCcKk])\.",
    ]
}

/// The suffix patterns, in the order they are tried: emoticons, ellipses,
/// abbreviations, then punctuation, quotes, clitics, currency and units
/// after digits, and periods after letters.
pub open spec fn english_suffix_patterns() -> Seq<Seq<char>> {
    seq![emoticon_alternation()] + strs_view(ellipsis_regex_list()) + escaped(strs_view(ellipsis_literal_list()))
        + escaped(strs_view(abbreviation_list())) + strs_view(common_suffix_list()) + seq![
        concat_all(seq![r"(?<=[0-9])(?:"@, CURRENCY_PATTERN_PART@, ")"@]),
        concat_all(seq![r"(?<=[0-9])(?:"@, UNITS_PATTERN_PART@, ")"@]),
        concat_all(
            seq![
                r"(?<=["@,
                FINAL_ALPHANUM_CONTENT_STR@,
                r"%²\-+"@,
                class_escaped(CONCAT_QUOTES_CONTENT_STR@),
                r"])\."@,
            ],
        ),
        r"(?<=[A-Z][A-Z])\."@,
    ]
}

/// The suffix patterns, in the order they are tried.
pub fn get_english_suffix_patterns() -> (r: Vec<String>)
    ensures
        strings_view(r@) == english_suffix_patterns(),
        r@.len() == 92,
{
    let mut patterns: Vec<String> = Vec::new();
    let alternation = get_emoticon_alternation_regex_str();
    patterns.push(alternation);
    proof {
        assert(strings_view(patterns@) =~= seq![emoticon_alternation()]);
    }
    push_texts(&mut patterns, &list_ellipses_regex());
    push_strings(&mut patterns, escape_each(&list_ellipses_literals()));
    push_strings(&mut patterns, escape_each(&get_abbreviations_list()));
    let common: Vec<&str> = vec![
        r":", r";", r"!", r"\?", r"\.", r",",
        r"\)", r"\]", r"\}", r">",
        r#"""#, r"'", r"`", r"”", r"’", r"‚", r"„", r"»", r"«",
        r"」", r"「", r"』", r"『", r"）", r"〕", r"】", r"》", r"〉", r"⟧",
        r"'s", r"'S", r"’s", r"’S",
        r"—", r"–",
        r"(?<=[0-9])\+",
        r"(?<=°[FfCcKk])\.",
    ];
    proof {
        assert(common@ =~= common_suffix_list());
    }
    push_texts(&mut patterns, &common);
    let ghost head = strings_view(patterns@);
    let cparts = vec![r"(?<=[0-9])(?:", CURRENCY_PATTERN_PART, ")"];
    let currency = concat_strs(&cparts);
    let uparts = vec![r"(?<=[0-9])(?:", UNITS_PATTERN_PART, ")"];
    let units = concat_strs(&uparts);
    let quotes = escape_class_chars(CONCAT_QUOTES_CONTENT_STR);
    let parts = vec![r"(?<=[", FINAL_ALPHANUM_CONTENT_STR, r"%²\-+", quotes.as_str(), r"])\."];
    let period = concat_strs(&parts);
    let upper = r"(?<=[A-Z][A-Z])\.".to_owned();
    proof {
        assert(strs_view(parts@) =~= seq![
            r"(?<=["@,
            FINAL_ALPHANUM_CONTENT_STR@,
            r"%²\-+"@,
            class_escaped(CONCAT_QUOTES_CONTENT_STR@),
            r"])\."@,
        ]);
    }
    patterns.push(currency);
    patterns.push(units);
    patterns.push(period);
    patterns.push(upper);
    proof {
        assert(strs_view(cparts@) =~= seq![r"(?<=[0-9])(?:"@, CURRENCY_PATTERN_PART@, ")"@]);
        assert(strs_view(uparts@) =~= seq![r"(?<=[0-9])(?:"@, UNITS_PATTERN_PART@, ")"@]);
        assert(strings_view(patterns@) =~= head + seq![currency@, units@, period@, upper@]);
        assert(strings_view(patterns@) =~= english_suffix_patterns());
    }
    patterns
}

/// The emoticons that the literal infix matcher leaves out.
fn infix_excluded() -> (r: Vec<&'static str>)
    ensures
        strs_view(r@) == infix_excluded_emoticons(),
{
    let v = vec!["o.o", "0.0", "._.", ":0", ":1", ":3"];
    proof {
        assert(strs_view(v@) =~= infix_excluded_emoticons());
    }
    v
}

/// The texts of `s` that are not emoticons the literal infix matcher
/// leaves out.
pub open spec fn without_excluded(s: Seq<&'static str>) -> Seq<&'static str>
    decreases s.len(),
{
    if s.len() == 0 {
        Seq::empty()
    } else {
        let p = without_excluded(s.drop_last());
        if infix_excluded_emoticons().contains(s.last()@) {
            p
        } else {
            p.push(s.last())
        }
    }
}

/// The literal infix candidates, before repeats are dropped and they are
/// sorted.
pub open spec fn literal_infix_candidates() -> Seq<&'static str> {
    without_excluded(emoticon_list()) + seq!["(", ")", "[", "]", "{", "}", "<", ">"] + hyphen_list()
        + ellipsis_literal_list() + seq![":", "/", "="]
}

/// The literal infix strings: the candidates without repeats, longest
/// first.
pub open spec fn english_literal_infixes() -> Seq<Seq<char>> {
    strs_view(sorted_longest_first(without_repeats(literal_infix_candidates())))
}

/// The literal infix strings for the multi-literal matcher: emoticons (but
/// a few that overlap common text), brackets, hyphens, ellipses, `:`, `/`
/// and `=`; without repeats, longest first.
pub fn get_english_literal_infix_strings() -> (r: Vec<String>)
    ensures
        strings_view(r@) == english_literal_infixes(),
        strings_view(r@).no_duplicates(),
        exists|s: Seq<&'static str>| sorted_by(s, longer_first()) && strs_view(s) == strings_view(r@),
        keeps_out_excluded(strings_view(r@)),
{
    let excluded = infix_excluded();
    let emo = emoticons();
    let mut literals: Vec<&'static str> = Vec::new();
    let mut i: usize = 0;
    while i < emo.len()
        invariant
            i <= emo.len(),
            strs_view(excluded@) == infix_excluded_emoticons(),
            keeps_out_excluded(strs_view(literals@)),
            emo@ == emoticon_list(),
            literals@ == without_excluded(emo@.take(i as int)),
        decreases emo.len() - i,
    {
        proof {
            assert(emo@.take(i as int + 1).drop_last() =~= emo@.take(i as int));
            assert(emo@.take(i as int + 1).last() == emo@[i as int]);
        }
        if !contains_text(&excluded, emo[i]) {
            let ghost before = strs_view(literals@);
            literals.push(emo[i]);
            proof {
                assert(strs_view(literals@) =~= before.push(emo@[i as int]@));
            }
        }
        i = i + 1;
    }
    let brackets: Vec<&'static str> = vec!["(", ")", "[", "]", "{", "}", "<", ">"];
    proof {
        reveal_strlit("(");
        reveal_strlit(")");
        reveal_strlit("[");
        reveal_strlit("]");
        reveal_strlit("{");
        reveal_strlit("}");
        reveal_strlit("<");
        reveal_strlit(">");
    }
    proof {
        assert(emo@.take(i as int) =~= emo@);
    }
    push_one_char_texts(&mut literals, &brackets);
    push_one_char_texts(&mut literals, &simple_literal_hyphens());
    push_one_char_texts(&mut literals, &list_ellipses_literals());
    let singles: Vec<&'static str> = vec![":", "/", "="];
    proof {
        reveal_strlit(":");
        reveal_strlit("/");
        reveal_strlit("=");
    }
    push_one_char_texts(&mut literals, &singles);
    proof {
        assert(literals@ =~= literal_infix_candidates());
    }
    let unique = dedup_texts(&literals);
    let sorted = sort_longest_first(&unique);
    let mut r: Vec<String> = Vec::new();
    let mut j: usize = 0;
    while j < sorted.len()
        invariant
            j <= sorted.len(),
            strings_view(r@) == strs_view(sorted@.take(j as int)),
        decreases sorted.len() - j,
    {
        let ghost before = strings_view(r@);
        let owned = sorted[j].to_owned();
        r.push(owned);
        proof {
            assert(owned@ == sorted@[j as int]@);
            assert(strings_view(r@) =~= before.push(owned@));
            assert(strs_view(sorted@.take(j as int + 1)) =~= strs_view(sorted@.take(j as int)).push(sorted@[j as int]@));
            assert(strings_view(r@) =~= strs_view(sorted@.take(j as int + 1)));
        }
        j = j + 1;
    }
    proof {
        assert(sorted@.take(j as int) =~= sorted@);
        lemma_sorted_perm_no_duplicates(unique@, sorted@);
        assert(strings_view(r@) == english_literal_infixes());
        assert forall|k: int| 0 <= k < sorted@.len() implies !infix_excluded_emoticons().contains(
            #[trigger] strs_view(sorted@)[k],
        ) by {
            assert(sorted@.to_multiset().count(sorted@[k]) > 0);
            assert(unique@.contains(sorted@[k]));
            let q = choose|q: int| 0 <= q < unique@.len() && unique@[q] == sorted@[k];
            assert(literals@.contains(unique@[q]));
            let p = choose|p: int| 0 <= p < literals@.len() && literals@[p] == unique@[q];
            assert(strs_view(literals@)[p] == sorted@[k]@);
        }
    }
    r
}

/// A rearrangement of a list of texts without repeats has none either.
proof fn lemma_sorted_perm_no_duplicates(a: Seq<&'static str>, b: Seq<&'static str>)
    requires
        strs_view(a).no_duplicates(),
        a.to_multiset() == b.to_multiset(),
    ensures
        strs_view(b).no_duplicates(),
{
    assert(a.no_duplicates()) by {
        assert forall|i: int, j: int| 0 <= i < a.len() && 0 <= j < a.len() && i != j implies a[i] != a[j] by {
            assert(strs_view(a)[i] != strs_view(a)[j]);
        }
    }
    a.lemma_multiset_has_no_duplicates();
    b.lemma_multiset_has_no_duplicates_conv();
    assert forall|i: int, j: int| 0 <= i < b.len() && 0 <= j < b.len() && i != j implies strs_view(b)[i] != strs_view(b)[j] by {
        assert(b[i] != b[j]);
        assert(b.contains(b[i]));
        assert(b.contains(b[j]));
        assert(b.to_multiset().count(b[i]) > 0);
        assert(b.to_multiset().count(b[j]) > 0);
        assert(a.contains(b[i]));
        assert(a.contains(b[j]));
        let p = choose|p: int| 0 <= p < a.len() && a[p] == b[i];
        let q = choose|q: int| 0 <= q < a.len() && a[q] == b[j];
        assert(strs_view(a)[p] == b[i]@);
        assert(strs_view(a)[q] == b[j]@);
    }
}

/// The regex infix patterns: dot ellipses, arithmetic signs between
/// digits, periods between a lower-case letter and an upper-case one,
/// commas between letters, multi-character hyphens, `:<>=/` between letters
/// or digits, and icons.
pub open spec fn english_regex_infix_patterns() -> Seq<Seq<char>> {
    let q = class_escaped(CONCAT_QUOTES_CONTENT_STR@);
    strs_view(ellipsis_regex_list()) + seq![
        concat_all(seq![r"(?<=["@, DIGITS_CONTENT_STR@, r"])[+\-*^](?=["@, DIGITS_CONTENT_STR@, "-])"@]),
        concat_all(
            seq![
                r"(?<=["@,
                FINAL_ALPHA_LOWER_CONTENT_STR@,
                q,
                r"])\.(?=["@,
                FINAL_ALPHA_UPPER_CONTENT_STR@,
                q,
                "])"@,
            ],
        ),
        concat_all(seq![r"(?<=["@, FINAL_ALPHA_CONTENT_STR@, r"]),(?=["@, FINAL_ALPHA_CONTENT_STR@, "])"@]),
        REGEX_MULTI_HYPHENS_PART@,
        concat_all(seq![r"(?<=["@, FINAL_ALPHANUM_CONTENT_STR@, r"])[:<>=/](?=["@, FINAL_ALPHA_CONTENT_STR@, "])"@]),
        concat_all(seq![r"(?<=["@, FINAL_ALPHA_CONTENT_STR@, r"])[:<>=/](?=["@, FINAL_ALPHANUM_CONTENT_STR@, "])"@]),
    ] + strs_view(icon_pattern_list())
}

/// The regex infix patterns, in order.
pub fn get_english_regex_infix_patterns() -> (r: Vec<String>)
    ensures
        strings_view(r@) == english_regex_infix_patterns(),
        r@.len() == 12,
{
    let mut patterns: Vec<String> = Vec::new();
    push_texts(&mut patterns, &list_ellipses_regex());
    let ghost head = strings_view(patterns@);
    let quotes = escape_class_chars(CONCAT_QUOTES_CONTENT_STR);
    let p1 = vec![r"(?<=[", DIGITS_CONTENT_STR, r"])[+\-*^](?=[", DIGITS_CONTENT_STR, "-])"];
    let p2 = vec![
        r"(?<=[", FINAL_ALPHA_LOWER_CONTENT_STR, quotes.as_str(), r"])\.(?=[",
        FINAL_ALPHA_UPPER_CONTENT_STR, quotes.as_str(), "])",
    ];
    let p3 = vec![r"(?<=[", FINAL_ALPHA_CONTENT_STR, r"]),(?=[", FINAL_ALPHA_CONTENT_STR, "])"];
    let p5 = vec![r"(?<=[", FINAL_ALPHANUM_CONTENT_STR, r"])[:<>=/](?=[", FINAL_ALPHA_CONTENT_STR, "])"];
    let p6 = vec![r"(?<=[", FINAL_ALPHA_CONTENT_STR, r"])[:<>=/](?=[", FINAL_ALPHANUM_CONTENT_STR, "])"];
    let s1 = concat_strs(&p1);
    let s2 = concat_strs(&p2);
    let s3 = concat_strs(&p3);
    let s4 = REGEX_MULTI_HYPHENS_PART.to_owned();
    let s5 = concat_strs(&p5);
    let s6 = concat_strs(&p6);
    proof {
        let q = class_escaped(CONCAT_QUOTES_CONTENT_STR@);
        assert(strs_view(p1@) =~= seq![r"(?<=["@, DIGITS_CONTENT_STR@, r"])[+\-*^](?=["@, DIGITS_CONTENT_STR@, "-])"@]);
        assert(strs_view(p2@) =~= seq![
            r"(?<=["@,
            FINAL_ALPHA_LOWER_CONTENT_STR@,
            q,
            r"])\.(?=["@,
            FINAL_ALPHA_UPPER_CONTENT_STR@,
            q,
            "])"@,
        ]);
        assert(strs_view(p3@) =~= seq![r"(?<=["@, FINAL_ALPHA_CONTENT_STR@, r"]),(?=["@, FINAL_ALPHA_CONTENT_STR@, "])"@]);
        assert(strs_view(p5@) =~= seq![r"(?<=["@, FINAL_ALPHANUM_CONTENT_STR@, r"])[:<>=/](?=["@, FINAL_ALPHA_CONTENT_STR@, "])"@]);
        assert(strs_view(p6@) =~= seq![r"(?<=["@, FINAL_ALPHA_CONTENT_STR@, r"])[:<>=/](?=["@, FINAL_ALPHANUM_CONTENT_STR@, "])"@]);
    }
    patterns.push(s1);
    patterns.push(s2);
    patterns.push(s3);
    patterns.push(s4);
    patterns.push(s5);
    patterns.push(s6);
    proof {
        assert(strings_view(patterns@) =~= head + seq![s1@, s2@, s3@, s4@, s5@, s6@]);
    }
    push_texts(&mut patterns, &list_icons_patterns());
    proof {
        assert(strings_view(patterns@) =~= english_regex_infix_patterns());
    }
    patterns
}

/// Currency amounts and signed numbers, the first alternatives of the
/// whole-token pattern.
pub open spec fn number_pattern_list() -> Seq<&'static str> {
    seq![
        r"[+-]?\d+\.\d{2}",
        r"[+-]?\d{1,3}(?:,\d{3})*(?:\.\d+)?",
        r"[+-]?\d+\.\d+",
        r"[+-]?\.\d+",
        r"[+-]?\d+",
    ]
}

/// Percent, degree and trademark signs and HTML entities.
pub open spec fn symbol_pattern_list() -> Seq<&'static str> {
    seq![r"[%]", r"[°ºª]", r"&(?:amp|lt|gt|quot|apos);", r"[®©™℠]"]
}

/// The alternatives of the whole-token pattern, in order.
pub open spec fn token_match_alternatives() -> Seq<Seq<char>> {
    seq![
        concat_all(seq![r"(?:"@, CURRENCY_PATTERN_PART@, r")[0-9]{1,3}(?:,[0-9]{3})*(?:\.[0-9]{2})?"@]),
        concat_all(seq![r"(?:"@, CURRENCY_PATTERN_PART@, r")[0-9]+(?:\.[0-9]{2})?"@]),
    ] + strs_view(number_pattern_list()) + strs_view(ellipsis_regex_list()) + escaped(strs_view(ellipsis_literal_list()))
        + strs_view(symbol_pattern_list()) + escaped(strs_view(abbreviation_list())) + seq![emoticon_alternation()]
        + strs_view(icon_pattern_list())
}

/// The whole-token pattern: any one of its alternatives spanning the whole
/// text.
pub open spec fn english_token_match_pattern() -> Seq<char> {
    "^(?:"@ + joined(token_match_alternatives(), "|"@) + ")$"@
}

/// The whole-token pattern: currency amounts, signed numbers, ellipses,
/// percent and degree signs, HTML entities, trademark symbols,
/// abbreviations, emoticons and icons, any one of them spanning the whole
/// text.
pub fn get_english_token_match_pattern_str() -> (r: Option<String>)
    ensures
        r matches Some(p) && p@ == english_token_match_pattern(),
{
    let mut alts: Vec<String> = Vec::new();
    let c1 = vec![r"(?:", CURRENCY_PATTERN_PART, r")[0-9]{1,3}(?:,[0-9]{3})*(?:\.[0-9]{2})?"];
    let c2 = vec![r"(?:", CURRENCY_PATTERN_PART, r")[0-9]+(?:\.[0-9]{2})?"];
    let a1 = concat_strs(&c1);
    let a2 = concat_strs(&c2);
    proof {
        assert(strs_view(c1@) =~= seq![r"(?:"@, CURRENCY_PATTERN_PART@, r")[0-9]{1,3}(?:,[0-9]{3})*(?:\.[0-9]{2})?"@]);
        assert(strs_view(c2@) =~= seq![r"(?:"@, CURRENCY_PATTERN_PART@, r")[0-9]+(?:\.[0-9]{2})?"@]);
    }
    alts.push(a1);
    alts.push(a2);
    proof {
        assert(strings_view(alts@) =~= seq![a1@, a2@]);
    }
    let numbers = vec![
        r"[+-]?\d+\.\d{2}",
        r"[+-]?\d{1,3}(?:,\d{3})*(?:\.\d+)?",
        r"[+-]?\d+\.\d+",
        r"[+-]?\.\d+",
        r"[+-]?\d+",
    ];
    let symbols = vec![r"[%]", r"[°ºª]", r"&(?:amp|lt|gt|quot|apos);", r"[®©™℠]"];
    proof {
        assert(numbers@ =~= number_pattern_list());
        assert(symbols@ =~= symbol_pattern_list());
    }
    push_texts(&mut alts, &numbers);
    push_texts(&mut alts, &list_ellipses_regex());
    push_strings(&mut alts, escape_each(&list_ellipses_literals()));
    push_texts(&mut alts, &symbols);
    push_strings(&mut alts, escape_each(&get_abbreviations_list()));
    let ghost before = strings_view(alts@);
    let alternation = get_emoticon_alternation_regex_str();
    alts.push(alternation);
    proof {
        assert(strings_view(alts@) =~= before + seq![emoticon_alternation()]);
    }
    push_texts(&mut alts, &list_icons_patterns());
    proof {
        assert(strings_view(alts@) =~= token_match_alternatives());
    }
    let body = join_with(&alts, "|");
    let mut p = "^(?:".to_owned();
    p.append(body.as_str());
    p.append(")$");
    Some(p)
}

/// The pieces of the URL pattern, in order.
pub open spec fn url_pattern_parts() -> Seq<Seq<char>> {
    seq![
        r"^"@,
        r"(?:(?:[\w+\-.]{2,})://)?"@,
        r"(?:\S+(?::\S*)?@)?"@,
        r"(?:"@,
        r"(?!(?:10|127)(?:\.\d{1,3}){3})"@,
        r"(?!(?:169\.254|192\.168)(?:\.\d{1,3}){2})"@,
        r"(?!172\.(?:1[6-9]|2\d|3[0-1])(?:\.\d{1,3}){2})"@,
        r"(?:[1-9]\d?|1\d\d|2[01]\d|22[0-3])"@,
        r"(?:\.(?:1?\d{1,2}|2[0-4]\d|25[0-5])){2}"@,
        r"(?:\.(?:[1-9]\d?|1\d\d|2[0-4]\d|25[0-4]))"@,
        r"|"@,
        r"(?:"@,
        r"(?:"@,
        r"[A-Za-z0-9\u00a1-\uffff]"@,
        r"[A-Za-z0-9\u00a1-\uffff_-]{0,62}"@,
        r")?"@,
        r"[A-Za-z0-9\u00a1-\uffff]\."@,
        r")+"@,
        r"(?:["@,
        FINAL_ALPHA_LOWER_CONTENT_STR@,
        r"]{2,63})"@,
        r")"@,
        r"(?::\d{2,5})?"@,
        r"(?:[/?#]\S*)?"@,
        r"$"@,
    ]
}

/// The URL pattern: an optional scheme and user, then a public IPv4
/// address or a host name with a top-level domain, an optional port and an
/// optional path, query or fragment.
pub fn get_english_url_match_pattern_str() -> (r: String)
    ensures
        r@ == concat_all(url_pattern_parts()),
{
    let parts: Vec<&str> = vec![
        r"^",
        r"(?:(?:[\w+\-.]{2,})://)?",
        r"(?:\S+(?::\S*)?@)?",
        r"(?:",
        r"(?!(?:10|127)(?:\.\d{1,3}){3})",
        r"(?!(?:169\.254|192\.168)(?:\.\d{1,3}){2})",
        r"(?!172\.(?:1[6-9]|2\d|3[0-1])(?:\.\d{1,3}){2})",
        r"(?:[1-9]\d?|1\d\d|2[01]\d|22[0-3])",
        r"(?:\.(?:1?\d{1,2}|2[0-4]\d|25[0-5])){2}",
        r"(?:\.(?:[1-9]\d?|1\d\d|2[0-4]\d|25[0-4]))",
        r"|",
        r"(?:",
        r"(?:",
        r"[A-Za-z0-9\u00a1-\uffff]",
        r"[A-Za-z0-9\u00a1-\uffff_-]{0,62}",
        r")?",
        r"[A-Za-z0-9\u00a1-\uffff]\.",
        r")+",
        r"(?:[",
        FINAL_ALPHA_LOWER_CONTENT_STR,
        r"]{2,63})",
        r")",
        r"(?::\d{2,5})?",
        r"(?:[/?#]\S*)?",
        r"$",
    ];
    proof {
        assert(strs_view(parts@) =~= url_pattern_parts());
    }
    concat_strs(&parts)
}

} // verus!
