use vstd::prelude::*;

verus! {

#[verifier::external_type_specification]
#[verifier::external_body]
pub struct ExRegex(regex::Regex);

#[verifier::external_type_specification]
#[verifier::external_body]
pub struct ExRegexError(regex::Error);

/// Characters that carry meaning in a regular expression.
pub open spec fn is_meta_char(c: char) -> bool {
    c == '\\' || c == '.' || c == '+' || c == '*' || c == '?' || c == '(' || c == ')' || c
        == '|' || c == '[' || c == ']' || c == '{' || c == '}' || c == '^' || c == '$' || c
        == '#' || c == '&' || c == '-' || c == '~'
}

/// `s` with a backslash put before every meta character.
pub open spec fn escaped(s: Seq<char>) -> Seq<char>
    decreases s.len(),
{
    if s.len() == 0 {
        Seq::empty()
    } else if is_meta_char(s.last()) {
        escaped(s.drop_last()) + seq!['\\', s.last()]
    } else {
        escaped(s.drop_last()).push(s.last())
    }
}

/// Whether `pattern` is accepted by the regular expression compiler.
pub uninterp spec fn regex_compiles(pattern: Seq<char>) -> bool;

/// Whether the regular expression `pattern` matches somewhere in `text`.
pub uninterp spec fn regex_is_match(pattern: Seq<char>, text: Seq<char>) -> bool;

/// The leftmost-first match of `pattern` in `text`, if any, and in it the text of
/// the first capture group, if that group took part in the match.
pub uninterp spec fn regex_first_group(pattern: Seq<char>, text: Seq<char>) -> Option<
    Option<Seq<char>>,
>;

/// The keywords, each escaped, joined by `|`.
pub open spec fn alternation(keywords: Seq<Seq<char>>) -> Seq<char>
    decreases keywords.len(),
{
    if keywords.len() == 0 {
        Seq::empty()
    } else if keywords.len() == 1 {
        escaped(keywords[0])
    } else {
        alternation(keywords.drop_last()) + seq!['|'] + escaped(keywords.last())
    }
}

/// The pattern that finds any keyword as a whole word, ignoring case, and
/// captures the text it matched.
pub open spec fn keyword_pattern(keywords: Seq<Seq<char>>) -> Seq<char> {
    seq!['(', '?', 'i', ')', '\\', 'b', '('] + alternation(keywords) + seq![')', '\\', 'b']
}

/// The regular expression `.*p.*`, with `p` escaped.
pub open spec fn substring_pattern(p: Seq<char>) -> Seq<char> {
    seq!['.', '*'] + escaped(p) + seq!['.', '*']
}

pub open spec fn group_view(g: Option<Option<String>>) -> Option<Option<Seq<char>>> {
    match g {
        None => None,
        Some(None) => Some(None),
        Some(Some(s)) => Some(Some(s@)),
    }
}

/// A compiled regular expression together with its source text.
pub struct Pattern {
    source: String,
    regex: regex::Regex,
}

impl Pattern {
    /// The text the expression was compiled from.
    pub closed spec fn source(&self) -> Seq<char> {
        self.source@
    }
}

/// Relies on regex::escape: a backslash goes before each meta character and
/// every other character is kept, in order.
#[verifier::external_body]
pub(crate) fn escape_literal(s: &str) -> (r: String)
    ensures
        r@ == escaped(s@),
{
    regex::escape(s)
}

/// Relies on regex::Regex::new: compiles `source` with the default options.
/// The regex kept in the result is the one compiled from `source`.
#[verifier::external_body]
pub(crate) fn compile_pattern(source: String) -> (r: Result<Pattern, regex::Error>)
    ensures
        r is Ok <==> regex_compiles(source@),
        r matches Ok(p) ==> p.source() == source@,
{
    match regex::Regex::new(&source) {
        Ok(regex) => Ok(Pattern { source, regex }),
        Err(e) => Err(e),
    }
}

/// Relies on regex::Regex::is_match: whether the compiled expression matches
/// somewhere in `text`.
#[verifier::external_body]
pub(crate) fn pattern_is_match(p: &Pattern, text: &str) -> (r: bool)
    ensures
        r == regex_is_match(p.source(), text@),
{
    p.regex.is_match(text)
}

/// Relies on regex::Regex::captures: the first match in `text` and the text of
/// its first group.
#[verifier::external_body]
pub(crate) fn pattern_first_group(p: &Pattern, text: &str) -> (r: Option<Option<String>>)
    ensures
        group_view(r) == regex_first_group(p.source(), text@),
{
    match p.regex.captures(text) {
        None => None,
        Some(caps) => match caps.get(1) {
            None => Some(None),
            Some(m) => Some(Some(m.as_str().to_string())),
        },
    }
}

/// Builds the keyword pattern: each keyword escaped, joined by `|`, inside a
/// case-insensitive group bounded by word boundaries.
pub fn build_keyword_pattern(keywords: &Vec<String>) -> (r: String)
    ensures
        r@ == keyword_pattern(keywords@.map_values(|k: String| k@)),
{
    let ghost ks = keywords@.map_values(|k: String| k@);
    let mut alt = String::new();
    let mut i: usize = 0;
    while i < keywords.len()
        invariant
            i <= keywords@.len(),
            ks == keywords@.map_values(|k: String| k@),
            alt@ == alternation(ks.subrange(0, i as int)),
        decreases keywords@.len() - i,
    {
        let e = escape_literal(keywords[i].as_str());
        proof {
            let pre = ks.subrange(0, i as int + 1);
            assert(pre.drop_last() =~= ks.subrange(0, i as int));
            assert(pre.last() == keywords@[i as int]@);
        }
        if i > 0 {
            alt.append("|");
            proof {
                reveal_strlit("|");
            }
        }
        alt.append(e.as_str());
        proof {
            let pre = ks.subrange(0, i as int + 1);
            if i == 0 {
                assert(alt@ =~= alternation(pre));
            } else {
                assert(alt@ =~= alternation(pre));
            }
        }
        i = i + 1;
    }
    assert(ks.subrange(0, i as int) =~= ks);
    let mut r = String::new();
    r.append("(?i)\\b(");
    r.append(alt.as_str());
    r.append(")\\b");
    proof {
        reveal_strlit("(?i)\\b(");
        reveal_strlit(")\\b");
        assert(r@ =~= keyword_pattern(ks));
    }
    r
}

/// Builds `.*p.*` with `p` escaped.
pub fn build_substring_pattern(p: &str) -> (r: String)
    ensures
        r@ == substring_pattern(p@),
{
    let e = escape_literal(p);
    let mut r = String::new();
    r.append(".*");
    r.append(e.as_str());
    r.append(".*");
    proof {
        reveal_strlit(".*");
        assert(r@ =~= substring_pattern(p@));
    }
    r
}

/// Whether the path pattern `p` hits `text`: `.*p.*` compiles and matches it.
pub open spec fn pattern_hit(p: Seq<char>, text: Seq<char>) -> bool {
    regex_compiles(substring_pattern(p)) && regex_is_match(substring_pattern(p), text)
}

/// Whether `text` holds the literal `p`, asked of the regular expression `.*p.*`.
/// An expression that does not compile hits nothing.
pub fn pattern_hits(p: &str, text: &str) -> (r: bool)
    ensures
        r == pattern_hit(p@, text@),
{
    let source = build_substring_pattern(p);
    match compile_pattern(source) {
        Ok(pat) => pattern_is_match(&pat, text),
        Err(_) => false,
    }
}

} // verus!
