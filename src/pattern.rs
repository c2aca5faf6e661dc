//! Tag patterns: regular expressions that select tags of a page.

use vstd::prelude::*;

verus! {

/// Whether `regex::Regex::new` accepts the pattern.
pub uninterp spec fn regex_compiles(pattern: Seq<char>) -> bool;

/// Whether the compiled pattern matches anywhere in the haystack.
pub uninterp spec fn regex_is_match(pattern: Seq<char>, haystack: Seq<char>) -> bool;

#[verifier::external_type_specification]
#[verifier::external_body]
pub struct ExRegex(regex::Regex);

#[verifier::external_type_specification]
#[verifier::external_body]
pub struct ExRegexError(regex::Error);

/// Relies on regex::Regex::new: it compiles the pattern, or reports it
/// invalid or too large; the outcome depends on the pattern alone.
#[verifier::external_body]
fn compile_regex(pattern: &str) -> (r: Result<regex::Regex, regex::Error>)
    ensures
        r.is_ok() == regex_compiles(pattern@),
{
    regex::Regex::new(pattern)
}

/// Relies on regex::Error's Display impl, for the message of a rejected pattern.
#[verifier::external_body]
fn regex_error_text(e: &regex::Error) -> (r: String) {
    e.to_string()
}

/// A compiled pattern together with its source text.
pub struct TagPattern {
    source: String,
    compiled: regex::Regex,
}

/// A pattern that could not be compiled.
#[derive(Clone, Debug)]
pub struct PatternError {
    pub pattern: String,
    pub reason: String,
}

impl TagPattern {
    /// The pattern's source text.
    pub closed spec fn view(&self) -> Seq<char> {
        self.source@
    }

    /// Compiles `source`; fails exactly when the regex engine rejects it.
    pub fn new(source: &str) -> (r: Result<TagPattern, PatternError>)
        ensures
            r.is_ok() == regex_compiles(source@),
            r matches Ok(p) ==> p@ == source@,
            r matches Err(e) ==> e.pattern@ == source@,
    {
        match compile_regex(source) {
            Ok(compiled) => Ok(TagPattern { source: String::from_str(source), compiled }),
            Err(e) => Err(PatternError { pattern: String::from_str(source), reason: regex_error_text(&e) }),
        }
    }

    /// Whether this pattern matches anywhere in `haystack`.
    pub fn is_match(&self, haystack: &str) -> (r: bool)
        ensures
            r == regex_is_match(self@, haystack@),
    {
        regex_find(self, haystack)
    }

    /// The pattern's source text.
    pub fn as_str(&self) -> (r: &str)
        ensures
            r@ == self@,
    {
        self.source.as_str()
    }
}

/// Relies on regex::Regex::is_match: unanchored, case-sensitive search of
/// the pattern anywhere in `haystack`. The regex was compiled from `p`'s
/// source text, which `TagPattern::new` alone sets.
#[verifier::external_body]
fn regex_find(p: &TagPattern, haystack: &str) -> (r: bool)
    ensures
        r == regex_is_match(p@, haystack@),
{
    p.compiled.is_match(haystack)
}

/// The source texts of a list of patterns.
pub open spec fn sources(pats: Seq<TagPattern>) -> Seq<Seq<char>> {
    pats.map_values(|p: TagPattern| p@)
}

/// Some pattern matches the tag.
pub open spec fn matches_any(pats: Seq<Seq<char>>, tag: Seq<char>) -> bool {
    exists|j: int| 0 <= j < pats.len() && regex_is_match(#[trigger] pats[j], tag)
}

/// `j` is the first pattern, in list order, that matches the tag.
pub open spec fn is_first_match(pats: Seq<Seq<char>>, tag: Seq<char>, j: int) -> bool {
    &&& 0 <= j < pats.len()
    &&& regex_is_match(pats[j], tag)
    &&& forall|k: int| 0 <= k < j ==> !regex_is_match(#[trigger] pats[k], tag)
}

/// The index of the first pattern in list order that matches the tag.
pub open spec fn first_match_from(pats: Seq<Seq<char>>, tag: Seq<char>, j: int) -> Option<int>
    decreases pats.len() - j,
{
    if j < 0 || j >= pats.len() {
        None
    } else if regex_is_match(pats[j], tag) {
        Some(j)
    } else {
        first_match_from(pats, tag, j + 1)
    }
}

/// The tags that some pattern matches, in the order given.
pub open spec fn matching_tags(tags: Seq<Seq<char>>, pats: Seq<Seq<char>>) -> Seq<Seq<char>> {
    tags.filter(|t: Seq<char>| matches_any(pats, t))
}

/// The index of the first `true` flag, if any.
pub fn first_match(flags: &[bool]) -> (r: Option<usize>)
    ensures
        r matches Some(j) ==> j < flags@.len() && flags@[j as int]
            && forall|k: int| 0 <= k < j ==> !flags@[k],
        r is None ==> forall|k: int| 0 <= k < flags@.len() ==> !flags@[k],
{
    let mut i: usize = 0;
    while i < flags.len()
        invariant
            i <= flags@.len(),
            forall|k: int| 0 <= k < i ==> !flags@[k],
        decreases flags@.len() - i,
    {
        if flags[i] {
            return Some(i);
        }
        i = i + 1;
    }
    None
}

/// Tests the tag against every pattern, in order.
pub fn match_flags(pats: &[TagPattern], tag: &str) -> (r: Vec<bool>)
    ensures
        r@.len() == pats@.len(),
        forall|j: int| 0 <= j < pats@.len() ==> r@[j] == regex_is_match(#[trigger] pats@[j]@, tag@),
{
    let mut flags: Vec<bool> = Vec::new();
    let mut j: usize = 0;
    while j < pats.len()
        invariant
            j <= pats@.len(),
            flags@.len() == j,
            forall|k: int| 0 <= k < j ==> flags@[k] == regex_is_match(#[trigger] pats@[k]@, tag@),
        decreases pats@.len() - j,
    {
        flags.push(regex_find(&pats[j], tag));
        j = j + 1;
    }
    flags
}

proof fn lemma_first_match_from(pats: Seq<Seq<char>>, tag: Seq<char>, j: int)
    requires
        0 <= j <= pats.len(),
        forall|k: int| 0 <= k < j ==> !regex_is_match(#[trigger] pats[k], tag),
    ensures
        first_match_from(pats, tag, j) matches Some(m) ==> is_first_match(pats, tag, m),
        first_match_from(pats, tag, j) is None ==> !matches_any(pats, tag),
    decreases pats.len() - j,
{
    if j < pats.len() && !regex_is_match(pats[j], tag) {
        lemma_first_match_from(pats, tag, j + 1);
    }
}

/// The first matching pattern in list order is the one `first_match_from` picks.
pub proof fn lemma_first_match(pats: Seq<Seq<char>>, tag: Seq<char>)
    ensures
        first_match_from(pats, tag, 0) matches Some(m) ==> is_first_match(pats, tag, m),
        first_match_from(pats, tag, 0) is None <==> !matches_any(pats, tag),
{
    lemma_first_match_from(pats, tag, 0);
    if let Some(m) = first_match_from(pats, tag, 0) {
        assert(regex_is_match(pats[m], tag));
    }
}

/// Whether some pattern matches the tag.
pub fn matches_any_pattern(pats: &[TagPattern], tag: &str) -> (r: bool)
    ensures
        r == matches_any(sources(pats@), tag@),
{
    let flags = match_flags(pats, tag);
    let found = first_match(flags.as_slice());
    proof {
        let ps = sources(pats@);
        if let Some(j) = found {
            assert(regex_is_match(ps[j as int], tag@));
        } else {
            assert forall|k: int| 0 <= k < ps.len() implies !regex_is_match(#[trigger] ps[k], tag@) by {
                assert(!flags@[k]);
            }
        }
    }
    found.is_some()
}

} // verus!
