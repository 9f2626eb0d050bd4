use regex::Regex;
use vstd::prelude::*;

verus! {

/// The compiled regular expressions of the `regex` crate.
#[verifier::external_type_specification]
#[verifier::external_body]
pub struct ExRegex(Regex);

/// The error that `regex::Regex::new` reports for a pattern it refuses.
#[verifier::external_type_specification]
#[verifier::external_body]
pub struct ExRegexError(regex::Error);

/// Whether `regex::Regex::new` accepts `pattern` (its syntax is valid and
/// the compiled program fits the default size limit).
pub uninterp spec fn regex_valid(pattern: Seq<char>) -> bool;

/// The pattern whose `Regex::new` semantics the compiled value follows: the
/// text it was built from (what `Regex::as_str` gives back). Only
/// `Regex::new` builds the values this crate holds, so matching with the
/// value is matching with that pattern under default options.
pub uninterp spec fn regex_source(re: Regex) -> Seq<char>;

/// Whether the regular expression `pattern` matches somewhere in `hay`
/// (`Regex::is_match`).
pub uninterp spec fn regex_is_match(pattern: Seq<char>, hay: Seq<char>) -> bool;

/// The text of capture group 1 of the leftmost-first match of `pattern` in
/// `hay`, if there is a match and the group took part in it.
pub uninterp spec fn regex_group1(pattern: Seq<char>, hay: Seq<char>) -> Option<Seq<char>>;

/// `hay` with the leftmost-first match of `pattern` replaced by the text
/// `rep`, taken literally (`Regex::replace` with `NoExpand`).
pub uninterp spec fn regex_replace_first(pattern: Seq<char>, hay: Seq<char>, rep: Seq<char>) -> Seq<
    char,
>;

/// Compiles `pattern` with `regex::Regex::new`. Claimed: it succeeds
/// exactly when the pattern is valid, and the regex it returns keeps the
/// pattern text it was built from.
#[verifier::external_body]
pub(crate) fn compile(pattern: &str) -> (r: Result<Regex, regex::Error>)
    ensures
        r is Ok <==> regex_valid(pattern@),
        r matches Ok(re) ==> regex_source(re) == pattern@,
{
    Regex::new(pattern)
}

/// `Regex::is_match`. Claimed: the answer is `regex_is_match` of the
/// regex's pattern and the haystack; nothing more is said of it.
#[verifier::external_body]
pub(crate) fn is_match(re: &Regex, hay: &str) -> (b: bool)
    ensures
        b == regex_is_match(regex_source(*re), hay@),
{
    re.is_match(hay)
}

/// `Regex::captures`, keeping the text of group 1 (`Captures::get(1)` and
/// `Match::as_str`). Claimed: the result is `regex_group1` of the pattern
/// and the haystack, and there is a group only where the regex matches
/// (`captures` gives `None` when there is no match).
#[verifier::external_body]
pub(crate) fn group1(re: &Regex, hay: &str) -> (g: Option<String>)
    ensures
        match g {
            Some(s) => regex_group1(regex_source(*re), hay@) == Some(s@),
            None => regex_group1(regex_source(*re), hay@) is None,
        },
        g is Some ==> regex_is_match(regex_source(*re), hay@),
{
    match re.captures(hay) {
        Some(caps) => match caps.get(1) {
            Some(m) => Some(m.as_str().to_string()),
            None => None,
        },
        None => None,
    }
}

/// `Regex::replace` with the replacement taken literally (`NoExpand`, so a
/// `$` in it is not a group reference). Claimed: the result is
/// `regex_replace_first` of the pattern, the haystack and the replacement,
/// and, as the crate documents, the haystack comes back unchanged when the
/// regex does not match it. Where the text of the match lies is not stated.
#[verifier::external_body]
pub(crate) fn replace_first(re: &Regex, hay: &str, rep: &str) -> (s: String)
    ensures
        s@ == regex_replace_first(regex_source(*re), hay@, rep@),
        !regex_is_match(regex_source(*re), hay@) ==> s@ == hay@,
{
    re.replace(hay, regex::NoExpand(rep)).into_owned()
}


/// The error of an edit whose regular expressions could not all be built.
#[derive(Debug, Clone, Copy, PartialEq, Eq)]
pub enum EditError {
    /// One of the patterns was refused by the regular-expression compiler.
    InvalidPattern,
}

/// Compiles `pattern`, reporting a refused pattern as `EditError`.
pub fn compile_pattern(pattern: &str) -> (r: Result<Regex, EditError>)
    ensures
        r is Ok <==> regex_valid(pattern@),
        r matches Ok(re) ==> regex_source(re) == pattern@,
{
    match compile(pattern) {
        Ok(re) => Ok(re),
        Err(_) => Err(EditError::InvalidPattern),
    }
}

/// A line that opens a `target = { ... }` block.
pub open spec fn pat_target() -> Seq<char> {
    "^\\s*target\\s*="@
}

/// An `id=<digits>` line, capturing the digits.
pub open spec fn pat_id() -> Seq<char> {
    "^\\s*id=(\\d+)"@
}

/// A line that opens a `log = { ... }` block.
pub open spec fn pat_log() -> Seq<char> {
    "^\\s*log\\s*="@
}

/// An `info=<digits>` line, capturing the digits.
pub open spec fn pat_info_line() -> Seq<char> {
    "^\\s*info=(\\d+)"@
}

/// A `roll=<digits>` line.
pub open spec fn pat_roll_line() -> Seq<char> {
    "^\\s*roll=\\d+"@
}

/// A `skill=<digits>` field anywhere in a line, capturing the digits.
pub open spec fn pat_skill() -> Seq<char> {
    "skill=(\\d+)"@
}

/// A `difficulty=<digits>` field anywhere in a line, capturing the digits.
pub open spec fn pat_difficulty() -> Seq<char> {
    "difficulty=(\\d+)"@
}

/// A `last_roll=<digits>` line.
pub open spec fn pat_last_roll_line() -> Seq<char> {
    "^\\s*last_roll=\\d+"@
}

/// An `info=<digits>` field, the part that is rewritten.
pub open spec fn pat_info_value() -> Seq<char> {
    "info=\\d+"@
}

/// A `last_roll=<digits>` field, the part that is rewritten.
pub open spec fn pat_last_roll_value() -> Seq<char> {
    "last_roll=\\d+"@
}

/// A `clues=<digits>` line, capturing the digits.
pub open spec fn pat_clues_line() -> Seq<char> {
    "^\\s*clues=(\\d+)"@
}

/// A `total=<digits>` line.
pub open spec fn pat_total_line() -> Seq<char> {
    "^\\s*total=\\d+"@
}

/// A `bonus=<digits>` line, capturing the digits.
pub open spec fn pat_bonus_line() -> Seq<char> {
    "^\\s*bonus=(\\d+)"@
}

/// A `difficulty=<digits>` line, capturing the digits.
pub open spec fn pat_difficulty_line() -> Seq<char> {
    "^\\s*difficulty=(\\d+)"@
}

/// A `clues=<digits>` field, the part that is rewritten.
pub open spec fn pat_clues_value() -> Seq<char> {
    "clues=\\d+"@
}

/// A `total=<digits>` field, the part that is rewritten.
pub open spec fn pat_total_value() -> Seq<char> {
    "total=\\d+"@
}

/// A line that opens the `first_contacts = { ... }` block.
pub open spec fn pat_first_contacts() -> Seq<char> {
    "^\\s*first_contacts\\s*="@
}

/// A `days_left=<number>` field, with an optional fraction.
pub open spec fn pat_days_left_value() -> Seq<char> {
    "days_left=\\d+(?:\\.\\d+)?"@
}

/// The pattern of a `type="<kind>"` line for the given kind. The kind is
/// put into the pattern as it is, so its own regex syntax counts.
pub open spec fn pat_type(kind: Seq<char>) -> Seq<char> {
    "^\\s*type=\""@ + kind + "\""@
}

/// An `owner=<value>` line, capturing the value: everything after `=` up
/// to the first whitespace or `}`.
pub open spec fn pat_owner_field() -> Seq<char> {
    "^\\s*owner=([^\\s}]*)"@
}

/// Builds the text of `pat_type(kind)`.
pub fn type_pattern_text(kind: &str) -> (s: String)
    ensures
        s@ == pat_type(kind@),
{
    let mut v = crate::text::chars_of("^\\s*type=\"");
    let k = crate::text::chars_of(kind);
    let mut i: usize = 0;
    let ghost v0 = v@;
    while i < k.len()
        invariant
            i <= k.len(),
            v@ == v0 + k@.take(i as int),
        decreases k.len() - i,
    {
        v.push(k[i]);
        i = i + 1;
    }
    v.push('"');
    assert(k@.take(k.len() as int) == k@);
    proof {
        reveal_strlit("\"");
    }
    assert(v@ =~= pat_type(kind@));
    crate::text::string_from_chars(&v)
}

} // verus!
