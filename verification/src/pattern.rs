//! Match predicates: literal byte-substring search and byte-oriented regular
//! expressions.
//!
//! A query is compiled once into a [`Matcher`]. The literal, case-sensitive
//! form is a plain substring scan; every other form goes through the regex
//! engine, which works on raw bytes so that text which is not valid UTF-8 is
//! still searched.

use vstd::prelude::*;
use vstd::string::StringSliceAdditionalSpecFns;
use vstd::utf8::*;

verus! {

/// The compiled regular expression of the `regex` crate. Opaque here: its
/// meaning is given by [`regex_finds`] and [`regex_rewrite`].
#[verifier::external_type_specification]
#[verifier::external_body]
pub struct ExRegex(regex::bytes::Regex);

/// The error with which the `regex` crate rejects a pattern.
#[verifier::external_type_specification]
#[verifier::external_body]
pub struct ExRegexError(regex::Error);

/// What `regex::bytes::RegexBuilder::build` returns for a pattern source and
/// a case-insensitivity flag, every other setting left at its default.
pub uninterp spec fn compiled(source: Seq<char>, ignore_case: bool) -> Result<
    regex::bytes::Regex,
    regex::Error,
>;

/// Whether `regex::bytes::Regex::is_match` finds a match anywhere in the
/// haystack.
pub uninterp spec fn regex_finds(re: regex::bytes::Regex, haystack: Seq<u8>) -> bool;

/// What `regex::bytes::Regex::replace_all` makes of the haystack when every
/// non-overlapping match is replaced by the expansion of `replacement`
/// (`$n` and `${name}` refer to capture groups).
pub uninterp spec fn regex_rewrite(
    re: regex::bytes::Regex,
    haystack: Seq<u8>,
    replacement: Seq<u8>,
) -> Seq<u8>;

/// What `String::from_utf8_lossy` makes of a byte string: its text, with each
/// maximal invalid sequence replaced by U+FFFD.
pub uninterp spec fn lossy_text(bytes: Seq<u8>) -> Seq<char>;

/// The characters that have a meaning in regex syntax.
pub open spec fn is_meta_character(c: char) -> bool {
    c == '\\' || c == '.' || c == '+' || c == '*' || c == '?' || c == '(' || c == ')' || c == '|'
        || c == '[' || c == ']' || c == '{' || c == '}' || c == '^' || c == '$' || c == '#' || c
        == '&' || c == '-' || c == '~'
}

/// The pattern with a backslash put before every meta character.
pub open spec fn escaped(pattern: Seq<char>) -> Seq<char>
    decreases pattern.len(),
{
    if pattern.len() == 0 {
        Seq::empty()
    } else if is_meta_character(pattern.last()) {
        escaped(pattern.drop_last()).push('\\').push(pattern.last())
    } else {
        escaped(pattern.drop_last()).push(pattern.last())
    }
}

/// `needle` stands in `haystack` at byte offset `at`.
pub open spec fn occurs_at(needle: Seq<u8>, haystack: Seq<u8>, at: int) -> bool {
    &&& 0 <= at
    &&& at + needle.len() <= haystack.len()
    &&& haystack.subrange(at, at + needle.len()) == needle
}

/// `needle` stands somewhere in `haystack`.
pub open spec fn occurs_in(needle: Seq<u8>, haystack: Seq<u8>) -> bool {
    exists|at: int| occurs_at(needle, haystack, at)
}

/// Calls `memchr::memmem::find`, which returns the offset of the first
/// occurrence of the needle in the haystack, or `None` when there is none.
#[verifier::external_body]
pub(crate) fn find_subslice(haystack: &[u8], needle: &[u8]) -> (found: Option<usize>)
    ensures
        match found {
            Some(at) => occurs_at(needle@, haystack@, at as int) && forall|earlier: int|
                0 <= earlier < at ==> !occurs_at(needle@, haystack@, earlier),
            None => !occurs_in(needle@, haystack@),
        },
{
    memchr::memmem::find(haystack, needle)
}

/// Calls `memchr::memchr`, which returns the offset of the first byte equal
/// to `needle`, or `None` when no byte is.
#[verifier::external_body]
pub(crate) fn find_byte(needle: u8, haystack: &[u8]) -> (found: Option<usize>)
    ensures
        match found {
            Some(at) => at < haystack@.len() && haystack@[at as int] == needle && forall|
                earlier: int,
            |
                0 <= earlier < at ==> haystack@[earlier] != needle,
            None => forall|i: int| 0 <= i < haystack@.len() ==> haystack@[i] != needle,
        },
{
    memchr::memchr(needle, haystack)
}

/// Calls `regex::escape`, which copies the pattern and puts a backslash
/// before each meta character.
#[verifier::external_body]
pub(crate) fn escape_pattern(pattern: &str) -> (quoted: String)
    ensures
        quoted@ == escaped(pattern@),
{
    regex::escape(pattern)
}

/// Calls `regex::bytes::RegexBuilder::new`, sets `case_insensitive` and calls
/// `build`. The outcome depends on the source and the flag alone.
#[verifier::external_body]
pub(crate) fn build_regex(source: &str, ignore_case: bool) -> (built: Result<
    regex::bytes::Regex,
    regex::Error,
>)
    ensures
        built == compiled(source@, ignore_case),
{
    regex::bytes::RegexBuilder::new(source).case_insensitive(ignore_case).build()
}

/// Calls `regex::bytes::Regex::is_match`.
#[verifier::external_body]
pub(crate) fn regex_is_match(re: &regex::bytes::Regex, haystack: &[u8]) -> (found: bool)
    ensures
        found == regex_finds(*re, haystack@),
{
    re.is_match(haystack)
}

/// Calls `regex::bytes::Regex::replace_all` with the replacement as a byte
/// string, so that capture references in it are expanded.
#[verifier::external_body]
pub(crate) fn regex_replace_all(
    re: &regex::bytes::Regex,
    haystack: &[u8],
    replacement: &[u8],
) -> (rewritten: Vec<u8>)
    ensures
        rewritten@ == regex_rewrite(*re, haystack@, replacement@),
{
    re.replace_all(haystack, replacement).into_owned()
}

/// Calls `String::from_utf8_lossy`. Valid UTF-8 is decoded as it stands.
#[verifier::external_body]
pub(crate) fn decode_lossy(bytes: &[u8]) -> (text: String)
    ensures
        text@ == lossy_text(bytes@),
        valid_utf8(bytes@) ==> text@ == decode_utf8(bytes@),
{
    String::from_utf8_lossy(bytes).into_owned()
}

/// What a compiled query tests a line with.
pub enum Probe {
    /// The line holds these bytes as a substring.
    Literal(Seq<u8>),
    /// The regex matches somewhere in the line.
    Pattern(regex::bytes::Regex),
}

impl Probe {
    /// The line satisfies the match predicate.
    pub open spec fn hits(self, line: Seq<u8>) -> bool {
        match self {
            Probe::Literal(needle) => occurs_in(needle, line),
            Probe::Pattern(re) => regex_finds(re, line),
        }
    }
}

/// The source handed to the regex engine: the pattern itself, or its escaped
/// form in literal mode, where meta characters must stay inert.
pub open spec fn regex_source(pattern: Seq<char>, fixed_strings: bool) -> Seq<char> {
    if fixed_strings {
        escaped(pattern)
    } else {
        pattern
    }
}

/// The probe that a search or count query compiles to, or the error with
/// which the regex engine rejects it. A case-sensitive literal needs no
/// regex, so it is never rejected.
pub open spec fn query_probe(pattern: Seq<char>, ignore_case: bool, fixed_strings: bool) -> Result<
    Probe,
    regex::Error,
> {
    if fixed_strings && !ignore_case {
        Ok(Probe::Literal(encode_utf8(pattern)))
    } else {
        match compiled(regex_source(pattern, fixed_strings), ignore_case) {
            Ok(re) => Ok(Probe::Pattern(re)),
            Err(e) => Err(e),
        }
    }
}

/// Compiles a pattern for the regex engine, a literal one after escaping.
/// The case flag is set when the regex is built, not applied line by line.
pub fn compile_regex(pattern: &str, ignore_case: bool, fixed_strings: bool) -> (built: Result<
    regex::bytes::Regex,
    regex::Error,
>)
    ensures
        built == compiled(regex_source(pattern@, fixed_strings), ignore_case),
{
    if fixed_strings {
        let quoted = escape_pattern(pattern);
        build_regex(quoted.as_str(), ignore_case)
    } else {
        build_regex(pattern, ignore_case)
    }
}

/// A compiled query.
pub enum Matcher {
    /// Byte-substring scan, no regex engine.
    Literal { needle: Vec<u8> },
    /// Regex engine on raw bytes.
    Pattern { regex: regex::bytes::Regex },
}

impl View for Matcher {
    type V = Probe;

    open spec fn view(&self) -> Probe {
        match self {
            Matcher::Literal { needle } => Probe::Literal(needle@),
            Matcher::Pattern { regex } => Probe::Pattern(*regex),
        }
    }
}

impl Matcher {
    /// Compiles a search or count query. Literal, case-sensitive queries take
    /// the substring fast path; all others are compiled by the regex engine,
    /// literal ones after escaping.
    pub fn compile(pattern: &str, ignore_case: bool, fixed_strings: bool) -> (made: Result<
        Matcher,
        regex::Error,
    >)
        ensures
            match made {
                Ok(m) => query_probe(pattern@, ignore_case, fixed_strings) == Ok::<
                    Probe,
                    regex::Error,
                >(m@),
                Err(e) => query_probe(pattern@, ignore_case, fixed_strings) == Err::<
                    Probe,
                    regex::Error,
                >(e),
            },
    {
        if fixed_strings && !ignore_case {
            let needle = pattern.as_bytes_vec();
            Ok(Matcher::Literal { needle })
        } else {
            match compile_regex(pattern, ignore_case, fixed_strings) {
                Ok(regex) => Ok(Matcher::Pattern { regex }),
                Err(e) => Err(e),
            }
        }
    }

    /// Tests one line against the match predicate.
    pub fn is_match(&self, line: &[u8]) -> (hit: bool)
        ensures
            hit == self@.hits(line@),
    {
        match self {
            Matcher::Literal { needle } => find_subslice(line, needle.as_slice()).is_some(),
            Matcher::Pattern { regex } => regex_is_match(regex, line),
        }
    }
}

} // verus!
