//! Compiled search patterns. Matching itself is the work of the `regex`
//! crate; this module states what the rest of the crate relies on.

use vstd::prelude::*;
use vstd::string::*;
use vstd::utf8::*;

verus! {

#[verifier::external_type_specification]
#[verifier::external_body]
pub struct ExRegex(regex::Regex);

#[verifier::external_type_specification]
#[verifier::external_body]
pub struct ExRegexError(regex::Error);

/// The pattern text that a compiled regex was built from, as
/// `regex::Regex::as_str` returns it.
pub uninterp spec fn source_of(re: regex::Regex) -> Seq<char>;

/// Whether `regex::Regex::new` compiles the text where a pointer is
/// `word_bits` bits wide. The engine accepts a text that is well formed and
/// whose compiled program stays within its default size limit; it counts
/// that size in structures as wide as the machine's pointers make them, so
/// the answer is one of the text and of that width.
pub uninterp spec fn accepted(text: Seq<char>, word_bits: nat) -> bool;

/// Whether the text compiles to a pattern on the machine at hand.
pub open spec fn compiles(text: Seq<char>) -> bool {
    accepted(text, usize::BITS as nat)
}

/// The byte offsets at which `regex::Regex::find` reports the first match of
/// the pattern in the haystack, or `None` where it reports no match.
pub uninterp spec fn leftmost_match(pattern: Seq<char>, haystack: Seq<char>) -> Option<(nat, nat)>;

/// The text that `regex::Regex::replace_all` builds from the haystack by
/// putting the expanded replacement in place of every match of the pattern.
pub uninterp spec fn substituted(
    pattern: Seq<char>,
    haystack: Seq<char>,
    replacement: Seq<char>,
) -> Seq<char>;

/// Why a configuration was turned down before any scan began.
#[derive(Debug, PartialEq, Eq)]
pub enum ConfigError {
    /// The search pattern is not a regular expression that can be compiled.
    InvalidPattern { reason: String },
    /// The file-name pattern is not a regular expression that can be compiled.
    InvalidNamePattern { reason: String },
    /// Directories-only was asked for without name-only.
    ConflictingFlags,
}

/// The half-open byte range of a match inside its haystack.
#[derive(Debug, Clone, Copy, PartialEq, Eq)]
pub struct Span {
    pub start: usize,
    pub end: usize,
}

/// What a lookup found, in the shape of [`leftmost_match`].
pub open spec fn span_offsets(found: Option<Span>) -> Option<(nat, nat)> {
    match found {
        Some(span) => Some((span.start as nat, span.end as nat)),
        None => None,
    }
}

/// Whether a span lies inside the text and cuts it between characters.
pub open spec fn span_fits(span: Span, haystack: Seq<char>) -> bool {
    &&& span.start <= span.end <= encode_utf8(haystack).len()
    &&& is_char_boundary(encode_utf8(haystack), span.start as int)
    &&& is_char_boundary(encode_utf8(haystack), span.end as int)
}

/// Trusted: `regex::Regex::new` reads nothing but the text: whether it
/// succeeds is named [`accepted`], and the regex it gives reports the
/// given text as its source.
#[verifier::external_body]
fn regex_new(text: &str) -> (built: Result<regex::Regex, regex::Error>)
    ensures
        built is Ok <==> accepted(text@, usize::BITS as nat),
        built matches Ok(re) ==> source_of(re) == text@,
{
    regex::Regex::new(text)
}

/// Trusted: `regex::Regex::as_str` returns the source text.
#[verifier::external_body]
fn regex_as_str(re: &regex::Regex) -> (text: &str)
    ensures
        text@ == source_of(*re),
{
    re.as_str()
}

/// Trusted: `regex::Regex::find` on the regex of a pattern. A pattern holds
/// a regex that `regex::Regex::new` built with its default settings, so
/// what is found depends on the pattern's text and the haystack alone. A
/// match lies inside the haystack, start before end, both on character
/// boundaries.
#[verifier::external_body]
fn regex_find(pattern: &Pattern, haystack: &str) -> (found: Option<Span>)
    ensures
        span_offsets(found) == leftmost_match(pattern@, haystack@),
        found matches Some(span) ==> span_fits(span, haystack@),
{
    pattern.regex.find(haystack).map(|m| Span { start: m.start(), end: m.end() })
}

/// Trusted: `regex::Regex::replace_all` with a string replacement on the
/// regex of a pattern. The result depends on the pattern's text, the
/// haystack and the replacement alone.
#[verifier::external_body]
fn regex_replace_all(pattern: &Pattern, haystack: &str, replacement: &str) -> (out: String)
    ensures
        out@ == substituted(pattern@, haystack@, replacement@),
{
    pattern.regex.replace_all(haystack, replacement).into_owned()
}

/// Trusted: the message that `regex::Error` displays. It is meant for a
/// human reader and nothing is claimed about it.
#[verifier::external_body]
fn regex_error_text(error: &regex::Error) -> (text: String)
{
    error.to_string()
}

/// A compiled search pattern. Its view is the text it was compiled from.
/// The only way to a pattern is [`Pattern::compile`] or
/// [`Pattern::compile_caseless`]: the regex inside is always one that
/// `regex::Regex::new` built from that text.
pub struct Pattern {
    regex: regex::Regex,
}

impl View for Pattern {
    type V = Seq<char>;

    closed spec fn view(&self) -> Seq<char> {
        source_of(self.regex)
    }
}

/// The prefix that makes a pattern match without regard to letter case.
pub const CASELESS: &'static str = "(?i)";

/// Turns the outcome of a compilation into a pattern or the reason why
/// there is none.
fn pattern_from(built: Result<regex::Regex, regex::Error>) -> (made: Result<Pattern, String>)
    ensures
        built is Ok <==> made is Ok,
        match (built, made) {
            (Ok(re), Ok(pattern)) => pattern@ == source_of(re),
            _ => true,
        },
{
    match built {
        Ok(regex) => Ok(Pattern { regex }),
        Err(error) => Err(regex_error_text(&error)),
    }
}

impl Pattern {
    /// Compiles `text`. A text that compiles gives the pattern compiled
    /// from exactly that text; any other gives the engine's reason for
    /// refusing it.
    pub fn compile(text: &str) -> (made: Result<Pattern, String>)
        ensures
            made is Ok <==> compiles(text@),
            made matches Ok(pattern) ==> pattern@ == text@,
    {
        pattern_from(regex_new(text))
    }

    /// Compiles `text` to match without regard to letter case: what is
    /// compiled is `text` behind the caseless prefix.
    pub fn compile_caseless(text: &str) -> (made: Result<Pattern, String>)
        ensures
            made is Ok <==> compiles(CASELESS@ + text@),
            made matches Ok(pattern) ==> pattern@ == CASELESS@ + text@,
    {
        let mut full = String::new();
        full.append(CASELESS);
        full.append(text);
        pattern_from(regex_new(full.as_str()))
    }

    /// The text this pattern was compiled from.
    pub fn as_str(&self) -> (text: &str)
        ensures
            text@ == self@,
    {
        regex_as_str(&self.regex)
    }

    /// The first match of the pattern in `haystack`.
    pub fn find(&self, haystack: &str) -> (found: Option<Span>)
        ensures
            span_offsets(found) == leftmost_match(self@, haystack@),
            found matches Some(span) ==> span_fits(span, haystack@),
    {
        regex_find(self, haystack)
    }

    /// Whether the pattern matches anywhere in `haystack`.
    pub fn is_match(&self, haystack: &str) -> (yes: bool)
        ensures
            yes == leftmost_match(self@, haystack@).is_some(),
    {
        self.find(haystack).is_some()
    }

    /// `haystack` with every match replaced by `replacement`, in which `$`
    /// refers to capture groups.
    pub fn replace_all(&self, haystack: &str, replacement: &str) -> (out: String)
        ensures
            out@ == substituted(self@, haystack@, replacement@),
    {
        regex_replace_all(self, haystack, replacement)
    }
}

} // verus!
