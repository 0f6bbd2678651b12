use vstd::prelude::*;

verus! {

/// The pattern of a bracketed token: the shortest run of characters other
/// than a newline between a `[` and the next `]`.
pub const BRACKET_PATTERN: &'static str = "\\[(.*?)\\]";

/// The index of the first `]` at or after `k`, provided no newline comes
/// before it.
pub open spec fn closing_from(s: Seq<char>, k: int) -> Option<int>
    decreases s.len() - k,
{
    if k < 0 || k >= s.len() {
        None
    } else if s[k] == ']' {
        Some(k)
    } else if s[k] == '\n' {
        None
    } else {
        closing_from(s, k + 1)
    }
}

/// True when a bracketed token opens at `k`.
pub open spec fn opens_at(s: Seq<char>, k: int) -> bool {
    0 <= k < s.len() && s[k] == '[' && closing_from(s, k + 1) is Some
}

/// The leftmost bracketed token at or after `k`, as the indices of its `[`
/// and its `]`.
pub open spec fn bracket_from(s: Seq<char>, k: int) -> Option<(int, int)>
    decreases s.len() - k,
{
    if k < 0 || k >= s.len() {
        None
    } else if opens_at(s, k) {
        Some((k, closing_from(s, k + 1)->0))
    } else {
        bracket_from(s, k + 1)
    }
}

/// The text between the brackets of the leftmost bracketed token.
pub open spec fn bracket_token(s: Seq<char>) -> Option<Seq<char>> {
    match bracket_from(s, 0) {
        Some((i, j)) => Some(s.subrange(i + 1, j)),
        None => None,
    }
}

/// `s` from index `k` on, with every bracketed token, brackets included,
/// removed from left to right.
pub open spec fn strip_from(s: Seq<char>, k: int) -> Seq<char>
    decreases s.len() - k,
{
    if k < 0 || k >= s.len() {
        Seq::empty()
    } else if opens_at(s, k) {
        let j = closing_from(s, k + 1)->0;
        if k < j < s.len() {
            strip_from(s, j + 1)
        } else {
            Seq::empty()
        }
    } else {
        seq![s[k]] + strip_from(s, k + 1)
    }
}

/// `s` with every bracketed token removed: the normalized form of a line.
pub open spec fn strip_brackets(s: Seq<char>) -> Seq<char> {
    strip_from(s, 0)
}

/// The instant, in seconds since the Unix epoch, that an RFC 3339 date-time
/// with offset denotes; none when the text is not one.
pub uninterp spec fn rfc3339_seconds(s: Seq<char>) -> Option<i64>;

/// The instant carried by a line's leftmost bracketed token, if it parses.
pub open spec fn timestamp_of(line: Seq<char>) -> Option<i64> {
    match bracket_token(line) {
        Some(tok) => rfc3339_seconds(tok),
        None => None,
    }
}

/// Relies on `chrono::DateTime::parse_from_rfc3339` and `DateTime::timestamp`:
/// the instant of an RFC 3339 date-time, or `None` when `s` is not one.
#[verifier::external_body]
fn parse_rfc3339(s: &str) -> (r: Option<i64>)
    ensures
        r == rfc3339_seconds(s@),
{
    chrono::DateTime::parse_from_rfc3339(s).ok().map(|dt| dt.timestamp())
}

/// Reads an RFC 3339 date-time with offset as seconds since the Unix epoch.
pub fn parse_instant(s: &str) -> (r: Option<i64>)
    ensures
        r == rfc3339_seconds(s@),
{
    parse_rfc3339(s)
}

/// The compiled regular expression type of the `regex` crate, held opaque.
#[verifier::external_type_specification]
#[verifier::external_body]
pub struct ExRegex(regex::Regex);

/// The error `regex::Regex::new` reports, held opaque.
#[verifier::external_type_specification]
#[verifier::external_body]
pub struct ExRegexError(regex::Error);

/// Relies on `regex::Regex::new`: compiles a pattern; an error only for a
/// pattern that is not valid.
#[verifier::external_body]
fn compile(pattern: &str) -> (r: Result<regex::Regex, regex::Error>)
{
    regex::Regex::new(pattern)
}

/// Finds bracketed tokens in lines. Its regex is always the one compiled from
/// `BRACKET_PATTERN`.
pub struct TimestampExtractor {
    re: regex::Regex,
}

/// Relies on `regex::Regex::captures` and `Captures::get`: the first capture
/// group of the leftmost match of `BRACKET_PATTERN`.
#[verifier::external_body]
fn capture_token(x: &TimestampExtractor, line: &str) -> (r: Option<String>)
    ensures
        match bracket_token(line@) {
            Some(tok) => r matches Some(t) && t@ == tok,
            None => r is None,
        },
{
    x.re.captures(line).and_then(|c| c.get(1)).map(|m| m.as_str().to_string())
}

/// Relies on `regex::Regex::replace_all` with an empty replacement: every
/// non-overlapping match of `BRACKET_PATTERN`, leftmost first, removed.
#[verifier::external_body]
fn remove_tokens(x: &TimestampExtractor, line: &str) -> (r: String)
    ensures
        r@ == strip_brackets(line@),
{
    x.re.replace_all(line, "").to_string()
}

impl TimestampExtractor {
    /// Compiles the bracketed-token pattern.
    pub fn new() -> (r: Result<TimestampExtractor, regex::Error>)
    {
        match compile(BRACKET_PATTERN) {
            Ok(re) => Ok(TimestampExtractor { re }),
            Err(e) => Err(e),
        }
    }

    /// The instant of the line's leftmost bracketed token; `None` when the
    /// line has no such token or the token is not an RFC 3339 date-time.
    pub fn extract(&self, line: &str) -> (r: Option<i64>)
        ensures
            r == timestamp_of(line@),
    {
        match capture_token(self, line) {
            Some(tok) => parse_rfc3339(tok.as_str()),
            None => None,
        }
    }

    /// The line with every bracketed token removed.
    pub fn normalize(&self, line: &str) -> (r: String)
        ensures
            r@ == strip_brackets(line@),
    {
        remove_tokens(self, line)
    }
}

/// A line without a `[` holds no bracketed token.
proof fn lemma_no_open_bracket(s: Seq<char>, k: int)
    requires
        forall|i: int| 0 <= i < s.len() ==> s[i] != '[',
    ensures
        bracket_from(s, k) is None,
    decreases s.len() - k,
{
    if 0 <= k < s.len() {
        lemma_no_open_bracket(s, k + 1);
    }
}

/// A line with no `[` has no timestamp.
pub proof fn lemma_no_bracket_no_timestamp(line: Seq<char>)
    requires
        forall|i: int| 0 <= i < line.len() ==> line[i] != '[',
    ensures
        bracket_token(line) is None,
        timestamp_of(line) is None,
{
    lemma_no_open_bracket(line, 0);
}

} // verus!
