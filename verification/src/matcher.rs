//! The search pattern: a regular expression, asked whether a text matches and
//! where in a line its matches lie.

use crate::text::decimal;
use crate::text::decimal_string;
use regex::Regex;
use vstd::prelude::*;
use vstd::string::StringExecFns;
use vstd::string::StringSliceAdditionalSpecFns;

verus! {

/// The regular expression engine's compiled form of a pattern.
#[verifier::external_type_specification]
#[verifier::external_body]
pub struct ExRegex(Regex);

/// One match in a line: the bytes `start .. end`.
#[derive(Clone, Copy, Debug, PartialEq, Eq, Structural)]
pub struct MatchRange {
    pub start: usize,
    pub end: usize,
}

/// Why a pattern was not accepted.
#[derive(Debug)]
pub enum PatternError {
    /// The pattern is no regular expression; the text says why.
    Syntax(String),
    /// The compiled pattern would be larger than this limit.
    TooBig(usize),
    /// Refused for a reason the engine gives no detail of.
    Other,
}

/// Why a pattern was not accepted, in the abstract.
pub enum Refusal {
    Syntax(Seq<char>),
    TooBig(usize),
    Other,
}

impl View for PatternError {
    type V = Refusal;

    open spec fn view(&self) -> Refusal {
        match self {
            PatternError::Syntax(reason) => Refusal::Syntax(reason@),
            PatternError::TooBig(limit) => Refusal::TooBig(*limit),
            PatternError::Other => Refusal::Other,
        }
    }
}

/// Why the engine refuses `pattern` as a regular expression; `None` where it
/// accepts it.
pub uninterp spec fn regex_refusal(pattern: Seq<char>) -> Option<Refusal>;

/// Whether `pattern` matches anywhere in `haystack`.
pub uninterp spec fn regex_is_match(pattern: Seq<char>, haystack: Seq<char>) -> bool;

/// The matches of `pattern` in `haystack` that a search from left to right
/// finds one behind the other.
pub uninterp spec fn regex_matches(pattern: Seq<char>, haystack: Seq<char>) -> Seq<MatchRange>;

/// The ranges lie in a text of `len` bytes, each behind the one before it:
/// none overlaps another and none is out of order.
pub open spec fn in_order(ranges: Seq<MatchRange>, len: nat) -> bool {
    &&& forall|i: int| 0 <= i < ranges.len() ==> (#[trigger] ranges[i]).start <= ranges[i].end <= len
    &&& forall|i: int, j: int|
        0 <= i < j < ranges.len() ==> (#[trigger] ranges[i]).end <= (#[trigger] ranges[j]).start
}

/// A compiled pattern, kept with the text it was compiled from.
#[derive(Debug)]
pub struct Pattern {
    regex: Regex,
    source: String,
}

impl View for Pattern {
    type V = Seq<char>;

    closed spec fn view(&self) -> Seq<char> {
        self.source@
    }
}

/// `Regex::new`: compiles `source` with the engine's defaults. Whether it
/// succeeds, and with which error it fails, depends on `source` alone; of the
/// compiled form nothing is claimed.
#[verifier::external_body]
fn compile(source: &str) -> (compiled: Result<Regex, PatternError>)
    ensures
        match compiled {
            Ok(_) => regex_refusal(source@).is_none(),
            Err(error) => regex_refusal(source@) == Some(error@),
        },
{
    match Regex::new(source) {
        Ok(regex) => Ok(regex),
        Err(regex::Error::Syntax(reason)) => Err(PatternError::Syntax(reason)),
        Err(regex::Error::CompiledTooBig(limit)) => Err(PatternError::TooBig(limit)),
        Err(_) => Err(PatternError::Other),
    }
}

/// `Regex::is_match` on the compiled form of a pattern: true if and only if
/// the pattern matches somewhere in `text`. A `Pattern` holds the compiled
/// form of its own source and no other, so the answer depends on that source
/// and on `text` alone.
#[verifier::external_body]
fn is_match(pattern: &Pattern, text: &str) -> (found: bool)
    ensures
        found == regex_is_match(pattern@, text@),
{
    pattern.regex.is_match(text)
}

/// `Regex::find_iter` on the compiled form of a pattern, each match handed
/// out as its two byte offsets. The engine searches from left to right and
/// begins each search where the match before ended, so the matches lie in
/// `text` in order and do not overlap.
#[verifier::external_body]
fn find_all(pattern: &Pattern, text: &str) -> (found: Vec<MatchRange>)
    ensures
        found@ == regex_matches(pattern@, text@),
        in_order(found@, text.spec_bytes().len()),
{
    pattern.regex.find_iter(text).map(|m| MatchRange { start: m.start(), end: m.end() }).collect()
}

/// What the message of an error says.
pub open spec fn refusal_message(refusal: Refusal) -> Seq<char> {
    match refusal {
        Refusal::Syntax(reason) => reason,
        Refusal::TooBig(limit) => "Compiled regex exceeds size limit of "@ + decimal(limit as nat)
            + " bytes."@,
        Refusal::Other => "The pattern was refused."@,
    }
}

impl PatternError {
    /// The message of the error.
    pub fn to_string(&self) -> (message: String)
        ensures
            message@ == refusal_message(self@),
    {
        match self {
            PatternError::Syntax(reason) => reason.clone(),
            PatternError::TooBig(limit) => {
                let mut message = String::from_str("Compiled regex exceeds size limit of ");
                message.append(decimal_string(*limit).as_str());
                message.append(" bytes.");
                message
            },
            PatternError::Other => String::from_str("The pattern was refused."),
        }
    }
}

impl Pattern {
    /// Compiles `source`. Fails exactly where the engine refuses it, with
    /// the engine's reason.
    pub fn new(source: &str) -> (pattern: Result<Pattern, PatternError>)
        ensures
            match pattern {
                Ok(compiled) => regex_refusal(source@).is_none() && compiled@ == source@,
                Err(error) => regex_refusal(source@) == Some(error@),
            },
    {
        match compile(source) {
            Ok(regex) => Ok(Pattern { regex, source: source.to_owned() }),
            Err(error) => Err(error),
        }
    }

    /// The text that the pattern was compiled from.
    pub fn as_str(&self) -> (source: &str)
        ensures
            source@ == self@,
    {
        self.source.as_str()
    }

    /// Whether the pattern matches anywhere in `text`.
    pub fn test(&self, text: &str) -> (found: bool)
        ensures
            found == regex_is_match(self@, text@),
    {
        is_match(self, text)
    }

    /// The matches of the pattern in `line`, in the order in which they lie
    /// there. No match overlaps another.
    pub fn find_matches(&self, line: &str) -> (found: Vec<MatchRange>)
        ensures
            found@ == regex_matches(self@, line@),
            in_order(found@, line.spec_bytes().len()),
    {
        find_all(self, line)
    }
}

} // verus!
