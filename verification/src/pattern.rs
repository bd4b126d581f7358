//! Regular expressions, compiled and matched by the `regex` crate.

use vstd::prelude::*;

use crate::text::{copy_str, is_ascii_char, is_digit};

verus! {

/// Whether `Regex::new` accepts the pattern.
pub uninterp spec fn regex_compiles(pattern: Seq<char>) -> bool;

/// Whether `Regex::is_match` finds a match of the pattern anywhere in the text.
pub uninterp spec fn regex_is_match(pattern: Seq<char>, text: Seq<char>) -> bool;

/// Whether the class `\d` of a regular expression matches the character.
pub uninterp spec fn regex_digit(c: char) -> bool;

/// `regex::Regex::new`: whether it accepts the pattern is named `regex_compiles`.
#[verifier::external_body]
fn compiles(pattern: &str) -> (r: bool)
    ensures
        r == regex_compiles(pattern@),
{
    regex::Regex::new(pattern).is_ok()
}

/// `regex::Regex::is_match`, on the regular expression that the pattern compiles to; the answer
/// is named `regex_is_match`.
#[verifier::external_body]
fn matches_anywhere(pattern: &str, text: &str) -> (r: bool)
    requires
        regex_compiles(pattern@),
    ensures
        r == regex_is_match(pattern@, text@),
{
    regex::Regex::new(pattern).unwrap().is_match(text)
}

/// `regex::Regex::is_match` of the class `\d`, the Unicode category `Nd`, on a single character.
/// ASCII holds the ten decimal digits of it; beyond, the answer is named `regex_digit`.
#[verifier::external_body]
pub(crate) fn is_regex_digit(c: char) -> (r: bool)
    ensures
        is_ascii_char(c) ==> r == is_digit(c),
        !is_ascii_char(c) ==> r == regex_digit(c),
{
    regex::Regex::new(r"\d").unwrap().is_match(&c.to_string())
}

/// The digits that a regular expression knows: the Unicode decimal numbers.
pub open spec fn decimal_digit(c: char) -> bool {
    if is_ascii_char(c) {
        is_digit(c)
    } else {
        regex_digit(c)
    }
}

/// A regular expression that is known to compile.
#[derive(Debug)]
pub struct Pattern {
    source: String,
}

impl View for Pattern {
    type V = Seq<char>;

    closed spec fn view(&self) -> Seq<char> {
        self.source@
    }
}

impl Pattern {
    #[verifier::type_invariant]
    spec fn well_formed(self) -> bool {
        regex_compiles(self.source@)
    }

    /// The pattern with this source, where it compiles.
    pub fn new(source: &str) -> (r: Option<Pattern>)
        ensures
            r is Some <==> regex_compiles(source@),
            r matches Some(p) ==> p@ == source@,
    {
        if compiles(source) {
            Some(Pattern { source: copy_str(source) })
        } else {
            None
        }
    }

    /// The source text of the pattern.
    pub fn source(&self) -> (r: String)
        ensures
            r@ == self@,
    {
        copy_str(self.source.as_str())
    }

    /// A pattern with the same source.
    pub fn duplicate(&self) -> (r: Pattern)
        ensures
            r@ == self@,
    {
        proof {
            use_type_invariant(self);
        }
        Pattern { source: copy_str(self.source.as_str()) }
    }

    /// Whether the pattern matches anywhere in `text`.
    pub fn is_match(&self, text: &str) -> (r: bool)
        ensures
            r == regex_is_match(self@, text@),
    {
        proof {
            use_type_invariant(self);
        }
        matches_anywhere(self.source.as_str(), text)
    }
}

} // verus!
