//! Searching text with regular expressions.
//!
//! The expressions are those of the `regex` crate. What a search finds is
//! not defined here: it is named, by `regex_first_capture` and
//! `regex_all_captures`, and the functions of this module say what they make
//! of it.

use regex::Regex;
use vstd::prelude::*;
use crate::text::{trim, trimmed};

verus! {

/// What a search for one group of a match came to.
#[derive(Debug)]
pub enum Capture {
    /// The engine did not accept the expression.
    Rejected,
    /// The expression matches nowhere in the text.
    NoMatch,
    /// The expression matches, but the group took no part in the match, or
    /// the expression has no group of that number.
    NoGroup,
    /// The text that the group matched.
    Text(String),
}

/// An outcome of a search, the text as a sequence of characters.
pub enum CaptureView {
    Rejected,
    NoMatch,
    NoGroup,
    Text(Seq<char>),
}

impl View for Capture {
    type V = CaptureView;

    open spec fn view(&self) -> CaptureView {
        match self {
            Capture::Rejected => CaptureView::Rejected,
            Capture::NoMatch => CaptureView::NoMatch,
            Capture::NoGroup => CaptureView::NoGroup,
            Capture::Text(text) => CaptureView::Text(text@),
        }
    }
}

/// What the `regex` crate finds for group `index` in the first match of
/// `expression` in `content`.
pub uninterp spec fn regex_first_capture(
    content: Seq<char>,
    expression: Seq<char>,
    index: int,
) -> CaptureView;

/// What the `regex` crate finds for group `index` in each of the successive
/// matches of `expression` in `content`, in the order of the matches: the
/// group's text, or `None` where the group took no part in that match. The
/// whole is `None` where the engine does not accept the expression.
pub uninterp spec fn regex_all_captures(
    content: Seq<char>,
    expression: Seq<char>,
    index: int,
) -> Option<Seq<Option<Seq<char>>>>;

/// Compiles `expression` with `regex::Regex::new`, looks for its first match
/// in `content` with `Regex::captures`, and takes the text of group `index`
/// with `Captures::get` and `Match::as_str`. The contract claims that the
/// outcome depends on the three arguments alone.
#[verifier::external_body]
fn first_capture(content: &str, expression: &str, index: usize) -> (found: Capture)
    ensures
        found@ == regex_first_capture(content@, expression@, index as int),
{
    let compiled = match Regex::new(expression) {
        Ok(compiled) => compiled,
        Err(_) => return Capture::Rejected,
    };
    match compiled.captures(content) {
        None => Capture::NoMatch,
        Some(groups) => match groups.get(index) {
            None => Capture::NoGroup,
            Some(found) => Capture::Text(found.as_str().to_owned()),
        },
    }
}

/// Compiles `expression` with `regex::Regex::new`, walks its successive
/// matches in `content` with `Regex::captures_iter`, and takes from each the
/// text of group `index` with `Captures::get` and `Match::as_str`. The
/// contract claims that the outcome depends on the three arguments alone.
#[verifier::external_body]
fn all_captures(content: &str, expression: &str, index: usize) -> (found: Option<
    Vec<Option<String>>,
>)
    ensures
        found.deep_view() == regex_all_captures(content@, expression@, index as int),
{
    let compiled = match Regex::new(expression) {
        Ok(compiled) => compiled,
        Err(_) => return None,
    };
    Some(
        compiled.captures_iter(content).map(
            |groups| groups.get(index).map(|found| found.as_str().to_owned()),
        ).collect(),
    )
}

/// The text that an outcome stands for: what the group matched, without the
/// white space around it, and the empty string where nothing was found.
pub open spec fn captured_text(found: CaptureView) -> Seq<char> {
    match found {
        CaptureView::Text(text) => trimmed(text),
        _ => Seq::empty(),
    }
}

/// Picks what is there: the identity on optional texts, as a function.
pub open spec fn what_is_there() -> spec_fn(Option<Seq<char>>) -> Option<Seq<char>> {
    |group: Option<Seq<char>>| group
}

/// The texts that a walk over all matches found, in their order. A match in
/// which the group took no part gives none.
pub open spec fn captured_texts(found: Option<Seq<Option<Seq<char>>>>) -> Seq<Seq<char>> {
    match found {
        Some(groups) => groups.filter_map(what_is_there()),
        None => Seq::empty(),
    }
}

/// Turns an outcome of a search into text: the match without the white
/// space around it, or the empty string where nothing was found.
pub fn capture_text(found: Capture) -> (text: String)
    ensures
        text@ == captured_text(found@),
{
    match found {
        Capture::Text(matched) => trim(matched.as_str()).to_owned(),
        _ => String::new(),
    }
}

/// Collects the texts that a walk over all matches found.
pub fn capture_texts(found: Option<Vec<Option<String>>>) -> (texts: Vec<String>)
    ensures
        texts.deep_view() == captured_texts(found.deep_view()),
{
    let mut texts: Vec<String> = Vec::new();
    match found {
        None => {},
        Some(groups) => {
            let ghost all = groups.deep_view();
            let ghost keep = what_is_there();
            let mut i: usize = 0;
            while i < groups.len()
                invariant
                    i <= groups.len(),
                    all == groups.deep_view(),
                    keep == what_is_there(),
                    texts.deep_view() == all.subrange(0, i as int).filter_map(keep),
                decreases groups.len() - i,
            {
                assert(all.subrange(0, i + 1).drop_last() =~= all.subrange(0, i as int));
                match &groups[i] {
                    Some(text) => {
                        texts.push(text.clone());
                    },
                    None => {},
                }
                i += 1;
            }
            assert(all.subrange(0, groups.len() as int) =~= all);
        },
    }
    texts
}

/// The text of group `index` in the first match of `expression` in
/// `content`, without the white space around it. The empty string where
/// the search finds nothing: no match, no such group in the match, or an
/// expression that the engine does not accept.
pub fn capture_string_by_regex(content: &str, expression: &str, index: usize) -> (text: String)
    ensures
        text@ == captured_text(regex_first_capture(content@, expression@, index as int)),
{
    capture_text(first_capture(content, expression, index))
}

/// The text of group `index` in each match of `expression` in `content`, in
/// the order of the matches. Empty where the engine does not accept the
/// expression.
pub fn capture_strings_by_regex(content: &str, expression: &str, index: usize) -> (texts: Vec<
    String,
>)
    ensures
        texts.deep_view() == captured_texts(
            regex_all_captures(content@, expression@, index as int),
        ),
{
    capture_texts(all_captures(content, expression, index))
}

} // verus!
