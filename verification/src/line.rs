//! Lines: what one line of a playlist can be, and the classifier that tells.

use crate::attributes::{attributes, attributes_at, AttributeMap};
use crate::error::SyntaxError;
use crate::text::{
    chars_of, consume, is_text, lemma_run_end, lemma_run_end_is, run_end, starts_with_text,
    text_of, CharClass,
};
use crate::value::AttributeValueView;
use crate::views::ok_view;
use vstd::prelude::*;

verus! {

/// One line of a playlist, classified.
#[derive(Debug)]
pub enum ParsedLine {
    /// The header line `#EXTM3U`.
    ExtM3U,
    /// A tag without attributes; the name is given without the `#`.
    Tag(String),
    /// A tag with its attributes; the name is given without the `#`.
    TagWithAttributes(String, AttributeMap),
    /// A URI.
    Uri(String),
    /// The empty line.
    Empty,
}

/// The mathematical value of a [`ParsedLine`].
pub enum ParsedLineView {
    ExtM3U,
    Tag(Seq<char>),
    TagWithAttributes(Seq<char>, Map<Seq<char>, AttributeValueView>),
    Uri(Seq<char>),
    Empty,
}

impl View for ParsedLine {
    type V = ParsedLineView;

    open spec fn view(&self) -> ParsedLineView {
        match self {
            ParsedLine::ExtM3U => ParsedLineView::ExtM3U,
            ParsedLine::Tag(name) => ParsedLineView::Tag(name@),
            ParsedLine::TagWithAttributes(name, attributes) => ParsedLineView::TagWithAttributes(
                name@,
                attributes@,
            ),
            ParsedLine::Uri(uri) => ParsedLineView::Uri(uri@),
            ParsedLine::Empty => ParsedLineView::Empty,
        }
    }
}

/// The header line.
pub open spec fn header_text() -> Seq<char> {
    "#EXTM3U"@
}

/// What every tag begins with.
pub open spec fn tag_prefix() -> Seq<char> {
    "#EXT-X-"@
}

/// Where the name of the tag that `l` begins with ends: `l` begins with
/// `#EXT-X-`, goes on with at least one letter or hyphen, and the name runs up
/// to the end of the line or to a `:`.
pub open spec fn tag_name_end(l: Seq<char>) -> Option<int> {
    let end = run_end(l, CharClass::Name, tag_prefix().len() as int);
    if tag_prefix().is_prefix_of(l) && tag_prefix().len() < end && (end == l.len() || l[end]
        == ':') {
        Some(end)
    } else {
        None
    }
}

/// What the line `l` is. The rules are tried in this order: the empty line;
/// the header; a tag, which has attributes if anything follows its `:` and
/// fails as a whole if that is no attribute list; a URI, made of letters,
/// digits, `/`, `.` and `:` only.
pub open spec fn classify(l: Seq<char>) -> Result<ParsedLineView, SyntaxError> {
    if l.len() == 0 {
        Ok(ParsedLineView::Empty)
    } else if l == header_text() {
        Ok(ParsedLineView::ExtM3U)
    } else if let Some(end) = tag_name_end(l) {
        let name = l.subrange(1, end);
        if end + 1 >= l.len() {
            Ok(ParsedLineView::Tag(name))
        } else {
            match attributes(l.skip(end + 1)) {
                Ok(attributes) => Ok(ParsedLineView::TagWithAttributes(name, attributes)),
                Err(e) => Err(e),
            }
        }
    } else if CharClass::Uri.has_all(l) {
        Ok(ParsedLineView::Uri(l))
    } else {
        Err(SyntaxError::LineClassification)
    }
}

/// Finds the end of the tag name that `chars` begins with, if it begins with
/// one.
fn tag_name_at(chars: &[char]) -> (r: Option<usize>)
    ensures
        match r {
            Some(end) => tag_name_end(chars@) == Some(end as int) && 1 < end <= chars@.len(),
            None => tag_name_end(chars@) is None,
        },
{
    proof {
        reveal_strlit("#EXT-X-");
    }
    if !starts_with_text(chars, "#EXT-X-") {
        return None;
    }
    let end = consume(chars, CharClass::Name, 7);
    if 7 < end && (end == chars.len() || chars[end] == ':') {
        Some(end)
    } else {
        None
    }
}

/// Classifies the line `chars`, which holds no line feed of its own accord.
pub fn classify_line(chars: &[char]) -> (r: Result<ParsedLine, SyntaxError>)
    ensures
        ok_view(r) == classify(chars@),
{
    if chars.len() == 0 {
        return Ok(ParsedLine::Empty);
    }
    if is_text(chars, "#EXTM3U") {
        return Ok(ParsedLine::ExtM3U);
    }
    if let Some(end) = tag_name_at(chars) {
        let name = text_of(chars, 1, end);
        if chars.len() - end <= 1 {
            return Ok(ParsedLine::Tag(name));
        }
        return match attributes_at(chars, end + 1) {
            Ok(attributes) => Ok(ParsedLine::TagWithAttributes(name, attributes)),
            Err(e) => Err(e),
        };
    }
    let end = consume(chars, CharClass::Uri, 0);
    proof {
        lemma_run_end(chars@, CharClass::Uri, 0);
        if CharClass::Uri.has_all(chars@) {
            assert(chars@.subrange(0, chars@.len() as int) =~= chars@);
            lemma_run_end_is(chars@, CharClass::Uri, 0, chars@.len() as int);
        }
        if end == chars@.len() {
            assert(chars@.subrange(0, end as int) =~= chars@);
        }
    }
    if end == chars.len() {
        let uri = text_of(chars, 0, end);
        Ok(ParsedLine::Uri(uri))
    } else {
        Err(SyntaxError::LineClassification)
    }
}

/// Classifies one line, given without its line feed.
pub fn parse_line(line: &str) -> (r: Result<ParsedLine, SyntaxError>)
    ensures
        ok_view(r) == classify(line@),
{
    let chars = chars_of(line);
    classify_line(chars.as_slice())
}

} // verus!
