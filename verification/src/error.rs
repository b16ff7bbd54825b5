//! The ways in which reading, checking and filtering a playlist can fail.

use crate::format::Resolution;
use crate::text::{decimal_string, decimal_text};
use vstd::prelude::*;

verus! {

/// Why a line could not be read.
#[derive(Clone, Copy, Debug, PartialEq, Eq, Structural)]
pub enum SyntaxError {
    /// An attribute value has none of the five lexical shapes.
    Lex,
    /// An attribute list has a malformed name, lacks a `=`, or lacks the comma
    /// between two attributes.
    AttributeSyntax,
    /// The line is neither empty, a tag nor a URI.
    LineClassification,
}

/// The three kinds of record that a tag can describe.
#[derive(Clone, Copy, Debug, PartialEq, Eq, Structural)]
pub enum RecordKind {
    /// `EXT-X-MEDIA`.
    Media,
    /// `EXT-X-STREAM-INF`.
    StreamInf,
    /// `EXT-X-I-FRAME-STREAM-INF`.
    IFrameStreamInf,
}

/// How the lines of a text can fail to follow each other as those of a
/// playlist must.
#[derive(Clone, Copy, Debug, PartialEq, Eq, Structural)]
pub enum SequenceError {
    /// The first line is not `#EXTM3U`.
    MissingHeader,
    /// The line after an `EXT-X-STREAM-INF` tag is not a URI.
    ExpectedUri { line: usize },
    /// A line that has no place where it stands: a URI without a stream tag
    /// before it, a second header, or a tag that is not known.
    UnexpectedLine { line: usize },
    /// The text ends with an `EXT-X-STREAM-INF` tag.
    MissingTrailingUri,
    /// The text describes no media, no stream and no I-frame stream.
    EmptyPlaylist,
}

/// Why a text is no playlist. Lines are counted from 0.
#[derive(Clone, Copy, Debug, PartialEq, Eq, Structural)]
pub enum ParseError {
    /// A line could not be read.
    Syntax { line: usize, error: SyntaxError },
    /// A tag lacks a required attribute, or holds one of the wrong kind.
    RecordInterpretation { line: usize, record: RecordKind },
    /// The lines do not follow each other as they must.
    Sequence(SequenceError),
}

/// `head`, followed by the decimal numeral of `n`.
fn numbered(head: &str, n: u64) -> (text: String)
    ensures
        text@ == head@ + decimal_text(n as nat),
{
    head.to_owned().concat(decimal_string(n).as_str())
}

/// `head`, followed by `name`.
fn followed(head: &str, name: &str) -> (text: String)
    ensures
        text@ == head@ + name@,
{
    head.to_owned().concat(name)
}

/// `name`, with `head` before it and `tail` after it.
fn named(head: &str, name: &str, tail: &str) -> (text: String)
    ensures
        text@ == head@ + name@ + tail@,
{
    head.to_owned().concat(name).concat(tail)
}

impl RecordKind {
    /// The name of the tag that describes a record of this kind.
    pub open spec fn tag(self) -> Seq<char> {
        match self {
            RecordKind::Media => "EXT-X-MEDIA"@,
            RecordKind::StreamInf => "EXT-X-STREAM-INF"@,
            RecordKind::IFrameStreamInf => "EXT-X-I-FRAME-STREAM-INF"@,
        }
    }

    /// The name of the tag that describes a record of this kind.
    pub fn tag_name(self) -> (name: &'static str)
        ensures
            name@ == self.tag(),
    {
        match self {
            RecordKind::Media => "EXT-X-MEDIA",
            RecordKind::StreamInf => "EXT-X-STREAM-INF",
            RecordKind::IFrameStreamInf => "EXT-X-I-FRAME-STREAM-INF",
        }
    }
}

impl SequenceError {
    /// The error in words.
    pub open spec fn message_text(self) -> Seq<char> {
        match self {
            SequenceError::MissingHeader => "No #EXTM3U at first line"@,
            SequenceError::ExpectedUri { line } => "Expected URI line not found at line "@
                + decimal_text(line as nat),
            SequenceError::UnexpectedLine { line } => "Unexpected line "@ + decimal_text(
                line as nat,
            ),
            SequenceError::MissingTrailingUri => "Expected URI at last line not found"@,
            SequenceError::EmptyPlaylist => "Empty playlist"@,
        }
    }

    /// The error in words.
    pub fn message(&self) -> (text: String)
        ensures
            text@ == self.message_text(),
    {
        match self {
            SequenceError::MissingHeader => "No #EXTM3U at first line".to_owned(),
            SequenceError::ExpectedUri { line } => numbered(
                "Expected URI line not found at line ",
                *line as u64,
            ),
            SequenceError::UnexpectedLine { line } => numbered("Unexpected line ", *line as u64),
            SequenceError::MissingTrailingUri => "Expected URI at last line not found".to_owned(),
            SequenceError::EmptyPlaylist => "Empty playlist".to_owned(),
        }
    }
}

impl ParseError {
    /// The error in words. The line is named, counted from 0.
    pub open spec fn message_text(self) -> Seq<char> {
        match self {
            ParseError::Syntax { line, .. } => "Parse error at line "@ + decimal_text(line as nat),
            ParseError::RecordInterpretation { line, record } => "Failed to interpret "@
                + record.tag() + " at line "@ + decimal_text(line as nat),
            ParseError::Sequence(error) => error.message_text(),
        }
    }

    /// The error in words.
    pub fn message(&self) -> (text: String)
        ensures
            text@ == self.message_text(),
    {
        match self {
            ParseError::Syntax { line, .. } => numbered("Parse error at line ", *line as u64),
            ParseError::RecordInterpretation { line, record } => {
                let tag = named("Failed to interpret ", record.tag_name(), " at line ");
                numbered(tag.as_str(), *line as u64)
            },
            ParseError::Sequence(error) => error.message(),
        }
    }
}

/// A reference from a stream to a group of media entries that the playlist
/// does not have. The error names the group that is missing.
#[derive(Debug)]
pub enum ValidationError {
    /// No audio entry is in the group that a stream names under `AUDIO`.
    UnknownAudioGroup(String),
    /// No closed-captions entry is in the group that a stream names under
    /// `CLOSED-CAPTIONS`.
    UnknownClosedCaptionsGroup(String),
}

/// The mathematical value of a [`ValidationError`].
pub enum ValidationErrorView {
    UnknownAudioGroup(Seq<char>),
    UnknownClosedCaptionsGroup(Seq<char>),
}

impl View for ValidationError {
    type V = ValidationErrorView;

    open spec fn view(&self) -> ValidationErrorView {
        match self {
            ValidationError::UnknownAudioGroup(group) => ValidationErrorView::UnknownAudioGroup(
                group@,
            ),
            ValidationError::UnknownClosedCaptionsGroup(group) => {
                ValidationErrorView::UnknownClosedCaptionsGroup(group@)
            },
        }
    }
}

impl ValidationErrorView {
    /// The error in words.
    pub open spec fn message_text(self) -> Seq<char> {
        match self {
            ValidationErrorView::UnknownAudioGroup(group) => "Reference to unknown AUDIO group "@
                + group,
            ValidationErrorView::UnknownClosedCaptionsGroup(group) => {
                "Reference to unknown CLOSED-CAPTIONS group "@ + group
            },
        }
    }
}

impl ValidationError {
    /// The error in words. The missing group is named.
    pub fn message(&self) -> (text: String)
        ensures
            text@ == self@.message_text(),
    {
        match self {
            ValidationError::UnknownAudioGroup(group) => followed(
                "Reference to unknown AUDIO group ",
                group.as_str(),
            ),
            ValidationError::UnknownClosedCaptionsGroup(group) => followed(
                "Reference to unknown CLOSED-CAPTIONS group ",
                group.as_str(),
            ),
        }
    }
}

/// A selection that leaves nothing. The error names what was asked for.
#[derive(Debug)]
pub enum SelectionError {
    /// No media entry is left: no audio entry is in the group, and the
    /// playlist has no other media entry.
    AudioGroupNotFound(String),
    /// No stream goes with the audio group.
    AudioGroupWithoutStream(String),
    /// No media entry is left: no audio entry has these channels, and the
    /// playlist has no other media entry.
    AudioChannelsNotFound(String),
    /// No stream goes with an audio group that has these channels.
    AudioChannelsWithoutStream(String),
    /// Every stream needs more bandwidth than this.
    NoStreamWithinBandwidth(u64),
    /// No stream and no I-frame stream has this resolution.
    NoStreamWithResolution(Resolution),
}

/// The mathematical value of a [`SelectionError`].
pub enum SelectionErrorView {
    AudioGroupNotFound(Seq<char>),
    AudioGroupWithoutStream(Seq<char>),
    AudioChannelsNotFound(Seq<char>),
    AudioChannelsWithoutStream(Seq<char>),
    NoStreamWithinBandwidth(u64),
    NoStreamWithResolution(Resolution),
}

impl View for SelectionError {
    type V = SelectionErrorView;

    open spec fn view(&self) -> SelectionErrorView {
        match self {
            SelectionError::AudioGroupNotFound(group) => SelectionErrorView::AudioGroupNotFound(
                group@,
            ),
            SelectionError::AudioGroupWithoutStream(group) => {
                SelectionErrorView::AudioGroupWithoutStream(group@)
            },
            SelectionError::AudioChannelsNotFound(channels) => {
                SelectionErrorView::AudioChannelsNotFound(channels@)
            },
            SelectionError::AudioChannelsWithoutStream(channels) => {
                SelectionErrorView::AudioChannelsWithoutStream(channels@)
            },
            SelectionError::NoStreamWithinBandwidth(max) => {
                SelectionErrorView::NoStreamWithinBandwidth(*max)
            },
            SelectionError::NoStreamWithResolution(resolution) => {
                SelectionErrorView::NoStreamWithResolution(*resolution)
            },
        }
    }
}

impl SelectionErrorView {
    /// The error in words.
    pub open spec fn message_text(self) -> Seq<char> {
        match self {
            SelectionErrorView::AudioGroupNotFound(group) => "Audio group "@ + group
                + " not found"@,
            SelectionErrorView::AudioGroupWithoutStream(group) => "Audio group "@ + group
                + " has no STREAM-ID associated"@,
            SelectionErrorView::AudioChannelsNotFound(channels) => "Audio channels "@ + channels
                + " not found"@,
            SelectionErrorView::AudioChannelsWithoutStream(channels) => "Audio channels "@
                + channels + " has no STREAM-ID associated"@,
            SelectionErrorView::NoStreamWithinBandwidth(max) => {
                "No streams with bandwidth lower than "@ + decimal_text(max as nat)
            },
            SelectionErrorView::NoStreamWithResolution(resolution) => "No streams with resolution "@
                + decimal_text(resolution.w as nat) + "x"@ + decimal_text(resolution.h as nat),
        }
    }
}

impl SelectionError {
    /// The error in words. What was asked for is named.
    pub fn message(&self) -> (text: String)
        ensures
            text@ == self@.message_text(),
    {
        match self {
            SelectionError::AudioGroupNotFound(group) => named(
                "Audio group ",
                group.as_str(),
                " not found",
            ),
            SelectionError::AudioGroupWithoutStream(group) => named(
                "Audio group ",
                group.as_str(),
                " has no STREAM-ID associated",
            ),
            SelectionError::AudioChannelsNotFound(channels) => named(
                "Audio channels ",
                channels.as_str(),
                " not found",
            ),
            SelectionError::AudioChannelsWithoutStream(channels) => named(
                "Audio channels ",
                channels.as_str(),
                " has no STREAM-ID associated",
            ),
            SelectionError::NoStreamWithinBandwidth(max) => numbered(
                "No streams with bandwidth lower than ",
                *max,
            ),
            SelectionError::NoStreamWithResolution(resolution) => {
                let width = numbered("No streams with resolution ", resolution.w);
                numbered(followed(width.as_str(), "x").as_str(), resolution.h)
            },
        }
    }
}

} // verus!
