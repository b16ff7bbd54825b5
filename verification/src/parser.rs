//! The playlist assembler: reads a text line by line and builds the playlist
//! that it describes. The parsers of the parts of a playlist are at hand here
//! too.

use crate::error::{ParseError, RecordKind, SequenceError};
use crate::format::{MultivariantPlaylist, PlaylistView, Resolution, StreamInfView};
use crate::interpret::{i_frame_stream_inf_of, media_of, stream_inf_of};
use crate::line::{classify, classify_line, header_text, ParsedLineView};
use crate::text::{chars_of, consume, lines, lines_from, CharClass};
use crate::value::resolution_of;
use crate::views::{lemma_views_push, ok_view, views};
use vstd::prelude::*;

pub use crate::attributes::{parse_attributes, AttributeMap};
pub use crate::interpret::{
    as_bool, as_media_type, as_resolution, as_video_range, intepret_ext_x_media,
    interpret_ext_x_i_frame_stream_inf, interpret_ext_x_stream_inf,
};
pub use crate::line::{parse_line, ParsedLine};
pub use crate::value::{parse_attribute_value, parse_resolution, AttributeValue, Decimal};

verus! {

/// What the assembler waits for.
#[derive(Clone, Copy, Debug, PartialEq, Eq, Structural)]
pub enum Phase {
    /// The header, on the first line.
    ExpectHeader,
    /// Any tag, or an empty line.
    Normal,
    /// The URI of the stream whose tag stood on the line before.
    ExpectUri,
}

/// The state of the assembler between two lines.
pub struct Assembly {
    pub phase: Phase,
    pub playlist: PlaylistView,
}

impl Assembly {
    /// The state before the first line.
    pub open spec fn start() -> Assembly {
        Assembly { phase: Phase::ExpectHeader, playlist: PlaylistView::empty() }
    }
}

/// The streams of a playlist with `uri` given to the last of them.
pub open spec fn with_last_uri(streams: Seq<StreamInfView>, uri: Seq<char>) -> Seq<StreamInfView> {
    if streams.len() == 0 {
        streams
    } else {
        streams.update(streams.len() - 1, StreamInfView { uri, ..streams.last() })
    }
}

/// What a line does in the phase `Normal`: an empty line does nothing,
/// `EXT-X-INDEPENDENT-SEGMENTS` sets the flag, and each of the three tags
/// with attributes adds the record that it describes to the end of its
/// sequence. Everything else is out of place.
pub open spec fn step_normal(playlist: PlaylistView, line: int, parsed: ParsedLineView) -> Result<
    Assembly,
    ParseError,
> {
    let out_of_place = Err(
        ParseError::Sequence(SequenceError::UnexpectedLine { line: line as usize }),
    );
    match parsed {
        ParsedLineView::Empty => Ok(Assembly { phase: Phase::Normal, playlist }),
        ParsedLineView::Tag(name) => if name == "EXT-X-INDEPENDENT-SEGMENTS"@ {
            Ok(
                Assembly {
                    phase: Phase::Normal,
                    playlist: PlaylistView { independent_segments: true, ..playlist },
                },
            )
        } else {
            out_of_place
        },
        ParsedLineView::TagWithAttributes(name, attributes) => if name == "EXT-X-MEDIA"@ {
            match media_of(attributes) {
                Some(media) => Ok(
                    Assembly {
                        phase: Phase::Normal,
                        playlist: PlaylistView { media: playlist.media.push(media), ..playlist },
                    },
                ),
                None => Err(
                    ParseError::RecordInterpretation {
                        line: line as usize,
                        record: RecordKind::Media,
                    },
                ),
            }
        } else if name == "EXT-X-STREAM-INF"@ {
            match stream_inf_of(attributes) {
                Some(stream) => Ok(
                    Assembly {
                        phase: Phase::ExpectUri,
                        playlist: PlaylistView {
                            stream_inf: playlist.stream_inf.push(stream),
                            ..playlist
                        },
                    },
                ),
                None => Err(
                    ParseError::RecordInterpretation {
                        line: line as usize,
                        record: RecordKind::StreamInf,
                    },
                ),
            }
        } else if name == "EXT-X-I-FRAME-STREAM-INF"@ {
            match i_frame_stream_inf_of(attributes) {
                Some(stream) => Ok(
                    Assembly {
                        phase: Phase::Normal,
                        playlist: PlaylistView {
                            i_frame_stream_inf: playlist.i_frame_stream_inf.push(stream),
                            ..playlist
                        },
                    },
                ),
                None => Err(
                    ParseError::RecordInterpretation {
                        line: line as usize,
                        record: RecordKind::IFrameStreamInf,
                    },
                ),
            }
        } else {
            out_of_place
        },
        _ => out_of_place,
    }
}

/// The state after the line `l`, which is line number `line`, has been read in
/// the state `a`. A line that cannot be read fails before anything else is
/// looked at. The first line must be the header. After a stream tag the line
/// must be a URI, which goes to the stream that the tag added.
pub open spec fn step(a: Assembly, line: int, l: Seq<char>) -> Result<Assembly, ParseError> {
    match classify(l) {
        Err(error) => Err(ParseError::Syntax { line: line as usize, error }),
        Ok(parsed) => match a.phase {
            Phase::ExpectHeader => if parsed is ExtM3U {
                Ok(Assembly { phase: Phase::Normal, playlist: a.playlist })
            } else {
                Err(ParseError::Sequence(SequenceError::MissingHeader))
            },
            Phase::ExpectUri => match parsed {
                ParsedLineView::Uri(uri) => Ok(
                    Assembly {
                        phase: Phase::Normal,
                        playlist: PlaylistView {
                            stream_inf: with_last_uri(a.playlist.stream_inf, uri),
                            ..a.playlist
                        },
                    },
                ),
                _ => Err(ParseError::Sequence(SequenceError::ExpectedUri { line: line as usize })),
            },
            Phase::Normal => step_normal(a.playlist, line, parsed),
        },
    }
}

/// The state after all of `lines` have been read, one after the other, or
/// the error of the first line that fails.
pub open spec fn assemble(lines: Seq<Seq<char>>) -> Result<Assembly, ParseError>
    decreases lines.len(),
{
    if lines.len() == 0 {
        Ok(Assembly::start())
    } else {
        match assemble(lines.drop_last()) {
            Ok(a) => step(a, lines.len() - 1, lines.last()),
            Err(e) => Err(e),
        }
    }
}

/// The playlist that has been built when the text ends in the state `a`. A
/// text may not end where a URI is due, and it must have described something.
pub open spec fn finish(a: Assembly) -> Result<PlaylistView, ParseError> {
    match a.phase {
        Phase::ExpectHeader => Err(ParseError::Sequence(SequenceError::MissingHeader)),
        Phase::ExpectUri => Err(ParseError::Sequence(SequenceError::MissingTrailingUri)),
        Phase::Normal => if a.playlist.media.len() == 0 && a.playlist.stream_inf.len() == 0
            && a.playlist.i_frame_stream_inf.len() == 0 {
            Err(ParseError::Sequence(SequenceError::EmptyPlaylist))
        } else {
            Ok(a.playlist)
        },
    }
}

/// The playlist that the text `data` describes, or the reason why it
/// describes none.
pub open spec fn parse(data: Seq<char>) -> Result<PlaylistView, ParseError> {
    match assemble(lines(data)) {
        Ok(a) => finish(a),
        Err(e) => Err(e),
    }
}

/// The resolution that a text of the form `WxH` names.
pub open spec fn resolution_param(param: Seq<char>) -> Option<Resolution> {
    match resolution_of(param) {
        Some((w, h)) => Some(Resolution { w, h }),
        None => None,
    }
}

/// Reads a resolution given as `WxH`, as a user would write it to select
/// streams by resolution.
pub fn parse_resolution_param(param: &str) -> (r: Option<Resolution>)
    ensures
        r == resolution_param(param@),
{
    match parse_resolution(param) {
        Some(AttributeValue::DecimalResolution(w, h)) => Some(Resolution { w, h }),
        _ => None,
    }
}

/// Whether `l` is an `EXT-X-MEDIA` tag that describes a media entry.
pub open spec fn is_media_line(l: Seq<char>) -> bool {
    classify(l) matches Ok(ParsedLineView::TagWithAttributes(name, attributes)) && name
        == "EXT-X-MEDIA"@ && media_of(attributes) is Some
}

/// What has been built after the header and `n - 1` further lines, each of
/// them empty or a media entry: media entries and nothing else, and at least
/// one media entry if one of the lines is one.
proof fn lemma_assemble_media_lines(ls: Seq<Seq<char>>, n: int)
    requires
        1 <= n <= ls.len(),
        ls[0] == header_text(),
        forall|i: int| 1 <= i < n ==> (#[trigger] ls[i]).len() == 0 || is_media_line(ls[i]),
    ensures
        assemble(ls.take(n)) matches Ok(a) && {
            &&& a.phase == Phase::Normal
            &&& a.playlist.stream_inf.len() == 0
            &&& a.playlist.i_frame_stream_inf.len() == 0
            &&& a.playlist.media.len() > 0 <==> exists|i: int|
                1 <= i < n && is_media_line(#[trigger] ls[i])
        },
    decreases n,
{
    reveal_strlit("#EXTM3U");
    assert(ls.take(n).drop_last() =~= ls.take(n - 1));
    assert(ls.take(n).last() == ls[n - 1]);
    if n == 1 {
        assert(assemble(ls.take(0)) == Ok::<_, ParseError>(Assembly::start()));
    } else {
        lemma_assemble_media_lines(ls, n - 1);
        if exists|i: int| 1 <= i < n - 1 && is_media_line(#[trigger] ls[i]) {
            let i = choose|i: int| 1 <= i < n - 1 && is_media_line(#[trigger] ls[i]);
            assert(1 <= i < n && is_media_line(ls[i]));
        }
        if ls[n - 1].len() == 0 {
            if exists|i: int| 1 <= i < n && is_media_line(#[trigger] ls[i]) {
                let i = choose|i: int| 1 <= i < n && is_media_line(#[trigger] ls[i]);
                assert(1 <= i < n - 1 && is_media_line(ls[i]));
            }
        } else {
            assert(1 <= n - 1 < n && is_media_line(ls[n - 1]));
        }
    }
}

/// A text that consists of the header and of media entries, with empty lines
/// anywhere among them, is a playlist, though it describes no stream.
pub proof fn law_media_only_playlist(data: Seq<char>)
    requires
        lines(data)[0] == header_text(),
        forall|i: int|
            1 <= i < lines(data).len() ==> (#[trigger] lines(data)[i]).len() == 0 || is_media_line(
                lines(data)[i],
            ),
        exists|i: int| 1 <= i < lines(data).len() && is_media_line(#[trigger] lines(data)[i]),
    ensures
        parse(data) matches Ok(p) && p.media.len() > 0 && p.stream_inf.len() == 0
            && p.i_frame_stream_inf.len() == 0,
{
    let ls = lines(data);
    lemma_assemble_media_lines(ls, ls.len() as int);
    assert(ls.take(ls.len() as int) =~= ls);
}

/// A text that consists of the header and of empty lines is no playlist: it
/// describes nothing.
pub proof fn law_playlist_without_entries(data: Seq<char>)
    requires
        lines(data)[0] == header_text(),
        forall|i: int| 1 <= i < lines(data).len() ==> (#[trigger] lines(data)[i]).len() == 0,
    ensures
        parse(data) == Err::<PlaylistView, _>(ParseError::Sequence(SequenceError::EmptyPlaylist)),
{
    let ls = lines(data);
    lemma_assemble_media_lines(ls, ls.len() as int);
    assert(ls.take(ls.len() as int) =~= ls);
    if exists|i: int| 1 <= i < ls.len() && is_media_line(#[trigger] ls[i]) {
        let i = choose|i: int| 1 <= i < ls.len() && is_media_line(#[trigger] ls[i]);
        assert(ls[i].len() == 0);
    }
}

/// Once a line has failed, the lines after it change nothing.
pub proof fn lemma_assemble_stays_failed(front: Seq<Seq<char>>, rest: Seq<Seq<char>>)
    requires
        assemble(front) is Err,
    ensures
        assemble(front + rest) == assemble(front),
    decreases rest.len(),
{
    if rest.len() == 0 {
        assert(front + rest =~= front);
    } else {
        lemma_assemble_stays_failed(front, rest.drop_last());
        assert((front + rest).drop_last() =~= front + rest.drop_last());
    }
}

/// Reads the line `line`, which is line number `lineno`, into `playlist`, and
/// returns the phase in which the next line is read.
fn advance(playlist: &mut MultivariantPlaylist, phase: Phase, lineno: usize, line: &[char]) -> (r:
    Result<Phase, ParseError>)
    requires
        phase is ExpectUri ==> old(playlist).stream_inf@.len() > 0,
    ensures
        step(Assembly { phase, playlist: old(playlist)@ }, lineno as int, line@) == match r {
            Ok(next) => Ok(Assembly { phase: next, playlist: final(playlist)@ }),
            Err(e) => Err(e),
        },
        r == Ok::<_, ParseError>(Phase::ExpectUri) ==> final(playlist).stream_inf@.len() > 0,
{
    let parsed = match classify_line(line) {
        Ok(parsed) => parsed,
        Err(error) => {
            return Err(ParseError::Syntax { line: lineno, error });
        },
    };
    let out_of_place = Err(ParseError::Sequence(SequenceError::UnexpectedLine { line: lineno }));
    match phase {
        Phase::ExpectHeader => match parsed {
            ParsedLine::ExtM3U => Ok(Phase::Normal),
            _ => Err(ParseError::Sequence(SequenceError::MissingHeader)),
        },
        Phase::ExpectUri => match parsed {
            ParsedLine::Uri(uri) => {
                let ghost before = playlist.stream_inf@;
                let mut stream = playlist.stream_inf.pop().unwrap();
                stream.uri = uri;
                playlist.stream_inf.push(stream);
                assert(views(playlist.stream_inf@) =~= with_last_uri(views(before), uri@));
                Ok(Phase::Normal)
            },
            _ => Err(ParseError::Sequence(SequenceError::ExpectedUri { line: lineno })),
        },
        Phase::Normal => match parsed {
            ParsedLine::Empty => Ok(Phase::Normal),
            ParsedLine::Tag(name) => {
                if name.as_str().eq("EXT-X-INDEPENDENT-SEGMENTS") {
                    playlist.independent_segments = true;
                    Ok(Phase::Normal)
                } else {
                    out_of_place
                }
            },
            ParsedLine::TagWithAttributes(name, attributes) => {
                let name = name.as_str();
                if name.eq("EXT-X-MEDIA") {
                    match intepret_ext_x_media(&attributes) {
                        Some(media) => {
                            proof {
                                lemma_views_push(playlist.media@, media);
                            }
                            playlist.media.push(media);
                            Ok(Phase::Normal)
                        },
                        None => Err(
                            ParseError::RecordInterpretation {
                                line: lineno,
                                record: RecordKind::Media,
                            },
                        ),
                    }
                } else if name.eq("EXT-X-STREAM-INF") {
                    match interpret_ext_x_stream_inf(&attributes) {
                        Some(stream) => {
                            proof {
                                lemma_views_push(playlist.stream_inf@, stream);
                            }
                            playlist.stream_inf.push(stream);
                            Ok(Phase::ExpectUri)
                        },
                        None => Err(
                            ParseError::RecordInterpretation {
                                line: lineno,
                                record: RecordKind::StreamInf,
                            },
                        ),
                    }
                } else if name.eq("EXT-X-I-FRAME-STREAM-INF") {
                    match interpret_ext_x_i_frame_stream_inf(&attributes) {
                        Some(stream) => {
                            proof {
                                lemma_views_push(playlist.i_frame_stream_inf@, stream);
                            }
                            playlist.i_frame_stream_inf.push(stream);
                            Ok(Phase::Normal)
                        },
                        None => Err(
                            ParseError::RecordInterpretation {
                                line: lineno,
                                record: RecordKind::IFrameStreamInf,
                            },
                        ),
                    }
                } else {
                    out_of_place
                }
            },
            _ => out_of_place,
        },
    }
}

/// Reads a multivariant playlist. The lines of `data` are separated by line
/// feeds; a carriage return before a line feed is not taken off, and counts as
/// part of its line. Of a text that is no playlist the first line that fails
/// is reported, and nothing is returned of what was read before it.
pub fn parse_playlist(data: &str) -> (r: Result<MultivariantPlaylist, ParseError>)
    ensures
        ok_view(r) == parse(data@),
{
    let chars = chars_of(data);
    let text = chars.as_slice();
    let mut playlist = MultivariantPlaylist::new();
    let mut phase = Phase::ExpectHeader;
    let mut lineno: usize = 0;
    let mut start: usize = 0;
    let ghost mut done: Seq<Seq<char>> = Seq::empty();
    assert(done + lines_from(text@, 0) =~= lines(text@));
    loop
        invariant_except_break
            lineno <= start <= text@.len(),
            lines(text@) == done + lines_from(text@, start as int),
            done.len() == lineno,
            assemble(done) == Ok::<_, ParseError>(Assembly { phase, playlist: playlist@ }),
        invariant
            text@ == data@,
            phase is ExpectUri ==> playlist.stream_inf@.len() > 0,
        ensures
            assemble(lines(text@)) == Ok::<_, ParseError>(Assembly { phase, playlist: playlist@ }),
        decreases text@.len() - start,
    {
        let end = consume(text, CharClass::Line, start);
        let line = &text[start..end];
        let ghost read = done.push(line@);
        let ghost rest = if end < text@.len() {
            lines_from(text@, end + 1)
        } else {
            Seq::empty()
        };
        proof {
            assert(read.drop_last() =~= done);
            assert(lines(text@) =~= read + rest);
        }
        match advance(&mut playlist, phase, lineno, line) {
            Ok(next) => {
                phase = next;
            },
            Err(e) => {
                proof {
                    lemma_assemble_stays_failed(read, rest);
                }
                return Err(e);
            },
        }
        proof {
            done = read;
        }
        if end >= text.len() {
            assert(read + rest =~= read);
            break;
        }
        start = end + 1;
        lineno += 1;
    }
    match phase {
        Phase::ExpectHeader => Err(ParseError::Sequence(SequenceError::MissingHeader)),
        Phase::ExpectUri => Err(ParseError::Sequence(SequenceError::MissingTrailingUri)),
        Phase::Normal => {
            if playlist.media.len() == 0 && playlist.stream_inf.len() == 0
                && playlist.i_frame_stream_inf.len() == 0 {
                Err(ParseError::Sequence(SequenceError::EmptyPlaylist))
            } else {
                Ok(playlist)
            }
        },
    }
}

} // verus!
