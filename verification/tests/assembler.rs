use hls_multivariant::error::{ParseError, RecordKind, SequenceError, SyntaxError};
use hls_multivariant::format::{MediaType, Resolution, VideoRange};
use hls_multivariant::parser::parse_playlist;

const MEDIA: &str =
    "#EXT-X-MEDIA:TYPE=AUDIO,GROUP-ID=\"a\",NAME=\"N\",DEFAULT=YES,AUTOSELECT=YES,URI=\"x\"";

fn error_of(text: &str) -> ParseError {
    match parse_playlist(text) {
        Ok(p) => panic!("parsed: {:?}", p),
        Err(e) => e,
    }
}

#[test]
fn playlist_with_media_and_stream() {
    let text = "#EXTM3U\n#EXT-X-INDEPENDENT-SEGMENTS\n\n#EXT-X-MEDIA:TYPE=AUDIO,GROUP-ID=\"a\",NAME=\"N\",DEFAULT=YES,AUTOSELECT=YES,URI=\"x\"\n#EXT-X-STREAM-INF:BANDWIDTH=100,AUDIO=\"a\"\nfoo.m3u8\n";
    let p = parse_playlist(text).unwrap();
    assert!(p.independent_segments);
    assert_eq!(p.media.len(), 1);
    assert_eq!(p.media[0].type_, MediaType::Audio);
    assert_eq!(p.media[0].group_id, "a");
    assert_eq!(p.media[0].name, "N");
    assert_eq!(p.media[0].uri, "x");
    assert!(p.media[0].default);
    assert!(p.media[0].autoselect);
    assert_eq!(p.media[0].language, None);
    assert_eq!(p.media[0].channels, None);
    assert_eq!(p.stream_inf.len(), 1);
    assert_eq!(p.stream_inf[0].bandwidth, 100);
    assert_eq!(p.stream_inf[0].audio.as_deref(), Some("a"));
    assert_eq!(p.stream_inf[0].uri, "foo.m3u8");
    assert_eq!(p.stream_inf[0].average_bandwidth, None);
    assert_eq!(p.stream_inf[0].closed_captions, None);
    assert!(p.stream_inf[0].frame_rate.is_none());
    assert_eq!(p.i_frame_stream_inf.len(), 0);
    assert!(p.validate().is_ok());
}

#[test]
fn playlist_with_unknown_audio_group_parses() {
    let text = "#EXTM3U\n#EXT-X-INDEPENDENT-SEGMENTS\n\n#EXT-X-MEDIA:TYPE=AUDIO,GROUP-ID=\"a\",NAME=\"N\",DEFAULT=YES,AUTOSELECT=YES,URI=\"x\"\n#EXT-X-STREAM-INF:BANDWIDTH=100,AUDIO=\"b\"\nfoo.m3u8\n";
    let p = parse_playlist(text).unwrap();
    assert_eq!(p.stream_inf[0].audio.as_deref(), Some("b"));
    assert!(p.validate().is_err());
}

#[test]
fn independent_segments_flag_is_off_unless_set() {
    let p = parse_playlist(&format!("#EXTM3U\n{MEDIA}")).unwrap();
    assert!(!p.independent_segments);
    let p = parse_playlist(&format!("#EXTM3U\n{MEDIA}\n#EXT-X-INDEPENDENT-SEGMENTS")).unwrap();
    assert!(p.independent_segments);
}

#[test]
fn media_only_playlist_parses() {
    let p = parse_playlist(&format!("#EXTM3U\n{MEDIA}\n\n{MEDIA}\n")).unwrap();
    assert_eq!(p.media.len(), 2);
    assert_eq!(p.stream_inf.len(), 0);
    assert_eq!(p.i_frame_stream_inf.len(), 0);
}

#[test]
fn i_frame_only_playlist_parses() {
    let p = parse_playlist(
        "#EXTM3U\n#EXT-X-I-FRAME-STREAM-INF:BANDWIDTH=5,URI=\"i.m3u8\",RESOLUTION=4x3,VIDEO-RANGE=HLG",
    )
    .unwrap();
    assert_eq!(p.i_frame_stream_inf.len(), 1);
    assert_eq!(p.i_frame_stream_inf[0].uri, "i.m3u8");
    assert_eq!(p.i_frame_stream_inf[0].bandwidth, 5);
    assert_eq!(p.i_frame_stream_inf[0].resolution, Some(Resolution { w: 4, h: 3 }));
    assert_eq!(p.i_frame_stream_inf[0].video_range, Some(VideoRange::HLG));
    assert_eq!(p.i_frame_stream_inf[0].codecs, None);
}

#[test]
fn empty_playlist_is_refused() {
    let empty = ParseError::Sequence(SequenceError::EmptyPlaylist);
    assert_eq!(error_of("#EXTM3U"), empty);
    assert_eq!(error_of("#EXTM3U\n"), empty);
    assert_eq!(error_of("#EXTM3U\n\n\n"), empty);
    assert_eq!(error_of("#EXTM3U\n#EXT-X-INDEPENDENT-SEGMENTS\n"), empty);
}

#[test]
fn header_must_be_the_first_line() {
    let missing = ParseError::Sequence(SequenceError::MissingHeader);
    assert_eq!(error_of(""), missing);
    assert_eq!(error_of(&format!("\n#EXTM3U\n{MEDIA}\n")), missing);
    assert_eq!(error_of(&format!("{MEDIA}\n")), missing);
    assert_eq!(error_of("foo.m3u8\n#EXTM3U\n"), missing);
    assert_eq!(error_of("#EXT-X-INDEPENDENT-SEGMENTS\n"), missing);
}

#[test]
fn unreadable_first_line_is_a_syntax_error() {
    assert_eq!(
        error_of(&format!("#EXTM3U \n{MEDIA}\n")),
        ParseError::Syntax { line: 0, error: SyntaxError::LineClassification }
    );
    assert_eq!(
        error_of("\u{feff}#EXTM3U\n"),
        ParseError::Syntax { line: 0, error: SyntaxError::LineClassification }
    );
}

#[test]
fn stream_tag_at_the_end_lacks_its_uri() {
    assert_eq!(
        error_of("#EXTM3U\n#EXT-X-STREAM-INF:BANDWIDTH=100"),
        ParseError::Sequence(SequenceError::MissingTrailingUri)
    );
    assert_eq!(
        error_of(&format!("#EXTM3U\n{MEDIA}\n#EXT-X-STREAM-INF:BANDWIDTH=100,AUDIO=\"a\"")),
        ParseError::Sequence(SequenceError::MissingTrailingUri)
    );
}

#[test]
fn stream_tag_must_be_followed_by_a_uri_at_once() {
    assert_eq!(
        error_of("#EXTM3U\n#EXT-X-STREAM-INF:BANDWIDTH=100\n"),
        ParseError::Sequence(SequenceError::ExpectedUri { line: 2 })
    );
    assert_eq!(
        error_of("#EXTM3U\n#EXT-X-STREAM-INF:BANDWIDTH=100\n\nfoo.m3u8\n"),
        ParseError::Sequence(SequenceError::ExpectedUri { line: 2 })
    );
    assert_eq!(
        error_of("#EXTM3U\n\n#EXT-X-STREAM-INF:BANDWIDTH=100\n#EXT-X-STREAM-INF:BANDWIDTH=200\nfoo.m3u8\n"),
        ParseError::Sequence(SequenceError::ExpectedUri { line: 3 })
    );
    assert_eq!(
        error_of("#EXTM3U\n#EXT-X-STREAM-INF:BANDWIDTH=100\n#EXTM3U\n"),
        ParseError::Sequence(SequenceError::ExpectedUri { line: 2 })
    );
}

#[test]
fn uri_goes_to_the_stream_before_it() {
    let p = parse_playlist(
        "#EXTM3U\n#EXT-X-STREAM-INF:BANDWIDTH=1\none.m3u8\n#EXT-X-STREAM-INF:BANDWIDTH=2\ntwo.m3u8\n#EXT-X-STREAM-INF:BANDWIDTH=3\nthree.m3u8",
    )
    .unwrap();
    let streams: Vec<(u64, &str)> =
        p.stream_inf.iter().map(|s| (s.bandwidth, s.uri.as_str())).collect();
    assert_eq!(streams, vec![(1, "one.m3u8"), (2, "two.m3u8"), (3, "three.m3u8")]);
}

#[test]
fn lines_out_of_place() {
    assert_eq!(
        error_of("#EXTM3U\nfoo.m3u8\n"),
        ParseError::Sequence(SequenceError::UnexpectedLine { line: 1 })
    );
    assert_eq!(
        error_of(&format!("#EXTM3U\n{MEDIA}\n#EXTM3U\n")),
        ParseError::Sequence(SequenceError::UnexpectedLine { line: 2 })
    );
    assert_eq!(
        error_of("#EXTM3U\n#EXT-X-STREAM-INF:BANDWIDTH=1\none.m3u8\ntwo.m3u8\n"),
        ParseError::Sequence(SequenceError::UnexpectedLine { line: 3 })
    );
}

#[test]
fn unknown_tags_are_out_of_place() {
    assert_eq!(
        error_of("#EXTM3U\n#EXT-X-SESSION-DATA:DATA-ID=\"id\",VALUE=\"v\"\n"),
        ParseError::Sequence(SequenceError::UnexpectedLine { line: 1 })
    );
    assert_eq!(
        error_of("#EXTM3U\n\n\n#EXT-X-START\n"),
        ParseError::Sequence(SequenceError::UnexpectedLine { line: 3 })
    );
    assert_eq!(
        error_of("#EXTM3U\n#EXT-X-MEDIA\n"),
        ParseError::Sequence(SequenceError::UnexpectedLine { line: 1 })
    );
    assert_eq!(
        error_of("#EXTM3U\n#EXT-X-INDEPENDENT-SEGMENTS:A=1\n"),
        ParseError::Sequence(SequenceError::UnexpectedLine { line: 1 })
    );
    assert_eq!(
        error_of("#EXTM3U\n#EXT-X-media:TYPE=AUDIO\n"),
        ParseError::Sequence(SequenceError::UnexpectedLine { line: 1 })
    );
}

#[test]
fn tag_with_a_bare_value_cannot_be_read() {
    assert_eq!(
        error_of("#EXTM3U\n#EXT-X-VERSION:7\n"),
        ParseError::Syntax { line: 1, error: SyntaxError::AttributeSyntax }
    );
}

#[test]
fn tag_whose_attribute_list_ends_on_a_comma_cannot_be_read() {
    assert_eq!(
        error_of("#EXTM3U\n#EXT-X-STREAM-INF:BANDWIDTH=100,\nfoo.m3u8\n"),
        ParseError::Syntax { line: 1, error: SyntaxError::AttributeSyntax }
    );
    assert_eq!(
        error_of(&format!("#EXTM3U\n\n{MEDIA},\n")),
        ParseError::Syntax { line: 2, error: SyntaxError::AttributeSyntax }
    );
}

#[test]
fn syntax_errors_name_their_line_and_kind() {
    assert_eq!(
        error_of("#EXTM3U\n\n#EXT-X-MEDIA:TYPE=\n"),
        ParseError::Syntax { line: 2, error: SyntaxError::Lex }
    );
    assert_eq!(
        error_of("#EXTM3U\n#EXT-X-MEDIA:TYPE\n"),
        ParseError::Syntax { line: 1, error: SyntaxError::AttributeSyntax }
    );
    assert_eq!(
        error_of(&format!("#EXTM3U\n{MEDIA}\n{MEDIA}\n# comment\n")),
        ParseError::Syntax { line: 3, error: SyntaxError::LineClassification }
    );
}

#[test]
fn syntax_error_comes_before_the_sequence_error_of_its_line() {
    assert_eq!(
        error_of("#EXTM3U\n#EXT-X-STREAM-INF:BANDWIDTH=1\nfoo bar\n"),
        ParseError::Syntax { line: 2, error: SyntaxError::LineClassification }
    );
    assert_eq!(
        error_of("not a header"),
        ParseError::Syntax { line: 0, error: SyntaxError::LineClassification }
    );
}

#[test]
fn first_failing_line_is_reported() {
    assert_eq!(
        error_of("#EXTM3U\nfoo.m3u8\n#EXT-X-MEDIA:TYPE=\n"),
        ParseError::Sequence(SequenceError::UnexpectedLine { line: 1 })
    );
    assert_eq!(
        error_of("#EXTM3U\n#EXT-X-MEDIA:TYPE=\nfoo.m3u8\n"),
        ParseError::Syntax { line: 1, error: SyntaxError::Lex }
    );
}

#[test]
fn records_that_cannot_be_interpreted() {
    assert_eq!(
        error_of("#EXTM3U\n#EXT-X-MEDIA:TYPE=AUDIO\n"),
        ParseError::RecordInterpretation { line: 1, record: RecordKind::Media }
    );
    assert_eq!(
        error_of("#EXTM3U\n\n#EXT-X-STREAM-INF:AUDIO=\"a\"\nfoo.m3u8\n"),
        ParseError::RecordInterpretation { line: 2, record: RecordKind::StreamInf }
    );
    assert_eq!(
        error_of(&format!("#EXTM3U\n{MEDIA}\n\n#EXT-X-I-FRAME-STREAM-INF:BANDWIDTH=1\n")),
        ParseError::RecordInterpretation { line: 3, record: RecordKind::IFrameStreamInf }
    );
}

#[test]
fn carriage_return_is_part_of_its_line() {
    assert_eq!(
        error_of(&format!("#EXTM3U\r\n{MEDIA}\r\n")),
        ParseError::Syntax { line: 0, error: SyntaxError::LineClassification }
    );
    assert_eq!(
        error_of(&format!("#EXTM3U\n{MEDIA}\n\r\n")),
        ParseError::Syntax { line: 2, error: SyntaxError::LineClassification }
    );
}

#[test]
fn order_of_appearance_is_kept() {
    let text = "#EXTM3U\n\
        #EXT-X-I-FRAME-STREAM-INF:BANDWIDTH=30,URI=\"i1\"\n\
        #EXT-X-STREAM-INF:BANDWIDTH=3\ns1\n\
        #EXT-X-MEDIA:TYPE=VIDEO,GROUP-ID=\"g1\",NAME=\"n1\",DEFAULT=NO,AUTOSELECT=NO,URI=\"m1\"\n\
        #EXT-X-STREAM-INF:BANDWIDTH=1\ns2\n\
        #EXT-X-I-FRAME-STREAM-INF:BANDWIDTH=10,URI=\"i2\"\n\
        #EXT-X-MEDIA:TYPE=SUBTITLES,GROUP-ID=\"g2\",NAME=\"n2\",DEFAULT=NO,AUTOSELECT=YES,URI=\"m2\"\n\
        #EXT-X-STREAM-INF:BANDWIDTH=2\ns3\n";
    let p = parse_playlist(text).unwrap();
    let media: Vec<&str> = p.media.iter().map(|m| m.uri.as_str()).collect();
    let streams: Vec<&str> = p.stream_inf.iter().map(|s| s.uri.as_str()).collect();
    let i_frames: Vec<&str> = p.i_frame_stream_inf.iter().map(|s| s.uri.as_str()).collect();
    assert_eq!(media, vec!["m1", "m2"]);
    assert_eq!(streams, vec!["s1", "s2", "s3"]);
    assert_eq!(i_frames, vec!["i1", "i2"]);
    assert_eq!(p.media[0].type_, MediaType::Video);
    assert_eq!(p.media[1].type_, MediaType::Subtitles);
    assert!(!p.media[1].default);
    assert!(p.media[1].autoselect);
}

#[test]
fn quoted_strings_may_hold_any_script() {
    let p = parse_playlist(
        "#EXTM3U\n#EXT-X-MEDIA:TYPE=AUDIO,GROUP-ID=\"\u{97f3}\u{58f0}\",NAME=\"Fran\u{e7}ais \u{1F3A7}\",LANGUAGE=\"fr\",DEFAULT=YES,AUTOSELECT=NO,URI=\"a/\u{e9}.m3u8\"\n",
    )
    .unwrap();
    assert_eq!(p.media[0].group_id, "\u{97f3}\u{58f0}");
    assert_eq!(p.media[0].name, "Fran\u{e7}ais \u{1F3A7}");
    assert_eq!(p.media[0].language.as_deref(), Some("fr"));
    assert_eq!(p.media[0].uri, "a/\u{e9}.m3u8");
}

#[test]
fn line_of_great_length_is_read_in_good_time() {
    let name = "n".repeat(1_000_000);
    let text = format!(
        "#EXTM3U\n#EXT-X-MEDIA:TYPE=AUDIO,GROUP-ID=\"g\",NAME=\"{name}\",DEFAULT=YES,AUTOSELECT=NO,URI=\"u\"\n"
    );
    let p = parse_playlist(&text).unwrap();
    assert_eq!(p.media[0].name.len(), 1_000_000);
}

#[test]
fn text_of_many_lines_is_read_in_good_time() {
    let mut text = String::from("#EXTM3U\n");
    for n in 0..20_000u64 {
        text.push_str(&format!("#EXT-X-STREAM-INF:BANDWIDTH={n},CODECS=\"avc1\"\nv{n}/vod.m3u8\n\n"));
    }
    let p = parse_playlist(&text).unwrap();
    assert_eq!(p.stream_inf.len(), 20_000);
    assert_eq!(p.stream_inf[19_999].bandwidth, 19_999);
    assert_eq!(p.stream_inf[19_999].uri, "v19999/vod.m3u8");
}
