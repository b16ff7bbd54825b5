use hls_multivariant::format::MultivariantPlaylist;
use hls_multivariant::parser::parse_playlist;

/// Ten video renditions, each offered with three audio groups, and one I-frame
/// stream for each video rendition. The streams are not in the order of their
/// bandwidth.
fn playlist() -> MultivariantPlaylist {
    let audio = [("aac-128k", "2", 128_000u64), ("ec3-384k", "6", 384_000), ("atmos", "16/JOC", 768_000)];
    let video = [
        (2_400_000u64, 960u64, 540u64),
        (900_000, 640, 360),
        (17_000_000, 3840, 2160),
        (1_500_000, 768, 432),
        (3_300_000, 1280, 720),
        (24_000_000, 3840, 2160),
        (4_800_000, 1280, 720),
        (6_900_000, 1920, 1080),
        (9_500_000, 1920, 1080),
        (12_000_000, 2560, 1440),
    ];
    let mut text = String::from("#EXTM3U\n#EXT-X-INDEPENDENT-SEGMENTS\n\n");
    for (group, channels, _) in audio {
        text.push_str(&format!(
            "#EXT-X-MEDIA:TYPE=AUDIO,GROUP-ID=\"{group}\",NAME=\"English\",LANGUAGE=\"en\",DEFAULT=YES,AUTOSELECT=YES,CHANNELS=\"{channels}\",URI=\"audio/{group}/vod.m3u8\"\n"
        ));
    }
    text.push('\n');
    for (group, _, audio_bandwidth) in audio {
        for (n, (video_bandwidth, w, h)) in video.iter().enumerate() {
            let bandwidth = video_bandwidth + audio_bandwidth;
            text.push_str(&format!(
                "#EXT-X-STREAM-INF:BANDWIDTH={bandwidth},AVERAGE-BANDWIDTH={},CODECS=\"mp4a.40.2,hvc1.2.4.L90.90\",RESOLUTION={w}x{h},FRAME-RATE=23.97,VIDEO-RANGE=PQ,AUDIO=\"{group}\",CLOSED-CAPTIONS=NONE\n",
                bandwidth / 2
            ));
            text.push_str(&format!("hdr10/v{n}/vod.m3u8\n"));
        }
    }
    text.push('\n');
    for (n, (video_bandwidth, w, h)) in video.iter().enumerate() {
        text.push_str(&format!(
            "#EXT-X-I-FRAME-STREAM-INF:BANDWIDTH={},CODECS=\"hvc1.2.4.L93.90\",RESOLUTION={w}x{h},VIDEO-RANGE=PQ,URI=\"hdr10/v{n}/vod-iframe.m3u8\"\n",
            video_bandwidth / 10
        ));
    }
    parse_playlist(&text).unwrap()
}

#[test]
fn test_select_audio_group() {
    let sel = playlist().select_audio_group("aac-128k").unwrap();
    assert_eq!(sel.media.len(), 1);
    assert_eq!(sel.stream_inf.len(), 10);
    assert_eq!(sel.i_frame_stream_inf.len(), playlist().i_frame_stream_inf.len());
}

#[test]
fn test_select_audio_group_not_found() {
    let sel = playlist().select_audio_group("unknown");
    assert!(sel.is_err());
}

fn is_sorted_rev<T>(data: &[T]) -> bool
where
    T: Ord,
{
    data.windows(2).all(|w| w[0] >= w[1])
}

#[test]
fn test_select_max_bandwidth() {
    let sel = playlist().select_audio_group("atmos").unwrap();
    let sel = sel.select_max_bandwidth(10000000).unwrap();
    assert_eq!(sel.stream_inf.len(), 6);
}

#[test]
fn test_sort_by_bandwidth() {
    let mut sel = playlist().select_audio_group("aac-128k").unwrap();
    sel.sort_by_bandwidth();
    let bw = sel.stream_inf.iter().map(|v| v.bandwidth).collect::<Vec<_>>();
    assert!(is_sorted_rev(&bw));
}
