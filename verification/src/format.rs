//! The multivariant playlist and the records it is made of.

use crate::value::Decimal;
use crate::views::{some_view, views};
use vstd::prelude::*;

verus! {

/// What kind of rendition a media entry describes.
#[derive(Clone, Copy, Debug, PartialEq, Eq, Hash, Structural)]
pub enum MediaType {
    Audio,
    Video,
    Subtitles,
    ClosedCaptions,
}

/// One `EXT-X-MEDIA` entry.
#[derive(Debug)]
pub struct Media {
    pub type_: MediaType,
    pub uri: String,
    pub group_id: String,
    pub language: Option<String>,
    pub name: String,
    pub default: bool,
    pub autoselect: bool,
    pub channels: Option<String>,
}

/// The mathematical value of a [`Media`].
pub struct MediaView {
    pub type_: MediaType,
    pub uri: Seq<char>,
    pub group_id: Seq<char>,
    pub language: Option<Seq<char>>,
    pub name: Seq<char>,
    pub default: bool,
    pub autoselect: bool,
    pub channels: Option<Seq<char>>,
}

impl View for Media {
    type V = MediaView;

    open spec fn view(&self) -> MediaView {
        MediaView {
            type_: self.type_,
            uri: self.uri@,
            group_id: self.group_id@,
            language: some_view(self.language),
            name: self.name@,
            default: self.default,
            autoselect: self.autoselect,
            channels: some_view(self.channels),
        }
    }
}

impl Clone for Media {
    fn clone(&self) -> (r: Self)
        ensures
            r == *self,
    {
        Media {
            type_: self.type_,
            uri: self.uri.clone(),
            group_id: self.group_id.clone(),
            language: self.language.clone(),
            name: self.name.clone(),
            default: self.default,
            autoselect: self.autoselect,
            channels: self.channels.clone(),
        }
    }
}

/// A width and a height in pixels.
#[derive(Clone, Copy, Debug, PartialEq, Eq, Structural)]
pub struct Resolution {
    pub w: u64,
    pub h: u64,
}

/// The dynamic range of a video stream.
#[derive(Clone, Copy, Debug, PartialEq, Eq, Structural)]
pub enum VideoRange {
    SDR,
    HLG,
    PQ,
}

/// One `EXT-X-STREAM-INF` entry, together with the URI of the line after it.
#[derive(Debug)]
pub struct StreamInf {
    pub uri: String,
    pub bandwidth: u64,
    pub average_bandwidth: Option<u64>,
    pub codecs: Option<String>,
    pub resolution: Option<Resolution>,
    pub frame_rate: Option<Decimal>,
    pub video_range: Option<VideoRange>,
    /// The group of audio media entries that goes with this stream.
    pub audio: Option<String>,
    /// The group of closed-captions media entries that goes with this stream.
    pub closed_captions: Option<String>,
}

/// The mathematical value of a [`StreamInf`].
pub struct StreamInfView {
    pub uri: Seq<char>,
    pub bandwidth: u64,
    pub average_bandwidth: Option<u64>,
    pub codecs: Option<Seq<char>>,
    pub resolution: Option<Resolution>,
    pub frame_rate: Option<Seq<char>>,
    pub video_range: Option<VideoRange>,
    pub audio: Option<Seq<char>>,
    pub closed_captions: Option<Seq<char>>,
}

impl View for StreamInf {
    type V = StreamInfView;

    open spec fn view(&self) -> StreamInfView {
        StreamInfView {
            uri: self.uri@,
            bandwidth: self.bandwidth,
            average_bandwidth: self.average_bandwidth,
            codecs: some_view(self.codecs),
            resolution: self.resolution,
            frame_rate: some_view(self.frame_rate),
            video_range: self.video_range,
            audio: some_view(self.audio),
            closed_captions: some_view(self.closed_captions),
        }
    }
}

impl Clone for StreamInf {
    fn clone(&self) -> (r: Self)
        ensures
            r == *self,
    {
        StreamInf {
            uri: self.uri.clone(),
            bandwidth: self.bandwidth,
            average_bandwidth: self.average_bandwidth,
            codecs: self.codecs.clone(),
            resolution: self.resolution,
            frame_rate: self.frame_rate.clone(),
            video_range: self.video_range,
            audio: self.audio.clone(),
            closed_captions: self.closed_captions.clone(),
        }
    }
}

/// One `EXT-X-I-FRAME-STREAM-INF` entry.
#[derive(Debug)]
pub struct IFrameStreamInf {
    pub uri: String,
    pub bandwidth: u64,
    pub codecs: Option<String>,
    pub resolution: Option<Resolution>,
    pub video_range: Option<VideoRange>,
}

/// The mathematical value of an [`IFrameStreamInf`].
pub struct IFrameStreamInfView {
    pub uri: Seq<char>,
    pub bandwidth: u64,
    pub codecs: Option<Seq<char>>,
    pub resolution: Option<Resolution>,
    pub video_range: Option<VideoRange>,
}

impl View for IFrameStreamInf {
    type V = IFrameStreamInfView;

    open spec fn view(&self) -> IFrameStreamInfView {
        IFrameStreamInfView {
            uri: self.uri@,
            bandwidth: self.bandwidth,
            codecs: some_view(self.codecs),
            resolution: self.resolution,
            video_range: self.video_range,
        }
    }
}

impl Clone for IFrameStreamInf {
    fn clone(&self) -> (r: Self)
        ensures
            r == *self,
    {
        IFrameStreamInf {
            uri: self.uri.clone(),
            bandwidth: self.bandwidth,
            codecs: self.codecs.clone(),
            resolution: self.resolution,
            video_range: self.video_range,
        }
    }
}

/// A multivariant playlist: the renditions of one piece of media, each kind
/// in the order in which the playlist lists it.
#[derive(Debug)]
pub struct MultivariantPlaylist {
    pub independent_segments: bool,
    pub media: Vec<Media>,
    pub stream_inf: Vec<StreamInf>,
    pub i_frame_stream_inf: Vec<IFrameStreamInf>,
}

/// The mathematical value of a [`MultivariantPlaylist`].
pub struct PlaylistView {
    pub independent_segments: bool,
    pub media: Seq<MediaView>,
    pub stream_inf: Seq<StreamInfView>,
    pub i_frame_stream_inf: Seq<IFrameStreamInfView>,
}

impl View for MultivariantPlaylist {
    type V = PlaylistView;

    open spec fn view(&self) -> PlaylistView {
        PlaylistView {
            independent_segments: self.independent_segments,
            media: views(self.media@),
            stream_inf: views(self.stream_inf@),
            i_frame_stream_inf: views(self.i_frame_stream_inf@),
        }
    }
}

impl Clone for MultivariantPlaylist {
    fn clone(&self) -> (r: Self)
        ensures
            r@ == self@,
    {
        MultivariantPlaylist {
            independent_segments: self.independent_segments,
            media: self.media.clone(),
            stream_inf: self.stream_inf.clone(),
            i_frame_stream_inf: self.i_frame_stream_inf.clone(),
        }
    }
}

impl MultivariantPlaylist {
    /// The playlist without any entry.
    pub fn new() -> (r: Self)
        ensures
            r@ == PlaylistView::empty(),
            r.media@.len() == 0,
            r.stream_inf@.len() == 0,
            r.i_frame_stream_inf@.len() == 0,
    {
        let r = MultivariantPlaylist {
            independent_segments: false,
            media: Vec::new(),
            stream_inf: Vec::new(),
            i_frame_stream_inf: Vec::new(),
        };
        assert(r@.media =~= Seq::empty());
        assert(r@.stream_inf =~= Seq::empty());
        assert(r@.i_frame_stream_inf =~= Seq::empty());
        r
    }
}

impl PlaylistView {
    /// The playlist without any entry.
    pub open spec fn empty() -> PlaylistView {
        PlaylistView {
            independent_segments: false,
            media: Seq::empty(),
            stream_inf: Seq::empty(),
            i_frame_stream_inf: Seq::empty(),
        }
    }
}

} // verus!
