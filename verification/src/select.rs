//! Selections: playlists that keep only the entries that meet a condition.
//!
//! A selection never changes the playlist it is taken from. What it keeps
//! stays in the order in which it stood, and a selection that would keep
//! nothing of what it selects fails.

use crate::error::{SelectionError, SelectionErrorView};
use crate::format::{
    IFrameStreamInf, IFrameStreamInfView, Media, MediaType, MediaView, MultivariantPlaylist,
    PlaylistView, Resolution, StreamInf, StreamInfView,
};
use crate::retain::{lemma_filter_everything, retain};
use crate::validate::{
    group_ids, has_group, law_valid_iff_references_resolve, lemma_part_is_valid, stream_fault,
};
use crate::views::{result_view, views};
use vstd::prelude::*;

verus! {

/// Accepts the media entries that are not audio entries, and the audio
/// entries of the group `group`.
pub open spec fn in_audio_group(group: Seq<char>) -> spec_fn(MediaView) -> bool {
    |m: MediaView| m.type_ != MediaType::Audio || m.group_id == group
}

/// Accepts the streams that name no audio group, and those that name `group`.
pub open spec fn goes_with_audio_group(group: Seq<char>) -> spec_fn(StreamInfView) -> bool {
    |s: StreamInfView| s.audio is None || s.audio == Some(group)
}

/// Accepts the media entries that are not audio entries, and the audio
/// entries whose channels are `channels`.
pub open spec fn has_audio_channels(channels: Seq<char>) -> spec_fn(MediaView) -> bool {
    |m: MediaView| m.type_ != MediaType::Audio || m.channels == Some(channels)
}

/// Accepts the streams that name no audio group, and those whose audio group
/// is the group of an audio entry among `media`.
pub open spec fn goes_with_audio_of(media: Seq<MediaView>) -> spec_fn(StreamInfView) -> bool {
    |s: StreamInfView|
        s.audio is None || group_ids(media, MediaType::Audio).contains(s.audio.unwrap())
}

/// Accepts the streams that need no more bandwidth than `max`.
pub open spec fn within_bandwidth(max: u64) -> spec_fn(StreamInfView) -> bool {
    |s: StreamInfView| s.bandwidth <= max
}

/// Accepts the streams whose resolution is given and is `resolution`.
pub open spec fn has_resolution(resolution: Resolution) -> spec_fn(StreamInfView) -> bool {
    |s: StreamInfView| s.resolution == Some(resolution)
}

/// Accepts the I-frame streams whose resolution is given and is `resolution`.
pub open spec fn i_frame_has_resolution(resolution: Resolution) -> spec_fn(
    IFrameStreamInfView,
) -> bool {
    |s: IFrameStreamInfView| s.resolution == Some(resolution)
}

impl PlaylistView {
    /// The playlist with, of its audio entries, those of the group `group`,
    /// and with, of its streams, those that go with that group or with no
    /// group. It fails if no media entry is left, and else if no stream is
    /// left.
    pub open spec fn select_audio_group(self, group: Seq<char>) -> Result<
        PlaylistView,
        SelectionErrorView,
    > {
        let media = self.media.filter(in_audio_group(group));
        let streams = self.stream_inf.filter(goes_with_audio_group(group));
        if media.len() == 0 {
            Err(SelectionErrorView::AudioGroupNotFound(group))
        } else if streams.len() == 0 {
            Err(SelectionErrorView::AudioGroupWithoutStream(group))
        } else {
            Ok(PlaylistView { media, stream_inf: streams, ..self })
        }
    }

    /// The playlist with, of its audio entries, those whose channels are
    /// `channels`, and with, of its streams, those that go with the group of
    /// an audio entry that is left, or with no group. It fails if no media
    /// entry is left, and else if no stream is left.
    pub open spec fn select_audio_by_channels(self, channels: Seq<char>) -> Result<
        PlaylistView,
        SelectionErrorView,
    > {
        let media = self.media.filter(has_audio_channels(channels));
        let streams = self.stream_inf.filter(goes_with_audio_of(media));
        if media.len() == 0 {
            Err(SelectionErrorView::AudioChannelsNotFound(channels))
        } else if streams.len() == 0 {
            Err(SelectionErrorView::AudioChannelsWithoutStream(channels))
        } else {
            Ok(PlaylistView { media, stream_inf: streams, ..self })
        }
    }

    /// The playlist with the streams that need no more bandwidth than `max`.
    /// It fails if no stream is left.
    pub open spec fn select_max_bandwidth(self, max: u64) -> Result<
        PlaylistView,
        SelectionErrorView,
    > {
        let streams = self.stream_inf.filter(within_bandwidth(max));
        if streams.len() == 0 {
            Err(SelectionErrorView::NoStreamWithinBandwidth(max))
        } else {
            Ok(PlaylistView { stream_inf: streams, ..self })
        }
    }

    /// The playlist with the streams and the I-frame streams whose resolution
    /// is `resolution`. It fails if neither a stream nor an I-frame stream is
    /// left.
    pub open spec fn select_resolution(self, resolution: Resolution) -> Result<
        PlaylistView,
        SelectionErrorView,
    > {
        let streams = self.stream_inf.filter(has_resolution(resolution));
        let i_frames = self.i_frame_stream_inf.filter(i_frame_has_resolution(resolution));
        if streams.len() == 0 && i_frames.len() == 0 {
            Err(SelectionErrorView::NoStreamWithResolution(resolution))
        } else {
            Ok(PlaylistView { stream_inf: streams, i_frame_stream_inf: i_frames, ..self })
        }
    }
}

impl MultivariantPlaylist {
    /// Selects one group of audio entries, and the streams that go with it.
    /// Media entries that are not audio entries, streams that name no audio
    /// group, and all I-frame streams are kept.
    pub fn select_audio_group(&self, ag: &str) -> (r: Result<Self, SelectionError>)
        ensures
            result_view(r) == self@.select_audio_group(ag@),
    {
        let in_group = |m: &Media| -> (b: bool)
            ensures
                b == in_audio_group(ag@)(m@),
            { !is_audio(m) || m.group_id.as_str().eq(ag) };
        let media = retain(&self.media, in_group, Ghost(in_audio_group(ag@)));
        if media.len() == 0 {
            return Err(SelectionError::AudioGroupNotFound(ag.to_owned()));
        }
        let goes_with_group = |s: &StreamInf| -> (b: bool)
            ensures
                b == goes_with_audio_group(ag@)(s@),
            {
                match &s.audio {
                    Some(audio) => audio.as_str().eq(ag),
                    None => true,
                }
            };
        let streams = retain(&self.stream_inf, goes_with_group, Ghost(goes_with_audio_group(ag@)));
        if streams.len() == 0 {
            return Err(SelectionError::AudioGroupWithoutStream(ag.to_owned()));
        }
        Ok(
            MultivariantPlaylist {
                independent_segments: self.independent_segments,
                media,
                stream_inf: streams,
                i_frame_stream_inf: self.i_frame_stream_inf.clone(),
            },
        )
    }

    /// Selects the audio entries with the given channels, and the streams
    /// that go with the group of one of them. Media entries that are not
    /// audio entries, streams that name no audio group, and all I-frame
    /// streams are kept.
    pub fn select_audio_by_channels(&self, channels: &str) -> (r: Result<Self, SelectionError>)
        ensures
            result_view(r) == self@.select_audio_by_channels(channels@),
    {
        let has_channels = |m: &Media| -> (b: bool)
            ensures
                b == has_audio_channels(channels@)(m@),
            {
                !is_audio(m) || match &m.channels {
                    Some(c) => c.as_str().eq(channels),
                    None => false,
                }
            };
        let media = retain(&self.media, has_channels, Ghost(has_audio_channels(channels@)));
        if media.len() == 0 {
            return Err(SelectionError::AudioChannelsNotFound(channels.to_owned()));
        }
        let kept = &media;
        let goes_with_kept = |s: &StreamInf| -> (b: bool)
            ensures
                b == goes_with_audio_of(views(kept@))(s@),
            {
                match &s.audio {
                    Some(audio) => has_group(kept, MediaType::Audio, audio.as_str()),
                    None => true,
                }
            };
        let streams = retain(
            &self.stream_inf,
            goes_with_kept,
            Ghost(goes_with_audio_of(views(kept@))),
        );
        if streams.len() == 0 {
            return Err(SelectionError::AudioChannelsWithoutStream(channels.to_owned()));
        }
        Ok(
            MultivariantPlaylist {
                independent_segments: self.independent_segments,
                media,
                stream_inf: streams,
                i_frame_stream_inf: self.i_frame_stream_inf.clone(),
            },
        )
    }

    /// Selects the streams that need no more bandwidth than `bw`. The media
    /// entries and the I-frame streams are kept as they are.
    pub fn select_max_bandwidth(&self, bw: u64) -> (r: Result<Self, SelectionError>)
        ensures
            result_view(r) == self@.select_max_bandwidth(bw),
    {
        let within = |s: &StreamInf| -> (b: bool)
            ensures
                b == within_bandwidth(bw)(s@),
            { s.bandwidth <= bw };
        let streams = retain(&self.stream_inf, within, Ghost(within_bandwidth(bw)));
        if streams.len() == 0 {
            return Err(SelectionError::NoStreamWithinBandwidth(bw));
        }
        Ok(
            MultivariantPlaylist {
                independent_segments: self.independent_segments,
                media: self.media.clone(),
                stream_inf: streams,
                i_frame_stream_inf: self.i_frame_stream_inf.clone(),
            },
        )
    }

    /// Selects the streams and the I-frame streams of one resolution. An
    /// entry that gives no resolution is not selected. The media entries are
    /// kept as they are.
    pub fn select_resolution(&self, resolution: &Resolution) -> (r: Result<Self, SelectionError>)
        ensures
            result_view(r) == self@.select_resolution(*resolution),
    {
        let wanted = *resolution;
        let stream_has = |s: &StreamInf| -> (b: bool)
            ensures
                b == has_resolution(wanted)(s@),
            {
                match s.resolution {
                    Some(found) => found.w == wanted.w && found.h == wanted.h,
                    None => false,
                }
            };
        let streams = retain(&self.stream_inf, stream_has, Ghost(has_resolution(wanted)));
        let i_frame_has = |s: &IFrameStreamInf| -> (b: bool)
            ensures
                b == i_frame_has_resolution(wanted)(s@),
            {
                match s.resolution {
                    Some(found) => found.w == wanted.w && found.h == wanted.h,
                    None => false,
                }
            };
        let i_frames = retain(
            &self.i_frame_stream_inf,
            i_frame_has,
            Ghost(i_frame_has_resolution(wanted)),
        );
        if streams.len() == 0 && i_frames.len() == 0 {
            return Err(SelectionError::NoStreamWithResolution(wanted));
        }
        Ok(
            MultivariantPlaylist {
                independent_segments: self.independent_segments,
                media: self.media.clone(),
                stream_inf: streams,
                i_frame_stream_inf: i_frames,
            },
        )
    }
}

/// To select by a bandwidth that no stream exceeds changes nothing: the
/// playlist that comes out is the playlist that went in, with the same
/// streams in the same order. A playlist without streams is left out, for
/// no selection by bandwidth succeeds on it.
pub proof fn law_select_max_bandwidth_keeps_all(p: PlaylistView, max: u64)
    requires
        p.stream_inf.len() > 0,
        forall|i: int|
            0 <= i < p.stream_inf.len() ==> (#[trigger] p.stream_inf[i]).bandwidth <= max,
    ensures
        p.select_max_bandwidth(max) == Ok::<_, SelectionErrorView>(p),
{
    lemma_filter_everything(p.stream_inf, within_bandwidth(max));
}

/// A selection by bandwidth keeps streams within the bound only, so that to
/// select again with the same bound changes nothing.
pub proof fn law_select_max_bandwidth_idempotent(p: PlaylistView, max: u64)
    requires
        p.select_max_bandwidth(max) is Ok,
    ensures
        (p.select_max_bandwidth(max)->Ok_0).select_max_bandwidth(max) == p.select_max_bandwidth(
            max,
        ),
{
    let kept = p.stream_inf.filter(within_bandwidth(max));
    assert forall|k: int| 0 <= k < kept.len() implies within_bandwidth(max)(#[trigger] kept[k]) by {
        p.stream_inf.lemma_filter_pred(within_bandwidth(max), k);
    }
    lemma_filter_everything(kept, within_bandwidth(max));
}

/// What is kept of a sequence stood in it.
proof fn lemma_kept_stood<A>(items: Seq<A>, accepts: spec_fn(A) -> bool)
    ensures
        forall|j: int|
            0 <= j < items.filter(accepts).len() ==> items.contains(
                #[trigger] items.filter(accepts)[j],
            ) && accepts(items.filter(accepts)[j]),
{
    let kept = items.filter(accepts);
    assert forall|j: int| 0 <= j < kept.len() implies items.contains(#[trigger] kept[j])
        && accepts(kept[j]) by {
        assert(kept.contains(kept[j]));
        items.lemma_filter_contains_rev(accepts, kept[j]);
        items.lemma_filter_pred(accepts, j);
    }
}

/// A selection by audio group of a valid playlist is valid.
pub proof fn law_select_audio_group_keeps_valid(p: PlaylistView, group: Seq<char>)
    requires
        p.validate() is Ok,
        p.select_audio_group(group) is Ok,
    ensures
        (p.select_audio_group(group)->Ok_0).validate() is Ok,
{
    let part = p.select_audio_group(group)->Ok_0;
    lemma_kept_stood(p.stream_inf, goes_with_audio_group(group));
    assert forall|j: int, i: int|
        0 <= j < part.stream_inf.len() && 0 <= i < p.media.len() && ((
        #[trigger] part.stream_inf[j]).audio == Some((#[trigger] p.media[i]).group_id)
            && p.media[i].type_ == MediaType::Audio || part.stream_inf[j].closed_captions == Some(
            p.media[i].group_id,
        ) && p.media[i].type_ == MediaType::ClosedCaptions) implies part.media.contains(
        p.media[i],
    ) by {
        p.media.lemma_filter_contains(in_audio_group(group), i);
    }
    lemma_part_is_valid(p, part);
}

/// A selection by audio channels of a valid playlist is valid.
pub proof fn law_select_audio_by_channels_keeps_valid(p: PlaylistView, channels: Seq<char>)
    requires
        p.validate() is Ok,
        p.select_audio_by_channels(channels) is Ok,
    ensures
        (p.select_audio_by_channels(channels)->Ok_0).validate() is Ok,
{
    let part = p.select_audio_by_channels(channels)->Ok_0;
    lemma_kept_stood(p.stream_inf, goes_with_audio_of(part.media));
    assert forall|j: int, i: int|
        0 <= j < part.stream_inf.len() && 0 <= i < p.media.len() && (
        #[trigger] part.stream_inf[j]).closed_captions == Some((#[trigger] p.media[i]).group_id)
            && p.media[i].type_ == MediaType::ClosedCaptions implies part.media.contains(
        p.media[i],
    ) by {
        p.media.lemma_filter_contains(has_audio_channels(channels), i);
    }
    law_valid_iff_references_resolve(p);
    law_valid_iff_references_resolve(part);
    assert forall|j: int| 0 <= j < part.stream_inf.len() implies stream_fault(
        part.media,
        #[trigger] part.stream_inf[j],
    ) is None by {
        let stream = part.stream_inf[j];
        let k = choose|k: int| 0 <= k < p.stream_inf.len() && p.stream_inf[k] == stream;
        assert(stream_fault(p.media, p.stream_inf[k]) is None);
        assert(goes_with_audio_of(part.media)(stream));
        if stream.closed_captions is Some {
            let i = choose|i: int|
                0 <= i < p.media.len() && (#[trigger] p.media[i]).type_
                    == MediaType::ClosedCaptions && p.media[i].group_id
                    == stream.closed_captions.unwrap();
            assert(part.media.contains(p.media[i]));
            let n = choose|n: int| 0 <= n < part.media.len() && part.media[n] == p.media[i];
            assert(part.media[n].type_ == MediaType::ClosedCaptions && part.media[n].group_id
                == stream.closed_captions.unwrap());
        }
    }
}

/// A selection by bandwidth of a valid playlist is valid.
pub proof fn law_select_max_bandwidth_keeps_valid(p: PlaylistView, max: u64)
    requires
        p.validate() is Ok,
        p.select_max_bandwidth(max) is Ok,
    ensures
        (p.select_max_bandwidth(max)->Ok_0).validate() is Ok,
{
    let part = p.select_max_bandwidth(max)->Ok_0;
    lemma_kept_stood(p.stream_inf, within_bandwidth(max));
    assert forall|i: int| 0 <= i < p.media.len() implies part.media.contains(
        #[trigger] p.media[i],
    ) by {
        assert(part.media[i] == p.media[i]);
    }
    lemma_part_is_valid(p, part);
}

/// A selection by resolution of a valid playlist is valid.
pub proof fn law_select_resolution_keeps_valid(p: PlaylistView, resolution: Resolution)
    requires
        p.validate() is Ok,
        p.select_resolution(resolution) is Ok,
    ensures
        (p.select_resolution(resolution)->Ok_0).validate() is Ok,
{
    let part = p.select_resolution(resolution)->Ok_0;
    lemma_kept_stood(p.stream_inf, has_resolution(resolution));
    assert forall|i: int| 0 <= i < p.media.len() implies part.media.contains(
        #[trigger] p.media[i],
    ) by {
        assert(part.media[i] == p.media[i]);
    }
    lemma_part_is_valid(p, part);
}

fn is_audio(m: &Media) -> (b: bool)
    ensures
        b == (m.type_ == MediaType::Audio),
{
    m.type_ == MediaType::Audio
}

} // verus!
