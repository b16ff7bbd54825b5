//! Validation: every group of media entries that a stream refers to must be
//! there.

use crate::error::{ValidationError, ValidationErrorView};
use crate::format::{Media, MediaType, MediaView, MultivariantPlaylist, PlaylistView, StreamInfView};
use crate::parser::parse;
use crate::views::{result_view, views};
use vstd::prelude::*;

verus! {

/// The group identifiers of the media entries of type `type_`.
pub open spec fn group_ids(media: Seq<MediaView>, type_: MediaType) -> Set<Seq<char>> {
    Set::new(
        |group: Seq<char>|
            exists|i: int|
                0 <= i < media.len() && (#[trigger] media[i]).type_ == type_ && media[i].group_id
                    == group,
    )
}

/// Whether a reference to a group of media entries of type `type_` resolves:
/// a stream that names no group refers to nothing.
pub open spec fn resolves(
    media: Seq<MediaView>,
    type_: MediaType,
    reference: Option<Seq<char>>,
) -> bool {
    match reference {
        Some(group) => group_ids(media, type_).contains(group),
        None => true,
    }
}

/// What is wrong with the references of one stream, if anything: its audio
/// group is looked at first, its closed-captions group second.
pub open spec fn stream_fault(media: Seq<MediaView>, stream: StreamInfView) -> Option<
    ValidationErrorView,
> {
    if !resolves(media, MediaType::Audio, stream.audio) {
        Some(ValidationErrorView::UnknownAudioGroup(stream.audio.unwrap()))
    } else if !resolves(media, MediaType::ClosedCaptions, stream.closed_captions) {
        Some(ValidationErrorView::UnknownClosedCaptionsGroup(stream.closed_captions.unwrap()))
    } else {
        None
    }
}

/// The fault of the first of `streams` that has one.
pub open spec fn first_fault(media: Seq<MediaView>, streams: Seq<StreamInfView>) -> Option<
    ValidationErrorView,
>
    decreases streams.len(),
{
    if streams.len() == 0 {
        None
    } else {
        match first_fault(media, streams.drop_last()) {
            Some(fault) => Some(fault),
            None => stream_fault(media, streams.last()),
        }
    }
}

impl PlaylistView {
    /// Every stream that names an audio group names the group of an audio
    /// entry, and every stream that names a closed-captions group names the
    /// group of a closed-captions entry.
    pub open spec fn references_resolve(self) -> bool {
        forall|i: int|
            0 <= i < self.stream_inf.len() ==> stream_fault(
                self.media,
                #[trigger] self.stream_inf[i],
            ) is None
    }

    /// Whether the references of the playlist resolve, and if not, which is the
    /// first that does not.
    pub open spec fn validate(self) -> Result<(), ValidationErrorView> {
        match first_fault(self.media, self.stream_inf) {
            Some(fault) => Err(fault),
            None => Ok(()),
        }
    }
}

/// Streams are without fault as a whole exactly when each of them is.
pub proof fn lemma_first_fault_none(media: Seq<MediaView>, streams: Seq<StreamInfView>)
    ensures
        first_fault(media, streams) is None <==> forall|i: int|
            0 <= i < streams.len() ==> stream_fault(media, #[trigger] streams[i]) is None,
    decreases streams.len(),
{
    if streams.len() > 0 {
        let front = streams.drop_last();
        lemma_first_fault_none(media, front);
        if first_fault(media, streams) is None {
            assert forall|i: int| 0 <= i < streams.len() implies stream_fault(
                media,
                #[trigger] streams[i],
            ) is None by {
                if i < front.len() {
                    assert(front[i] == streams[i]);
                }
            }
        } else {
            if first_fault(media, front) is None {
                assert(stream_fault(media, streams[streams.len() - 1]) is Some);
            } else {
                let i = choose|i: int|
                    0 <= i < front.len() && !(stream_fault(media, #[trigger] front[i]) is None);
                assert(front[i] == streams[i]);
            }
        }
    }
}

/// A playlist is valid exactly when all references of its streams resolve.
pub proof fn law_valid_iff_references_resolve(p: PlaylistView)
    ensures
        p.validate() is Ok <==> p.references_resolve(),
{
    lemma_first_fault_none(p.media, p.stream_inf);
}

/// A text that is read as a playlist in which every reference resolves gives
/// a playlist that is valid.
pub proof fn law_parsed_playlist_validates(data: Seq<char>)
    requires
        parse(data) matches Ok(p) && p.references_resolve(),
    ensures
        parse(data) matches Ok(p) && p.validate() is Ok,
{
    law_valid_iff_references_resolve(parse(data)->Ok_0);
}

/// A part of a valid playlist is valid, if it is left with the media entries
/// of every group that one of its streams names.
pub proof fn lemma_part_is_valid(p: PlaylistView, part: PlaylistView)
    requires
        p.validate() is Ok,
        forall|j: int|
            0 <= j < part.stream_inf.len() ==> p.stream_inf.contains(#[trigger] part.stream_inf[j]),
        forall|j: int, i: int|
            0 <= j < part.stream_inf.len() && 0 <= i < p.media.len() && (
            #[trigger] part.stream_inf[j]).audio == Some((#[trigger] p.media[i]).group_id)
                && p.media[i].type_ == MediaType::Audio ==> part.media.contains(p.media[i]),
        forall|j: int, i: int|
            0 <= j < part.stream_inf.len() && 0 <= i < p.media.len() && (
            #[trigger] part.stream_inf[j]).closed_captions == Some(
                (#[trigger] p.media[i]).group_id,
            ) && p.media[i].type_ == MediaType::ClosedCaptions ==> part.media.contains(p.media[i]),
    ensures
        part.validate() is Ok,
{
    law_valid_iff_references_resolve(p);
    law_valid_iff_references_resolve(part);
    assert forall|j: int| 0 <= j < part.stream_inf.len() implies stream_fault(
        part.media,
        #[trigger] part.stream_inf[j],
    ) is None by {
        let stream = part.stream_inf[j];
        let k = choose|k: int| 0 <= k < p.stream_inf.len() && p.stream_inf[k] == stream;
        assert(stream_fault(p.media, p.stream_inf[k]) is None);
        if stream.audio is Some {
            let i = choose|i: int|
                0 <= i < p.media.len() && (#[trigger] p.media[i]).type_ == MediaType::Audio
                    && p.media[i].group_id == stream.audio.unwrap();
            assert(part.media.contains(p.media[i]));
            let n = choose|n: int| 0 <= n < part.media.len() && part.media[n] == p.media[i];
            assert(part.media[n].type_ == MediaType::Audio && part.media[n].group_id
                == stream.audio.unwrap());
        }
        if stream.closed_captions is Some {
            let i = choose|i: int|
                0 <= i < p.media.len() && (#[trigger] p.media[i]).type_
                    == MediaType::ClosedCaptions && p.media[i].group_id
                    == stream.closed_captions.unwrap();
            assert(part.media.contains(p.media[i]));
            let n = choose|n: int| 0 <= n < part.media.len() && part.media[n] == p.media[i];
            assert(part.media[n].type_ == MediaType::ClosedCaptions && part.media[n].group_id
                == stream.closed_captions.unwrap());
        }
    }
}

/// Whether `media` has an entry of type `type_` in the group `group`.
pub fn has_group(media: &Vec<Media>, type_: MediaType, group: &str) -> (r: bool)
    ensures
        r == group_ids(views(media@), type_).contains(group@),
{
    let mut i: usize = 0;
    while i < media.len()
        invariant
            i <= media@.len(),
            forall|k: int|
                0 <= k < i ==> !((#[trigger] media@[k]).type_ == type_ && media@[k].group_id@
                    == group@),
        decreases media@.len() - i,
    {
        if media[i].type_ == type_ && media[i].group_id.as_str().eq(group) {
            assert(views(media@)[i as int].type_ == type_ && views(media@)[i as int].group_id
                == group@);
            return true;
        }
        i += 1;
    }
    assert forall|k: int| 0 <= k < views(media@).len() implies !((#[trigger] views(
        media@,
    )[k]).type_ == type_ && views(media@)[k].group_id == group@) by {
        assert(views(media@)[k] == media@[k]@);
    }
    false
}

impl MultivariantPlaylist {
    /// Checks that every audio group and every closed-captions group that a
    /// stream refers to is the group of a media entry of that type. The error
    /// names the first reference that does not resolve, going through the
    /// streams in their order.
    pub fn validate(&self) -> (r: Result<(), ValidationError>)
        ensures
            result_view(r) == self@.validate(),
    {
        let mut i: usize = 0;
        while i < self.stream_inf.len()
            invariant
                i <= self.stream_inf@.len(),
                first_fault(self@.media, self@.stream_inf.take(i as int)) is None,
            decreases self.stream_inf@.len() - i,
        {
            let stream = &self.stream_inf[i];
            let ghost seen = self@.stream_inf.take(i + 1);
            let ghost rest = self@.stream_inf.skip(i + 1);
            proof {
                assert(seen.drop_last() =~= self@.stream_inf.take(i as int));
                assert(seen.last() == stream@);
                assert(self@.stream_inf =~= seen + rest);
            }
            if let Some(audio) = &stream.audio {
                if !has_group(&self.media, MediaType::Audio, audio.as_str()) {
                    proof {
                        lemma_first_fault_stays(self@.media, seen, rest);
                    }
                    return Err(ValidationError::UnknownAudioGroup(audio.clone()));
                }
            }
            if let Some(captions) = &stream.closed_captions {
                if !has_group(&self.media, MediaType::ClosedCaptions, captions.as_str()) {
                    proof {
                        lemma_first_fault_stays(self@.media, seen, rest);
                    }
                    return Err(ValidationError::UnknownClosedCaptionsGroup(captions.clone()));
                }
            }
            i += 1;
        }
        assert(self@.stream_inf.take(i as int) =~= self@.stream_inf);
        Ok(())
    }
}

/// The first fault among some streams is the first fault among these and any
/// that follow.
pub proof fn lemma_first_fault_stays(
    media: Seq<MediaView>,
    front: Seq<StreamInfView>,
    rest: Seq<StreamInfView>,
)
    requires
        first_fault(media, front) is Some,
    ensures
        first_fault(media, front + rest) == first_fault(media, front),
    decreases rest.len(),
{
    if rest.len() == 0 {
        assert(front + rest =~= front);
    } else {
        lemma_first_fault_stays(media, front, rest.drop_last());
        assert((front + rest).drop_last() =~= front + rest.drop_last());
    }
}

} // verus!
