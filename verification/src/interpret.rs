//! Record interpreters: from the attributes of a tag to the record that the tag
//! describes.
//!
//! A record has required and optional attributes. A required attribute that is
//! absent, or whose value is of the wrong lexical kind, makes the tag
//! uninterpretable. An optional attribute whose value is of the wrong lexical
//! kind is treated like one that is absent.

use crate::attributes::AttributeMap;
use crate::format::{
    IFrameStreamInf, IFrameStreamInfView, Media, MediaType, MediaView, Resolution, StreamInf,
    StreamInfView, VideoRange,
};
use crate::value::{AttributeValue, AttributeValueView, Decimal};
use crate::views::some_view;
use vstd::prelude::*;

verus! {

pub type Attributes = Map<Seq<char>, AttributeValueView>;

/// The media type that an enumerated value names.
pub open spec fn media_type_of(v: AttributeValueView) -> Option<MediaType> {
    match v {
        AttributeValueView::EnumeratedString(word) => if word == "AUDIO"@ {
            Some(MediaType::Audio)
        } else if word == "VIDEO"@ {
            Some(MediaType::Video)
        } else if word == "SUBTITLES"@ {
            Some(MediaType::Subtitles)
        } else if word == "CLOSED-CAPTIONS"@ {
            Some(MediaType::ClosedCaptions)
        } else {
            None
        },
        _ => None,
    }
}

/// The truth value that the enumerated value `YES` or `NO` names.
pub open spec fn bool_of(v: AttributeValueView) -> Option<bool> {
    match v {
        AttributeValueView::EnumeratedString(word) => if word == "YES"@ {
            Some(true)
        } else if word == "NO"@ {
            Some(false)
        } else {
            None
        },
        _ => None,
    }
}

/// The video range that an enumerated value names.
pub open spec fn video_range_of(v: AttributeValueView) -> Option<VideoRange> {
    match v {
        AttributeValueView::EnumeratedString(word) => if word == "SDR"@ {
            Some(VideoRange::SDR)
        } else if word == "HLG"@ {
            Some(VideoRange::HLG)
        } else if word == "PQ"@ {
            Some(VideoRange::PQ)
        } else {
            None
        },
        _ => None,
    }
}

/// The resolution that a resolution value holds.
pub open spec fn resolution_in(v: AttributeValueView) -> Option<Resolution> {
    match v {
        AttributeValueView::DecimalResolution(w, h) => Some(Resolution { w, h }),
        _ => None,
    }
}

/// The content of a quoted string.
pub open spec fn quoted_in(v: AttributeValueView) -> Option<Seq<char>> {
    match v {
        AttributeValueView::QuotedString(s) => Some(s),
        _ => None,
    }
}

/// The number that an integer value holds.
pub open spec fn integer_in(v: AttributeValueView) -> Option<u64> {
    match v {
        AttributeValueView::Integer(n) => Some(n),
        _ => None,
    }
}

/// The numeral of a decimal value.
pub open spec fn decimal_in(v: AttributeValueView) -> Option<Seq<char>> {
    match v {
        AttributeValueView::Float(t) => Some(t),
        _ => None,
    }
}

/// The value of the attribute `key`, if there is one.
pub open spec fn attribute(attrs: Attributes, key: Seq<char>) -> Option<AttributeValueView> {
    if attrs.contains_key(key) {
        Some(attrs[key])
    } else {
        None
    }
}

/// The content of the quoted string that the attribute `key` holds.
pub open spec fn quoted_at(attrs: Attributes, key: Seq<char>) -> Option<Seq<char>> {
    match attribute(attrs, key) {
        Some(v) => quoted_in(v),
        None => None,
    }
}

/// The integer that the attribute `key` holds.
pub open spec fn integer_at(attrs: Attributes, key: Seq<char>) -> Option<u64> {
    match attribute(attrs, key) {
        Some(v) => integer_in(v),
        None => None,
    }
}

/// The decimal numeral that the attribute `key` holds.
pub open spec fn decimal_at(attrs: Attributes, key: Seq<char>) -> Option<Seq<char>> {
    match attribute(attrs, key) {
        Some(v) => decimal_in(v),
        None => None,
    }
}

/// The resolution that the attribute `key` holds.
pub open spec fn resolution_at(attrs: Attributes, key: Seq<char>) -> Option<Resolution> {
    match attribute(attrs, key) {
        Some(v) => resolution_in(v),
        None => None,
    }
}

/// The truth value that the attribute `key` names.
pub open spec fn bool_at(attrs: Attributes, key: Seq<char>) -> Option<bool> {
    match attribute(attrs, key) {
        Some(v) => bool_of(v),
        None => None,
    }
}

/// The media type that the attribute `key` names.
pub open spec fn media_type_at(attrs: Attributes, key: Seq<char>) -> Option<MediaType> {
    match attribute(attrs, key) {
        Some(v) => media_type_of(v),
        None => None,
    }
}

/// The video range that the attribute `key` names.
pub open spec fn video_range_at(attrs: Attributes, key: Seq<char>) -> Option<VideoRange> {
    match attribute(attrs, key) {
        Some(v) => video_range_of(v),
        None => None,
    }
}

pub fn as_media_type(v: &AttributeValue) -> (r: Option<MediaType>)
    ensures
        r == media_type_of(v@),
{
    match v {
        AttributeValue::EnumeratedString(word) => {
            let word = word.as_str();
            if word.eq("AUDIO") {
                Some(MediaType::Audio)
            } else if word.eq("VIDEO") {
                Some(MediaType::Video)
            } else if word.eq("SUBTITLES") {
                Some(MediaType::Subtitles)
            } else if word.eq("CLOSED-CAPTIONS") {
                Some(MediaType::ClosedCaptions)
            } else {
                None
            }
        },
        _ => None,
    }
}

pub fn as_bool(v: &AttributeValue) -> (r: Option<bool>)
    ensures
        r == bool_of(v@),
{
    match v {
        AttributeValue::EnumeratedString(word) => {
            let word = word.as_str();
            if word.eq("YES") {
                Some(true)
            } else if word.eq("NO") {
                Some(false)
            } else {
                None
            }
        },
        _ => None,
    }
}

pub fn as_video_range(v: &AttributeValue) -> (r: Option<VideoRange>)
    ensures
        r == video_range_of(v@),
{
    match v {
        AttributeValue::EnumeratedString(word) => {
            let word = word.as_str();
            if word.eq("SDR") {
                Some(VideoRange::SDR)
            } else if word.eq("HLG") {
                Some(VideoRange::HLG)
            } else if word.eq("PQ") {
                Some(VideoRange::PQ)
            } else {
                None
            }
        },
        _ => None,
    }
}

pub fn as_resolution(v: &AttributeValue) -> (r: Option<Resolution>)
    ensures
        r == resolution_in(v@),
{
    match v {
        AttributeValue::DecimalResolution(w, h) => Some(Resolution { w: *w, h: *h }),
        _ => None,
    }
}

fn as_quoted(v: &AttributeValue) -> (r: Option<String>)
    ensures
        some_view(r) == quoted_in(v@),
{
    match v {
        AttributeValue::QuotedString(s) => Some(s.clone()),
        _ => None,
    }
}

fn as_integer(v: &AttributeValue) -> (r: Option<u64>)
    ensures
        r == integer_in(v@),
{
    match v {
        AttributeValue::Integer(n) => Some(*n),
        _ => None,
    }
}

fn as_decimal(v: &AttributeValue) -> (r: Option<Decimal>)
    ensures
        some_view(r) == decimal_in(v@),
{
    match v {
        AttributeValue::Float(d) => Some(d.clone()),
        _ => None,
    }
}

fn quoted(attr: &AttributeMap, key: &str) -> (r: Option<String>)
    ensures
        some_view(r) == quoted_at(attr@, key@),
{
    match attr.get(key) {
        Some(v) => as_quoted(v),
        None => None,
    }
}

fn integer(attr: &AttributeMap, key: &str) -> (r: Option<u64>)
    ensures
        r == integer_at(attr@, key@),
{
    match attr.get(key) {
        Some(v) => as_integer(v),
        None => None,
    }
}

fn truth(attr: &AttributeMap, key: &str) -> (r: Option<bool>)
    ensures
        r == bool_at(attr@, key@),
{
    match attr.get(key) {
        Some(v) => as_bool(v),
        None => None,
    }
}

fn decimal(attr: &AttributeMap, key: &str) -> (r: Option<Decimal>)
    ensures
        some_view(r) == decimal_at(attr@, key@),
{
    match attr.get(key) {
        Some(v) => as_decimal(v),
        None => None,
    }
}

fn media_type(attr: &AttributeMap, key: &str) -> (r: Option<MediaType>)
    ensures
        r == media_type_at(attr@, key@),
{
    match attr.get(key) {
        Some(v) => as_media_type(v),
        None => None,
    }
}

fn resolution(attr: &AttributeMap, key: &str) -> (r: Option<Resolution>)
    ensures
        r == resolution_at(attr@, key@),
{
    match attr.get(key) {
        Some(v) => as_resolution(v),
        None => None,
    }
}

fn video_range(attr: &AttributeMap, key: &str) -> (r: Option<VideoRange>)
    ensures
        r == video_range_at(attr@, key@),
{
    match attr.get(key) {
        Some(v) => as_video_range(v),
        None => None,
    }
}

/// The media entry that the attributes of an `EXT-X-MEDIA` tag describe.
/// `TYPE`, `URI`, `GROUP-ID`, `NAME`, `DEFAULT` and `AUTOSELECT` are required;
/// `LANGUAGE` and `CHANNELS` are optional.
pub open spec fn media_of(attrs: Attributes) -> Option<MediaView> {
    match (
        media_type_at(attrs, "TYPE"@),
        quoted_at(attrs, "URI"@),
        quoted_at(attrs, "GROUP-ID"@),
        quoted_at(attrs, "NAME"@),
        bool_at(attrs, "DEFAULT"@),
        bool_at(attrs, "AUTOSELECT"@),
    ) {
        (Some(type_), Some(uri), Some(group_id), Some(name), Some(default), Some(autoselect)) => {
            Some(
                MediaView {
                    type_,
                    uri,
                    group_id,
                    language: quoted_at(attrs, "LANGUAGE"@),
                    name,
                    default,
                    autoselect,
                    channels: quoted_at(attrs, "CHANNELS"@),
                },
            )
        },
        _ => None,
    }
}

/// Interprets the attributes of an `EXT-X-MEDIA` tag.
pub fn intepret_ext_x_media(attr: &AttributeMap) -> (r: Option<Media>)
    ensures
        some_view(r) == media_of(attr@),
{
    match (
        media_type(attr, "TYPE"),
        quoted(attr, "URI"),
        quoted(attr, "GROUP-ID"),
        quoted(attr, "NAME"),
        truth(attr, "DEFAULT"),
        truth(attr, "AUTOSELECT"),
    ) {
        (Some(type_), Some(uri), Some(group_id), Some(name), Some(default), Some(autoselect)) => {
            Some(
                Media {
                    type_,
                    uri,
                    group_id,
                    language: quoted(attr, "LANGUAGE"),
                    name,
                    default,
                    autoselect,
                    channels: quoted(attr, "CHANNELS"),
                },
            )
        },
        _ => None,
    }
}

/// The stream entry that the attributes of an `EXT-X-STREAM-INF` tag
/// describe, with an empty URI: the URI stands on the line after the tag.
/// `BANDWIDTH` is required, the other attributes are optional. Of
/// `CLOSED-CAPTIONS` only a quoted string is kept: the enumerated value `NONE`
/// says that there are none.
pub open spec fn stream_inf_of(attrs: Attributes) -> Option<StreamInfView> {
    match integer_at(attrs, "BANDWIDTH"@) {
        Some(bandwidth) => Some(
            StreamInfView {
                uri: Seq::empty(),
                bandwidth,
                average_bandwidth: integer_at(attrs, "AVERAGE-BANDWIDTH"@),
                codecs: quoted_at(attrs, "CODECS"@),
                resolution: resolution_at(attrs, "RESOLUTION"@),
                frame_rate: decimal_at(attrs, "FRAME-RATE"@),
                video_range: video_range_at(attrs, "VIDEO-RANGE"@),
                audio: quoted_at(attrs, "AUDIO"@),
                closed_captions: quoted_at(attrs, "CLOSED-CAPTIONS"@),
            },
        ),
        None => None,
    }
}

/// Interprets the attributes of an `EXT-X-STREAM-INF` tag.
pub fn interpret_ext_x_stream_inf(attr: &AttributeMap) -> (r: Option<StreamInf>)
    ensures
        some_view(r) == stream_inf_of(attr@),
{
    match integer(attr, "BANDWIDTH") {
        Some(bandwidth) => Some(
            StreamInf {
                uri: String::new(),
                bandwidth,
                average_bandwidth: integer(attr, "AVERAGE-BANDWIDTH"),
                codecs: quoted(attr, "CODECS"),
                resolution: resolution(attr, "RESOLUTION"),
                frame_rate: decimal(attr, "FRAME-RATE"),
                video_range: video_range(attr, "VIDEO-RANGE"),
                audio: quoted(attr, "AUDIO"),
                closed_captions: quoted(attr, "CLOSED-CAPTIONS"),
            },
        ),
        None => None,
    }
}

/// The entry that the attributes of an `EXT-X-I-FRAME-STREAM-INF` tag
/// describe. `URI` and `BANDWIDTH` are required, the other attributes are
/// optional.
pub open spec fn i_frame_stream_inf_of(attrs: Attributes) -> Option<IFrameStreamInfView> {
    match (quoted_at(attrs, "URI"@), integer_at(attrs, "BANDWIDTH"@)) {
        (Some(uri), Some(bandwidth)) => Some(
            IFrameStreamInfView {
                uri,
                bandwidth,
                codecs: quoted_at(attrs, "CODECS"@),
                resolution: resolution_at(attrs, "RESOLUTION"@),
                video_range: video_range_at(attrs, "VIDEO-RANGE"@),
            },
        ),
        _ => None,
    }
}

/// Interprets the attributes of an `EXT-X-I-FRAME-STREAM-INF` tag.
pub fn interpret_ext_x_i_frame_stream_inf(attr: &AttributeMap) -> (r: Option<IFrameStreamInf>)
    ensures
        some_view(r) == i_frame_stream_inf_of(attr@),
{
    match (quoted(attr, "URI"), integer(attr, "BANDWIDTH")) {
        (Some(uri), Some(bandwidth)) => Some(
            IFrameStreamInf {
                uri,
                bandwidth,
                codecs: quoted(attr, "CODECS"),
                resolution: resolution(attr, "RESOLUTION"),
                video_range: video_range(attr, "VIDEO-RANGE"),
            },
        ),
        _ => None,
    }
}

} // verus!
