//! Channel records and the media-kind classification inferred from a
//! channel's origin URL.

use vstd::prelude::*;
use vstd::string::*;
use crate::strutil::{contains_seq, has_suffix, lower_of, contains_sub, ends_with, to_lower};

verus! {

#[derive(Debug, Clone, Copy, PartialEq, Eq, Structural)]
pub enum StreamType {
    HLS,
    MP4,
    FLV,
    Other,
}

impl StreamType {
    /// The tag's name, as the playback descriptor prints it.
    pub fn as_str(&self) -> (r: &'static str)
        ensures
            *self == StreamType::HLS ==> r@ == "HLS"@,
            *self == StreamType::MP4 ==> r@ == "MP4"@,
            *self == StreamType::FLV ==> r@ == "FLV"@,
            *self == StreamType::Other ==> r@ == "Other"@,
    {
        match self {
            StreamType::HLS => "HLS",
            StreamType::MP4 => "MP4",
            StreamType::FLV => "FLV",
            StreamType::Other => "Other",
        }
    }
}

#[derive(Debug)]
pub struct Channel {
    pub id: String,
    pub tvg_id: String,
    pub name: String,
    pub logo: Option<String>,
    pub group: String,
    pub url: String,
    pub stream_type: StreamType,
}

/// The mathematical content of a channel record.
pub struct ChannelView {
    pub id: Seq<char>,
    pub tvg_id: Seq<char>,
    pub name: Seq<char>,
    pub logo: Option<Seq<char>>,
    pub group: Seq<char>,
    pub url: Seq<char>,
    pub stream_type: StreamType,
}

impl View for Channel {
    type V = ChannelView;

    open spec fn view(&self) -> ChannelView {
        ChannelView {
            id: self.id@,
            tvg_id: self.tvg_id@,
            name: self.name@,
            logo: match self.logo {
                Some(l) => Some(l@),
                None => None,
            },
            group: self.group@,
            url: self.url@,
            stream_type: self.stream_type,
        }
    }
}

impl Clone for Channel {
    fn clone(&self) -> (r: Self)
        ensures
            r == *self,
    {
        Channel {
            id: self.id.clone(),
            tvg_id: self.tvg_id.clone(),
            name: self.name.clone(),
            logo: match &self.logo {
                Some(l) => Some(l.clone()),
                None => None,
            },
            group: self.group.clone(),
            url: self.url.clone(),
            stream_type: self.stream_type,
        }
    }
}

/// Media kind inferred from a lowercased origin URL; the checks are
/// ordered and the first match wins.
pub open spec fn stream_type_of(lower: Seq<char>) -> StreamType {
    if contains_seq(lower, ".m3u8"@) || contains_seq(lower, "m3u8"@) {
        StreamType::HLS
    } else if has_suffix(lower, ".mp4"@) {
        StreamType::MP4
    } else if has_suffix(lower, ".flv"@) || contains_seq(lower, "flv"@) {
        StreamType::FLV
    } else {
        StreamType::Other
    }
}

/// The classification itself, on a URL that is already lowercased.
pub fn classify_lowered(lower: &str) -> (r: StreamType)
    ensures
        r == stream_type_of(lower@),
{
    proof {
        reveal_strlit(".m3u8");
        reveal_strlit("m3u8");
        reveal_strlit(".mp4");
        reveal_strlit(".flv");
        reveal_strlit("flv");
    }
    if contains_sub(lower, ".m3u8") || contains_sub(lower, "m3u8") {
        StreamType::HLS
    } else if ends_with(lower, ".mp4") {
        StreamType::MP4
    } else if ends_with(lower, ".flv") || contains_sub(lower, "flv") {
        StreamType::FLV
    } else {
        StreamType::Other
    }
}

impl Channel {
    pub fn detect_stream_type(url: &str) -> (r: StreamType)
        ensures
            r == stream_type_of(lower_of(url@)),
    {
        let low = to_lower(url);
        classify_lowered(low.as_str())
    }
}

} // verus!
