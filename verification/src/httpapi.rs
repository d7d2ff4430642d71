//! The values exchanged with the HTTP boundary: query and response
//! shapes, the channel-listing dispatch, the playback URL, the manifest
//! signature check, and response-header filtering.

use vstd::prelude::*;
use vstd::string::*;
use crate::channel::{Channel, StreamType};
use crate::manager::{group_listed, in_group, lex_lt, listed_in, search_pred, ChannelManager};
use crate::rewriter::{encode_component, encoded_of};
use crate::strutil::{has_prefix, has_sub_at, lemma_filter_push, skip_spaces_from, trim_start_spec};
use crate::strutil::{is_space, starts_with_at, str_eq};

verus! {

pub struct ChannelQuery {
    pub group: Option<String>,
    pub search: Option<String>,
}

pub struct ChannelsResponse {
    pub total: usize,
    pub channels: Vec<Channel>,
}

pub struct GroupsResponse {
    pub groups: Vec<String>,
}

pub struct ProxyQuery {
    pub url: String,
}

pub struct SegmentQuery {
    pub url: String,
}

/// The channel listing: filtered by group when one is given, otherwise
/// searched when a query is given, otherwise the whole directory.
pub fn query_channels(mgr: &ChannelManager, q: &ChannelQuery) -> (r: ChannelsResponse)
    ensures
        (q.group matches Some(g) ==> r.channels@ == mgr.channels@.filter(in_group(g@))),
        q.group is None ==> (q.search matches Some(s) ==> r.channels@ == mgr.channels@.filter(
            search_pred(s@),
        )),
        q.group is None && q.search is None ==> r.channels@ == mgr.channels@,
        r.total == r.channels@.len(),
{
    let channels = match &q.group {
        Some(g) => mgr.get_channels_by_group(g.as_str()),
        None => match &q.search {
            Some(s) => mgr.search_channels(s.as_str()),
            None => mgr.get_all_channels(),
        },
    };
    let total = channels.len();
    ChannelsResponse { total, channels }
}

/// The sorted, de-duplicated group listing.
pub fn query_groups(mgr: &ChannelManager) -> (r: GroupsResponse)
    ensures
        forall|i1: int, i2: int|
            0 <= i1 < i2 < r.groups@.len() ==> lex_lt(
                #[trigger] r.groups@[i1]@,
                #[trigger] r.groups@[i2]@,
            ),
        forall|i: int|
            0 <= i < r.groups@.len() ==> group_listed(mgr.channels@, #[trigger] r.groups@[i]@),
        forall|k: int|
            0 <= k < mgr.channels@.len() ==> listed_in(
                r.groups@,
                #[trigger] mgr.channels@[k].group@,
            ),
{
    GroupsResponse { groups: mgr.get_all_groups() }
}

/// The playback URL of a channel: an HLS origin goes through the playlist
/// proxy endpoint, any other kind plays from its origin URL unchanged.
pub fn play_url_for(channel: &Channel) -> (r: String)
    ensures
        channel.stream_type == StreamType::HLS ==> r@ == "/api/proxy/playlist?url="@ + encoded_of(
            channel.url@,
        ),
        channel.stream_type != StreamType::HLS ==> r@ == channel.url@,
{
    match channel.stream_type {
        StreamType::HLS => {
            let mut s = String::from_str("/api/proxy/playlist?url=");
            let enc = encode_component(channel.url.as_str());
            s.append(enc.as_str());
            s
        },
        _ => channel.url.clone(),
    }
}

/// Whether a fetched body opens with the manifest signature `#EXTM3U`,
/// after leading whitespace.
pub fn is_valid_m3u8(content: &str) -> (r: bool)
    ensures
        r == has_prefix(trim_start_spec(content@), "#EXTM3U"@),
{
    let n = content.unicode_len();
    let mut a: usize = 0;
    while a < n && is_space(content.get_char(a))
        invariant
            a <= n,
            n == content@.len(),
            skip_spaces_from(content@, 0) == skip_spaces_from(content@, a as int),
        decreases n - a,
    {
        a += 1;
    }
    proof {
        assert(skip_spaces_from(content@, a as int) == a as int);
    }
    let r = starts_with_at(content, "#EXTM3U", a);
    proof {
        let t = trim_start_spec(content@);
        let p = "#EXTM3U"@;
        if a + p.len() <= n {
            assert(t.subrange(0, p.len() as int) =~= content@.subrange(a as int, a + p.len()));
        }
    }
    r
}

/// The hop-by-hop response headers that are not relayed.
pub open spec fn is_hop_header(n: Seq<char>) -> bool {
    n == "transfer-encoding"@ || n == "connection"@ || n == "keep-alive"@
}

pub open spec fn header_view(h: (String, Vec<u8>)) -> (Seq<char>, Seq<u8>) {
    (h.0@, h.1@)
}

pub open spec fn headers_view(hs: Seq<(String, Vec<u8>)>) -> Seq<(Seq<char>, Seq<u8>)> {
    hs.map_values(|h: (String, Vec<u8>)| header_view(h))
}

pub open spec fn keep_header() -> spec_fn((Seq<char>, Seq<u8>)) -> bool {
    |h: (Seq<char>, Seq<u8>)| !is_hop_header(h.0)
}

fn clone_bytes(v: &Vec<u8>) -> (r: Vec<u8>)
    ensures
        r@ == v@,
{
    let mut r: Vec<u8> = Vec::new();
    let mut i: usize = 0;
    while i < v.len()
        invariant
            i <= v@.len(),
            r@ == v@.take(i as int),
        decreases v@.len() - i,
    {
        r.push(v[i]);
        proof {
            assert(v@.take(i + 1) =~= v@.take(i as int).push(v@[i as int]));
        }
        i += 1;
    }
    proof {
        assert(v@.take(i as int) =~= v@);
    }
    r
}

/// Drops the hop-by-hop response headers, keeping the rest in order.
pub fn filter_hop_headers(headers: &Vec<(String, Vec<u8>)>) -> (r: Vec<(String, Vec<u8>)>)
    ensures
        headers_view(r@) == headers_view(headers@).filter(keep_header()),
{
    let mut r: Vec<(String, Vec<u8>)> = Vec::new();
    let mut i: usize = 0;
    while i < headers.len()
        invariant
            i <= headers@.len(),
            headers_view(r@) == headers_view(headers@.take(i as int)).filter(keep_header()),
        decreases headers@.len() - i,
    {
        let ghost pre = headers@.take(i as int);
        proof {
            assert(headers_view(headers@.take(i + 1)) =~= headers_view(pre).push(header_view(
                headers@[i as int],
            )));
            lemma_filter_push(headers_view(pre), keep_header(), header_view(headers@[i as int]));
        }
        let name = &headers[i].0;
        let hop = str_eq(name.as_str(), "transfer-encoding") || str_eq(name.as_str(), "connection")
            || str_eq(name.as_str(), "keep-alive");
        if !hop {
            let name_c = headers[i].0.clone();
            let value_c = clone_bytes(&headers[i].1);
            r.push((name_c, value_c));
            proof {
                assert(headers_view(r@) =~= headers_view(pre).filter(keep_header()).push(
                    header_view(headers@[i as int]),
                ));
            }
        }
        i += 1;
    }
    proof {
        assert(headers@.take(i as int) =~= headers@);
    }
    r
}

/// The permissive cross-origin headers a buffered response carries.
pub open spec fn cors_full() -> Seq<(Seq<char>, Seq<u8>)> {
    seq![
        ("access-control-allow-origin"@, "*".spec_bytes()),
        ("access-control-allow-methods"@, "GET, POST, OPTIONS".spec_bytes()),
        ("access-control-allow-headers"@, "*".spec_bytes()),
    ]
}

/// The permissive cross-origin header a streamed response carries.
pub open spec fn cors_stream() -> Seq<(Seq<char>, Seq<u8>)> {
    seq![("access-control-allow-origin"@, "*".spec_bytes())]
}

/// The response headers of a buffered fetch: the upstream headers with
/// the hop-by-hop ones dropped, then the permissive cross-origin headers.
pub fn buffered_response_headers(upstream: &Vec<(String, Vec<u8>)>) -> (r: Vec<(String, Vec<u8>)>)
    ensures
        headers_view(r@) == headers_view(upstream@).filter(keep_header()) + cors_full(),
{
    let mut r = filter_hop_headers(upstream);
    let ghost base = headers_view(r@);
    r.push((String::from_str("access-control-allow-origin"), "*".as_bytes_vec()));
    r.push((String::from_str("access-control-allow-methods"), "GET, POST, OPTIONS".as_bytes_vec()));
    r.push((String::from_str("access-control-allow-headers"), "*".as_bytes_vec()));
    proof {
        assert(headers_view(r@) =~= base + cors_full());
    }
    r
}

/// The response headers of a streaming fetch: the upstream headers with
/// the hop-by-hop ones dropped, then the cross-origin header.
pub fn streaming_response_headers(upstream: &Vec<(String, Vec<u8>)>) -> (r: Vec<(String, Vec<u8>)>)
    ensures
        headers_view(r@) == headers_view(upstream@).filter(keep_header()) + cors_stream(),
{
    let mut r = filter_hop_headers(upstream);
    let ghost base = headers_view(r@);
    r.push((String::from_str("access-control-allow-origin"), "*".as_bytes_vec()));
    proof {
        assert(headers_view(r@) =~= base + cors_stream());
    }
    r
}

} // verus!
