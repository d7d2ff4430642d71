use m3u_proxy::channel::{Channel, StreamType};
use m3u_proxy::config::Config;
use m3u_proxy::error::AppError;
use m3u_proxy::httpapi::{
    buffered_response_headers, filter_hop_headers, is_valid_m3u8, play_url_for, query_channels,
    query_groups, streaming_response_headers, ChannelQuery,
};
use m3u_proxy::manager::ChannelManager;
use m3u_proxy::parser::M3uParser;
use m3u_proxy::rewriter::M3u8Rewriter;
use m3u_proxy::strutil::usize_to_string;

fn channel(id: &str, name: &str, group: &str, url: &str) -> Channel {
    Channel {
        id: id.to_string(),
        tvg_id: id.to_string(),
        name: name.to_string(),
        logo: None,
        group: group.to_string(),
        url: url.to_string(),
        stream_type: Channel::detect_stream_type(url),
    }
}

#[test]
fn comment_only_manifest_passes_through() {
    let rewriter = M3u8Rewriter::new("http://localhost:8006".to_string());
    let content = "#EXTM3U\n#EXT-X-VERSION:3\n\n# a plain comment";
    let result = rewriter
        .rewrite_m3u8(content, "http://example.com/playlist.m3u8")
        .unwrap();
    assert_eq!(result, "#EXTM3U\n#EXT-X-VERSION:3\n\n# a plain comment\n");
}

#[test]
fn crlf_lines_are_normalized() {
    let rewriter = M3u8Rewriter::new("http://localhost:8006".to_string());
    let result = rewriter
        .rewrite_m3u8("#EXTM3U\r\n#EXT-X-ENDLIST", "http://example.com/p.m3u8")
        .unwrap();
    assert_eq!(result, "#EXTM3U\n#EXT-X-ENDLIST\n");
}

#[test]
fn rewrite_rejects_relative_base() {
    let rewriter = M3u8Rewriter::new("http://localhost:8006".to_string());
    let err = rewriter.rewrite_m3u8("#EXTM3U\nseg.ts", "not a url").unwrap_err();
    assert!(matches!(err, AppError::InvalidM3U(_)));
    assert_eq!(err.status_code(), 400);
}

#[test]
fn playlist_references_use_playlist_endpoint() {
    let rewriter = M3u8Rewriter::new("http://localhost:8006".to_string());
    let p = rewriter.create_proxy_url("http://a.com/low/index.m3u8");
    assert_eq!(p, "/api/proxy/playlist?url=http%3A%2F%2Fa.com%2Flow%2Findex.m3u8");
    let q = rewriter.create_proxy_url("http://a.com/low/index.m3u8?token=1");
    assert!(q.starts_with("/api/proxy/playlist?url="));
    let s = rewriter.create_proxy_url("http://a.com/seg/00001.ts");
    assert!(s.starts_with("/api/proxy/segment?url="));
}

#[test]
fn key_directive_uri_is_rewritten_in_place() {
    let rewriter = M3u8Rewriter::new("http://localhost:8006".to_string());
    let content = "#EXT-X-KEY:METHOD=AES-128,URI=\"key.bin\",IV=0x1234";
    let out = rewriter
        .rewrite_m3u8(content, "http://a.com/x/live.m3u8")
        .unwrap();
    assert_eq!(
        out,
        "#EXT-X-KEY:METHOD=AES-128,URI=\"/api/proxy/segment?url=http%3A%2F%2Fa.com%2Fx%2Fkey.bin\",IV=0x1234\n"
    );
}

#[test]
fn malformed_key_directive_passes_through() {
    let rewriter = M3u8Rewriter::new("http://localhost:8006".to_string());
    let content = "#EXT-X-KEY:METHOD=AES-128,URI=\"key.bin";
    let out = rewriter
        .rewrite_m3u8(content, "http://a.com/x/live.m3u8")
        .unwrap();
    assert_eq!(out, "#EXT-X-KEY:METHOD=AES-128,URI=\"key.bin\n");
}

#[test]
fn parse_without_pairs_is_invalid_format() {
    let err = M3uParser::parse_content("#EXTM3U\n# only comments\n\n").unwrap_err();
    assert!(matches!(err, AppError::InvalidM3U(_)));
    let err2 = M3uParser::parse_content("").unwrap_err();
    assert!(matches!(err2, AppError::InvalidM3U(_)));
}

#[test]
fn parse_assigns_sequential_ids() {
    let mut content = String::from("#EXTM3U\n");
    for k in 0..12 {
        content.push_str(&format!("#EXTINF:-1 tvg-id=\"x{}\",Name {}\nhttp://h.org/{}.ts\n", k, k, k));
    }
    let channels = M3uParser::parse_content(&content).unwrap();
    assert_eq!(channels.len(), 12);
    for (k, c) in channels.iter().enumerate() {
        assert_eq!(c.id, format!("channel_{}", k));
    }
    assert_eq!(channels[11].id, "channel_11");
}

#[test]
fn parse_metadata_without_url_is_skipped() {
    let content = "#EXTINF:-1 tvg-id=\"a\",First\n\n#EXTINF:-1 tvg-id=\"b\",Second\nhttp://h.org/b.ts\n";
    let channels = M3uParser::parse_content(content).unwrap();
    assert_eq!(channels.len(), 1);
    assert_eq!(channels[0].tvg_id, "b");
    assert_eq!(channels[0].id, "channel_0");
}

#[test]
fn parse_defaults_and_logo() {
    let content = "#EXTINF:-1 tvg-logo=\"\" group-title=\"News\",With Empty Logo\nhttp://h.org/a.ts\n#EXTINF:-1 tvg-logo=\"http://h.org/l.png\",\nhttp://h.org/b.ts\n#EXTINF:-1\nhttp://h.org/c.ts\n";
    let channels = M3uParser::parse_content(content).unwrap();
    assert_eq!(channels.len(), 3);
    assert_eq!(channels[0].logo, None);
    assert_eq!(channels[0].group, "News");
    assert_eq!(channels[0].name, "With Empty Logo");
    assert_eq!(channels[1].logo, Some("http://h.org/l.png".to_string()));
    assert_eq!(channels[1].group, "uncategorized");
    assert_eq!(channels[1].name, "");
    assert_eq!(channels[2].name, "unnamed channel");
    assert_eq!(channels[2].tvg_id, "");
}

#[test]
fn loaded_ids_found_until_disjoint_reload() {
    let mut manager = ChannelManager::new();
    manager.load(M3uParser::parse_content(
        "#EXTINF:-1 tvg-id=\"a\",A\nhttp://h.org/a.m3u8\n#EXTINF:-1 tvg-id=\"b\",B\nhttp://h.org/b.m3u8\n",
    )
    .unwrap());
    assert!(manager.get_channel_by_id("channel_0").is_ok());
    assert!(manager.get_channel_by_id("channel_1").is_ok());

    let second = vec![channel("other_0", "C", "G", "http://h.org/c.m3u8")];
    manager.load(second);
    let err = manager.get_channel_by_id("channel_0").unwrap_err();
    assert!(matches!(err, AppError::ChannelNotFound(_)));
    assert_eq!(err.status_code(), 404);
    assert_eq!(err.message(), "Channel not found: channel_0");
    assert!(manager.get_channel_by_id("other_0").is_ok());
}

#[test]
fn parsed_then_rewritten_media_line() {
    let manifest = "#EXTINF:-1 tvg-id=\"c1\" group-title=\"News\",Channel One\nhttp://a.com/x/live.m3u8";
    let channels = M3uParser::parse_content(manifest).unwrap();
    assert_eq!(channels.len(), 1);
    let c = &channels[0];
    assert_eq!(c.id, "channel_0");
    assert_eq!(c.tvg_id, "c1");
    assert_eq!(c.group, "News");
    assert_eq!(c.name, "Channel One");
    assert_eq!(c.url, "http://a.com/x/live.m3u8");
    assert!(matches!(c.stream_type, StreamType::HLS));

    let fetched = "#EXTM3U\n#EXTINF:10.0,\nseg1.ts\n#EXT-X-ENDLIST";
    let rewriter = M3u8Rewriter::new("http://localhost:8006".to_string());
    let out = rewriter.rewrite_m3u8(fetched, &c.url).unwrap();
    let lines: Vec<&str> = out.lines().collect();
    assert_eq!(lines[2], "/api/proxy/segment?url=http%3A%2F%2Fa.com%2Fx%2Fseg1.ts");
}

#[test]
fn search_is_case_insensitive_substring() {
    let mut manager = ChannelManager::new();
    manager.load(vec![
        channel("a0", "Channel One", "News", "http://h.org/one.m3u8"),
        channel("b1", "Movie Two", "Film", "http://h.org/two.mp4"),
    ]);
    let hits = manager.search_channels("chan");
    assert_eq!(hits.len(), 1);
    assert_eq!(hits[0].name, "Channel One");
    let none = manager.search_channels("zebra");
    assert_eq!(none.len(), 0);
    let all = manager.search_channels("");
    assert_eq!(all.len(), 2);
}

#[test]
fn groups_are_sorted_and_distinct() {
    let mut manager = ChannelManager::new();
    manager.load(vec![
        channel("channel_0", "B1", "beta", "http://h.org/1.ts"),
        channel("channel_1", "A1", "alpha", "http://h.org/2.ts"),
        channel("channel_2", "B2", "beta", "http://h.org/3.ts"),
    ]);
    let groups = manager.get_all_groups();
    assert_eq!(groups, vec!["alpha".to_string(), "beta".to_string()]);
    let by_group = manager.get_channels_by_group("beta");
    assert_eq!(by_group.len(), 2);
    assert_eq!(by_group[0].name, "B1");
    assert_eq!(by_group[1].name, "B2");
}

#[test]
fn stream_type_detection_order() {
    assert!(matches!(Channel::detect_stream_type("http://h.org/live.M3U8"), StreamType::HLS));
    assert!(matches!(Channel::detect_stream_type("http://h.org/a?fmt=m3u8"), StreamType::HLS));
    assert!(matches!(Channel::detect_stream_type("http://h.org/movie.mp4"), StreamType::MP4));
    assert!(matches!(Channel::detect_stream_type("http://h.org/cam.flv"), StreamType::FLV));
    assert!(matches!(Channel::detect_stream_type("http://h.org/flvstream"), StreamType::FLV));
    assert!(matches!(Channel::detect_stream_type("http://h.org/plain"), StreamType::Other));
    assert_eq!(StreamType::HLS.as_str(), "HLS");
    assert_eq!(StreamType::Other.as_str(), "Other");
}

#[test]
fn play_url_proxies_hls_only() {
    let hls = channel("channel_0", "A", "G", "http://h.org/live.m3u8");
    assert_eq!(play_url_for(&hls), "/api/proxy/playlist?url=http%3A%2F%2Fh.org%2Flive.m3u8");
    let mp4 = channel("channel_1", "B", "G", "http://h.org/movie.mp4");
    assert_eq!(play_url_for(&mp4), "http://h.org/movie.mp4");
}

#[test]
fn channel_query_dispatch() {
    let mut manager = ChannelManager::new();
    manager.load(vec![
        channel("channel_0", "Channel One", "News", "http://h.org/one.m3u8"),
        channel("channel_1", "Movie Two", "Film", "http://h.org/two.mp4"),
    ]);
    let all = query_channels(&manager, &ChannelQuery { group: None, search: None });
    assert_eq!(all.total, 2);
    let filtered = query_channels(
        &manager,
        &ChannelQuery { group: Some("Film".to_string()), search: None },
    );
    assert_eq!(filtered.total, 1);
    assert_eq!(filtered.channels[0].name, "Movie Two");
    let searched = query_channels(
        &manager,
        &ChannelQuery { group: None, search: Some("one".to_string()) },
    );
    assert_eq!(searched.total, 1);
    let groups = query_groups(&manager);
    assert_eq!(groups.groups, vec!["Film".to_string(), "News".to_string()]);
}

#[test]
fn manifest_signature_check() {
    assert!(is_valid_m3u8("#EXTM3U\n#EXT-X-VERSION:3"));
    assert!(is_valid_m3u8("  \n\t#EXTM3U"));
    assert!(!is_valid_m3u8("<html>not a manifest</html>"));
    assert!(!is_valid_m3u8(""));
}

#[test]
fn hop_headers_dropped_and_cors_added() {
    let upstream: Vec<(String, Vec<u8>)> = vec![
        ("content-type".to_string(), b"video/mp2t".to_vec()),
        ("transfer-encoding".to_string(), b"chunked".to_vec()),
        ("connection".to_string(), b"close".to_vec()),
        ("keep-alive".to_string(), b"timeout=5".to_vec()),
        ("content-length".to_string(), b"42".to_vec()),
    ];
    let filtered = filter_hop_headers(&upstream);
    assert_eq!(filtered.len(), 2);
    assert_eq!(filtered[0].0, "content-type");
    assert_eq!(filtered[1].0, "content-length");

    let buffered = buffered_response_headers(&upstream);
    assert_eq!(buffered.len(), 5);
    assert_eq!(buffered[2].0, "access-control-allow-origin");
    assert_eq!(buffered[2].1, b"*".to_vec());
    assert_eq!(buffered[3].0, "access-control-allow-methods");
    assert_eq!(buffered[3].1, b"GET, POST, OPTIONS".to_vec());
    assert_eq!(buffered[4].0, "access-control-allow-headers");

    let streaming = streaming_response_headers(&upstream);
    assert_eq!(streaming.len(), 3);
    assert_eq!(streaming[2].0, "access-control-allow-origin");
}

#[test]
fn error_taxonomy_mapping() {
    let nf = AppError::ChannelNotFound("x".to_string());
    assert_eq!(nf.status_code(), 404);
    assert_eq!(nf.message(), "Channel not found: x");
    let bad = AppError::InvalidM3U("no channels".to_string());
    assert_eq!(bad.status_code(), 400);
    assert_eq!(bad.message(), "Invalid M3U format: no channels");
    let up = AppError::ProxyError("timeout".to_string());
    assert_eq!(up.status_code(), 502);
    assert_eq!(up.message(), "Proxy error: timeout");
    let internal = AppError::Internal("boom".to_string());
    assert_eq!(internal.status_code(), 500);
    assert_eq!(internal.message(), "Internal error: boom");
}

#[test]
fn config_defaults() {
    let c = Config::default();
    assert_eq!(c.host, "0.0.0.0");
    assert_eq!(c.port, 8006);
    assert_eq!(c.m3u_path, "./Gather.m3u");
    assert!(c.cache_enabled);
    assert_eq!(c.cache_ttl_playlist, 300);
    assert_eq!(c.cache_ttl_segment, 600);
    assert_eq!(c.request_timeout, 30);
    assert_eq!(c.max_concurrent, 100);
}

#[test]
fn decimal_rendering() {
    assert_eq!(usize_to_string(0), "0");
    assert_eq!(usize_to_string(7), "7");
    assert_eq!(usize_to_string(1234), "1234");
}

#[test]
fn https_resolution_and_unresolvable_reference() {
    let rewriter = M3u8Rewriter::new("http://localhost:8006".to_string());
    let r = rewriter
        .resolve_url("seg.ts", "https://cdn.example.org/live/chan/index.m3u8")
        .unwrap();
    assert_eq!(r, "https://cdn.example.org/live/chan/seg.ts");

    let err = rewriter.rewrite_m3u8("#EXTM3U\n//", "http://h.org/x.m3u8").unwrap_err();
    assert!(matches!(err, AppError::InvalidM3U(_)));
}

#[test]
fn master_playlist_variants_use_playlist_endpoint() {
    let rewriter = M3u8Rewriter::new("http://localhost:8006".to_string());
    let content = "#EXTM3U\n#EXT-X-STREAM-INF:BANDWIDTH=800000\nlow/index.m3u8\n#EXT-X-STREAM-INF:BANDWIDTH=2500000\nhttp://cdn.a.com/hi/index.m3u8";
    let out = rewriter.rewrite_m3u8(content, "http://a.com/master.m3u8").unwrap();
    let lines: Vec<&str> = out.lines().collect();
    assert_eq!(lines[2], "/api/proxy/playlist?url=http%3A%2F%2Fa.com%2Flow%2Findex.m3u8");
    assert_eq!(lines[4], "/api/proxy/playlist?url=http%3A%2F%2Fcdn.a.com%2Fhi%2Findex.m3u8");
}
