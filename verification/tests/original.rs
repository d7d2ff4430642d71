use m3u_proxy::channel::{Channel, StreamType};
use m3u_proxy::manager::ChannelManager;
use m3u_proxy::parser::M3uParser;
use m3u_proxy::rewriter::M3u8Rewriter;

#[test]
fn test_channel_manager() {
    let mut manager = ChannelManager::new();

    let test_channels = vec![
        Channel {
            id: "test1".to_string(),
            tvg_id: "test1".to_string(),
            name: "测试频道1".to_string(),
            logo: None,
            group: "测试组".to_string(),
            url: "http://example.com/test1.m3u8".to_string(),
            stream_type: StreamType::HLS,
        },
        Channel {
            id: "test2".to_string(),
            tvg_id: "test2".to_string(),
            name: "测试频道2".to_string(),
            logo: None,
            group: "测试组".to_string(),
            url: "http://example.com/test2.m3u8".to_string(),
            stream_type: StreamType::HLS,
        },
    ];

    manager.load(test_channels);

    assert_eq!(manager.get_channel_count(), 2);
    assert!(manager.get_channel_by_id("test1").is_ok());
    assert_eq!(manager.get_channels_by_group("测试组").len(), 2);
}

#[test]
fn test_rewrite_simple_m3u8() {
    let rewriter = M3u8Rewriter::new("http://localhost:8006".to_string());
    let content = "#EXTM3U\n#EXT-X-VERSION:3\n#EXT-X-TARGETDURATION:10\n#EXTINF:10.0,\nsegment1.ts\n#EXTINF:10.0,\nsegment2.ts\n#EXT-X-ENDLIST";

    let result = rewriter
        .rewrite_m3u8(content, "http://example.com/playlist.m3u8")
        .unwrap();

    assert!(result.contains("/api/proxy/segment?url="));
    assert!(result.contains("segment1.ts"));
    assert!(result.contains("segment2.ts"));
}

#[test]
fn test_resolve_relative_url() {
    let rewriter = M3u8Rewriter::new("http://localhost:8006".to_string());
    let base_url = "http://example.com/path/playlist.m3u8";

    let result = rewriter.resolve_url("segment.ts", base_url).unwrap();
    assert_eq!(result, "http://example.com/path/segment.ts");

    let result = rewriter.resolve_url("/other/segment.ts", base_url).unwrap();
    assert_eq!(result, "http://example.com/other/segment.ts");

    let result = rewriter
        .resolve_url("http://other.com/segment.ts", base_url)
        .unwrap();
    assert_eq!(result, "http://other.com/segment.ts");
}

#[test]
fn test_parse_extinf() {
    let content = "#EXTM3U x-tvg-url=\"https://epg-1.iill.top/epg.xml\"\n\n#EXTINF:-1 tvg-id=\"咪咕体育\" tvg-name=\"咪咕体育\" tvg-logo=\"https://epg-1.iill.top/logo/咪咕.png\" group-title=\"•咪咕「移动」\",咪咕直播 𝟜𝕂-𝟙「移动」\nhttp://gslbserv.itv.cmvideo.cn:80/3000000010000005180/index.m3u8?channel-id=FifastbLive\n\n#EXTINF:-1 tvg-id=\"CCTV1\" tvg-name=\"CCTV1\" tvg-logo=\"https://example.com/logo.png\" group-title=\"央视\",CCTV-1 综合\nhttp://example.com/cctv1.m3u8\n";

    let result = M3uParser::parse_content(content);
    assert!(result.is_ok());

    let channels = result.unwrap();
    assert_eq!(channels.len(), 2);

    assert_eq!(channels[0].tvg_id, "咪咕体育");
    assert_eq!(channels[0].name, "咪咕直播 𝟜𝕂-𝟙「移动」");
    assert_eq!(channels[0].group, "•咪咕「移动」");
}
