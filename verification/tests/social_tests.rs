use luedd::json::{parse_json, Json};
use luedd::net::JobEvent;
use luedd::social::{
    detect_site, extract, extract_facebook, extract_media_urls, extract_shortcode, playable_urls, query_url,
    rejection, single_item_media, unescape_json_url, SocialSite,
};
use luedd::strmap::StrMap;
use luedd::ytdlp::{
    can_handle, download_args, drops_cookies, extract_args, final_stem, is_transient, output_candidates, program,
    read_line, retry_wait, without_cookies, OutputLine,
};
use luedd::ytdlp_info::{meta_of, probe_qualities, thumbnail};
use luedd::backend::Confidence;

fn json(s: &str) -> Json {
    parse_json(s).unwrap()
}

#[test]
fn prefers_hd_when_both_present() {
    let html = r#"{"playable_url":"https:\/\/sd.example\/v.mp4","other":1,"playable_url_quality_hd":"https:\/\/hd.example\/v.mp4"}"#;
    assert_eq!(playable_urls(html).len(), 2);
    assert_eq!(extract_facebook(html).unwrap().url, "https://hd.example/v.mp4");
}

#[test]
fn unescape_handles_forward_slash_and_percent_and_amp() {
    let raw = r"https:\/\/scontent.example\/v.mp4?bytestart=1&byteend=2%26oe=abc";
    let got = unescape_json_url(raw);
    assert!(got.starts_with("https://scontent.example/v.mp4"));
    assert!(!got.contains('\\'));
}

#[test]
fn extract_errors_clearly_when_no_playable_url_present() {
    let html = "<html><body>nothing here</body></html>";
    assert!(playable_urls(html).is_empty());
    assert!(extract_facebook(html).is_err());
}

#[test]
fn extract_shortcode_handles_all_three_path_kinds() {
    assert_eq!(extract_shortcode("https://www.instagram.com/p/ABC123/").as_deref(), Some("ABC123"));
    assert_eq!(extract_shortcode("https://www.instagram.com/reel/XYZ789/?igsh=1").as_deref(), Some("XYZ789"));
    assert_eq!(extract_shortcode("https://www.instagram.com/tv/DEF456").as_deref(), Some("DEF456"));
}

#[test]
fn extract_shortcode_none_for_a_profile_url() {
    assert_eq!(extract_shortcode("https://www.instagram.com/someuser/"), None);
}

#[test]
fn single_video_prefers_video_url_field() {
    let node = json(r#"{ "is_video": true, "video_url": "https://cdn.example/v.mp4" }"#);
    let media = single_item_media(&node).unwrap();
    assert_eq!(media.url, "https://cdn.example/v.mp4");
}

#[test]
fn single_video_falls_back_to_video_versions() {
    let node = json(r#"{ "media_type": 2, "video_versions": [{"url": "https://cdn.example/v2.mp4"}] }"#);
    let media = single_item_media(&node).unwrap();
    assert_eq!(media.url, "https://cdn.example/v2.mp4");
}

#[test]
fn single_image_prefers_largest_display_resource() {
    let node = json(
        r#"{
            "is_video": false,
            "display_resources": [{"src": "https://cdn.example/large.jpg"}, {"src": "https://cdn.example/small.jpg"}]
        }"#,
    );
    let media = single_item_media(&node).unwrap();
    assert_eq!(media.url, "https://cdn.example/large.jpg");
}

#[test]
fn carousel_extracts_every_child() {
    let media = json(
        r#"{
            "edge_sidecar_to_children": {
                "edges": [
                    { "node": { "is_video": true, "video_url": "https://cdn.example/1.mp4" } },
                    { "node": { "is_video": false, "display_resources": [{"src": "https://cdn.example/2.jpg"}] } }
                ]
            }
        }"#,
    );
    let items = extract_media_urls(&media).unwrap();
    assert_eq!(items.len(), 2);
    assert_eq!(items[0].url, "https://cdn.example/1.mp4");
    assert_eq!(items[1].url, "https://cdn.example/2.jpg");
}

#[test]
fn the_widest_image_is_taken() {
    let node = json(
        r#"{"is_video": false, "display_resources": [
            {"src": "https://cdn/s.jpg", "config_width": 640},
            {"src": "https://cdn/b.jpg", "config_width": 1080},
            {"src": "https://cdn/c.jpg", "config_width": 1080}]}"#,
    );
    assert_eq!(single_item_media(&node).unwrap().url, "https://cdn/b.jpg");
    let node = json(
        r#"{"image_versions2": {"candidates": [{"url": "https://cdn/x.jpg"}, {"width": 9}, {"url": "https://cdn/y.jpg", "width": 320}]}}"#,
    );
    assert_eq!(single_item_media(&node).unwrap().url, "https://cdn/y.jpg");
}

#[test]
fn rejected_queries_tell_the_errors() {
    let body = r#"{"errors":[{"message":"expired","code":1}]}"#;
    let told = extract(body).unwrap_err();
    assert!(told.starts_with("Instagram GraphQL query was rejected (doc_id=24368985919464652"));
    assert!(told.ends_with(r#": [{"code":1,"message":"expired"}]"#));
    assert_eq!(told, rejection(r#"[{"code":1,"message":"expired"}]"#));
}

#[test]
fn errors_cleanly_when_nothing_resolvable() {
    let media = json(r#"{ "some_other_field": true }"#);
    assert!(extract_media_urls(&media).is_err());
}

#[test]
fn answers_are_read_down_to_the_media() {
    let body = r#"{"data":{"xdt_shortcode_media":{"is_video":true,"video_url":"https://cdn.example/v.mp4"}}}"#;
    assert_eq!(extract(body).unwrap()[0].url, "https://cdn.example/v.mp4");
    assert!(extract("<html>").is_err());
}

#[test]
fn posts_are_asked_for_by_code() {
    assert_eq!(detect_site("https://www.instagram.com/p/ABC123/"), Some(SocialSite::Instagram));
    assert_eq!(detect_site("https://example.com/p/ABC123/"), None);
    let url = query_url("ABC123");
    assert!(url.contains("doc_id=24368985919464652"));
    assert!(url.contains("%22shortcode%22%3A%22ABC123%22"));
}

#[test]
fn video_pages_are_claimed() {
    assert_eq!(can_handle("https://www.youtube.com/watch?v=x"), Confidence::Strong);
    assert_eq!(can_handle("https://example.com/x"), Confidence::No);
}

#[test]
fn transient_failures_are_tried_again() {
    assert!(is_transient("HTTP Error 503: Service Unavailable"));
    assert!(!is_transient("Video unavailable"));
    assert!(retry_wait(0, 2, "HTTP Error 503: Service Unavailable").is_some());
    assert_eq!(retry_wait(2, 2, "HTTP Error 503: Service Unavailable"), None);
    assert_eq!(retry_wait(0, 2, "Video unavailable"), None);
    assert!(!drops_cookies(0));
}

#[test]
fn cookies_can_be_left_out() {
    let mut args = extract_args("https://x/y", &Some("firefox".into()), Some("/tmp/c.txt"));
    assert!(args.windows(2).any(|w| w[0] == "--cookies-from-browser" && w[1] == "firefox"));
    assert!(args.windows(2).any(|w| w[0] == "--cookies" && w[1] == "/tmp/c.txt"));
    without_cookies(&mut args);
    assert!(!args.contains(&"--cookies".to_string()));
    assert!(!args.contains(&"/tmp/c.txt".to_string()));
    assert!(args.contains(&"firefox".to_string()));
    assert_eq!(args.last().map(|s| s.as_str()), Some("https://x/y"));
}

#[test]
fn downloads_name_their_file_and_their_referer() {
    let mut headers = StrMap::new();
    headers.insert("referer".to_string(), "https://page.example/".to_string());
    let args = download_args("https://x/y", "/dl", "name", &None, &None, None, &headers);
    assert!(args.contains(&"/dl/name.%(ext)s".to_string()));
    assert!(args.contains(&"bv*+ba/b".to_string()));
    assert!(args.windows(2).any(|w| w[0] == "--referer" && w[1] == "https://page.example/"));
    assert_eq!(program(&None, &None), "yt-dlp");
    assert!(output_candidates("/dl", "name").contains(&"/dl/name.mp4".to_string()));
    assert_eq!(final_stem(&Some("My Video.mp4".into())), "My Video");
    assert_eq!(final_stem(&None), "video");
}

#[test]
fn output_lines_are_told_apart() {
    match read_line("[download]  50.0% of   10.00MiB at    1.00MiB/s ETA 00:05") {
        OutputLine::Event(JobEvent::Progress { downloaded_bytes, total_bytes, speed_bps, .. }) => {
            assert_eq!(total_bytes, Some(10_485_760));
            assert_eq!(downloaded_bytes, 5_242_880);
            assert_eq!(speed_bps, 1_048_576);
        },
        other => panic!("unexpected {other:?}"),
    }
    assert!(matches!(read_line("[Merger] Merging formats"), OutputLine::Event(JobEvent::Converting)));
    assert!(matches!(read_line("/dl/name.mp4"), OutputLine::Path(p) if p == "/dl/name.mp4"));
    assert!(matches!(read_line("[info] x"), OutputLine::Other));
}

#[test]
fn formats_are_offered_by_height() {
    let info = json(
        r#"{"title":"Big Star","uploader":"Kurzgesagt","thumbnail":"https://cdn/t.jpg",
            "formats":[
                {"format_id":"1","vcodec":"avc1","acodec":"none","height":720,"width":1280,"tbr":1000.5,"url":"https://cdn/1"},
                {"format_id":"2","vcodec":"avc1","acodec":"none","height":1080,"width":1920,"tbr":2000,"url":"https://cdn/2"},
                {"format_id":"3","vcodec":"avc1","acodec":"none","height":1080,"width":1920,"tbr":1500,"url":"https://cdn/3"},
                {"format_id":"4","vcodec":"none","acodec":"opus","abr":127.6,"tbr":127.6,"url":"https://cdn/4"}
            ]}"#,
    );
    let options = probe_qualities(&info);
    let keys: Vec<&str> = options.iter().map(|o| o.variant_key.as_str()).collect();
    assert_eq!(keys, vec!["2+4", "1+4", "4"]);
    assert_eq!(options[0].resolution, Some((1920, 1080)));
    assert_eq!(options[0].bandwidth, 2_000_000);
    assert_eq!(options[2].label, "Audio only (128k opus)");
    assert_eq!(thumbnail(&info).as_deref(), Some("https://cdn/t.jpg"));
    assert_eq!(meta_of(Some(&info)).title.as_deref(), Some("Big Star"));
}
