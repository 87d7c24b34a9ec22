use luedd::backend::{BackendConfig, EntryMeta};
use luedd::detections::{to_video_list_item, MediaReport};
use luedd::dns::{answers_in, is_fresh, lookup_failure, Lookup, LookupCache};
use luedd::headers::{flatten_headers, preview_context, FALLBACK_UA};
use luedd::json::{is_shallow, parse_json, write_json, Json};
use luedd::mux::{mux_demuxed, mux_single, progress_line};
use luedd::native_host::{acknowledge, manifest, HOST_NAME};
use luedd::net::{JobEvent, RequestContext};
use luedd::pages::{
    canonical_page_url, ig_caught_of, is_pdf, kind_from_content_type, looks_like_image, page_label, slug, yt_caught_of,
};
use luedd::panel::{default_media_exts, default_media_types, Catch, Panel, PreviewPlan, QualityStep};
use luedd::preview::{
    address_frame_args, data_url, frame_seeks, page_preview, Preview, PreviewKind, PreviewRun, PreviewStep,
};
use luedd::queueing::{needs_sniff, queue_extras, QueueRequest};
use luedd::registry::{Backend, BackendRegistry};
use luedd::sessions::{restore, sessionid_of, AfterFailure, CookiePool, SessionTry, IG_COOKIE_MAX};
use luedd::strmap::StrMap;
use luedd::viewer::{
    files_page, has_session, offers_session, owner_name, picture_options, picture_type, post_page, serves_picture,
    ProfileHeader,
};

fn captured(pairs: &[(&str, &str)]) -> StrMap<Vec<String>> {
    let mut m = StrMap::new();
    for (k, v) in pairs {
        m.insert(k.to_string(), vec![v.to_string()]);
    }
    m
}

#[test]
fn server_flatten_headers_prefers_captured_user_agent_over_request_headers_capture() {
    let headers = captured(&[("Referer", "https://page.example/"), ("user-agent", "stale-from-webrequest")]);

    let flat = flatten_headers(&headers, &Some("real-navigator-user-agent".to_string()));

    let uas = (0..flat.len()).filter(|i| flat.key_at(*i).eq_ignore_ascii_case("user-agent")).count();
    assert_eq!(uas, 1, "must not keep both a webRequest-captured and a navigator-supplied User-Agent");
    assert_eq!(flat.get("User-Agent").unwrap(), "real-navigator-user-agent");
    assert_eq!(flat.get("Referer").unwrap(), "https://page.example/");
}

#[test]
fn previews_have_an_agent_and_a_referer() {
    let ctx = preview_context(&captured(&[]), &None, Some("https://page.example/"), &None);
    assert_eq!(ctx.headers.get("User-Agent").map(|s| s.as_str()), Some(FALLBACK_UA));
    assert_eq!(ctx.headers.get("Referer").map(|s| s.as_str()), Some("https://page.example/"));
}

#[test]
fn server_video_list_item_shows_a_filename_not_the_raw_link_in_info() {
    let item = to_video_list_item(
        "v1",
        "https://cdn.example/abc123.mp4?token=secret",
        None,
        Some("My Cool Video"),
        Some("https://site.example/watch?v=1"),
        false,
        false,
        "Lüdd",
        None,
    );
    assert_eq!(item.info, "My Cool Video.mp4");
    assert_eq!(item.url, "https://cdn.example/abc123.mp4?token=secret");
    assert_eq!(item.page_url.as_deref(), Some("https://site.example/watch?v=1"));
}

#[test]
fn server_video_list_item_falls_back_to_url_derived_name_without_a_title() {
    let item =
        to_video_list_item("v1", "https://cdn.example/movie.mkv", None, None, None, false, false, "Lüdd", None);
    assert_eq!(item.info, "movie.mkv");
    assert_eq!(item.page_url, None);
}

#[test]
fn kind_from_content_type_recognises_extensionless_streams() {
    assert_eq!(kind_from_content_type(Some("application/vnd.apple.mpegurl")), Some("hls"));
    assert_eq!(kind_from_content_type(Some("application/x-mpegURL; charset=utf-8")), Some("hls"));
    assert_eq!(kind_from_content_type(Some("application/dash+xml")), Some("dash"));
    assert_eq!(kind_from_content_type(Some("video/mp4")), Some("video"));
    assert_eq!(kind_from_content_type(Some("audio/mpeg")), Some("audio"));
    assert_eq!(kind_from_content_type(Some("image/webp")), Some("image"));
    assert_eq!(kind_from_content_type(Some("text/html")), None);
    assert_eq!(kind_from_content_type(None), None);
}

#[test]
fn looks_like_image_uses_content_type_then_url_extension() {
    assert!(looks_like_image(Some("image/jpeg"), "https://cdn.example/x"));
    assert!(looks_like_image(Some("IMAGE/PNG; charset=binary"), "https://cdn.example/x"));
    assert!(looks_like_image(None, "https://cdn.example/photo.WEBP?v=2"));
    assert!(!looks_like_image(Some("video/mp4"), "https://cdn.example/clip.mp4"));
    assert!(!looks_like_image(None, "https://cdn.example/stream.m3u8"));
}

#[test]
fn server_default_media_exts_cover_hls_and_dash_manifests() {
    assert!(default_media_exts().contains(&".M3U8".to_string()));
    assert!(default_media_exts().contains(&".MPD".to_string()));
}

#[test]
fn server_default_media_exts_and_types_cover_documents_and_images() {
    assert!(default_media_exts().contains(&".PDF".to_string()));
    assert!(default_media_exts().contains(&".JPG".to_string()));
    assert!(default_media_exts().contains(&".PNG".to_string()));
    assert!(default_media_types().contains(&"application/pdf".to_string()));
    assert!(default_media_types().contains(&"image/".to_string()));
}

#[test]
fn yt_caught_of_only_matches_watchable_urls() {
    let id = |u: &str| yt_caught_of(u, None, 1).map(|(_, c)| c.id);

    // watchable
    assert_eq!(id("https://www.youtube.com/watch?v=dQw4w9WgXcQ").as_deref(), Some("dQw4w9WgXcQ"));
    assert_eq!(id("https://youtu.be/dQw4w9WgXcQ").as_deref(), Some("dQw4w9WgXcQ"));
    assert_eq!(id("https://www.youtube.com/shorts/abcdefg").as_deref(), Some("abcdefg"));
    assert_eq!(id("https://www.twitch.tv/videos/123456789").as_deref(), Some("v123456789"));
    assert_eq!(id("https://x.com/someone/status/1790000000000000000").as_deref(), Some("1790000000000000000"));
    assert_eq!(id("https://vimeo.com/76979871").as_deref(), Some("76979871"));

    // NOT watchable
    assert!(yt_caught_of("https://www.youtube.com/feed/subscriptions", None, 1).is_none());
    assert!(yt_caught_of("https://www.youtube.com/", None, 1).is_none());
    assert!(yt_caught_of("https://www.youtube.com/results?search_query=cats", None, 1).is_none());
    assert!(yt_caught_of("https://www.youtube.com/@SomeChannel", None, 1).is_none());
    assert!(yt_caught_of("https://x.com/someone", None, 1).is_none());
    assert!(yt_caught_of("https://www.twitch.tv/someone", None, 1).is_none());
}

#[test]
fn yt_caught_of_canonicalises_youtube_playlist_variants() {
    let u = |s: &str| yt_caught_of(s, None, 1).map(|(_, c)| c.url);
    let want = Some("https://www.youtube.com/watch?v=CUtNDBBLFpI".to_string());
    assert_eq!(u("https://www.youtube.com/watch?v=CUtNDBBLFpI&list=RDx&index=2"), want);
    assert_eq!(u("https://www.youtube.com/watch?v=CUtNDBBLFpI&list=RDx&index=3"), want);
    assert_eq!(u("https://youtu.be/CUtNDBBLFpI?si=abcd"), want);
    assert_eq!(
        u("https://www.youtube.com/shorts/abcdefg?feature=share"),
        Some("https://www.youtube.com/shorts/abcdefg".to_string())
    );
}

#[test]
fn pages_are_reduced_to_what_they_show() {
    assert_eq!(
        canonical_page_url("https://www.instagram.com/p/ABC/?igsh=1#top"),
        "https://www.instagram.com/p/ABC"
    );
    assert_eq!(
        canonical_page_url("https://www.youtube.com/watch?v=abc&feature=share&UTM_source=x"),
        canonical_page_url("https://www.youtube.com/watch?v=abc")
    );
    assert_eq!(canonical_page_url("no url"), "no url");
}

#[test]
fn instagram_pages_are_filed_by_kind() {
    let (account, c) = ig_caught_of("https://www.instagram.com/reel/ABC/", 7).unwrap();
    assert_eq!(account, None);
    assert_eq!((c.kind.as_str(), c.key.as_str(), c.seen), ("reel", "ABC", 7));
    let (account, c) = ig_caught_of("https://www.instagram.com/stories/quynhingx/", 7).unwrap();
    assert_eq!(account.as_deref(), Some("quynhingx"));
    assert_eq!(c.kind, "story");
    assert!(ig_caught_of("https://example.com/", 7).is_none());
}

#[test]
fn labels_and_slugs() {
    assert_eq!(slug("Kurz gesagt!"), "Kurzgesagt");
    assert_eq!(slug("abcdefghijklmnopqrstuvwxyz"), "abcdefghijklmnopqrstuvwx");
    assert!(is_pdf("application/pdf", "https://cdn.example/x"));
    assert!(is_pdf("", "https://cdn.example/x.PDF"));
    assert!(page_label("https://www.youtube.com/watch?v=abc", Some("Big Star"), "yt-dlp").contains("Big Star"));
}

fn panel() -> (Panel, BackendRegistry, BackendConfig) {
    let mut reg = BackendRegistry::with_builtins();
    reg.register(Backend::Ytdlp);
    reg.register(Backend::Instagram);
    (Panel::new(), reg, BackendConfig::default())
}

fn report(url: &str) -> MediaReport {
    MediaReport {
        url: url.into(),
        file: Some("clip".into()),
        tab_url: Some("https://page.example/".into()),
        request_headers: captured(&[("Referer", "https://page.example/")]),
        response_headers: captured(&[("Content-Type", "video/mp4")]),
        cookie: None,
        user_agent: None,
    }
}

#[test]
fn reported_media_are_offered_once_and_found_again() {
    let (mut p, reg, cfg) = panel();
    let item = p.media(&reg, &cfg, report("https://cdn.example/a.mp4")).unwrap();
    assert_eq!(item.kind.as_deref(), Some("video"));
    assert!(p.media(&reg, &cfg, report("https://cdn.example/a.mp4")).is_none());
    assert_eq!(p.response(None).video_list.len(), 1);
    let plan = p.vid(&item.id, Some("best".into())).unwrap();
    assert_eq!(plan.request.url, "https://cdn.example/a.mp4");
    assert_eq!(plan.request.quality.as_deref(), Some("best"));
    assert!(p.vid("nope", None).is_none());
    p.clear();
    assert!(p.response(None).video_list.is_empty());
}

#[test]
fn pages_are_filed_with_their_site() {
    let (mut p, reg, cfg) = panel();
    let seen = p.page(&reg, &cfg, "https://www.youtube.com/watch?v=abc&list=x", Some("Big Star".into()), None).unwrap();
    assert_eq!(seen.catch, Catch::Videos);
    assert!(seen.item.is_some());
    let seen = p.page(&reg, &cfg, "https://www.instagram.com/p/ABC/", None, None).unwrap();
    assert_eq!(seen.catch, Catch::Instagram);
    p.set_monitoring(false);
    assert!(p.page(&reg, &cfg, "https://www.youtube.com/watch?v=xyz", None, None).is_none());
    assert!(!p.response(None).enabled);
}

#[test]
fn previews_and_variants_are_kept() {
    let (mut p, reg, cfg) = panel();
    let item = p.media(&reg, &cfg, report("https://cdn.example/a.m3u8")).unwrap();
    assert!(matches!(p.quality_step("nope"), QualityStep::Unknown));
    assert!(matches!(p.quality_step(&item.id), QualityStep::Ask { .. }));
    p.keep_qualities("https://cdn.example/a.m3u8".into(), vec![]);
    assert!(matches!(p.quality_step(&item.id), QualityStep::Known(_)));
    assert!(matches!(p.preview_step(&item.id, &reg), PreviewPlan::Make { .. }));
    let shown = Preview { data_url: "data:image/png;base64,AA==".into(), kind: PreviewKind::Image };
    p.keep_preview("https://cdn.example/a.m3u8".into(), Some(shown));
    match p.preview_step(&item.id, &reg) {
        PreviewPlan::Known(Some(got)) => assert_eq!(got.data_url, "data:image/png;base64,AA=="),
        other => panic!("unexpected {other:?}"),
    }
}

#[test]
fn missing_previews_are_kept_too() {
    let (mut p, reg, cfg) = panel();
    let url = "https://cdn.example/a.m3u8";
    let item = p.media(&reg, &cfg, report(url)).unwrap();
    let told = p.settle_preview(url.into(), Err("nothing to show".into()));
    assert_eq!(told.preview_error.as_deref(), Some("nothing to show"));
    assert!(told.preview_data_url.is_none());
    assert!(matches!(p.preview_step(&item.id, &reg), PreviewPlan::Known(None)));

    let shown = Preview { data_url: "data:image/png;base64,AA==".into(), kind: PreviewKind::Image };
    let told = p.settle_preview(url.into(), Ok(shown));
    assert_eq!(told.preview_data_url.as_deref(), Some("data:image/png;base64,AA=="));
    assert!(told.preview_error.is_none());
    assert!(matches!(p.preview_step(&item.id, &reg), PreviewPlan::Known(Some(_))));
}

#[test]
fn bytes_are_written_in_base_64() {
    assert_eq!(data_url("image/png", b"abcd"), "data:image/png;base64,YWJjZA==");
    assert_eq!(data_url("image/png", b"abcde"), "data:image/png;base64,YWJjZGU=");
    assert_eq!(data_url("image/png", b""), "data:image/png;base64,");
}

#[test]
fn images_are_previews_of_themselves() {
    let mut run = PreviewRun::begin("https://cdn.example/a.png", Some((200, "image/png")));
    assert!(matches!(run.step, PreviewStep::ReadImage));
    run.body(Some(b"abcd".to_vec()));
    match run.step {
        PreviewStep::Done(Ok(p)) => {
            assert_eq!(p.data_url, "data:image/png;base64,YWJjZA==");
            assert_eq!(p.kind.as_str(), "image");
        },
        other => panic!("unexpected {other:?}"),
    }
}

#[test]
fn failing_previews_end_with_their_trouble() {
    let mut run = PreviewRun::begin("https://cdn.example/page", None);
    assert!(matches!(run.step, PreviewStep::OpenAddress));
    run.frame(None);
    match run.step {
        PreviewStep::Done(Err(e)) => assert_eq!(e, "couldn't reach the media host"),
        other => panic!("unexpected {other:?}"),
    }
}

#[test]
fn page_pictures_must_be_pictures() {
    assert!(page_preview(200, Some("image/jpeg"), Some(b"abc".to_vec()), true).is_some());
    assert!(page_preview(404, Some("image/jpeg"), Some(b"abc".to_vec()), true).is_none());
    assert!(page_preview(200, Some("image/jpeg"), None, true).is_none());
}

#[test]
fn pictures_are_sought_in_the_file() {
    let ctx = RequestContext::default();
    let seeks = frame_seeks("https://cdn.example/a.mp4");
    assert!(!seeks.is_empty());
    let args = address_frame_args("https://cdn.example/a.mp4", &seeks[0], &ctx);
    assert!(args.contains(&"https://cdn.example/a.mp4".to_string()));
}

#[test]
fn manifest_builds_chrome_style_manifest() {
    let m = manifest("C:/luedd/luedd-nmhost.exe", Some("abcdefgh"), None);
    assert_eq!(m.get("name").and_then(|v| v.as_str()).map(|s| s.as_str()), Some(HOST_NAME));
    assert_eq!(m.get("type").and_then(|v| v.as_str()).map(|s| s.as_str()), Some("stdio"));
    let origins = m.get("allowed_origins").and_then(|v| v.as_array()).unwrap();
    assert_eq!(origins[0].as_str().map(|s| s.as_str()), Some("chrome-extension://abcdefgh/"));
    assert!(m.get("allowed_extensions").is_none());
}

#[test]
fn manifest_builds_firefox_style_manifest() {
    let m = manifest("/usr/local/bin/luedd-nmhost", None, Some("luedd@example.com"));
    let extensions = m.get("allowed_extensions").and_then(|v| v.as_array()).unwrap();
    assert_eq!(extensions[0].as_str().map(|s| s.as_str()), Some("luedd@example.com"));
    assert!(m.get("allowed_origins").is_none());
}

#[test]
fn launches_are_acknowledged() {
    let a = acknowledge(true, Ok(()));
    assert!(a.already_running && !a.launched && a.error.is_none());
    let a = acknowledge(false, Err("no program".into()));
    assert!(!a.launched);
    assert_eq!(a.error.as_deref(), Some("no program"));
    assert!(acknowledge(false, Ok(())).launched);
}

#[test]
fn values_are_written_and_read_back() {
    let v = Json::Object(vec![
        ("a".into(), Json::Text("x\"\n\u{1}ü".into())),
        ("b".into(), Json::List(vec![Json::Null, Json::Bool(true), Json::Number("-12".into())])),
    ]);
    let s = write_json(&v);
    assert_eq!(s, "{\"a\":\"x\\\"\\n\\u0001ü\",\"b\":[null,true,-12]}");
    let back = parse_json(&s).unwrap();
    assert_eq!(write_json(&back), s);
    assert!(parse_json("{").is_err());
}

#[test]
fn values_are_written_as_they_are_held() {
    let v = Json::Object(vec![("b".into(), Json::Number("01".into())), ("a".into(), Json::Number("1.50".into()))]);
    assert_eq!(write_json(&v), "{\"a\":1.5,\"b\":null}");
    assert_eq!(write_json(&Json::Text("a/\t".into())), "\"a/\\t\"");
}

#[test]
fn values_nest_only_so_deep() {
    let nested = |n: usize| format!("{}{}", "[".repeat(n), "]".repeat(n));
    assert!(is_shallow(&parse_json(&nested(100)).unwrap()));
    assert!(parse_json(&nested(200)).is_err());
    let mut v = Json::Null;
    for _ in 0..128 {
        v = Json::List(vec![v]);
    }
    assert!(is_shallow(&v));
    assert!(write_json(&v).starts_with("[[["));
    assert!(!is_shallow(&Json::Object(vec![("a".into(), v)])));
}

#[test]
fn each_service_is_asked_for_each_record() {
    let mut l = Lookup::new("cdn.example");
    assert_eq!(l.next().as_deref(), Some("https://1.1.1.1/dns-query?name=cdn.example&type=A"));
    l.answered(true);
    assert_eq!(l.next().as_deref(), Some("https://1.1.1.1/dns-query?name=cdn.example&type=AAAA"));
    l.answered(false);
    assert_eq!(l.next(), None);
    let mut l = Lookup::new("cdn.example");
    l.answered(false);
    l.answered(false);
    assert_eq!(l.next().as_deref(), Some("https://8.8.8.8/resolve?name=cdn.example&type=A"));
    assert!(is_fresh(299));
    assert!(!is_fresh(300));
    assert!(lookup_failure("cdn.example").contains("cdn.example"));
    let answer = parse_json(r#"{"Answer":[{"data":"1.2.3.4"},{"data":7},{}]}"#).unwrap();
    assert_eq!(answers_in(&answer), vec!["1.2.3.4".to_string()]);
}

#[test]
fn files_are_copied_into_a_container() {
    let (mp4, mkv) = mux_single("in.ts", "out.mp4", true);
    assert_eq!(mp4.output, "out.mp4");
    assert_eq!(mkv.output, "out.mkv");
    assert!(mp4.args.contains(&"-progress".to_string()));
    let (mp4, _) = mux_demuxed("v.ts", "a.ts", "out.mp4", false);
    assert!(!mp4.args.contains(&"-progress".to_string()));
    assert!(mp4.args.windows(2).any(|w| w[0] == "-i" && w[1] == "a.ts"));
}

#[test]
fn conversions_tell_how_far_they_are() {
    let line: Vec<char> = "out_time_us=5000000".chars().collect();
    assert!(matches!(progress_line(&line, 10_000), Some(JobEvent::Progress { .. })));
    let line: Vec<char> = "speed=1x".chars().collect();
    assert!(progress_line(&line, 10_000).is_none());
}

#[test]
fn sessions_are_kept_once_and_few() {
    assert_eq!(sessionid_of("a=1; sessionid=S1; b=2").as_deref(), Some("S1"));
    assert_eq!(sessionid_of("a=1"), None);
    let mut pool = CookiePool { cookies: vec![] };
    assert!(pool.remember("sessionid=S1"));
    assert!(!pool.remember("sessionid=S1"));
    assert!(!pool.remember("a=1"));
    for i in 0..IG_COOKIE_MAX + 2 {
        pool.remember(&format!("sessionid=T{i}"));
    }
    assert_eq!(pool.cookies.len(), IG_COOKIE_MAX);
    let first = pool.cookies[2].clone();
    assert!(pool.promote(&first));
    assert_eq!(pool.cookies[0], first);
    assert_eq!(pool.best(Some("sessionid=own"), &None).as_deref(), Some("sessionid=own"));
    assert_eq!(pool.best(None, &None), Some(first));
}

#[test]
fn stored_sessions_are_restored() {
    let kept = vec!["sessionid=A".to_string(), "sessionid=B".to_string()];
    assert_eq!(restore("[\n  \"sessionid=A\",\n  \"sessionid=B\"\n]").cookies, kept);
    assert_eq!(restore("sessionid=A").cookies, vec!["sessionid=A".to_string()]);
}

#[test]
fn sessions_are_tried_in_turn() {
    let mut t = SessionTry::new(vec!["a".into(), "b".into()]);
    assert_eq!(t.cookie().map(|s| s.as_str()), Some("a"));
    assert!(!t.promotes());
    assert_eq!(t.failed(), AfterFailure::TryNext);
    assert_eq!(t.cookie().map(|s| s.as_str()), Some("b"));
    assert!(t.promotes());
    assert_eq!(t.failed(), AfterFailure::GiveUp);
}

fn request(url: &str) -> QueueRequest {
    QueueRequest {
        url: url.into(),
        filename_hint: None,
        title_hint: Some("My Cool Video".into()),
        headers: StrMap::new(),
        cookie: None,
        quality: None,
        extras: queue_extras(Some("en".into()), true, false),
        preview: None,
    }
}

#[test]
fn requests_become_entries() {
    let q = request("https://cdn.example/a.mp4");
    let dest = q.dest_at("downloads", "http", Some("mp4"), 7);
    assert!(dest.starts_with("downloads/My Cool Video-"));
    assert!(dest.ends_with(".mp4"));
    assert!(needs_sniff("http", "https://cdn.example/a"));
    assert!(!needs_sniff("hls", "https://cdn.example/a"));
    let meta = EntryMeta { author: Some("@a".into()), title: None, media_class: None, out_dir: Some("d/own".into()) };
    let e = q.entry_with_id("id1".into(), 9, &dest, "http".into(), meta);
    assert_eq!(e.id, "id1");
    assert_eq!(e.created_at, 9);
    assert_eq!(e.author.as_deref(), Some("@a"));
    assert!(e.dest.starts_with("d/own/"));
}

#[test]
fn look_ups_are_kept_for_five_minutes() {
    let mut cache = LookupCache::new();
    cache.keep("cdn.example", vec!["1.2.3.4".into()], 1000);
    cache.keep("other.example", vec![], 1000);
    assert_eq!(cache.get("cdn.example", 1299), Some(vec!["1.2.3.4".to_string()]));
    assert_eq!(cache.get("cdn.example", 1300), None);
    assert_eq!(cache.get("other.example", 1000), None);
}

#[test]
fn the_viewer_is_served_pictures_of_the_site_only() {
    assert!(serves_picture("https://scontent.cdninstagram.com/v/x.jpg"));
    assert!(serves_picture("https://x.fbcdn.net/v/x.jpg"));
    assert!(!serves_picture("https://example.com/x.jpg"));
    let opts = picture_options(Some("sessionid=A".into()));
    assert_eq!(opts.headers.get("Referer").map(|s| s.as_str()), Some("https://www.instagram.com/"));
    assert_eq!(picture_type(200, None).as_deref(), Some("image/jpeg"));
    assert_eq!(picture_type(200, Some("image/webp")).as_deref(), Some("image/webp"));
    assert_eq!(picture_type(403, Some("image/webp")), None);
}

#[test]
fn pages_of_the_site_are_filed_when_queued() {
    assert!(files_page("https://www.instagram.com/p/ABC/"));
    assert!(!files_page("https://scontent.cdninstagram.com/v/x.jpg"));
    assert!(!files_page("https://example.com/"));
    assert_eq!(post_page("ABC"), "https://www.instagram.com/p/ABC");
    assert_eq!(owner_name("@@someone"), "someone");
}

#[test]
fn blocked_sessions_leave_the_name() {
    let mut h = ProfileHeader::name_only("someone".into());
    assert!(!h.is_answer());
    h.profile_pic_url = "https://cdn/a.jpg".into();
    assert!(h.is_answer());
    assert!(offers_session("a=1; sessionid=S"));
    assert!(has_session(&vec!["a=1".into(), "sessionid=S".into()]));
    assert!(!has_session(&vec!["a=1".into()]));
}
