use luedd::backend::BackendConfig;
use luedd::cookies::{cookie_jar, ig_cookie_jar};
use luedd::instagram::{
    classify, ext_from_url, find_owner, item_filename, media_url, walk, MediaItem, Target,
};
use luedd::instaloader::{
    build_args, engine_plan, is_media, parse_counter_line, parse_version, produced_files, usable_version, Engine,
    EngineRun,
    RunLog,
};
use luedd::ig_run::{error_message, parse_ig_json, session_cookie, IgRun};
use luedd::backend::InstagramConfig;
use luedd::json::{parse_json, Json};

fn json(s: &str) -> Json {
    parse_json(s).unwrap()
}

#[test]
fn classify_recognises_content_urls() {
    assert!(matches!(classify("https://www.instagram.com/p/DcLwQy_idBc/"), Some(Target::Shortcode(_, false))));
    assert!(matches!(classify("https://instagram.com/reel/ABC123/"), Some(Target::Shortcode(_, true))));
    assert!(matches!(classify("https://www.instagram.com/tv/XYZ/"), Some(Target::Shortcode(_, false))));
    assert!(matches!(classify("https://www.instagram.com/stories/quynhingx/"), Some(Target::Stories(_))));
    assert!(matches!(classify("https://www.instagram.com/stories/highlights/1811234/"), Some(Target::Highlight(_))));
    assert!(matches!(classify("https://www.instagram.com/quynhingx/"), Some(Target::Profile(_))));
    // shortcode case is preserved
    assert!(matches!(classify("https://www.instagram.com/p/DcLwQy_idBc/"),
        Some(Target::Shortcode(c, _)) if c == "DcLwQy_idBc"));
    assert!(classify("https://www.instagram.com/explore/").is_none());
    assert!(classify("https://www.instagram.com/accounts/login/").is_none());
    assert!(classify("https://youtube.com/watch?v=x").is_none());
    assert!(classify("https://scontent.cdninstagram.com/v/x.mp4").is_none());
}

#[test]
fn walk_extracts_carousel_and_video() {
    let resp = json(
        r#"{
            "data": { "xdt_shortcode_media": {
                "id": "1", "shortcode": "AA", "is_video": false,
                "display_resources": [
                    { "src": "https://cdn/x_small.jpg", "config_width": 640 },
                    { "src": "https://cdn/x_big.jpg", "config_width": 1080 }
                ],
                "edge_sidecar_to_children": { "edges": [
                    { "node": { "id": "2", "is_video": true, "video_url": "https://cdn/v.mp4" } },
                    { "node": { "id": "3", "is_video": false, "display_url": "https://cdn/y.jpg" } }
                ]}
            }}
        }"#,
    );
    let mut out = Vec::new();
    let mut seen = Vec::new();
    walk(&resp, &mut out, &mut seen);
    // The container itself is passed over; only the two children are collected.
    assert_eq!(out.len(), 2);
    assert!(out.iter().any(|m| m.is_video && m.url == "https://cdn/v.mp4"));
    assert!(out.iter().any(|m| !m.is_video && m.url == "https://cdn/y.jpg"));
}

#[test]
fn walk_dedupes_by_id() {
    let resp = json(
        r#"[
            { "id": "9", "is_video": false, "display_url": "https://cdn/a.jpg" },
            { "id": "9", "is_video": false, "display_url": "https://cdn/a.jpg" }
        ]"#,
    );
    let mut out = Vec::new();
    let mut seen = Vec::new();
    walk(&resp, &mut out, &mut seen);
    assert_eq!(out.len(), 1);
}

#[test]
fn newer_shapes_image_and_video_versions() {
    let node = json(
        r#"{
            "media_type": 2,
            "video_versions": [ { "url": "https://cdn/lo.mp4", "width": 480 }, { "url": "https://cdn/hi.mp4", "width": 1080 } ],
            "image_versions2": { "candidates": [ { "url": "https://cdn/thumb.jpg", "width": 320 } ] }
        }"#,
    );
    let (url, is_video) = media_url(&node).unwrap();
    assert!(is_video);
    assert_eq!(url, "https://cdn/hi.mp4");
}

#[test]
fn owners_are_found_in_depth() {
    let resp = json(r#"{"data": {"items": [{"user": {"username": "quynhingx"}}]}}"#);
    assert_eq!(find_owner(&resp).as_deref(), Some("quynhingx"));
    assert_eq!(find_owner(&json(r#"{"data": 1}"#)), None);
}

#[test]
fn item_names_carry_the_code_and_the_extension() {
    assert_eq!(ext_from_url("https://cdn/a/b.JPG?x=1", false), "jpg");
    assert_eq!(ext_from_url("https://cdn/a/b", true), "mp4");
    let item = MediaItem {
        id: "1".into(),
        url: "https://cdn/v.mp4".into(),
        is_video: true,
        timestamp: None,
        shortcode: None,
    };
    assert_eq!(item_filename(&item, 0), "1.mp4");
}

#[test]
fn error_answers_are_told() {
    assert!(parse_ig_json("<html>").is_err());
    let v = json(r#"{"message": "login_required", "status": "fail"}"#);
    assert!(error_message(&v).contains("login_required"));
}

#[test]
fn given_cookies_come_before_configured_ones() {
    let given = Some("sessionid=a".to_string());
    let configured = Some("sessionid=b".to_string());
    assert_eq!(session_cookie(&given, &configured).as_deref(), Some("sessionid=a"));
    assert_eq!(session_cookie(&None, &configured).as_deref(), Some("sessionid=b"));
}

#[test]
fn runs_refuse_other_pages() {
    let cfg = InstagramConfig::default();
    assert!(IgRun::start("https://example.com/", &None, &cfg).is_err());
}

#[test]
fn parse_version_reads_either_stream() {
    assert_eq!(parse_version("instaloader 4.14.1"), Some((4, 14)));
    assert_eq!(parse_version("Instaloader\n4.9\n"), Some((4, 9)));
    assert_eq!(parse_version("no version here"), None);
}

#[test]
fn versions_from_four_eleven_are_usable() {
    assert!(usable_version((4, 11)));
    assert!(usable_version((5, 0)));
    assert!(!usable_version((4, 10)));
}

#[test]
fn parse_counter_line_reads_progress() {
    assert_eq!(parse_counter_line("[  3/ 45] https://scontent..."), Some((3, 45)));
    assert_eq!(parse_counter_line("[ 45/ 45]"), Some((45, 45)));
    assert_eq!(parse_counter_line("Retrieving posts from profile x."), None);
}

#[test]
fn write_ig_cookie_file_keeps_only_session_cookies() {
    let big = "datr=junk; sessionid=ABC%3A123; rur=EAG; csrftoken=TOK; ds_user_id=42; ig_nrcb=1";
    let body = ig_cookie_jar(big).expect("some cookies kept");
    assert!(body.starts_with("# Netscape HTTP Cookie File"));
    assert!(body.contains("\tsessionid\tABC%3A123"));
    assert!(body.contains("\tcsrftoken\tTOK"));
    assert!(body.contains("\tds_user_id\t42"));
    assert!(!body.contains("datr"));
    assert!(!body.contains("rur"));
}

#[test]
fn cookie_jars_without_cookies_are_not_written() {
    assert_eq!(ig_cookie_jar("datr=junk"), None);
    assert_eq!(cookie_jar("", "https://www.youtube.com/watch?v=x"), None);
}

#[test]
fn build_args_shapes_per_target() {
    let dir = "/dl/quynhingx";

    let a = build_args(&Target::Shortcode("Abc123".into(), false), dir, None, &vec![]);
    assert!(a.windows(2).any(|w| w[0] == "--dirname-pattern" && w[1] == "/dl/quynhingx"));
    assert_eq!(a.last().unwrap(), "-Abc123");
    assert_eq!(a[a.len() - 2], "--");

    let p = build_args(&Target::Profile("quynhingx".into()), dir, None, &vec![]);
    assert_eq!(p.last().unwrap(), "quynhingx");

    let s = build_args(&Target::Stories("quynhingx".into()), dir, Some("/tmp/c.txt"), &vec![]);
    assert!(s.contains(&"--stories".to_string()));
    assert!(s.contains(&"--no-posts".to_string()));
    assert!(s.windows(2).any(|w| w[0] == "--load-cookies" && w[1] == "/tmp/c.txt"));

    let py = build_args(&Target::Profile("x".into()), dir, None, &vec!["-m".into(), "instaloader".into()]);
    assert_eq!(&py[..2], &["-m".to_string(), "instaloader".to_string()]);
}

#[test]
fn highlight_always_uses_custom_engine() {
    let mut cfg = BackendConfig::default();
    cfg.instagram_engine_main = Some("instaloader".to_string());
    cfg.instagram_engine_fallback = Some("instaloader".to_string());
    assert_eq!(engine_plan(&cfg, &Target::Highlight("123".into())), vec![Engine::Custom]);
}

#[test]
fn unset_plan_is_custom_only() {
    let cfg = BackendConfig::default();
    assert_eq!(
        engine_plan(&cfg, &Target::Shortcode("abc".into(), false)),
        vec![Engine::Custom]
    );
}

#[test]
fn main_and_distinct_fallback_are_ordered() {
    let cfg = BackendConfig {
        instagram_engine_main: Some("instaloader".into()),
        instagram_engine_fallback: Some("custom".into()),
        ..Default::default()
    };
    assert_eq!(
        engine_plan(&cfg, &Target::Profile("x".into())),
        vec![Engine::Instaloader, Engine::Custom]
    );
}

#[test]
fn fallback_equal_to_main_is_dropped() {
    let cfg = BackendConfig {
        instagram_engine_main: Some("instaloader".into()),
        instagram_engine_fallback: Some("instaloader".into()),
        ..Default::default()
    };
    assert_eq!(engine_plan(&cfg, &Target::Profile("x".into())), vec![Engine::Instaloader]);
}

#[test]
fn engines_are_tried_in_turn() {
    let cfg = BackendConfig {
        instagram_engine_main: Some("instaloader".into()),
        instagram_engine_fallback: Some("custom".into()),
        ..BackendConfig::default()
    };
    let mut run = EngineRun::begin(&cfg, &Target::Profile("x".into()));
    assert_eq!(run.engine(), Some(Engine::Instaloader));
    assert!(run.failed());
    assert_eq!(run.engine(), Some(Engine::Custom));
    assert!(!run.failed());
    assert_eq!(run.engine(), None);
    assert!(!run.failed());
}

#[test]
fn new_media_files_are_the_output() {
    assert!(is_media("/dl/a.JPG"));
    assert!(!is_media("/dl/a.json"));
    let before = vec!["/dl/old.jpg".to_string()];
    let now = vec!["/dl/old.jpg".to_string(), "/dl/b.mp4".to_string(), "/dl/a.jpg".to_string(), "/dl/a.txt".to_string()];
    assert_eq!(produced_files(&before, &now), vec!["/dl/a.jpg".to_string(), "/dl/b.mp4".to_string()]);
}

#[test]
fn failed_runs_tell_their_last_lines() {
    let mut log = RunLog::new();
    assert!(log.line("[  3/ 45] https://scontent...").is_some());
    assert!(log.line("JSON Query to graphql/query: 401 Unauthorized").is_none());
    assert!(log.failure().contains("401 Unauthorized"));
}
