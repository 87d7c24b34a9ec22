use luedd::detections::to_video_list_item;
use luedd::native_host::{manifest, HOST_NAME};
use luedd::net::{describe_sent_headers, RequestContext};
use luedd::panel::Panel;
use luedd::scheduler::should_run;
use luedd::store::{DownloadQueueDef, DownloadSchedule};

/// Whether a queue with the schedule runs, which the schedule alone must tell too.
fn runs_at(s: DownloadSchedule, minutes: u32) -> bool {
    let queue = DownloadQueueDef { id: "q".into(), name: "q".into(), entry_ids: vec![], schedule: Some(s) };
    let active = s.is_active_at(minutes);
    assert_eq!(should_run(&vec![queue], minutes), active);
    active
}

#[test]
fn schedule_window_same_day() {
    let s = DownloadSchedule { start_minutes: 8 * 60, end_minutes: 17 * 60 };
    assert!(!runs_at(s, 7 * 60 + 59));
    assert!(runs_at(s, 8 * 60));
    assert!(runs_at(s, 16 * 60 + 59));
    assert!(!runs_at(s, 17 * 60));
}

#[test]
fn schedule_window_wraps_midnight() {
    let s = DownloadSchedule { start_minutes: 23 * 60, end_minutes: 6 * 60 };
    assert!(runs_at(s, 23 * 60 + 30));
    assert!(runs_at(s, 0));
    assert!(runs_at(s, 5 * 60 + 59));
    assert!(!runs_at(s, 6 * 60));
    assert!(!runs_at(s, 12 * 60));
}

#[test]
fn video_list_item_shows_a_filename_not_the_raw_link_in_info() {
    let item = to_video_list_item(
        "v1",
        "https://cdn.example/abc123.mp4?token=secret",
        None,
        Some("My Cool Video"),
        Some("https://site.example/watch?v=1"),
        false,
        false,
        "",
        None,
    );
    assert_eq!(item.id, "v1");
    assert_eq!(item.info, "My Cool Video.mp4");
    assert_eq!(item.url, "https://cdn.example/abc123.mp4?token=secret");
    assert_eq!(item.page_url.as_deref(), Some("https://site.example/watch?v=1"));
}

#[test]
fn video_list_item_falls_back_to_url_derived_name_without_a_title() {
    let item = to_video_list_item("v1", "https://cdn.example/movie.mkv", None, None, None, false, false, "", None);
    assert_eq!(item.info, "movie.mkv");
    assert_eq!(item.page_url, None);
}

#[test]
fn default_media_exts_cover_hls_and_dash_manifests() {
    let r = Panel::new().response(None);
    assert!(r.request_file_exts.contains(&".M3U8".to_string()));
    assert!(r.request_file_exts.contains(&".MPD".to_string()));
}

#[test]
fn default_media_exts_and_types_cover_documents_and_images() {
    let r = Panel::new().response(None);
    assert!(r.request_file_exts.contains(&".PDF".to_string()));
    assert!(r.request_file_exts.contains(&".JPG".to_string()));
    assert!(r.request_file_exts.contains(&".PNG".to_string()));
    assert!(r.media_types.contains(&"application/pdf".to_string()));
    assert!(r.media_types.contains(&"image/".to_string()));
}

#[test]
fn describe_sent_headers_reports_none_captured_with_emulation_hint_when_nothing_captured() {
    let opts = RequestContext::default().to_options(None);
    assert_eq!(
        describe_sent_headers(&opts),
        "sent headers: none captured (no Referer/Cookie were captured for this download; a Chrome-emulation default User-Agent still applies)"
    );
}

#[test]
fn builds_chrome_style_manifest() {
    let m = manifest("C:/tidm/tidm-nmhost.exe", Some("abcdefgh"), None);
    assert_eq!(m.str_at("name").map(|s| s.as_str()), Some(HOST_NAME));
    assert_eq!(m.str_at("type").map(|s| s.as_str()), Some("stdio"));
    assert_eq!(m.str_at("path").map(|s| s.as_str()), Some("C:/tidm/tidm-nmhost.exe"));
    let origins = m.get("allowed_origins").and_then(|v| v.as_array()).unwrap();
    assert_eq!(origins[0].as_str().map(|s| s.as_str()), Some("chrome-extension://abcdefgh/"));
    assert!(m.get("allowed_extensions").is_none());
}

#[test]
fn builds_firefox_style_manifest() {
    let m = manifest("/usr/local/bin/tidm-nmhost", None, Some("tidm@example.com"));
    let extensions = m.get("allowed_extensions").and_then(|v| v.as_array()).unwrap();
    assert_eq!(extensions[0].as_str().map(|s| s.as_str()), Some("tidm@example.com"));
    assert!(m.get("allowed_origins").is_none());
}
