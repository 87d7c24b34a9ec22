use luedd::backend::{dest_for, BackendConfig, DownloadReq, InstagramConfig, Outcome};
use luedd::cookies::cookie_jar;
use luedd::entry::{DownloadEntry, DownloadStatus};
use luedd::hls::{HlsMediaSegment, HlsPlaylist};
use luedd::ig_library::{IgCaught, IgLibrary};
use luedd::ig_run::{IgPlan, IgRun, ThumbStage, ThumbStep, USER_AGENT};
use luedd::instagram::classify;
use luedd::instaloader::{bundled_candidates, pick_cookie, resolved_program, version_status, Availability};
use luedd::jobs::{kind_with_extension, DownloadKind};
use luedd::json::parse_json;
use luedd::listing::{resolve_of, video_meta, VideoMeta};
use luedd::net::{report_converting, JobEvent, RequestContext};
use luedd::panel::Panel;
use luedd::preview::{file_frame_args, Preview, PreviewKind, PreviewRun, PreviewStep};
use luedd::queueing::{probe_req, QueueRequest};
use luedd::registry::{Backend, BackendRegistry};
use luedd::scheduler::auto_retry_due_entries;
use luedd::social::{query_options, IG_APP_ID};
use luedd::store::{DownloadQueueDef, DownloadSchedule, DownloadStore};
use luedd::streams::{
    dash_files, hls_files, opening_segments, picture_payload, picture_playlist, segment_file, segment_part,
};
use luedd::strmap::StrMap;
use luedd::torrent::{progress_event, waiting_event, TorrentStats};
use luedd::viewer::caught_of;
use luedd::ytdlp_run::{exit_message, nothing_left, places, YtdlpRun};

fn request(url: &str, hint: Option<&str>) -> DownloadReq {
    DownloadReq {
        url: url.to_string(),
        dest_dir: "/out".to_string(),
        filename_hint: hint.map(str::to_string),
        ctx: RequestContext::default(),
        quality: None,
        extras: StrMap::new(),
        concurrency: 4,
        config: BackendConfig::default(),
    }
}

fn queue_request(url: &str) -> QueueRequest {
    let mut headers = StrMap::new();
    headers.insert("Referer".to_string(), "https://page.example/".to_string());
    QueueRequest {
        url: url.to_string(),
        filename_hint: None,
        title_hint: None,
        headers,
        cookie: Some("a=1".to_string()),
        quality: Some("720p".to_string()),
        extras: StrMap::new(),
        preview: None,
    }
}

// ---------------------------------------------------------------------------
// Destinations and outcomes
// ---------------------------------------------------------------------------

#[test]
fn downloads_without_a_name_get_one() {
    assert_eq!(dest_for(&request("https://x/y", None), DownloadKind::Http), "/out/download");
    assert_eq!(dest_for(&request("https://x/y", Some("clip.m3u8")), DownloadKind::Hls), "/out/clip.mp4");
}

#[test]
fn single_outcomes_hold_one_file() {
    let o = Outcome::single("/out/a.mp4".to_string());
    assert_eq!(o.files, vec!["/out/a.mp4".to_string()]);
    assert!(o.meta.author.is_none());
    assert!(o.meta.out_dir.is_none());
    assert!(o.expected_units.is_none());
}

#[test]
fn content_tells_playlists_apart() {
    assert_eq!(kind_with_extension(DownloadKind::Http, Some("m3u8")), DownloadKind::Hls);
    assert_eq!(kind_with_extension(DownloadKind::Http, Some("mpd")), DownloadKind::Dash);
    assert_eq!(kind_with_extension(DownloadKind::Http, Some("mp4")), DownloadKind::Http);
    assert_eq!(kind_with_extension(DownloadKind::Dash, None), DownloadKind::Dash);
}

#[test]
fn requests_for_a_description_take_the_destination_apart() {
    let r = queue_request("https://x/y").describe_request("/out/host/clip.mp4", BackendConfig::default());
    assert_eq!(r.dest_dir, "/out/host");
    assert_eq!(r.filename_hint.as_deref(), Some("clip.mp4"));
    assert_eq!(r.ctx.headers.get("Referer").map(String::as_str), Some("https://page.example/"));
    assert_eq!(r.ctx.cookie.as_deref(), Some("a=1"));
    assert_eq!(r.quality.as_deref(), Some("720p"));
    assert_eq!(r.concurrency, 1);
}

#[test]
fn probes_have_no_destination() {
    let r = probe_req("https://x/y".to_string(), RequestContext::default(), BackendConfig::default());
    assert_eq!(r.url, "https://x/y");
    assert_eq!(r.dest_dir, ".");
    assert!(r.filename_hint.is_none());
    assert_eq!(r.extras.len(), 0);
    assert_eq!(r.concurrency, 1);
}

#[test]
fn only_one_backend_is_for_torrents() {
    assert!(Backend::Torrent.is_torrent());
    assert!(!Backend::Http.is_torrent());
    assert!(!Backend::Ytdlp.is_torrent());
}

// ---------------------------------------------------------------------------
// yt-dlp
// ---------------------------------------------------------------------------

#[test]
fn downloads_are_tried_again_and_lose_their_cookies_last() {
    let mut run = YtdlpRun::new(&request("https://youtu.be/abc", Some("My Clip.mp4")), Some("/tmp/jar.txt"));
    assert_eq!(run.stem, "My Clip");
    assert!(run.args.contains(&"/out/My Clip.%(ext)s".to_string()));
    assert!(run.args.contains(&"bv*+ba/b".to_string()));
    assert_eq!(run.args.last().unwrap(), "https://youtu.be/abc");
    assert_eq!(run.failed("Connection reset by peer"), Some(5));
    assert!(run.args.contains(&"--cookies".to_string()));
    assert_eq!(run.failed("HTTP Error 503"), Some(10));
    assert!(run.args.contains(&"/tmp/jar.txt".to_string()));
    assert_eq!(run.failed("timed out"), Some(15));
    assert!(!run.args.contains(&"--cookies".to_string()));
    assert!(!run.args.contains(&"/tmp/jar.txt".to_string()));
    assert_eq!(run.failed("timed out"), None);
    assert_eq!(run.failures, 3);
}

#[test]
fn lasting_failures_are_not_tried_again() {
    let mut run = YtdlpRun::new(&request("https://youtu.be/abc", None), None);
    assert_eq!(run.stem, "video");
    assert_eq!(run.failed("Video unavailable"), None);
    assert_eq!(run.failures, 0);
}

#[test]
fn bad_ends_tell_the_last_line() {
    assert_eq!(exit_message("exit status: 1", "WARNING: x\nERROR: y  \n"), "yt-dlp exited with exit status: 1: ERROR: y");
    assert_eq!(exit_message("exit status: 2", ""), "yt-dlp exited with exit status: 2: ");
}

#[test]
fn files_are_looked_for_where_they_were_printed_first() {
    let found = places(Some("/out/real.mkv".to_string()), "/out", "clip");
    assert_eq!(found[0], "/out/real.mkv");
    assert_eq!(found[1], "/out/clip.mp4");
    assert_eq!(found.len(), 8);
    assert_eq!(places(None, "/out", "clip")[6], "/out/clip.ogg");
    assert_eq!(nothing_left("clip"), "yt-dlp finished but no output file was found for clip.*");
}

#[test]
fn cookie_files_hold_at_most_twenty_cookies() {
    let header: Vec<String> = (0..30).map(|i| format!("name{i}=v{i}")).collect();
    let jar = cookie_jar(&header.join("; "), "https://www.example.com/watch").unwrap();
    assert_eq!(jar.lines().count(), 21);
    assert!(jar.contains(".example.com\tTRUE\t/\tTRUE\t2000000000\tname19\tv19\n"));
    assert!(!jar.contains("name20"));
    let long = format!("a={}; b={}; c=1", "x".repeat(801), "y".repeat(800));
    let jar = cookie_jar(&long, "https://example.com/").unwrap();
    assert_eq!(jar.lines().count(), 3);
}

// ---------------------------------------------------------------------------
// instaloader and Instagram
// ---------------------------------------------------------------------------

#[test]
fn bundled_programs_are_looked_for_beside_the_program() {
    assert_eq!(
        bundled_candidates("/app", "tool.exe", "tool"),
        vec!["/app/bin/tool.exe", "/app/tool.exe", "/app/bin/tool", "/app/tool"]
    );
}

#[test]
fn programs_are_shown_as_they_are_run() {
    let mut cfg = BackendConfig::default();
    assert_eq!(resolved_program(&cfg, &None), "instaloader");
    cfg.python_path = Some("/usr/bin/python3".to_string());
    assert_eq!(resolved_program(&cfg, &None), "/usr/bin/python3 -m instaloader");
    assert_eq!(resolved_program(&cfg, &Some("/app/instaloader".to_string())), "/app/instaloader");
    cfg.instaloader_path = Some("/opt/il".to_string());
    assert_eq!(resolved_program(&cfg, &Some("/app/instaloader".to_string())), "/opt/il");
}

#[test]
fn cookies_without_a_session_are_not_logged_in_with() {
    let configured = Some("sessionid=own".to_string());
    assert_eq!(pick_cookie(&Some("sessionid=x".to_string()), &configured).as_deref(), Some("sessionid=x"));
    assert_eq!(pick_cookie(&Some("mid=x".to_string()), &configured).as_deref(), Some("sessionid=own"));
    assert_eq!(pick_cookie(&None, &None), None);
}

#[test]
fn versions_are_shown_though_they_are_too_old() {
    assert_eq!(version_status(Some("instaloader 4.14.1")), (true, Some("4.14".to_string())));
    assert_eq!(version_status(Some("4.10.3")), (false, Some("4.10".to_string())));
    assert_eq!(version_status(Some("command not found")), (false, None));
    assert_eq!(version_status(None), (false, None));
}

#[test]
fn versions_are_asked_for_once_a_minute() {
    let mut found = Availability::new();
    assert_eq!(found.known(5), None);
    found.keep(true, 5);
    assert_eq!(found.known(64), Some(true));
    assert_eq!(found.known(65), None);
    found.keep(false, 70);
    assert_eq!(found.known(71), Some(false));
}

#[test]
fn failed_look_ups_name_the_account() {
    let cookie = Some("sessionid=1".to_string());
    let (run, ask) =
        IgRun::start("https://www.instagram.com/stories/alice/", &cookie, &InstagramConfig::default()).unwrap();
    assert_eq!(
        run.request_failure(ask.failure, "status 500"),
        "Instagram: could not resolve a user id for @alice (stale cookie?)"
    );
    let (run, ask) =
        IgRun::start("https://www.instagram.com/p/ABC123/", &cookie, &InstagramConfig::default()).unwrap();
    assert_eq!(run.request_failure(ask.failure, "status 500"), format!("{}: status 500", ask.failure));
    let ctx = run.media_context();
    assert_eq!(ctx.headers.get("User-Agent").map(String::as_str), Some(USER_AGENT));
    assert_eq!(ctx.headers.get("Referer").map(String::as_str), Some("https://www.instagram.com/"));
    assert_eq!(ctx.cookie.as_deref(), Some("sessionid=1"));
}

#[test]
fn profile_pictures_come_before_the_newest_post() {
    let plan =
        IgPlan::of(classify("https://www.instagram.com/alice/").unwrap(), &None, &InstagramConfig::default());
    let ThumbStep::Ask(stage, _) = plan.thumbnail() else { panic!("asks for the account first") };
    assert_eq!(stage, ThumbStage::Account);
    let answer =
        parse_json(r#"{"data":{"user":{"id":"1","profile_pic_url":"https://cdn.example/pic.jpg"}}}"#).unwrap();
    match plan.thumbnail_after(stage, Some(&answer)) {
        ThumbStep::Found(found) => assert_eq!(found, Some(("https://cdn.example/pic.jpg".to_string(), true))),
        ThumbStep::Ask(_, _) => panic!("the picture is there"),
    }
    match plan.thumbnail_after(ThumbStage::Account, None) {
        ThumbStep::Ask(stage, _) => assert_eq!(stage, ThumbStage::Images),
        ThumbStep::Found(_) => panic!("the timeline is asked for next"),
    }
}

#[test]
fn stories_without_a_session_have_no_thumbnail() {
    let target = classify("https://www.instagram.com/stories/alice/").unwrap();
    let plan = IgPlan::of(target, &None, &InstagramConfig::default());
    assert!(matches!(plan.thumbnail(), ThumbStep::Found(None)));
}

#[test]
fn post_queries_carry_the_app_and_a_referer() {
    let mut headers = StrMap::new();
    headers.insert("accept".to_string(), "*/*".to_string());
    let opts = query_options(&RequestContext { headers, cookie: Some("c".to_string()) });
    assert_eq!(opts.headers.get("x-ig-app-id").map(String::as_str), Some(IG_APP_ID));
    assert_eq!(opts.headers.get("referer").map(String::as_str), Some("https://www.instagram.com/"));
    assert_eq!(opts.headers.get("accept").map(String::as_str), Some("*/*"));
    assert_eq!(opts.cookies.as_deref(), Some("c"));
    let mut own = StrMap::new();
    own.insert("referer".to_string(), "https://own.example/".to_string());
    let opts = query_options(&RequestContext { headers: own, cookie: None });
    assert_eq!(opts.headers.get("referer").map(String::as_str), Some("https://own.example/"));
}

// ---------------------------------------------------------------------------
// Streams
// ---------------------------------------------------------------------------

#[test]
fn tracks_have_files_of_their_own() {
    let two = hls_files("/c", true);
    assert_eq!(two.track.file, "/c/video.ts");
    assert_eq!(two.track.segments, "/c/video-segments");
    let audio = two.audio.unwrap();
    assert_eq!(audio.file, "/c/audio.ts");
    assert_eq!(audio.segments, "/c/audio-segments");
    assert_eq!(two.output, "/c/output.mp4");
    let one = hls_files("/c", false);
    assert_eq!(one.track.file, "/c/assembled.ts");
    assert_eq!(one.track.segments, "/c/segments");
    assert!(one.audio.is_none());
    assert_eq!(dash_files("/c", true, true).track.file, "/c/video.m4s");
    assert_eq!(dash_files("/c", true, true).audio.unwrap().segments, "/c/audio-segments");
    assert_eq!(dash_files("/c", true, false).track.segments, "/c/segments");
    assert_eq!(dash_files("/c", false, true).track.file, "/c/audio.m4s");
}

#[test]
fn unfinished_segments_are_named_apart() {
    assert_eq!(segment_part("/c/segments/3.seg"), "/c/segments/3.seg.part");
    assert_ne!(segment_part(&segment_file("/c", 1)), segment_file("/c", 1));
    assert_ne!(segment_file("/c", 1), segment_file("/c", 2));
}

fn segment(init: bool, key: Option<&str>) -> HlsMediaSegment {
    HlsMediaSegment {
        url: "https://x/s.ts".to_string(),
        byte_range: None,
        duration: "4".to_string(),
        key_url: key.map(str::to_string),
        iv: None,
        is_init_segment: init,
    }
}

#[test]
fn pictures_are_made_from_the_first_segment() {
    let master = "#EXTM3U\n#EXT-X-STREAM-INF:BANDWIDTH=900\nhigh.m3u8\n#EXT-X-STREAM-INF:BANDWIDTH=100\nlow.m3u8\n";
    assert_eq!(picture_playlist(master, "https://x/m.m3u8"), Some(Some("https://x/low.m3u8".to_string())));
    let media = "#EXTM3U\n#EXTINF:4,\na.ts\n";
    assert_eq!(picture_playlist(media, "https://x/m.m3u8"), Some(None));
    let mut playlist = HlsPlaylist {
        media_segments: vec![segment(true, None), segment(false, None), segment(false, None)],
        is_encrypted: false,
        has_byte_range: false,
        is_key_i_frame_only: false,
    };
    assert_eq!(opening_segments(&playlist), 2);
    playlist.media_segments.clear();
    assert_eq!(opening_segments(&playlist), 0);
    assert_eq!(picture_payload(b"plain", &segment(false, None), None), Some(b"plain".to_vec()));
}

// ---------------------------------------------------------------------------
// The panel and the viewer
// ---------------------------------------------------------------------------

#[test]
fn syncing_names_the_hosts_and_the_providers() {
    let mut registry = BackendRegistry::with_builtins();
    registry.register(Backend::Instagram);
    let r = Panel::new().sync(&registry, "build-7".to_string());
    assert!(r.enabled);
    assert_eq!(r.server_build, "build-7");
    assert_eq!(r.page_hosts, vec!["instagram.com".to_string()]);
    assert!(r.providers.contains(&"Lüdd-Insta".to_string()));
    assert!(r.video_list.is_empty());
    assert!(r.new_detection.is_none());
}

#[test]
fn previews_are_shown_with_their_kind() {
    let panel = Panel::new();
    let shown = panel.preview_response(Some(Preview { data_url: "data:x".to_string(), kind: PreviewKind::Square }));
    assert_eq!(shown.preview_data_url.as_deref(), Some("data:x"));
    assert_eq!(shown.preview_kind.as_deref(), Some("square"));
    let none = panel.preview_response(None);
    assert!(none.preview_data_url.is_none());
    assert!(none.preview_kind.is_none());
}

#[test]
fn refused_media_are_told() {
    let mut run = PreviewRun::begin("https://x/clip.mp4", None);
    run.step = PreviewStep::RequestWhole;
    run.requested(Some(403));
    assert_eq!(run.trouble.as_deref(), Some("media host returned HTTP 403"));
    assert!(matches!(run.step, PreviewStep::OpenAddress));
    run.step = PreviewStep::RequestWhole;
    run.requested(Some(200));
    assert!(matches!(run.step, PreviewStep::ReadWhole));
    run.step = PreviewStep::RequestWhole;
    run.requested(None);
    assert_eq!(run.trouble.as_deref(), Some("couldn't download the media for a thumbnail"));
}

#[test]
fn one_frame_is_written_to_the_pipe() {
    let args = file_frame_args("/tmp/a.bin");
    let at = args.iter().position(|a| a == "-i").unwrap();
    assert_eq!(args[at + 1], "/tmp/a.bin");
    assert_eq!(args.last().unwrap(), "pipe:1");
    assert!(args.contains(&"scale='min(400,iw)':-2".to_string()));
}

#[test]
fn catches_are_found_whatever_the_case() {
    let mut lib = IgLibrary::new();
    let caught =
        IgCaught { kind: "story".to_string(), key: String::new(), url: "https://u".to_string(), seen: 5 };
    lib.record(Some("Alice"), caught, 5);
    assert_eq!(caught_of(&lib, "ALICE").unwrap().len(), 1);
    assert!(caught_of(&lib, "bob").is_none());
}

#[test]
fn videos_without_a_channel_id_are_filed_under_their_address() {
    let meta = VideoMeta {
        id: "v1".to_string(),
        title: "T".to_string(),
        channel: None,
        channel_id: Some(String::new()),
        channel_url: Some("https://youtube.com/@a-b".to_string()),
        uploader: None,
        thumbnail: None,
        duration: Some(61),
        upload_date: None,
        view_count: Some(3),
    };
    let r = resolve_of(&meta, "https://youtube.com/watch?v=v1");
    assert_eq!(r.channel_key, "httpsyoutubecomab");
    assert_eq!(r.channel_name, "");
    assert_eq!(r.video_id, "v1");
    assert_eq!(r.duration, Some(61));
    assert!(r.avatar_url.is_none());
}

// ---------------------------------------------------------------------------
// Queues and events
// ---------------------------------------------------------------------------

#[test]
fn queues_are_listed_in_order() {
    let mut store = DownloadStore::new(Vec::new(), Vec::new());
    for name in ["night", "day"] {
        store.add_queue(DownloadQueueDef {
            id: name.to_string(),
            name: name.to_string(),
            entry_ids: Vec::new(),
            schedule: Some(DownloadSchedule { start_minutes: 0, end_minutes: 60 }),
        });
    }
    let names: Vec<&str> = store.list_queues().iter().map(|q| q.name.as_str()).collect();
    assert_eq!(names, vec!["night", "day"]);
}

#[test]
fn sweeps_leave_what_is_not_due() {
    let entry = |id: &str, at: Option<i64>, count: u32| {
        let e = DownloadEntry::with_id(
            id.to_string(),
            1,
            "https://x/f".to_string(),
            "/out/f".to_string(),
            DownloadKind::Http,
        );
        let mut e = e.fail("no route".to_string(), at);
        e.retry_count = count;
        e
    };
    let entries = vec![entry("due", Some(50), 1), entry("later", Some(51), 0), entry("spent", Some(10), 3)];
    let mut store = DownloadStore::new(entries, Vec::new());
    assert!(auto_retry_due_entries(&mut store, 50));
    let due = store.get_entry("due").unwrap();
    assert_eq!((due.status, due.retry_count), (DownloadStatus::Queued, 2));
    assert!(due.error.is_none());
    let later = store.get_entry("later").unwrap();
    assert_eq!((later.status, later.retry_count), (DownloadStatus::Failed, 0));
    assert_eq!(store.get_entry("spent").unwrap().status, DownloadStatus::Failed);
    assert!(!auto_retry_due_entries(&mut store, 50));
}

#[test]
fn torrents_tell_what_came() {
    assert_eq!(
        waiting_event(),
        JobEvent::Progress { downloaded_bytes: 0, total_bytes: None, done_units: 0, total_units: 0, speed_bps: 0 }
    );
    assert_eq!(report_converting(), JobEvent::Converting);
}

#[test]
fn torrent_progress_has_no_total_before_the_metadata() {
    let mut stats = TorrentStats {
        state: "live".to_string(),
        error: None,
        progress_bytes: 7,
        total_bytes: 0,
        uploaded_bytes: 0,
        finished: false,
        download_speed: 99,
        upload_speed: 0,
        live_peers: 1,
    };
    assert_eq!(
        progress_event(&stats),
        JobEvent::Progress { downloaded_bytes: 7, total_bytes: None, done_units: 0, total_units: 0, speed_bps: 99 }
    );
    stats.total_bytes = 10;
    match progress_event(&stats) {
        JobEvent::Progress { total_bytes, .. } => assert_eq!(total_bytes, Some(10)),
        JobEvent::Converting => panic!("a torrent is not converted"),
    }
}

#[test]
fn descriptions_tell_what_is_filed() {
    let info = parse_json(r#"{"id":"v1","channel":"C","duration":12,"view_count":3.5,"title":null}"#).unwrap();
    let meta = video_meta(&info);
    assert_eq!(meta.id, "v1");
    assert_eq!(meta.title, "");
    assert_eq!(meta.channel.as_deref(), Some("C"));
    assert_eq!(meta.channel_id, None);
    assert_eq!(meta.duration, Some(12));
    assert_eq!(meta.view_count, None);
}
