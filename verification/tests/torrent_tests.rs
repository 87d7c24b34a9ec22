use luedd::backend::{BackendConfig, Confidence, DownloadReq, TorrentConfig};
use luedd::net::RequestContext;
use luedd::strmap::StrMap;
use luedd::torrent::{
    can_handle, display_name, display_name_with, final_event, is_remote_torrent, kbps_to_bps, keeps_seeding, metadata_step,
    output_files, output_folder, parse_file_selection, preview, sanitize, session_plan, to_stat, try_display_name,
    MetadataStep, TorrentStats,
};

use luedd::torrent_run::{
    build_torrent_detail, preview_of, Added, TorrentContents, TorrentIndex, TorrentRun, TorrentStep,
};

#[test]
fn can_handle_matrix() {
    assert_eq!(can_handle("magnet:?xt=urn:btih:abc"), Confidence::Certain);
    assert_eq!(can_handle("https://example.com/foo.torrent"), Confidence::Strong);
    assert_eq!(can_handle("https://example.com/foo.torrent?x=1"), Confidence::Strong);
    assert_eq!(can_handle("C:\\dl\\Ubuntu.TORRENT"), Confidence::Strong);
    assert_eq!(can_handle("https://example.com/video.mp4"), Confidence::No);
}

#[test]
fn magnet_display_name() {
    const IH: &str = "deadbeefdeadbeefdeadbeefdeadbeefdeadbeef";
    assert_eq!(
        display_name(&format!("magnet:?xt=urn:btih:{IH}&dn=Debian+ISO")),
        "Debian ISO"
    );
    assert_eq!(display_name(&format!("magnet:?xt=urn:btih:{IH}")), "torrent");
}

#[test]
fn magnet_names_are_tried_first() {
    const IH: &str = "deadbeefdeadbeefdeadbeefdeadbeefdeadbeef";
    assert_eq!(try_display_name(&format!("magnet:?xt=urn:btih:{IH}&dn=A%2FB")).as_deref(), Some("A/B"));
    assert_eq!(display_name_with("magnet:?xt=x", Some("x:y".into())), "x:y");
    assert_eq!(display_name_with("magnet:?xt=x", None), "torrent");
}

#[test]
fn torrent_file_display_name() {
    assert_eq!(
        display_name("https://x.org/path/Big-Buck-Bunny.torrent"),
        "Big-Buck-Bunny"
    );
    assert_eq!(display_name("/home/u/My Linux.torrent"), "My Linux");
}

#[test]
fn sanitize_strips_separators() {
    assert_eq!(sanitize("a/b:c*d?"), "a_b_c_d_");
    assert_eq!(sanitize("   "), "torrent");
    assert_eq!(sanitize("..hidden.."), "hidden");
}

#[test]
fn kbps_conversion() {
    assert_eq!(kbps_to_bps(None), None);
    assert_eq!(kbps_to_bps(Some(0)), None);
    assert_eq!(kbps_to_bps(Some(100)).unwrap(), 102_400);
}

#[test]
fn file_selection_parsing() {
    assert_eq!(parse_file_selection(None), None);
    assert_eq!(parse_file_selection(Some(&String::new())), None);
    assert_eq!(parse_file_selection(Some(&"  ".to_string())), None);
    assert_eq!(
        parse_file_selection(Some(&"0, 2 ,5".to_string())),
        Some(vec![0, 2, 5])
    );
    assert_eq!(
        parse_file_selection(Some(&"1,bad,3".to_string())),
        Some(vec![1, 3])
    );
}

fn stats(state: &str) -> TorrentStats {
    TorrentStats {
        state: state.into(),
        error: None,
        progress_bytes: 40,
        total_bytes: 100,
        uploaded_bytes: 7,
        finished: false,
        download_speed: 20,
        upload_speed: 3,
        live_peers: 2,
    }
}

#[test]
fn remote_torrents_have_a_scheme() {
    assert!(is_remote_torrent("https://example.com/foo.torrent"));
    assert!(is_remote_torrent("magnet:?xt=urn:btih:abc"));
    assert!(!is_remote_torrent("/home/u/My Linux.torrent"));
}

#[test]
fn metadata_is_awaited_until_it_is_there() {
    let mut s = stats("live");
    assert_eq!(metadata_step(&s), MetadataStep::Ready);
    s.total_bytes = 0;
    assert_eq!(metadata_step(&s), MetadataStep::Wait);
    s.error = Some("no peers".into());
    assert!(matches!(metadata_step(&s), MetadataStep::Fail(_)));
}

#[test]
fn running_torrents_tell_how_long_they_take() {
    let st = to_stat("magnet:?xt=x".into(), "x".into(), &stats("live"));
    assert_eq!(st.state, "downloading");
    assert_eq!(st.eta_secs, Some(3));
    assert_eq!(st.peers, 2);
}

#[test]
fn only_chosen_files_are_the_output() {
    let names = vec!["a.txt".to_string(), "d/b.txt".to_string()];
    assert_eq!(output_files("/dl/x", &names, &None), vec!["/dl/x/a.txt".to_string(), "/dl/x/d/b.txt".to_string()]);
    assert_eq!(output_files("/dl/x", &names, &Some(vec![1])), vec!["/dl/x/d/b.txt".to_string()]);
}

#[test]
fn torrents_have_a_folder_of_their_own() {
    let mut cfg = TorrentConfig::default();
    assert_eq!(output_folder(&cfg, "/dl", "Debian"), "/dl/Debian");
    cfg.download_dir = Some("/big".into());
    assert_eq!(output_folder(&cfg, "/dl", "Debian"), "/big/Debian");
}

#[test]
fn sessions_follow_the_configuration() {
    let mut cfg = TorrentConfig::default();
    cfg.download_limit_kbps = Some(100);
    let plan = session_plan(&cfg, "/data");
    assert_eq!(plan.port, 4240);
    assert_eq!(plan.download_bps, Some(102_400));
    assert_eq!(plan.upload_bps, None);
    assert!(!keeps_seeding(&cfg));
}

#[test]
fn previews_add_up_the_sizes() {
    let p = preview("x".into(), &vec![("a".into(), 3), ("b".into(), 4)]);
    assert_eq!(p.total_bytes, 7);
    assert_eq!(p.files[1].index, 1);
}

#[test]
fn the_last_event_is_complete() {
    let e = final_event(&stats("live"));
    assert_eq!(
        e,
        luedd::net::JobEvent::Progress {
            downloaded_bytes: 100,
            total_bytes: Some(100),
            done_units: 0,
            total_units: 0,
            speed_bps: 0,
        }
    );
}

fn request(url: &str, files: Option<&str>) -> DownloadReq {
    let mut extras = StrMap::new();
    if let Some(f) = files {
        extras.insert("torrent_files".to_string(), f.to_string());
    }
    DownloadReq {
        url: url.into(),
        dest_dir: "/dl".into(),
        filename_hint: None,
        ctx: RequestContext::default(),
        quality: None,
        extras,
        concurrency: 1,
        config: BackendConfig::default(),
    }
}

#[test]
fn torrents_run_from_the_request_to_the_outcome() {
    let mut run = TorrentRun::start(&request("https://x.org/Debian.torrent", Some("1")));
    assert_eq!(run.folder, "/dl/Debian");
    assert_eq!(run.only, Some(vec![1]));
    assert!(!run.stays);
    run.added(Added::Running);
    assert!(matches!(run.step, TorrentStep::AwaitMetadata));
    let mut s = stats("initializing");
    s.total_bytes = 0;
    run.looked(&s);
    assert!(matches!(run.step, TorrentStep::AwaitMetadata));
    run.looked(&stats("live"));
    assert!(matches!(run.step, TorrentStep::AwaitFiles));
    run.files_came(None);
    let names = vec!["a.txt".to_string(), "b.txt".to_string()];
    let outcome = run.outcome("/dl/Debian".into(), &names, None).unwrap().unwrap();
    assert_eq!(outcome.files, vec!["/dl/Debian/b.txt".to_string()]);
    assert_eq!(outcome.meta.title.as_deref(), Some("Debian"));
    assert_eq!(outcome.expected_units, Some(1));
}

#[test]
fn outcomes_go_by_the_selection_at_the_end() {
    let mut run = TorrentRun::start(&request("https://x.org/Debian.torrent", Some("1")));
    run.added(Added::Running);
    run.looked(&stats("live"));
    run.selected(Some(vec![0]));
    run.files_came(None);
    let names = vec!["a.txt".to_string(), "b.txt".to_string()];
    let outcome = run.outcome("/dl/Debian".into(), &names, None).unwrap().unwrap();
    assert_eq!(outcome.files, vec!["/dl/Debian/a.txt".to_string()]);
}

#[test]
fn links_that_name_too_many_files_are_not_read() {
    const IH: &str = "deadbeefdeadbeefdeadbeefdeadbeefdeadbeef";
    let link = |so: &str| format!("magnet:?xt=urn:btih:{IH}&dn=A&so={so}");
    assert_eq!(try_display_name(&link("0-1999999,7,x-y")).as_deref(), Some("A"));
    assert_eq!(try_display_name(&link("9-3")).as_deref(), Some("A"));
    assert_eq!(try_display_name(&link("0-268435456")), None);
    assert_eq!(try_display_name(&link("0-199999999,0-99999999")), None);
    assert_eq!(try_display_name(&link("0-99&so=0-268435400")), None);
    assert_eq!(try_display_name(&link("0-18446744073709551615")), None);
    assert!(TorrentRun::try_start(&request(&link("0-268435456"), None)).is_none());
    assert_eq!(TorrentRun::try_start(&request(&link("0-3"), None)).unwrap().name, "A");
    let refused = "magnet:?xt=urn:none&so=0-268435456&dn=A";
    assert_eq!(try_display_name(refused).as_deref(), Some("torrent"));
}

#[test]
fn hashes_that_decode_to_another_length_are_not_read() {
    let short = |ih: &str| try_display_name(&format!("magnet:?xt=urn:btih:{ih}&dn=A"));
    let long = |ih: &str| try_display_name(&format!("magnet:?xt=urn:btmh:1220{ih}&dn=A"));
    let block = "ABCDEFG2";
    assert_eq!(short(&block.repeat(4)).as_deref(), Some("A"));
    assert_eq!(short(&block.repeat(4).to_lowercase()).as_deref(), Some("torrent"));
    assert_eq!(short(&format!("{}ABCDEFA=", block.repeat(3))), None);
    assert_eq!(short(&format!("AA======{}", block.repeat(3))), None);
    assert_eq!(short(&format!("{}ABCDEFG=", block.repeat(3))).as_deref(), Some("torrent"));
    assert_eq!(short(&format!("{}ABCDEF==", block.repeat(3))).as_deref(), Some("torrent"));
    assert_eq!(short("x").as_deref(), Some("torrent"));
    assert_eq!(short(&"g".repeat(40)).as_deref(), Some("torrent"));
    assert_eq!(long(&format!("{}ABCA====", block.repeat(6))).as_deref(), Some("A"));
    assert_eq!(long(&format!("{}ABCA===={}", block.repeat(2), block.repeat(4))).as_deref(), Some("A"));
    assert_eq!(long(&format!("{}ABCDEFA=ABCDA===", block.repeat(5))).as_deref(), Some("A"));
    assert_eq!(long(&block.repeat(7)), None);
    assert_eq!(long(&block.repeat(7).to_lowercase()).as_deref(), Some("torrent"));
    assert_eq!(long(&"a0".repeat(32)).as_deref(), Some("A"));
    let ended = format!("magnet:?xt=urn:btih:x&xt=urn:btmh:1220{}&dn=A", block.repeat(7));
    assert_eq!(try_display_name(&ended).as_deref(), Some("torrent"));
}

#[test]
fn failing_torrents_tell_why() {
    let failure = |run: TorrentRun| run.outcome(String::new(), &vec![], None).unwrap().unwrap_err();
    let start = || TorrentRun::start(&request("https://x.org/Debian.torrent", None));

    let mut run = start();
    run.added(Added::TimedOut("deadline has elapsed".into()));
    assert_eq!(failure(run), "timed out adding torrent: deadline has elapsed");

    let mut run = start();
    run.added(Added::NoHandle);
    assert_eq!(failure(run), "torrent add returned no handle");

    let mut run = start();
    run.added(Added::Refused("bad file".into()));
    assert_eq!(failure(run), "bad file");

    let mut run = start();
    run.added(Added::Running);
    run.metadata_timed_out();
    assert!(failure(run).starts_with("couldn't fetch torrent metadata in 240s"));

    let mut run = start();
    run.added(Added::Running);
    run.looked(&stats("live"));
    run.files_came(Some("disk full".into()));
    assert_eq!(failure(run), "torrent download failed: disk full");

    assert!(start().outcome(String::new(), &vec![], None).is_none());
}

#[test]
fn sessions_know_their_torrents() {
    let mut index = TorrentIndex::new();
    index.insert("magnet:?xt=a".into(), "hash".into());
    index.insert("https://x.org/a.torrent".into(), "hash".into());
    assert_eq!(index.find("magnet:?xt=a").map(|s| s.as_str()), Some("hash"));
    assert_eq!(index.remove("magnet:?xt=a").as_deref(), Some("hash"));
    assert!(index.find("magnet:?xt=a").is_none());
    assert!(index.find("https://x.org/a.torrent").is_none(), "the torrent itself is gone");
    assert_eq!(index.remove("magnet:?xt=a"), None);
}

#[test]
fn details_list_the_files() {
    let contents = TorrentContents {
        info_hash: "hash".into(),
        save_path: "/dl/Debian".into(),
        total_pieces: 7,
        files: vec![("a.txt".into(), 60), ("b.txt".into(), 40)],
        file_progress: vec![40],
        only: Some(vec![0]),
        peers: vec![],
    };
    let d = build_torrent_detail(contents, &stats("live"));
    assert_eq!(d.files[0].downloaded_bytes, 40);
    assert_eq!(d.files[1].downloaded_bytes, 0);
    assert!(d.files[0].selected && !d.files[1].selected);
    let p = preview_of(&d, "Debian".into());
    assert_eq!(p.total_bytes, 100);
    assert_eq!(p.files[1].path, "b.txt");
}

#[test]
fn folders_have_safe_and_short_names() {
    let name = sanitize(&"a/".repeat(100));
    assert_eq!(name, "a_".repeat(60));
    assert_eq!(sanitize("tab\there"), "tab_here");
    assert_eq!(sanitize("..."), "torrent");
}
