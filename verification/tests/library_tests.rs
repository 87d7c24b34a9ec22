use luedd::ig_library::{default_ig_library_path, ArchiveJob, ArchiveState, IgCaught, IgLibrary, UNRESOLVED};
use luedd::listing::{
    avatar_wanted, channel_key, ig_profiles, library_counts, next_unresolved, yt_channel, yt_channels, VideoMeta,
};
use luedd::yt_library::{channel_site_hint, default_yt_library_path, YtCaught, YtLibrary, YtResolve};

fn post(key: &str) -> IgCaught {
    IgCaught { kind: "post".into(), key: key.into(), url: format!("https://www.instagram.com/p/{key}"), seen: 1 }
}

fn caught(id: &str, url: &str) -> YtCaught {
    YtCaught {
        id: id.into(),
        url: url.into(),
        title: "t".into(),
        thumbnail: None,
        duration: None,
        uploader: None,
        upload_date: None,
        view_count: None,
        resolved: false,
        seen: 1,
    }
}

fn resolve(key: &str, name: &str, video: &str) -> YtResolve {
    YtResolve {
        channel_key: key.into(),
        channel_name: name.into(),
        channel_url: None,
        avatar_url: None,
        video_id: video.into(),
        title: String::new(),
        thumbnail: None,
        duration: None,
        uploader: None,
        upload_date: None,
        view_count: None,
    }
}

#[test]
fn ig_library_record_dedupes_and_persists() {
    let mut lib = IgLibrary::new();
    lib.record(Some("quynhingx"), post("ABC"), 1);
    lib.record(Some("quynhingx"), post("ABC"), 1);
    lib.record(
        Some("QuynhIngx"),
        IgCaught {
            kind: "story".into(),
            key: "".into(),
            url: "https://www.instagram.com/stories/quynhingx".into(),
            seen: 2,
        },
        2,
    );
    assert_eq!(lib.accounts.len(), 1);
    assert_eq!(lib.accounts.get("quynhingx").unwrap().caught.len(), 2);
    assert_eq!(default_ig_library_path("/data"), "/data/ig_library.json");
}

#[test]
fn set_account_moves_unresolved() {
    let mut lib = IgLibrary::new();
    let url = "https://www.instagram.com/p/XYZ";
    lib.record(None, post("XYZ"), 1);
    assert!(lib.accounts.contains_key(UNRESOLVED));

    assert!(lib.set_account(url, "someone", 2));
    assert!(!lib.accounts.contains_key(UNRESOLVED));
    assert_eq!(lib.accounts.get("someone").unwrap().caught.len(), 1);
}

#[test]
fn set_account_moves_copies_of_other_accounts() {
    let mut lib = IgLibrary::new();
    let url = "https://www.instagram.com/p/XYZ";
    lib.record(None, post("XYZ"), 1);
    lib.record(None, post("UVW"), 1);
    lib.record(Some("other"), post("XYZ"), 1);
    lib.record(Some("other"), post("ABC"), 1);

    assert!(lib.set_account(url, "Someone", 2));
    let mine = &lib.accounts.get("someone").unwrap().caught;
    assert_eq!(mine.len(), 1);
    assert_eq!(mine[0].url, url);
    let other = &lib.accounts.get("other").unwrap().caught;
    assert_eq!(other.len(), 1);
    assert_eq!(other[0].key, "ABC");
    assert_eq!(lib.accounts.get(UNRESOLVED).unwrap().caught[0].key, "UVW");

    assert!(!lib.set_account(url, "someone", 3));
    assert_eq!(lib.accounts.get("someone").unwrap().caught.len(), 1);
}

#[test]
fn archives_belong_to_their_account() {
    let mut lib = IgLibrary::new();
    assert!(lib.archive_of("Someone").is_none());
    let job = ArchiveJob {
        state: ArchiveState::Running,
        page: 1,
        cursor: None,
        total: 10,
        queued: 2,
        scope: "all".into(),
        epoch: 1,
        updated: 5,
    };
    lib.set_archive("Someone", Some(job), 5);
    assert_eq!(lib.archive_of("someone").unwrap().queued, 2);
    lib.set_archive("someone", None, 6);
    assert!(lib.archive_of("someone").is_none());
}

#[test]
fn pictures_are_kept_once() {
    let mut lib = IgLibrary::new();
    lib.record(Some("a"), post("X"), 1);
    assert!(lib.set_avatar("A", "https://cdn/a.jpg", 3));
    assert!(!lib.set_avatar("A", "https://cdn/a.jpg", 9));
    assert_eq!(lib.accounts.get("a").unwrap().avatar_at, 3);
    assert!(lib.set_avatar("A", "https://cdn/b.jpg", 9));
    assert_eq!(lib.accounts.get("a").unwrap().avatar_at, 9);
    assert!(!lib.set_avatar("unknown", "https://cdn/a.jpg", 3));
}

#[test]
fn unresolved_pages_can_be_thinned_out() {
    let mut lib = IgLibrary::new();
    lib.record(None, post("X"), 1);
    lib.record(None, post("Y"), 1);
    assert_eq!(lib.prune_unresolved(|c: &IgCaught| c.key == "Y"), 1);
    assert_eq!(lib.accounts.get(UNRESOLVED).unwrap().caught.len(), 1);
}

#[test]
fn yt_library_record_dedupes_and_persists() {
    let mut lib = YtLibrary::new();
    let url = "https://www.youtube.com/watch?v=abc";
    lib.record(UNRESOLVED, "youtube.com", caught("abc", url), 1);
    lib.record(UNRESOLVED, "youtube.com", caught("abc", url), 1);
    lib.record(UNRESOLVED, "youtube.com", caught("xyz", "https://www.youtube.com/watch?v=xyz"), 1);
    assert_eq!(lib.channels.get(UNRESOLVED).unwrap().caught.len(), 2);
    assert_eq!(default_yt_library_path("/data"), "/data/yt_library.json");
}

#[test]
fn record_does_not_resurrect_a_resolved_video() {
    let mut lib = YtLibrary::new();
    let url = "https://www.youtube.com/watch?v=abc";
    lib.record(UNRESOLVED, "youtube.com", caught("abc", url), 1);
    assert!(lib.resolve(url, &resolve("UC1", "Chan", "abc"), 2));

    // an open tab keeps showing the same page
    lib.record(UNRESOLVED, "youtube.com", caught("abc", url), 3);

    assert!(!lib.channels.contains_key(UNRESOLVED), "must not re-file a known video");
    assert_eq!(lib.channels.get("UC1").unwrap().caught.len(), 1);
}

#[test]
fn resolve_moves_unresolved() {
    let mut lib = YtLibrary::new();
    let url = "https://www.youtube.com/watch?v=abc";
    lib.record(UNRESOLVED, "youtube.com", caught("abc", url), 1);
    assert!(lib.channels.contains_key(UNRESOLVED));

    let mut r = resolve("UC123", "Kurzgesagt", "abc");
    r.channel_url = Some("https://www.youtube.com/@kurzgesagt".into());
    r.title = "Big Star".into();
    r.duration = Some(641);
    lib.resolve(url, &r, 2);

    assert!(!lib.channels.contains_key(UNRESOLVED));
    let c = lib.channels.get("UC123").unwrap();
    assert_eq!(c.name, "Kurzgesagt");
    assert_eq!(c.caught.len(), 1);
    assert!(c.caught[0].resolved);
    assert_eq!(c.caught[0].duration, Some(641));
}

#[test]
fn forgotten_videos_leave_the_unresolved() {
    let mut lib = YtLibrary::new();
    let url = "https://www.youtube.com/watch?v=abc";
    lib.record(UNRESOLVED, "youtube.com", caught("abc", url), 1);
    assert_eq!(next_unresolved(&lib).as_deref(), Some(url));
    lib.forget(url);
    assert_eq!(next_unresolved(&lib), None);
    assert!(!lib.channels.contains_key(UNRESOLVED));
}

#[test]
fn sites_are_read_off_the_channel() {
    assert_eq!(channel_site_hint(&Some("https://www.youtube.com/@x".into())).as_deref(), Some("youtube.com"));
    assert_eq!(channel_site_hint(&None), None);
}

#[test]
fn rows_leave_the_unresolved_out_and_count_them() {
    let mut ig = IgLibrary::new();
    ig.record(None, post("X"), 1);
    ig.record(Some("older"), post("Y"), 5);
    ig.record(Some("newer"), post("Z"), 9);
    let (rows, unresolved) = ig_profiles(&ig);
    assert_eq!(rows.len(), 2);
    assert_eq!(rows[0].username, "newer");
    assert_eq!(unresolved, 1);

    let mut yt = YtLibrary::new();
    yt.record(UNRESOLVED, "youtube.com", caught("abc", "https://www.youtube.com/watch?v=abc"), 1);
    yt.resolve("https://www.youtube.com/watch?v=abc", &resolve("UC1", "Chan", "abc"), 2);
    yt.record(UNRESOLVED, "youtube.com", caught("x", "https://www.youtube.com/watch?v=x"), 3);
    let (rows, unresolved) = yt_channels(&yt);
    assert_eq!(rows.len(), 1);
    assert_eq!(rows[0].key, "UC1");
    assert_eq!(unresolved, 1);
    assert_eq!(yt_channel(&yt, "UC1").unwrap().1.len(), 1);
    assert!(yt_channel(&yt, "UC2").is_none());
    assert_eq!(library_counts(&ig, &yt), (2, 1));
}

#[test]
fn pictures_are_fetched_for_channels_without_one() {
    let meta = VideoMeta {
        id: "abc".into(),
        title: "Big Star".into(),
        channel: Some("Kurzgesagt".into()),
        channel_id: Some("UC123".into()),
        channel_url: Some("https://www.youtube.com/@kurzgesagt".into()),
        uploader: None,
        thumbnail: None,
        duration: Some(641),
        upload_date: None,
        view_count: None,
    };
    let url = "https://www.youtube.com/watch?v=abc";
    assert_eq!(channel_key(&meta, url), "UC123");
    let mut lib = YtLibrary::new();
    assert_eq!(avatar_wanted(&lib, &meta), None);
    lib.record(UNRESOLVED, "youtube.com", caught("abc", url), 1);
    lib.resolve(url, &resolve("UC123", "Kurzgesagt", "abc"), 2);
    assert_eq!(
        avatar_wanted(&lib, &meta),
        Some(("https://www.youtube.com/@kurzgesagt".to_string(), "UC123".to_string()))
    );
    assert!(lib.set_channel_avatar("UC123", "https://cdn/a.jpg", 3));
    assert!(!lib.set_channel_avatar("UC123", "https://cdn/a.jpg", 9));
    assert_eq!(lib.channels.get("UC123").unwrap().avatar_at, 3);
    assert!(!lib.set_channel_avatar("UC456", "https://cdn/a.jpg", 9));
    assert_eq!(avatar_wanted(&lib, &meta), None);
}
