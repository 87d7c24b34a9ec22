use luedd::atomicfile::temporary_path;
use luedd::jobs::{finish_mux, sanitize_dest_for_kind, DownloadKind};
use luedd::naming::{
    cache_dir_for, dest_path, dest_path_at, extension_for_mime, extension_of_response, is_trusted_ext, needs_probe,
    sanitize_filename_component, sniff_extension_from_bytes, suggest_filename,
};
use luedd::paths::{get_extension, get_file_name, get_file_stem, get_parent, join_path};

#[test]
fn extension_for_mime_covers_common_containers() {
    assert_eq!(extension_for_mime("video/mp4; codecs=avc1"), Some("mp4"));
    assert_eq!(extension_for_mime("application/pdf"), Some("pdf"));
    assert_eq!(extension_for_mime("image/jpeg"), Some("jpg"));
    assert_eq!(extension_for_mime("application/octet-stream"), None);
}

#[test]
fn sniffs_hls_manifest_disguised_behind_a_generic_extension() {
    let manifest = b"#EXTM3U\n#EXT-X-STREAM-INF:PROGRAM-ID=1,BANDWIDTH=1264239\nindex-v1-a1.txt\n";
    assert_eq!(sniff_extension_from_bytes(manifest), Some("m3u8"));
    assert!(!is_trusted_ext("txt"), "txt must always be sniffed, not trusted outright");
}

#[test]
fn sniffs_dash_manifest_from_mpd_root_element() {
    let manifest = b"<?xml version=\"1.0\" encoding=\"UTF-8\"?>\n<MPD xmlns=\"urn:mpeg:dash:schema:mpd:2011\">";
    assert_eq!(sniff_extension_from_bytes(manifest), Some("mpd"));
}

#[test]
fn sniffs_mp4_from_ftyp_box() {
    let mut bytes = vec![0, 0, 0, 24];
    bytes.extend_from_slice(b"ftypisom");
    assert_eq!(sniff_extension_from_bytes(&bytes), Some("mp4"));
}

#[test]
fn sniffs_pdf_and_png_signatures() {
    assert_eq!(sniff_extension_from_bytes(b"%PDF-1.7 rest of file"), Some("pdf"));
    let png = [0x89, b'P', b'N', b'G', 0x0D, 0x0A, 0x1A, 0x0A, 0, 0, 0, 0];
    assert_eq!(sniff_extension_from_bytes(&png), Some("png"));
}

#[test]
fn sniff_returns_none_for_unrecognized_bytes() {
    assert_eq!(sniff_extension_from_bytes(b"just some plain text"), None);
}

#[test]
fn content_types_come_before_contents() {
    assert_eq!(extension_of_response(Some("video/webm"), b"%PDF-1.7"), Some("webm"));
    assert_eq!(extension_of_response(Some("application/octet-stream"), b"%PDF-1.7"), Some("pdf"));
    assert_eq!(extension_of_response(None, b"plain"), None);
}

#[test]
fn trusted_extensions_need_no_probe() {
    assert!(!needs_probe("https://cdn.example/a.MP4"));
    assert!(needs_probe("https://cdn.example/a.mp4?x=1"));
    assert!(needs_probe("https://cdn.example/a.txt"));
    assert!(needs_probe("https://cdn.example/a"));
}

#[test]
fn sanitize_filename_component_strips_illegal_characters_and_trims() {
    assert_eq!(sanitize_filename_component("Some Show: Episode 4 | Site*Name"), "Some Show Episode 4 Site Name");
    assert_eq!(sanitize_filename_component("  spaced   out  "), "spaced out");
}

#[test]
fn sanitize_filename_component_decodes_html_entities() {
    assert_eq!(sanitize_filename_component("Who Hadn&#39;t Had"), "Who Hadn't Had");
    assert_eq!(sanitize_filename_component("Who Hadn&#x27;t Had"), "Who Hadn't Had");
    assert_eq!(sanitize_filename_component("Tom &amp; Jerry"), "Tom & Jerry");
    // "&" alone (not part of a real entity) must be left alone, not eaten.
    assert_eq!(sanitize_filename_component("R&D Update"), "R&D Update");
}

#[test]
fn suggest_filename_prefers_title_over_url_and_detected_ext_over_url_ext() {
    assert_eq!(
        suggest_filename(Some("My Cool Video"), "https://cdn.example/abc123.jpg", Some("mp4")),
        "My Cool Video.mp4"
    );
}

#[test]
fn suggest_filename_falls_back_to_url_when_no_title() {
    assert_eq!(suggest_filename(None, "https://cdn.example/movie.mkv", None), "movie.mkv");
}

#[test]
fn suggest_filename_uses_detected_ext_when_url_has_none() {
    assert_eq!(suggest_filename(None, "https://cdn.example/videos/29whtyqk8y", Some("mp4")), "29whtyqk8y.mp4");
}

#[test]
fn dest_path_gives_each_download_its_own_hash_even_for_the_same_url() {
    let dir = "downloads";
    let a = dest_path(dir, "https://cdn.example/video.m3u8", "My Cool Video.mp4");
    let b = dest_path(dir, "https://cdn.example/video.m3u8", "My Cool Video.mp4");
    assert_ne!(a, b, "re-adding the same URL must be a distinct download, not collide with/resume the first");
}

#[test]
fn dest_path_different_urls_never_collide_even_with_identical_titles() {
    let dir = "downloads";
    let a = dest_path(dir, "https://cdn.example/a.m3u8", "video.mp4");
    let b = dest_path(dir, "https://cdn.example/b.m3u8", "video.mp4");
    assert_ne!(a, b, "different source URLs must never resolve to the same on-disk path");
}

#[test]
fn dest_path_is_flat_and_keeps_extension_after_the_hash() {
    let dir = "downloads";
    let dest = dest_path(dir, "https://cdn.example/video.m3u8", "My Cool Video.mp4");
    assert_eq!(get_parent(&dest).as_deref(), Some("downloads"));
    assert_eq!(get_extension(&dest).as_deref(), Some("mp4"));
    let stem = get_file_stem(&dest).unwrap();
    assert!(stem.starts_with("My Cool Video-"), "stem was {stem:?}");
}

#[test]
fn dest_path_is_fixed_by_the_time() {
    let a = dest_path_at("downloads", "https://cdn.example/a", "video.mp4", 7);
    let b = dest_path_at("downloads", "https://cdn.example/a", "video.mp4", 7);
    let c = dest_path_at("downloads", "https://cdn.example/a", "video.mp4", 8);
    assert_eq!(a, b);
    assert_ne!(a, c);
}

#[test]
fn cache_dir_for_is_derived_from_dests_own_hashed_stem() {
    let dir = "downloads";
    let dest = dest_path(dir, "https://cdn.example/video.m3u8", "My Cool Video.mp4");
    let cache_dir = cache_dir_for(&dest);
    assert_eq!(get_parent(&cache_dir).as_deref(), Some("downloads/.tidm-cache"));
    assert_eq!(get_file_name(&cache_dir), get_file_stem(&dest));
}

#[test]
fn cache_dir_for_is_stable_across_retries_since_dest_never_changes() {
    let dir = "downloads";
    let dest = dest_path(dir, "https://cdn.example/video.m3u8", "My Cool Video.mp4");
    assert_eq!(cache_dir_for(&dest), cache_dir_for(&dest));
}

#[test]
fn jobs_rewrites_manifest_extension_to_mp4_for_hls_and_dash() {
    assert_eq!(sanitize_dest_for_kind("downloads/master.m3u8", DownloadKind::Hls), "downloads/master.mp4");
    assert_eq!(sanitize_dest_for_kind("downloads/manifest.mpd", DownloadKind::Dash), "downloads/manifest.mp4");
}

#[test]
fn jobs_rewrites_extensionless_dest_to_mp4_for_hls_and_dash() {
    assert_eq!(
        sanitize_dest_for_kind("downloads/29whtyqk8y~WU4mnOWXhR", DownloadKind::Hls),
        "downloads/29whtyqk8y~WU4mnOWXhR.mp4"
    );
}

#[test]
fn jobs_leaves_explicit_user_chosen_extensions_alone() {
    assert_eq!(sanitize_dest_for_kind("downloads/movie.mkv", DownloadKind::Hls), "downloads/movie.mkv");
    assert_eq!(sanitize_dest_for_kind("downloads/movie.mp4", DownloadKind::Dash), "downloads/movie.mp4");
}

#[test]
fn jobs_never_touches_http_downloads() {
    assert_eq!(
        sanitize_dest_for_kind("downloads/29whtyqk8y~WU4mnOWXhR", DownloadKind::Http),
        "downloads/29whtyqk8y~WU4mnOWXhR"
    );
    assert_eq!(sanitize_dest_for_kind("downloads/data.m3u8", DownloadKind::Http), "downloads/data.m3u8");
}

#[test]
fn kinds_are_guessed_from_the_address() {
    assert_eq!(DownloadKind::guess_from_url("https://x/y.m3u8?a=1"), DownloadKind::Hls);
    assert_eq!(DownloadKind::guess_from_url("https://x/y.mpd"), DownloadKind::Dash);
    assert_eq!(DownloadKind::guess_from_url("https://x/y.mp4"), DownloadKind::Http);
}

#[test]
fn muxed_files_take_their_place() {
    assert_eq!(finish_mux("cache/out.mkv", "downloads/movie.mp4"), "downloads/movie.mkv");
    assert_eq!(finish_mux("cache/out.mp4", "downloads/movie.mp4"), "downloads/movie.mp4");
}

#[test]
fn paths_are_taken_apart_and_joined() {
    assert_eq!(join_path("a", "b"), "a/b");
    assert_eq!(join_path("a/", "b"), "a/b");
    assert_eq!(join_path("a", "/b"), "/b");
    assert_eq!(get_file_name("a/b.tar.gz").as_deref(), Some("b.tar.gz"));
    assert_eq!(get_file_stem("a/b.tar.gz").as_deref(), Some("b.tar"));
    assert_eq!(get_extension("a/.hidden"), None);
    assert_eq!(get_parent("a"), Some(String::new()));
    assert_eq!(get_file_name("a/.."), None);
}

#[test]
fn writes_have_a_file_each_on_the_way() {
    let a = temporary_path("/data/x.json", 1, 1);
    let b = temporary_path("/data/x.json", 1, 2);
    assert_ne!(a, b);
    assert_eq!(get_parent(&a).as_deref(), Some("/data"));
}

#[test]
fn names_have_no_leading_and_no_doubled_blanks() {
    assert_eq!(sanitize_filename_component("  . a  :  b\t\tc . "), "a b c");
}
