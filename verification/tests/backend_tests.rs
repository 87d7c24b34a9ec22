use luedd::backend::{
    backend_id_for_kind, kind_for_backend_id, provider_label, BackendConfig, Confidence, HostRoute, Sniff,
};
use luedd::jobs::DownloadKind;
use luedd::registry::{Backend, BackendRegistry, Choice};
use luedd::urls::{host_matches, host_of};

fn resolve_by_address(reg: &BackendRegistry, url: &str, cfg: &BackendConfig) -> Backend {
    match reg.resolve(url, cfg) {
        Choice::Decided(b) => b,
        Choice::LookAtContent(best) => reg.resolve_with_content(url, best, Sniff::default()),
    }
}

#[test]
fn host_of_strips_scheme_port_and_path() {
    assert_eq!(host_of("https://www.youtube.com:443/watch?v=x").as_deref(), Some("www.youtube.com"));
    assert_eq!(host_of("http://Example.COM/a/b").as_deref(), Some("example.com"));
}

#[test]
fn host_of_needs_a_scheme_and_a_host() {
    assert_eq!(host_of("not a url"), None);
    assert_eq!(host_of("mailto:someone@example.com"), None);
}

#[test]
fn host_matches_is_suffix_aware() {
    assert!(host_matches("www.youtube.com", "youtube.com"));
    assert!(host_matches("youtube.com", "youtube.com"));
    assert!(host_matches("cdn.instagram.com", ".instagram.com"));
    assert!(!host_matches("notyoutube.com", "youtube.com"));
    assert!(!host_matches("youtube.com.evil.com", "youtube.com"));
}

#[test]
fn resolve_picks_hls_for_m3u8_and_falls_back_to_http() {
    let reg = BackendRegistry::with_builtins();
    let cfg = BackendConfig::default();
    assert_eq!(resolve_by_address(&reg, "https://x/y.m3u8", &cfg).id(), "hls");
    assert_eq!(resolve_by_address(&reg, "https://x/y.mpd", &cfg).id(), "dash");
    assert_eq!(resolve_by_address(&reg, "https://x/y.bin?foo=1", &cfg).id(), "http");
}

#[test]
fn host_routing_override_wins() {
    let reg = BackendRegistry::with_builtins();
    let mut cfg = BackendConfig::default();
    cfg.host_routing = vec![HostRoute { host_suffix: "example.com".into(), backend_id: "dash".into() }];
    assert_eq!(resolve_by_address(&reg, "https://foo.example.com/x.m3u8", &cfg).id(), "dash");
}

#[test]
fn content_decides_where_the_address_does_not() {
    let reg = BackendRegistry::with_builtins();
    let cfg = BackendConfig::default();
    let url = "https://cdn.example/stream?id=1";
    match reg.resolve(url, &cfg) {
        Choice::Decided(b) => panic!("decided without a look: {}", b.id()),
        Choice::LookAtContent(best) => {
            let sniff = Sniff { real_ext: Some("m3u8".into()), content_type: None };
            assert_eq!(reg.resolve_with_content(url, best, sniff).id(), "hls");
        },
    }
}

#[test]
fn backends_are_found_by_id() {
    let reg = BackendRegistry::with_builtins();
    assert_eq!(reg.get("hls"), Some(Backend::Hls));
    assert_eq!(reg.get("ytdlp"), None);
    assert_eq!(reg.get("nothing"), None);
    assert_eq!(reg.get_or_http("nothing"), Backend::Http);
}

#[test]
fn registered_backends_are_found_behind_the_others() {
    let mut reg = BackendRegistry::with_builtins();
    assert_eq!(reg.get("torrent"), None);
    reg.register(Backend::Torrent);
    assert_eq!(reg.get("torrent"), Some(Backend::Torrent));
    assert_eq!(resolve_by_address(&reg, "magnet:?xt=urn:btih:abc", &BackendConfig::default()).id(), "torrent");
}

#[test]
fn kinds_and_ids_name_each_other() {
    assert_eq!(backend_id_for_kind(DownloadKind::Hls), "hls");
    assert_eq!(kind_for_backend_id("dash"), DownloadKind::Dash);
    assert_eq!(kind_for_backend_id("torrent"), DownloadKind::Http);
    assert_eq!(provider_label("ytdlp"), "yt-dlp");
}

#[test]
fn claims_are_ranked() {
    assert!(Confidence::No.rank() < Confidence::Weak.rank());
    assert!(Confidence::Weak.rank() < Confidence::Strong.rank());
    assert!(Confidence::Strong.rank() < Confidence::Certain.rank());
}
