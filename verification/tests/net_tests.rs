use luedd::net::{
    apply_headers, describe_sent_headers, probe_info, range_header, JobEvent, ProgressTracker, RequestContext,
    RequestOptions, Retry, DEFAULT_RETRY_ATTEMPTS, DEFAULT_RETRY_DELAY_MS,
};
use luedd::progressive::{
    find_next_claimable_piece, plan_download, resumable, split_into_pieces, state_path, DownloadPlan, DownloadState,
    should_save, Piece, PieceFetch, Transfer,
};
use luedd::strmap::StrMap;
use luedd::wire::{read_message, write_message, WireError, MAX_MESSAGE_LEN};

fn headers(pairs: &[(&str, &str)]) -> StrMap<String> {
    let mut m = StrMap::new();
    for (k, v) in pairs {
        m.insert(k.to_string(), v.to_string());
    }
    m
}

fn last_progress(events: &[JobEvent]) -> (u64, Option<u64>, u64, u64, u64) {
    events
        .iter()
        .rev()
        .find_map(|e| match *e {
            JobEvent::Progress { downloaded_bytes, total_bytes, done_units, total_units, speed_bps } => {
                Some((downloaded_bytes, total_bytes, done_units, total_units, speed_bps))
            },
            _ => None,
        })
        .expect("expected at least one Progress event")
}

#[test]
fn tracker_units_are_monotonic_and_capped_under_out_of_order_completion() {
    let mut tracker = ProgressTracker::new(None, 3);
    let mut events = Vec::new();
    // Three segments complete; in which order does not matter.
    events.extend(tracker.add_unit(100, 1));
    events.extend(tracker.add_unit(100, 2));
    events.extend(tracker.add_unit(100, 3));
    events.extend(tracker.finish(4));

    let mut seen = 0u64;
    for e in &events {
        if let JobEvent::Progress { done_units, total_units, .. } = *e {
            assert!(done_units >= seen, "done_units went backwards");
            assert!(done_units <= total_units, "done_units exceeded total");
            seen = done_units;
        }
    }
    let (bytes, _, done_units, total_units, _) = last_progress(&events);
    assert_eq!((done_units, total_units), (3, 3));
    assert_eq!(bytes, 300);
}

#[test]
fn tracker_finish_always_emits_even_without_progress() {
    let mut tracker = ProgressTracker::new(Some(500), 0);
    let mut events = Vec::new();
    events.extend(tracker.finish(1));
    let (bytes, total, _, _, _) = last_progress(&events);
    assert_eq!(bytes, 500, "finish clamps downloaded up to the known total");
    assert_eq!(total, Some(500));
}

#[test]
fn tracker_throttles_a_burst_of_updates_into_few_events() {
    let mut tracker = ProgressTracker::new(Some(10_000), 0);
    // 1000 tiny updates within a millisecond: without throttling this is 1000 events.
    let mut mid = Vec::new();
    for i in 0..1000 {
        mid.extend(tracker.add_bytes(10, i * 1000));
    }
    assert!(mid.len() < 50, "burst was not throttled: {} events", mid.len());
    // The forced final event still carries the true total.
    let mut last = Vec::new();
    last.extend(tracker.finish(1_000_000));
    let (bytes, ..) = last_progress(&last);
    assert_eq!(bytes, 10_000);
}

#[test]
fn tracker_reports_a_plausible_speed_over_real_time() {
    let mut tracker = ProgressTracker::new(None, 0);
    let mut events = Vec::new();
    events.extend(tracker.add_bytes(1_000_000, 0));
    events.extend(tracker.add_bytes(1_000_000, 400_000_000)); // 2 MB over 0.4 s
    let (_, _, _, _, speed) = last_progress(&events);
    assert!(speed > 1_000_000 && speed < 20_000_000, "implausible speed: {speed}");
}

#[test]
fn progress_advances_before_a_slow_leading_segment_finishes() {
    let mut tracker = ProgressTracker::with_emit_interval(None, 10, 1_000_000);
    // The first segment is the last to complete; the other nine are told before it.
    let mut best = 0u64;
    for i in 0..9u64 {
        if let Some(JobEvent::Progress { done_units, .. }) = tracker.add_unit(1, i * 10_000_000) {
            best = best.max(done_units);
        }
    }
    assert!(best >= 1, "progress froze behind slow segment 0");
    if let Some(JobEvent::Progress { done_units, .. }) = tracker.add_unit(1, 1_500_000_000) {
        best = best.max(done_units);
    }
    assert_eq!(best, 10, "final progress must reflect all 10 completed segments");
}

/// Calls until a call succeeds or the tries are used up, without the waits.
fn retried<T>(attempts: usize, delay_ms: u64, mut call: impl FnMut() -> Result<T, String>) -> Result<T, String> {
    let mut retry = Retry::new(attempts, delay_ms);
    loop {
        match call() {
            Ok(v) => return Ok(v),
            Err(e) => {
                if retry.failure().is_none() {
                    return Err(e);
                }
            }
        }
    }
}

#[test]
fn lib_retry_succeeds_after_transient_failures() {
    let mut calls = 0;
    let result = retried(4, 1, || {
        let n = calls;
        calls += 1;
        if n < 2 {
            return Err(format!("transient failure {n}"));
        }
        Ok(n)
    });
    assert_eq!(result.unwrap(), 2);
    assert_eq!(calls, 3);
}

#[test]
fn lib_retry_propagates_last_error_after_exhausting_attempts() {
    let mut calls = 0;
    let result: Result<(), String> = retried(3, 1, || {
        calls += 1;
        Err("always fails".to_string())
    });
    assert!(result.is_err());
    assert_eq!(calls, 3);
}

#[test]
fn lib_retry_calls_exactly_once_on_immediate_success() {
    let mut calls = 0;
    let result = retried(5, 1, || {
        calls += 1;
        Ok(42)
    });
    assert_eq!(result.unwrap(), 42);
    assert_eq!(calls, 1);
}

#[test]
fn no_tries_count_as_one() {
    let mut calls = 0;
    let result: Result<(), String> = retried(0, 1, || {
        calls += 1;
        Err("fails".to_string())
    });
    assert_eq!(result.unwrap_err(), "fails");
    assert_eq!(calls, 1);
}

#[test]
fn waits_double_up_to_ten_seconds() {
    let mut retry = Retry::new(DEFAULT_RETRY_ATTEMPTS, DEFAULT_RETRY_DELAY_MS);
    let mut waits = Vec::new();
    while let Some(ms) = retry.failure() {
        waits.push(ms);
    }
    assert_eq!(waits, vec![500, 1000, 2000, 4000, 8000]);
    let mut long = Retry::new(8, 8000);
    long.failure();
    assert_eq!(long.failure(), Some(10_000));
}

#[test]
fn lib_describe_sent_headers_reports_none_captured_with_emulation_hint_when_nothing_captured() {
    let opts = RequestOptions::default();
    assert_eq!(
        describe_sent_headers(&opts),
        "sent headers: none captured (no Referer/Cookie were captured for this download; a Chrome-emulation default User-Agent still applies)"
    );
}

#[test]
fn lib_describe_sent_headers_excludes_headers_that_apply_headers_also_strips() {
    let headers = headers(&[
        ("Referer", "https://page.example/"),
        ("Sec-Fetch-Site", "cross-site"),
        ("Origin", "https://page.example"),
    ]);
    let opts = RequestOptions { headers, cookies: None, byte_range: None };

    let described = describe_sent_headers(&opts);
    assert_eq!(described, "sent headers: Referer");
}

#[test]
fn lib_describe_sent_headers_lists_header_names_sorted_without_leaking_values() {
    let headers = headers(&[("Referer", "https://secret-page.example/session=abc"), ("User-Agent", "Mozilla/5.0")]);
    let opts = RequestOptions { headers, cookies: Some("session=super-secret-token".to_string()), byte_range: None };

    let described = describe_sent_headers(&opts);
    assert_eq!(described, "sent headers: Cookie, Referer, User-Agent");
    assert!(!described.contains("secret"), "must not leak header/cookie values");
}

fn sent<'a>(list: &'a [(String, String)], name: &str) -> Vec<&'a str> {
    list.iter().filter(|(k, _)| k.eq_ignore_ascii_case(name)).map(|(_, v)| v.as_str()).collect()
}

#[test]
fn lib_apply_headers_strips_hop_by_hop_headers_but_keeps_real_ones() {
    let headers = headers(&[
        ("Accept-Encoding", "gzip, deflate, br, zstd"),
        ("Host", "stale-host.example"),
        ("Connection", "keep-alive"),
        ("Referer", "https://page.example/"),
        ("Cookie", "from-headers-map=1"),
    ]);
    let opts = RequestOptions { headers, cookies: Some("real-cookie=1".to_string()), byte_range: None };
    let list = apply_headers(&opts);

    assert!(sent(&list, "accept-encoding").is_empty(), "must not replay the browser's Accept-Encoding");
    assert!(sent(&list, "host").is_empty(), "must not replay a stale Host header");
    assert!(sent(&list, "connection").is_empty(), "must not replay Connection");
    assert_eq!(sent(&list, "referer"), vec!["https://page.example/"]);
    let cookies = sent(&list, "cookie");
    assert_eq!(cookies.len(), 1, "cookie must be sent exactly once, not duplicated from headers map");
    assert_eq!(cookies[0], "real-cookie=1");
}

#[test]
fn lib_apply_headers_strips_fetch_metadata_headers_a_standalone_client_cannot_honestly_reproduce() {
    let headers = headers(&[
        ("Sec-Fetch-Dest", "empty"),
        ("Sec-Fetch-Mode", "cors"),
        ("Sec-Fetch-Site", "cross-site"),
        ("Sec-GPC", "1"),
        ("Origin", "https://page.example"),
        ("Referer", "https://page.example/"),
    ]);
    let opts = RequestOptions { headers, cookies: None, byte_range: None };
    let list = apply_headers(&opts);

    assert!(sent(&list, "sec-fetch-dest").is_empty());
    assert!(sent(&list, "sec-fetch-mode").is_empty());
    assert!(sent(&list, "sec-fetch-site").is_empty());
    assert!(sent(&list, "sec-gpc").is_empty());
    assert!(sent(&list, "origin").is_empty());
    assert_eq!(sent(&list, "referer"), vec!["https://page.example/"], "Referer is real and should still be sent");
}

#[test]
fn lib_apply_headers_adds_no_user_agent_of_its_own_when_none_captured() {
    let opts = RequestOptions::default();
    assert!(sent(&apply_headers(&opts), "user-agent").is_empty());
}

#[test]
fn lib_apply_headers_replays_a_captured_user_agent_exactly_once() {
    let headers = headers(&[("User-Agent", "Mozilla/5.0 (Firefox real browser UA)")]);
    let opts = RequestOptions { headers, cookies: None, byte_range: None };
    let list = apply_headers(&opts);

    let uas = sent(&list, "user-agent");
    assert_eq!(uas.len(), 1, "must not send two User-Agent headers");
    assert_eq!(uas[0], "Mozilla/5.0 (Firefox real browser UA)");
}

#[test]
fn ranges_name_their_last_byte() {
    assert_eq!(range_header(0, 1000), "bytes=0-999");
    assert_eq!(range_header(1000, 2000), "bytes=1000-2999");
}

#[test]
fn contexts_become_options() {
    let ctx = RequestContext { headers: headers(&[("Referer", "r")]), cookie: Some("c".into()) };
    let opts = ctx.to_options(Some((1, 2)));
    assert_eq!(opts.byte_range, Some((1, 2)));
    assert_eq!(opts.cookies.as_deref(), Some("c"));
    assert_eq!(opts.headers.get("Referer").map(|s| s.as_str()), Some("r"));
}

#[test]
fn probes_read_the_headers() {
    let info = probe_info(Some("1234"), Some("Bytes"), Some("video/mp4"));
    assert!(info.accept_ranges);
    assert_eq!(info.content_length, Some(1234));
    assert!(!probe_info(Some("1234"), Some("none"), None).accept_ranges);
    assert_eq!(probe_info(Some("many"), None, None).content_length, None);
    assert_eq!(info.content_type.as_deref(), Some("video/mp4"));
}

#[test]
fn splits_evenly_divisible_size() {
    let pieces = split_into_pieces(1000, 4);
    assert_eq!(pieces.len(), 4);
    for p in &pieces {
        assert_eq!(p.length, 250);
    }
    assert_eq!(pieces[3].offset, 750);
}

#[test]
fn last_piece_absorbs_remainder() {
    let pieces = split_into_pieces(1003, 4);
    assert_eq!(pieces.iter().map(|p| p.length).sum::<u64>(), 1003);
    assert_eq!(pieces.last().unwrap().length, 253);
}

#[test]
fn single_piece_when_smaller_than_concurrency() {
    let pieces = split_into_pieces(10, 8);
    assert_eq!(pieces.iter().map(|p| p.length).sum::<u64>(), 10);
    assert!(pieces.len() <= 8);
}

#[test]
fn find_next_claimable_skips_finished_and_claimed() {
    let pieces = vec![
        Piece { offset: 0, length: 10, downloaded: 10 },
        Piece { offset: 10, length: 10, downloaded: 0 },
        Piece { offset: 20, length: 10, downloaded: 0 },
    ];
    let claimed = vec![false, true, false];
    assert_eq!(find_next_claimable_piece(&pieces, &claimed), Some(2));
}

#[test]
fn find_next_claimable_none_when_all_done_or_claimed() {
    let pieces = vec![
        Piece { offset: 0, length: 10, downloaded: 10 },
        Piece { offset: 10, length: 10, downloaded: 0 },
    ];
    let claimed = vec![false, true];
    assert_eq!(find_next_claimable_piece(&pieces, &claimed), None);
}

#[test]
fn transfers_go_on_where_they_stopped() {
    let state = DownloadState {
        url: "http://x/f".into(),
        total_size: 20,
        pieces: vec![Piece { offset: 0, length: 10, downloaded: 4 }, Piece { offset: 10, length: 10, downloaded: 10 }],
    };
    assert!(Transfer::can_start(&state));
    let mut t = Transfer::start(state);
    assert_eq!(t.claim(), Some(0));
    assert_eq!(t.claim(), None);
    assert_eq!(t.remaining(0), Some((4, 6)));
    t.received(0, 6);
    assert_eq!(t.remaining(0), None);
    assert_eq!(t.downloaded(), 20);
    assert_eq!(t.unfinished(), 0);
}

#[test]
fn states_serve_their_own_address_only() {
    let state = || DownloadState { url: "http://x/f".into(), total_size: 1, pieces: vec![] };
    assert!(resumable(Some(state()), "http://x/f").is_some());
    assert!(resumable(Some(state()), "http://x/g").is_none());
    assert_eq!(state_path("/tmp/a.bin"), "/tmp/a.bin.tidm-state.json");
}

#[test]
fn servers_without_ranges_are_read_in_one_stream() {
    assert!(matches!(plan_download("http://x/f", true, Some(100), 4), DownloadPlan::Pieces(_)));
    assert!(matches!(plan_download("http://x/f", false, Some(100), 4), DownloadPlan::SingleStream));
    assert!(matches!(plan_download("http://x/f", true, None, 4), DownloadPlan::SingleStream));
    assert!(matches!(plan_download("http://x/f", true, Some(0), 4), DownloadPlan::SingleStream));
}

fn ping(action: &str, n: u32) -> Vec<u8> {
    let mut m = serde_json::Map::new();
    m.insert("action".to_string(), serde_json::Value::from(action));
    m.insert("n".to_string(), serde_json::Value::from(n));
    serde_json::to_vec(&serde_json::Value::Object(m)).unwrap()
}

#[test]
fn round_trips_a_message() {
    let msg = ping("ping", 42);
    let buf = write_message(&msg).unwrap();
    let (read, used) = read_message(&buf).unwrap().unwrap();
    assert_eq!(read, msg);
    assert_eq!(used, buf.len());
}

#[test]
fn reads_multiple_messages_sequentially() {
    let mut buf = write_message(&ping("a", 1)).unwrap();
    buf.extend(write_message(&ping("b", 2)).unwrap());

    let (first, used) = read_message(&buf).unwrap().unwrap();
    let (second, _) = read_message(&buf[used..]).unwrap().unwrap();
    let n = |m: &[u8]| serde_json::from_slice::<serde_json::Value>(m).unwrap()["n"].as_u64().unwrap();
    assert_eq!(n(&first), 1);
    assert_eq!(n(&second), 2);
}

#[test]
fn returns_none_on_clean_eof() {
    assert!(read_message(&[]).unwrap().is_none());
}

#[test]
fn rejects_length_prefix_over_sanity_limit() {
    let mut buf = Vec::new();
    buf.extend_from_slice(&(MAX_MESSAGE_LEN + 1).to_le_bytes());
    assert!(matches!(read_message(&buf), Err(WireError::TooLarge(_))));
}

#[test]
fn errors_on_truncated_payload() {
    let mut buf = Vec::new();
    buf.extend_from_slice(&100u32.to_le_bytes());
    buf.extend_from_slice(b"{\"incomplete\":");
    assert!(read_message(&buf).is_err());
}

#[test]
fn pieces_that_end_early_are_told() {
    let mut fetch = PieceFetch::new(3, 10);
    assert!(!fetch.took(4));
    assert_eq!(fetch.ended().unwrap_err(), "piece 3 ended early: got 4 of 10 expected bytes");
    assert!(fetch.took(6));
    assert!(fetch.ended().is_ok());
    assert!(should_save(2000));
    assert!(!should_save(1999));
}

#[test]
fn downloads_with_unfinished_pieces_are_incomplete() {
    let state = DownloadState {
        url: "http://x/f".into(),
        total_size: 20,
        pieces: vec![Piece { offset: 0, length: 20, downloaded: 4 }],
    };
    let mut t = Transfer::start(state);
    assert_eq!(
        t.conclude().unwrap_err(),
        "download incomplete: 1 piece(s) unfinished after all workers exited"
    );
    t.received(0, 16);
    assert!(t.conclude().is_ok());
}

#[test]
fn lengths_that_are_cut_short_are_errors() {
    assert!(matches!(read_message(&[1]), Err(WireError::Truncated)));
    assert!(matches!(read_message(&[1, 0]), Err(WireError::Truncated)));
    assert!(matches!(read_message(&[1, 0, 0]), Err(WireError::Truncated)));
    assert!(matches!(read_message(&[0, 0, 0, 0]), Ok(Some((_, 4)))));
}

#[test]
fn values_of_headers_are_not_told() {
    let a = RequestOptions {
        headers: headers(&[("Referer", "https://one.example/"), ("X-A", "1")]),
        cookies: Some("a=1".to_string()),
        byte_range: None,
    };
    let b = RequestOptions {
        headers: headers(&[("X-A", "2"), ("Referer", "https://two.example/")]),
        cookies: Some("b=2".to_string()),
        byte_range: Some((0, 10)),
    };
    assert_eq!(describe_sent_headers(&a), "sent headers: Cookie, Referer, X-A");
    assert_eq!(describe_sent_headers(&a), describe_sent_headers(&b));
}
