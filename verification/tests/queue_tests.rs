use luedd::backend::{BackendConfig, EntryMeta, Outcome};
use luedd::entry::{Artifact, DownloadEntry, DownloadEntryRepr, DownloadProgress, DownloadStatus};
use luedd::jobs::DownloadKind;
use luedd::manager::{DownloadManager, RunNow};
use luedd::naming::cache_dir_for;
use luedd::net::JobEvent;
use luedd::scheduler::{
    auto_retry_at, auto_retry_due_entries, due_retries, next_auto_retry_at, should_run, MAX_AUTO_RETRIES,
};
use luedd::settings::{default_settings_path, Settings};
use luedd::clock::now_unix;
use luedd::store::{default_store_path, DownloadQueueDef, DownloadSchedule, DownloadStore};
use luedd::strmap::StrMap;

fn entry(url: &str, dest: &str) -> DownloadEntry {
    DownloadEntry::new(url.into(), dest.into(), DownloadKind::Http)
}

fn empty_store() -> DownloadStore {
    DownloadStore::new(vec![], vec![])
}

fn with_status(store: &mut DownloadStore, url: &str, status: DownloadStatus) -> String {
    let e = entry(url, "/tmp/f");
    let id = e.id.clone();
    store.add_entry(e);
    store.update_entry(&id, |mut e| {
        e.status = status;
        e
    });
    id
}

#[test]
fn model_schedule_window_same_day() {
    let s = DownloadSchedule { start_minutes: 8 * 60, end_minutes: 17 * 60 };
    assert!(!s.is_active_at(7 * 60 + 59));
    assert!(s.is_active_at(8 * 60));
    assert!(s.is_active_at(16 * 60 + 59));
    assert!(!s.is_active_at(17 * 60));
}

#[test]
fn model_schedule_window_wraps_midnight() {
    let s = DownloadSchedule { start_minutes: 23 * 60, end_minutes: 6 * 60 };
    assert!(s.is_active_at(23 * 60 + 30));
    assert!(s.is_active_at(0));
    assert!(s.is_active_at(5 * 60 + 59));
    assert!(!s.is_active_at(6 * 60));
    assert!(!s.is_active_at(12 * 60));
}

#[test]
fn model_generated_ids_are_unique_and_well_formed() {
    let a = entry("u", "d");
    let b = entry("u", "d");
    assert_ne!(a.id, b.id);
    assert_eq!(a.id.len(), 36);
}

#[test]
fn new_entry_derives_backend_id_from_kind() {
    assert_eq!(DownloadEntry::new("u".into(), "d".into(), DownloadKind::Hls).backend_id, "hls");
    assert_eq!(DownloadEntry::new("u".into(), "d".into(), DownloadKind::Dash).backend_id, "dash");
    assert_eq!(DownloadEntry::new("u".into(), "d".into(), DownloadKind::Http).backend_id, "http");
}

/// An entry as the file holds it, with the members that may be missing.
fn stored(s: &str) -> DownloadEntryRepr {
    let v: serde_json::Value = serde_json::from_str(s).unwrap();
    let text = |k: &str| v.get(k).and_then(|x| x.as_str()).map(str::to_string);
    DownloadEntryRepr {
        id: text("id").unwrap(),
        url: text("url").unwrap(),
        dest: text("dest").unwrap(),
        kind: match text("kind").as_deref() {
            Some("Hls") => Some(DownloadKind::Hls),
            Some("Dash") => Some(DownloadKind::Dash),
            Some("Http") => Some(DownloadKind::Http),
            _ => None,
        },
        backend_id: text("backend_id"),
        status: match text("status").as_deref() {
            Some("Queued") => DownloadStatus::Queued,
            other => panic!("unexpected status {other:?}"),
        },
        error: text("error"),
        created_at: v.get("created_at").and_then(|x| x.as_i64()).unwrap(),
        headers: StrMap::new(),
        cookie: None,
        progress: None,
        retry_count: 0,
        next_retry_at: None,
        quality: None,
        extras: StrMap::new(),
        preview: None,
        preview_kind: None,
        extra_files: vec![],
        author: None,
        title: None,
        media_class: None,
        out_dir: None,
    }
}

#[test]
fn loads_pre_registry_json_without_backend_id() {
    let old = r#"{
        "id": "abc", "url": "https://x/y.m3u8", "dest": "out.mp4",
        "kind": "Hls", "status": "Queued", "error": null, "created_at": 1
    }"#;
    let e = DownloadEntry::from_repr(stored(old));
    assert_eq!(e.backend_id, "hls");
    assert_eq!(e.kind, DownloadKind::Hls);
    assert!(e.extra_files.is_empty());

    // and the value that is written back reads the same
    let mut again = stored(old);
    again.backend_id = Some(e.backend_id);
    again.kind = Some(e.kind);
    assert_eq!(DownloadEntry::from_repr(again).backend_id, "hls");
}

#[test]
fn loads_new_json_with_backend_id_only() {
    let new = r#"{
        "id": "abc", "url": "magnet:?xt=x", "dest": "out",
        "backend_id": "torrent", "status": "Queued", "error": null, "created_at": 1
    }"#;
    let e = DownloadEntry::from_repr(stored(new));
    assert_eq!(e.backend_id, "torrent");
    assert_eq!(e.kind, DownloadKind::Http);
}

#[test]
fn schedule_gates_correctly_at_boundaries() {
    let business_hours = DownloadSchedule { start_minutes: 9 * 60, end_minutes: 18 * 60 };
    assert!(!business_hours.is_active_at(0));
    assert!(business_hours.is_active_at(9 * 60));
    assert!(!business_hours.is_active_at(18 * 60));
}

#[test]
fn next_auto_retry_at_grows_with_each_attempt() {
    let first = next_auto_retry_at(0).unwrap();
    let second = next_auto_retry_at(1).unwrap();
    let third = next_auto_retry_at(2).unwrap();
    let now = now_unix();
    // Each step lies further out than the one before.
    assert!(first - now <= 30 && first - now > 0);
    assert!(second - first >= 60, "second backoff should be much longer than the first");
    assert!(third - second >= 300, "third backoff should be much longer than the second");
}

#[test]
fn next_auto_retry_at_stops_once_max_retries_exhausted() {
    assert!(next_auto_retry_at(MAX_AUTO_RETRIES).is_none());
    assert!(next_auto_retry_at(MAX_AUTO_RETRIES + 1).is_none());
}

#[test]
fn waits_are_half_a_minute_two_and_ten() {
    assert_eq!(auto_retry_at(0, 1000), Some(1030));
    assert_eq!(auto_retry_at(1, 1000), Some(1120));
    assert_eq!(auto_retry_at(2, 1000), Some(1600));
    assert_eq!(auto_retry_at(3, 1000), None);
}

#[test]
fn queues_without_a_schedule_run_at_any_time() {
    assert!(should_run(&vec![], 5));
    let def = |schedule: Option<DownloadSchedule>| DownloadQueueDef {
        id: "q".into(),
        name: "q".into(),
        entry_ids: vec![],
        schedule,
    };
    let night = DownloadSchedule { start_minutes: 0, end_minutes: 60 };
    assert!(should_run(&vec![def(Some(night))], 30));
    assert!(!should_run(&vec![def(Some(night))], 90));
}

#[test]
fn due_downloads_wait_again() {
    let mut store = empty_store();
    let id = with_status(&mut store, "http://x/f", DownloadStatus::Failed);
    store.update_entry(&id, |mut e| {
        e.next_retry_at = Some(100);
        e.retry_count = 1;
        e
    });
    assert!(due_retries(store.list_entries(), 99).is_empty());
    assert!(!auto_retry_due_entries(&mut store, 99));
    assert!(auto_retry_due_entries(&mut store, 100));
    let e = store.get_entry(&id).unwrap();
    assert_eq!(e.status, DownloadStatus::Queued);
    assert_eq!(e.retry_count, 2);
}

#[test]
fn defaults_when_missing() {
    let settings = Settings::defaults("/data");
    assert_eq!(settings.download_dir, "/data/downloads");
    assert_eq!(settings.max_concurrent_downloads, 2);
    assert_eq!(default_settings_path("/data"), "/data/settings.json");
}

#[test]
fn store_persists_and_reloads_entries() {
    let mut store = empty_store();
    let e = entry("http://x/f.bin", "/tmp/f.bin");
    let id = e.id.clone();
    store.add_entry(e);
    store.update_entry(&id, |mut e| {
        e.status = DownloadStatus::Finished;
        e
    });
    let entries = store.list_entries();
    assert_eq!(entries.len(), 1);
    assert!(matches!(entries[0].status, DownloadStatus::Finished));
    assert_eq!(default_store_path("/data"), "/data/downloads.json");
}

#[test]
fn store_opens_empty_when_file_missing() {
    assert!(empty_store().list_entries().is_empty());
}

#[test]
fn store_remove_entry_deletes_and_returns_it() {
    let mut store = empty_store();
    let e = entry("http://x/f.bin", "/tmp/f.bin");
    let id = e.id.clone();
    store.add_entry(e);

    let removed = store.remove_entry(&id);
    assert_eq!(removed.unwrap().id, id);
    assert!(store.list_entries().is_empty());
    assert!(store.remove_entry(&id).is_none());
}

#[test]
fn store_retry_entry_only_resets_failed_or_cancelled() {
    let mut store = empty_store();
    let failed_id = with_status(&mut store, "http://x/a", DownloadStatus::Failed);
    store.update_entry(&failed_id, |mut e| {
        e.error = Some("boom".into());
        e
    });
    let running_id = with_status(&mut store, "http://x/b", DownloadStatus::Downloading);

    assert!(store.retry_entry(&failed_id));
    let e = store.get_entry(&failed_id).unwrap();
    assert!(matches!(e.status, DownloadStatus::Queued));
    assert!(e.error.is_none());

    assert!(!store.retry_entry(&running_id));
    let e = store.get_entry(&running_id).unwrap();
    assert!(matches!(e.status, DownloadStatus::Downloading));
}

#[test]
fn store_clear_finished_removes_terminal_states_only() {
    let mut store = empty_store();
    for status in [DownloadStatus::Queued, DownloadStatus::Downloading, DownloadStatus::Finished, DownloadStatus::Failed] {
        with_status(&mut store, "http://x/f", status);
    }
    let removed = store.clear_finished();
    assert_eq!(removed.len(), 2);
    assert!(removed.iter().all(|e| matches!(e.status, DownloadStatus::Finished | DownloadStatus::Failed)));

    let remaining = store.list_entries();
    assert_eq!(remaining.len(), 2);
    assert!(remaining.iter().all(|e| matches!(e.status, DownloadStatus::Queued | DownloadStatus::Downloading)));
}

#[test]
fn set_progress_is_in_memory_until_flush() {
    let mut store = empty_store();
    let e = entry("http://x/f", "/tmp/f");
    let id = e.id.clone();
    store.add_entry(e);
    store.saved();

    let p = DownloadProgress {
        downloaded_bytes: 10,
        total_bytes: Some(100),
        done_units: 1,
        total_units: 5,
        speed_bps: 1,
    };
    store.set_progress(&id, p);
    assert_eq!(store.get_entry(&id).unwrap().progress.unwrap().downloaded_bytes, 10);
    // what changed waits for the next flush, which takes it once
    assert!(store.take_dirty());
    assert!(!store.take_dirty());
}

#[test]
fn update_where_touches_only_matches_and_persists_once() {
    let mut store = empty_store();
    for (author, status) in [
        (Some("@a"), DownloadStatus::Queued),
        (Some("@a"), DownloadStatus::Downloading),
        (Some("@b"), DownloadStatus::Queued),
        (None, DownloadStatus::Queued),
    ] {
        let id = with_status(&mut store, "http://x/f", status);
        store.update_entry(&id, |mut e| {
            e.author = author.map(str::to_string);
            e
        });
    }
    let touched = store.update_where(
        |e: &DownloadEntry| e.author.as_deref() == Some("@a") && e.status == DownloadStatus::Queued,
        |mut e: DownloadEntry| {
            e.status = DownloadStatus::Paused;
            e
        },
    );
    assert_eq!(touched.len(), 1);
    let paused = store.list_entries().iter().filter(|e| e.status == DownloadStatus::Paused).count();
    assert_eq!(paused, 1, "only the one @a/Queued entry");
}

#[test]
fn remove_where_drops_matches_keeps_rest() {
    let mut store = empty_store();
    for status in [DownloadStatus::Queued, DownloadStatus::Paused, DownloadStatus::Finished] {
        with_status(&mut store, "http://x/f", status);
    }
    let removed = store.remove_where(|e: &DownloadEntry| !matches!(e.status, DownloadStatus::Finished));
    assert_eq!(removed.len(), 2);

    let remaining = store.list_entries();
    assert_eq!(remaining.len(), 1);
    assert!(matches!(remaining[0].status, DownloadStatus::Finished));
}

#[test]
fn waiting_downloads_are_claimed_once() {
    let mut store = empty_store();
    let id = with_status(&mut store, "http://x/f", DownloadStatus::Queued);
    assert!(store.try_claim(&id));
    assert!(!store.try_claim(&id));
}

fn manager_with(url: &str, dest: &str) -> (DownloadManager, String) {
    let mut store = empty_store();
    let e = entry(url, dest);
    let id = e.id.clone();
    store.add_entry(e);
    (DownloadManager::new(store, 2, 2), id)
}

#[test]
fn manager_run_entry_now_runs_without_a_separate_run_queued_call() {
    let (mut manager, id) = manager_with("http://127.0.0.1:1/does-not-exist", "/tmp/out.bin");
    assert!(matches!(manager.run_entry_now(&id), RunNow::Start));
    let run = manager.begin(&id, BackendConfig::default()).unwrap();
    manager.fail(&run, "connection refused".into(), 1000);

    let updated = manager.store.get_entry(&id).unwrap();
    assert!(matches!(updated.status, DownloadStatus::Failed), "should have actually run, not stayed Queued");
    assert_eq!(updated.next_retry_at, Some(1030));
}

#[test]
fn manager_run_entry_now_is_a_noop_for_non_queued_entries() {
    let (mut manager, id) = manager_with("http://x/f", "/tmp/out.bin");
    manager.store.update_entry(&id, |mut e| {
        e.status = DownloadStatus::Finished;
        e
    });
    assert!(matches!(manager.run_entry_now(&id), RunNow::Nothing));

    let unchanged = manager.store.get_entry(&id).unwrap();
    assert!(matches!(unchanged.status, DownloadStatus::Finished), "should not re-run an already-finished entry");
}

#[test]
fn unknown_downloads_are_named() {
    let (manager, _) = manager_with("http://x/f", "/tmp/out.bin");
    match manager.run_entry_now("nope") {
        RunNow::Missing(message) => assert!(message.contains("nope")),
        other => panic!("unexpected {other:?}"),
    }
}

#[test]
fn manager_pause_entry_aborts_a_running_download_and_marks_it_paused() {
    let (mut manager, id) = manager_with("http://127.0.0.1:1/never-responds", "/tmp/out.bin");
    manager.begin(&id, BackendConfig::default()).unwrap();
    assert!(
        matches!(manager.store.get_entry(&id).unwrap().status, DownloadStatus::Downloading),
        "download never started"
    );

    assert!(manager.pause_entry(&id));
    assert!(matches!(manager.store.get_entry(&id).unwrap().status, DownloadStatus::Paused));
    assert!(!manager.pause_entry(&id), "pausing an already-paused entry is a no-op");
}

#[test]
fn manager_marks_entry_failed_on_bad_url() {
    let (mut manager, id) = manager_with("http://127.0.0.1:1/does-not-exist", "/tmp/out.bin");
    assert_eq!(manager.run_queued(), vec![id.clone()]);
    let run = manager.begin(&id, BackendConfig::default()).unwrap();
    manager.fail(&run, "connection refused".into(), 1000);

    let updated = manager.store.get_entry(&id).unwrap();
    assert!(matches!(updated.status, DownloadStatus::Failed));
    assert!(updated.error.is_some());
}

#[test]
fn finished_runs_keep_their_files() {
    let (mut manager, id) = manager_with("http://x/f", "/tmp/out.bin");
    let run = manager.begin(&id, BackendConfig::default()).unwrap();
    manager.store.apply_event(&id, JobEvent::Converting);
    assert_eq!(manager.store.get_entry(&id).unwrap().status, DownloadStatus::Converting);
    let outcome = Outcome {
        files: vec!["/tmp/a.mp4".into(), "/tmp/b.mp4".into()],
        meta: EntryMeta::default(),
        expected_units: None,
    };
    manager.succeed(&run, outcome);
    let e = manager.store.get_entry(&id).unwrap();
    assert_eq!(e.status, DownloadStatus::Finished);
    assert_eq!(e.dest, "/tmp/a.mp4");
    assert_eq!(e.extra_files, vec!["/tmp/b.mp4".to_string()]);
}

#[test]
fn clear_finished_with_delete_files_removes_output_and_cache_dir() {
    let (mut manager, id) = manager_with("http://x/f", "/tmp/out.bin");
    manager.store.update_entry(&id, |mut e| {
        e.status = DownloadStatus::Finished;
        e
    });
    let (removed_count, artifacts) = manager.clear_finished(true);

    assert_eq!(removed_count, 1);
    assert!(manager.store.list_entries().is_empty());
    let cache_dir = cache_dir_for("/tmp/out.bin");
    assert!(artifacts.iter().any(|a| matches!(a, Artifact::File(f) if f == "/tmp/out.bin")), "output file should be deleted");
    assert!(artifacts.iter().any(|a| matches!(a, Artifact::Folder(f) if *f == cache_dir)), "cache dir should be deleted");
}

#[test]
fn manager_remove_entry_without_delete_files_keeps_output_on_disk() {
    let (mut manager, id) = manager_with("http://x/f", "/tmp/out.bin");
    let (removed, artifacts) = manager.remove_entry(&id, false);
    assert!(removed);
    assert!(manager.store.get_entry(&id).is_none());
    assert!(artifacts.is_empty(), "output file should be left alone");
}
