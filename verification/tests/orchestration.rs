use soulful::client::{
    classify_response, resolve_container_host, resolve_delete_result, search_query, GatewayReply,
    SoulseekClientBuilder,
};
use soulful::downloads::{
    collect_download_responses, import_command_args, plan_download_submissions,
    DownloadMonitor, MonitorStep, DOWNLOAD_POLL_MAX_ATTEMPTS,
};
use soulful::error::SoulseekError;
use soulful::models::{
    DownloadResponse, DownloadState, DownloadStatus, MatchResult, SearchResult, TrackResult,
};
use soulful::rate::RateLimiter;

fn track(user: &str, file: &str, size: i64) -> TrackResult {
    let base = SearchResult {
        username: user.to_string(),
        filename: file.to_string(),
        size,
        bitrate: None,
        duration: None,
        has_free_upload_slot: false,
        upload_speed: 0,
        queue_length: 0,
    };
    let matched = MatchResult {
        guessed_artist: "a".to_string(),
        guessed_album: "b".to_string(),
        matched_track: "t".to_string(),
        artist_score: 100,
        album_score: 100,
        track_score: 100,
        total_score: 100,
    };
    TrackResult::new(base, matched)
}

fn status(file: &str, state: DownloadState) -> DownloadStatus {
    DownloadStatus {
        id: "id".to_string(),
        filename: file.to_string(),
        username: "p".to_string(),
        state,
        progress_centi_percent: 0,
        size: 1,
        transferred: 0,
        speed: 0,
        time_remaining: None,
    }
}

#[test]
fn rate_limiter_delays_admission_past_ceiling() {
    // ceiling 3, window 1000 ms: admissions at 0, 1, 2 pass at once, the
    // fourth at 3 must wait until one window after the first
    let mut limiter = RateLimiter::new(1000, 3);
    assert_eq!(limiter.admit_at(0), 0);
    assert_eq!(limiter.admit_at(1), 0);
    assert_eq!(limiter.admit_at(2), 0);
    let wait = limiter.admit_at(3);
    assert_eq!(wait, 997);
    assert!(3 + wait >= 0 + 1000);
}

#[test]
fn rate_limiter_forgets_old_admissions() {
    let mut limiter = RateLimiter::new(1000, 2);
    assert_eq!(limiter.admit_at(0), 0);
    assert_eq!(limiter.admit_at(10), 0);
    // both earlier admissions have left the window by 2000
    assert_eq!(limiter.admit_at(2000), 0);
}

#[test]
fn submissions_group_by_peer() {
    // peers {p1: 2 files, p2: 1 file} => exactly two batches
    let tracks = vec![
        track("p1", "f1.flac", 1),
        track("p2", "g1.flac", 2),
        track("p1", "f2.flac", 3),
    ];
    let plan = plan_download_submissions(&tracks);
    assert_eq!(plan.len(), 2);
    assert_eq!(plan[0].username, "p1");
    assert_eq!(plan[0].files.len(), 2);
    assert_eq!(plan[0].files[0].filename, "f1.flac");
    assert_eq!(plan[0].files[1].filename, "f2.flac");
    assert_eq!(plan[1].username, "p2");
    assert_eq!(plan[1].files.len(), 1);
    assert_eq!(plan[1].files[0].filename, "g1.flac");
}

#[test]
fn collection_keeps_successes_when_a_peer_fails() {
    let results = vec![
        Ok(vec![
            DownloadResponse { id: "a".to_string() },
            DownloadResponse { id: "b".to_string() },
        ]),
        Err(SoulseekError::Transport("down".to_string())),
        Ok(vec![DownloadResponse { id: "c".to_string() }]),
    ];
    let merged = collect_download_responses(&results);
    let ids: Vec<&str> = merged.iter().map(|d| d.id.as_str()).collect();
    assert_eq!(ids, vec!["a", "b", "c"]);
}

#[test]
fn monitoring_scenario_completes_and_imports_once() {
    // a batch of three filenames; all reach `completed`; the loop ends on the
    // poll after the last transition with the deduplicated resolved paths
    let names = vec![
        "d1\\d2\\Album\\01.flac".to_string(),
        "d1\\d2\\Album\\02.flac".to_string(),
        "d1\\d2\\Album\\03.flac".to_string(),
    ];
    let mut monitor = DownloadMonitor::start(names, DOWNLOAD_POLL_MAX_ATTEMPTS, "/dl".to_string());

    let in_progress = vec![
        status("d1\\d2\\Album\\01.flac", DownloadState::Completed),
        status("d1\\d2\\Album\\02.flac", DownloadState::InProgress),
        status("d1\\d2\\Album\\03.flac", DownloadState::Completed),
        status("other.flac", DownloadState::InProgress),
    ];
    match monitor.tick(Some(&in_progress)) {
        MonitorStep::KeepPolling => {}
        _ => panic!("monitoring should continue while a transfer is active"),
    }

    let done = vec![
        status("d1\\d2\\Album\\01.flac", DownloadState::Completed),
        status("d1\\d2\\Album\\02.flac", DownloadState::Completed),
        status("d1\\d2\\Album\\03.flac", DownloadState::Completed),
    ];
    match monitor.tick(Some(&done)) {
        MonitorStep::Finished(paths) => {
            assert_eq!(
                paths,
                vec![
                    "/dl/Album/01.flac".to_string(),
                    "/dl/Album/02.flac".to_string(),
                    "/dl/Album/03.flac".to_string(),
                ]
            );
        }
        _ => panic!("monitoring should finish once every transfer is terminal"),
    }
}

#[test]
fn monitoring_failures_and_absence() {
    let names = vec!["a/f.flac".to_string()];
    let mut monitor = DownloadMonitor::start(names.clone(), 600, "/dl".to_string());
    // a failed poll keeps the loop alive
    match monitor.tick(None) {
        MonitorStep::KeepPolling => {}
        _ => panic!("a transport error must not end monitoring"),
    }
    // none of the batch present: treated as resolved
    let unrelated = vec![status("other.flac", DownloadState::InProgress)];
    match monitor.tick(Some(&unrelated)) {
        MonitorStep::AssumeResolved => {}
        _ => panic!("an absent batch counts as resolved"),
    }
    // a failed batch finishes without import paths
    let mut monitor = DownloadMonitor::start(names, 600, "/dl".to_string());
    let failed = vec![status("a/f.flac", DownloadState::Errored)];
    match monitor.tick(Some(&failed)) {
        MonitorStep::Finished(paths) => assert!(paths.is_empty()),
        _ => panic!("an errored batch is still finished"),
    }
}

#[test]
fn monitoring_gives_up_at_the_cap() {
    let mut monitor = DownloadMonitor::start(vec!["f".to_string()], 2, "/dl".to_string());
    match monitor.tick(None) {
        MonitorStep::KeepPolling => {}
        _ => panic!("first attempt within the cap"),
    }
    match monitor.tick(None) {
        MonitorStep::KeepPolling => {}
        _ => panic!("second attempt within the cap"),
    }
    match monitor.tick(None) {
        MonitorStep::GaveUp => {}
        _ => panic!("the cap ends monitoring"),
    }
}

#[test]
fn deduplicated_import_paths() {
    let names = vec!["x/a.flac".to_string(), "y/x/a.flac".to_string()];
    let mut monitor = DownloadMonitor::start(names, 600, "/dl".to_string());
    // both filenames reduce to the same parent/basename tail
    let done = vec![
        status("x/a.flac", DownloadState::Succeeded),
        status("y/x/a.flac", DownloadState::Succeeded),
    ];
    match monitor.tick(Some(&done)) {
        MonitorStep::Finished(paths) => {
            assert_eq!(paths, vec!["/dl/x/a.flac".to_string()]);
        }
        _ => panic!("both transfers are terminal"),
    }
}

#[test]
fn gateway_replies_are_classified() {
    match classify_response(200, "  \n ".to_string()) {
        GatewayReply::Absent => {}
        _ => panic!("a blank 2xx body is an absent result"),
    }
    match classify_response(200, "{\"id\":\"x\"}".to_string()) {
        GatewayReply::Payload(b) => assert_eq!(b, "{\"id\":\"x\"}"),
        _ => panic!("a 2xx body is handed on for parsing"),
    }
    match classify_response(500, "boom".to_string()) {
        GatewayReply::Failure(SoulseekError::Api { status, message }) => {
            assert_eq!(status, 500);
            assert_eq!(message, "boom");
        }
        _ => panic!("a non-2xx reply is an Api error"),
    }
}

#[test]
fn deleting_a_missing_search_counts_as_deleted() {
    assert!(resolve_delete_result(Ok(())).is_ok());
    let gone = SoulseekError::Api { status: 404, message: "missing".to_string() };
    assert!(resolve_delete_result(Err(gone)).is_ok());
    let other = SoulseekError::Api { status: 500, message: "boom".to_string() };
    match resolve_delete_result(Err(other)) {
        Err(SoulseekError::Api { status, .. }) => assert_eq!(status, 500),
        _ => panic!("other errors pass through"),
    }
}

#[test]
fn builder_defaults_and_validation() {
    let built = SoulseekClientBuilder::new()
        .base_url("http://localhost:5030/")
        .api_key("k")
        .build()
        .unwrap();
    assert_eq!(built.base_url, "http://localhost:5030");
    assert_eq!(built.api_key.as_deref(), Some("k"));
    assert_eq!(built.download_path, "./downloads");
    assert_eq!(built.limiter.ceiling, 35);
    assert_eq!(built.limiter.window_ms, 220_000);

    match SoulseekClientBuilder::new().build() {
        Err(SoulseekError::NotConfigured) => {}
        _ => panic!("a missing base URL is a configuration error"),
    }
    match SoulseekClientBuilder::new().base_url("no scheme at all").build() {
        Err(SoulseekError::NotConfigured) => {}
        _ => panic!("an unparsable base URL is a configuration error"),
    }
}

#[test]
fn request_urls_resolve_against_the_base() {
    let client = SoulseekClientBuilder::new()
        .base_url("http://localhost:5030")
        .build()
        .unwrap();
    let url = client.request_url("searches").unwrap();
    assert_eq!(url, "http://localhost:5030/api/v0/searches");
    let ep = soulful::client::search_responses_endpoint("abc");
    assert_eq!(ep, "searches/abc/responses");
    let url = client.request_url(ep.as_str()).unwrap();
    assert_eq!(url, "http://localhost:5030/api/v0/searches/abc/responses");
    assert_eq!(soulful::client::delete_search_endpoint("abc"), "searches/abc");
    assert_eq!(
        soulful::client::peer_downloads_endpoint("peer"),
        "transfers/downloads/peer"
    );
    assert_eq!(
        soulful::client::cancel_download_endpoint("peer", "7", true),
        "transfers/downloads/peer/7?remove=true"
    );
    assert_eq!(
        soulful::client::clear_completed_endpoint(),
        "transfers/downloads/all/completed"
    );
}

#[test]
fn container_host_rewrite() {
    assert_eq!(
        resolve_container_host("http://localhost:5030", true),
        "http://host.docker.internal:5030"
    );
    assert_eq!(
        resolve_container_host("http://localhost/localhost", true),
        "http://host.docker.internal/host.docker.internal"
    );
    assert_eq!(
        resolve_container_host("http://localhost:5030", false),
        "http://localhost:5030"
    );
    assert_eq!(resolve_container_host("http://example.net", true), "http://example.net");
}

#[test]
fn search_query_trims_both_names() {
    assert_eq!(search_query(" The Artist ", "  The Album"), "The Artist The Album");
}

#[test]
fn import_arguments_in_order() {
    let sources = vec!["/dl/a.flac".to_string(), "/dl/b.flac".to_string()];
    let args = import_command_args("beets.yaml", "/library", &sources);
    assert_eq!(
        args,
        vec![
            "-c".to_string(),
            "beets.yaml".to_string(),
            "-d".to_string(),
            "/library".to_string(),
            "import".to_string(),
            "-s".to_string(),
            "-q".to_string(),
            "/dl/a.flac".to_string(),
            "/dl/b.flac".to_string(),
        ]
    );
}
