use soulful::albums::{find_best_albums, process_search_responses, sort_albums_by_score};
use soulful::matching::classify;
use soulful::models::{
    AlbumResult, MatchResult, SearchResponse, SearchResponseFile, SearchResult, TrackResult,
};
use soulful::session::{PollEvent, PollGate, SearchSession, SessionOutcome};

fn sr(username: &str, filename: &str, bitrate: Option<i32>) -> SearchResult {
    SearchResult {
        username: username.to_string(),
        filename: filename.to_string(),
        size: 1024 * 1024,
        bitrate,
        duration: Some(200),
        has_free_upload_slot: false,
        upload_speed: 50,
        queue_length: 0,
    }
}

#[test]
fn quality_label_is_lowercased_extension() {
    assert_eq!(sr("u", "dir/Song.FLAC", None).quality(), "flac");
    assert_eq!(sr("u", "dir/Song.mp3", None).quality(), "mp3");
    assert_eq!(sr("u", "dir/NoExtension", None).quality(), "unknown");
    assert_eq!(sr("u", "dir/.hidden", None).quality(), "unknown");
}

#[test]
fn quality_score_exact_values() {
    // flac base 100, +20 for 320 kbps, capped at 100
    assert_eq!(sr("u", "a/b.flac", Some(320)).quality_score(), 100);
    // mp3 base 55, -30 below 128 kbps
    assert_eq!(sr("u", "a/b.mp3", Some(96)).quality_score(), 25);
    // wav base 95, +10 for 256 kbps, capped
    assert_eq!(sr("u", "a/b.wav", Some(256)).quality_score(), 100);
    // unknown extension base 30
    assert_eq!(sr("u", "a/b.xyz", None).quality_score(), 30);
    // free slot +10, fast uploader +5, long queue -10
    let mut s = sr("u", "a/b.ogg", None);
    s.has_free_upload_slot = true;
    s.upload_speed = 200;
    s.queue_length = 20;
    assert_eq!(s.quality_score(), 60 + 10 + 5 - 10);
}

#[test]
fn quality_score_monotone_in_bitrate_tier_and_extension() {
    // same candidate, rising bitrate tiers: score never decreases
    let tiers = [Some(64), None, Some(256), Some(320)];
    let mut last = i64::MIN;
    for t in tiers {
        let score = sr("u", "a/b.mp3", t).quality_score();
        assert!(score >= last);
        last = score;
    }
    // same candidate, rising extension rank
    let exts = ["a/b.zzz", "a/b.wma", "a/b.mp3", "a/b.ogg", "a/b.aac", "a/b.wav", "a/b.flac"];
    let mut last = i64::MIN;
    for e in exts {
        let score = sr("u", e, None).quality_score();
        assert!(score >= last);
        assert!(score <= 100);
        last = score;
    }
}

#[test]
fn classify_scores_a_matching_path() {
    let expected = vec!["T1".to_string(), "T2".to_string()];
    let m: MatchResult = classify("/d/X - Y/T1.flac", "X", "Y", &expected);
    assert_eq!(m.guessed_artist, "d");
    assert_eq!(m.guessed_album, "X - Y");
    assert_eq!(m.matched_track, "T1");
    assert_eq!(m.artist_score, 100);
    assert_eq!(m.album_score, 100);
    assert_eq!(m.track_score, 100);
    assert_eq!(m.total_score, 100);
}

#[test]
fn classify_rejects_unrelated_path() {
    let expected = vec!["T1".to_string()];
    let m = classify("/music/Other - Album/Song.mp3", "X", "Y", &expected);
    assert_eq!(m.artist_score, 0);
    assert_eq!(m.album_score, 0);
    assert_eq!(m.track_score, 0);
    assert_eq!(m.total_score, 0);
}

fn scored(pairs: &[(&str, &str, Option<i32>)], artist: &str, album: &str, expected: &Vec<String>)
    -> Vec<(MatchResult, SearchResult)> {
    let responses: Vec<SearchResponse> = pairs
        .iter()
        .map(|(user, file, br)| SearchResponse {
            username: user.to_string(),
            files: vec![SearchResponseFile {
                filename: file.to_string(),
                size: 1024 * 1024,
                bit_rate: *br,
                length: Some(200),
            }],
            has_free_upload_slot: true,
            upload_speed: 200,
            queue_length: 0,
        })
        .collect();
    process_search_responses(&responses, artist, album, expected)
}

#[test]
fn incomplete_albums_are_dropped() {
    // expected titles A and B; candidates cover only A => zero albums
    let expected = vec!["A".to_string(), "B".to_string()];
    let pairs = scored(&[("p1", "/m/X - Y/A.flac", None)], "X", "Y", &expected);
    let albums = find_best_albums(&pairs, &expected);
    assert_eq!(albums.len(), 0);
}

#[test]
fn empty_expectation_assembles_nothing() {
    let expected: Vec<String> = vec![];
    let pairs = scored(&[("p1", "/m/X - Y/A.flac", None)], "X", "Y", &expected);
    let albums = find_best_albums(&pairs, &expected);
    assert_eq!(albums.len(), 0);
}

#[test]
fn repeated_expected_title_assembles_nothing() {
    let expected = vec!["A".to_string(), "A".to_string()];
    let pairs = scored(&[("p1", "/m/X - Y/A.flac", None)], "X", "Y", &expected);
    let albums = find_best_albums(&pairs, &expected);
    assert_eq!(albums.len(), 0);
}

#[test]
fn best_candidate_per_title_wins() {
    let expected = vec!["A".to_string()];
    // both files match title A for the same peer and folder; the flac at 320
    // has the higher quality score and must be the one kept
    let pairs = scored(
        &[("p1", "/m/X - Y/A.mp3", Some(96)), ("p1", "/m/X - Y/A.flac", Some(320))],
        "X",
        "Y",
        &expected,
    );
    let albums = find_best_albums(&pairs, &expected);
    assert_eq!(albums.len(), 1);
    assert_eq!(albums[0].tracks.len(), 1);
    assert_eq!(albums[0].tracks[0].base.filename, "/m/X - Y/A.flac");
}

#[test]
fn sorting_is_descending_by_score() {
    let expected = vec!["A".to_string()];
    // two peers with different quality => different album scores
    let pairs = scored(
        &[("low", "/m/X - Y/A.mp3", Some(96)), ("high", "/m/X - Y/A.flac", Some(320))],
        "X",
        "Y",
        &expected,
    );
    let mut albums: Vec<AlbumResult> = find_best_albums(&pairs, &expected);
    sort_albums_by_score(&mut albums);
    assert_eq!(albums.len(), 2);
    for w in albums.windows(2) {
        assert!(w[0].score >= w[1].score);
    }
    assert_eq!(albums[0].username, "high");
}

#[test]
fn end_to_end_search_scenario() {
    // a search for artist "X", album "Y", expected tracks T1 and T2:
    // peer1 offers both as flac, peer2 only T1 => one album, peer1, flac
    let expected = vec!["T1".to_string(), "T2".to_string()];
    let mut session = SearchSession::start("s1".to_string(), 45_000);
    let responses = vec![
        SearchResponse {
            username: "peer1".to_string(),
            files: vec![
                SearchResponseFile {
                    filename: "/d/X - Y/T1.flac".to_string(),
                    size: 10,
                    bit_rate: Some(320),
                    length: None,
                },
                SearchResponseFile {
                    filename: "/d/X - Y/T2.flac".to_string(),
                    size: 20,
                    bit_rate: None,
                    length: None,
                },
            ],
            has_free_upload_slot: true,
            upload_speed: 10,
            queue_length: 0,
        },
        SearchResponse {
            username: "peer2".to_string(),
            files: vec![SearchResponseFile {
                filename: "/d/X - Y/T1.mp3".to_string(),
                size: 5,
                bit_rate: Some(128),
                length: None,
            }],
            has_free_upload_slot: false,
            upload_speed: 1,
            queue_length: 3,
        },
    ];
    let outcome = session.absorb(PollEvent::Responses(responses));
    assert!(outcome.is_none());
    let albums = session.conclude("X", "Y", &expected);
    assert_eq!(albums.len(), 1);
    let album = &albums[0];
    assert_eq!(album.username, "peer1");
    assert_eq!(album.track_count, 2);
    assert_eq!(album.tracks.len(), 2);
    assert_eq!(album.tracks[0].title, "T1");
    assert_eq!(album.tracks[1].title, "T2");
    assert_eq!(album.dominant_quality, "flac");
    assert_eq!(album.total_size, 30);
    assert_eq!(album.album_title, "X - Y");
}

#[test]
fn responses_never_regress() {
    let mut session = SearchSession::start("s2".to_string(), 1_000);
    let one = vec![SearchResponse {
        username: "p".to_string(),
        files: vec![],
        has_free_upload_slot: false,
        upload_speed: 0,
        queue_length: 0,
    }];
    assert!(session.absorb(PollEvent::Responses(one.clone())).is_none());
    assert_eq!(session.responses.len(), 1);
    // a shrunken poll result is ignored
    assert!(session.absorb(PollEvent::Responses(vec![])).is_none());
    assert_eq!(session.responses.len(), 1);
}

#[test]
fn track_result_carries_the_match() {
    let m = MatchResult {
        guessed_artist: "ar".to_string(),
        guessed_album: "al".to_string(),
        matched_track: "t".to_string(),
        artist_score: 80,
        album_score: 70,
        track_score: 90,
        total_score: 85,
    };
    let t = TrackResult::new(sr("u", "f.flac", None), m);
    assert_eq!(t.artist, "ar");
    assert_eq!(t.album, "al");
    assert_eq!(t.title, "t");
    assert_eq!(t.match_score, 85);
    assert_eq!(t.base.username, "u");
}

#[test]
fn classify_with_no_expected_tracks() {
    let expected: Vec<String> = vec![];
    let m = classify("/d/X - Y/T1.flac", "X", "Y", &expected);
    assert_eq!(m.matched_track, "");
    assert_eq!(m.track_score, 0);
    // artist and album still match, but half the weight is gone
    assert_eq!(m.total_score, 50);
}

#[test]
fn poll_gate_transitions() {
    let mut session = SearchSession::start("s3".to_string(), 1_000);
    assert_eq!(session.poll_gate(0), PollGate::Fetch);
    assert_eq!(session.poll_gate(999), PollGate::Fetch);
    assert_eq!(session.poll_gate(1_000), PollGate::Leave(SessionOutcome::TimedOut));
    session.cancel();
    assert_eq!(session.poll_gate(0), PollGate::Leave(SessionOutcome::Cancelled));
}

#[test]
fn album_size_helpers() {
    let a = AlbumResult {
        username: "u".to_string(),
        album_path: "p".to_string(),
        album_title: "t".to_string(),
        artist: None,
        track_count: 2,
        total_size: 5 * 1024 * 1024,
        tracks: vec![],
        dominant_quality: "flac".to_string(),
        has_free_upload_slot: false,
        upload_speed: 0,
        queue_length: 0,
        score: 0,
    };
    assert_eq!(a.size_mb(), 5);
    // hundredths of a megabyte per track
    assert_eq!(a.average_track_size_mb(), 250);

    let mut b = a.clone();
    b.total_size = -5 * 1024 * 1024;
    assert_eq!(b.size_mb(), -5);
    assert_eq!(b.average_track_size_mb(), -250);
}
