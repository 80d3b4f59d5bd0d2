use vstd::prelude::*;
use vstd::string::StringExecFns;
use crate::text::{
    chars_eq_str, ext_of, extension_chars, quality_of, string_from_chars,
};

verus! {

/// One peer-advertised file together with the offering peer's capabilities.
#[derive(Debug, Clone, PartialEq)]
pub struct SearchResult {
    pub username: String,
    pub filename: String,
    pub size: i64,
    pub bitrate: Option<i32>,
    pub duration: Option<i32>,
    pub has_free_upload_slot: bool,
    pub upload_speed: i32,
    pub queue_length: i32,
}

/// The mathematical model of a `SearchResult`.
pub ghost struct SearchResultGhost {
    pub username: Seq<char>,
    pub filename: Seq<char>,
    pub size: i64,
    pub bitrate: Option<i32>,
    pub duration: Option<i32>,
    pub has_free_upload_slot: bool,
    pub upload_speed: i32,
    pub queue_length: i32,
}

impl View for SearchResult {
    type V = SearchResultGhost;

    open spec fn view(&self) -> SearchResultGhost {
        SearchResultGhost {
            username: self.username@,
            filename: self.filename@,
            size: self.size,
            bitrate: self.bitrate,
            duration: self.duration,
            has_free_upload_slot: self.has_free_upload_slot,
            upload_speed: self.upload_speed,
            queue_length: self.queue_length,
        }
    }
}

impl DeepView for SearchResult {
    type V = SearchResultGhost;

    open spec fn deep_view(&self) -> SearchResultGhost {
        self@
    }
}

/// Base score of a file extension: lossless formats rank highest, lossy codecs
/// lower, and an unrecognized extension lowest. Scores are in hundredths.
pub open spec fn ext_weight(q: Seq<char>) -> int {
    if q == "flac"@ {
        100
    } else if q == "wav"@ {
        95
    } else if q == "m4a"@ {
        65
    } else if q == "aac"@ {
        65
    } else if q == "ogg"@ {
        60
    } else if q == "mp3"@ {
        55
    } else if q == "wma"@ {
        40
    } else {
        30
    }
}

/// Score adjustment for the bitrate tier: a bonus for high bitrates, a penalty
/// below 128 kbps, nothing when the bitrate is unknown.
pub open spec fn bitrate_adj(b: Option<i32>) -> int {
    match b {
        Some(br) => if br >= 320 {
            20
        } else if br >= 256 {
            10
        } else if br < 128 {
            -30
        } else {
            0
        },
        None => 0,
    }
}

/// Audio quality of a peer file, in hundredths: extension weight, adjusted by
/// bitrate tier, a free-upload-slot bonus, a fast-uploader bonus and a
/// long-queue penalty, capped at 100 with no floor.
pub open spec fn quality_score_spec(sr: SearchResultGhost) -> int {
    let t = ext_weight(quality_of(sr.filename)) + bitrate_adj(sr.bitrate) + (
    if sr.has_free_upload_slot {
        10int
    } else {
        0int
    }) + (if sr.upload_speed > 100 {
        5int
    } else {
        0int
    }) + (if sr.queue_length > 10 {
        -10int
    } else {
        0int
    });
    if t > 100 {
        100
    } else {
        t
    }
}

/// The quality score never exceeds 100 and never drops below -10.
pub proof fn lemma_quality_score_range(sr: SearchResultGhost)
    ensures
        -10 <= quality_score_spec(sr) <= 100,
{
}

/// Holding everything else fixed, the quality score is monotonically
/// non-decreasing in the bitrate tier.
pub proof fn lemma_quality_score_monotone_bitrate(a: SearchResultGhost, b: SearchResultGhost)
    requires
        a.filename == b.filename,
        a.has_free_upload_slot == b.has_free_upload_slot,
        a.upload_speed == b.upload_speed,
        a.queue_length == b.queue_length,
        bitrate_adj(a.bitrate) <= bitrate_adj(b.bitrate),
    ensures
        quality_score_spec(a) <= quality_score_spec(b),
{
}

/// Holding everything else fixed, the quality score is monotonically
/// non-decreasing in the extension rank.
pub proof fn lemma_quality_score_monotone_extension(a: SearchResultGhost, b: SearchResultGhost)
    requires
        a.bitrate == b.bitrate,
        a.has_free_upload_slot == b.has_free_upload_slot,
        a.upload_speed == b.upload_speed,
        a.queue_length == b.queue_length,
        ext_weight(quality_of(a.filename)) <= ext_weight(quality_of(b.filename)),
    ensures
        quality_score_spec(a) <= quality_score_spec(b),
{
}

/// The extension weight of a quality label, decided by content.
fn ext_weight_exec(v: &Vec<char>) -> (w: i64)
    ensures
        w == ext_weight(v@),
{
    if chars_eq_str(v, "flac") {
        100
    } else if chars_eq_str(v, "wav") {
        95
    } else if chars_eq_str(v, "m4a") {
        65
    } else if chars_eq_str(v, "aac") {
        65
    } else if chars_eq_str(v, "ogg") {
        60
    } else if chars_eq_str(v, "mp3") {
        55
    } else if chars_eq_str(v, "wma") {
        40
    } else {
        30
    }
}

impl SearchResult {
    /// The lowercased extension of the advertised filename, or `"unknown"`
    /// when the basename has no extension.
    pub fn quality(&self) -> (r: String)
        ensures
            r@ == quality_of(self.filename@),
    {
        match extension_chars(self.filename.as_str()) {
            Some(v) => string_from_chars(&v),
            None => String::from_str("unknown"),
        }
    }

    /// The audio quality score of this file, in hundredths, per
    /// `quality_score_spec`.
    pub fn quality_score(&self) -> (r: i64)
        ensures
            r == quality_score_spec(self@),
            -10 <= r <= 100,
    {
        let w: i64;
        match extension_chars(self.filename.as_str()) {
            Some(v) => {
                w = ext_weight_exec(&v);
            },
            None => {
                proof {
                    reveal_strlit("unknown");
                    reveal_strlit("flac");
                    reveal_strlit("wav");
                    reveal_strlit("m4a");
                    reveal_strlit("aac");
                    reveal_strlit("ogg");
                    reveal_strlit("mp3");
                    reveal_strlit("wma");
                }
                w = 30;
                // the revealed literals differ in length, so the label of an
                // extension-less file matches no audio extension
                assert(quality_of(self.filename@) == "unknown"@);
                assert("unknown"@ != "flac"@);
                assert("unknown"@ != "wav"@);
                assert(w == ext_weight(quality_of(self.filename@)));
            },
        }
        assert(w == ext_weight(quality_of(self.filename@)));
        let badj: i64 = match self.bitrate {
            Some(br) => {
                if br >= 320 {
                    20
                } else if br >= 256 {
                    10
                } else if br < 128 {
                    -30
                } else {
                    0
                }
            },
            None => 0,
        };
        let mut t: i64 = w + badj;
        if self.has_free_upload_slot {
            t = t + 10;
        }
        if self.upload_speed > 100 {
            t = t + 5;
        }
        if self.queue_length > 10 {
            t = t - 10;
        }
        if t > 100 {
            100
        } else {
            t
        }
    }

    /// A field-for-field copy of this result.
    pub fn duplicate(&self) -> (r: SearchResult)
        ensures
            r@ == self@,
    {
        SearchResult {
            username: self.username.clone(),
            filename: self.filename.clone(),
            size: self.size,
            bitrate: self.bitrate,
            duration: self.duration,
            has_free_upload_slot: self.has_free_upload_slot,
            upload_speed: self.upload_speed,
            queue_length: self.queue_length,
        }
    }
}

/// How a candidate filename relates to the expected artist, album and track
/// titles. Scores are similarities in hundredths.
#[derive(Debug, Clone)]
pub struct MatchResult {
    pub guessed_artist: String,
    pub guessed_album: String,
    pub matched_track: String,
    pub artist_score: i64,
    pub album_score: i64,
    pub track_score: i64,
    pub total_score: i64,
}

/// The mathematical model of a `MatchResult`.
pub ghost struct MatchResultGhost {
    pub guessed_artist: Seq<char>,
    pub guessed_album: Seq<char>,
    pub matched_track: Seq<char>,
    pub artist_score: i64,
    pub album_score: i64,
    pub track_score: i64,
    pub total_score: i64,
}

impl View for MatchResult {
    type V = MatchResultGhost;

    open spec fn view(&self) -> MatchResultGhost {
        MatchResultGhost {
            guessed_artist: self.guessed_artist@,
            guessed_album: self.guessed_album@,
            matched_track: self.matched_track@,
            artist_score: self.artist_score,
            album_score: self.album_score,
            track_score: self.track_score,
            total_score: self.total_score,
        }
    }
}

impl DeepView for MatchResult {
    type V = MatchResultGhost;

    open spec fn deep_view(&self) -> MatchResultGhost {
        self@
    }
}

impl MatchResult {
    /// A field-for-field copy of this match.
    pub fn duplicate(&self) -> (r: MatchResult)
        ensures
            r@ == self@,
    {
        MatchResult {
            guessed_artist: self.guessed_artist.clone(),
            guessed_album: self.guessed_album.clone(),
            matched_track: self.matched_track.clone(),
            artist_score: self.artist_score,
            album_score: self.album_score,
            track_score: self.track_score,
            total_score: self.total_score,
        }
    }
}

/// A peer file paired with what it matched: the unit albums are grouped from.
#[derive(Debug, Clone)]
pub struct TrackResult {
    pub base: SearchResult,
    pub artist: String,
    pub title: String,
    pub album: String,
    pub match_score: i64,
}

/// The mathematical model of a `TrackResult`.
pub ghost struct TrackResultGhost {
    pub base: SearchResultGhost,
    pub artist: Seq<char>,
    pub title: Seq<char>,
    pub album: Seq<char>,
    pub match_score: i64,
}

impl View for TrackResult {
    type V = TrackResultGhost;

    open spec fn view(&self) -> TrackResultGhost {
        TrackResultGhost {
            base: self.base@,
            artist: self.artist@,
            title: self.title@,
            album: self.album@,
            match_score: self.match_score,
        }
    }
}

impl DeepView for TrackResult {
    type V = TrackResultGhost;

    open spec fn deep_view(&self) -> TrackResultGhost {
        self@
    }
}

impl TrackResult {
    /// Pairs a peer file with the match that claimed it.
    pub fn new(base: SearchResult, matched: MatchResult) -> (r: TrackResult)
        ensures
            r@.base == base@,
            r@.artist == matched@.guessed_artist,
            r@.title == matched@.matched_track,
            r@.album == matched@.guessed_album,
            r@.match_score == matched@.total_score,
    {
        TrackResult {
            base,
            artist: matched.guessed_artist,
            title: matched.matched_track,
            album: matched.guessed_album,
            match_score: matched.total_score,
        }
    }
}

/// One file of a per-peer download submission.
#[derive(Debug, Clone)]
pub struct DownloadRequestFile {
    pub filename: String,
    pub size: i64,
}

/// A single selected track a caller wants downloaded.
#[derive(Debug, Clone)]
pub struct DownloadRequest {
    pub username: String,
    pub filename: String,
    pub file_size: i64,
}

/// The gateway's acknowledgement of one submitted download.
#[derive(Debug, Clone, PartialEq)]
pub struct DownloadResponse {
    pub id: String,
}

/// One file inside a peer's search response.
#[derive(Debug, Clone)]
pub struct SearchResponseFile {
    pub filename: String,
    pub size: i64,
    pub bit_rate: Option<i32>,
    pub length: Option<i32>,
}

/// One peer's answer to a running search: its files and capabilities.
#[derive(Debug, Clone)]
pub struct SearchResponse {
    pub username: String,
    pub files: Vec<SearchResponseFile>,
    pub has_free_upload_slot: bool,
    pub upload_speed: i32,
    pub queue_length: i32,
}

/// The mathematical model of a `SearchResponseFile`.
pub ghost struct SearchResponseFileGhost {
    pub filename: Seq<char>,
    pub size: i64,
    pub bit_rate: Option<i32>,
    pub length: Option<i32>,
}

impl View for SearchResponseFile {
    type V = SearchResponseFileGhost;

    open spec fn view(&self) -> SearchResponseFileGhost {
        SearchResponseFileGhost {
            filename: self.filename@,
            size: self.size,
            bit_rate: self.bit_rate,
            length: self.length,
        }
    }
}

impl DeepView for SearchResponseFile {
    type V = SearchResponseFileGhost;

    open spec fn deep_view(&self) -> SearchResponseFileGhost {
        self@
    }
}

/// The mathematical model of a `SearchResponse`.
pub ghost struct SearchResponseGhost {
    pub username: Seq<char>,
    pub files: Seq<SearchResponseFileGhost>,
    pub has_free_upload_slot: bool,
    pub upload_speed: i32,
    pub queue_length: i32,
}

impl View for SearchResponse {
    type V = SearchResponseGhost;

    open spec fn view(&self) -> SearchResponseGhost {
        SearchResponseGhost {
            username: self.username@,
            files: self.files.deep_view(),
            has_free_upload_slot: self.has_free_upload_slot,
            upload_speed: self.upload_speed,
            queue_length: self.queue_length,
        }
    }
}

impl DeepView for SearchResponse {
    type V = SearchResponseGhost;

    open spec fn deep_view(&self) -> SearchResponseGhost {
        self@
    }
}

/// Lifecycle state of one transfer, as the gateway reports it.
#[derive(Debug, Clone, Copy, PartialEq, Eq, Structural)]
pub enum DownloadState {
    Requested,
    Queued,
    Initializing,
    InProgress,
    Succeeded,
    Completed,
    Aborted,
    Cancelled,
    Errored,
    TimedOut,
}

impl DownloadState {
    /// A state from which a transfer never moves again.
    pub open spec fn is_terminal(self) -> bool {
        self == DownloadState::Succeeded || self == DownloadState::Completed || self
            == DownloadState::Aborted || self == DownloadState::Cancelled || self
            == DownloadState::Errored
    }

    /// A terminal state in which the file arrived.
    pub open spec fn is_success(self) -> bool {
        self == DownloadState::Succeeded || self == DownloadState::Completed
    }

    /// Executable test for `is_terminal`.
    pub fn terminal(&self) -> (r: bool)
        ensures
            r == self.is_terminal(),
    {
        match self {
            DownloadState::Succeeded => true,
            DownloadState::Completed => true,
            DownloadState::Aborted => true,
            DownloadState::Cancelled => true,
            DownloadState::Errored => true,
            _ => false,
        }
    }

    /// Executable test for `is_success`.
    pub fn success(&self) -> (r: bool)
        ensures
            r == self.is_success(),
    {
        match self {
            DownloadState::Succeeded => true,
            DownloadState::Completed => true,
            _ => false,
        }
    }
}

/// Snapshot of one transfer from a poll of the gateway. The progress fraction
/// is carried in hundredths of a percent.
#[derive(Debug, Clone)]
pub struct DownloadStatus {
    pub id: String,
    pub filename: String,
    pub username: String,
    pub state: DownloadState,
    pub progress_centi_percent: i64,
    pub size: i64,
    pub transferred: i64,
    pub speed: i32,
    pub time_remaining: Option<i32>,
}

/// The mathematical model of a `DownloadStatus`.
pub ghost struct DownloadStatusGhost {
    pub id: Seq<char>,
    pub filename: Seq<char>,
    pub username: Seq<char>,
    pub state: DownloadState,
    pub progress_centi_percent: i64,
    pub size: i64,
    pub transferred: i64,
    pub speed: i32,
    pub time_remaining: Option<i32>,
}

impl View for DownloadStatus {
    type V = DownloadStatusGhost;

    open spec fn view(&self) -> DownloadStatusGhost {
        DownloadStatusGhost {
            id: self.id@,
            filename: self.filename@,
            username: self.username@,
            state: self.state,
            progress_centi_percent: self.progress_centi_percent,
            size: self.size,
            transferred: self.transferred,
            speed: self.speed,
            time_remaining: self.time_remaining,
        }
    }
}

impl DeepView for DownloadStatus {
    type V = DownloadStatusGhost;

    open spec fn deep_view(&self) -> DownloadStatusGhost {
        self@
    }
}

/// Division truncated toward zero, as machine division behaves.
pub open spec fn div_trunc(a: int, b: int) -> int {
    if a >= 0 {
        a / b
    } else {
        -((-a) / b)
    }
}

/// Truncating division of a byte count by one megabyte.
pub open spec fn mb_of(t: int) -> int {
    div_trunc(t, 0x100000)
}

/// A complete album offer from one peer: every expected track covered once.
#[derive(Debug, Clone)]
pub struct AlbumResult {
    pub username: String,
    pub album_path: String,
    pub album_title: String,
    pub artist: Option<String>,
    pub track_count: usize,
    pub total_size: i64,
    pub tracks: Vec<TrackResult>,
    pub dominant_quality: String,
    pub has_free_upload_slot: bool,
    pub upload_speed: i32,
    pub queue_length: i32,
    pub score: i64,
}

/// The mathematical model of an `AlbumResult`.
pub ghost struct AlbumResultGhost {
    pub username: Seq<char>,
    pub album_path: Seq<char>,
    pub album_title: Seq<char>,
    pub artist: Option<Seq<char>>,
    pub track_count: usize,
    pub total_size: i64,
    pub tracks: Seq<TrackResultGhost>,
    pub dominant_quality: Seq<char>,
    pub has_free_upload_slot: bool,
    pub upload_speed: i32,
    pub queue_length: i32,
    pub score: i64,
}

impl View for AlbumResult {
    type V = AlbumResultGhost;

    open spec fn view(&self) -> AlbumResultGhost {
        AlbumResultGhost {
            username: self.username@,
            album_path: self.album_path@,
            album_title: self.album_title@,
            artist: match self.artist {
                Some(a) => Some(a@),
                None => None,
            },
            track_count: self.track_count,
            total_size: self.total_size,
            tracks: self.tracks.deep_view(),
            dominant_quality: self.dominant_quality@,
            has_free_upload_slot: self.has_free_upload_slot,
            upload_speed: self.upload_speed,
            queue_length: self.queue_length,
            score: self.score,
        }
    }
}

impl DeepView for AlbumResult {
    type V = AlbumResultGhost;

    open spec fn deep_view(&self) -> AlbumResultGhost {
        self@
    }
}

impl AlbumResult {
    /// Total size of the album in whole megabytes, truncated toward zero.
    pub fn size_mb(&self) -> (r: i64)
        ensures
            r == mb_of(self.total_size as int),
    {
        if self.total_size >= 0 {
            ((self.total_size as u64) / 0x100000u64) as i64
        } else {
            let m: u128 = (-(self.total_size as i128)) as u128;
            -((m / 0x100000u128) as i64)
        }
    }

    /// Average track size in hundredths of a megabyte, zero for an empty album.
    pub fn average_track_size_mb(&self) -> (r: i64)
        ensures
            self.track_count > 0 ==> r == div_trunc(
                100 * mb_of(self.total_size as int),
                self.track_count as int,
            ),
            self.track_count == 0 ==> r == 0,
    {
        if self.track_count > 0 {
            let mb = self.size_mb();
            if mb >= 0 {
                let n: u128 = 100u128 * (mb as u128);
                let q: u128 = n / (self.track_count as u128);
                proof {
                    assert(q <= n);
                }
                q as i64
            } else {
                let n: u128 = 100u128 * ((-(mb as i128)) as u128);
                let q: u128 = n / (self.track_count as u128);
                proof {
                    assert(q <= n);
                    assert(100 * mb_of(self.total_size as int) == -(n as int));
                }
                -(q as i64)
            }
        } else {
            0
        }
    }
}

} // verus!
