use vstd::prelude::*;
use crate::matching::{classify, classify_spec, total_score_of};
use crate::models::{
    AlbumResult, MatchResult, MatchResultGhost, SearchResponse, SearchResponseFile, SearchResult,
    SearchResultGhost, TrackResult, quality_score_spec,
};
use crate::text::{
    chars_eq_str, ext_of, extension_chars, lemma_deep_view_strings, quality_of, string_eq,
};

verus! {

// Turning raw peer responses into scored candidates: non-audio files and weak
// matches are dropped, everything else is classified against the expected
// names and paired with the offering peer's capabilities.

/// The minimum overall match confidence a candidate must reach to be kept,
/// in hundredths.
pub const MIN_SCORE_CENTI: i64 = 60;

/// Whether a file's extension admits it into matching: recognized audio
/// extensions pass, a file without an extension passes, anything else is
/// discarded.
pub open spec fn audio_ok(f: Seq<char>) -> bool {
    match ext_of(f) {
        Some(e) => e == "flac"@ || e == "wav"@ || e == "m4a"@ || e == "ogg"@ || e == "aac"@ || e
            == "wma"@ || e == "mp3"@,
        None => true,
    }
}

/// Executable test for `audio_ok`.
pub fn audio_ok_exec(filename: &str) -> (r: bool)
    ensures
        r == audio_ok(filename@),
{
    match extension_chars(filename) {
        Some(v) => chars_eq_str(&v, "flac") || chars_eq_str(&v, "wav") || chars_eq_str(&v, "m4a")
            || chars_eq_str(&v, "ogg") || chars_eq_str(&v, "aac") || chars_eq_str(&v, "wma")
            || chars_eq_str(&v, "mp3"),
        None => true,
    }
}

/// Whether one peer file is kept for album assembly.
pub open spec fn keep_spec(f: Seq<char>, ar: Seq<char>, al: Seq<char>, ts: Seq<Seq<char>>) -> bool {
    audio_ok(f) && total_score_of(f, ar, al, ts) >= MIN_SCORE_CENTI
}

/// The scored pair a kept file contributes: its classification and the file
/// joined with its peer's capabilities.
pub open spec fn pair_of(
    resp: SearchResponse,
    file: SearchResponseFile,
    ar: Seq<char>,
    al: Seq<char>,
    ts: Seq<Seq<char>>,
) -> (MatchResultGhost, SearchResultGhost) {
    (
        classify_spec(file.filename@, ar, al, ts),
        SearchResultGhost {
            username: resp.username@,
            filename: file.filename@,
            size: file.size,
            bitrate: file.bit_rate,
            duration: file.length,
            has_free_upload_slot: resp.has_free_upload_slot,
            upload_speed: resp.upload_speed,
            queue_length: resp.queue_length,
        },
    )
}

/// The kept, scored files of one peer response, in file order.
pub open spec fn scored_of_files(
    resp: SearchResponse,
    files: Seq<SearchResponseFile>,
    ar: Seq<char>,
    al: Seq<char>,
    ts: Seq<Seq<char>>,
) -> Seq<(MatchResultGhost, SearchResultGhost)>
    decreases files.len(),
{
    if files.len() == 0 {
        Seq::empty()
    } else {
        let rest = scored_of_files(resp, files.drop_last(), ar, al, ts);
        if keep_spec(files.last().filename@, ar, al, ts) {
            rest.push(pair_of(resp, files.last(), ar, al, ts))
        } else {
            rest
        }
    }
}

/// The kept, scored files of all peer responses, in response order.
pub open spec fn scored_of(
    resps: Seq<SearchResponse>,
    ar: Seq<char>,
    al: Seq<char>,
    ts: Seq<Seq<char>>,
) -> Seq<(MatchResultGhost, SearchResultGhost)>
    decreases resps.len(),
{
    if resps.len() == 0 {
        Seq::empty()
    } else {
        scored_of(resps.drop_last(), ar, al, ts) + scored_of_files(
            resps.last(),
            resps.last().files@,
            ar,
            al,
            ts,
        )
    }
}

/// Filters raw peer responses down to audio files whose match confidence
/// reaches the threshold, classifying each kept file.
pub fn process_search_responses(
    responses: &Vec<SearchResponse>,
    searched_artist: &str,
    searched_album: &str,
    expected_tracks: &Vec<String>,
) -> (r: Vec<(MatchResult, SearchResult)>)
    ensures
        ({
            let spec_pairs = scored_of(
                responses@,
                searched_artist@,
                searched_album@,
                expected_tracks.deep_view(),
            );
            &&& r@.len() == spec_pairs.len()
            &&& forall|i: int|
                0 <= i < r@.len() ==> (#[trigger] r@[i]).0@ == spec_pairs[i].0 && r@[i].1@
                    == spec_pairs[i].1
            &&& scores_in_range(r@)
        }),
{
    let ghost ar = searched_artist@;
    let ghost al = searched_album@;
    let ghost ts = expected_tracks.deep_view();
    let mut r: Vec<(MatchResult, SearchResult)> = Vec::new();
    let mut i: usize = 0;
    assert(responses@.subrange(0, 0) =~= Seq::<SearchResponse>::empty());
    while i < responses.len()
        invariant
            i <= responses@.len(),
            ar == searched_artist@,
            al == searched_album@,
            ts == expected_tracks.deep_view(),
            ({
                let done = scored_of(responses@.subrange(0, i as int), ar, al, ts);
                &&& r@.len() == done.len()
                &&& forall|m: int|
                    0 <= m < r@.len() ==> (#[trigger] r@[m]).0@ == done[m].0 && r@[m].1@
                        == done[m].1
            }),
            scores_in_range(r@),
        decreases responses@.len() - i,
    {
        let resp = &responses[i];
        let ghost done_before = scored_of(responses@.subrange(0, i as int), ar, al, ts);
        let mut k: usize = 0;
        assert(resp.files@.subrange(0, 0) =~= Seq::<SearchResponseFile>::empty());
        assert(scored_of_files(responses@[i as int], resp.files@.subrange(0, 0), ar, al, ts)
            =~= Seq::<(MatchResultGhost, SearchResultGhost)>::empty());
        while k < resp.files.len()
            invariant
                i < responses@.len(),
                resp == &responses@[i as int],
                k <= resp.files@.len(),
                ar == searched_artist@,
                al == searched_album@,
                ts == expected_tracks.deep_view(),
                done_before == scored_of(responses@.subrange(0, i as int), ar, al, ts),
                ({
                    let done = done_before + scored_of_files(
                        responses@[i as int],
                        resp.files@.subrange(0, k as int),
                        ar,
                        al,
                        ts,
                    );
                    &&& r@.len() == done.len()
                    &&& forall|m: int|
                        0 <= m < r@.len() ==> (#[trigger] r@[m]).0@ == done[m].0 && r@[m].1@
                            == done[m].1
                }),
                scores_in_range(r@),
            decreases resp.files@.len() - k,
        {
            let file = &resp.files[k];
            assert(resp.files@.subrange(0, k as int + 1).drop_last() =~= resp.files@.subrange(
                0,
                k as int,
            ));
            assert(resp.files@.subrange(0, k as int + 1).last() == resp.files@[k as int]);
            proof {
                crate::matching::lemma_classify_scores_range(file.filename@, ar, al, ts);
            }
            if audio_ok_exec(file.filename.as_str()) {
                let mr = classify(
                    file.filename.as_str(),
                    searched_artist,
                    searched_album,
                    expected_tracks,
                );
                if mr.total_score >= MIN_SCORE_CENTI {
                    let sr = SearchResult {
                        username: resp.username.clone(),
                        filename: file.filename.clone(),
                        size: file.size,
                        bitrate: file.bit_rate,
                        duration: file.length,
                        has_free_upload_slot: resp.has_free_upload_slot,
                        upload_speed: resp.upload_speed,
                        queue_length: resp.queue_length,
                    };
                    assert(keep_spec(resp.files@[k as int].filename@, ar, al, ts));
                    assert(mr@ == pair_of(responses@[i as int], resp.files@[k as int], ar, al, ts).0);
                    assert(sr@ == pair_of(responses@[i as int], resp.files@[k as int], ar, al, ts).1);
                    r.push((mr, sr));
                } else {
                    assert(!keep_spec(resp.files@[k as int].filename@, ar, al, ts));
                }
            } else {
                assert(!keep_spec(resp.files@[k as int].filename@, ar, al, ts));
            }
            k = k + 1;
        }
        assert(resp.files@.subrange(0, resp.files@.len() as int) =~= resp.files@);
        assert(responses@.subrange(0, i as int + 1).drop_last() =~= responses@.subrange(
            0,
            i as int,
        ));
        assert(responses@.subrange(0, i as int + 1).last() == responses@[i as int]);
        i = i + 1;
    }
    assert(responses@.subrange(0, responses@.len() as int) =~= responses@);
    r
}

// ---------------------------------------------------------------------------
// Album assembly: candidates are bucketed by (peer, artist guess, album guess),
// each bucket keeps the single best candidate per expected title, and a bucket
// that cannot cover every expected title is dropped entirely.

/// Whether a scored pair belongs to the bucket with the given key.
pub open spec fn key_match(
    p: (MatchResult, SearchResult),
    u: Seq<char>,
    ar: Seq<char>,
    al: Seq<char>,
) -> bool {
    p.1.username@ == u && p.0.guessed_artist@ == ar && p.0.guessed_album@ == al
}

/// Whether two scored pairs fall into the same bucket.
pub open spec fn same_key(p: (MatchResult, SearchResult), q: (MatchResult, SearchResult)) -> bool {
    key_match(p, q.1.username@, q.0.guessed_artist@, q.0.guessed_album@)
}

/// The artist a finished album names, empty if it names none.
pub open spec fn album_artist(a: AlbumResult) -> Seq<char> {
    match a.artist {
        Some(s) => s@,
        None => Seq::empty(),
    }
}

/// Whether a scored pair belongs to the bucket a finished album was built from.
pub open spec fn album_key_match(p: (MatchResult, SearchResult), a: AlbumResult) -> bool {
    p.1.username@ == a.username@ && a@.artist == Some(p.0.guessed_artist@) && p.0.guessed_album@
        == a.album_title@
}

/// Whether two finished albums come from the same bucket.
pub open spec fn same_album_key(a: AlbumResult, b: AlbumResult) -> bool {
    a.username@ == b.username@ && a@.artist == b@.artist && a.album_title@ == b.album_title@
}

/// Candidate ordering within one expected title: match score first, quality
/// score as the tie-breaker.
pub open spec fn lex_le(m1: int, q1: int, m2: int, q2: int) -> bool {
    m1 < m2 || (m1 == m2 && q1 <= q2)
}

/// A kept track carries exactly the data of the scored pair it came from.
pub open spec fn track_from_pair(t: TrackResult, p: (MatchResult, SearchResult)) -> bool {
    t.base@ == p.1@ && t.artist@ == p.0.guessed_artist@ && t.title@ == p.0.matched_track@
        && t.album@ == p.0.guessed_album@ && t.match_score == p.0.total_score
}

/// All match scores lie in the score range, as similarity scores do.
pub open spec fn scores_in_range(pairs: Seq<(MatchResult, SearchResult)>) -> bool {
    forall|i: int| 0 <= i < pairs.len() ==> 0 <= (#[trigger] pairs[i]).0.total_score <= 100
}

/// No expected title occurs twice.
pub open spec fn distinct_titles(ts: Seq<Seq<char>>) -> bool {
    forall|k1: int, k2: int| 0 <= k1 < k2 < ts.len() ==> ts[k1] != ts[k2]
}

/// Whether the bucket of `pairs[i]` offers a candidate for every expected
/// title.
pub open spec fn covered_from(
    pairs: Seq<(MatchResult, SearchResult)>,
    i: int,
    ts: Seq<Seq<char>>,
) -> bool {
    forall|k: int|
        #![trigger ts[k]]
        0 <= k < ts.len() ==> exists|j: int|
            0 <= j < pairs.len() && same_key(#[trigger] pairs[j], pairs[i]) && pairs[j].0.matched_track@
                == ts[k]
}

/// Sum of the match scores of a track list.
pub open spec fn sum_match(tracks: Seq<TrackResult>) -> int
    decreases tracks.len(),
{
    if tracks.len() == 0 {
        0
    } else {
        sum_match(tracks.drop_last()) + tracks.last().match_score
    }
}

/// Sum of the quality scores of a track list.
pub open spec fn sum_quality(tracks: Seq<TrackResult>) -> int
    decreases tracks.len(),
{
    if tracks.len() == 0 {
        0
    } else {
        sum_quality(tracks.drop_last()) + quality_score_spec(tracks.last().base@)
    }
}

/// Sum of the byte sizes of a track list.
pub open spec fn sum_sizes(tracks: Seq<TrackResult>) -> int
    decreases tracks.len(),
{
    if tracks.len() == 0 {
        0
    } else {
        sum_sizes(tracks.drop_last()) + tracks.last().base.size
    }
}

/// Clamping into the range of `i64`.
pub open spec fn clamp_i64(x: int) -> int {
    if x > 0x7fff_ffff_ffff_ffff {
        0x7fff_ffff_ffff_ffff
    } else if x < -0x8000_0000_0000_0000 {
        -0x8000_0000_0000_0000
    } else {
        x
    }
}

/// The overall score of a complete album, in hundredths: 0.3 times the average
/// match score, 0.3 for full completeness, 0.4 times the average quality score,
/// evaluated as one integer division.
pub open spec fn album_score_centi(tracks: Seq<TrackResult>) -> int {
    (30 * sum_match(tracks) + 40 * sum_quality(tracks) + 3000 * (tracks.len() as int)) / (
        100 * tracks.len() as int
    )
}

/// How many tracks of the list carry the given quality label.
pub open spec fn q_count(tracks: Seq<TrackResult>, q: Seq<char>) -> int
    decreases tracks.len(),
{
    if tracks.len() == 0 {
        0
    } else {
        q_count(tracks.drop_last(), q) + if quality_of(tracks.last().base.filename@) == q {
            1int
        } else {
            0int
        }
    }
}

/// The first index among the first `i` tracks whose quality label is most
/// frequent in the whole list.
pub open spec fn dom_idx_upto(tracks: Seq<TrackResult>, i: int) -> int
    decreases i,
{
    if i <= 1 {
        0
    } else {
        let b = dom_idx_upto(tracks, i - 1);
        if q_count(tracks, quality_of(tracks[i - 1].base.filename@)) > q_count(
            tracks,
            quality_of(tracks[b].base.filename@),
        ) {
            i - 1
        } else {
            b
        }
    }
}

pub proof fn lemma_dom_idx_range(tracks: Seq<TrackResult>, i: int)
    requires
        i >= 1,
    ensures
        0 <= dom_idx_upto(tracks, i) < i,
    decreases i,
{
    if i > 1 {
        lemma_dom_idx_range(tracks, i - 1);
    }
}

/// The most frequent quality label of a track list, ties resolved in favor of
/// the earliest track carrying one.
pub open spec fn dominant_of(tracks: Seq<TrackResult>) -> Seq<char> {
    quality_of(tracks[dom_idx_upto(tracks, tracks.len() as int)].base.filename@)
}

/// Everything a finished album promises about itself, relative to the scored
/// pairs it was assembled from and the expected titles:
/// its tracks cover the expected titles in order, each track is the
/// lexicographically best candidate its bucket offers for its title, and the
/// header fields, size, score and dominant quality are all derived exactly.
pub open spec fn album_ok(
    a: AlbumResult,
    pairs: Seq<(MatchResult, SearchResult)>,
    ts: Seq<Seq<char>>,
) -> bool {
    &&& ts.len() > 0
    &&& a.tracks@.len() == ts.len()
    &&& a.track_count == ts.len()
    &&& forall|k: int| 0 <= k < ts.len() ==> (#[trigger] a.tracks@[k]).title@ == ts[k]
    &&& forall|k: int|
        0 <= k < ts.len() ==> exists|i: int|
            0 <= i < pairs.len() && album_key_match(#[trigger] pairs[i], a) && track_from_pair(
                #[trigger] a.tracks@[k],
                pairs[i],
            )
    &&& forall|k: int, i: int|
        0 <= k < ts.len() && 0 <= i < pairs.len() && album_key_match(#[trigger] pairs[i], a) && pairs[i].0.matched_track@
            == ts[k] ==> lex_le(
            pairs[i].0.total_score as int,
            quality_score_spec(pairs[i].1@),
            (#[trigger] a.tracks@[k]).match_score as int,
            quality_score_spec(a.tracks@[k].base@),
        )
    &&& a.username@ == a.tracks@[0].base.username@
    &&& a@.artist == Some(a.tracks@[0].artist@)
    &&& a.album_title@ == a.tracks@[0].album@
    &&& a.album_path@ == a.tracks@[0].base.filename@
    &&& a.has_free_upload_slot == a.tracks@[0].base.has_free_upload_slot
    &&& a.upload_speed == a.tracks@[0].base.upload_speed
    &&& a.queue_length == a.tracks@[0].base.queue_length
    &&& a.total_size as int == clamp_i64(sum_sizes(a.tracks@))
    &&& a.score as int == album_score_centi(a.tracks@)
    &&& a.dominant_quality@ == dominant_of(a.tracks@)
}

/// The best candidate a bucket offers for one expected title: highest match
/// score, quality score breaking ties, earliest candidate keeping strict ties.
fn best_for_title(
    scored: &Vec<(MatchResult, SearchResult)>,
    key_u: &String,
    key_ar: &String,
    key_al: &String,
    title: &String,
) -> (r: Option<usize>)
    ensures
        match r {
            Some(b) => b < scored@.len() && key_match(scored@[b as int], key_u@, key_ar@, key_al@)
                && scored@[b as int].0.matched_track@ == title@ && (forall|j: int|
                0 <= j < scored@.len() && key_match(#[trigger] scored@[j], key_u@, key_ar@, key_al@)
                    && scored@[j].0.matched_track@ == title@ ==> lex_le(
                    scored@[j].0.total_score as int,
                    quality_score_spec(scored@[j].1@),
                    scored@[b as int].0.total_score as int,
                    quality_score_spec(scored@[b as int].1@),
                )),
            None => forall|j: int|
                0 <= j < scored@.len() ==> !(key_match(
                    #[trigger] scored@[j],
                    key_u@,
                    key_ar@,
                    key_al@,
                ) && scored@[j].0.matched_track@ == title@),
        },
{
    let mut best: Option<usize> = None;
    let mut m: usize = 0;
    while m < scored.len()
        invariant
            m <= scored@.len(),
            match best {
                Some(b) => b < m && key_match(scored@[b as int], key_u@, key_ar@, key_al@)
                    && scored@[b as int].0.matched_track@ == title@ && (forall|j: int|
                    0 <= j < m && key_match(#[trigger] scored@[j], key_u@, key_ar@, key_al@)
                        && scored@[j].0.matched_track@ == title@ ==> lex_le(
                        scored@[j].0.total_score as int,
                        quality_score_spec(scored@[j].1@),
                        scored@[b as int].0.total_score as int,
                        quality_score_spec(scored@[b as int].1@),
                    )),
                None => forall|j: int|
                    0 <= j < m ==> !(key_match(#[trigger] scored@[j], key_u@, key_ar@, key_al@)
                        && scored@[j].0.matched_track@ == title@),
            },
        decreases scored@.len() - m,
    {
        let is_key = string_eq(&scored[m].1.username, key_u) && string_eq(
            &scored[m].0.guessed_artist,
            key_ar,
        ) && string_eq(&scored[m].0.guessed_album, key_al) && string_eq(
            &scored[m].0.matched_track,
            title,
        );
        if is_key {
            match best {
                None => {
                    best = Some(m);
                },
                Some(b) => {
                    let ms = scored[m].0.total_score;
                    let bs = scored[b].0.total_score;
                    if ms > bs {
                        best = Some(m);
                    } else if ms == bs {
                        let mq = scored[m].1.quality_score();
                        let bq = scored[b].1.quality_score();
                        if mq > bq {
                            best = Some(m);
                        }
                    }
                },
            }
        }
        m = m + 1;
    }
    best
}

/// Clamped total byte size of a track list.
fn total_size_clamped(tracks: &Vec<TrackResult>) -> (r: i64)
    ensures
        r as int == clamp_i64(sum_sizes(tracks@)),
{
    let n = tracks.len();
    let mut ssz: i128 = 0;
    let mut j: usize = 0;
    assert(tracks@.subrange(0, 0) =~= Seq::<TrackResult>::empty());
    while j < n
        invariant
            j <= n,
            n == tracks@.len(),
            ssz == sum_sizes(tracks@.subrange(0, j as int)),
            -(j as int) * 0x8000_0000_0000_0000 <= ssz <= (j as int) * 0x8000_0000_0000_0000,
        decreases n - j,
    {
        assert(tracks@.subrange(0, j as int + 1).drop_last() =~= tracks@.subrange(0, j as int));
        assert(tracks@.subrange(0, j as int + 1).last() == tracks@[j as int]);
        let s: i64 = tracks[j].base.size;
        proof {
            assert((j as int) * 0x8000_0000_0000_0000 + 0x8000_0000_0000_0000 == (j as int + 1)
                * 0x8000_0000_0000_0000) by (nonlinear_arith);
            assert((j as int + 1) * 0x8000_0000_0000_0000 <= (n as int) * 0x8000_0000_0000_0000)
                by (nonlinear_arith)
                requires j as int + 1 <= n as int;
            assert((n as int) * 0x8000_0000_0000_0000 <= 170141183460469231731687303715884105727int)
                by (nonlinear_arith)
                requires n as int <= 18446744073709551615int;
        }
        ssz = ssz + (s as i128);
        j = j + 1;
    }
    assert(tracks@.subrange(0, n as int) =~= tracks@);
    if ssz > 0x7fff_ffff_ffff_ffffi128 {
        i64::MAX
    } else if ssz < -0x8000_0000_0000_0000i128 {
        i64::MIN
    } else {
        ssz as i64
    }
}

/// The album score of a non-empty track list whose match scores are in range.
fn score_centi_of(tracks: &Vec<TrackResult>) -> (r: i64)
    requires
        tracks@.len() > 0,
        forall|m: int| 0 <= m < tracks@.len() ==> 0 <= (#[trigger] tracks@[m]).match_score <= 100,
    ensures
        r as int == album_score_centi(tracks@),
        0 <= r <= 100,
{
    let n = tracks.len();
    let mut sm: i128 = 0;
    let mut sq: i128 = 0;
    let mut j: usize = 0;
    assert(tracks@.subrange(0, 0) =~= Seq::<TrackResult>::empty());
    while j < n
        invariant
            j <= n,
            n == tracks@.len(),
            forall|m: int| 0 <= m < tracks@.len() ==> 0 <= (#[trigger] tracks@[m]).match_score
                <= 100,
            sm == sum_match(tracks@.subrange(0, j as int)),
            sq == sum_quality(tracks@.subrange(0, j as int)),
            0 <= sm <= 100 * (j as int),
            -10 * (j as int) <= sq <= 100 * (j as int),
        decreases n - j,
    {
        assert(tracks@.subrange(0, j as int + 1).drop_last() =~= tracks@.subrange(0, j as int));
        assert(tracks@.subrange(0, j as int + 1).last() == tracks@[j as int]);
        let q: i64 = tracks[j].base.quality_score();
        sm = sm + (tracks[j].match_score as i128);
        sq = sq + (q as i128);
        j = j + 1;
    }
    assert(tracks@.subrange(0, n as int) =~= tracks@);
    let num: i128 = 30i128 * sm + 40i128 * sq + 3000i128 * (n as i128);
    proof {
        assert(num >= 2600 * (n as int) && num <= 10000 * (n as int)) by (nonlinear_arith)
            requires
                num == 30 * sm + 40 * sq + 3000 * (n as int),
                0 <= sm <= 100 * (n as int),
                -10 * (n as int) <= sq <= 100 * (n as int);
    }
    let den: i128 = 100i128 * (n as i128);
    let q: u128 = (num as u128) / (den as u128);
    proof {
        assert(q <= 100) by (nonlinear_arith)
            requires
                q == num / den,
                den == 100 * (n as int),
                0 <= num <= 10000 * (n as int),
                n as int > 0;
    }
    q as i64
}

/// How many tracks carry the given quality label.
fn count_quality(tracks: &Vec<TrackResult>, q: &String) -> (c: usize)
    ensures
        c == q_count(tracks@, q@),
{
    let n = tracks.len();
    let mut c: usize = 0;
    let mut j: usize = 0;
    assert(tracks@.subrange(0, 0) =~= Seq::<TrackResult>::empty());
    while j < n
        invariant
            j <= n,
            n == tracks@.len(),
            c <= j,
            c == q_count(tracks@.subrange(0, j as int), q@),
        decreases n - j,
    {
        assert(tracks@.subrange(0, j as int + 1).drop_last() =~= tracks@.subrange(0, j as int));
        assert(tracks@.subrange(0, j as int + 1).last() == tracks@[j as int]);
        let label = tracks[j].base.quality();
        if string_eq(&label, q) {
            c = c + 1;
        }
        j = j + 1;
    }
    assert(tracks@.subrange(0, n as int) =~= tracks@);
    c
}

/// Builds the complete album one bucket offers, or nothing when the bucket
/// leaves some expected title uncovered.
fn build_album(
    scored: &Vec<(MatchResult, SearchResult)>,
    expected_tracks: &Vec<String>,
    key_u: &String,
    key_ar: &String,
    key_al: &String,
) -> (r: Option<AlbumResult>)
    requires
        scores_in_range(scored@),
        expected_tracks@.len() > 0,
    ensures
        match r {
            Some(a) => album_ok(a, scored@, expected_tracks.deep_view()) && a.username@ == key_u@
                && a@.artist == Some(key_ar@) && a.album_title@ == key_al@,
            None => exists|kk: int|
                #![trigger expected_tracks.deep_view()[kk]]
                0 <= kk < expected_tracks.deep_view().len() && (forall|j: int|
                    0 <= j < scored@.len() ==> !(key_match(
                        #[trigger] scored@[j],
                        key_u@,
                        key_ar@,
                        key_al@,
                    ) && scored@[j].0.matched_track@ == expected_tracks.deep_view()[kk])),
        },
{
    let ghost ts = expected_tracks.deep_view();
    proof {
        lemma_deep_view_strings(expected_tracks);
    }
    let mut kept: Vec<TrackResult> = Vec::new();
    let mut k: usize = 0;
    while k < expected_tracks.len()
        invariant
            k <= ts.len(),
            ts == expected_tracks.deep_view(),
            ts.len() == expected_tracks@.len(),
            forall|m: int| 0 <= m < ts.len() ==> ts[m] == expected_tracks@[m]@,
            scores_in_range(scored@),
            kept@.len() == k,
            forall|m: int| 0 <= m < k ==> (#[trigger] kept@[m]).title@ == ts[m],
            forall|m: int| 0 <= m < k ==> 0 <= (#[trigger] kept@[m]).match_score <= 100,
            forall|m: int|
                0 <= m < k ==> exists|i: int|
                    0 <= i < scored@.len() && key_match(
                        #[trigger] scored@[i],
                        key_u@,
                        key_ar@,
                        key_al@,
                    ) && track_from_pair(#[trigger] kept@[m], scored@[i]),
            forall|m: int, i: int|
                0 <= m < k && 0 <= i < scored@.len() && key_match(
                    #[trigger] scored@[i],
                    key_u@,
                    key_ar@,
                    key_al@,
                ) && scored@[i].0.matched_track@ == ts[m] ==> lex_le(
                    scored@[i].0.total_score as int,
                    quality_score_spec(scored@[i].1@),
                    (#[trigger] kept@[m]).match_score as int,
                    quality_score_spec(kept@[m].base@),
                ),
        decreases expected_tracks@.len() - k,
    {
        match best_for_title(scored, key_u, key_ar, key_al, &expected_tracks[k]) {
            None => {
                assert((k as int) < expected_tracks.deep_view().len());
                assert(expected_tracks.deep_view()[k as int] == ts[k as int]);
                assert(forall|j: int|
                    0 <= j < scored@.len() ==> !(key_match(
                        #[trigger] scored@[j],
                        key_u@,
                        key_ar@,
                        key_al@,
                    ) && scored@[j].0.matched_track@ == expected_tracks.deep_view()[k as int]));
                return None;
            },
            Some(b) => {
                let t = TrackResult::new(scored[b].1.duplicate(), scored[b].0.duplicate());
                assert(track_from_pair(t, scored@[b as int]));
                assert(t.title@ == ts[k as int]);
                kept.push(t);
            },
        }
        k = k + 1;
    }
    let n = kept.len();
    let username = kept[0].base.username.clone();
    let album_path = kept[0].base.filename.clone();
    let album_title = kept[0].album.clone();
    let artist = kept[0].artist.clone();
    let has_free_upload_slot = kept[0].base.has_free_upload_slot;
    let upload_speed = kept[0].base.upload_speed;
    let queue_length = kept[0].base.queue_length;
    let total_size = total_size_clamped(&kept);
    let score = score_centi_of(&kept);
    let dominant_quality = dominant_quality_of(&kept);
    let a = AlbumResult {
        username,
        album_path,
        album_title,
        artist: Some(artist),
        track_count: n,
        total_size,
        tracks: kept,
        dominant_quality,
        has_free_upload_slot,
        upload_speed,
        queue_length,
        score,
    };
    proof {
        let i0 = choose|i: int|
            0 <= i < scored@.len() && key_match(scored@[i], key_u@, key_ar@, key_al@)
                && track_from_pair(a.tracks@[0], scored@[i]);
        assert(a.username@ == key_u@);
        assert(a@.artist == Some(key_ar@));
        assert(a.album_title@ == key_al@);
        assert forall|kx: int, i: int|
            0 <= kx < ts.len() && 0 <= i < scored@.len() && album_key_match(
                #[trigger] scored@[i],
                a,
            ) && scored@[i].0.matched_track@ == ts[kx] implies lex_le(
            scored@[i].0.total_score as int,
            quality_score_spec(scored@[i].1@),
            (#[trigger] a.tracks@[kx]).match_score as int,
            quality_score_spec(a.tracks@[kx].base@),
        ) by {
            assert(key_match(scored@[i], key_u@, key_ar@, key_al@));
        }
        assert forall|kx: int| 0 <= kx < ts.len() implies exists|i: int|
            0 <= i < scored@.len() && album_key_match(#[trigger] scored@[i], a) && track_from_pair(
                #[trigger] a.tracks@[kx],
                scored@[i],
            ) by {
            let i1 = choose|i: int|
                0 <= i < scored@.len() && key_match(scored@[i], key_u@, key_ar@, key_al@)
                    && track_from_pair(a.tracks@[kx], scored@[i]);
            assert(album_key_match(scored@[i1], a));
        }
    }
    assert(album_ok(a, scored@, ts));
    Some(a)
}

/// Assembles the ranked album candidates the scored pairs offer: one complete
/// album per (peer, artist guess, album guess) bucket that covers every
/// expected title, and nothing from any other bucket. With no expected titles,
/// or a repeated expected title, nothing is assembled.
pub fn find_best_albums(
    scored: &Vec<(MatchResult, SearchResult)>,
    expected_tracks: &Vec<String>,
) -> (r: Vec<AlbumResult>)
    requires
        scores_in_range(scored@),
    ensures
        ({
            let ts = expected_tracks.deep_view();
            &&& ts.len() == 0 ==> r@.len() == 0
            &&& !distinct_titles(ts) ==> r@.len() == 0
            &&& forall|g: int| 0 <= g < r@.len() ==> album_ok(#[trigger] r@[g], scored@, ts)
            &&& forall|g1: int, g2: int|
                0 <= g1 < g2 < r@.len() ==> !same_album_key(r@[g1], r@[g2])
            &&& (ts.len() > 0 && distinct_titles(ts)) ==> (forall|i: int|
                #![trigger covered_from(scored@, i, ts)]
                0 <= i < scored@.len() && covered_from(scored@, i, ts) ==> exists|g: int|
                    0 <= g < r@.len() && album_key_match(scored@[i], #[trigger] r@[g]))
        }),
{
    let ghost ts = expected_tracks.deep_view();
    proof {
        lemma_deep_view_strings(expected_tracks);
    }
    if expected_tracks.len() == 0 {
        let r: Vec<AlbumResult> = Vec::new();
        return r;
    }
    let mut k1: usize = 0;
    while k1 < expected_tracks.len()
        invariant
            k1 <= ts.len(),
            ts == expected_tracks.deep_view(),
            ts.len() == expected_tracks@.len(),
            forall|m: int| 0 <= m < ts.len() ==> ts[m] == expected_tracks@[m]@,
            forall|x: int, y: int| 0 <= x < y < ts.len() && x < k1 ==> ts[x] != ts[y],
        decreases expected_tracks@.len() - k1,
    {
        let mut k2: usize = k1 + 1;
        while k2 < expected_tracks.len()
            invariant
                k1 < k2 <= ts.len(),
                ts == expected_tracks.deep_view(),
                ts.len() == expected_tracks@.len(),
                forall|m: int| 0 <= m < ts.len() ==> ts[m] == expected_tracks@[m]@,
                forall|y: int| k1 < y < k2 ==> ts[k1 as int] != ts[y],
            decreases expected_tracks@.len() - k2,
        {
            if string_eq(&expected_tracks[k1], &expected_tracks[k2]) {
                proof {
                    if distinct_titles(ts) {
                        assert(ts[k1 as int] != ts[k2 as int]);
                        assert(false);
                    }
                }
                let r: Vec<AlbumResult> = Vec::new();
                return r;
            }
            k2 = k2 + 1;
        }
        k1 = k1 + 1;
    }
    assert(distinct_titles(ts));

    let mut albums: Vec<AlbumResult> = Vec::new();
    let mut i: usize = 0;
    while i < scored.len()
        invariant
            i <= scored@.len(),
            ts == expected_tracks.deep_view(),
            ts.len() == expected_tracks@.len(),
            ts.len() > 0,
            distinct_titles(ts),
            scores_in_range(scored@),
            forall|g: int| 0 <= g < albums@.len() ==> album_ok(#[trigger] albums@[g], scored@, ts),
            forall|g1: int, g2: int|
                0 <= g1 < g2 < albums@.len() ==> !same_album_key(albums@[g1], albums@[g2]),
            forall|g: int|
                0 <= g < albums@.len() ==> exists|i2: int|
                    0 <= i2 < i && album_key_match(#[trigger] scored@[i2], #[trigger] albums@[g]),
            forall|j: int|
                #![trigger covered_from(scored@, j, ts)]
                0 <= j < i && covered_from(scored@, j, ts) ==> exists|g: int|
                    0 <= g < albums@.len() && album_key_match(scored@[j], #[trigger] albums@[g]),
        decreases scored@.len() - i,
    {
        let mut seen = false;
        let mut j: usize = 0;
        while j < i && !seen
            invariant
                j <= i < scored@.len(),
                seen ==> exists|j2: int| 0 <= j2 < i && same_key(#[trigger] scored@[j2], scored@[i as int]),
                !seen ==> forall|j2: int| 0 <= j2 < j ==> !same_key(#[trigger] scored@[j2], scored@[i as int]),
            decreases i - j,
        {
            if string_eq(&scored[j].1.username, &scored[i].1.username) && string_eq(
                &scored[j].0.guessed_artist,
                &scored[i].0.guessed_artist,
            ) && string_eq(&scored[j].0.guessed_album, &scored[i].0.guessed_album) {
                seen = true;
            }
            j = j + 1;
        }
        if !seen {
            let key_u = scored[i].1.username.clone();
            let key_ar = scored[i].0.guessed_artist.clone();
            let key_al = scored[i].0.guessed_album.clone();
            match build_album(scored, expected_tracks, &key_u, &key_ar, &key_al) {
                Some(a) => {
                    proof {
                        assert forall|g: int| 0 <= g < albums@.len() implies !same_album_key(
                            albums@[g],
                            a,
                        ) && !same_album_key(a, albums@[g]) by {
                            let i2 = choose|i2: int|
                                0 <= i2 < i && album_key_match(scored@[i2], albums@[g]);
                            if same_album_key(albums@[g], a) || same_album_key(a, albums@[g]) {
                                assert(same_key(scored@[i2], scored@[i as int]));
                                assert(false);
                            }
                        }
                    }
                    let ghost old_albums = albums@;
                    albums.push(a);
                    proof {
                        assert(albums@ == old_albums.push(a));
                        assert(album_key_match(scored@[i as int], a));
                        assert forall|j3: int|
                            #![trigger covered_from(scored@, j3, ts)]
                            0 <= j3 < i + 1 && covered_from(scored@, j3, ts) implies exists|g: int|
                            0 <= g < albums@.len() && album_key_match(scored@[j3], #[trigger] albums@[g]) by {
                            if j3 < i {
                                let g0 = choose|g: int|
                                    0 <= g < old_albums.len() && album_key_match(
                                        scored@[j3],
                                        old_albums[g],
                                    );
                                assert(albums@[g0] == old_albums[g0]);
                                assert(album_key_match(scored@[j3], albums@[g0]));
                            } else {
                                assert(albums@[albums@.len() - 1] == a);
                                assert(album_key_match(scored@[j3], albums@[albums@.len() - 1]));
                            }
                        }
                    }
                },
                None => {
                    proof {
                        let kk = choose|kk: int|
                            #![trigger ts[kk]]
                            0 <= kk < ts.len() && (forall|j4: int|
                                0 <= j4 < scored@.len() ==> !(key_match(
                                    #[trigger] scored@[j4],
                                    key_u@,
                                    key_ar@,
                                    key_al@,
                                ) && scored@[j4].0.matched_track@ == ts[kk]));
                        if covered_from(scored@, i as int, ts) {
                            let j5 = choose|j5: int|
                                0 <= j5 < scored@.len() && same_key(
                                    #[trigger] scored@[j5],
                                    scored@[i as int],
                                ) && scored@[j5].0.matched_track@ == ts[kk];
                            assert(key_match(scored@[j5], key_u@, key_ar@, key_al@));
                            assert(false);
                        }
                    }
                },
            }
        } else {
            proof {
                let j2 = choose|j2: int|
                    0 <= j2 < i && same_key(#[trigger] scored@[j2], scored@[i as int]);
                if covered_from(scored@, i as int, ts) {
                    assert forall|kx: int| #![trigger ts[kx]] 0 <= kx < ts.len() implies exists|j6: int|
                        0 <= j6 < scored@.len() && same_key(#[trigger] scored@[j6], scored@[j2])
                            && scored@[j6].0.matched_track@ == ts[kx] by {
                        let j7 = choose|j7: int|
                            0 <= j7 < scored@.len() && same_key(
                                #[trigger] scored@[j7],
                                scored@[i as int],
                            ) && scored@[j7].0.matched_track@ == ts[kx];
                        assert(same_key(scored@[j7], scored@[j2]));
                    }
                    assert(covered_from(scored@, j2, ts));
                    let g0 = choose|g: int|
                        0 <= g < albums@.len() && album_key_match(scored@[j2], albums@[g]);
                    assert(album_key_match(scored@[i as int], albums@[g0]));
                }
            }
        }
        i = i + 1;
    }
    albums
}

/// A value held at two distinct positions occurs at least twice in the
/// multiset.
pub proof fn lemma_repeated_value_counts_twice(s: Seq<AlbumResult>, g1: int, g2: int)
    requires
        0 <= g1 < g2 < s.len(),
        s[g1] == s[g2],
    ensures
        s.to_multiset().count(s[g1]) >= 2,
{
    broadcast use vstd::seq_lib::group_to_multiset_ensures;

    let t = s.remove(g1);
    assert(t[g2 - 1] == s[g2]);
    assert(t.contains(s[g1]));
    assert(t.to_multiset().count(s[g1]) > 0);
    assert(t.to_multiset() == s.to_multiset().remove(s[g1]));
    assert(s.contains(s[g1]));
    assert(s.to_multiset().count(s[g1]) > 0);
    assert(s.to_multiset().remove(s[g1]).count(s[g1]) == s.to_multiset().count(s[g1]) - 1);
}

/// A value counted at least twice sits at two distinct positions.
pub proof fn lemma_count_two_gives_two_positions(s: Seq<AlbumResult>, x: AlbumResult)
    requires
        s.to_multiset().count(x) >= 2,
    ensures
        exists|g1: int, g2: int| 0 <= g1 < g2 < s.len() && #[trigger] s[g1] == x && #[trigger] s[g2]
            == x,
{
    broadcast use vstd::seq_lib::group_to_multiset_ensures;

    assert(s.contains(x));
    let i = choose|i: int| 0 <= i < s.len() && s[i] == x;
    let t = s.remove(i);
    assert(t.to_multiset() == s.to_multiset().remove(s[i]));
    assert(t.to_multiset().count(x) >= 1);
    assert(t.contains(x));
    let j = choose|j: int| 0 <= j < t.len() && t[j] == x;
    if j < i {
        assert(s[j] == t[j]);
        assert(0 <= j < i < s.len() && s[j] == x && s[i] == x);
    } else {
        assert(s[j + 1] == t[j]);
        assert(0 <= i < j + 1 < s.len() && s[i] == x && s[j + 1] == x);
    }
}

/// Sorts albums by score, highest first. The result is a permutation of the
/// input; albums of equal score may land in either order.
pub fn sort_albums_by_score(albums: &mut Vec<AlbumResult>)
    ensures
        final(albums)@.len() == old(albums)@.len(),
        forall|g1: int, g2: int|
            0 <= g1 <= g2 < final(albums)@.len() ==> (#[trigger] final(albums)@[g1]).score >= (
            #[trigger] final(albums)@[g2]).score,
        final(albums)@.to_multiset() == old(albums)@.to_multiset(),
{
    broadcast use vstd::seq_lib::group_to_multiset_ensures;

    if albums.len() <= 1 {
        return ;
    }
    let mut i: usize = 1;
    while i < albums.len()
        invariant
            1 <= i <= albums@.len(),
            albums@.len() == old(albums)@.len(),
            albums@.to_multiset() == old(albums)@.to_multiset(),
            forall|g1: int, g2: int|
                0 <= g1 <= g2 < i ==> (#[trigger] albums@[g1]).score >= (#[trigger] albums@[g2]).score,
        decreases albums@.len() - i,
    {
        let mut j: usize = i;
        while j > 0 && albums[j - 1].score < albums[j].score
            invariant
                0 <= j <= i < albums@.len(),
                albums@.len() == old(albums)@.len(),
                albums@.to_multiset() == old(albums)@.to_multiset(),
                forall|g1: int, g2: int|
                    0 <= g1 <= g2 <= i && g1 != j && g2 != j ==> (#[trigger] albums@[g1]).score
                        >= (#[trigger] albums@[g2]).score,
                forall|g: int| j < g <= i ==> (#[trigger] albums@[g]).score <= albums@[j as int].score,
            decreases j,
        {
            let ghost before = albums@;
            let moved = albums.remove(j);
            albums.insert(j - 1, moved);
            proof {
                assert(before.contains(before[j as int]));
                vstd::seq_lib::to_multiset_contains::<AlbumResult>(before, before[j as int]);
                assert(before.to_multiset().count(before[j as int]) > 0);
                assert(before.to_multiset().remove(before[j as int]).insert(before[j as int])
                    =~= before.to_multiset());
                assert(albums@ == before.remove(j as int).insert(j - 1, before[j as int]));
                vstd::seq_lib::to_multiset_remove::<AlbumResult>(before, j as int);
                vstd::seq_lib::to_multiset_insert::<AlbumResult>(
                    before.remove(j as int),
                    j - 1,
                    before[j as int],
                );
                assert(albums@.to_multiset() == before.to_multiset());
                assert forall|g: int| 0 <= g < albums@.len() implies albums@[g] == (if g == j - 1 {
                    before[j as int]
                } else if g == j {
                    before[j - 1]
                } else {
                    before[g]
                }) by {
                    assert(albums@ == before.remove(j as int).insert(j - 1, before[j as int]));
                }
            }
            j = j - 1;
        }
        i = i + 1;
    }
}

/// The most frequent quality label, per `dominant_of`.
fn dominant_quality_of(tracks: &Vec<TrackResult>) -> (r: String)
    requires
        tracks@.len() > 0,
    ensures
        r@ == dominant_of(tracks@),
{
    let n = tracks.len();
    let first_label = tracks[0].base.quality();
    let mut dom: usize = 0;
    let mut domcount: usize = count_quality(tracks, &first_label);
    let mut j: usize = 1;
    while j < n
        invariant
            1 <= j <= n,
            n == tracks@.len(),
            dom < j,
            dom == dom_idx_upto(tracks@, j as int),
            domcount == q_count(tracks@, quality_of(tracks@[dom as int].base.filename@)),
        decreases n - j,
    {
        let label = tracks[j].base.quality();
        let c = count_quality(tracks, &label);
        proof {
            lemma_dom_idx_range(tracks@, j as int);
        }
        if c > domcount {
            dom = j;
            domcount = c;
        }
        j = j + 1;
    }
    let r = tracks[dom].base.quality();
    r
}

} // verus!
