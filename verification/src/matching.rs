use vstd::prelude::*;
use crate::models::{MatchResult, MatchResultGhost};
use crate::text::{
    char_vec, components, lemma_deep_view_chars, lemma_deep_view_strings, lemma_sim_bounds, sim,
    similarity, split_components, stem_chars, stem_of, string_from_chars, tokenize, tokens,
};

verus! {

// Classifying one peer filename against the expected artist, album and track
// titles. The guessed artist and album come from the directory layout of the
// advertised path; the similarity scores come from normalized token overlap.

/// The directory two levels above the file, taken as the artist guess.
pub open spec fn guessed_artist_of(f: Seq<char>) -> Seq<char> {
    let cs = components(f);
    if cs.len() >= 3 {
        cs[cs.len() - 3]
    } else {
        Seq::empty()
    }
}

/// The directory directly above the file, taken as the album guess.
pub open spec fn guessed_album_of(f: Seq<char>) -> Seq<char> {
    let cs = components(f);
    if cs.len() >= 2 {
        cs[cs.len() - 2]
    } else {
        Seq::empty()
    }
}

/// Similarity of one expected track title against the file's stem.
pub open spec fn track_sim(f: Seq<char>, title: Seq<char>) -> int {
    sim(tokens(title), tokens(stem_of(f)))
}

/// The first index among `titles` with the highest stem similarity.
pub open spec fn best_title_idx(f: Seq<char>, titles: Seq<Seq<char>>) -> int
    decreases titles.len(),
{
    if titles.len() <= 1 {
        0
    } else {
        let b = best_title_idx(f, titles.drop_last());
        if track_sim(f, titles.last()) > track_sim(f, titles[b]) {
            titles.len() - 1
        } else {
            b
        }
    }
}

pub proof fn lemma_best_title_idx_range(f: Seq<char>, titles: Seq<Seq<char>>)
    requires
        titles.len() > 0,
    ensures
        0 <= best_title_idx(f, titles) < titles.len(),
    decreases titles.len(),
{
    if titles.len() > 1 {
        lemma_best_title_idx_range(f, titles.drop_last());
    }
}

/// The best-matching expected title, empty when none are expected.
pub open spec fn matched_track_of(f: Seq<char>, titles: Seq<Seq<char>>) -> Seq<char> {
    if titles.len() == 0 {
        Seq::empty()
    } else {
        titles[best_title_idx(f, titles)]
    }
}

/// The best title's similarity score, zero when none are expected.
pub open spec fn track_score_of(f: Seq<char>, titles: Seq<Seq<char>>) -> int {
    if titles.len() == 0 {
        0
    } else {
        track_sim(f, titles[best_title_idx(f, titles)])
    }
}

/// Similarity of the searched artist against the whole path.
pub open spec fn artist_score_of(f: Seq<char>, artist: Seq<char>) -> int {
    sim(tokens(artist), tokens(f))
}

/// Similarity of the searched album against the whole path.
pub open spec fn album_score_of(f: Seq<char>, album: Seq<char>) -> int {
    sim(tokens(album), tokens(f))
}

/// Overall confidence: a weighted combination of the artist, album and track
/// scores, with the track match counting double.
pub open spec fn total_score_of(
    f: Seq<char>,
    artist: Seq<char>,
    album: Seq<char>,
    titles: Seq<Seq<char>>,
) -> int {
    (25 * artist_score_of(f, artist) + 25 * album_score_of(f, album) + 50 * track_score_of(
        f,
        titles,
    )) / 100
}

/// The full classification of one filename, as `classify` computes it.
pub open spec fn classify_spec(
    f: Seq<char>,
    artist: Seq<char>,
    album: Seq<char>,
    titles: Seq<Seq<char>>,
) -> MatchResultGhost {
    MatchResultGhost {
        guessed_artist: guessed_artist_of(f),
        guessed_album: guessed_album_of(f),
        matched_track: matched_track_of(f, titles),
        artist_score: artist_score_of(f, artist) as i64,
        album_score: album_score_of(f, album) as i64,
        track_score: track_score_of(f, titles) as i64,
        total_score: total_score_of(f, artist, album, titles) as i64,
    }
}

/// Every classification score lies between 0 and 100.
pub proof fn lemma_classify_scores_range(
    f: Seq<char>,
    artist: Seq<char>,
    album: Seq<char>,
    titles: Seq<Seq<char>>,
)
    ensures
        0 <= artist_score_of(f, artist) <= 100,
        0 <= album_score_of(f, album) <= 100,
        0 <= track_score_of(f, titles) <= 100,
        0 <= total_score_of(f, artist, album, titles) <= 100,
{
    lemma_sim_bounds(tokens(artist), tokens(f));
    lemma_sim_bounds(tokens(album), tokens(f));
    if titles.len() > 0 {
        lemma_best_title_idx_range(f, titles);
        lemma_sim_bounds(tokens(titles[best_title_idx(f, titles)]), tokens(stem_of(f)));
    }
}

/// Classifies one candidate filename against the expected artist, album and
/// track titles, yielding the guesses and all similarity scores.
pub fn classify(filename: &str, artist: &str, album: &str, expected_tracks: &Vec<String>) -> (r:
    MatchResult)
    ensures
        r@ == classify_spec(filename@, artist@, album@, expected_tracks.deep_view()),
{
    let fchars = char_vec(filename);
    let comps = split_components(&fchars);
    proof {
        lemma_deep_view_chars(&comps);
        lemma_deep_view_strings(expected_tracks);
        lemma_classify_scores_range(filename@, artist@, album@, expected_tracks.deep_view());
    }
    let guessed_artist: String = if comps.len() >= 3 {
        string_from_chars(&comps[comps.len() - 3])
    } else {
        let empty_chars: Vec<char> = Vec::new();
        string_from_chars(&empty_chars)
    };
    let guessed_album: String = if comps.len() >= 2 {
        string_from_chars(&comps[comps.len() - 2])
    } else {
        let empty_chars: Vec<char> = Vec::new();
        string_from_chars(&empty_chars)
    };
    assert(guessed_artist@ =~= guessed_artist_of(filename@));
    assert(guessed_album@ =~= guessed_album_of(filename@));

    let path_tokens = tokenize(&fchars);
    let artist_chars = char_vec(artist);
    let artist_tokens = tokenize(&artist_chars);
    let album_chars = char_vec(album);
    let album_tokens = tokenize(&album_chars);
    let a_score: i64 = similarity(&artist_tokens, &path_tokens);
    let al_score: i64 = similarity(&album_tokens, &path_tokens);

    let stem = stem_chars(filename);
    let stem_tokens = tokenize(&stem);
    let ghost titles = expected_tracks.deep_view();

    let mut best_idx: usize = 0;
    let mut best_score: i64 = 0;
    if expected_tracks.len() > 0 {
        let first_chars = char_vec(expected_tracks[0].as_str());
        let first_tokens = tokenize(&first_chars);
        best_score = similarity(&first_tokens, &stem_tokens);
        assert(titles.subrange(0, 1).len() == 1);
        assert(titles.subrange(0, 1)[0] == titles[0]);
        assert(best_title_idx(filename@, titles.subrange(0, 1)) == 0);
        assert(best_score == track_sim(filename@, titles[0]));
        let mut i: usize = 1;
        while i < expected_tracks.len()
            invariant
                1 <= i <= expected_tracks@.len(),
                titles.len() == expected_tracks@.len(),
                forall|j: int| 0 <= j < titles.len() ==> titles[j] == expected_tracks@[j]@,
                stem_tokens.deep_view() == tokens(stem_of(filename@)),
                best_idx < i,
                best_idx == best_title_idx(filename@, titles.subrange(0, i as int)),
                best_score == track_sim(filename@, titles[best_idx as int]),
            decreases expected_tracks@.len() - i,
        {
            let t_chars = char_vec(expected_tracks[i].as_str());
            let t_tokens = tokenize(&t_chars);
            let s = similarity(&t_tokens, &stem_tokens);
            assert(s == track_sim(filename@, titles[i as int]));
            let ghost pre = titles.subrange(0, i as int);
            assert(titles.subrange(0, i as int + 1).drop_last() =~= pre);
            assert(titles.subrange(0, i as int + 1).last() == titles[i as int]);
            proof {
                lemma_best_title_idx_range(filename@, pre);
            }
            assert(titles.subrange(0, i as int + 1)[best_idx as int] == titles[best_idx as int]);
            if s > best_score {
                best_idx = i;
                best_score = s;
            }
            i = i + 1;
        }
        assert(titles.subrange(0, titles.len() as int) =~= titles);
    }

    let matched_track: String;
    let track_score: i64;
    if expected_tracks.len() > 0 {
        matched_track = expected_tracks[best_idx].clone();
        track_score = best_score;
        proof {
            lemma_best_title_idx_range(filename@, titles);
        }
        assert(matched_track@ == matched_track_of(filename@, titles));
        assert(track_score == track_score_of(filename@, titles));
    } else {
        let empty_chars: Vec<char> = Vec::new();
        matched_track = string_from_chars(&empty_chars);
        track_score = 0;
        assert(matched_track@ =~= matched_track_of(filename@, titles));
    }

    let num: u64 = 25u64 * (a_score as u64) + 25u64 * (al_score as u64) + 50u64 * (
    track_score as u64);
    let total: i64 = (num / 100u64) as i64;
    assert(total == total_score_of(filename@, artist@, album@, titles));

    MatchResult {
        guessed_artist,
        guessed_album,
        matched_track,
        artist_score: a_score,
        album_score: al_score,
        track_score,
        total_score: total,
    }
}

} // verus!
