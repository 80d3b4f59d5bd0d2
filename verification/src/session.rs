use vstd::prelude::*;
use crate::albums::{
    album_key_match, album_ok, covered_from, distinct_titles, find_best_albums,
    lemma_count_two_gives_two_positions, lemma_repeated_value_counts_twice,
    process_search_responses, same_album_key, scored_of, sort_albums_by_score,
};
use crate::models::{AlbumResult, SearchResponse};

verus! {

// One search's lifecycle: started remotely, polled at a fixed interval while
// responses accumulate, then torn down. Every decision is a pure function of
// the session state and what the last poll returned; the host application
// supplies the clock, the waits and the HTTP calls.

/// How a search session left its polling phase.
#[derive(Debug, Clone, Copy, PartialEq, Eq, Structural)]
pub enum SessionOutcome {
    Completed,
    TimedOut,
    Cancelled,
    NotFound,
}

/// What one poll of the responses endpoint produced.
pub enum PollEvent {
    Responses(Vec<SearchResponse>),
    SessionGone,
    TransientError,
}

/// What the session asks of the caller at the top of a poll iteration.
#[derive(Debug, Clone, Copy, PartialEq, Eq, Structural)]
pub enum PollGate {
    Fetch,
    Leave(SessionOutcome),
}

/// One running search: the remote id, the responses accumulated so far, the
/// cooperative cancellation flag and the overall deadline.
pub struct SearchSession {
    pub id: String,
    pub responses: Vec<SearchResponse>,
    pub cancelled: bool,
    pub timeout_ms: i64,
}

impl SearchSession {
    /// Opens the local handle for a search the gateway has just started.
    pub fn start(id: String, timeout_ms: i64) -> (s: SearchSession)
        ensures
            s.id == id,
            s.responses@ == Seq::<SearchResponse>::empty(),
            !s.cancelled,
            s.timeout_ms == timeout_ms,
    {
        SearchSession { id, responses: Vec::new(), cancelled: false, timeout_ms }
    }

    /// Requests cooperative cancellation; the poll loop observes it at the
    /// top of its next iteration.
    pub fn cancel(&mut self)
        ensures
            final(self).cancelled,
            final(self).id == old(self).id,
            final(self).responses == old(self).responses,
            final(self).timeout_ms == old(self).timeout_ms,
    {
        self.cancelled = true;
    }

    /// The decision at the top of each poll iteration: leave on deadline or
    /// cancellation, otherwise fetch the current responses.
    pub fn poll_gate(&self, elapsed_ms: i64) -> (r: PollGate)
        ensures
            elapsed_ms >= self.timeout_ms ==> r == PollGate::Leave(SessionOutcome::TimedOut),
            elapsed_ms < self.timeout_ms && self.cancelled ==> r == PollGate::Leave(
                SessionOutcome::Cancelled,
            ),
            elapsed_ms < self.timeout_ms && !self.cancelled ==> r == PollGate::Fetch,
    {
        if elapsed_ms >= self.timeout_ms {
            PollGate::Leave(SessionOutcome::TimedOut)
        } else if self.cancelled {
            PollGate::Leave(SessionOutcome::Cancelled)
        } else {
            PollGate::Fetch
        }
    }

    /// Absorbs one poll's outcome. A larger response set replaces the
    /// accumulated one and a smaller or equal one is ignored, so the set
    /// never regresses; a gone session ends polling; a transient error
    /// changes nothing and polling goes on.
    pub fn absorb(&mut self, event: PollEvent) -> (r: Option<SessionOutcome>)
        ensures
            final(self).id == old(self).id,
            final(self).cancelled == old(self).cancelled,
            final(self).timeout_ms == old(self).timeout_ms,
            final(self).responses@.len() >= old(self).responses@.len(),
            match event {
                PollEvent::Responses(new) => {
                    &&& r is None
                    &&& (new@.len() > old(self).responses@.len() ==> final(self).responses@
                        == new@)
                    &&& (new@.len() <= old(self).responses@.len() ==> final(self).responses@
                        == old(self).responses@)
                },
                PollEvent::SessionGone => {
                    &&& r == Some(SessionOutcome::NotFound)
                    &&& final(self).responses@ == old(self).responses@
                },
                PollEvent::TransientError => {
                    &&& r is None
                    &&& final(self).responses@ == old(self).responses@
                },
            },
    {
        match event {
            PollEvent::Responses(new) => {
                if new.len() > self.responses.len() {
                    self.responses = new;
                }
                None
            },
            PollEvent::SessionGone => Some(SessionOutcome::NotFound),
            PollEvent::TransientError => None,
        }
    }

    /// Turns whatever the session accumulated into ranked album candidates:
    /// classification and filtering per `scored_of`, assembly of complete
    /// albums only, sorted by score with the highest first. Every path out of
    /// polling — completion, timeout, cancellation, a vanished session —
    /// lands here with whatever was collected.
    pub fn conclude(&self, artist: &str, album: &str, expected_tracks: &Vec<String>) -> (r: Vec<
        AlbumResult,
    >)
        ensures
            ({
                let ts = expected_tracks.deep_view();
                &&& ts.len() == 0 ==> r@.len() == 0
                &&& !distinct_titles(ts) ==> r@.len() == 0
                &&& forall|g1: int, g2: int|
                    0 <= g1 <= g2 < r@.len() ==> (#[trigger] r@[g1]).score >= (
                    #[trigger] r@[g2]).score
                &&& forall|g1: int, g2: int|
                    0 <= g1 < g2 < r@.len() ==> !same_album_key(r@[g1], r@[g2])
                &&& exists|pairs: Seq<(crate::models::MatchResult, crate::models::SearchResult)>|
                    #![trigger pairs.len()]
                    {
                        &&& pairs.len() == scored_of(self.responses@, artist@, album@, ts).len()
                        &&& (forall|i: int|
                            0 <= i < pairs.len() ==> (#[trigger] pairs[i]).0@ == scored_of(
                                self.responses@,
                                artist@,
                                album@,
                                ts,
                            )[i].0 && pairs[i].1@ == scored_of(
                                self.responses@,
                                artist@,
                                album@,
                                ts,
                            )[i].1)
                        &&& (forall|g: int|
                            0 <= g < r@.len() ==> album_ok(#[trigger] r@[g], pairs, ts))
                        &&& ((ts.len() > 0 && distinct_titles(ts)) ==> (forall|i: int|
                            #![trigger covered_from(pairs, i, ts)]
                            0 <= i < pairs.len() && covered_from(pairs, i, ts) ==> exists|g: int|
                                0 <= g < r@.len() && album_key_match(pairs[i], #[trigger] r@[g])))
                    }
            }),
    {
        let ghost ts = expected_tracks.deep_view();
        let scored = process_search_responses(&self.responses, artist, album, expected_tracks);
        let mut albums = find_best_albums(&scored, expected_tracks);
        let ghost mid = albums@;
        sort_albums_by_score(&mut albums);
        proof {
            broadcast use vstd::seq_lib::group_to_multiset_ensures;

            assert forall|g: int| 0 <= g < albums@.len() implies album_ok(
                #[trigger] albums@[g],
                scored@,
                ts,
            ) by {
                assert(albums@.to_multiset().contains(albums@[g]));
                assert(mid.to_multiset().contains(albums@[g]));
                assert(mid.contains(albums@[g]));
                let gm = choose|gm: int| 0 <= gm < mid.len() && mid[gm] == albums@[g];
                assert(album_ok(mid[gm], scored@, ts));
            }
            assert forall|g1: int, g2: int| 0 <= g1 < g2 < albums@.len() implies !same_album_key(
                albums@[g1],
                albums@[g2],
            ) by {
                if same_album_key(albums@[g1], albums@[g2]) {
                    if albums@[g1] == albums@[g2] {
                        lemma_repeated_value_counts_twice(albums@, g1, g2);
                        assert(mid.to_multiset().count(albums@[g1]) >= 2);
                        lemma_count_two_gives_two_positions(mid, albums@[g1]);
                        let (m1, m2) = choose|m1: int, m2: int|
                            0 <= m1 < m2 < mid.len() && #[trigger] mid[m1] == albums@[g1]
                                && #[trigger] mid[m2] == albums@[g1];
                        assert(same_album_key(mid[m1], mid[m2]));
                        assert(false);
                    } else {
                        assert(albums@.contains(albums@[g1]));
                        assert(albums@.to_multiset().count(albums@[g1]) > 0);
                        assert(mid.contains(albums@[g1]));
                        assert(albums@.contains(albums@[g2]));
                        assert(albums@.to_multiset().count(albums@[g2]) > 0);
                        assert(mid.contains(albums@[g2]));
                        let m1 = choose|m: int| 0 <= m < mid.len() && mid[m] == albums@[g1];
                        let m2 = choose|m: int| 0 <= m < mid.len() && mid[m] == albums@[g2];
                        assert(m1 != m2);
                        if m1 < m2 {
                            assert(!same_album_key(mid[m1], mid[m2]));
                        } else {
                            assert(!same_album_key(mid[m2], mid[m1]));
                        }
                        assert(false);
                    }
                }
            }
            if ts.len() > 0 && distinct_titles(ts) {
                assert forall|i: int|
                    #![trigger covered_from(scored@, i, ts)]
                    0 <= i < scored@.len() && covered_from(scored@, i, ts) implies exists|g: int|
                    0 <= g < albums@.len() && album_key_match(scored@[i], #[trigger] albums@[g]) by {
                    let g0 = choose|g: int|
                        0 <= g < mid.len() && album_key_match(scored@[i], #[trigger] mid[g]);
                    assert(mid.to_multiset().contains(mid[g0]));
                    assert(albums@.to_multiset().contains(mid[g0]));
                    assert(albums@.contains(mid[g0]));
                    let g1 = choose|g: int| 0 <= g < albums@.len() && albums@[g] == mid[g0];
                    assert(album_key_match(scored@[i], albums@[g1]));
                }
            }
        }
        albums
    }
}

} // verus!
