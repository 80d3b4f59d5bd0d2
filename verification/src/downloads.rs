use vstd::prelude::*;
use vstd::string::StringExecFns;
use crate::error::SoulseekError;
use crate::models::{
    DownloadRequestFile, DownloadResponse, DownloadStatus, DownloadStatusGhost, TrackResult,
};
use crate::text::{
    char_vec, components, lemma_deep_view_strings, split_components, string_eq, string_from_chars,
};

verus! {

// The download orchestrator's decisions: grouping selected tracks by owning
// peer for submission, merging the per-peer outcomes, and the monitoring loop
// that watches transfer state until the batch resolves and computes which
// files the import step receives. The host application performs the HTTP
// calls and the waits between polls.

/// How often the monitor polls transfer state, in milliseconds.
pub const DOWNLOAD_POLL_INTERVAL_MS: i64 = 2000;

/// How many polls the monitor makes before giving up (about twenty minutes).
pub const DOWNLOAD_POLL_MAX_ATTEMPTS: usize = 600;

/// How often a search session polls for responses, in milliseconds.
pub const SEARCH_POLL_INTERVAL_MS: i64 = 1000;

/// The files of the tracks a given peer owns, in track order, as
/// (filename, size) pairs.
pub open spec fn peer_files_of(tracks: Seq<TrackResult>, u: Seq<char>) -> Seq<(Seq<char>, i64)>
    decreases tracks.len(),
{
    if tracks.len() == 0 {
        Seq::empty()
    } else {
        let rest = peer_files_of(tracks.drop_last(), u);
        if tracks.last().base.username@ == u {
            rest.push((tracks.last().base.filename@, tracks.last().base.size))
        } else {
            rest
        }
    }
}

/// Whether some batch in the plan belongs to the given peer.
pub open spec fn covered_peer(batches: Seq<PeerBatch>, u: Seq<char>) -> bool {
    exists|b: int| 0 <= b < batches.len() && (#[trigger] batches[b]).username@ == u
}

/// Whether some selected track belongs to the given peer.
pub open spec fn selected_peer(tracks: Seq<TrackResult>, u: Seq<char>) -> bool {
    exists|i: int| 0 <= i < tracks.len() && (#[trigger] tracks[i]).base.username@ == u
}

/// One peer's share of a download submission.
pub struct PeerBatch {
    pub username: String,
    pub files: Vec<DownloadRequestFile>,
}

/// Whether a batch's files are exactly the given (filename, size) pairs.
pub open spec fn batch_files_match(files: Seq<DownloadRequestFile>, spec_files: Seq<(Seq<char>, i64)>) -> bool {
    &&& files.len() == spec_files.len()
    &&& forall|j: int|
        0 <= j < files.len() ==> (#[trigger] files[j]).filename@ == spec_files[j].0 && files[j].size
            == spec_files[j].1
}

/// Groups the selected tracks by owning peer: one batch per distinct peer, in
/// order of first appearance, each carrying that peer's files in track order.
pub fn plan_download_submissions(tracks: &Vec<TrackResult>) -> (r: Vec<PeerBatch>)
    ensures
        forall|b1: int, b2: int|
            0 <= b1 < b2 < r@.len() ==> (#[trigger] r@[b1]).username@ != (
            #[trigger] r@[b2]).username@,
        forall|b: int|
            0 <= b < r@.len() ==> batch_files_match(
                (#[trigger] r@[b]).files@,
                peer_files_of(tracks@, r@[b].username@),
            ),
        forall|i: int|
            0 <= i < tracks@.len() ==> covered_peer(r@, (#[trigger] tracks@[i]).base.username@),
        forall|b: int|
            0 <= b < r@.len() ==> selected_peer(tracks@, (#[trigger] r@[b]).username@),
{
    let n = tracks.len();
    let mut r: Vec<PeerBatch> = Vec::new();
    let mut i: usize = 0;
    assert(tracks@.subrange(0, 0) =~= Seq::<TrackResult>::empty());
    while i < n
        invariant
            i <= n,
            n == tracks@.len(),
            forall|b1: int, b2: int|
                0 <= b1 < b2 < r@.len() ==> (#[trigger] r@[b1]).username@ != (
                #[trigger] r@[b2]).username@,
            forall|b: int|
                0 <= b < r@.len() ==> batch_files_match(
                    (#[trigger] r@[b]).files@,
                    peer_files_of(tracks@.subrange(0, i as int), r@[b].username@),
                ),
            forall|i2: int|
                0 <= i2 < i ==> covered_peer(r@, (#[trigger] tracks@[i2]).base.username@),
            forall|b: int|
                0 <= b < r@.len() ==> selected_peer(tracks@, (#[trigger] r@[b]).username@),
        decreases n - i,
    {
        let ghost pre = tracks@.subrange(0, i as int);
        assert(tracks@.subrange(0, i as int + 1).drop_last() =~= pre);
        assert(tracks@.subrange(0, i as int + 1).last() == tracks@[i as int]);
        let file = DownloadRequestFile {
            filename: tracks[i].base.filename.clone(),
            size: tracks[i].base.size,
        };
        let mut found: Option<usize> = None;
        let mut b: usize = 0;
        while b < r.len()
            invariant
                b <= r@.len(),
                i < tracks@.len(),
                match found {
                    Some(fb) => fb < r@.len() && r@[fb as int].username@ == tracks@[i as int].base.username@,
                    None => forall|b2: int|
                        0 <= b2 < b ==> (#[trigger] r@[b2]).username@ != tracks@[i as int].base.username@,
                },
            decreases r@.len() - b,
        {
            if string_eq(&r[b].username, &tracks[i].base.username) {
                found = Some(b);
            }
            b = b + 1;
        }
        match found {
            Some(fb) => {
                let ghost old_r = r@;
                let mut batch = r.remove(fb);
                batch.files.push(file);
                r.insert(fb, batch);
                proof {
                    assert(r@ =~= old_r.update(
                        fb as int,
                        PeerBatch {
                            username: old_r[fb as int].username,
                            files: r@[fb as int].files,
                        },
                    ));
                    assert(r@[fb as int].username == old_r[fb as int].username);
                    assert(r@[fb as int].files@ =~= old_r[fb as int].files@.push(
                        r@[fb as int].files@[old_r[fb as int].files@.len() as int],
                    ));
                    assert forall|bx: int| 0 <= bx < r@.len() implies batch_files_match(
                        (#[trigger] r@[bx]).files@,
                        peer_files_of(tracks@.subrange(0, i as int + 1), r@[bx].username@),
                    ) by {
                        if bx == fb {
                            assert(r@[bx].username@ == tracks@[i as int].base.username@);
                        } else {
                            assert(r@[bx] == old_r[bx]);
                            assert(r@[bx].username@ != tracks@[i as int].base.username@);
                        }
                    }
                    assert forall|i2: int| 0 <= i2 < i + 1 implies covered_peer(
                        r@,
                        (#[trigger] tracks@[i2]).base.username@,
                    ) by {
                        if i2 < i {
                            let bw = choose|bb: int|
                                0 <= bb < old_r.len() && (#[trigger] old_r[bb]).username@
                                    == tracks@[i2].base.username@;
                            assert(r@[bw].username@ == tracks@[i2].base.username@);
                        } else {
                            assert(r@[fb as int].username@ == tracks@[i2].base.username@);
                        }
                    }
                    assert forall|bx: int| 0 <= bx < r@.len() implies selected_peer(
                        tracks@,
                        (#[trigger] r@[bx]).username@,
                    ) by {
                        assert(r@[bx].username@ == old_r[bx].username@);
                    }
                }
            },
            None => {
                let mut files: Vec<DownloadRequestFile> = Vec::new();
                files.push(file);
                let batch = PeerBatch { username: tracks[i].base.username.clone(), files };
                let ghost old_r = r@;
                r.push(batch);
                proof {
                    assert forall|bx: int| 0 <= bx < r@.len() implies batch_files_match(
                        (#[trigger] r@[bx]).files@,
                        peer_files_of(tracks@.subrange(0, i as int + 1), r@[bx].username@),
                    ) by {
                        if bx < old_r.len() {
                            assert(r@[bx] == old_r[bx]);
                            assert(r@[bx].username@ != tracks@[i as int].base.username@);
                        } else {
                            assert(r@[bx].username@ == tracks@[i as int].base.username@);
                            assert(forall|b2: int|
                                0 <= b2 < old_r.len() ==> (#[trigger] old_r[b2]).username@
                                    != tracks@[i as int].base.username@);
                            lemma_peer_files_absent(pre, r@[bx].username@, old_r);
                        }
                    }
                    assert forall|i2: int| 0 <= i2 < i + 1 implies covered_peer(
                        r@,
                        (#[trigger] tracks@[i2]).base.username@,
                    ) by {
                        if i2 < i {
                            let bw = choose|bb: int|
                                0 <= bb < old_r.len() && (#[trigger] old_r[bb]).username@
                                    == tracks@[i2].base.username@;
                            assert(r@[bw] == old_r[bw]);
                            assert(r@[bw].username@ == tracks@[i2].base.username@);
                        } else {
                            assert(r@[r@.len() - 1].username@ == tracks@[i2].base.username@);
                        }
                    }
                    assert forall|bx: int| 0 <= bx < r@.len() implies selected_peer(
                        tracks@,
                        (#[trigger] r@[bx]).username@,
                    ) by {
                        if bx < old_r.len() {
                            assert(r@[bx] == old_r[bx]);
                        } else {
                            assert(r@[bx].username@ == tracks@[i as int].base.username@);
                        }
                    }
                }
            },
        }
        i = i + 1;
    }
    assert(tracks@.subrange(0, n as int) =~= tracks@);
    r
}

/// A peer no batch names owns no files among the processed tracks, given
/// every processed track's peer has a batch.
proof fn lemma_peer_files_absent(tracks: Seq<TrackResult>, u: Seq<char>, batches: Seq<PeerBatch>)
    requires
        forall|i: int|
            0 <= i < tracks.len() ==> covered_peer(
                batches,
                (#[trigger] tracks[i]).base.username@,
            ),
        forall|b: int| 0 <= b < batches.len() ==> (#[trigger] batches[b]).username@ != u,
    ensures
        peer_files_of(tracks, u) == Seq::<(Seq<char>, i64)>::empty(),
    decreases tracks.len(),
{
    if tracks.len() > 0 {
        assert(forall|i: int|
            0 <= i < tracks.drop_last().len() ==> (#[trigger] tracks.drop_last()[i])
                == tracks[i]);
        lemma_peer_files_absent(tracks.drop_last(), u, batches);
        let last = tracks.len() - 1;
        assert(covered_peer(batches, tracks[last].base.username@));
        let bw = choose|b: int|
            0 <= b < batches.len() && (#[trigger] batches[b]).username@ == tracks[last].base.username@;
        assert(tracks.last().base.username@ != u);
    }
}

/// The ids of one submission result's responses.
pub open spec fn ids_of(v: Seq<DownloadResponse>) -> Seq<Seq<char>> {
    Seq::new(v.len(), |i: int| v[i].id@)
}

/// The ids of every successful per-peer submission, in order; a failed peer
/// contributes nothing and aborts nothing.
pub open spec fn ok_ids_of(rs: Seq<Result<Vec<DownloadResponse>, SoulseekError>>) -> Seq<Seq<char>>
    decreases rs.len(),
{
    if rs.len() == 0 {
        Seq::empty()
    } else {
        ok_ids_of(rs.drop_last()) + (match rs.last() {
            Ok(v) => ids_of(v@),
            Err(_) => Seq::empty(),
        })
    }
}

/// Merges the per-peer submission outcomes into the accepted downloads: the
/// union of every successful peer's responses, in submission order, however
/// many peers failed.
pub fn collect_download_responses(results: &Vec<Result<Vec<DownloadResponse>, SoulseekError>>) -> (
    r: Vec<DownloadResponse>)
    ensures
        r@.len() == ok_ids_of(results@).len(),
        forall|i: int| 0 <= i < r@.len() ==> (#[trigger] r@[i]).id@ == ok_ids_of(results@)[i],
{
    let n = results.len();
    let mut r: Vec<DownloadResponse> = Vec::new();
    let mut i: usize = 0;
    assert(results@.subrange(0, 0) =~= Seq::<Result<Vec<DownloadResponse>, SoulseekError>>::empty());
    while i < n
        invariant
            i <= n,
            n == results@.len(),
            r@.len() == ok_ids_of(results@.subrange(0, i as int)).len(),
            forall|m: int|
                0 <= m < r@.len() ==> (#[trigger] r@[m]).id@ == ok_ids_of(
                    results@.subrange(0, i as int),
                )[m],
        decreases n - i,
    {
        let ghost pre = results@.subrange(0, i as int);
        assert(results@.subrange(0, i as int + 1).drop_last() =~= pre);
        assert(results@.subrange(0, i as int + 1).last() == results@[i as int]);
        match &results[i] {
            Ok(v) => {
                let m = v.len();
                let mut k: usize = 0;
                while k < m
                    invariant
                        k <= m,
                        i < results@.len(),
                        m == v@.len(),
                        results@[i as int] matches Ok(vv) && vv == v,
                        r@.len() == ok_ids_of(pre).len() + k,
                        pre == results@.subrange(0, i as int),
                        forall|m2: int|
                            0 <= m2 < ok_ids_of(pre).len() ==> (#[trigger] r@[m2]).id@ == ok_ids_of(
                                pre,
                            )[m2],
                        forall|m2: int|
                            0 <= m2 < k ==> (#[trigger] r@[ok_ids_of(pre).len() + m2]).id@ == v@[m2].id@,
                    decreases m - k,
                {
                    let item = DownloadResponse { id: v[k].id.clone() };
                    r.push(item);
                    k = k + 1;
                }
                assert(ok_ids_of(results@.subrange(0, i as int + 1)) =~= ok_ids_of(pre) + ids_of(
                    v@,
                ));
                proof {
                    assert forall|m2: int| 0 <= m2 < r@.len() implies (#[trigger] r@[m2]).id@
                        == ok_ids_of(results@.subrange(0, i as int + 1))[m2] by {
                        if m2 < ok_ids_of(pre).len() {
                            assert(r@[m2].id@ == ok_ids_of(pre)[m2]);
                        } else {
                            let gm = m2 - ok_ids_of(pre).len();
                            assert(r@[ok_ids_of(pre).len() + gm].id@ == v@[gm].id@);
                            assert(r@[m2].id@ == v@[m2 - ok_ids_of(pre).len()].id@);
                            assert(ids_of(v@)[m2 - ok_ids_of(pre).len()] == v@[m2 - ok_ids_of(
                                pre,
                            ).len()].id@);
                        }
                    }
                }
            },
            Err(_) => {
                assert(ok_ids_of(results@.subrange(0, i as int + 1)) =~= ok_ids_of(pre));
            },
        }
        i = i + 1;
    }
    assert(results@.subrange(0, n as int) =~= results@);
    r
}

// ---------------------------------------------------------------------------
// Monitoring: the batch is watched until every tracked transfer reaches a
// terminal state, the batch disappears from the active list, or the attempt
// cap runs out.

/// Whether a transfer snapshot belongs to the monitored batch.
pub open spec fn in_batch(names: Seq<Seq<char>>, s: DownloadStatusGhost) -> bool {
    names.contains(s.filename)
}

/// How many snapshots of the poll belong to the batch.
pub open spec fn batch_count_of(sts: Seq<DownloadStatusGhost>, names: Seq<Seq<char>>) -> int
    decreases sts.len(),
{
    if sts.len() == 0 {
        0
    } else {
        batch_count_of(sts.drop_last(), names) + if in_batch(names, sts.last()) {
            1int
        } else {
            0int
        }
    }
}

/// Whether every batch member the poll reports is in a terminal state.
pub open spec fn batch_all_terminal(sts: Seq<DownloadStatusGhost>, names: Seq<Seq<char>>) -> bool {
    forall|i: int|
        0 <= i < sts.len() && in_batch(names, #[trigger] sts[i]) ==> sts[i].state.is_terminal()
}

/// The filenames of the batch members that finished successfully, in poll
/// order.
pub open spec fn success_files_of(sts: Seq<DownloadStatusGhost>, names: Seq<Seq<char>>) -> Seq<
    Seq<char>,
>
    decreases sts.len(),
{
    if sts.len() == 0 {
        Seq::empty()
    } else {
        let rest = success_files_of(sts.drop_last(), names);
        if in_batch(names, sts.last()) && sts.last().state.is_success() {
            rest.push(sts.last().filename)
        } else {
            rest
        }
    }
}

/// A peer path reduced to its tail: the immediate parent directory and the
/// basename, so imports never recreate deep peer-specific directory trees.
pub open spec fn tail_path(f: Seq<char>) -> Seq<char> {
    let cs = components(f);
    if cs.len() >= 2 {
        cs[cs.len() - 2] + "/"@ + cs[cs.len() - 1]
    } else if cs.len() == 1 {
        cs[0]
    } else {
        Seq::empty()
    }
}

/// A batch file resolved against the local staging directory.
pub open spec fn resolved_path(base: Seq<char>, f: Seq<char>) -> Seq<char> {
    base + "/"@ + tail_path(f)
}

/// All successful files resolved, in order.
pub open spec fn resolved_all(base: Seq<char>, files: Seq<Seq<char>>) -> Seq<Seq<char>> {
    Seq::new(files.len(), |i: int| resolved_path(base, files[i]))
}

/// Paths with later duplicates dropped, keeping first occurrences in order.
pub open spec fn dedup_first(s: Seq<Seq<char>>) -> Seq<Seq<char>>
    decreases s.len(),
{
    if s.len() == 0 {
        Seq::empty()
    } else {
        let rest = dedup_first(s.drop_last());
        if s.drop_last().contains(s.last()) {
            rest
        } else {
            rest.push(s.last())
        }
    }
}

proof fn lemma_dedup_first_membership(s: Seq<Seq<char>>, x: Seq<char>)
    ensures
        dedup_first(s).contains(x) == s.contains(x),
    decreases s.len(),
{
    if s.len() > 0 {
        lemma_dedup_first_membership(s.drop_last(), x);
        if s.contains(x) {
            let w = choose|i: int| 0 <= i < s.len() && s[i] == x;
            if w < s.len() - 1 {
                assert(s.drop_last()[w] == x);
            }
            if s.drop_last().contains(x) {
                assert(dedup_first(s.drop_last()).contains(x));
                if !s.drop_last().contains(s.last()) {
                    let w2 = choose|i: int|
                        0 <= i < dedup_first(s.drop_last()).len() && dedup_first(s.drop_last())[i]
                            == x;
                    assert(dedup_first(s)[w2] == x);
                } else {
                    assert(dedup_first(s).contains(x));
                }
            } else {
                assert(s.last() == x);
                assert(dedup_first(s).last() == x);
            }
        } else {
            assert(!s.drop_last().contains(x));
            assert(s.last() != x);
            if dedup_first(s).contains(x) {
                let w3 = choose|i: int|
                    0 <= i < dedup_first(s).len() && dedup_first(s)[i] == x;
                if !s.drop_last().contains(s.last()) && w3 == dedup_first(s).len() - 1 {
                    assert(false);
                } else {
                    assert(dedup_first(s.drop_last())[w3] == x);
                    assert(false);
                }
            }
        }
    }
}

/// The tail of a filename, as characters.
pub fn tail_path_exec(filename: &str) -> (r: Vec<char>)
    ensures
        r@ == tail_path(filename@),
{
    let cv = char_vec(filename);
    let comps = split_components(&cv);
    proof {
        crate::text::lemma_deep_view_chars(&comps);
    }
    if comps.len() >= 2 {
        proof {
            reveal_strlit("/");
        }
        let mut out: Vec<char> = Vec::new();
        let parent = &comps[comps.len() - 2];
        let base = &comps[comps.len() - 1];
        let mut i: usize = 0;
        while i < parent.len()
            invariant
                i <= parent@.len(),
                out@ == parent@.subrange(0, i as int),
            decreases parent@.len() - i,
        {
            let c = parent[i];
            out.push(c);
            i = i + 1;
            assert(out@ =~= parent@.subrange(0, i as int));
        }
        assert(parent@.subrange(0, parent@.len() as int) =~= parent@);
        out.push('/');
        assert(out@ =~= parent@ + "/"@ + base@.subrange(0, 0));
        let mut k: usize = 0;
        while k < base.len()
            invariant
                k <= base@.len(),
                out@ == parent@ + "/"@ + base@.subrange(0, k as int),
            decreases base@.len() - k,
        {
            let c = base[k];
            out.push(c);
            k = k + 1;
            assert(out@ =~= parent@ + "/"@ + base@.subrange(0, k as int));
        }
        assert(base@.subrange(0, base@.len() as int) =~= base@);
        assert(out@ =~= parent@ + "/"@ + base@);
        out
    } else if comps.len() == 1 {
        let only = &comps[0];
        let mut out: Vec<char> = Vec::new();
        let mut i: usize = 0;
        while i < only.len()
            invariant
                i <= only@.len(),
                out@ == only@.subrange(0, i as int),
            decreases only@.len() - i,
        {
            let c = only[i];
            out.push(c);
            i = i + 1;
            assert(out@ =~= only@.subrange(0, i as int));
        }
        assert(only@.subrange(0, only@.len() as int) =~= only@);
        out
    } else {
        let out: Vec<char> = Vec::new();
        assert(out@ =~= tail_path(filename@));
        out
    }
}

/// Resolves the successful files against the staging directory and drops
/// duplicate paths, keeping first occurrences.
pub fn resolve_import_paths(base_dir: &String, files: &Vec<String>) -> (r: Vec<String>)
    ensures
        r.deep_view() == dedup_first(resolved_all(base_dir@, files.deep_view())),
{
    proof {
        lemma_deep_view_strings(files);
    }
    let ghost fv = files.deep_view();
    let n = files.len();
    let mut r: Vec<String> = Vec::new();
    let ghost resolved = resolved_all(base_dir@, fv);
    let mut i: usize = 0;
    assert(resolved.subrange(0, 0) =~= Seq::<Seq<char>>::empty());
    assert(dedup_first(resolved.subrange(0, 0)) =~= Seq::<Seq<char>>::empty());
    assert(r.deep_view() =~= Seq::<Seq<char>>::empty());
    while i < n
        invariant
            i <= n,
            n == files@.len(),
            fv == files.deep_view(),
            fv.len() == files@.len(),
            forall|m: int| 0 <= m < fv.len() ==> fv[m] == files@[m]@,
            resolved == resolved_all(base_dir@, fv),
            r.deep_view() == dedup_first(resolved.subrange(0, i as int)),
        decreases n - i,
    {
        let ghost pre = resolved.subrange(0, i as int);
        assert(resolved.subrange(0, i as int + 1).drop_last() =~= pre);
        assert(resolved.subrange(0, i as int + 1).last() == resolved[i as int]);
        let tail = tail_path_exec(files[i].as_str());
        let mut path = base_dir.clone();
        path.append("/");
        let tail_str = string_from_chars(&tail);
        path.append(tail_str.as_str());
        assert(path@ == resolved[i as int]);
        let mut dup = false;
        let mut j: usize = 0;
        while j < r.len()
            invariant
                j <= r@.len(),
                r.deep_view().len() == r@.len(),
                forall|m: int| 0 <= m < r@.len() ==> r.deep_view()[m] == r@[m]@,
                path@ == resolved[i as int],
                dup ==> r.deep_view().contains(path@),
                !dup ==> forall|m: int| 0 <= m < j ==> r.deep_view()[m] != path@,
            decreases r@.len() - j,
        {
            if string_eq(&r[j], &path) {
                assert(r.deep_view()[j as int] == path@);
                dup = true;
            }
            j = j + 1;
        }
        proof {
            lemma_dedup_first_membership(pre, resolved[i as int]);
            if !dup {
                assert(forall|m: int|
                    0 <= m < r.deep_view().len() ==> r.deep_view()[m] != path@);
                assert(!r.deep_view().contains(path@));
            }
        }
        if !dup {
            let ghost old_dv = r.deep_view();
            r.push(path);
            assert(r.deep_view() =~~= old_dv.push(r@[r@.len() - 1]@));
        }
        i = i + 1;
    }
    assert(resolved.subrange(0, n as int) =~= resolved);
    r
}

/// What the monitor decides after one poll.
#[derive(Debug, Clone)]
pub enum MonitorStep {
    KeepPolling,
    GaveUp,
    AssumeResolved,
    Finished(Vec<String>),
}

/// The monitoring state of one accepted download batch: the filenames being
/// tracked, the attempts made, the cap, and the staging directory the
/// import paths resolve against.
pub struct DownloadMonitor {
    pub filenames: Vec<String>,
    pub attempts: usize,
    pub max_attempts: usize,
    pub base_dir: String,
}

impl DownloadMonitor {
    /// Starts monitoring a batch of filenames.
    pub fn start(filenames: Vec<String>, max_attempts: usize, base_dir: String) -> (m:
        DownloadMonitor)
        ensures
            m.filenames == filenames,
            m.attempts == 0,
            m.max_attempts == max_attempts,
            m.base_dir == base_dir,
    {
        DownloadMonitor { filenames, attempts: 0, max_attempts, base_dir }
    }

    /// Absorbs one poll of the transfer list. The attempt is counted first;
    /// past the cap the monitor gives up. A failed poll changes nothing and
    /// polling goes on. When none of the batch's files appear any more the
    /// batch counts as resolved (deliberately fail-open). Once every tracked
    /// file is terminal, the successful files — tail paths resolved against
    /// the staging directory, duplicates dropped — are handed out for import;
    /// otherwise polling goes on.
    pub fn tick(&mut self, poll: Option<&Vec<DownloadStatus>>) -> (r: MonitorStep)
        requires
            old(self).attempts < usize::MAX,
        ensures
            final(self).filenames == old(self).filenames,
            final(self).max_attempts == old(self).max_attempts,
            final(self).base_dir == old(self).base_dir,
            final(self).attempts == old(self).attempts + 1,
            ({
                let names = old(self).filenames.deep_view();
                if old(self).attempts + 1 > old(self).max_attempts {
                    r is GaveUp
                } else {
                    match poll {
                        Some(sts) => {
                            let snap = sts.deep_view();
                            if batch_count_of(snap, names) == 0 {
                                r is AssumeResolved
                            } else if batch_all_terminal(snap, names) {
                                r matches MonitorStep::Finished(ps) && ps.deep_view()
                                    == dedup_first(
                                    resolved_all(
                                        old(self).base_dir@,
                                        success_files_of(snap, names),
                                    ),
                                )
                            } else {
                                r is KeepPolling
                            }
                        },
                        None => r is KeepPolling,
                    }
                }
            }),
    {
        proof {
            lemma_deep_view_strings(&self.filenames);
        }
        self.attempts = self.attempts + 1;
        if self.attempts > self.max_attempts {
            return MonitorStep::GaveUp;
        }
        let sts = match poll {
            Some(sts) => sts,
            None => {
                return MonitorStep::KeepPolling;
            },
        };
        let ghost names = self.filenames.deep_view();
        let ghost snap = sts.deep_view();
        let n = sts.len();
        let mut members: usize = 0;
        let mut all_term = true;
        let mut succ: Vec<String> = Vec::new();
        let mut i: usize = 0;
        assert(snap.subrange(0, 0) =~= Seq::<DownloadStatusGhost>::empty());
        assert(succ.deep_view() =~= Seq::<Seq<char>>::empty());
        while i < n
            invariant
                i <= n,
                n == sts@.len(),
                names == self.filenames.deep_view(),
                snap == sts.deep_view(),
                snap.len() == sts@.len(),
                forall|m: int| 0 <= m < snap.len() ==> snap[m] == sts@[m]@,
                members <= i,
                members == batch_count_of(snap.subrange(0, i as int), names),
                all_term == batch_all_terminal(snap.subrange(0, i as int), names),
                succ.deep_view() == success_files_of(snap.subrange(0, i as int), names),
            decreases n - i,
        {
            let ghost pre = snap.subrange(0, i as int);
            assert(snap.subrange(0, i as int + 1).drop_last() =~= pre);
            assert(snap.subrange(0, i as int + 1).last() == snap[i as int]);
            let st = &sts[i];
            let mut present = false;
            let mut j: usize = 0;
            while j < self.filenames.len()
                invariant
                    j <= self.filenames@.len(),
                    names == self.filenames.deep_view(),
                    names.len() == self.filenames@.len(),
                    forall|m: int| 0 <= m < names.len() ==> names[m] == self.filenames@[m]@,
                    i < sts@.len(),
                    st == &sts@[i as int],
                    present ==> names.contains(st.filename@),
                    !present ==> forall|m: int| 0 <= m < j ==> names[m] != st.filename@,
                decreases self.filenames@.len() - j,
            {
                if string_eq(&self.filenames[j], &st.filename) {
                    assert(names[j as int] == st.filename@);
                    present = true;
                }
                j = j + 1;
            }
            proof {
                if !present {
                    assert(forall|m: int| 0 <= m < names.len() ==> names[m] != st.filename@);
                    assert(!names.contains(st.filename@));
                }
                assert(snap[i as int].filename == st.filename@);
            }
            if present {
                members = members + 1;
                if !st.state.terminal() {
                    all_term = false;
                }
                if st.state.success() {
                    let ghost old_dv = succ.deep_view();
                    succ.push(st.filename.clone());
                    assert(succ.deep_view() =~~= old_dv.push(succ@[succ@.len() - 1]@));
                }
            }
            i = i + 1;
        }
        assert(snap.subrange(0, n as int) =~= snap);
        if members == 0 {
            return MonitorStep::AssumeResolved;
        }
        if all_term {
            let paths = resolve_import_paths(&self.base_dir, &succ);
            return MonitorStep::Finished(paths);
        }
        MonitorStep::KeepPolling
    }
}

/// The argument list the external library-import command receives: its
/// configuration file, the destination directory, the import mode flags, and
/// every source path, in order.
pub fn import_command_args(config_path: &str, target_dir: &str, sources: &Vec<String>) -> (r: Vec<
    String,
>)
    ensures
        r.deep_view() == seq![
            "-c"@,
            config_path@,
            "-d"@,
            target_dir@,
            "import"@,
            "-s"@,
            "-q"@,
        ] + sources.deep_view(),
{
    proof {
        lemma_deep_view_strings(sources);
    }
    let mut r: Vec<String> = Vec::new();
    r.push(String::from_str("-c"));
    r.push(String::from_str(config_path));
    r.push(String::from_str("-d"));
    r.push(String::from_str(target_dir));
    r.push(String::from_str("import"));
    r.push(String::from_str("-s"));
    r.push(String::from_str("-q"));
    let n = sources.len();
    let mut i: usize = 0;
    assert(r.deep_view() =~= seq![
        "-c"@,
        config_path@,
        "-d"@,
        target_dir@,
        "import"@,
        "-s"@,
        "-q"@,
    ] + sources.deep_view().subrange(0, 0));
    while i < n
        invariant
            i <= n,
            n == sources@.len(),
            sources.deep_view().len() == sources@.len(),
            forall|m: int| 0 <= m < sources@.len() ==> sources.deep_view()[m] == sources@[m]@,
            r.deep_view() == seq![
                "-c"@,
                config_path@,
                "-d"@,
                target_dir@,
                "import"@,
                "-s"@,
                "-q"@,
            ] + sources.deep_view().subrange(0, i as int),
        decreases n - i,
    {
        let ghost old_dv = r.deep_view();
        let s = sources[i].clone();
        r.push(s);
        proof {
            assert(r.deep_view() =~~= old_dv.push(r@[r@.len() - 1]@));
            assert(r.deep_view() =~~= seq![
                "-c"@,
                config_path@,
                "-d"@,
                target_dir@,
                "import"@,
                "-s"@,
                "-q"@,
            ] + sources.deep_view().subrange(0, i as int + 1));
        }
        i = i + 1;
    }
    assert(sources.deep_view().subrange(0, n as int) =~= sources.deep_view());
    assert(r.deep_view() =~~= seq![
        "-c"@,
        config_path@,
        "-d"@,
        target_dir@,
        "import"@,
        "-s"@,
        "-q"@,
    ] + sources.deep_view());
    r
}

} // verus!
