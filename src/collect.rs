use vstd::prelude::*;
use vstd::string::StringExecFns;
use crate::error::OsuApiError;
use crate::mods::{encode_spec, OsuMods};

verus! {

#[derive(Debug)]
pub struct BeatmapCompact {
    pub version: String,
}

#[derive(Debug)]
pub struct BeatmapSetCompact {
    pub artist: String,
    pub artist_unicode: String,
    pub creator: String,
    pub source: String,
    pub title: String,
    pub title_unicode: String,
}

#[derive(Debug)]
pub struct UserCompact {
    pub id: i64,
    pub username: String,
}

/// One leaderboard entry; `P` is the type of performance points.
#[derive(Debug)]
pub struct UserStatistics<P> {
    pub pp: P,
    pub global_rank: i32,
    pub user: UserCompact,
}

/// One page of the leaderboard.
#[derive(Debug)]
pub struct RankingResponse<P> {
    pub ranking: Vec<UserStatistics<P>>,
    pub total: i32,
}

/// One score of a user; `created_at` is in seconds since the Unix epoch, UTC.
#[derive(Debug)]
pub struct Score<P> {
    pub id: i64,
    pub best_id: i64,
    pub user_id: i64,
    pub accuracy: P,
    pub mods: OsuMods,
    pub score: i64,
    pub pp: P,
    pub created_at: i64,
    pub replay: bool,
    pub beatmapset: BeatmapSetCompact,
    pub beatmap: BeatmapCompact,
}

/// A time window, in seconds since the Unix epoch, UTC; both ends excluded.
#[derive(Clone, Copy, Debug, PartialEq, Eq, Structural)]
pub struct Period {
    pub from: i64,
    pub to: i64,
}

/// One exported row: a score joined with its player's leaderboard entry.
#[derive(Debug)]
pub struct Output<P> {
    pub username: String,
    pub pp: P,
    pub created_at: i64,
    pub replay: bool,
    pub score_id: i64,
    pub map: String,
    pub diff: String,
    pub mods: String,
    pub country_rank: i32,
    pub global_rank: i32,
    pub total_pp: P,
}

pub open spec fn in_window(period: Period, t: i64) -> bool {
    period.from < t && t < period.to
}

/// Positions of the scores inside the window, in order.
pub open spec fn window_indices<P>(scores: Seq<Score<P>>, period: Period) -> Seq<int>
    decreases scores.len(),
{
    if scores.len() == 0 {
        seq![]
    } else {
        let prev = window_indices(scores.drop_last(), period);
        if in_window(period, scores.last().created_at) {
            prev.push(scores.len() - 1)
        } else {
            prev
        }
    }
}

/// `row` is the export of score `s` by the player at position `index` of the leaderboard.
pub open spec fn row_of<P>(row: Output<P>, user: UserStatistics<P>, index: int, s: Score<P>) -> bool {
    &&& row.username@ == user.user.username@
    &&& row.pp == s.pp
    &&& row.created_at == s.created_at
    &&& row.replay == s.replay
    &&& row.score_id == s.id
    &&& row.map@ == s.beatmapset.artist@ + " - "@ + s.beatmapset.title@
    &&& row.diff@ == s.beatmap.version@
    &&& row.mods@ == encode_spec(s.mods.bits)
    &&& row.country_rank == index + 1
    &&& row.global_rank == user.global_rank
    &&& row.total_pp == user.pp
}

/// `rows` are the exports, in order, of the scores at positions `idx`.
pub open spec fn rows_match<P>(
    rows: Seq<Output<P>>,
    user: UserStatistics<P>,
    index: int,
    scores: Seq<Score<P>>,
    idx: Seq<int>,
) -> bool {
    &&& rows.len() == idx.len()
    &&& forall|k: int| 0 <= k < rows.len() ==> row_of(#[trigger] rows[k], user, index, scores[idx[k]])
}

/// Whether a score made at `created_at` lies strictly inside the window.
pub fn in_period(period: &Period, created_at: i64) -> (r: bool)
    ensures
        r == in_window(*period, created_at),
{
    period.from < created_at && created_at < period.to
}

/// The export of one score of the player at position `index`; the rank is 1-based.
pub fn make_row<P: Copy>(user: &UserStatistics<P>, index: usize, score: &Score<P>) -> (r: Output<P>)
    requires
        index < i32::MAX,
    ensures
        row_of(r, *user, index as int, *score),
{
    let map = String::from_str(score.beatmapset.artist.as_str()).concat(" - ").concat(
        score.beatmapset.title.as_str(),
    );
    Output {
        username: user.user.username.clone(),
        pp: score.pp,
        created_at: score.created_at,
        replay: score.replay,
        score_id: score.id,
        map,
        diff: score.beatmap.version.clone(),
        mods: score.mods.encode(),
        country_rank: (index + 1) as i32,
        global_rank: user.global_rank,
        total_pp: user.pp,
    }
}

/// The rows of one player: one per score inside the window, in the order the
/// scores came.
pub fn process_score<P: Copy>(
    user: &UserStatistics<P>,
    index: usize,
    scores: &Vec<Score<P>>,
    period: &Period,
) -> (r: Vec<Output<P>>)
    requires
        index < i32::MAX,
    ensures
        rows_match(r@, *user, index as int, scores@, window_indices(scores@, *period)),
{
    let mut out: Vec<Output<P>> = Vec::new();
    let mut i: usize = 0;
    while i < scores.len()
        invariant
            i <= scores@.len(),
            index < i32::MAX,
            rows_match(out@, *user, index as int, scores@, window_indices(scores@.take(i as int), *period)),
        decreases scores@.len() - i,
    {
        let ghost before = out@;
        proof {
            assert(scores@.take(i + 1).drop_last() =~= scores@.take(i as int));
            assert(scores@.take(i + 1).last() == scores@[i as int]);
        }
        if in_period(period, scores[i].created_at) {
            let row = make_row(user, index, &scores[i]);
            out.push(row);
            proof {
                let idx = window_indices(scores@.take(i + 1), *period);
                assert forall|k: int| 0 <= k < out@.len() implies row_of(
                    #[trigger] out@[k],
                    *user,
                    index as int,
                    scores@[idx[k]],
                ) by {
                    if k < before.len() {
                        assert(out@[k] == before[k]);
                    }
                }
            }
        }
        i += 1;
    }
    proof {
        assert(scores@.take(scores@.len() as int) =~= scores@);
    }
    out
}

/// The scores of a fetch that succeeded; none for one that failed.
pub open spec fn scores_of<P>(r: Result<Vec<Score<P>>, OsuApiError>) -> Seq<Score<P>> {
    match r {
        Ok(v) => v@,
        Err(_) => seq![],
    }
}

/// The (player position, score position) of every row that the fetches of
/// the first `n` players give, player by player.
pub open spec fn all_pairs<P>(
    results: Seq<Result<Vec<Score<P>>, OsuApiError>>,
    period: Period,
    n: nat,
) -> Seq<(int, int)>
    decreases n,
{
    if n == 0 {
        seq![]
    } else {
        let i = n - 1;
        all_pairs(results, period, i as nat) + match results[i] {
            Ok(v) => window_indices(v@, period).map_values(|j: int| (i, j)),
            Err(_) => seq![],
        }
    }
}

/// Number of players to fetch: the first `amount` of the leaderboard.
pub fn dispatch_count(users: usize, amount: usize) -> (r: usize)
    ensures
        r == if amount < users { amount } else { users },
{
    if amount < users {
        amount
    } else {
        users
    }
}

/// Gathers the rows of every player whose fetch succeeded; a failed fetch
/// contributes nothing and does not affect the others. `results[i]` is the
/// fetch of the player at position `i`.
pub fn collect_rows<P: Copy>(
    users: &Vec<UserStatistics<P>>,
    results: &Vec<Result<Vec<Score<P>>, OsuApiError>>,
    period: &Period,
) -> (r: Vec<Output<P>>)
    requires
        results@.len() <= users@.len(),
        users@.len() <= i32::MAX,
    ensures
        ({
            let pairs = all_pairs(results@, *period, results@.len() as nat);
            &&& r@.len() == pairs.len()
            &&& forall|k: int|
                0 <= k < r@.len() ==> row_of(
                    #[trigger] r@[k],
                    users@[pairs[k].0],
                    pairs[k].0,
                    scores_of(results@[pairs[k].0])[pairs[k].1],
                )
        }),
{
    let mut out: Vec<Output<P>> = Vec::new();
    let mut i: usize = 0;
    while i < results.len()
        invariant
            i <= results@.len(),
            results@.len() <= users@.len(),
            users@.len() <= i32::MAX,
            ({
                let pairs = all_pairs(results@, *period, i as nat);
                &&& out@.len() == pairs.len()
                &&& forall|k: int|
                    0 <= k < out@.len() ==> row_of(
                        #[trigger] out@[k],
                        users@[pairs[k].0],
                        pairs[k].0,
                        scores_of(results@[pairs[k].0])[pairs[k].1],
                    )
            }),
        decreases results@.len() - i,
    {
        let ghost before = out@;
        let ghost prev = all_pairs(results@, *period, i as nat);
        match &results[i] {
            Ok(scores) => {
                let mut rows = process_score(&users[i], i, scores, period);
                let ghost new_rows = rows@;
                out.append(&mut rows);
                proof {
                    let idx = window_indices(scores@, *period);
                    let added = idx.map_values(|j: int| (i as int, j));
                    let pairs = all_pairs(results@, *period, (i + 1) as nat);
                    assert(pairs == prev + added);
                    assert forall|k: int| 0 <= k < out@.len() implies row_of(
                        #[trigger] out@[k],
                        users@[pairs[k].0],
                        pairs[k].0,
                        scores_of(results@[pairs[k].0])[pairs[k].1],
                    ) by {
                        if k < before.len() {
                            assert(out@[k] == before[k]);
                            assert(pairs[k] == prev[k]);
                        } else {
                            let m = k - before.len();
                            assert(out@[k] == new_rows[m]);
                            assert(pairs[k] == added[m]);
                            assert(row_of(new_rows[m], users@[i as int], i as int, scores@[idx[m]]));
                        }
                    }
                }
            },
            Err(_) => {
                proof {
                    let pairs = all_pairs(results@, *period, (i + 1) as nat);
                    assert(pairs =~= prev);
                }
            },
        }
        i += 1;
    }
    out
}

/// Positions chosen by the window are in range, increasing, and are exactly
/// the scores strictly inside the window: one made at either end is left out.
pub proof fn lemma_window_indices<P>(scores: Seq<Score<P>>, period: Period)
    ensures
        ({
            let idx = window_indices(scores, period);
            &&& forall|m: int|
                0 <= m < idx.len() ==> 0 <= #[trigger] idx[m] < scores.len() && in_window(
                    period,
                    scores[idx[m]].created_at,
                )
            &&& forall|a: int, b: int| 0 <= a < b < idx.len() ==> idx[a] < idx[b]
            &&& forall|j: int|
                0 <= j < scores.len() ==> (idx.contains(j) <==> in_window(
                    period,
                    #[trigger] scores[j].created_at,
                ))
        }),
    decreases scores.len(),
{
    if scores.len() > 0 {
        let init = scores.drop_last();
        lemma_window_indices(init, period);
        let prev = window_indices(init, period);
        let idx = window_indices(scores, period);
        let last = scores.len() - 1;
        assert forall|j: int| 0 <= j < scores.len() implies (idx.contains(j) <==> in_window(
            period,
            #[trigger] scores[j].created_at,
        )) by {
            if j < last {
                assert(scores[j] == init[j]);
                if idx.contains(j) {
                    let m = choose|m: int| 0 <= m < idx.len() && idx[m] == j;
                    if m < prev.len() {
                        assert(prev[m] == j);
                    }
                }
                if prev.contains(j) {
                    let m = choose|m: int| 0 <= m < prev.len() && prev[m] == j;
                    assert(idx[m] == j);
                }
            } else {
                if in_window(period, scores[j].created_at) {
                    assert(idx[prev.len() as int] == j);
                } else if idx.contains(j) {
                    let m = choose|m: int| 0 <= m < idx.len() && idx[m] == j;
                    assert(prev[m] < init.len());
                }
            }
        }
        assert forall|m: int| 0 <= m < idx.len() implies 0 <= #[trigger] idx[m] < scores.len()
            && in_window(period, scores[idx[m]].created_at) by {
            if m < prev.len() {
                assert(idx[m] == prev[m]);
                assert(scores[prev[m]] == init[prev[m]]);
            }
        }
    }
}

/// A failed fetch isolates its player: every row comes from a player whose
/// fetch succeeded and from one of that player's scores inside the window,
/// and every score inside the window of every succeeding player gives a row.
pub proof fn lemma_failures_isolated<P>(
    results: Seq<Result<Vec<Score<P>>, OsuApiError>>,
    period: Period,
    n: nat,
)
    requires
        n <= results.len(),
    ensures
        ({
            let pairs = all_pairs(results, period, n);
            &&& forall|k: int|
                0 <= k < pairs.len() ==> {
                    let (i, j) = #[trigger] pairs[k];
                    &&& 0 <= i < n
                    &&& results[i] is Ok
                    &&& 0 <= j < scores_of(results[i]).len()
                    &&& in_window(period, scores_of(results[i])[j].created_at)
                }
            &&& forall|i: int, j: int|
                0 <= i < n && results[i] is Ok && 0 <= j < scores_of(results[i]).len()
                    && in_window(period, scores_of(results[i])[j].created_at) ==> pairs.contains(
                    (i, j),
                )
        }),
    decreases n,
{
    if n > 0 {
        let i0 = n - 1;
        lemma_failures_isolated(results, period, i0 as nat);
        let prev = all_pairs(results, period, i0 as nat);
        let pairs = all_pairs(results, period, n);
        match results[i0] {
            Ok(v) => {
                lemma_window_indices(v@, period);
                let idx = window_indices(v@, period);
                let added = idx.map_values(|j: int| (i0 as int, j));
                assert(pairs == prev + added);
                assert forall|k: int| 0 <= k < pairs.len() implies {
                    let (i, j) = #[trigger] pairs[k];
                    &&& 0 <= i < n
                    &&& results[i] is Ok
                    &&& 0 <= j < scores_of(results[i]).len()
                    &&& in_window(period, scores_of(results[i])[j].created_at)
                } by {
                    if k < prev.len() {
                        assert(pairs[k] == prev[k]);
                    } else {
                        assert(pairs[k] == added[k - prev.len()]);
                    }
                }
                assert forall|i: int, j: int|
                    0 <= i < n && results[i] is Ok && 0 <= j < scores_of(results[i]).len()
                        && in_window(period, scores_of(results[i])[j].created_at) implies pairs.contains(
                    (i, j),
                ) by {
                    if i < i0 {
                        assert(prev.contains((i, j)));
                        let k = choose|k: int| 0 <= k < prev.len() && prev[k] == (i, j);
                        assert(pairs[k] == (i, j));
                    } else {
                        assert(v@[j].created_at == scores_of(results[i])[j].created_at);
                        assert(idx.contains(j));
                        let m = choose|m: int| 0 <= m < idx.len() && idx[m] == j;
                        assert(pairs[prev.len() + m] == (i, j));
                    }
                }
            },
            Err(_) => {
                assert(pairs =~= prev);
            },
        }
    }
}

} // verus!
