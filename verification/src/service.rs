//! Read-only derived views over the application state: filters, search,
//! leaderboard ranking and aggregate statistics. Nothing here mutates the
//! store; every view is recomputed from the current snapshot on each call.
use crate::ranking::{lemma_multiset_elems, lemma_multiset_no_dup, sort_desc, RankOrd};
use crate::state::{
    all_games_ok, game_ids_distinct, games_from, games_have_id, player_games_ok, recent_games_ok,
    stats_or_zero, status_games_ok, ApplicationState,
};
use crate::store::{key_at, keys_distinct, seq_has_key};
use crate::{
    stats_wf, Game, GameId, GameStatus, GameView, PlayerId, PlayerStats, Query, QueryResponse,
};
use vstd::prelude::*;
use vstd::string::StrSliceExecFns;

verus! {

/// One leaderboard row: a player, a snapshot of their statistics, and the
/// dense rank assigned by post-sort position. The win rate it is ranked by is
/// the exact fraction `wins / games_played` (zero when no game was played),
/// compared without rounding.
#[derive(Clone, Debug)]
pub struct LeaderboardEntry {
    pub player_id: PlayerId,
    pub stats: PlayerStats,
    pub rank: usize,
}

/// Mathematical model of a `LeaderboardEntry`.
#[verifier::ext_equal]
pub ghost struct LeaderboardEntryView {
    pub player_id: Seq<char>,
    pub stats: PlayerStats,
    pub rank: usize,
}

impl View for LeaderboardEntry {
    type V = LeaderboardEntryView;

    open spec fn view(&self) -> LeaderboardEntryView {
        LeaderboardEntryView { player_id: self.player_id@, stats: self.stats, rank: self.rank }
    }
}

/// The win rate of `a` is at least that of `b`: the fractions
/// `wins / games_played` compared by cross-multiplication, a rate of zero
/// standing in where no game was played.
pub open spec fn rate_ge(a: PlayerStats, b: PlayerStats) -> bool {
    a.wins * b.games_played >= b.wins * a.games_played
}

/// Leaderboard order: strictly higher win rate first, ties broken by games
/// played, descending.
pub open spec fn lb_ge(a: PlayerStats, b: PlayerStats) -> bool {
    if rate_ge(a, b) && !rate_ge(b, a) {
        true
    } else if rate_ge(a, b) && rate_ge(b, a) {
        a.games_played >= b.games_played
    } else {
        false
    }
}

impl RankOrd for LeaderboardEntry {
    /// The order is stated for consistent statistics (wins never exceed
    /// games played).
    open spec fn valid(self) -> bool {
        stats_wf(self.stats)
    }

    open spec fn key_ge(a: LeaderboardEntry, b: LeaderboardEntry) -> bool {
        lb_ge(a@.stats, b@.stats)
    }

    proof fn lemma_total(a: LeaderboardEntry, b: LeaderboardEntry) {
    }

    proof fn lemma_trans(a: LeaderboardEntry, b: LeaderboardEntry, c: LeaderboardEntry) {
        lemma_lb_ge_trans(a.stats, b.stats, c.stats);
    }

    fn ge(a: &LeaderboardEntry, b: &LeaderboardEntry) -> (r: bool) {
        stats_rate_ge_dec(&a.stats, &b.stats)
    }
}

/// Decide the leaderboard order executably, by cross-multiplication in u64.
fn stats_rate_ge_dec(a: &PlayerStats, b: &PlayerStats) -> (r: bool)
    ensures
        r == lb_ge(*a, *b),
{
    proof {
        assert((a.wins as int) * (b.games_played as int) <= 0xffff_ffff * 0xffff_ffff)
            by (nonlinear_arith)
            requires
                a.wins <= 0xffff_ffffu32,
                b.games_played <= 0xffff_ffffu32,
        ;
        assert((b.wins as int) * (a.games_played as int) <= 0xffff_ffff * 0xffff_ffff)
            by (nonlinear_arith)
            requires
                b.wins <= 0xffff_ffffu32,
                a.games_played <= 0xffff_ffffu32,
        ;
    }
    let axb: u64 = (a.wins as u64) * (b.games_played as u64);
    let bxa: u64 = (b.wins as u64) * (a.games_played as u64);
    if axb > bxa {
        true
    } else if axb == bxa {
        a.games_played >= b.games_played
    } else {
        false
    }
}

/// The leaderboard order is transitive over consistent statistics.
#[verifier::rlimit(50)]
proof fn lemma_lb_ge_trans(a: PlayerStats, b: PlayerStats, c: PlayerStats)
    requires
        stats_wf(a),
        stats_wf(b),
        stats_wf(c),
        lb_ge(a, b),
        lb_ge(b, c),
    ensures
        lb_ge(a, c),
{
    let aw = a.wins as int;
    let ag = a.games_played as int;
    let bw = b.wins as int;
    let bg = b.games_played as int;
    let cw = c.wins as int;
    let cg = c.games_played as int;
    if aw * bg > bw * ag {
        assert(aw > 0 && bg > 0) by (nonlinear_arith)
            requires
                aw * bg > bw * ag,
                0 <= aw,
                0 <= bg,
                0 <= bw,
                0 <= ag,
        ;
        if bw * cg > cw * bg {
            assert(bw > 0 && cg > 0) by (nonlinear_arith)
                requires
                    bw * cg > cw * bg,
                    0 <= bw,
                    0 <= cg,
                    0 <= cw,
                    0 <= bg,
            ;
            assert(aw * cg > cw * ag) by (nonlinear_arith)
                requires
                    aw * bg > bw * ag,
                    bw * cg > cw * bg,
                    bg > 0,
                    cg > 0,
                    0 <= ag,
                    0 <= cw,
            ;
            assert(rate_ge(a, c) && !rate_ge(c, a));
            assert(lb_ge(a, c));
        } else {
            // Equal rates between b and c.
            assert(bw * cg == cw * bg);
            if cg == 0 {
                assert(cw == 0);
                assert(aw * cg == 0 && cw * ag == 0) by (nonlinear_arith)
                    requires
                        cg == 0,
                        cw == 0,
                ;
                assert(rate_ge(a, c) && rate_ge(c, a));
                assert(a.games_played >= c.games_played);
                assert(lb_ge(a, c));
            } else {
                assert(aw * cg > cw * ag) by (nonlinear_arith)
                    requires
                        aw * bg > bw * ag,
                        bw * cg == cw * bg,
                        bg > 0,
                        cg > 0,
                        0 <= ag,
                        0 <= cw,
                ;
                assert(rate_ge(a, c) && !rate_ge(c, a));
                assert(lb_ge(a, c));
            }
        }
    } else {
        // Equal rates between a and b, games played descending.
        assert(aw * bg == bw * ag && ag >= bg);
        if bw * cg > cw * bg {
            assert(bw > 0 && cg > 0) by (nonlinear_arith)
                requires
                    bw * cg > cw * bg,
                    0 <= bw,
                    0 <= cg,
                    0 <= cw,
                    0 <= bg,
            ;
            assert(bg > 0);
            assert(aw * cg > cw * ag) by (nonlinear_arith)
                requires
                    aw * bg == bw * ag,
                    bw * cg > cw * bg,
                    bg > 0,
                    bw > 0,
                    ag >= bg,
                    0 <= aw,
                    0 <= cw,
                    0 <= cg,
            ;
            assert(rate_ge(a, c) && !rate_ge(c, a));
            assert(lb_ge(a, c));
        } else {
            assert(bw * cg == cw * bg && bg >= cg);
            if bg == 0 {
                assert(bw == 0);
                assert(cg == 0);
                assert(cw == 0);
                assert(aw * cg == 0 && cw * ag == 0) by (nonlinear_arith)
                    requires
                        cg == 0,
                        cw == 0,
                ;
                assert(rate_ge(a, c) && rate_ge(c, a));
                assert(lb_ge(a, c));
            } else {
                assert(aw * cg == cw * ag) by (nonlinear_arith)
                    requires
                        aw * bg == bw * ag,
                        bw * cg == cw * bg,
                        bg > 0,
                ;
                assert(rate_ge(a, c) && rate_ge(c, a));
                assert(a.games_played >= c.games_played);
                assert(lb_ge(a, c));
            }
        }
    }
}

/// Some row of `s` belongs to player `id`.
pub open spec fn lb_has_player(s: Seq<LeaderboardEntry>, id: Seq<char>) -> bool {
    exists|t: int| 0 <= t < s.len() && s[t]@.player_id == id
}

/// Every row of `s` snapshots a stored statistics row, and no player appears
/// twice.
pub open spec fn lb_rows_ok(sm: Map<Seq<char>, PlayerStats>, s: Seq<LeaderboardEntry>) -> bool {
    &&& forall|i: int|
        0 <= i < s.len() ==> sm.contains_key((#[trigger] s[i])@.player_id) && sm[s[i]@.player_id]
            == s[i]@.stats
    &&& forall|i: int, j: int|
        0 <= i < j < s.len() ==> (#[trigger] s[i])@.player_id != (#[trigger] s[j])@.player_id
}

/// `s` is a leaderboard over `sm`: stored rows, win rate descending with ties
/// by games played, dense ranks from 1, at most `limit` rows, and when rows
/// are left out, only rows ranking no higher than the last kept one.
pub open spec fn leaderboard_ok(
    sm: Map<Seq<char>, PlayerStats>,
    limit: usize,
    s: Seq<LeaderboardEntry>,
) -> bool {
    &&& lb_rows_ok(sm, s)
    &&& forall|i: int, j: int|
        0 <= i <= j < s.len() ==> lb_ge((#[trigger] s[i])@.stats, (#[trigger] s[j])@.stats)
    &&& forall|i: int| 0 <= i < s.len() ==> (#[trigger] s[i])@.rank == i + 1
    &&& s.len() <= limit
    &&& (s.len() == limit || forall|k: Seq<char>| #[trigger]
        sm.contains_key(k) ==> lb_has_player(s, k))
    &&& s.len() == limit && s.len() > 0 ==> forall|k: Seq<char>| #[trigger]
        sm.contains_key(k) && !lb_has_player(s, k) ==> lb_ge(s[s.len() - 1]@.stats, sm[k])
}

/// `s` is the top-winners board over `sm`: rows of players with at least one
/// win, raw win count descending, dense ranks from 1, at most `limit` rows,
/// and when such rows are left out, only ones with no more wins than the last
/// kept one.
pub open spec fn top_winners_ok(
    sm: Map<Seq<char>, PlayerStats>,
    limit: usize,
    s: Seq<LeaderboardEntry>,
) -> bool {
    &&& lb_rows_ok(sm, s)
    &&& forall|i: int| 0 <= i < s.len() ==> (#[trigger] s[i])@.stats.wins > 0
    &&& forall|i: int, j: int|
        0 <= i <= j < s.len() ==> (#[trigger] s[i])@.stats.wins >= (#[trigger] s[j])@.stats.wins
    &&& forall|i: int| 0 <= i < s.len() ==> (#[trigger] s[i])@.rank == i + 1
    &&& s.len() <= limit
    &&& (s.len() == limit || forall|k: Seq<char>| #[trigger]
        sm.contains_key(k) && sm[k].wins > 0 ==> lb_has_player(s, k))
    &&& s.len() == limit && s.len() > 0 ==> forall|k: Seq<char>| #[trigger]
        sm.contains_key(k) && !lb_has_player(s, k) ==> s[s.len() - 1]@.stats.wins >= sm[k].wins
}

/// One row per stored statistics entry, rank not yet assigned.
fn collect_stats_entries(st: &ApplicationState) -> (r: Vec<LeaderboardEntry>)
    requires
        st.inv(),
    ensures
        lb_rows_ok(st.player_stats.visible(), r@),
        forall|k: Seq<char>| #[trigger]
            st.player_stats.visible().contains_key(k) ==> lb_has_player(r@, k),
        forall|i: int| 0 <= i < r@.len() ==> stats_wf((#[trigger] r@[i]).stats),
{
    let ids = st.player_stats.indices();
    let mut result: Vec<LeaderboardEntry> = Vec::new();
    let mut i: usize = 0;
    while i < ids.len()
        invariant
            st.inv(),
            i <= ids@.len(),
            keys_distinct(ids@),
            forall|t: int|
                0 <= t < ids@.len() ==> st.player_stats.visible().contains_key(
                    #[trigger] key_at(ids@, t),
                ),
            forall|k: Seq<char>| #[trigger]
                st.player_stats.visible().contains_key(k) ==> seq_has_key(ids@, k),
            result@.len() == i,
            forall|t: int|
                0 <= t < i ==> (#[trigger] result@[t])@.player_id == key_at(ids@, t)
                    && result@[t]@.stats == st.player_stats.visible()[key_at(ids@, t)]
                    && result@[t]@.rank == 0,
        decreases ids@.len() - i,
    {
        let key = ids[i].clone();
        proof {
            assert(key_at(ids@, i as int) == key@);
        }
        match st.player_stats.get(&key) {
            Some(stats) => {
                result.push(LeaderboardEntry { player_id: key, stats: *stats, rank: 0 });
            },
            None => {
                proof {
                    assert(false);
                }
            },
        }
        i += 1;
    }
    proof {
        assert forall|k: Seq<char>| #[trigger]
            st.player_stats.visible().contains_key(k) implies lb_has_player(result@, k) by {
            let t = choose|t: int| 0 <= t < ids@.len() && ids@[t]@ == k;
            assert(key_at(ids@, t) == k);
            assert(result@[t]@.player_id == k);
        }
    }
    result
}

/// Assign dense ranks 1, 2, ... by position.
fn assign_ranks(rows: Vec<LeaderboardEntry>) -> (r: Vec<LeaderboardEntry>)
    ensures
        r@.len() == rows@.len(),
        forall|t: int|
            0 <= t < r@.len() ==> (#[trigger] r@[t])@.player_id == rows@[t]@.player_id && r@[t]@.stats
                == rows@[t]@.stats && r@[t]@.rank == t + 1,
{
    let mut r: Vec<LeaderboardEntry> = Vec::new();
    let mut i: usize = 0;
    while i < rows.len()
        invariant
            i <= rows@.len(),
            r@.len() == i,
            forall|t: int|
                0 <= t < i ==> (#[trigger] r@[t])@.player_id == rows@[t]@.player_id && r@[t]@.stats
                    == rows@[t]@.stats && r@[t]@.rank == t + 1,
        decreases rows@.len() - i,
    {
        r.push(
            LeaderboardEntry {
                player_id: rows[i].player_id.clone(),
                stats: rows[i].stats,
                rank: i + 1,
            },
        );
        i += 1;
    }
    r
}

/// Rows kept from a source sequence keep distinct player ids and stored
/// snapshots.
proof fn lemma_rows_carry(
    sm: Map<Seq<char>, PlayerStats>,
    src: Seq<LeaderboardEntry>,
    dst: Seq<LeaderboardEntry>,
)
    requires
        lb_rows_ok(sm, src),
        dst.no_duplicates(),
        forall|t: int| 0 <= t < dst.len() ==> src.contains(#[trigger] dst[t]),
    ensures
        forall|i: int|
            0 <= i < dst.len() ==> sm.contains_key((#[trigger] dst[i])@.player_id)
                && sm[dst[i]@.player_id] == dst[i]@.stats,
        forall|i: int, j: int|
            0 <= i < j < dst.len() ==> (#[trigger] dst[i])@.player_id
                != (#[trigger] dst[j])@.player_id,
{
    assert forall|i: int|
        0 <= i < dst.len() implies sm.contains_key((#[trigger] dst[i])@.player_id) && sm[dst[i]@.player_id]
        == dst[i]@.stats by {
        let u = choose|u: int| 0 <= u < src.len() && src[u] == dst[i];
        assert(sm.contains_key(src[u]@.player_id));
    }
    assert forall|i: int, j: int| 0 <= i < j < dst.len() implies (#[trigger] dst[i])@.player_id
        != (#[trigger] dst[j])@.player_id by {
        let u1 = choose|u: int| 0 <= u < src.len() && src[u] == dst[i];
        let u2 = choose|u: int| 0 <= u < src.len() && src[u] == dst[j];
        assert(dst[i] != dst[j]);
        assert(u1 != u2);
        assert(src[u1]@.player_id != src[u2]@.player_id);
    }
}

/// A leaderboard row ranked by raw win count, for the top-winners view.
pub struct WinsRanked {
    pub entry: LeaderboardEntry,
}

impl RankOrd for WinsRanked {
    open spec fn valid(self) -> bool {
        true
    }

    open spec fn key_ge(a: WinsRanked, b: WinsRanked) -> bool {
        a.entry@.stats.wins >= b.entry@.stats.wins
    }

    proof fn lemma_total(a: WinsRanked, b: WinsRanked) {
    }

    proof fn lemma_trans(a: WinsRanked, b: WinsRanked, c: WinsRanked) {
    }

    fn ge(a: &WinsRanked, b: &WinsRanked) -> (r: bool) {
        a.entry.stats.wins >= b.entry.stats.wins
    }
}

/// The query service: read-only derived views over one application state.
pub struct TicTacToeService {
    pub state: ApplicationState,
}

impl TicTacToeService {
    /// A service over `state`.
    pub fn new(state: ApplicationState) -> (r: Self)
        ensures
            r.state == state,
    {
        TicTacToeService { state }
    }

    /// Rank every known player by win rate, ties by games played, dense ranks
    /// from 1, truncated to `limit`.
    pub fn generate_leaderboard(&self, limit: usize) -> (r: Vec<LeaderboardEntry>)
        requires
            self.state.inv(),
        ensures
            leaderboard_ok(self.state.player_stats.visible(), limit, r@),
    {
        let ghost sm = self.state.player_stats.visible();
        let entries = collect_stats_entries(&self.state);
        let ghost e0 = entries@;
        let mut sorted = sort_desc(entries);
        proof {
            lemma_multiset_elems(e0, sorted@);
            lemma_multiset_elems(sorted@, e0);
            assert(e0.no_duplicates()) by {
                assert forall|i: int, j: int|
                    0 <= i < e0.len() && 0 <= j < e0.len() && i != j implies e0[i] != e0[j] by {
                    assert(e0[i]@.player_id != e0[j]@.player_id);
                }
            }
            lemma_multiset_no_dup(e0, sorted@);
            lemma_rows_carry(sm, e0, sorted@);
            assert forall|k: Seq<char>| #[trigger] sm.contains_key(k) implies lb_has_player(
                sorted@,
                k,
            ) by {
                let t = choose|t: int| 0 <= t < e0.len() && e0[t]@.player_id == k;
                let u = choose|u: int| 0 <= u < sorted@.len() && sorted@[u] == e0[t];
                assert(sorted@[u]@.player_id == k);
            }
        }
        let ghost sorted0 = sorted@;
        let mut ranked = assign_ranks(sorted);
        ranked.truncate(limit);
        proof {
            assert forall|k: Seq<char>| #[trigger]
                sm.contains_key(k) && !lb_has_player(ranked@, k) && ranked@.len() == limit
                    && ranked@.len() > 0 implies lb_ge(ranked@[ranked@.len() - 1]@.stats, sm[k]) by {
                let t = choose|t: int| 0 <= t < sorted0.len() && sorted0[t]@.player_id == k;
                assert(t >= ranked@.len()) by {
                    if t < ranked@.len() {
                        assert(ranked@[t]@.player_id == k);
                    }
                }
                assert(LeaderboardEntry::key_ge(sorted0[ranked@.len() - 1], sorted0[t]));
                assert(sm[k] == sorted0[t]@.stats);
            }
            if ranked@.len() < limit {
                assert forall|k: Seq<char>| #[trigger] sm.contains_key(k) implies lb_has_player(
                    ranked@,
                    k,
                ) by {
                    let t = choose|t: int| 0 <= t < sorted0.len() && sorted0[t]@.player_id == k;
                    assert(ranked@[t]@.player_id == k);
                }
            }
        }
        ranked
    }

    /// Rank the players with at least one win by raw win count, dense ranks
    /// from 1, truncated to `limit`.
    #[verifier::rlimit(100)]
    pub fn get_top_winners(&self, limit: usize) -> (r: Vec<LeaderboardEntry>)
        requires
            self.state.inv(),
        ensures
            top_winners_ok(self.state.player_stats.visible(), limit, r@),
    {
        let ghost sm = self.state.player_stats.visible();
        let entries = collect_stats_entries(&self.state);
        let mut winners: Vec<WinsRanked> = Vec::new();
        let mut i: usize = 0;
        while i < entries.len()
            invariant
                i <= entries@.len(),
                lb_rows_ok(sm, entries@),
                forall|k: Seq<char>| #[trigger] sm.contains_key(k) ==> lb_has_player(entries@, k),
                forall|t: int|
                    0 <= t < winners@.len() ==> exists|u: int|
                        0 <= u < i && entries@[u] == (#[trigger] winners@[t]).entry,
                forall|t: int| 0 <= t < winners@.len() ==> (#[trigger] winners@[t]).entry@.stats.wins > 0,
                forall|u: int|
                    0 <= u < i && (#[trigger] entries@[u])@.stats.wins > 0 ==> exists|t: int|
                        0 <= t < winners@.len() && winners@[t].entry == entries@[u],
                winners@.no_duplicates(),
            decreases entries@.len() - i,
        {
            if entries[i].stats.wins > 0 {
                let ghost w0 = winners@;
                let e = LeaderboardEntry {
                    player_id: entries[i].player_id.clone(),
                    stats: entries[i].stats,
                    rank: entries[i].rank,
                };
                proof {
                    assert(e@ == entries@[i as int]@);
                }
                winners.push(WinsRanked { entry: e });
                proof {
                    assert(winners@[winners@.len() - 1].entry@ == entries@[i as int]@);
                    assert forall|t: int| 0 <= t < winners@.len() implies exists|u: int|
                        0 <= u < i + 1 && entries@[u] == ((#[trigger] winners@[t]).entry) by {
                        if t < w0.len() {
                            let u = choose|u: int| 0 <= u < i && entries@[u] == w0[t].entry;
                            assert(entries@[u] == winners@[t].entry);
                        } else {
                            assert(entries@[i as int] == winners@[t].entry);
                        }
                    }
                    assert forall|u: int|
                        0 <= u < i + 1 && (#[trigger] entries@[u])@.stats.wins > 0 implies exists|t: int|
                        0 <= t < winners@.len() && winners@[t].entry == entries@[u] by {
                        if u < i {
                            let t = choose|t: int| 0 <= t < w0.len() && w0[t].entry == entries@[u];
                            assert(winners@[t].entry == entries@[u]);
                        } else {
                            assert(winners@[winners@.len() - 1].entry == entries@[u]);
                        }
                    }
                    assert forall|t: int| 0 <= t < w0.len() implies #[trigger] w0[t]
                        != winners@[winners@.len() - 1] by {
                        let u = choose|u: int| 0 <= u < i && entries@[u] == w0[t].entry;
                        assert(entries@[u]@.player_id != entries@[i as int]@.player_id);
                        assert(w0[t].entry@.player_id != winners@[winners@.len() - 1].entry@.player_id);
                    }
                }
            }
            i += 1;
        }
        proof {
            assert(forall|t: int|
                0 <= t < winners@.len() ==> (#[trigger] winners@[t]).valid());
        }
        let ghost w1 = winners@;
        let sorted = sort_desc(winners);
        proof {
            lemma_multiset_elems(w1, sorted@);
            lemma_multiset_elems(sorted@, w1);
            lemma_multiset_no_dup(w1, sorted@);
        }
        let mut rows: Vec<LeaderboardEntry> = Vec::new();
        let mut j: usize = 0;
        while j < sorted.len()
            invariant
                j <= sorted@.len(),
                rows@.len() == j,
                forall|t: int| 0 <= t < j ==> (#[trigger] rows@[t]) == sorted@[t].entry,
            decreases sorted@.len() - j,
        {
            let e = LeaderboardEntry {
                player_id: sorted[j].entry.player_id.clone(),
                stats: sorted[j].entry.stats,
                rank: sorted[j].entry.rank,
            };
            proof {
                assert(e@ == sorted@[j as int].entry@);
            }
            rows.push(e);
            j += 1;
        }
        let ghost rows0 = rows@;
        proof {
            // Rows drawn from the collected entries: stored snapshots,
            // distinct players, win counts positive and descending.
            assert forall|t1: int, t2: int| 0 <= t1 < t2 < rows0.len() implies (
            #[trigger] rows0[t1])@.player_id != (#[trigger] rows0[t2])@.player_id by {
                let u1 = choose|u: int| 0 <= u < w1.len() && w1[u] == sorted@[t1];
                let u2 = choose|u: int| 0 <= u < w1.len() && w1[u] == sorted@[t2];
                assert(sorted@[t1] != sorted@[t2]);
                assert(u1 != u2);
                let v1 = choose|v: int| 0 <= v < entries@.len() && entries@[v] == w1[u1].entry;
                let v2 = choose|v: int| 0 <= v < entries@.len() && entries@[v] == w1[u2].entry;
                if rows0[t1]@.player_id == rows0[t2]@.player_id {
                    assert(entries@[v1]@.player_id == entries@[v2]@.player_id);
                    assert(v1 == v2);
                    assert(w1[u1].entry == w1[u2].entry);
                    assert(w1[u1] == w1[u2]);
                }
            }
            assert forall|t: int| 0 <= t < rows0.len() implies sm.contains_key(
                (#[trigger] rows0[t])@.player_id,
            ) && sm[rows0[t]@.player_id] == rows0[t]@.stats && rows0[t]@.stats.wins > 0 by {
                let u = choose|u: int| 0 <= u < w1.len() && w1[u] == sorted@[t];
                let v = choose|v: int| 0 <= v < entries@.len() && entries@[v] == w1[u].entry;
                assert(sm.contains_key(entries@[v]@.player_id));
            }
            assert forall|t1: int, t2: int| 0 <= t1 <= t2 < rows0.len() implies (
            #[trigger] rows0[t1])@.stats.wins >= (#[trigger] rows0[t2])@.stats.wins by {
                assert(WinsRanked::key_ge(sorted@[t1], sorted@[t2]));
            }
        }
        let mut ranked = assign_ranks(rows);
        ranked.truncate(limit);
        proof {
            assert forall|k: Seq<char>| #[trigger]
                sm.contains_key(k) && sm[k].wins > 0 && !lb_has_player(ranked@, k) && ranked@.len()
                    == limit && ranked@.len() > 0 implies ranked@[ranked@.len() - 1]@.stats.wins
                >= sm[k].wins by {
                let e = choose|e: int| 0 <= e < entries@.len() && entries@[e]@.player_id == k;
                let t = choose|t: int|
                    0 <= t < winners_len_of(w1) && w1[t].entry == entries@[e];
                let u = choose|u: int| 0 <= u < sorted@.len() && sorted@[u] == w1[t];
                assert(rows0[u]@.player_id == k);
                assert(u >= ranked@.len()) by {
                    if u < ranked@.len() {
                        assert(ranked@[u]@.player_id == k);
                    }
                }
                assert(WinsRanked::key_ge(sorted@[ranked@.len() - 1], sorted@[u]));
                assert(ranked@[ranked@.len() - 1]@.stats == rows0[ranked@.len() - 1]@.stats);
            }
            if ranked@.len() < limit {
                assert forall|k: Seq<char>| #[trigger]
                    sm.contains_key(k) && sm[k].wins > 0 implies lb_has_player(ranked@, k) by {
                    let e = choose|e: int| 0 <= e < entries@.len() && entries@[e]@.player_id == k;
                    let t = choose|t: int|
                        0 <= t < winners_len_of(w1) && w1[t].entry == entries@[e];
                    let u = choose|u: int| 0 <= u < sorted@.len() && sorted@[u] == w1[t];
                    assert(ranked@[u]@.player_id == k);
                }
            }
        }
        ranked
    }

    /// Games waiting for a second player.
    pub fn get_joinable_games(&self) -> (r: Vec<Game>)
        requires
            self.state.inv(),
        ensures
            status_games_ok(self.state.games.visible(), GameStatus::WaitingForPlayer, r@),
    {
        self.state.get_games_by_status(GameStatus::WaitingForPlayer)
    }

    /// Games currently in progress.
    pub fn get_active_games(&self) -> (r: Vec<Game>)
        requires
            self.state.inv(),
        ensures
            status_games_ok(self.state.games.visible(), GameStatus::InProgress, r@),
    {
        self.state.get_games_by_status(GameStatus::InProgress)
    }

    /// Finished games.
    pub fn get_completed_games(&self) -> (r: Vec<Game>)
        requires
            self.state.inv(),
        ensures
            status_games_ok(self.state.games.visible(), GameStatus::Finished, r@),
    {
        self.state.get_games_by_status(GameStatus::Finished)
    }

    /// The games with a participant whose display name contains
    /// `player_name`, compared case-insensitively, by full scan.
    pub fn search_games_by_player_name(&self, player_name: &str) -> (r: Vec<Game>)
        requires
            self.state.inv(),
        ensures
            search_ok(self.state.games.visible(), player_name@, r@),
    {
        let needle_string = lowercase(player_name);
        let needle = chars_of(needle_string.as_str());
        let all = self.state.get_all_games();
        let mut result: Vec<Game> = Vec::new();
        let mut i: usize = 0;
        while i < all.len()
            invariant
                self.state.inv(),
                needle@ == lower_of(player_name@),
                i <= all@.len(),
                games_from(self.state.games.visible(), all@),
                game_ids_distinct(all@),
                forall|k: GameId| #[trigger]
                    self.state.games.visible().contains_key(k) ==> games_have_id(all@, k),
                games_from(self.state.games.visible(), result@),
                game_ids_distinct(result@),
                forall|t: int|
                    0 <= t < result@.len() ==> name_matches((#[trigger] result@[t])@, player_name@),
                forall|t: int|
                    0 <= t < result@.len() ==> exists|u: int|
                        0 <= u < i && all@[u]@ == (#[trigger] result@[t])@,
                forall|u: int|
                    0 <= u < i && name_matches((#[trigger] all@[u])@, player_name@)
                        ==> games_have_id(result@, all@[u]@.id),
            decreases all@.len() - i,
        {
            if game_matches_name(&all[i], &needle, Ghost(player_name@)) {
                let ghost result0 = result@;
                result.push(all[i].clone());
                proof {
                    assert(result@[result@.len() - 1]@ == all@[i as int]@);
                    assert forall|t: int| 0 <= t < result0.len() implies (#[trigger] result0[t])@.id
                        != all@[i as int]@.id by {
                        let u = choose|u: int| 0 <= u < i && all@[u]@ == result0[t]@;
                        assert(all@[u]@.id != all@[i as int]@.id);
                    }
                    assert forall|t: int| 0 <= t < result@.len() implies exists|u: int|
                        0 <= u < i + 1 && all@[u]@ == (#[trigger] result@[t])@ by {
                        if t < result0.len() {
                            let u = choose|u: int| 0 <= u < i && all@[u]@ == result0[t]@;
                            assert(all@[u]@ == result@[t]@);
                        } else {
                            assert(all@[i as int]@ == result@[t]@);
                        }
                    }
                    crate::state::lemma_games_have_id_extend(result0, result@);
                }
            }
            proof {
                if name_matches(all@[i as int]@, player_name@) {
                    assert(result@[result@.len() - 1]@.id == all@[i as int]@.id);
                }
            }
            i += 1;
        }
        proof {
            assert forall|k: GameId| #[trigger]
                self.state.games.visible().contains_key(k) && name_matches(
                self.state.games.visible()[k],
                player_name@,
            ) implies games_have_id(result@, k) by {
                let t = choose|t: int| 0 <= t < all@.len() && all@[t]@.id == k;
                assert(all@[t]@ == self.state.games.visible()[k]);
            }
        }
        result
    }

    /// Aggregate statistics over every stored game: totals, distinct player
    /// count and the mean finished-game duration.
    #[verifier::rlimit(100)]
    pub fn generate_statistics(&self) -> (r: GameStatistics)
        requires
            self.state.inv(),
        ensures
            statistics_ok(self.state.games.visible(), r),
    {
        let all = self.state.get_all_games();
        let total_games = all.len();
        let mut active_games: usize = 0;
        let mut completed_games: usize = 0;
        let mut total_duration: u128 = 0;
        let mut unique_players: Vec<String> = Vec::new();
        proof {
            assert forall|t: int| 0 <= t < all@.len() implies (#[trigger] all@[t])@.wf() by {
                assert(self.state.games.visible().contains_key(all@[t]@.id));
            }
        }
        let mut i: usize = 0;
        while i < all.len()
            invariant
                self.state.inv(),
                i <= all@.len(),
                forall|t: int| 0 <= t < all@.len() ==> (#[trigger] all@[t])@.wf(),
                active_games == count_active(all@.take(i as int)),
                completed_games == count_finished(all@.take(i as int)),
                active_games + completed_games == i,
                total_duration == duration_sum(all@.take(i as int)),
                total_duration <= completed_games * 0xffff_ffff_ffff_ffffu64,
                forall|t1: int, t2: int|
                    0 <= t1 < t2 < unique_players@.len() ==> #[trigger] unique_players@[t1]@
                        != #[trigger] unique_players@[t2]@,
                forall|t: int|
                    0 <= t < unique_players@.len() ==> player_ids_of(all@.take(i as int)).contains(
                        (#[trigger] unique_players@[t])@,
                    ),
                forall|id: Seq<char>| #[trigger]
                    player_ids_of(all@.take(i as int)).contains(id) ==> seq_has_key(
                        unique_players@,
                        id,
                    ),
            decreases all@.len() - i,
        {
            let ghost prefix = all@.take(i as int);
            proof {
                assert(all@.take(i + 1).drop_last() =~= prefix);
                assert(all@.take(i + 1).last() == all@[i as int]);
            }
            let g = &all[i];
            if g.status == GameStatus::InProgress || g.status == GameStatus::WaitingForPlayer {
                active_games += 1;
            } else {
                completed_games += 1;
                match g.finished_at {
                    Some(f) => {
                        let d: u64 = if f >= g.created_at {
                            f - g.created_at
                        } else {
                            0
                        };
                        proof {
                            assert(total_duration + d <= (completed_games as int)
                                * 0xffff_ffff_ffff_ffffu64) by (nonlinear_arith)
                                requires
                                    total_duration <= (completed_games - 1)
                                        * 0xffff_ffff_ffff_ffffu64,
                                    d <= 0xffff_ffff_ffff_ffffu64,
                            ;
                            assert((completed_games as int) * 0xffff_ffff_ffff_ffffu64
                                <= u128::MAX as int) by (nonlinear_arith)
                                requires
                                    completed_games <= 0xffff_ffff_ffff_ffffu64,
                            ;
                        }
                        total_duration = total_duration + (d as u128);
                    },
                    None => {
                        proof {
                            assert(false);
                        }
                    },
                }
            }
            let ghost ids_now = player_ids_of(all@.take(i + 1));
            let ghost game_ids = all@[i as int]@.players.map_values(
                |p: crate::PlayerInfoView| p.id,
            );
            proof {
                assert(ids_now =~= player_ids_of(prefix) + game_ids);
            }
            let mut j: usize = 0;
            while j < all[i].players.len()
                invariant
                    0 <= i < all@.len(),
                    j <= all@[i as int].players@.len(),
                    game_ids == all@[i as int]@.players.map_values(
                        |p: crate::PlayerInfoView| p.id,
                    ),
                    forall|t1: int, t2: int|
                        0 <= t1 < t2 < unique_players@.len() ==> #[trigger] unique_players@[t1]@
                            != #[trigger] unique_players@[t2]@,
                    forall|t: int|
                        0 <= t < unique_players@.len() ==> player_ids_of(
                            all@.take(i as int),
                        ).contains((#[trigger] unique_players@[t])@) || game_ids.contains(
                            unique_players@[t]@,
                        ),
                    forall|id: Seq<char>| #[trigger]
                        player_ids_of(all@.take(i as int)).contains(id) ==> seq_has_key(
                            unique_players@,
                            id,
                        ),
                    forall|t: int|
                        0 <= t < j ==> seq_has_key(unique_players@, #[trigger] game_ids[t]),
                decreases all@[i as int].players@.len() - j,
            {
                let pid = all[i].players[j].id.clone();
                proof {
                    assert(game_ids[j as int] == pid@);
                }
                if !names_contain(&unique_players, &pid) {
                    let ghost u0 = unique_players@;
                    unique_players.push(pid);
                    proof {
                        assert(unique_players@[unique_players@.len() - 1]@ == game_ids[j as int]);
                        assert(game_ids.contains(game_ids[j as int]));
                        assert forall|id: Seq<char>| seq_has_key(u0, id) implies seq_has_key(
                            unique_players@,
                            id,
                        ) by {
                            let t = choose|t: int| 0 <= t < u0.len() && u0[t]@ == id;
                            assert(unique_players@[t]@ == id);
                        }
                    }
                }
                proof {
                    assert(seq_has_key(unique_players@, game_ids[j as int]));
                }
                j += 1;
            }
            proof {
                assert forall|id: Seq<char>| #[trigger] ids_now.contains(id) implies seq_has_key(
                    unique_players@,
                    id,
                ) by {
                    lemma_concat_contains(player_ids_of(prefix), game_ids, id);
                    if game_ids.contains(id) {
                        let t = choose|t: int| 0 <= t < game_ids.len() && game_ids[t] == id;
                    }
                }
                assert forall|t: int|
                    0 <= t < unique_players@.len() implies ids_now.contains(
                    (#[trigger] unique_players@[t])@,
                ) by {
                    lemma_concat_contains(player_ids_of(prefix), game_ids, unique_players@[t]@);
                }
            }
            i += 1;
        }
        proof {
            assert(all@.take(all@.len() as int) =~= all@);
        }
        let total_players = unique_players.len();
        proof {
            let vs = unique_players@.map_values(|x: String| x@);
            assert(vs.no_duplicates()) by {
                assert forall|t1: int, t2: int|
                    0 <= t1 < vs.len() && 0 <= t2 < vs.len() && t1 != t2 implies vs[t1]
                    != vs[t2] by {
                    assert(vs[t1] == unique_players@[t1]@);
                    assert(vs[t2] == unique_players@[t2]@);
                }
            }
            vs.unique_seq_to_set();
            assert(vs.to_set() =~= player_ids_of(all@).to_set()) by {
                assert forall|id: Seq<char>| vs.to_set().contains(id) implies player_ids_of(
                    all@,
                ).to_set().contains(id) by {
                    let t = choose|t: int| 0 <= t < vs.len() && vs[t] == id;
                    assert(unique_players@[t]@ == id);
                }
                assert forall|id: Seq<char>| player_ids_of(all@).to_set().contains(
                    id,
                ) implies vs.to_set().contains(id) by {
                    assert(seq_has_key(unique_players@, id));
                    let t = choose|t: int| 0 <= t < unique_players@.len() && unique_players@[t]@
                        == id;
                    assert(vs[t] == id);
                }
            }
        }
        let average_game_duration_micros: Option<u64> = if completed_games > 0 {
            proof {
                assert(total_duration / (completed_games as u128) <= 0xffff_ffff_ffff_ffffu64)
                    by (nonlinear_arith)
                    requires
                        completed_games > 0,
                        total_duration <= (completed_games as int) * 0xffff_ffff_ffff_ffffu64,
                ;
            }
            Some((total_duration / (completed_games as u128)) as u64)
        } else {
            None
        };
        let r = GameStatistics {
            total_games,
            active_games,
            completed_games,
            total_players,
            average_game_duration_micros,
        };
        proof {
            assert(all_games_ok(self.state.games.visible(), all@));
            assert(stats_counts_match(r, all@));
        }
        r
    }
}

/// The length of a sequence of win-ranked rows (a readability helper for the
/// ranking proofs).
pub open spec fn winners_len_of(s: Seq<WinsRanked>) -> int {
    s.len() as int
}

/// What `str::to_lowercase` returns for the characters `s`; the result
/// depends on the characters alone.
pub uninterp spec fn lower_of(s: Seq<char>) -> Seq<char>;

/// Relies on str::to_lowercase: one lowercased string for one input, a
/// function of the characters alone.
#[verifier::external_body]
fn lowercase(s: &str) -> (r: String)
    ensures
        r@ == lower_of(s@),
{
    s.to_lowercase()
}

/// `n` occurs contiguously inside `h`.
pub open spec fn contains_sub(h: Seq<char>, n: Seq<char>) -> bool {
    exists|i: int| 0 <= i && i + n.len() <= h.len() && #[trigger] h.subrange(i, i + n.len()) == n
}

/// Some participant's display name, lowercased, contains the lowercased
/// query `q`.
pub open spec fn name_matches(g: GameView, q: Seq<char>) -> bool {
    exists|i: int|
        0 <= i < g.players.len() && contains_sub(lower_of(g.players[i].name), lower_of(q))
}

/// `s` is exactly the games of `m` with a participant whose lowercased name
/// contains the lowercased query `q`, each once.
pub open spec fn search_ok(m: Map<GameId, GameView>, q: Seq<char>, s: Seq<Game>) -> bool {
    &&& games_from(m, s)
    &&& game_ids_distinct(s)
    &&& forall|i: int| 0 <= i < s.len() ==> name_matches((#[trigger] s[i])@, q)
    &&& forall|k: GameId| #[trigger] m.contains_key(k) && name_matches(m[k], q) ==> games_have_id(s, k)
}

/// The characters of `s`, one by one.
fn chars_of(s: &str) -> (r: Vec<char>)
    ensures
        r@ == s@,
{
    let n = s.unicode_len();
    let mut r: Vec<char> = Vec::new();
    let mut i: usize = 0;
    while i < n
        invariant
            i <= n,
            n == s@.len(),
            r@.len() == i,
            forall|j: int| 0 <= j < i ==> r@[j] == s@[j],
        decreases n - i,
    {
        r.push(s.get_char(i));
        i += 1;
    }
    proof {
        assert(r@ =~= s@);
    }
    r
}

/// Whether `n` occurs contiguously inside `h`.
fn contains_chars(h: &Vec<char>, n: &Vec<char>) -> (r: bool)
    ensures
        r == contains_sub(h@, n@),
{
    if n.len() == 0 {
        proof {
            assert(contains_sub(h@, n@)) by {
                assert(h@.subrange(0int, 0int + n@.len()) =~= n@);
            }
        }
        return true;
    }
    if n.len() > h.len() {
        return false;
    }
    let mut i: usize = 0;
    while i <= h.len() - n.len()
        invariant
            1 <= n@.len() <= h@.len(),
            i <= h@.len() - n@.len() + 1,
            h@.len() <= usize::MAX,
            forall|t: int| 0 <= t < i ==> #[trigger] h@.subrange(t, t + n@.len()) != n@,
        decreases h@.len() - n@.len() + 1 - i,
    {
        if match_at(h, n, i) {
            return true;
        }
        i += 1;
    }
    false
}

/// Whether `n` occurs at offset `i` of `h`.
fn match_at(h: &Vec<char>, n: &Vec<char>, i: usize) -> (r: bool)
    requires
        i + n@.len() <= h@.len(),
    ensures
        r == (h@.subrange(i as int, i as int + n@.len()) == n@),
{
    let mut j: usize = 0;
    while j < n.len()
        invariant
            j <= n@.len(),
            i + n@.len() <= h@.len(),
            forall|t: int| 0 <= t < j ==> h@[i + t] == n@[t],
        decreases n@.len() - j,
    {
        proof {
            vstd::std_specs::vec::axiom_spec_len(h);
            assert(h@.len() <= usize::MAX);
            assert(i + j < h@.len());
        }
        if h[i + j] != n[j] {
            proof {
                assert(h@.subrange(i as int, i as int + n@.len())[j as int] == h@[i + j]);
            }
            return false;
        }
        j += 1;
    }
    proof {
        assert(h@.subrange(i as int, i as int + n@.len()) =~= n@);
    }
    true
}

/// Whether some participant of `g`, lowercased, matches the lowercased query.
fn game_matches_name(g: &Game, needle: &Vec<char>, Ghost(q): Ghost<Seq<char>>) -> (r: bool)
    requires
        needle@ == lower_of(q),
    ensures
        r == name_matches(g@, q),
{
    let mut i: usize = 0;
    while i < g.players.len()
        invariant
            i <= g.players@.len(),
            needle@ == lower_of(q),
            forall|j: int|
                0 <= j < i ==> !contains_sub(lower_of(g@.players[j].name), lower_of(q)),
        decreases g.players@.len() - i,
    {
        let hay = lowercase(g.players[i].name.as_str());
        let hay_chars = chars_of(hay.as_str());
        if contains_chars(&hay_chars, needle) {
            proof {
                assert(contains_sub(lower_of(g@.players[i as int].name), lower_of(q)));
            }
            return true;
        }
        i += 1;
    }
    false
}

/// Overall statistics across every stored game, derived, never stored.
#[derive(Clone, Copy, Debug, PartialEq, Eq, Structural)]
pub struct GameStatistics {
    pub total_games: usize,
    pub active_games: usize,
    pub completed_games: usize,
    pub total_players: usize,
    /// Mean finished-game duration in microseconds (rounded down), `None`
    /// while no game has finished.
    pub average_game_duration_micros: Option<u64>,
}

/// The duration a finished game contributes, in microseconds; a finish time
/// earlier than the creation time contributes nothing.
pub open spec fn duration_of(g: GameView) -> int {
    match g.finished_at {
        Some(f) => if g.status == GameStatus::Finished {
            if f >= g.created_at {
                f - g.created_at
            } else {
                0
            }
        } else {
            0
        },
        None => 0,
    }
}

/// How many games of `s` are not yet finished.
pub open spec fn count_active(s: Seq<Game>) -> int
    decreases s.len(),
{
    if s.len() == 0 {
        0
    } else {
        count_active(s.drop_last()) + if s.last()@.status != GameStatus::Finished {
            1int
        } else {
            0int
        }
    }
}

/// How many games of `s` are finished.
pub open spec fn count_finished(s: Seq<Game>) -> int
    decreases s.len(),
{
    if s.len() == 0 {
        0
    } else {
        count_finished(s.drop_last()) + if s.last()@.status == GameStatus::Finished {
            1int
        } else {
            0int
        }
    }
}

/// The summed durations of the finished games of `s`, in microseconds.
pub open spec fn duration_sum(s: Seq<Game>) -> int
    decreases s.len(),
{
    if s.len() == 0 {
        0
    } else {
        duration_sum(s.drop_last()) + duration_of(s.last()@)
    }
}

/// Every participant identity of every game of `s`, in order, repeats kept.
pub open spec fn player_ids_of(s: Seq<Game>) -> Seq<Seq<char>>
    decreases s.len(),
{
    if s.len() == 0 {
        Seq::empty()
    } else {
        player_ids_of(s.drop_last()) + s.last()@.players.map_values(
            |p: crate::PlayerInfoView| p.id,
        )
    }
}

/// The claims `generate_statistics` makes over one enumeration `s` of the
/// games map.
pub open spec fn stats_counts_match(st: GameStatistics, s: Seq<Game>) -> bool {
    &&& st.total_games == s.len()
    &&& st.active_games == count_active(s)
    &&& st.completed_games == count_finished(s)
    &&& st.total_players == player_ids_of(s).to_set().len()
    &&& st.average_game_duration_micros == (if count_finished(s) == 0 {
        None
    } else {
        Some((duration_sum(s) / count_finished(s)) as u64)
    })
}

/// `st` is the statistics of the games map `m`: its counts, distinct player
/// count and mean finished-game duration over some (equivalently, any)
/// one-game-per-id enumeration of `m`.
pub open spec fn statistics_ok(m: Map<GameId, GameView>, st: GameStatistics) -> bool {
    exists|s: Seq<Game>| #[trigger] all_games_ok(m, s) && stats_counts_match(st, s)
}

/// Membership in a concatenation is membership in either part.
proof fn lemma_concat_contains<A>(a: Seq<A>, b: Seq<A>, x: A)
    ensures
        (a + b).contains(x) <==> a.contains(x) || b.contains(x),
{
    if a.contains(x) {
        let i = choose|i: int| 0 <= i < a.len() && a[i] == x;
        assert((a + b)[i] == x);
    }
    if b.contains(x) {
        let i = choose|i: int| 0 <= i < b.len() && b[i] == x;
        assert((a + b)[a.len() + i] == x);
    }
    if (a + b).contains(x) {
        let i = choose|i: int| 0 <= i < (a + b).len() && (a + b)[i] == x;
        if i < a.len() {
            assert(a[i] == x);
        } else {
            assert(b[i - a.len()] == x);
        }
    }
}

/// Whether some element of `v` holds the characters `id`.
fn names_contain(v: &Vec<String>, id: &String) -> (r: bool)
    ensures
        r == seq_has_key(v@, id@),
{
    let mut t: usize = 0;
    while t < v.len()
        invariant
            t <= v@.len(),
            forall|u: int| 0 <= u < t ==> v@[u]@ != id@,
        decreases v@.len() - t,
    {
        if v[t] == *id {
            proof {
                assert(v@[t as int]@ == id@);
            }
            return true;
        }
        t += 1;
    }
    false
}

/// Queries extending the basic contract surface with derived views.
#[derive(Clone, Debug)]
pub enum ExtendedQuery {
    Basic(Query),
    GetGamesByStatus { status: GameStatus },
    GetRecentGames { limit: usize },
    GetPlayerGames { player_id: PlayerId },
    GetLeaderboard { limit: usize },
    GetGameStatistics,
}

/// Responses to the extended queries.
#[derive(Clone, Debug)]
pub enum ExtendedQueryResponse {
    Basic(QueryResponse),
    Games(Vec<Game>),
    Leaderboard(Vec<LeaderboardEntry>),
    Statistics(GameStatistics),
}

/// `g` is the game stored under `id`, or nothing when `id` is unknown.
pub open spec fn game_opt_ok(m: Map<GameId, GameView>, id: GameId, g: Option<Game>) -> bool {
    match g {
        Some(game) => m.contains_key(id) && game@ == m[id],
        None => !m.contains_key(id),
    }
}

/// `resp` answers the basic query `q` over the games map `m` and the
/// statistics map `sm`.
pub open spec fn basic_response_ok(
    m: Map<GameId, GameView>,
    sm: Map<Seq<char>, PlayerStats>,
    q: Query,
    resp: QueryResponse,
) -> bool {
    match q {
        Query::GetGame { game_id } => resp matches QueryResponse::Game(g) && game_opt_ok(
            m,
            game_id,
            g,
        ),
        Query::GetAllGames => resp matches QueryResponse::Games(gs) && all_games_ok(m, gs@),
        Query::GetPlayerStats { player_id } => resp matches QueryResponse::PlayerStats(s) && s
            == stats_or_zero(sm, player_id@),
    }
}

impl TicTacToeService {
    /// Answer one basic query against the current snapshot; never fails.
    pub fn handle_basic_query(&self, query: Query) -> (r: Result<QueryResponse, String>)
        requires
            self.state.inv(),
        ensures
            r is Ok,
            basic_response_ok(
                self.state.games.visible(),
                self.state.player_stats.visible(),
                query,
                r->Ok_0,
            ),
    {
        match query {
            Query::GetGame { game_id } => Ok(QueryResponse::Game(self.state.get_game(game_id))),
            Query::GetAllGames => Ok(QueryResponse::Games(self.state.get_all_games())),
            Query::GetPlayerStats { player_id } => Ok(
                QueryResponse::PlayerStats(self.state.get_player_stats(&player_id)),
            ),
        }
    }

    /// Answer one extended query against the current snapshot; never fails.
    pub fn handle_query(&self, query: ExtendedQuery) -> (r: Result<ExtendedQueryResponse, String>)
        requires
            self.state.inv(),
        ensures
            r is Ok,
            match query {
                ExtendedQuery::Basic(q) => r->Ok_0 matches ExtendedQueryResponse::Basic(resp)
                    && basic_response_ok(
                    self.state.games.visible(),
                    self.state.player_stats.visible(),
                    q,
                    resp,
                ),
                ExtendedQuery::GetGamesByStatus { status } => r->Ok_0 matches ExtendedQueryResponse::Games(
                    gs,
                ) && status_games_ok(self.state.games.visible(), status, gs@),
                ExtendedQuery::GetRecentGames { limit } => r->Ok_0 matches ExtendedQueryResponse::Games(
                    gs,
                ) && recent_games_ok(self.state.games.visible(), limit, gs@),
                ExtendedQuery::GetPlayerGames { player_id } => r->Ok_0 matches ExtendedQueryResponse::Games(
                    gs,
                ) && player_games_ok(self.state.games.visible(), player_id@, gs@),
                ExtendedQuery::GetLeaderboard { limit } => r->Ok_0 matches ExtendedQueryResponse::Leaderboard(
                    es,
                ) && leaderboard_ok(self.state.player_stats.visible(), limit, es@),
                ExtendedQuery::GetGameStatistics => r->Ok_0 matches ExtendedQueryResponse::Statistics(
                    st,
                ) && statistics_ok(self.state.games.visible(), st),
            },
    {
        match query {
            ExtendedQuery::Basic(basic_query) => {
                let response = self.handle_basic_query(basic_query)?;
                Ok(ExtendedQueryResponse::Basic(response))
            },
            ExtendedQuery::GetGamesByStatus { status } => Ok(
                ExtendedQueryResponse::Games(self.state.get_games_by_status(status)),
            ),
            ExtendedQuery::GetRecentGames { limit } => Ok(
                ExtendedQueryResponse::Games(self.state.get_recent_games(limit)),
            ),
            ExtendedQuery::GetPlayerGames { player_id } => Ok(
                ExtendedQueryResponse::Games(self.state.get_player_games(&player_id)),
            ),
            ExtendedQuery::GetLeaderboard { limit } => Ok(
                ExtendedQueryResponse::Leaderboard(self.generate_leaderboard(limit)),
            ),
            ExtendedQuery::GetGameStatistics => Ok(
                ExtendedQueryResponse::Statistics(self.generate_statistics()),
            ),
        }
    }
}

} // verus!
