//! Orchestration of the game state machine against the transactional store:
//! the games map, the player-statistics map and the id-allocation register,
//! with the statistics update fired exactly once when a game finishes.
use crate::ranking::{lemma_multiset_elems, lemma_multiset_no_dup, sort_desc, RankOrd};
use crate::store::{key_at, keys_distinct, seq_has_key, KvStore, Register};
use crate::{
    bump_stats, new_game_view, spec_make_move, stats_wf, zero_stats, Game, GameId, GameResult,
    GameStatus, GameView, PlayerId, PlayerStats, TicTacToeError,
};
use vstd::prelude::*;

verus! {

/// Every game of `m` is well-formed and stored under its own id.
pub open spec fn games_map_wf(m: Map<GameId, GameView>) -> bool {
    forall|k: GameId| #[trigger] m.dom().contains(k) ==> m[k].wf() && m[k].id == k
}

/// Every statistics row of `m` has consistent counters.
pub open spec fn stats_map_wf(m: Map<Seq<char>, PlayerStats>) -> bool {
    forall|k: Seq<char>| #[trigger] m.dom().contains(k) ==> stats_wf(m[k])
}

/// Every game id of `m` lies below the allocation counter `n`.
pub open spec fn ids_below(m: Map<GameId, GameView>, n: GameId) -> bool {
    forall|k: GameId| #[trigger] m.dom().contains(k) ==> k < n
}

/// Every statistics row of `m` can still absorb the two increments of one
/// more finished game (a machine limit on the u32 counters).
pub open spec fn stats_headroom(m: Map<Seq<char>, PlayerStats>) -> bool {
    forall|k: Seq<char>| #[trigger] m.dom().contains(k) ==> m[k].games_played + 2 <= u32::MAX
}

/// The statistics row of `id`, or a zeroed row when none is stored yet.
pub open spec fn stats_or_zero(m: Map<Seq<char>, PlayerStats>, id: Seq<char>) -> PlayerStats {
    if m.contains_key(id) {
        m[id]
    } else {
        zero_stats()
    }
}

/// `m` with a zeroed statistics row ensured for `id`.
pub open spec fn ensure_stats_row(m: Map<Seq<char>, PlayerStats>, id: Seq<char>) -> Map<
    Seq<char>,
    PlayerStats,
> {
    if m.contains_key(id) {
        m
    } else {
        m.insert(id, zero_stats())
    }
}

/// The results the two participants of the finished game `g` receive: the
/// winner a win and the other a loss, or both a draw.
pub open spec fn results_of(g: GameView) -> (GameResult, GameResult) {
    match g.winner {
        Some(w) => if g.players[0].symbol == w {
            (GameResult::Win, GameResult::Loss)
        } else {
            (GameResult::Loss, GameResult::Win)
        },
        None => (GameResult::Draw, GameResult::Draw),
    }
}

/// The statistics map after recording the finished two-player game `g`: the
/// first participant's row is bumped and written back, then the second's, so
/// a player occupying both seats absorbs both increments.
pub open spec fn stats_after_finish(m: Map<Seq<char>, PlayerStats>, g: GameView) -> Map<
    Seq<char>,
    PlayerStats,
> {
    let id1 = g.players[0].id;
    let id2 = g.players[1].id;
    let m1 = m.insert(id1, bump_stats(stats_or_zero(m, id1), results_of(g).0));
    m1.insert(id2, bump_stats(stats_or_zero(m1, id2), results_of(g).1))
}

/// The application state: the id-allocation register, the games map and the
/// player-statistics map, all transactional. The surrounding host must run
/// mutating operations strictly sequentially to completion (single-writer).
pub struct ApplicationState {
    /// Counter for generating unique game ids.
    pub next_game_id: Register<GameId>,
    /// Map of all games.
    pub games: KvStore<GameId, Game>,
    /// Map of player statistics.
    pub player_stats: KvStore<PlayerId, PlayerStats>,
}

impl ApplicationState {
    /// The state invariant: both the visible and the committed snapshots hold
    /// only well-formed games keyed by their own ids and below the allocation
    /// counter, and only consistent statistics rows.
    pub open spec fn inv(&self) -> bool {
        &&& games_map_wf(self.games.visible())
        &&& games_map_wf(self.games.committed())
        &&& stats_map_wf(self.player_stats.visible())
        &&& stats_map_wf(self.player_stats.committed())
        &&& ids_below(self.games.visible(), self.next_game_id.visible())
        &&& ids_below(self.games.committed(), self.next_game_id.committed())
    }

    /// No write is buffered anywhere.
    pub open spec fn synced(&self) -> bool {
        &&& self.next_game_id.synced()
        &&& self.games.synced()
        &&& self.player_stats.synced()
    }

    /// A fresh, empty state.
    pub fn new() -> (r: Self)
        ensures
            r.inv(),
            r.synced(),
            r.games.visible() == Map::<GameId, GameView>::empty(),
            r.player_stats.visible() == Map::<Seq<char>, PlayerStats>::empty(),
            r.next_game_id.visible() == 0u64,
            r.games.committed() == Map::<GameId, GameView>::empty(),
            r.player_stats.committed() == Map::<Seq<char>, PlayerStats>::empty(),
            r.next_game_id.committed() == 0u64,
    {
        ApplicationState {
            next_game_id: Register::new(0),
            games: KvStore::new(),
            player_stats: KvStore::new(),
        }
    }

    /// Create a game under the next free id, buffer it, advance the counter
    /// and ensure a zeroed statistics row for the creator.
    pub fn create_game(&mut self, player_id: PlayerId, player_name: String, timestamp: u64) -> (r:
        GameId)
        requires
            old(self).inv(),
            old(self).next_game_id.visible() < GameId::MAX,
        ensures
            final(self).inv(),
            r == old(self).next_game_id.visible(),
            !old(self).games.visible().contains_key(r),
            final(self).games.visible() == old(self).games.visible().insert(
                r,
                new_game_view(r, player_id@, player_name@, timestamp),
            ),
            final(self).next_game_id.visible() == r + 1,
            final(self).player_stats.visible() == ensure_stats_row(
                old(self).player_stats.visible(),
                player_id@,
            ),
            final(self).games.committed() == old(self).games.committed(),
            final(self).player_stats.committed() == old(self).player_stats.committed(),
            final(self).next_game_id.committed() == old(self).next_game_id.committed(),
    {
        let game_id = *self.next_game_id.get();
        let game = Game::new(game_id, player_id.clone(), player_name, timestamp);
        self.games.insert(game_id, game);
        self.next_game_id.set(game_id + 1);
        if !self.player_stats.contains_key(&player_id) {
            self.player_stats.insert(player_id, PlayerStats::default());
        }
        game_id
    }

    /// Join an existing game as its second player and ensure a zeroed
    /// statistics row for the joiner; fails with `GameNotFound` for an
    /// unknown id and with `GameFull` for a game with two participants, and
    /// then buffers nothing.
    pub fn join_game(&mut self, game_id: GameId, player_id: PlayerId, player_name: String) -> (r:
        Result<(), TicTacToeError>)
        requires
            old(self).inv(),
        ensures
            final(self).inv(),
            final(self).games.committed() == old(self).games.committed(),
            final(self).player_stats.committed() == old(self).player_stats.committed(),
            final(self).next_game_id.committed() == old(self).next_game_id.committed(),
            final(self).next_game_id.visible() == old(self).next_game_id.visible(),
            !old(self).games.visible().contains_key(game_id) ==> r == Err::<(), TicTacToeError>(
                TicTacToeError::GameNotFound,
            ) && final(self).games.visible() == old(self).games.visible() && final(self).player_stats.visible() == old(self).player_stats.visible(),
            old(self).games.visible().contains_key(game_id) && old(self).games.visible()[game_id].players.len() == 2 ==> r == Err::<(), TicTacToeError>(
                TicTacToeError::GameFull,
            ) && final(self).games.visible() == old(self).games.visible() && final(self).player_stats.visible() == old(self).player_stats.visible(),
            old(self).games.visible().contains_key(game_id) && old(self).games.visible()[game_id].players.len() == 1 ==> r == Ok::<(), TicTacToeError>(())
                && final(self).games.visible() == old(self).games.visible().insert(
                game_id,
                crate::joined_view(old(self).games.visible()[game_id], player_id@, player_name@),
            ) && final(self).player_stats.visible() == ensure_stats_row(
                old(self).player_stats.visible(),
                player_id@,
            ),
    {
        let mut game = match self.games.get(&game_id) {
            Some(g) => g.clone(),
            None => {
                return Err(TicTacToeError::GameNotFound);
            },
        };
        match game.add_player(player_id.clone(), player_name) {
            Ok(()) => {},
            Err(e) => {
                return Err(e);
            },
        }
        self.games.insert(game_id, game);
        if !self.player_stats.contains_key(&player_id) {
            self.player_stats.insert(player_id, PlayerStats::default());
        }
        Ok(())
    }

    /// Apply one move to a stored game. On success the updated game is
    /// buffered and returned; if the move just finished the game, both
    /// participants' statistics are updated first. On failure nothing is
    /// buffered and the precise error is returned.
    pub fn make_move(
        &mut self,
        game_id: GameId,
        player_id: PlayerId,
        position: usize,
        timestamp: u64,
    ) -> (r: Result<Game, TicTacToeError>)
        requires
            old(self).inv(),
            stats_headroom(old(self).player_stats.visible()),
        ensures
            final(self).inv(),
            final(self).games.committed() == old(self).games.committed(),
            final(self).player_stats.committed() == old(self).player_stats.committed(),
            final(self).next_game_id.committed() == old(self).next_game_id.committed(),
            final(self).next_game_id.visible() == old(self).next_game_id.visible(),
            !old(self).games.visible().contains_key(game_id) ==> r == Err::<Game, TicTacToeError>(
                TicTacToeError::GameNotFound,
            ) && final(self).games.visible() == old(self).games.visible() && final(self).player_stats.visible() == old(self).player_stats.visible(),
            old(self).games.visible().contains_key(game_id) ==> match spec_make_move(
                old(self).games.visible()[game_id],
                player_id@,
                position,
                timestamp,
            ) {
                Err(e) => r == Err::<Game, TicTacToeError>(e) && final(self).games.visible() == old(self).games.visible() && final(self).player_stats.visible() == old(self).player_stats.visible(),
                Ok(g2) => r is Ok && r->Ok_0@ == g2 && final(self).games.visible() == old(self).games.visible().insert(game_id, g2) && final(self).player_stats.visible() == (
                if g2.status == GameStatus::Finished {
                    stats_after_finish(old(self).player_stats.visible(), g2)
                } else {
                    old(self).player_stats.visible()
                }),
            },
    {
        let mut game = match self.games.get(&game_id) {
            Some(g) => g.clone(),
            None => {
                return Err(TicTacToeError::GameNotFound);
            },
        };
        let was_finished = game.status == GameStatus::Finished;
        match game.make_move(&player_id, position, timestamp) {
            Ok(()) => {},
            Err(e) => {
                return Err(e);
            },
        }
        let finished_now = game.status == GameStatus::Finished;
        if !was_finished && finished_now {
            self.update_player_stats_after_game(&game);
        }
        let snapshot = game.clone();
        self.games.insert(game_id, game);
        Ok(snapshot)
    }

    /// Read one game, pending writes included.
    pub fn get_game(&self, game_id: GameId) -> (r: Option<Game>)
        ensures
            match r {
                Some(g) => self.games.visible().contains_key(game_id) && g@
                    == self.games.visible()[game_id],
                None => !self.games.visible().contains_key(game_id),
            },
    {
        match self.games.get(&game_id) {
            Some(g) => Some(g.clone()),
            None => None,
        }
    }

    /// Materialize every visible game, each exactly once.
    pub fn get_all_games(&self) -> (r: Vec<Game>)
        requires
            self.inv(),
        ensures
            forall|i: int|
                0 <= i < r@.len() ==> self.games.visible().contains_key(#[trigger] r@[i]@.id)
                    && self.games.visible()[r@[i]@.id] == r@[i]@ && r@[i]@.wf(),
            forall|i: int, j: int| 0 <= i < j < r@.len() ==> #[trigger] r@[i]@.id != #[trigger] r@[j]@.id,
            forall|k: GameId| #[trigger]
                self.games.visible().contains_key(k) ==> games_have_id(r@, k),
    {
        let idxs = self.games.indices();
        let mut result: Vec<Game> = Vec::new();
        let mut i: usize = 0;
        while i < idxs.len()
            invariant
                self.inv(),
                i <= idxs@.len(),
                keys_distinct(idxs@),
                forall|t: int|
                    0 <= t < idxs@.len() ==> self.games.visible().contains_key(
                        #[trigger] key_at(idxs@, t),
                    ),
                forall|k: GameId| #[trigger]
                    self.games.visible().contains_key(k) ==> seq_has_key(idxs@, k),
                result@.len() == i,
                forall|t: int|
                    0 <= t < i ==> #[trigger] result@[t]@ == self.games.visible()[key_at(idxs@, t)]
                        && result@[t]@.id == key_at(idxs@, t),
            decreases idxs@.len() - i,
        {
            let key = idxs[i];
            proof {
                assert(key_at(idxs@, i as int) == key);
            }
            match self.games.get(&key) {
                Some(g) => {
                    result.push(g.clone());
                },
                None => {
                    proof {
                        assert(false);
                    }
                },
            }
            i += 1;
        }
        proof {
            assert forall|i: int, j: int| 0 <= i < j < result@.len() implies #[trigger] result@[i]@.id
                != #[trigger] result@[j]@.id by {
                assert(result@[i]@.id == key_at(idxs@, i));
                assert(result@[j]@.id == key_at(idxs@, j));
            }
            assert forall|k: GameId| #[trigger]
                self.games.visible().contains_key(k) implies games_have_id(result@, k) by {
                let t = choose|t: int| 0 <= t < idxs@.len() && idxs@[t]@ == k;
                assert(key_at(idxs@, t) == k);
                assert(result@[t]@.id == k);
            }
        }
        result
    }

    /// Read one player's statistics, a zeroed row when none is stored.
    pub fn get_player_stats(&self, player_id: &PlayerId) -> (r: PlayerStats)
        ensures
            r == stats_or_zero(self.player_stats.visible(), player_id@),
    {
        match self.player_stats.get(player_id) {
            Some(s) => *s,
            None => PlayerStats::default(),
        }
    }

    /// Record the finished two-player game `game` in both participants'
    /// statistics rows, creating missing rows as zeroed.
    fn update_player_stats_after_game(&mut self, game: &Game)
        requires
            old(self).inv(),
            stats_headroom(old(self).player_stats.visible()),
            game@.players.len() == 2,
        ensures
            final(self).inv(),
            final(self).games == old(self).games,
            final(self).next_game_id == old(self).next_game_id,
            final(self).player_stats.committed() == old(self).player_stats.committed(),
            final(self).player_stats.visible() == stats_after_finish(
                old(self).player_stats.visible(),
                game@,
            ),
    {
        let (result1, result2) = match game.winner {
            Some(w) => {
                if game.players[0].symbol == w {
                    (GameResult::Win, GameResult::Loss)
                } else {
                    (GameResult::Loss, GameResult::Win)
                }
            },
            None => (GameResult::Draw, GameResult::Draw),
        };
        let mut stats1 = self.get_player_stats(&game.players[0].id);
        stats1.update_after_game(result1);
        self.player_stats.insert(game.players[0].id.clone(), stats1);
        let mut stats2 = self.get_player_stats(&game.players[1].id);
        stats2.update_after_game(result2);
        self.player_stats.insert(game.players[1].id.clone(), stats2);
    }

    /// The games whose status is `status`, by full scan.
    pub fn get_games_by_status(&self, status: GameStatus) -> (r: Vec<Game>)
        requires
            self.inv(),
        ensures
            status_games_ok(self.games.visible(), status, r@),
    {
        let all = self.get_all_games();
        let mut result: Vec<Game> = Vec::new();
        let mut i: usize = 0;
        while i < all.len()
            invariant
                self.inv(),
                i <= all@.len(),
                games_from(self.games.visible(), all@),
                game_ids_distinct(all@),
                forall|k: GameId| #[trigger]
                    self.games.visible().contains_key(k) ==> games_have_id(all@, k),
                games_from(self.games.visible(), result@),
                game_ids_distinct(result@),
                forall|t: int| 0 <= t < result@.len() ==> (#[trigger] result@[t])@.status == status,
                forall|t: int|
                    0 <= t < result@.len() ==> exists|u: int|
                        0 <= u < i && all@[u]@ == (#[trigger] result@[t])@,
                forall|u: int|
                    0 <= u < i && (#[trigger] all@[u])@.status == status ==> games_have_id(
                        result@,
                        all@[u]@.id,
                    ),
            decreases all@.len() - i,
        {
            if all[i].status == status {
                let ghost result0 = result@;
                result.push(all[i].clone());
                proof {
                    assert(result@[result@.len() - 1]@ == all@[i as int]@);
                    assert forall|t: int| 0 <= t < result0.len() implies (#[trigger] result0[t])@.id
                        != all@[i as int]@.id by {
                        let u = choose|u: int| 0 <= u < i && all@[u]@ == result0[t]@;
                        assert(all@[u]@.id != all@[i as int]@.id);
                    }
                    assert forall|t: int| 0 <= t < result@.len() implies exists|u: int|
                        0 <= u < i + 1 && all@[u]@ == (#[trigger] result@[t])@ by {
                        if t < result0.len() {
                            let u = choose|u: int| 0 <= u < i && all@[u]@ == result0[t]@;
                            assert(all@[u]@ == result@[t]@);
                        } else {
                            assert(all@[i as int]@ == result@[t]@);
                        }
                    }
                    lemma_games_have_id_extend(result0, result@);
                }
            }
            proof {
                if all@[i as int]@.status == status {
                    assert(result@[result@.len() - 1]@.id == all@[i as int]@.id);
                }
            }
            i += 1;
        }
        result
    }

    /// The games in which `player_id` participates, by full scan.
    pub fn get_player_games(&self, player_id: &PlayerId) -> (r: Vec<Game>)
        requires
            self.inv(),
        ensures
            player_games_ok(self.games.visible(), player_id@, r@),
    {
        let all = self.get_all_games();
        let mut result: Vec<Game> = Vec::new();
        let mut i: usize = 0;
        while i < all.len()
            invariant
                self.inv(),
                i <= all@.len(),
                games_from(self.games.visible(), all@),
                game_ids_distinct(all@),
                forall|k: GameId| #[trigger]
                    self.games.visible().contains_key(k) ==> games_have_id(all@, k),
                games_from(self.games.visible(), result@),
                game_ids_distinct(result@),
                forall|t: int|
                    0 <= t < result@.len() ==> crate::has_player(
                        (#[trigger] result@[t])@.players,
                        player_id@,
                    ),
                forall|t: int|
                    0 <= t < result@.len() ==> exists|u: int|
                        0 <= u < i && all@[u]@ == (#[trigger] result@[t])@,
                forall|u: int|
                    0 <= u < i && crate::has_player((#[trigger] all@[u])@.players, player_id@)
                        ==> games_have_id(result@, all@[u]@.id),
            decreases all@.len() - i,
        {
            if game_has_player(&all[i], player_id) {
                let ghost result0 = result@;
                result.push(all[i].clone());
                proof {
                    assert(result@[result@.len() - 1]@ == all@[i as int]@);
                    assert forall|t: int| 0 <= t < result0.len() implies (#[trigger] result0[t])@.id
                        != all@[i as int]@.id by {
                        let u = choose|u: int| 0 <= u < i && all@[u]@ == result0[t]@;
                        assert(all@[u]@.id != all@[i as int]@.id);
                    }
                    assert forall|t: int| 0 <= t < result@.len() implies exists|u: int|
                        0 <= u < i + 1 && all@[u]@ == (#[trigger] result@[t])@ by {
                        if t < result0.len() {
                            let u = choose|u: int| 0 <= u < i && all@[u]@ == result0[t]@;
                            assert(all@[u]@ == result@[t]@);
                        } else {
                            assert(all@[i as int]@ == result@[t]@);
                        }
                    }
                    lemma_games_have_id_extend(result0, result@);
                }
            }
            proof {
                if crate::has_player(all@[i as int]@.players, player_id@) {
                    assert(result@[result@.len() - 1]@.id == all@[i as int]@.id);
                }
            }
            i += 1;
        }
        result
    }

    /// The most recently created games, newest first, at most `limit` many.
    pub fn get_recent_games(&self, limit: usize) -> (r: Vec<Game>)
        requires
            self.inv(),
        ensures
            recent_games_ok(self.games.visible(), limit, r@),
    {
        let all = self.get_all_games();
        let ghost all0 = all@;
        let mut sorted = sort_desc(all);
        proof {
            lemma_multiset_elems(all0, sorted@);
            lemma_multiset_elems(sorted@, all0);
            assert(all0.no_duplicates()) by {
                assert forall|i: int, j: int|
                    0 <= i < all0.len() && 0 <= j < all0.len() && i != j implies all0[i]
                    != all0[j] by {
                    assert(all0[i]@.id != all0[j]@.id);
                }
            }
            lemma_multiset_no_dup(all0, sorted@);
            assert(games_from(self.games.visible(), sorted@)) by {
                assert forall|t: int|
                    0 <= t < sorted@.len() implies self.games.visible().contains_key(
                    (#[trigger] sorted@[t])@.id,
                ) && self.games.visible()[sorted@[t]@.id] == sorted@[t]@ by {
                    let i = choose|i: int| 0 <= i < all0.len() && all0[i] == sorted@[t];
                    assert(all0[i]@.id == sorted@[t]@.id);
                }
            }
            assert(game_ids_distinct(sorted@)) by {
                assert forall|t1: int, t2: int|
                    0 <= t1 < t2 < sorted@.len() implies (#[trigger] sorted@[t1])@.id
                    != (#[trigger] sorted@[t2])@.id by {
                    let i1 = choose|i: int| 0 <= i < all0.len() && all0[i] == sorted@[t1];
                    let i2 = choose|i: int| 0 <= i < all0.len() && all0[i] == sorted@[t2];
                    if sorted@[t1]@.id == sorted@[t2]@.id {
                        assert(all0[i1]@.id == all0[i2]@.id);
                        assert(i1 == i2);
                        assert(sorted@[t1] == sorted@[t2]);
                    }
                }
            }
            assert forall|k: GameId| #[trigger]
                self.games.visible().contains_key(k) implies games_have_id(sorted@, k) by {
                let t = choose|t: int| 0 <= t < all0.len() && all0[t]@.id == k;
                let u = choose|u: int| 0 <= u < sorted@.len() && sorted@[u] == all0[t];
                assert(sorted@[u]@.id == k);
            }
        }
        let ghost sorted0 = sorted@;
        sorted.truncate(limit);
        proof {
            assert(sorted@ =~= sorted0.take(if limit <= sorted0.len() {
                limit as int
            } else {
                sorted0.len() as int
            }));
            assert forall|k: GameId| #[trigger]
                self.games.visible().contains_key(k) && !games_have_id(sorted@, k) && sorted@.len()
                > 0 implies self.games.visible()[k].created_at <= sorted@[sorted@.len()
                - 1]@.created_at by {
                let t = choose|t: int| 0 <= t < sorted0.len() && sorted0[t]@.id == k;
                assert(t >= sorted@.len()) by {
                    if t < sorted@.len() {
                        assert(sorted@[t]@.id == k);
                    }
                }
                assert(Game::key_ge(sorted0[sorted@.len() - 1], sorted0[t]));
            }
            if sorted@.len() < limit {
                assert forall|k: GameId| #[trigger]
                    self.games.visible().contains_key(k) implies games_have_id(sorted@, k) by {
                    let t = choose|t: int| 0 <= t < sorted0.len() && sorted0[t]@.id == k;
                    assert(sorted@[t]@.id == k);
                }
            }
        }
        sorted
    }

    /// Commit every buffered write of every container.
    pub fn flush(&mut self)
        requires
            old(self).inv(),
        ensures
            final(self).inv(),
            final(self).synced(),
            final(self).games.visible() == old(self).games.visible(),
            final(self).player_stats.visible() == old(self).player_stats.visible(),
            final(self).next_game_id.visible() == old(self).next_game_id.visible(),
            final(self).games.committed() == old(self).games.visible(),
            final(self).player_stats.committed() == old(self).player_stats.visible(),
            final(self).next_game_id.committed() == old(self).next_game_id.visible(),
    {
        self.next_game_id.flush();
        self.games.flush();
        self.player_stats.flush();
    }

    /// Discard every buffered write of every container, reverting to the last
    /// flushed snapshot.
    pub fn rollback(&mut self)
        requires
            old(self).inv(),
        ensures
            final(self).inv(),
            final(self).synced(),
            final(self).games.visible() == old(self).games.committed(),
            final(self).player_stats.visible() == old(self).player_stats.committed(),
            final(self).next_game_id.visible() == old(self).next_game_id.committed(),
            final(self).games.committed() == old(self).games.committed(),
            final(self).player_stats.committed() == old(self).player_stats.committed(),
            final(self).next_game_id.committed() == old(self).next_game_id.committed(),
    {
        self.next_game_id.rollback();
        self.games.rollback();
        self.player_stats.rollback();
    }

    /// Purge every container, committed state included (teardown only).
    pub fn delete(&mut self)
        ensures
            final(self).inv(),
            final(self).synced(),
            final(self).games.visible() == Map::<GameId, GameView>::empty(),
            final(self).player_stats.visible() == Map::<Seq<char>, PlayerStats>::empty(),
            final(self).games.committed() == Map::<GameId, GameView>::empty(),
            final(self).player_stats.committed() == Map::<Seq<char>, PlayerStats>::empty(),
    {
        self.next_game_id.rollback();
        self.games.delete();
        self.player_stats.delete();
    }
}

/// Extending a game sequence at the end keeps every id it already had.
pub(crate) proof fn lemma_games_have_id_extend(s1: Seq<Game>, s2: Seq<Game>)
    requires
        s1.len() <= s2.len(),
        forall|i: int| 0 <= i < s1.len() ==> s2[i] == s1[i],
    ensures
        forall|id: GameId| games_have_id(s1, id) ==> games_have_id(s2, id),
{
    assert forall|id: GameId| games_have_id(s1, id) implies games_have_id(s2, id) by {
        let t = choose|t: int| 0 <= t < s1.len() && s1[t]@.id == id;
        assert(s2[t]@.id == id);
    }
}

/// Whether `pid` identifies a participant of `g`.
fn game_has_player(g: &Game, pid: &PlayerId) -> (r: bool)
    ensures
        r == crate::has_player(g@.players, pid@),
{
    let mut i: usize = 0;
    while i < g.players.len()
        invariant
            i <= g.players@.len(),
            forall|j: int| 0 <= j < i ==> g@.players[j].id != pid@,
        decreases g.players@.len() - i,
    {
        if g.players[i].id == *pid {
            proof {
                assert(g@.players[i as int].id == pid@);
            }
            return true;
        }
        i += 1;
    }
    false
}

/// Some element of `s` is a game with id `id`.
pub open spec fn games_have_id(s: Seq<Game>, id: GameId) -> bool {
    exists|t: int| 0 <= t < s.len() && s[t]@.id == id
}

/// Every element of `s` is a game of `m`, stored under its own id.
pub open spec fn games_from(m: Map<GameId, GameView>, s: Seq<Game>) -> bool {
    forall|i: int|
        0 <= i < s.len() ==> m.contains_key((#[trigger] s[i])@.id) && m[s[i]@.id] == s[i]@
}

/// No two elements of `s` share a game id.
pub open spec fn game_ids_distinct(s: Seq<Game>) -> bool {
    forall|i: int, j: int| 0 <= i < j < s.len() ==> (#[trigger] s[i])@.id != (#[trigger] s[j])@.id
}

/// `s` is exactly the games of `m` whose status is `status`, each once.
pub open spec fn status_games_ok(
    m: Map<GameId, GameView>,
    status: GameStatus,
    s: Seq<Game>,
) -> bool {
    &&& games_from(m, s)
    &&& game_ids_distinct(s)
    &&& forall|i: int| 0 <= i < s.len() ==> (#[trigger] s[i])@.status == status
    &&& forall|k: GameId| #[trigger]
        m.contains_key(k) && m[k].status == status ==> games_have_id(s, k)
}

/// `s` is exactly the games of `m`, each once.
pub open spec fn all_games_ok(m: Map<GameId, GameView>, s: Seq<Game>) -> bool {
    &&& games_from(m, s)
    &&& game_ids_distinct(s)
    &&& forall|k: GameId| #[trigger] m.contains_key(k) ==> games_have_id(s, k)
}

/// `s` is exactly the games of `m` in which `pid` participates, each once.
pub open spec fn player_games_ok(m: Map<GameId, GameView>, pid: Seq<char>, s: Seq<Game>) -> bool {
    &&& games_from(m, s)
    &&& game_ids_distinct(s)
    &&& forall|i: int| 0 <= i < s.len() ==> crate::has_player((#[trigger] s[i])@.players, pid)
    &&& forall|k: GameId| #[trigger]
        m.contains_key(k) && crate::has_player(m[k].players, pid) ==> games_have_id(s, k)
}

/// `s` holds up to `limit` games of `m`, each once, ordered by creation time
/// descending; when games are left out, only older ones are.
pub open spec fn recent_games_ok(m: Map<GameId, GameView>, limit: usize, s: Seq<Game>) -> bool {
    &&& games_from(m, s)
    &&& game_ids_distinct(s)
    &&& forall|t1: int, t2: int|
        0 <= t1 <= t2 < s.len() ==> (#[trigger] s[t1])@.created_at >= (#[trigger] s[t2])@.created_at
    &&& s.len() <= limit
    &&& (s.len() == limit || forall|k: GameId| #[trigger] m.contains_key(k) ==> games_have_id(s, k))
    &&& s.len() > 0 ==> forall|k: GameId| #[trigger]
        m.contains_key(k) && !games_have_id(s, k) ==> m[k].created_at <= s[s.len() - 1]@.created_at
}

impl RankOrd for Game {
    /// Any game value may be ranked.
    open spec fn valid(self) -> bool {
        true
    }

    /// Most recently created first.
    open spec fn key_ge(a: Game, b: Game) -> bool {
        a@.created_at >= b@.created_at
    }

    proof fn lemma_total(a: Game, b: Game) {
    }

    proof fn lemma_trans(a: Game, b: Game, c: Game) {
    }

    fn ge(a: &Game, b: &Game) -> (r: bool) {
        a.created_at >= b.created_at
    }
}

} // verus!
