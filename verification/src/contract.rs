//! The mutating operation surface: dispatching one operation against the
//! application state with transactional discipline — every successful
//! operation flushes its buffered writes before its notification is produced,
//! and every failed one rolls them back, so the store never keeps a partially
//! applied operation.
use crate::state::{
    ensure_stats_row, stats_after_finish, stats_headroom, ApplicationState,
};
use crate::{
    has_player, joined_view, new_game_view, spec_make_move, symbol_of, Game, GameId, GameStatus,
    Message, Operation, PlayerId, Query, QueryResponse, TicTacToeError,
};
use vstd::prelude::*;

verus! {

/// The mutating entry point of the library.
pub struct TicTacToeContract;

/// The stores of `a` and `b` agree on both their committed and their visible
/// snapshots.
pub open spec fn stores_unchanged(a: &ApplicationState, b: &ApplicationState) -> bool {
    &&& a.games.committed() == b.games.committed()
    &&& a.player_stats.committed() == b.player_stats.committed()
    &&& a.next_game_id.committed() == b.next_game_id.committed()
    &&& a.games.visible() == b.games.visible()
    &&& a.player_stats.visible() == b.player_stats.visible()
    &&& a.next_game_id.visible() == b.next_game_id.visible()
}

impl TicTacToeContract {
    /// A position is playable exactly when it lies on the board.
    pub fn validate_position(position: usize) -> (r: Result<(), TicTacToeError>)
        ensures
            r == if position >= 9 {
                Err::<(), TicTacToeError>(TicTacToeError::InvalidPosition(position))
            } else {
                Ok::<(), TicTacToeError>(())
            },
    {
        if position >= 9 {
            Err(TicTacToeError::InvalidPosition(position))
        } else {
            Ok(())
        }
    }

    /// A player may move exactly when they participate in the game and hold
    /// the symbol whose turn it is.
    pub fn validate_player_turn(game: &Game, player_id: &PlayerId) -> (r: Result<
        (),
        TicTacToeError,
    >)
        requires
            game@.wf(),
        ensures
            r == if !has_player(game@.players, player_id@) {
                Err::<(), TicTacToeError>(TicTacToeError::PlayerNotInGame)
            } else if symbol_of(game@.players, player_id@) != game@.current_player {
                Err::<(), TicTacToeError>(TicTacToeError::NotYourTurn)
            } else {
                Ok::<(), TicTacToeError>(())
            },
    {
        let symbol = if game.players[0].id == *player_id {
            game.players[0].symbol
        } else if game.players.len() >= 2 && game.players[1].id == *player_id {
            game.players[1].symbol
        } else {
            proof {
                assert(!has_player(game@.players, player_id@));
            }
            return Err(TicTacToeError::PlayerNotInGame);
        };
        if symbol != game.current_player {
            return Err(TicTacToeError::NotYourTurn);
        }
        Ok(())
    }

    /// Execute one operation transactionally: apply it to the state, flush on
    /// success and hand back the notification, or roll back on failure and
    /// hand back the precise game-rule error — afterwards nothing is buffered
    /// either way.
    pub fn execute_operation(
        &mut self,
        state: &mut ApplicationState,
        operation: Operation,
        timestamp: u64,
    ) -> (r: Result<Message, TicTacToeError>)
        requires
            old(state).inv(),
            old(state).synced(),
            old(state).next_game_id.visible() < GameId::MAX,
            stats_headroom(old(state).player_stats.visible()),
        ensures
            final(state).inv(),
            final(state).synced(),
            final(state).games.visible() == final(state).games.committed(),
            final(state).player_stats.visible() == final(state).player_stats.committed(),
            final(state).next_game_id.visible() == final(state).next_game_id.committed(),
            match operation {
                Operation::CreateGame { player_id, player_name } => {
                    let id = old(state).next_game_id.visible();
                    r matches Ok(Message::GameUpdate { game_id, game }) && game_id == id && game@
                        == new_game_view(id, player_id@, player_name@, timestamp) && final(state).games.committed() == old(state).games.committed().insert(
                        id,
                        new_game_view(id, player_id@, player_name@, timestamp),
                    ) && final(state).player_stats.committed() == ensure_stats_row(
                        old(state).player_stats.committed(),
                        player_id@,
                    ) && final(state).next_game_id.committed() == id + 1
                },
                Operation::JoinGame { game_id, player_id, player_name } => {
                    let m = old(state).games.committed();
                    if !m.contains_key(game_id) {
                        r == Err::<Message, TicTacToeError>(TicTacToeError::GameNotFound)
                            && stores_unchanged(final(state), old(state))
                    } else if m[game_id].players.len() == 2 {
                        r == Err::<Message, TicTacToeError>(TicTacToeError::GameFull)
                            && stores_unchanged(final(state), old(state))
                    } else {
                        let g2 = joined_view(m[game_id], player_id@, player_name@);
                        r matches Ok(Message::GameUpdate { game_id: gid, game }) && gid == game_id
                            && game@ == g2 && final(state).games.committed() == m.insert(
                            game_id,
                            g2,
                        ) && final(state).player_stats.committed() == ensure_stats_row(
                            old(state).player_stats.committed(),
                            player_id@,
                        ) && final(state).next_game_id.committed() == old(state).next_game_id.committed()
                    }
                },
                Operation::MakeMove { game_id, player_id, position } => {
                    let m = old(state).games.committed();
                    if !m.contains_key(game_id) {
                        r == Err::<Message, TicTacToeError>(TicTacToeError::GameNotFound)
                            && stores_unchanged(final(state), old(state))
                    } else {
                        match spec_make_move(m[game_id], player_id@, position, timestamp) {
                            Err(e) => r == Err::<Message, TicTacToeError>(e) && stores_unchanged(
                                final(state),
                                old(state),
                            ),
                            Ok(g2) => r matches Ok(Message::GameUpdate { game_id: gid, game })
                                && gid == game_id && game@ == g2 && final(state).games.committed()
                                == m.insert(game_id, g2) && final(state).player_stats.committed()
                                == (if g2.status == GameStatus::Finished {
                                stats_after_finish(old(state).player_stats.committed(), g2)
                            } else {
                                old(state).player_stats.committed()
                            }) && final(state).next_game_id.committed() == old(state).next_game_id.committed(),
                        }
                    }
                },
            },
    {
        proof {
            state.games.lemma_synced_visible();
            state.player_stats.lemma_synced_visible();
            state.next_game_id.lemma_synced_visible();
        }
        match operation {
            Operation::CreateGame { player_id, player_name } => {
                let game_id = state.create_game(player_id, player_name, timestamp);
                let game = match state.get_game(game_id) {
                    Some(g) => g,
                    None => {
                        proof {
                            assert(false);
                        }
                        return Err(TicTacToeError::GameNotFound);
                    },
                };
                state.flush();
                Ok(Message::GameUpdate { game_id, game })
            },
            Operation::JoinGame { game_id, player_id, player_name } => {
                match state.join_game(game_id, player_id, player_name) {
                    Ok(()) => {},
                    Err(e) => {
                        state.rollback();
                        return Err(e);
                    },
                }
                let game = match state.get_game(game_id) {
                    Some(g) => g,
                    None => {
                        proof {
                            assert(false);
                        }
                        return Err(TicTacToeError::GameNotFound);
                    },
                };
                state.flush();
                Ok(Message::GameUpdate { game_id, game })
            },
            Operation::MakeMove { game_id, player_id, position } => {
                let game = match state.make_move(game_id, player_id, position, timestamp) {
                    Ok(g) => g,
                    Err(e) => {
                        state.rollback();
                        return Err(e);
                    },
                };
                state.flush();
                Ok(Message::GameUpdate { game_id, game })
            },
        }
    }
}

/// The read-only query surface of the basic contract interface.
pub struct TicTacToeService;

impl TicTacToeService {
    /// Answer one basic query against the most recently flushed snapshot;
    /// never fails.
    pub fn handle_query(&self, state: &ApplicationState, query: Query) -> (r: Result<
        QueryResponse,
        String,
    >)
        requires
            state.inv(),
            state.synced(),
        ensures
            r is Ok,
            crate::service::basic_response_ok(
                state.games.committed(),
                state.player_stats.committed(),
                query,
                r->Ok_0,
            ),
    {
        proof {
            state.games.lemma_synced_visible();
            state.player_stats.lemma_synced_visible();
        }
        match query {
            Query::GetGame { game_id } => Ok(QueryResponse::Game(state.get_game(game_id))),
            Query::GetAllGames => Ok(QueryResponse::Games(state.get_all_games())),
            Query::GetPlayerStats { player_id } => Ok(
                QueryResponse::PlayerStats(state.get_player_stats(&player_id)),
            ),
        }
    }
}

} // verus!
