use tic_tac_toe::contract::TicTacToeContract;
use tic_tac_toe::service::{
    ExtendedQuery, ExtendedQueryResponse, GameStatistics, TicTacToeService,
};
use tic_tac_toe::state::ApplicationState;
use tic_tac_toe::{
    Game, GameStatus, Message, Operation, Player, PlayerStats, Query, QueryResponse,
    TicTacToeError,
};

/// Test helper to create a mock timestamp (microseconds from seconds).
fn mock_timestamp(seconds: u64) -> u64 {
    seconds * 1_000_000
}

#[test]
fn test_validate_position() {
    assert!(TicTacToeContract::validate_position(0).is_ok());
    assert!(TicTacToeContract::validate_position(8).is_ok());
    assert!(TicTacToeContract::validate_position(9).is_err());
    assert!(TicTacToeContract::validate_position(100).is_err());
}

#[test]
fn contract_test_game_creation() {
    let game = Game::new(1, "player1".to_string(), "Player One".to_string(), 0);

    assert_eq!(game.id, 1);
    assert_eq!(game.players.len(), 1);
    assert_eq!(game.status, GameStatus::WaitingForPlayer);
    assert_eq!(game.current_player, Player::X);
}

#[test]
fn test_leaderboard_generation() {
    let mut state = ApplicationState::new();
    state.player_stats.insert(
        "player1".to_string(),
        PlayerStats { games_played: 10, wins: 8, losses: 2, draws: 0 },
    );
    state.player_stats.insert(
        "player2".to_string(),
        PlayerStats { games_played: 5, wins: 3, losses: 2, draws: 0 },
    );
    state.flush();
    let service = TicTacToeService::new(state);

    let entries = service.generate_leaderboard(10);

    assert_eq!(entries[0].player_id, "player1");
    assert_eq!(entries[1].player_id, "player2");
    assert_eq!(entries[0].rank, 1);
    assert_eq!(entries[1].rank, 2);
}

#[test]
fn test_statistics_calculation() {
    let stats = GameStatistics {
        total_games: 100,
        active_games: 10,
        completed_games: 90,
        total_players: 50,
        average_game_duration_micros: Some(120_500_000),
    };

    assert_eq!(stats.total_games, 100);
    assert_eq!(stats.active_games, 10);
    assert_eq!(stats.completed_games, 90);
    assert_eq!(stats.total_players, 50);
    assert!(stats.average_game_duration_micros.is_some());
}

/// Creating a game leaves it waiting for a player, with the creator as X and
/// an empty board, and a waiting-games query finds exactly that game.
#[test]
fn test_create_then_waiting_query() {
    let mut state = ApplicationState::new();
    let id = state.create_game("p1".to_string(), "Alice".to_string(), mock_timestamp(1));
    state.flush();
    assert_eq!(id, 0);

    let game = state.get_game(id).unwrap();
    assert_eq!(game.status, GameStatus::WaitingForPlayer);
    assert_eq!(game.players.len(), 1);
    assert_eq!(game.players[0].symbol, Player::X);
    assert!(game.board.iter().all(|&cell| cell.is_none()));

    let waiting = state.get_games_by_status(GameStatus::WaitingForPlayer);
    assert_eq!(waiting.len(), 1);
    assert_eq!(waiting[0].id, id);

    // Joining flips the game out of the waiting set.
    state.join_game(id, "p2".to_string(), "Bob".to_string()).unwrap();
    state.flush();
    let game = state.get_game(id).unwrap();
    assert_eq!(game.status, GameStatus::InProgress);
    assert_eq!(game.players.len(), 2);
    assert_eq!(game.players[1].symbol, Player::O);
    assert_eq!(state.get_games_by_status(GameStatus::WaitingForPlayer).len(), 0);
}

/// A won game updates both participants' statistics exactly once.
#[test]
fn test_win_updates_stats() {
    let mut state = ApplicationState::new();
    let id = state.create_game("p1".to_string(), "Alice".to_string(), mock_timestamp(1));
    state.join_game(id, "p2".to_string(), "Bob".to_string()).unwrap();
    for (player, pos, t) in [("p1", 0, 2), ("p2", 3, 3), ("p1", 1, 4), ("p2", 4, 5)] {
        state.make_move(id, player.to_string(), pos, mock_timestamp(t)).unwrap();
    }
    let game = state.make_move(id, "p1".to_string(), 2, mock_timestamp(6)).unwrap();
    state.flush();

    assert_eq!(game.status, GameStatus::Finished);
    assert_eq!(game.winner, Some(Player::X));
    assert!(game.finished_at.is_some());

    let s1 = state.get_player_stats(&"p1".to_string());
    let s2 = state.get_player_stats(&"p2".to_string());
    assert_eq!((s1.games_played, s1.wins, s1.losses, s1.draws), (1, 1, 0, 0));
    assert_eq!((s2.games_played, s2.wins, s2.losses, s2.draws), (1, 0, 1, 0));
}

/// A drawn game records a draw for both participants.
#[test]
fn test_draw_updates_stats() {
    let mut state = ApplicationState::new();
    let id = state.create_game("p1".to_string(), "Alice".to_string(), mock_timestamp(1));
    state.join_game(id, "p2".to_string(), "Bob".to_string()).unwrap();
    let moves = [
        ("p1", 0),
        ("p2", 4),
        ("p1", 8),
        ("p2", 2),
        ("p1", 6),
        ("p2", 3),
        ("p1", 5),
        ("p2", 7),
        ("p1", 1),
    ];
    let mut last = None;
    for (i, (player, pos)) in moves.iter().enumerate() {
        last = Some(
            state.make_move(id, player.to_string(), *pos, mock_timestamp(i as u64 + 2)).unwrap(),
        );
    }
    state.flush();
    let game = last.unwrap();
    assert_eq!(game.status, GameStatus::Finished);
    assert_eq!(game.winner, None);

    let s1 = state.get_player_stats(&"p1".to_string());
    let s2 = state.get_player_stats(&"p2".to_string());
    assert_eq!((s1.games_played, s1.wins, s1.losses, s1.draws), (1, 0, 0, 1));
    assert_eq!((s2.games_played, s2.wins, s2.losses, s2.draws), (1, 0, 0, 1));
}

/// A failed move changes neither the game nor anyone's statistics.
#[test]
fn test_failed_move_changes_nothing() {
    let mut state = ApplicationState::new();
    let id = state.create_game("p1".to_string(), "Alice".to_string(), mock_timestamp(1));
    state.join_game(id, "p2".to_string(), "Bob".to_string()).unwrap();
    state.flush();

    assert!(matches!(
        state.make_move(99, "p1".to_string(), 0, mock_timestamp(2)),
        Err(TicTacToeError::GameNotFound)
    ));
    assert!(matches!(
        state.make_move(id, "p1".to_string(), 42, mock_timestamp(2)),
        Err(TicTacToeError::InvalidPosition(42))
    ));
    assert!(matches!(
        state.make_move(id, "p2".to_string(), 0, mock_timestamp(2)),
        Err(TicTacToeError::NotYourTurn)
    ));
    assert!(matches!(
        state.make_move(id, "nobody".to_string(), 0, mock_timestamp(2)),
        Err(TicTacToeError::PlayerNotInGame)
    ));

    let game = state.get_game(id).unwrap();
    assert!(game.board.iter().all(|&cell| cell.is_none()));
    assert_eq!(game.current_player, Player::X);
    assert_eq!(state.get_player_stats(&"p1".to_string()).games_played, 0);
}

/// Recent games come newest first and honour the limit.
#[test]
fn test_recent_games_order() {
    let mut state = ApplicationState::new();
    state.create_game("a".to_string(), "A".to_string(), mock_timestamp(10));
    state.create_game("b".to_string(), "B".to_string(), mock_timestamp(30));
    state.create_game("c".to_string(), "C".to_string(), mock_timestamp(20));
    state.flush();

    let recent = state.get_recent_games(2);
    assert_eq!(recent.len(), 2);
    assert_eq!(recent[0].created_at, mock_timestamp(30));
    assert_eq!(recent[1].created_at, mock_timestamp(20));

    let all_recent = state.get_recent_games(10);
    assert_eq!(all_recent.len(), 3);
    assert_eq!(all_recent[2].created_at, mock_timestamp(10));
}

/// The games of one player are exactly the ones they participate in.
#[test]
fn test_player_games_filter() {
    let mut state = ApplicationState::new();
    let g1 = state.create_game("p1".to_string(), "Alice".to_string(), mock_timestamp(1));
    let g2 = state.create_game("p2".to_string(), "Bob".to_string(), mock_timestamp(2));
    state.join_game(g2, "p1".to_string(), "Alice".to_string()).unwrap();
    state.create_game("p3".to_string(), "Carol".to_string(), mock_timestamp(3));
    state.flush();

    let mut ids: Vec<u64> = state.get_player_games(&"p1".to_string()).iter().map(|g| g.id).collect();
    ids.sort();
    assert_eq!(ids, vec![g1, g2]);
    assert_eq!(state.get_player_games(&"nobody".to_string()).len(), 0);
}

/// Search is case-insensitive over participant display names.
#[test]
fn test_search_case_insensitive() {
    let mut state = ApplicationState::new();
    let g1 = state.create_game("p1".to_string(), "alice".to_string(), mock_timestamp(1));
    state.create_game("p2".to_string(), "Bob".to_string(), mock_timestamp(2));
    state.flush();
    let service = TicTacToeService::new(state);

    let found = service.search_games_by_player_name("ALICE");
    assert_eq!(found.len(), 1);
    assert_eq!(found[0].id, g1);

    let found = service.search_games_by_player_name("li");
    assert_eq!(found.len(), 1);

    let found = service.search_games_by_player_name("zz");
    assert_eq!(found.len(), 0);
}

/// Top winners lists only players with wins, ordered by raw win count.
#[test]
fn test_top_winners_order() {
    let mut state = ApplicationState::new();
    state.player_stats.insert(
        "few".to_string(),
        PlayerStats { games_played: 10, wins: 2, losses: 8, draws: 0 },
    );
    state.player_stats.insert(
        "many".to_string(),
        PlayerStats { games_played: 20, wins: 9, losses: 11, draws: 0 },
    );
    state.player_stats.insert(
        "none".to_string(),
        PlayerStats { games_played: 4, wins: 0, losses: 4, draws: 0 },
    );
    state.flush();
    let service = TicTacToeService::new(state);

    let winners = service.get_top_winners(10);
    assert_eq!(winners.len(), 2);
    assert_eq!(winners[0].player_id, "many");
    assert_eq!(winners[0].rank, 1);
    assert_eq!(winners[1].player_id, "few");
    assert_eq!(winners[1].rank, 2);
}

/// Statistics over two games: one finished with a known duration, one open.
#[test]
fn test_statistics_counts_and_duration() {
    let mut state = ApplicationState::new();
    let id = state.create_game("p1".to_string(), "Alice".to_string(), mock_timestamp(1));
    state.join_game(id, "p2".to_string(), "Bob".to_string()).unwrap();
    for (player, pos, t) in
        [("p1", 0, 2), ("p2", 3, 3), ("p1", 1, 4), ("p2", 4, 5), ("p1", 2, 6)] {
        state.make_move(id, player.to_string(), pos, mock_timestamp(t)).unwrap();
    }
    state.create_game("p3".to_string(), "Carol".to_string(), mock_timestamp(7));
    state.flush();
    let service = TicTacToeService::new(state);

    let stats = service.generate_statistics();
    assert_eq!(stats.total_games, 2);
    assert_eq!(stats.active_games, 1);
    assert_eq!(stats.completed_games, 1);
    assert_eq!(stats.total_players, 3);
    // Created at second 1, finished at second 6.
    assert_eq!(stats.average_game_duration_micros, Some(5_000_000));
}

/// The operation dispatcher flushes successful operations and rolls back
/// failed ones, answering with the precise error.
#[test]
fn test_execute_operation_transactions() {
    let mut contract = TicTacToeContract;
    let mut state = ApplicationState::new();

    let msg = contract
        .execute_operation(
            &mut state,
            Operation::CreateGame { player_id: "p1".to_string(), player_name: "Alice".to_string() },
            mock_timestamp(1),
        )
        .unwrap();
    let Message::GameUpdate { game_id, game } = msg;
    assert_eq!(game_id, 0);
    assert_eq!(game.status, GameStatus::WaitingForPlayer);

    let err = contract.execute_operation(
        &mut state,
        Operation::JoinGame {
            game_id: 7,
            player_id: "p2".to_string(),
            player_name: "Bob".to_string(),
        },
        mock_timestamp(2),
    );
    assert!(matches!(err, Err(TicTacToeError::GameNotFound)));

    contract
        .execute_operation(
            &mut state,
            Operation::JoinGame {
                game_id,
                player_id: "p2".to_string(),
                player_name: "Bob".to_string(),
            },
            mock_timestamp(3),
        )
        .unwrap();

    let err = contract.execute_operation(
        &mut state,
        Operation::MakeMove { game_id, player_id: "p2".to_string(), position: 0 },
        mock_timestamp(4),
    );
    assert!(matches!(err, Err(TicTacToeError::NotYourTurn)));

    let msg = contract
        .execute_operation(
            &mut state,
            Operation::MakeMove { game_id, player_id: "p1".to_string(), position: 4 },
            mock_timestamp(5),
        )
        .unwrap();
    let Message::GameUpdate { game, .. } = msg;
    assert_eq!(game.board[4], Some(Player::X));
    assert_eq!(game.current_player, Player::O);
}

/// Basic and extended queries answer from the flushed snapshot.
#[test]
fn test_query_surfaces() {
    let mut state = ApplicationState::new();
    let id = state.create_game("p1".to_string(), "Alice".to_string(), mock_timestamp(1));
    state.flush();

    let basic = tic_tac_toe::contract::TicTacToeService;
    match basic.handle_query(&state, Query::GetGame { game_id: id }).unwrap() {
        QueryResponse::Game(Some(game)) => assert_eq!(game.id, id),
        _ => panic!("expected the stored game"),
    }
    match basic.handle_query(&state, Query::GetAllGames).unwrap() {
        QueryResponse::Games(games) => assert_eq!(games.len(), 1),
        _ => panic!("expected the game list"),
    }

    let service = TicTacToeService::new(state);
    match service
        .handle_query(ExtendedQuery::GetGamesByStatus { status: GameStatus::WaitingForPlayer })
        .unwrap()
    {
        ExtendedQueryResponse::Games(games) => assert_eq!(games.len(), 1),
        _ => panic!("expected the waiting games"),
    }
    match service.handle_query(ExtendedQuery::GetGameStatistics).unwrap() {
        ExtendedQueryResponse::Statistics(stats) => {
            assert_eq!(stats.total_games, 1);
            assert_eq!(stats.average_game_duration_micros, None);
        },
        _ => panic!("expected statistics"),
    }
}

/// Rollback discards buffered writes; flush makes them durable; joining a
/// full game fails.
#[test]
fn test_rollback_and_full_game() {
    let mut state = ApplicationState::new();
    state.create_game("p1".to_string(), "Alice".to_string(), mock_timestamp(1));
    state.rollback();
    assert!(state.get_game(0).is_none());

    let id = state.create_game("p1".to_string(), "Alice".to_string(), mock_timestamp(2));
    state.flush();
    state.join_game(id, "p2".to_string(), "Bob".to_string()).unwrap();
    state.flush();
    let err = state.join_game(id, "p3".to_string(), "Carol".to_string());
    assert!(matches!(err, Err(TicTacToeError::GameFull)));

    let stats = state.get_player_stats(&"p3".to_string());
    assert_eq!(stats.games_played, 0);
}

/// Joinable, active and completed views partition the games by status.
#[test]
fn test_status_views() {
    let mut state = ApplicationState::new();
    state.create_game("p1".to_string(), "Alice".to_string(), mock_timestamp(1));
    let g2 = state.create_game("p2".to_string(), "Bob".to_string(), mock_timestamp(2));
    state.join_game(g2, "p3".to_string(), "Carol".to_string()).unwrap();
    state.flush();
    let service = TicTacToeService::new(state);

    assert_eq!(service.get_joinable_games().len(), 1);
    assert_eq!(service.get_active_games().len(), 1);
    assert_eq!(service.get_completed_games().len(), 0);
}

/// The turn validator distinguishes strangers from out-of-turn participants.
#[test]
fn test_validate_player_turn() {
    let mut game = Game::new(1, "p1".to_string(), "Alice".to_string(), mock_timestamp(1));
    game.add_player("p2".to_string(), "Bob".to_string()).unwrap();

    assert!(TicTacToeContract::validate_player_turn(&game, &"p1".to_string()).is_ok());
    assert!(matches!(
        TicTacToeContract::validate_player_turn(&game, &"p2".to_string()),
        Err(TicTacToeError::NotYourTurn)
    ));
    assert!(matches!(
        TicTacToeContract::validate_player_turn(&game, &"zoe".to_string()),
        Err(TicTacToeError::PlayerNotInGame)
    ));
}
