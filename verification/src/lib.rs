//! Turn-based two-player game ledger: a tic-tac-toe state machine, a
//! transactional key-value store abstraction, an orchestration layer that
//! persists games and player statistics, and read-only derived views
//! (leaderboards, aggregate statistics).
use vstd::prelude::*;

pub mod contract;
pub mod ranking;
pub mod service;
pub mod state;
pub mod store;

verus! {

/// Unique identifier for a game.
pub type GameId = u64;

/// Unique identifier for a player.
pub type PlayerId = String;

/// The X/O marker a player places on the board.
#[derive(Clone, Copy, Debug, PartialEq, Eq, Structural)]
pub enum Player {
    X,
    O,
}

/// Current status of a game.
#[derive(Clone, Copy, Debug, PartialEq, Eq, Structural)]
pub enum GameStatus {
    WaitingForPlayer,
    InProgress,
    Finished,
}

/// Information about a participant of one game. Immutable once assigned.
#[derive(Debug)]
pub struct PlayerInfo {
    pub id: PlayerId,
    pub name: String,
    pub symbol: Player,
}

/// Mathematical model of a `PlayerInfo`.
#[verifier::ext_equal]
pub ghost struct PlayerInfoView {
    pub id: Seq<char>,
    pub name: Seq<char>,
    pub symbol: Player,
}

impl View for PlayerInfo {
    type V = PlayerInfoView;

    open spec fn view(&self) -> PlayerInfoView {
        PlayerInfoView { id: self.id@, name: self.name@, symbol: self.symbol }
    }
}

/// One game: a 9-cell board, its participants, and its lifecycle state.
#[derive(Debug)]
pub struct Game {
    pub id: GameId,
    pub board: [Option<Player>; 9],
    pub current_player: Player,
    pub status: GameStatus,
    pub players: Vec<PlayerInfo>,
    pub winner: Option<Player>,
    /// Host-supplied creation time, in microseconds.
    pub created_at: u64,
    /// Host-supplied finish time, in microseconds; set exactly when the game ends.
    pub finished_at: Option<u64>,
}

/// Mathematical model of a `Game`.
#[verifier::ext_equal]
pub ghost struct GameView {
    pub id: GameId,
    pub board: Seq<Option<Player>>,
    pub current_player: Player,
    pub status: GameStatus,
    pub players: Seq<PlayerInfoView>,
    pub winner: Option<Player>,
    pub created_at: u64,
    pub finished_at: Option<u64>,
}

impl View for Game {
    type V = GameView;

    open spec fn view(&self) -> GameView {
        GameView {
            id: self.id,
            board: self.board@,
            current_player: self.current_player,
            status: self.status,
            players: self.players@.map_values(|p: PlayerInfo| p@),
            winner: self.winner,
            created_at: self.created_at,
            finished_at: self.finished_at,
        }
    }
}

/// The symbol that moves after `p`.
pub open spec fn flip(p: Player) -> Player {
    match p {
        Player::X => Player::O,
        Player::O => Player::X,
    }
}

/// All nine cells of `b` hold the mark `p` at positions `i`, `j`, `k`.
pub open spec fn triple_of(b: Seq<Option<Player>>, p: Player, i: int, j: int, k: int) -> bool {
    b[i] == Some(p) && b[j] == Some(p) && b[k] == Some(p)
}

/// `p` holds one of the 8 winning triples (3 rows, 3 columns, 2 diagonals).
pub open spec fn is_winner(b: Seq<Option<Player>>, p: Player) -> bool {
    ||| triple_of(b, p, 0, 1, 2)
    ||| triple_of(b, p, 3, 4, 5)
    ||| triple_of(b, p, 6, 7, 8)
    ||| triple_of(b, p, 0, 3, 6)
    ||| triple_of(b, p, 1, 4, 7)
    ||| triple_of(b, p, 2, 5, 8)
    ||| triple_of(b, p, 0, 4, 8)
    ||| triple_of(b, p, 2, 4, 6)
}

/// Every cell of the board is occupied.
pub open spec fn board_full(b: Seq<Option<Player>>) -> bool {
    forall|i: int| 0 <= i < 9 ==> b[i] is Some
}

/// The winner of board `b`, if any; X is examined first.
pub open spec fn spec_winner(b: Seq<Option<Player>>) -> Option<Player> {
    if is_winner(b, Player::X) {
        Some(Player::X)
    } else if is_winner(b, Player::O) {
        Some(Player::O)
    } else {
        None
    }
}

/// A board with every cell empty.
pub open spec fn empty_board() -> Seq<Option<Player>> {
    Seq::new(9, |i: int| None::<Player>)
}

/// Some participant of `players` carries the identity `id`.
pub open spec fn has_player(players: Seq<PlayerInfoView>, id: Seq<char>) -> bool {
    exists|i: int| 0 <= i < players.len() && players[i].id == id
}

/// The symbol of the first participant of `players` whose identity is `id`
/// (meaningful only when `has_player(players, id)` holds).
pub open spec fn symbol_of(players: Seq<PlayerInfoView>, id: Seq<char>) -> Player {
    if players.len() > 0 && players[0].id == id {
        players[0].symbol
    } else if players.len() > 1 && players[1].id == id {
        players[1].symbol
    } else {
        Player::X
    }
}

impl GameView {
    /// Well-formedness of a game value. Constructors establish it and every
    /// transition preserves it: one or two players, the creator marked X and
    /// the joiner O, the status tied to the player count, the winner and the
    /// finish time tied to the Finished status, and no winning triple on the
    /// board of an unfinished game.
    pub open spec fn wf(self) -> bool {
        &&& self.board.len() == 9
        &&& 1 <= self.players.len() <= 2
        &&& self.players[0].symbol == Player::X
        &&& self.players.len() == 2 ==> self.players[1].symbol == Player::O
        &&& (self.status == GameStatus::WaitingForPlayer <==> self.players.len() == 1)
        &&& self.winner is Some ==> self.status == GameStatus::Finished
        &&& (self.finished_at is Some <==> self.status == GameStatus::Finished)
        &&& self.status == GameStatus::WaitingForPlayer ==> self.board =~= empty_board()
        &&& self.status != GameStatus::Finished ==> spec_winner(self.board) is None
    }
}

/// The game that `Game::new` constructs.
pub open spec fn new_game_view(
    id: GameId,
    player_id: Seq<char>,
    player_name: Seq<char>,
    created_at: u64,
) -> GameView {
    GameView {
        id: id,
        board: empty_board(),
        current_player: Player::X,
        status: GameStatus::WaitingForPlayer,
        players: seq![PlayerInfoView { id: player_id, name: player_name, symbol: Player::X }],
        winner: None,
        created_at: created_at,
        finished_at: None,
    }
}

/// Closed tagged error catalog: one constructor per way an operation can be
/// rejected; the store itself never fails.
#[derive(Clone, Copy, Debug, PartialEq, Eq, Structural)]
pub enum TicTacToeError {
    GameNotFound,
    GameFull,
    /// The target position is already occupied.
    InvalidMove(usize),
    NotYourTurn,
    GameNotInProgress,
    PlayerNotInGame,
    /// The position lies outside the board.
    InvalidPosition(usize),
}

/// Result of a finished game from one participant's point of view.
#[derive(Clone, Copy, Debug, PartialEq, Eq, Structural)]
pub enum GameResult {
    Win,
    Loss,
    Draw,
}

/// The game that a successful `add_player` yields: the joiner appended with
/// symbol O and the status advanced to InProgress.
pub open spec fn joined_view(g: GameView, id: Seq<char>, name: Seq<char>) -> GameView {
    GameView {
        status: GameStatus::InProgress,
        players: g.players.push(PlayerInfoView { id: id, name: name, symbol: Player::O }),
        ..g
    }
}

/// The game that a successful move at `pos` yields: the mover's mark placed,
/// then either a win, a draw on a full board, or the turn passed on.
pub open spec fn apply_move(g: GameView, pos: usize, timestamp: u64) -> GameView {
    let b2 = g.board.update(pos as int, Some(g.current_player));
    if is_winner(b2, g.current_player) {
        GameView {
            board: b2,
            winner: Some(g.current_player),
            status: GameStatus::Finished,
            finished_at: Some(timestamp),
            ..g
        }
    } else if board_full(b2) {
        GameView { board: b2, status: GameStatus::Finished, finished_at: Some(timestamp), ..g }
    } else {
        GameView { board: b2, current_player: flip(g.current_player), ..g }
    }
}

/// The complete transition relation of `Game::make_move`: the five
/// validations, each short-circuiting the next, then the applied move.
pub open spec fn spec_make_move(
    g: GameView,
    player_id: Seq<char>,
    pos: usize,
    timestamp: u64,
) -> Result<GameView, TicTacToeError> {
    if pos >= 9 {
        Err(TicTacToeError::InvalidPosition(pos))
    } else if g.status != GameStatus::InProgress {
        Err(TicTacToeError::GameNotInProgress)
    } else if g.board[pos as int] is Some {
        Err(TicTacToeError::InvalidMove(pos))
    } else if !has_player(g.players, player_id) {
        Err(TicTacToeError::PlayerNotInGame)
    } else if symbol_of(g.players, player_id) != g.current_player {
        Err(TicTacToeError::NotYourTurn)
    } else {
        Ok(apply_move(g, pos, timestamp))
    }
}

impl Clone for PlayerInfo {
    /// Cloning keeps the participant's identity, name and symbol.
    fn clone(&self) -> (res: Self)
        ensures
            res == *self,
    {
        PlayerInfo { id: self.id.clone(), name: self.name.clone(), symbol: self.symbol }
    }
}

impl Clone for Game {
    /// Cloning keeps the whole game state.
    fn clone(&self) -> (res: Self)
        ensures
            res@ == self@,
    {
        let mut players: Vec<PlayerInfo> = Vec::new();
        let mut i: usize = 0;
        while i < self.players.len()
            invariant
                0 <= i <= self.players.len(),
                players@.len() == i,
                forall|j: int| 0 <= j < i ==> players@[j] == self.players@[j],
            decreases self.players.len() - i,
        {
            players.push(self.players[i].clone());
            i += 1;
        }
        let res = Game {
            id: self.id,
            board: self.board,
            current_player: self.current_player,
            status: self.status,
            players,
            winner: self.winner,
            created_at: self.created_at,
            finished_at: self.finished_at,
        };
        proof {
            assert(res.players@ =~= self.players@);
            assert(res@ =~= self@);
        }
        res
    }
}

impl Game {
    /// Create a new game whose single participant is the creator, marked X.
    pub fn new(id: GameId, player_id: PlayerId, player_name: String, created_at: u64) -> (g: Game)
        ensures
            g@ == new_game_view(id, player_id@, player_name@, created_at),
            g@.wf(),
    {
        let player_info = PlayerInfo { id: player_id, name: player_name, symbol: Player::X };
        let g = Game {
            id,
            board: [None, None, None, None, None, None, None, None, None],
            current_player: Player::X,
            status: GameStatus::WaitingForPlayer,
            players: vec![player_info],
            winner: None,
            created_at,
            finished_at: None,
        };
        proof {
            assert(g.board@ =~= empty_board());
            assert(g.players@.map_values(|p: PlayerInfo| p@) =~= new_game_view(
                id,
                player_id@,
                player_name@,
                created_at,
            ).players);
            assert(g@ =~= new_game_view(id, player_id@, player_name@, created_at));
        }
        g
    }

    /// Add the second player, marked O; fails with `GameFull` once two
    /// participants are present, leaving the game untouched.
    pub fn add_player(&mut self, player_id: PlayerId, player_name: String) -> (r: Result<
        (),
        TicTacToeError,
    >)
        requires
            old(self)@.wf(),
        ensures
            final(self)@.wf(),
            old(self)@.players.len() == 2 ==> r == Err::<(), TicTacToeError>(
                TicTacToeError::GameFull,
            ) && final(self)@ == old(self)@,
            old(self)@.players.len() == 1 ==> r == Ok::<(), TicTacToeError>(()) && final(self)@
                == joined_view(old(self)@, player_id@, player_name@),
    {
        if self.players.len() >= 2 {
            return Err(TicTacToeError::GameFull);
        }
        let player_info = PlayerInfo { id: player_id, name: player_name, symbol: Player::O };
        self.players.push(player_info);
        self.status = GameStatus::InProgress;
        proof {
            assert(self@.players =~= joined_view(old(self)@, player_id@, player_name@).players);
            assert(self@ =~= joined_view(old(self)@, player_id@, player_name@));
        }
        Ok(())
    }

    /// Apply one move: validate the position, the game's status, the target
    /// cell, the mover's membership and the mover's turn, in that order; then
    /// place the mark and finish the game on a win or a full board, or pass
    /// the turn on. The whole transition is `spec_make_move`.
    pub fn make_move(&mut self, player_id: &PlayerId, position: usize, timestamp: u64) -> (r:
        Result<(), TicTacToeError>)
        requires
            old(self)@.wf(),
        ensures
            final(self)@.wf(),
            match spec_make_move(old(self)@, player_id@, position, timestamp) {
                Ok(g2) => r == Ok::<(), TicTacToeError>(()) && final(self)@ == g2,
                Err(e) => r == Err::<(), TicTacToeError>(e) && final(self)@ == old(self)@,
            },
    {
        if position >= 9 {
            return Err(TicTacToeError::InvalidPosition(position));
        }
        if self.status != GameStatus::InProgress {
            return Err(TicTacToeError::GameNotInProgress);
        }
        if self.board[position].is_some() {
            return Err(TicTacToeError::InvalidMove(position));
        }
        // An in-progress game holds exactly two participants.
        let symbol: Player = if self.players[0].id == *player_id {
            self.players[0].symbol
        } else if self.players[1].id == *player_id {
            self.players[1].symbol
        } else {
            proof {
                assert(!has_player(self@.players, player_id@));
            }
            return Err(TicTacToeError::PlayerNotInGame);
        };
        if symbol != self.current_player {
            return Err(TicTacToeError::NotYourTurn);
        }
        self.board[position] = Some(self.current_player);
        proof {
            // The move placed the mover's own mark, so the opponent cannot
            // have gained a winning triple.
            assert(!is_winner(self.board@, flip(old(self)@.current_player)));
        }
        match self.check_winner() {
            Some(w) => {
                self.winner = Some(w);
                self.status = GameStatus::Finished;
                self.finished_at = Some(timestamp);
            },
            None => {
                if self.is_board_full() {
                    self.status = GameStatus::Finished;
                    self.finished_at = Some(timestamp);
                } else {
                    self.current_player = match self.current_player {
                        Player::X => Player::O,
                        Player::O => Player::X,
                    };
                }
            },
        }
        proof {
            assert(self@ =~= apply_move(old(self)@, position, timestamp));
        }
        Ok(())
    }

    /// The winner of the current board, if any.
    fn check_winner(&self) -> (r: Option<Player>)
        ensures
            r == spec_winner(self.board@),
    {
        if Self::has_triple(&self.board, Player::X) {
            Some(Player::X)
        } else if Self::has_triple(&self.board, Player::O) {
            Some(Player::O)
        } else {
            None
        }
    }

    /// Whether `p` holds one of the 8 winning triples on `b`.
    fn has_triple(b: &[Option<Player>; 9], p: Player) -> (r: bool)
        ensures
            r == is_winner(b@, p),
    {
        (Self::cell_is(b, 0, p) && Self::cell_is(b, 1, p) && Self::cell_is(b, 2, p)) || (
        Self::cell_is(b, 3, p) && Self::cell_is(b, 4, p) && Self::cell_is(b, 5, p)) || (
        Self::cell_is(b, 6, p) && Self::cell_is(b, 7, p) && Self::cell_is(b, 8, p)) || (
        Self::cell_is(b, 0, p) && Self::cell_is(b, 3, p) && Self::cell_is(b, 6, p)) || (
        Self::cell_is(b, 1, p) && Self::cell_is(b, 4, p) && Self::cell_is(b, 7, p)) || (
        Self::cell_is(b, 2, p) && Self::cell_is(b, 5, p) && Self::cell_is(b, 8, p)) || (
        Self::cell_is(b, 0, p) && Self::cell_is(b, 4, p) && Self::cell_is(b, 8, p)) || (
        Self::cell_is(b, 2, p) && Self::cell_is(b, 4, p) && Self::cell_is(b, 6, p))
    }

    /// Whether cell `i` of `b` holds the mark `p`.
    fn cell_is(b: &[Option<Player>; 9], i: usize, p: Player) -> (r: bool)
        requires
            i < 9,
        ensures
            r == (b@[i as int] == Some(p)),
    {
        match b[i] {
            Some(q) => q == p,
            None => false,
        }
    }

    /// Whether every cell of the board is occupied.
    fn is_board_full(&self) -> (r: bool)
        ensures
            r == board_full(self.board@),
    {
        let mut i: usize = 0;
        while i < 9
            invariant
                0 <= i <= 9,
                self.board@.len() == 9,
                forall|j: int| 0 <= j < i ==> self.board@[j] is Some,
            decreases 9 - i,
        {
            if self.board[i].is_none() {
                return false;
            }
            i += 1;
        }
        true
    }
}

/// Per-player aggregate statistics.
#[derive(Clone, Copy, Debug, PartialEq, Eq, Structural)]
pub struct PlayerStats {
    pub games_played: u32,
    pub wins: u32,
    pub losses: u32,
    pub draws: u32,
}

impl View for PlayerStats {
    type V = PlayerStats;

    open spec fn view(&self) -> PlayerStats {
        *self
    }
}

/// Statistics whose counters are consistent: every played game is counted as
/// exactly one of a win, a loss or a draw.
pub open spec fn stats_wf(s: PlayerStats) -> bool {
    s.games_played == s.wins + s.losses + s.draws
}

/// Statistics with every counter zero.
pub open spec fn zero_stats() -> PlayerStats {
    PlayerStats { games_played: 0, wins: 0, losses: 0, draws: 0 }
}

/// `s` with one more game recorded under `result`.
pub open spec fn bump_stats(s: PlayerStats, result: GameResult) -> PlayerStats {
    PlayerStats {
        games_played: (s.games_played + 1) as u32,
        wins: if result == GameResult::Win {
            (s.wins + 1) as u32
        } else {
            s.wins
        },
        losses: if result == GameResult::Loss {
            (s.losses + 1) as u32
        } else {
            s.losses
        },
        draws: if result == GameResult::Draw {
            (s.draws + 1) as u32
        } else {
            s.draws
        },
    }
}

impl Default for PlayerStats {
    /// Fresh statistics: no game played yet.
    fn default() -> (s: Self)
        ensures
            s == zero_stats(),
            stats_wf(s),
    {
        PlayerStats { games_played: 0, wins: 0, losses: 0, draws: 0 }
    }
}

impl PlayerStats {
    /// Record one finished game under `result`; the counters stay consistent.
    pub fn update_after_game(&mut self, result: GameResult)
        requires
            stats_wf(*old(self)),
            old(self).games_played < u32::MAX,
        ensures
            *final(self) == bump_stats(*old(self), result),
            stats_wf(*final(self)),
    {
        self.games_played = self.games_played + 1;
        match result {
            GameResult::Win => self.wins = self.wins + 1,
            GameResult::Loss => self.losses = self.losses + 1,
            GameResult::Draw => self.draws = self.draws + 1,
        }
    }
}

/// Operations that mutate the application state.
#[derive(Clone, Debug)]
pub enum Operation {
    CreateGame { player_id: PlayerId, player_name: String },
    JoinGame { game_id: GameId, player_id: PlayerId, player_name: String },
    MakeMove { game_id: GameId, player_id: PlayerId, position: usize },
}

/// Notifications produced by successful operations.
#[derive(Clone, Debug)]
pub enum Message {
    GameUpdate { game_id: GameId, game: Game },
}

/// Basic read-only queries.
#[derive(Clone, Debug)]
pub enum Query {
    GetGame { game_id: GameId },
    GetAllGames,
    GetPlayerStats { player_id: PlayerId },
}

/// Responses to the basic queries.
#[derive(Clone, Debug)]
pub enum QueryResponse {
    Game(Option<Game>),
    Games(Vec<Game>),
    PlayerStats(PlayerStats),
}

/// A plain in-memory snapshot of every game and every player's statistics,
/// held as association lists with unique keys.
#[derive(Debug)]
pub struct TicTacToeState {
    pub games: Vec<(GameId, Game)>,
    pub player_stats: Vec<(PlayerId, PlayerStats)>,
}

impl Default for TicTacToeState {
    /// An empty snapshot: no game and no statistics row.
    fn default() -> (s: Self)
        ensures
            s.games@.len() == 0,
            s.player_stats@.len() == 0,
    {
        TicTacToeState { games: Vec::new(), player_stats: Vec::new() }
    }
}

/// Recording one more game keeps a player's counters consistent: every
/// played game is counted as exactly one of a win, a loss or a draw, so
/// `games_played` always equals `wins + losses + draws`.
pub proof fn lemma_stats_stay_consistent(s: PlayerStats, result: GameResult)
    requires
        stats_wf(s),
        s.games_played < u32::MAX,
    ensures
        stats_wf(bump_stats(s, result)),
{
}

/// A move onto a position outside the board is rejected with
/// `InvalidPosition`, whatever the rest of the game looks like; the game is
/// left unchanged (`Game::make_move` keeps the whole value on every error).
pub proof fn lemma_invalid_position_rejected(
    g: GameView,
    player_id: Seq<char>,
    pos: usize,
    timestamp: u64,
)
    requires
        pos >= 9,
    ensures
        spec_make_move(g, player_id, pos, timestamp) == Err::<GameView, TicTacToeError>(
            TicTacToeError::InvalidPosition(pos),
        ),
{
}

/// A move on a game that is not in progress is rejected with
/// `GameNotInProgress`, whoever moves and wherever; the game — and therefore
/// every statistics row derived from it — is left unchanged.
pub proof fn lemma_not_in_progress_rejected(
    g: GameView,
    player_id: Seq<char>,
    pos: usize,
    timestamp: u64,
)
    requires
        pos < 9,
        g.status != GameStatus::InProgress,
    ensures
        spec_make_move(g, player_id, pos, timestamp) == Err::<GameView, TicTacToeError>(
            TicTacToeError::GameNotInProgress,
        ),
{
}

/// A move onto an occupied cell is rejected with `InvalidMove`; the board and
/// the turn order are left unchanged.
pub proof fn lemma_occupied_cell_rejected(
    g: GameView,
    player_id: Seq<char>,
    pos: usize,
    timestamp: u64,
)
    requires
        pos < 9,
        g.status == GameStatus::InProgress,
        g.board[pos as int] is Some,
    ensures
        spec_make_move(g, player_id, pos, timestamp) == Err::<GameView, TicTacToeError>(
            TicTacToeError::InvalidMove(pos),
        ),
{
}

/// After a successful move that does not finish the game, the turn strictly
/// alternates: the next mover is the other symbol.
pub proof fn lemma_turn_alternates(g: GameView, player_id: Seq<char>, pos: usize, timestamp: u64)
    requires
        g.wf(),
        spec_make_move(g, player_id, pos, timestamp) is Ok,
        spec_make_move(g, player_id, pos, timestamp)->Ok_0.status == GameStatus::InProgress,
    ensures
        spec_make_move(g, player_id, pos, timestamp)->Ok_0.current_player == flip(
            g.current_player,
        ),
        spec_make_move(g, player_id, pos, timestamp)->Ok_0.current_player != g.current_player,
{
}

} // verus!
