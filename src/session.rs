//! One duel and the logic of its turns.

use vstd::prelude::*;
use crate::duel::DiscordDuelGame;
use crate::input::ParseError;
use crate::turn::PlayerTurn;

verus! {

/// How long a program may run for one turn, in milliseconds.
pub const TURN_DEADLINE_MILLIS: u64 = 3000;

/// The pause between two turns of a duel that plays itself, in milliseconds.
pub const AUTO_PLAY_PACING_MILLIS: u64 = 300;

/// Why running a program gave no output.
#[derive(Debug, PartialEq, Eq, Clone, Copy, Structural)]
pub enum SandboxError {
    /// The deadline passed before the program finished.
    TimedOut,
    /// The program could not be loaded.
    InstantiationFailed,
    /// The program faulted while it ran.
    Trap,
    /// What the program wrote could not be collected.
    OutputCaptureFailed,
}

/// Why a turn failed; every such failure forfeits the duel.
#[derive(Debug, PartialEq, Eq, Clone, Copy)]
pub enum TurnError<E> {
    Sandbox(SandboxError),
    Parse(ParseError),
    Game(E),
}

/// What a turn leaves the duel in.
#[derive(Debug, PartialEq, Eq, Clone, Copy, Structural)]
pub enum TurnOutcome {
    /// The duel goes on.
    Continue,
    /// The duel is over and this player has won it.
    Won(PlayerTurn),
}

/// One live duel: the board, the player to move, and the two programs.
pub struct GameInstance<GAME: DiscordDuelGame> {
    pub game: GAME,
    pub player_turn: PlayerTurn,
    pub program_player1: usize,
    pub program_player2: usize,
}

/// The view of a program's output.
pub open spec fn output_view(output: Result<String, SandboxError>) -> Result<Seq<char>, SandboxError> {
    match output {
        Ok(s) => Ok(s@),
        Err(e) => Err(e),
    }
}

/// The part of a turn's result that the rule engine gave.
pub open spec fn game_result<E>(r: Result<bool, TurnError<E>>) -> Result<bool, E> {
    match r {
        Ok(b) => Ok(b),
        Err(TurnError::Game(g)) => Err(g),
        Err(_) => Ok(false),
    }
}

/// What a turn played by `acting` with result `r` leaves the duel in: a
/// failed turn is a forfeit, which the other player wins; a move that ends
/// the game is won by its mover.
pub open spec fn outcome_of<E>(acting: PlayerTurn, r: Result<bool, TurnError<E>>) -> TurnOutcome {
    match r {
        Ok(false) => TurnOutcome::Continue,
        Ok(true) => TurnOutcome::Won(acting),
        Err(_) => TurnOutcome::Won(acting.other()),
    }
}

/// Decides what a turn played by `acting` with result `result` leaves the
/// duel in (see `outcome_of`).
pub fn turn_outcome<E>(acting: PlayerTurn, result: &Result<bool, TurnError<E>>) -> (r: TurnOutcome)
    ensures
        r == outcome_of(acting, *result),
{
    match result {
        Ok(false) => TurnOutcome::Continue,
        Ok(true) => TurnOutcome::Won(acting),
        Err(_) => TurnOutcome::Won(acting.next()),
    }
}

impl<GAME: DiscordDuelGame> GameInstance<GAME> {
    /// A new duel on `game` between two programs; the first player moves first.
    pub fn new(game: GAME, program_player1: usize, program_player2: usize) -> (r: Self)
        ensures
            r.game == game,
            r.player_turn == PlayerTurn::Player1,
            r.program_player1 == program_player1,
            r.program_player2 == program_player2,
    {
        GameInstance { game, player_turn: PlayerTurn::Player1, program_player1, program_player2 }
    }

    /// The program of the player to move.
    pub fn acting_program(&self) -> (r: usize)
        ensures
            r == (match self.player_turn {
                PlayerTurn::Player1 => self.program_player1,
                PlayerTurn::Player2 => self.program_player2,
            }),
    {
        match self.player_turn {
            PlayerTurn::Player1 => self.program_player1,
            PlayerTurn::Player2 => self.program_player2,
        }
    }

    /// What the program of the player to move reads: the board from its own
    /// perspective.
    pub fn turn_input(&self) -> (r: String)
        ensures
            r@ == self.game.shown(Some(self.player_turn)),
    {
        match self.player_turn {
            PlayerTurn::Player1 => self.game.to_console_player1(),
            PlayerTurn::Player2 => self.game.to_console_player2(),
        }
    }

    /// Finishes a turn with what the acting program produced: its output is
    /// read as a move and played for the player to move, after which the turn
    /// passes to the other player. A sandbox failure, an output that is no
    /// move, or a move the rules refuse gives the matching error and leaves
    /// the turn where it was (the board too, except as the rule engine's
    /// refusal leaves it); nothing is retried.
    pub fn complete_turn(&mut self, output: Result<String, SandboxError>) -> (r: Result<
        bool,
        TurnError<GAME::GameError>,
    >)
        requires
            old(self).game.well_formed(),
        ensures
            final(self).game.well_formed(),
            final(self).program_player1 == old(self).program_player1,
            final(self).program_player2 == old(self).program_player2,
            final(self).player_turn == (if r is Ok {
                old(self).player_turn.other()
            } else {
                old(self).player_turn
            }),
            match output_view(output) {
                Err(e) => r == Err::<bool, TurnError<GAME::GameError>>(TurnError::Sandbox(e))
                    && final(self).game == old(self).game,
                Ok(text) => match GAME::input_of(text) {
                    Err(p) => r == Err::<bool, TurnError<GAME::GameError>>(TurnError::Parse(p))
                        && final(self).game == old(self).game,
                    Ok(m) => (r is Ok || r->Err_0 is Game) && GAME::played(
                        &old(self).game,
                        &final(self).game,
                        m,
                        old(self).player_turn,
                        game_result(r),
                    ),
                },
            },
    {
        let text = match output {
            Err(e) => return Err(TurnError::Sandbox(e)),
            Ok(text) => text,
        };
        let m = match GAME::parse_input(text.as_str()) {
            Err(e) => return Err(TurnError::Parse(e)),
            Ok(m) => m,
        };
        match self.game.play(m, self.player_turn) {
            Err(g) => Err(TurnError::Game(g)),
            Ok(end) => {
                self.player_turn = self.player_turn.next();
                Ok(end)
            },
        }
    }
}

} // verus!
