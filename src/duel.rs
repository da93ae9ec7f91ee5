//! The capability a rule engine offers to duels.

use vstd::prelude::*;
use crate::config::AmazonsConfig;
use crate::game::{board_text, play_result, AmazonsGame, GameError};
use crate::input::{move_text, ParseError, PlayerInput};
use crate::turn::PlayerTurn;

verus! {

/// A rule engine that duels can be played with: it creates a board, shows it
/// to each player and to spectators, reads a program's output as a move, and
/// plays moves.
pub trait DiscordDuelGame: Sized {
    type Config;
    type Input;
    type GameError;

    /// The state is one the engine can play on.
    spec fn well_formed(&self) -> bool;

    /// The board as shown from `view`: a player's perspective, or the
    /// spectators' for `None`.
    spec fn shown(&self, view: Option<PlayerTurn>) -> Seq<char>;

    /// The move that a program's output `s` spells, or why it spells none.
    spec fn input_of(s: Seq<char>) -> Result<Self::Input, ParseError>;

    /// Playing `input` as `n` on `before` gives `after` and the result `r`
    /// (`Ok(true)` when the game is over).
    spec fn played(
        before: &Self,
        after: &Self,
        input: Self::Input,
        n: PlayerTurn,
        r: Result<bool, Self::GameError>,
    ) -> bool;

    fn new(config: Self::Config) -> (r: Self)
        ensures
            r.well_formed(),
    ;

    fn to_console_player1(&self) -> (r: String)
        ensures
            r@ == self.shown(Some(PlayerTurn::Player1)),
    ;

    fn to_console_player2(&self) -> (r: String)
        ensures
            r@ == self.shown(Some(PlayerTurn::Player2)),
    ;

    fn to_discord(&self) -> (r: String)
        ensures
            r@ == self.shown(None),
    ;

    fn parse_input(s: &str) -> (r: Result<Self::Input, ParseError>)
        ensures
            r == Self::input_of(s@),
    ;

    fn play(&mut self, input: Self::Input, n: PlayerTurn) -> (r: Result<bool, Self::GameError>)
        requires
            old(self).well_formed(),
        ensures
            final(self).well_formed(),
            Self::played(old(self), final(self), input, n, r),
    ;
}

impl DiscordDuelGame for AmazonsGame {
    type Config = AmazonsConfig;
    type Input = PlayerInput;
    type GameError = GameError;

    open spec fn well_formed(&self) -> bool {
        self.wf()
    }

    open spec fn shown(&self, view: Option<PlayerTurn>) -> Seq<char> {
        board_text(self@, view)
    }

    open spec fn input_of(s: Seq<char>) -> Result<PlayerInput, ParseError> {
        match move_text(s) {
            Some(m) => Ok(m),
            None => Err(ParseError::TooFewTokens),
        }
    }

    open spec fn played(
        before: &Self,
        after: &Self,
        input: PlayerInput,
        n: PlayerTurn,
        r: Result<bool, GameError>,
    ) -> bool {
        match play_result(before@, input, n) {
            Ok(b) => r == Ok::<bool, GameError>(false) && after@ == b,
            Err(e) => r == Err::<bool, GameError>(e) && after@ == before@,
        }
    }

    fn new(config: AmazonsConfig) -> (r: Self) {
        AmazonsGame::new(config)
    }

    fn to_console_player1(&self) -> (r: String) {
        AmazonsGame::to_console_player1(self)
    }

    fn to_console_player2(&self) -> (r: String) {
        AmazonsGame::to_console_player2(self)
    }

    fn to_discord(&self) -> (r: String) {
        AmazonsGame::to_discord(self)
    }

    fn parse_input(s: &str) -> (r: Result<PlayerInput, ParseError>) {
        PlayerInput::parse_move(s)
    }

    fn play(&mut self, input: PlayerInput, n: PlayerTurn) -> (r: Result<bool, GameError>) {
        AmazonsGame::play(self, input, n)
    }
}

} // verus!
