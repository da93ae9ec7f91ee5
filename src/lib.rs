//! Game of the Amazons between two submitted programs: move geometry and
//! parsing, the rule engine, the per-duel turn logic and the registry of
//! live duels.

pub mod commands;
pub mod config;
pub mod duel;
pub mod game;
pub mod input;
pub mod pos;
pub mod registry;
pub mod session;
pub mod text;
pub mod turn;

pub use config::{AmazonsConfig, CommandOption, OptionValue};
pub use duel::DiscordDuelGame;
pub use game::{AmazonsGame, GameCell, GameError};
pub use input::{ParseError, PlayerInput};
pub use pos::Pos;
pub use registry::SessionRegistry;
pub use session::{GameInstance, SandboxError, TurnError, TurnOutcome};
pub use turn::PlayerTurn;
