use amazons_duel::commands::{
    check_upload, parse_game_id, parse_start_options, StartError, UploadError,
};
use amazons_duel::session::turn_outcome;
use amazons_duel::{
    AmazonsConfig, AmazonsGame, CommandOption, GameCell, GameError, GameInstance, OptionValue,
    ParseError, PlayerTurn, Pos, SandboxError, SessionRegistry, TurnError, TurnOutcome,
};

fn p(x: usize, y: usize) -> Pos {
    Pos { x, y }
}

fn session() -> GameInstance<AmazonsGame> {
    let game = AmazonsGame::from_placement(5, 5, &vec![p(0, 0), p(2, 2)], &vec![p(4, 0), p(4, 4)]);
    GameInstance::new(game, 11, 22)
}

fn opt(name: &str, value: OptionValue) -> CommandOption {
    CommandOption { name: name.to_string(), value }
}

fn wasm(size: u64) -> OptionValue {
    OptionValue::Attachment { size, content_type: Some("application/wasm".to_string()) }
}

#[test]
fn end_to_end_valid_move() {
    let mut s = session();
    assert_eq!(s.acting_program(), 11);
    assert_eq!(s.turn_input(), "* _ _ _ _\n_ _ _ _ _\n_ _ * _ _\n_ _ _ _ _\n+ _ _ _ +");
    let r = s.complete_turn(Ok("(0,0)|(0,2)|(0,4)".to_string()));
    assert_eq!(r, Ok(false));
    assert_eq!(s.game.get_cell(p(0, 2)), Some(GameCell::Amazon1));
    assert_eq!(s.game.get_cell(p(0, 4)), Some(GameCell::Arrow));
    assert_eq!(s.game.get_cell(p(0, 0)), Some(GameCell::Empty));
    assert_eq!(s.player_turn, PlayerTurn::Player2);
    assert_eq!(s.acting_program(), 22);
    assert_eq!(s.turn_input(), "_ _ + _ @\n_ _ _ _ _\n_ _ + _ _\n_ _ _ _ _\n* _ _ _ *");
    assert_eq!(turn_outcome(PlayerTurn::Player1, &r), TurnOutcome::Continue);
}

#[test]
fn end_to_end_unreadable_output_forfeits() {
    let mut s = session();
    let before = s.turn_input();
    let r = s.complete_turn(Ok("abc".to_string()));
    assert_eq!(r, Err(TurnError::Parse(ParseError::TooFewTokens)));
    assert_eq!(s.player_turn, PlayerTurn::Player1);
    assert_eq!(s.turn_input(), before);
    assert_eq!(turn_outcome(s.player_turn, &r), TurnOutcome::Won(PlayerTurn::Player2));
}

#[test]
fn end_to_end_timeout_forfeits() {
    let mut s = session();
    let r = s.complete_turn(Err(SandboxError::TimedOut));
    assert_eq!(r, Err(TurnError::Sandbox(SandboxError::TimedOut)));
    assert_eq!(s.player_turn, PlayerTurn::Player1);
    assert_eq!(turn_outcome(s.player_turn, &r), TurnOutcome::Won(PlayerTurn::Player2));
}

#[test]
fn refused_move_forfeits_second_player() {
    let mut s = session();
    assert_eq!(s.complete_turn(Ok("(0,0)|(0,2)|(0,4)".to_string())), Ok(false));
    let r = s.complete_turn(Ok("(4,0)|(2,2)|(0,0)".to_string()));
    assert_eq!(r, Err(TurnError::Game(GameError::InvalidTravel)));
    assert_eq!(s.player_turn, PlayerTurn::Player2);
    assert_eq!(turn_outcome(s.player_turn, &r), TurnOutcome::Won(PlayerTurn::Player1));
    assert_eq!(turn_outcome(PlayerTurn::Player2, &Ok::<bool, TurnError<GameError>>(true)), TurnOutcome::Won(PlayerTurn::Player2));
}

#[test]
fn registry_issues_fresh_ids() {
    let mut reg: SessionRegistry<&str> = SessionRegistry::new();
    let a = reg.register("a").unwrap();
    let b = reg.register("b").unwrap();
    assert_ne!(a, b);
    assert_eq!(reg.get(a), Some(&"a"));
    assert_eq!(reg.remove(a), Some("a"));
    assert_eq!(reg.get(a), None);
    assert_eq!(reg.remove(a), None);
    let c = reg.register("c").unwrap();
    assert_ne!(c, a);
    assert_ne!(c, b);
    assert_eq!(reg.get(b), Some(&"b"));
    assert_eq!(reg.get(c), Some(&"c"));
}

#[test]
fn config_defaults_and_clamps() {
    assert_eq!(AmazonsConfig::from_options(&[]), AmazonsConfig { width: 8, height: 8, queens: 2 });
    let options = vec![
        opt("width", OptionValue::Integer(100)),
        opt("height", OptionValue::Integer(-3)),
        opt("queens", OptionValue::Integer(4)),
        opt("queens", OptionValue::Integer(9)),
        opt("width", OptionValue::Boolean(true)),
        opt("other", OptionValue::Integer(7)),
    ];
    let c = AmazonsConfig::from_options(&options);
    assert_eq!(c, AmazonsConfig { width: 15, height: 5, queens: 6 });
    assert_eq!(c.to_text(), "Width: 15 | Height: 5 | Queens: 6");
    assert_eq!(AmazonsConfig { width: 8, height: 10, queens: 2 }.to_text(), "Width: 8 | Height: 10 | Queens: 2");
}

#[test]
fn upload_checks() {
    let id = |v: i64| opt("id", OptionValue::Integer(v));
    assert_eq!(check_upload(&[opt("attachment", wasm(10)), id(5)]), Ok(5));
    assert_eq!(check_upload(&[opt("attachment", wasm(100_000_000)), id(-4)]), Ok(0));
    assert_eq!(check_upload(&[]), Err(UploadError::NoAttachment));
    assert_eq!(check_upload(&[id(5), opt("attachment", wasm(10))]), Err(UploadError::NoAttachment));
    assert_eq!(
        check_upload(&[opt("attachment", wasm(100_000_001)), id(5)]),
        Err(UploadError::TooLarge(100_000_001))
    );
    let untyped = OptionValue::Attachment { size: 3, content_type: None };
    assert_eq!(check_upload(&[opt("attachment", untyped), id(5)]), Err(UploadError::NoContentType));
    let text = OptionValue::Attachment { size: 3, content_type: Some("text/plain".to_string()) };
    assert_eq!(check_upload(&[opt("attachment", text), id(5)]), Err(UploadError::BadContentType));
    assert_eq!(check_upload(&[opt("attachment", wasm(10))]), Err(UploadError::NoProgramId));
    assert_eq!(
        check_upload(&[opt("attachment", wasm(10)), opt("id", OptionValue::Boolean(true))]),
        Err(UploadError::NoProgramId)
    );
}

#[test]
fn start_options() {
    let options = vec![
        opt("program1", OptionValue::Integer(3)),
        opt("program2", OptionValue::Integer(4)),
        opt("automatic", OptionValue::Boolean(true)),
        opt("width", OptionValue::Integer(6)),
    ];
    let r = parse_start_options(&options).unwrap();
    assert_eq!((r.program1, r.program2, r.automatic), (3, 4, true));
    assert_eq!(r.config, AmazonsConfig { width: 6, height: 8, queens: 2 });
    let r = parse_start_options(&options[..2]).unwrap();
    assert!(!r.automatic);
    assert_eq!(parse_start_options(&options[1..]), Err(StartError::MissingProgram1));
    assert_eq!(
        parse_start_options(&[opt("program1", OptionValue::Integer(1)), opt("program2", OptionValue::Integer(-1))]),
        Err(StartError::MissingProgram2)
    );
}

#[test]
fn game_id_from_message() {
    assert_eq!(parse_game_id("# Game 12\n_ _ _"), Some(12));
    assert_eq!(parse_game_id("# Game 7\r\nrest"), Some(7));
    assert_eq!(parse_game_id("# Game 3"), Some(3));
    assert_eq!(parse_game_id("# Game\n12"), None);
    assert_eq!(parse_game_id("# Game x\n"), None);
    assert_eq!(parse_game_id(""), None);
}
