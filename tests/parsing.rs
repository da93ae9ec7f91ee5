use amazons_duel::{ParseError, PlayerInput, Pos};
use amazons_duel::pos::get_dir;

fn p(x: usize, y: usize) -> Pos {
    Pos { x, y }
}

#[test]
fn parse_pos_plain_and_spaced() {
    assert_eq!(Pos::parse_pos("(5,6)"), Some(p(5, 6)));
    assert_eq!(Pos::parse_pos("  ( 5 , 6 )\n"), Some(p(5, 6)));
    assert_eq!(Pos::parse_pos("(+12,0)"), Some(p(12, 0)));
    assert_eq!(Pos::parse_pos("(18446744073709551615,1)"), Some(p(usize::MAX, 1)));
}

#[test]
fn parse_pos_rejects() {
    for s in ["5,6", "(5,6", "5,6)", "(a,6)", "(-1,2)", "(1,2,3)", "()", "(,)", "(1 2,3)", "x(1,2)", "(18446744073709551616,1)", ""] {
        assert_eq!(Pos::parse_pos(s), None, "{}", s);
        assert_eq!(Pos::parse_position(s), Err(ParseError::MalformedToken), "{}", s);
    }
    assert_eq!(Pos::parse_position("(3,4)"), Ok(p(3, 4)));
}

#[test]
fn shift_moves_and_stops_at_edges() {
    assert_eq!(p(3, 3).shift(-1, 1), Some(p(2, 4)));
    assert_eq!(p(0, 3).shift(-1, 0), None);
    assert_eq!(p(3, usize::MAX).shift(0, 1), None);
    assert_eq!(p(3, 3).shift(0, 0), Some(p(3, 3)));
}

#[test]
fn directions() {
    assert_eq!(get_dir(p(0, 0), p(0, 4)), Some((0, 1)));
    assert_eq!(get_dir(p(4, 0), p(0, 0)), Some((-1, 0)));
    assert_eq!(get_dir(p(4, 4), p(1, 1)), Some((-1, -1)));
    assert_eq!(get_dir(p(1, 3), p(3, 1)), Some((1, -1)));
    assert_eq!(get_dir(p(0, 0), p(1, 2)), None);
    assert_eq!(get_dir(p(2, 2), p(2, 2)), None);
}

#[test]
fn parse_move_well_formed() {
    let m = PlayerInput::parse_move("(0,0)|(0,2)|(0,4)").unwrap();
    assert_eq!(m, PlayerInput { from: p(0, 0), to: p(0, 2), arrow: p(0, 4) });
    let m = PlayerInput::parse_move("  (1,2) |\t(3,4)|  (5,6)\n").unwrap();
    assert_eq!(m, PlayerInput { from: p(1, 2), to: p(3, 4), arrow: p(5, 6) });
}

#[test]
fn parse_move_skips_bad_and_extra_tokens() {
    let m = PlayerInput::parse_move("abc|(1,1)|x|(2,2)||(3,3)|(4,4)").unwrap();
    assert_eq!(m, PlayerInput { from: p(1, 1), to: p(2, 2), arrow: p(3, 3) });
}

#[test]
fn parse_move_too_few() {
    assert_eq!(PlayerInput::parse_move("abc"), Err(ParseError::TooFewTokens));
    assert_eq!(PlayerInput::parse_move(""), Err(ParseError::TooFewTokens));
    assert_eq!(PlayerInput::parse_move("(1,1)|(2,2)"), Err(ParseError::TooFewTokens));
    assert_eq!(PlayerInput::parse_move("(1,1),(2,2),(3,3)"), Err(ParseError::TooFewTokens));
}

#[test]
fn parse_move_through_from_str() {
    let m: PlayerInput = "(0,1)|(0,2)|(0,3)".parse().unwrap();
    assert_eq!(m.arrow, p(0, 3));
    assert_eq!("nope".parse::<PlayerInput>(), Err(ParseError::TooFewTokens));
}
