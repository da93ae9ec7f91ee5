use amazons_duel::{AmazonsConfig, AmazonsGame, GameCell, GameError, PlayerInput, PlayerTurn, Pos};

fn p(x: usize, y: usize) -> Pos {
    Pos { x, y }
}

fn mv(a: (usize, usize), b: (usize, usize), c: (usize, usize)) -> PlayerInput {
    PlayerInput { from: p(a.0, a.1), to: p(b.0, b.1), arrow: p(c.0, c.1) }
}

/// 5 by 5: first player's queens on (0,0) and (2,2), second player's on (4,0) and (4,4).
fn board() -> AmazonsGame {
    AmazonsGame::from_placement(5, 5, &vec![p(0, 0), p(2, 2)], &vec![p(4, 0), p(4, 4)])
}

#[test]
fn next_alternates() {
    assert_eq!(PlayerTurn::Player1.next(), PlayerTurn::Player2);
    assert_eq!(PlayerTurn::Player2.next(), PlayerTurn::Player1);
    assert_eq!(PlayerTurn::Player1.next().next(), PlayerTurn::Player1);
}

#[test]
fn placement_and_cells() {
    let g = board();
    assert_eq!(g.get_cell(p(0, 0)), Some(GameCell::Amazon1));
    assert_eq!(g.get_cell(p(2, 2)), Some(GameCell::Amazon1));
    assert_eq!(g.get_cell(p(4, 0)), Some(GameCell::Amazon2));
    assert_eq!(g.get_cell(p(1, 1)), Some(GameCell::Empty));
    assert_eq!(g.get_cell(p(5, 0)), None);
    assert_eq!(g.get_cell(p(0, 5)), None);
}

#[test]
fn placement_clamps_and_second_player_wins_collision() {
    let g = AmazonsGame::from_placement(2, 40, &vec![p(1, 1), p(20, 0)], &vec![p(1, 1)]);
    assert_eq!(g.get_cell(p(1, 1)), Some(GameCell::Amazon2));
    assert_eq!(g.get_cell(p(4, 14)), Some(GameCell::Empty));
    assert_eq!(g.get_cell(p(5, 0)), None);
    assert_eq!(g.get_cell(p(0, 15)), None);
}

#[test]
fn render_player_views() {
    let g = board();
    let one = "* _ _ _ _\n_ _ _ _ _\n_ _ * _ _\n_ _ _ _ _\n+ _ _ _ +";
    let two = "+ _ _ _ _\n_ _ _ _ _\n_ _ + _ _\n_ _ _ _ _\n* _ _ _ *";
    assert_eq!(g.to_console_player1(), one);
    assert_eq!(g.to_console_player2(), two);
    assert_eq!(g.render(PlayerTurn::Player1), one);
    assert_eq!(g.render(PlayerTurn::Player2), two);
}

#[test]
fn render_views_differ_only_in_queen_glyphs() {
    let mut g = board();
    assert_eq!(g.play(mv((0, 0), (0, 2), (0, 4)), PlayerTurn::Player1), Ok(false));
    let one = g.to_console_player1();
    let two = g.to_console_player2();
    let swapped: String = one
        .chars()
        .map(|c| match c {
            '*' => '+',
            '+' => '*',
            c => c,
        })
        .collect();
    assert_eq!(swapped, two);
    assert!(one.contains('@'));
    let spectator = g.to_discord();
    for c in ['*', '+', '_', '@'] {
        assert!(!spectator.contains(c));
    }
}

#[test]
fn render_spectator() {
    let g = AmazonsGame::from_placement(5, 5, &vec![p(0, 0)], &vec![p(0, 1)]);
    let first = g.to_discord().lines().next().unwrap().to_string();
    assert_eq!(first, "\u{1f41d} \u{1f428} \u{2b1b} \u{2b1b} \u{2b1b}");
    assert_eq!(g.to_discord().lines().count(), 5);
}

#[test]
fn play_moves_queen_and_places_arrow() {
    let mut g = board();
    assert_eq!(g.play(mv((0, 0), (0, 2), (0, 4)), PlayerTurn::Player1), Ok(false));
    assert_eq!(g.get_cell(p(0, 0)), Some(GameCell::Empty));
    assert_eq!(g.get_cell(p(0, 2)), Some(GameCell::Amazon1));
    assert_eq!(g.get_cell(p(0, 4)), Some(GameCell::Arrow));
    assert_eq!(g.to_console_player1(), "_ _ * _ @\n_ _ _ _ _\n_ _ * _ _\n_ _ _ _ _\n+ _ _ _ +");
}

#[test]
fn play_diagonal_and_arrow_back_diagonal() {
    let mut g = board();
    assert_eq!(g.play(mv((4, 4), (3, 3), (3, 0)), PlayerTurn::Player2), Ok(false));
    assert_eq!(g.get_cell(p(3, 3)), Some(GameCell::Amazon2));
    assert_eq!(g.get_cell(p(3, 0)), Some(GameCell::Arrow));
    assert_eq!(g.get_cell(p(4, 4)), Some(GameCell::Empty));
}

#[test]
fn play_errors_leave_board_unchanged() {
    let cases = vec![
        (mv((9, 0), (0, 2), (0, 4)), PlayerTurn::Player1, GameError::InputOutOfBounds),
        (mv((4, 0), (3, 0), (2, 0)), PlayerTurn::Player1, GameError::InputInvalidPosition),
        (mv((1, 1), (1, 2), (1, 3)), PlayerTurn::Player1, GameError::InputInvalidPosition),
        (mv((0, 0), (0, 0), (0, 3)), PlayerTurn::Player1, GameError::InputInvalidPosition),
        (mv((0, 0), (1, 2), (1, 3)), PlayerTurn::Player1, GameError::InvalidTravel),
        (mv((0, 0), (3, 3), (3, 4)), PlayerTurn::Player1, GameError::InvalidTravel),
        (mv((0, 0), (0, 7), (0, 4)), PlayerTurn::Player1, GameError::InvalidTravel),
        (mv((0, 0), (0, 2), (0, 2)), PlayerTurn::Player1, GameError::InvalidArrowTravel),
        (mv((0, 0), (0, 2), (1, 4)), PlayerTurn::Player1, GameError::InvalidArrowTravel),
        (mv((0, 0), (1, 1), (3, 3)), PlayerTurn::Player1, GameError::InvalidArrowTravel),
        (mv((0, 0), (0, 2), (0, 0)), PlayerTurn::Player1, GameError::InvalidArrowTravel),
        (mv((0, 0), (0, 2), (0, 9)), PlayerTurn::Player1, GameError::InvalidArrowTravel),
    ];
    for (m, who, e) in cases {
        let mut g = board();
        let before = g.to_console_player1();
        assert_eq!(g.play(m, who), Err(e));
        assert_eq!(g.to_console_player1(), before);
    }
}

#[test]
fn error_texts() {
    assert_eq!(GameError::InputOutOfBounds.to_text(), "Input is out of bounds");
    assert_eq!(GameError::InputInvalidPosition.to_text(), "Invalid position");
    assert_eq!(GameError::InvalidTravel.to_text(), "Invalid travel");
    assert_eq!(GameError::InvalidArrowTravel.to_text(), "Invalid arrow travel");
}

#[test]
fn new_board_respects_config() {
    for _ in 0..20 {
        let g = AmazonsGame::new(AmazonsConfig { width: 7, height: 9, queens: 3 });
        let text = g.to_console_player1();
        let rows: Vec<&str> = text.lines().collect();
        assert_eq!(rows.len(), 7);
        assert!(rows.iter().all(|r| r.split(' ').count() == 9));
        let second = text.matches('+').count();
        let first = text.matches('*').count();
        assert_eq!(second, 3);
        assert!(first <= 3 && first + second >= 3);
        assert_eq!(text.matches('@').count(), 0);
    }
}

#[test]
fn new_board_clamps_config() {
    let g = AmazonsGame::new(AmazonsConfig { width: 1, height: 100, queens: 50 });
    let text = g.to_console_player2();
    let rows: Vec<&str> = text.lines().collect();
    assert_eq!(rows.len(), 5);
    assert!(rows.iter().all(|r| r.split(' ').count() == 15));
    assert_eq!(text.matches('*').count(), 5);
}
