//! The rule engine of the Game of the Amazons: the board, moves, and how the
//! board is shown.

use vstd::prelude::*;
use crate::config::{clamp, clamp_usize, AmazonsConfig};
use crate::input::PlayerInput;
use crate::pos::{abs, direction, get_dir, Pos};
use crate::turn::PlayerTurn;
use rand::seq::IteratorRandom;

verus! {

/// The content of one cell of the board.
#[derive(Debug, PartialEq, Eq, Clone, Copy, Structural)]
pub enum GameCell {
    Empty,
    Amazon1,
    Amazon2,
    Arrow,
}

/// Why a move was refused.
#[derive(Debug, PartialEq, Eq, Clone, Copy, Structural)]
pub enum GameError {
    InputOutOfBounds,
    InputInvalidPosition,
    InvalidTravel,
    InvalidArrowTravel,
}

/// How an error is reported to users.
pub open spec fn error_text(e: GameError) -> Seq<char> {
    match e {
        GameError::InputInvalidPosition => "Invalid position"@,
        GameError::InputOutOfBounds => "Input is out of bounds"@,
        GameError::InvalidTravel => "Invalid travel"@,
        GameError::InvalidArrowTravel => "Invalid arrow travel"@,
    }
}

impl GameError {
    /// The message that reports this error.
    pub fn to_text(&self) -> (r: &'static str)
        ensures
            r@ == error_text(*self),
    {
        match self {
            GameError::InputInvalidPosition => "Invalid position",
            GameError::InputOutOfBounds => "Input is out of bounds",
            GameError::InvalidTravel => "Invalid travel",
            GameError::InvalidArrowTravel => "Invalid arrow travel",
        }
    }
}

/// A board of the Game of the Amazons: one inner vector per row `x`, one cell
/// per `y` in it.
pub struct AmazonsGame(Vec<Vec<GameCell>>);

/// The cells of a board, by row `x` and then by `y`.
pub type Board = Seq<Seq<GameCell>>;

/// The queen that `p` moves.
pub open spec fn queen_of(p: PlayerTurn) -> GameCell {
    match p {
        PlayerTurn::Player1 => GameCell::Amazon1,
        PlayerTurn::Player2 => GameCell::Amazon2,
    }
}

/// `(x, y)` is a cell of `b`.
pub open spec fn in_board(b: Board, x: int, y: int) -> bool {
    0 <= x < b.len() && 0 <= y < b[x].len()
}

/// Every row of `b` has `h` cells.
pub open spec fn rectangular(b: Board, h: int) -> bool {
    forall|x: int| 0 <= x < b.len() ==> (#[trigger] b[x]).len() == h
}

/// `b` with the cell at `p` set to `c`.
pub open spec fn set_cell(b: Board, p: Pos, c: GameCell) -> Board {
    b.update(p.x as int, b[p.x as int].update(p.y as int, c))
}

/// The coordinate `k` steps away from `v` in the direction of sign `s`.
pub open spec fn offset(v: int, s: int, k: int) -> int {
    if s > 0 {
        v + k
    } else if s < 0 {
        v - k
    } else {
        v
    }
}

/// The number of steps from `a` to `b` along their line.
pub open spec fn distance(a: Pos, b: Pos) -> int {
    let dx = abs(b.x - a.x);
    let dy = abs(b.y - a.y);
    if dx >= dy {
        dx
    } else {
        dy
    }
}

/// The cells after `from` up to and including `to` along their line are all on
/// the board and empty; false where no principal direction leads from `from`
/// to `to`.
pub open spec fn path_clear(b: Board, from: Pos, to: Pos) -> bool {
    match direction(from, to) {
        None => false,
        Some(d) => forall|k: int|
            1 <= k <= distance(from, to) ==> {
                let x = #[trigger] offset(from.x as int, d.0, k);
                let y = offset(from.y as int, d.1, k);
                in_board(b, x, y) && b[x][y] == GameCell::Empty
            },
    }
}

/// What playing `m` as `p` gives on board `b`: the new board, or the error.
pub open spec fn play_result(b: Board, m: PlayerInput, p: PlayerTurn) -> Result<Board, GameError> {
    if !in_board(b, m.from.x as int, m.from.y as int) {
        Err(GameError::InputOutOfBounds)
    } else if b[m.from.x as int][m.from.y as int] != queen_of(p) {
        Err(GameError::InputInvalidPosition)
    } else if m.from == m.to {
        Err(GameError::InputInvalidPosition)
    } else if !path_clear(b, m.from, m.to) {
        Err(GameError::InvalidTravel)
    } else if !path_clear(b, m.to, m.arrow) {
        Err(GameError::InvalidArrowTravel)
    } else {
        Ok(
            set_cell(
                set_cell(set_cell(b, m.from, GameCell::Empty), m.to, queen_of(p)),
                m.arrow,
                GameCell::Arrow,
            ),
        )
    }
}

/// A move made by the player whose queen stands on `from`, whose two legs each
/// run along one of the eight principal directions over empty cells, is
/// accepted: afterwards `from` is empty, the mover's queen stands on `to`,
/// `arrow` is blocked, and every other cell is as it was.
pub proof fn lemma_clear_move_applies(b: Board, m: PlayerInput, p: PlayerTurn)
    requires
        in_board(b, m.from.x as int, m.from.y as int),
        b[m.from.x as int][m.from.y as int] == queen_of(p),
        path_clear(b, m.from, m.to),
        path_clear(b, m.to, m.arrow),
    ensures
        play_result(b, m, p) is Ok,
        ({
            let a = play_result(b, m, p)->Ok_0;
            &&& a.len() == b.len()
            &&& forall|x: int| 0 <= x < b.len() ==> (#[trigger] a[x]).len() == b[x].len()
            &&& a[m.from.x as int][m.from.y as int] == GameCell::Empty
            &&& a[m.to.x as int][m.to.y as int] == queen_of(p)
            &&& a[m.arrow.x as int][m.arrow.y as int] == GameCell::Arrow
            &&& forall|x: int, y: int|
                in_board(b, x, y) && !(x == m.from.x && y == m.from.y) && !(x == m.to.x && y
                    == m.to.y) && !(x == m.arrow.x && y == m.arrow.y) ==> #[trigger] a[x][y]
                    == b[x][y]
        }),
{
    lemma_path_reaches_end(b, m.from, m.to);
    lemma_path_reaches_end(b, m.to, m.arrow);
}

/// A clear path ends on a cell of the board that is empty.
proof fn lemma_path_reaches_end(b: Board, from: Pos, to: Pos)
    requires
        path_clear(b, from, to),
    ensures
        in_board(b, to.x as int, to.y as int),
        b[to.x as int][to.y as int] == GameCell::Empty,
        from != to,
{
    let d = direction(from, to)->Some_0;
    let k = distance(from, to);
    assert(offset(from.x as int, d.0, k) == to.x);
}

/// A move made by the player whose queen stands on `from`, to another cell,
/// is refused with `InvalidTravel` when the queen's leg is not along a
/// principal direction or crosses a cell that is not empty, and otherwise with
/// `InvalidArrowTravel` when the same holds of the arrow's leg. (`play` leaves
/// the board unchanged on every error.)
pub proof fn lemma_blocked_move_refused(b: Board, m: PlayerInput, p: PlayerTurn)
    requires
        in_board(b, m.from.x as int, m.from.y as int),
        b[m.from.x as int][m.from.y as int] == queen_of(p),
        m.from != m.to,
    ensures
        !path_clear(b, m.from, m.to) ==> play_result(b, m, p) == Err::<Board, GameError>(
            GameError::InvalidTravel,
        ),
        path_clear(b, m.from, m.to) && !path_clear(b, m.to, m.arrow) ==> play_result(b, m, p)
            == Err::<Board, GameError>(GameError::InvalidArrowTravel),
        direction(m.from, m.to) is None ==> !path_clear(b, m.from, m.to),
        direction(m.to, m.arrow) is None ==> !path_clear(b, m.to, m.arrow),
{
}

/// The glyph of a cell seen by player `p`: its own queens `*`, the other
/// player's `+`, arrows `@`, empty cells `_`.
pub open spec fn console_glyph(c: GameCell, p: PlayerTurn) -> char {
    match c {
        GameCell::Empty => '_',
        GameCell::Arrow => '@',
        _ => if c == queen_of(p) {
            '*'
        } else {
            '+'
        },
    }
}

/// The glyph of a cell for spectators, the same whoever is to move.
pub open spec fn spectator_glyph(c: GameCell) -> char {
    match c {
        GameCell::Empty => '\u{2b1b}',
        GameCell::Amazon1 => '\u{1f41d}',
        GameCell::Amazon2 => '\u{1f428}',
        GameCell::Arrow => '\u{1f9f1}',
    }
}

/// The glyph of `c` from the perspective of `view`, or for spectators (`None`).
pub open spec fn glyph(c: GameCell, view: Option<PlayerTurn>) -> char {
    match view {
        Some(p) => console_glyph(c, p),
        None => spectator_glyph(c),
    }
}

/// `parts` joined with `sep` between each two.
pub open spec fn join(parts: Seq<Seq<char>>, sep: char) -> Seq<char>
    decreases parts.len(),
{
    if parts.len() == 0 {
        Seq::empty()
    } else if parts.len() == 1 {
        parts[0]
    } else {
        join(parts.drop_last(), sep) + seq![sep] + parts.last()
    }
}

/// One row: the glyphs of its cells, separated by single spaces.
pub open spec fn row_text(row: Seq<GameCell>, view: Option<PlayerTurn>) -> Seq<char> {
    join(row.map_values(|c: GameCell| seq![glyph(c, view)]), ' ')
}

/// The whole board: its rows in order, separated by newlines.
pub open spec fn board_text(b: Board, view: Option<PlayerTurn>) -> Seq<char> {
    join(b.map_values(|row: Seq<GameCell>| row_text(row, view)), '\n')
}

/// Exchanges the two queen glyphs of the console rendering.
pub open spec fn swap_queens(c: char) -> char {
    if c == '*' {
        '+'
    } else if c == '+' {
        '*'
    } else {
        c
    }
}

proof fn lemma_join_map(parts: Seq<Seq<char>>, sep: char)
    requires
        swap_queens(sep) == sep,
    ensures
        join(parts.map_values(|t: Seq<char>| t.map_values(|c: char| swap_queens(c))), sep)
            == join(parts, sep).map_values(|c: char| swap_queens(c)),
    decreases parts.len(),
{
    let f = |t: Seq<char>| t.map_values(|c: char| swap_queens(c));
    let mp = parts.map_values(f);
    if parts.len() > 1 {
        lemma_join_map(parts.drop_last(), sep);
        assert(mp.drop_last() =~= parts.drop_last().map_values(f));
        let j = join(parts.drop_last(), sep);
        assert((j + seq![sep] + parts.last()).map_values(|c: char| swap_queens(c)) =~= j.map_values(
            |c: char| swap_queens(c),
        ) + seq![sep] + parts.last().map_values(|c: char| swap_queens(c)));
    } else if parts.len() == 1 {
        assert(mp[0] == f(parts[0]));
    } else {
        assert(join(parts, sep).map_values(|c: char| swap_queens(c)) =~= Seq::<char>::empty());
    }
}

proof fn lemma_join_first(parts: Seq<Seq<char>>, sep: char)
    requires
        parts.len() > 0,
        parts[0].len() > 0,
    ensures
        join(parts, sep).len() > 0,
        join(parts, sep)[0] == parts[0][0],
    decreases parts.len(),
{
    if parts.len() > 1 {
        lemma_join_first(parts.drop_last(), sep);
    }
}

/// The two players' renderings of a board differ only in which queens are
/// drawn `*` and which `+`; the spectator glyphs are none of the players'
/// glyphs, so on a board with a cell the spectator rendering differs from both.
pub proof fn lemma_perspectives(b: Board)
    ensures
        board_text(b, Some(PlayerTurn::Player2)) == board_text(
            b,
            Some(PlayerTurn::Player1),
        ).map_values(|c: char| swap_queens(c)),
        forall|c: GameCell, d: GameCell, p: PlayerTurn|
            #[trigger] spectator_glyph(c) != #[trigger] console_glyph(d, p),
        b.len() > 0 && b[0].len() > 0 ==> forall|p: PlayerTurn|
            board_text(b, None) != #[trigger] board_text(b, Some(p)),
{
    let first = Some(PlayerTurn::Player1);
    let second = Some(PlayerTurn::Player2);
    let f = |t: Seq<char>| t.map_values(|c: char| swap_queens(c));
    assert forall|row: Seq<GameCell>| #[trigger] row_text(row, second) == f(row_text(row, first)) by {
        let g1 = row.map_values(|c: GameCell| seq![glyph(c, first)]);
        let g2 = row.map_values(|c: GameCell| seq![glyph(c, second)]);
        lemma_join_map(g1, ' ');
        assert forall|i: int| 0 <= i < row.len() implies #[trigger] g2[i] == f(g1[i]) by {
            assert(f(g1[i]) =~= seq![swap_queens(glyph(row[i], first))]);
        }
        assert(g2 =~= g1.map_values(f));
    }
    let r1 = b.map_values(|row: Seq<GameCell>| row_text(row, first));
    let r2 = b.map_values(|row: Seq<GameCell>| row_text(row, second));
    lemma_join_map(r1, '\n');
    assert(r2 =~= r1.map_values(f));
    if b.len() > 0 && b[0].len() > 0 {
        assert forall|p: PlayerTurn| board_text(b, None) != #[trigger] board_text(b, Some(p)) by {
            let v = Some(p);
            let gs = b[0].map_values(|c: GameCell| seq![glyph(c, None)]);
            let gp = b[0].map_values(|c: GameCell| seq![glyph(c, v)]);
            lemma_join_first(gs, ' ');
            lemma_join_first(gp, ' ');
            let rs = b.map_values(|row: Seq<GameCell>| row_text(row, None));
            let rp = b.map_values(|row: Seq<GameCell>| row_text(row, v));
            lemma_join_first(rs, '\n');
            lemma_join_first(rp, '\n');
        }
    }
}

/// The glyph of `c` seen from `view`, as text of one character.
fn glyph_text(c: GameCell, view: Option<PlayerTurn>) -> (r: &'static str)
    ensures
        r@ == seq![glyph(c, view)],
{
    match view {
        Some(p) => match c {
            GameCell::Empty => {
                proof { reveal_strlit("_"); }
                "_"
            },
            GameCell::Arrow => {
                proof { reveal_strlit("@"); }
                "@"
            },
            GameCell::Amazon1 => if p == PlayerTurn::Player1 {
                proof { reveal_strlit("*"); }
                "*"
            } else {
                proof { reveal_strlit("+"); }
                "+"
            },
            GameCell::Amazon2 => if p == PlayerTurn::Player2 {
                proof { reveal_strlit("*"); }
                "*"
            } else {
                proof { reveal_strlit("+"); }
                "+"
            },
        },
        None => match c {
            GameCell::Empty => {
                proof { reveal_strlit("\u{2b1b}"); }
                "\u{2b1b}"
            },
            GameCell::Amazon1 => {
                proof { reveal_strlit("\u{1f41d}"); }
                "\u{1f41d}"
            },
            GameCell::Amazon2 => {
                proof { reveal_strlit("\u{1f428}"); }
                "\u{1f428}"
            },
            GameCell::Arrow => {
                proof { reveal_strlit("\u{1f9f1}"); }
                "\u{1f9f1}"
            },
        },
    }
}

proof fn lemma_join_push(parts: Seq<Seq<char>>, t: Seq<char>, sep: char)
    ensures
        join(parts.push(t), sep) == (if parts.len() == 0 {
            t
        } else {
            join(parts, sep) + seq![sep] + t
        }),
{
    assert(parts.push(t).drop_last() =~= parts);
    if parts.len() == 0 {
        assert(parts.push(t)[0] == t);
    }
}

/// What a cell holds on a fresh board where the first player's queens stand
/// on `q1` and the second player's on `q2`; the second player's are placed
/// last and take the cell where both would stand.
pub open spec fn placement_cell(q1: Seq<Pos>, q2: Seq<Pos>, x: int, y: int) -> GameCell {
    let p = Pos { x: x as usize, y: y as usize };
    if q2.contains(p) {
        GameCell::Amazon2
    } else if q1.contains(p) {
        GameCell::Amazon1
    } else {
        GameCell::Empty
    }
}

/// `b` holds the queens of `q1` and `q2` and nothing else (see `placement_cell`).
pub open spec fn placed(b: Board, q1: Seq<Pos>, q2: Seq<Pos>) -> bool {
    forall|x: int, y: int| in_board(b, x, y) ==> #[trigger] b[x][y] == placement_cell(q1, q2, x, y)
}

pub open spec fn min(a: int, b: int) -> int {
    if a <= b {
        a
    } else {
        b
    }
}

/// `q` is a possible random placement of `k` queens on a `w` by `h` board:
/// as many as fit, no two on one row, no two on one column.
pub open spec fn is_draw(q: Seq<Pos>, w: int, h: int, k: int) -> bool {
    &&& q.len() == min(k, min(w, h))
    &&& forall|i: int| 0 <= i < q.len() ==> (#[trigger] q[i]).x < w && q[i].y < h
    &&& forall|i: int, j: int|
        0 <= i < q.len() && 0 <= j < q.len() && i != j ==> (#[trigger] q[i]).x != (
        #[trigger] q[j]).x && q[i].y != q[j].y
}

/// Relies on rand's `IteratorRandom::choose_multiple` over `0..n` with the
/// thread-local generator: it keeps `min(k, n)` items of the range, each item
/// of the range at most once.
#[verifier::external_body]
fn sample_distinct(n: usize, k: usize) -> (r: Vec<usize>)
    ensures
        r@.len() == min(k as int, n as int),
        forall|i: int| 0 <= i < r@.len() ==> #[trigger] r@[i] < n,
        forall|i: int, j: int|
            0 <= i < r@.len() && 0 <= j < r@.len() && i != j ==> #[trigger] r@[i] != #[trigger] r@[j],
{
    (0..n).choose_multiple(&mut rand::thread_rng(), k)
}

/// The positions `(xs[i], ys[i])`, as far as both go.
fn zip_positions(xs: &Vec<usize>, ys: &Vec<usize>) -> (r: Vec<Pos>)
    ensures
        r@.len() == min(xs@.len() as int, ys@.len() as int),
        forall|i: int| 0 <= i < r@.len() ==> #[trigger] r@[i] == (Pos { x: xs@[i], y: ys@[i] }),
{
    let mut r: Vec<Pos> = Vec::new();
    let mut i: usize = 0;
    while i < xs.len() && i < ys.len()
        invariant
            i <= xs@.len(),
            i <= ys@.len(),
            r@.len() == i,
            forall|j: int| 0 <= j < i ==> #[trigger] r@[j] == (Pos { x: xs@[j], y: ys@[j] }),
        decreases xs@.len() - i,
    {
        r.push(Pos { x: xs[i], y: ys[i] });
        i = i + 1;
    }
    r
}

impl View for AmazonsGame {
    type V = Board;

    closed spec fn view(&self) -> Board {
        self.0@.map_values(|row: Vec<GameCell>| row@)
    }
}

impl AmazonsGame {
    /// Between 5 and 15 rows of the same length, between 5 and 15.
    pub open spec fn wf(&self) -> bool {
        &&& 5 <= self@.len() <= 15
        &&& 5 <= self@[0].len() <= 15
        &&& rectangular(self@, self@[0].len() as int)
    }

    /// A board of `width` by `height` cells, both clamped to `[5, 15]`, with
    /// the first player's queens on `queens1` and the second player's on
    /// `queens2` (see `placement_cell`); positions off the board are skipped.
    pub fn from_placement(width: usize, height: usize, queens1: &Vec<Pos>, queens2: &Vec<Pos>) -> (r: Self)
        ensures
            r.wf(),
            r@.len() == clamp(width as int, 5, 15),
            r@[0].len() == clamp(height as int, 5, 15),
            placed(r@, queens1@, queens2@),
    {
        let w = clamp_usize(width, 5, 15);
        let h = clamp_usize(height, 5, 15);
        let mut grid: Vec<Vec<GameCell>> = Vec::new();
        let mut x: usize = 0;
        while x < w
            invariant
                x <= w <= 15,
                grid@.len() == x,
                forall|i: int| 0 <= i < x ==> (#[trigger] grid@[i])@ == Seq::new(
                    h as nat,
                    |j: int| GameCell::Empty,
                ),
            decreases w - x,
        {
            let mut row: Vec<GameCell> = Vec::new();
            let mut y: usize = 0;
            while y < h
                invariant
                    y <= h,
                    row@ == Seq::new(y as nat, |j: int| GameCell::Empty),
                decreases h - y,
            {
                row.push(GameCell::Empty);
                y = y + 1;
                assert(row@ =~= Seq::new(y as nat, |j: int| GameCell::Empty));
            }
            grid.push(row);
            x = x + 1;
        }
        let mut game = AmazonsGame(grid);
        assert(rectangular(game@, h as int));
        let mut i: usize = 0;
        while i < queens1.len()
            invariant
                game.wf(),
                game@.len() == w,
                game@[0].len() == h,
                i <= queens1@.len(),
                forall|x: int, y: int|
                    in_board(game@, x, y) ==> #[trigger] game@[x][y] == placement_cell(
                        queens1@.subrange(0, i as int),
                        Seq::empty(),
                        x,
                        y,
                    ),
            decreases queens1@.len() - i,
        {
            let p = queens1[i];
            let ghost before = game@;
            if p.x < w && p.y < h {
                game.set_cell(p, GameCell::Amazon1);
            }
            proof {
                let q = queens1@.subrange(0, i + 1);
                assert(q =~= queens1@.subrange(0, i as int).push(p));
                assert forall|x: int, y: int| in_board(game@, x, y) implies #[trigger] game@[x][y]
                    == placement_cell(q, Seq::empty(), x, y) by {
                    let c = Pos { x: x as usize, y: y as usize };
                    if c == p {
                        assert(q[i as int] == c);
                    } else {
                        assert(before[x][y] == game@[x][y]);
                        if q.contains(c) {
                            let j = choose|j: int| 0 <= j < q.len() && q[j] == c;
                            assert(queens1@.subrange(0, i as int)[j] == c);
                        }
                    }
                }
            }
            i = i + 1;
        }
        assert(queens1@.subrange(0, i as int) =~= queens1@);
        let mut i: usize = 0;
        while i < queens2.len()
            invariant
                game.wf(),
                game@.len() == w,
                game@[0].len() == h,
                i <= queens2@.len(),
                forall|x: int, y: int|
                    in_board(game@, x, y) ==> #[trigger] game@[x][y] == placement_cell(
                        queens1@,
                        queens2@.subrange(0, i as int),
                        x,
                        y,
                    ),
            decreases queens2@.len() - i,
        {
            let p = queens2[i];
            let ghost before = game@;
            if p.x < w && p.y < h {
                game.set_cell(p, GameCell::Amazon2);
            }
            proof {
                let q = queens2@.subrange(0, i + 1);
                assert(q =~= queens2@.subrange(0, i as int).push(p));
                assert forall|x: int, y: int| in_board(game@, x, y) implies #[trigger] game@[x][y]
                    == placement_cell(queens1@, q, x, y) by {
                    let c = Pos { x: x as usize, y: y as usize };
                    if c == p {
                        assert(q[i as int] == c);
                    } else {
                        assert(before[x][y] == game@[x][y]);
                        if q.contains(c) {
                            let j = choose|j: int| 0 <= j < q.len() && q[j] == c;
                            assert(queens2@.subrange(0, i as int)[j] == c);
                        }
                    }
                }
            }
            i = i + 1;
        }
        assert(queens2@.subrange(0, i as int) =~= queens2@);
        game
    }

    /// A fresh board for `config`: width and height clamped to `[5, 15]`, the
    /// number of queens to `[2, 6]`. Each player's queens are drawn at random,
    /// on distinct rows and distinct columns, as many as fit; the two players'
    /// draws are independent, and where they meet the second player's queen
    /// stands.
    pub fn new(config: AmazonsConfig) -> (r: Self)
        ensures
            r.wf(),
            r@.len() == clamp(config.width as int, 5, 15),
            r@[0].len() == clamp(config.height as int, 5, 15),
            exists|q1: Seq<Pos>, q2: Seq<Pos>|
                #[trigger] placed(r@, q1, q2) && is_draw(
                    q1,
                    clamp(config.width as int, 5, 15),
                    clamp(config.height as int, 5, 15),
                    clamp(config.queens as int, 2, 6),
                ) && is_draw(
                    q2,
                    clamp(config.width as int, 5, 15),
                    clamp(config.height as int, 5, 15),
                    clamp(config.queens as int, 2, 6),
                ),
    {
        let w = clamp_usize(config.width, 5, 15);
        let h = clamp_usize(config.height, 5, 15);
        let k = clamp_usize(config.queens, 2, 6);
        let xs1 = sample_distinct(w, k);
        let xs2 = sample_distinct(w, k);
        let ys1 = sample_distinct(h, k);
        let ys2 = sample_distinct(h, k);
        let q1 = zip_positions(&xs1, &ys1);
        let q2 = zip_positions(&xs2, &ys2);
        let r = Self::from_placement(w, h, &q1, &q2);
        assert(is_draw(q1@, w as int, h as int, k as int));
        assert(is_draw(q2@, w as int, h as int, k as int));
        assert(placed(r@, q1@, q2@));
        r
    }

    /// The cell at `pos`, or `None` off the board.
    pub fn get_cell(&self, pos: Pos) -> (r: Option<GameCell>)
        ensures
            r == (if in_board(self@, pos.x as int, pos.y as int) {
                Some(self@[pos.x as int][pos.y as int])
            } else {
                None
            }),
    {
        if pos.x < self.0.len() && pos.y < self.0[pos.x].len() {
            Some(self.0[pos.x][pos.y])
        } else {
            None
        }
    }

    fn set_cell(&mut self, pos: Pos, c: GameCell)
        requires
            old(self).wf(),
            in_board(old(self)@, pos.x as int, pos.y as int),
        ensures
            final(self)@ == set_cell(old(self)@, pos, c),
            final(self).wf(),
    {
        self.0[pos.x][pos.y] = c;
        assert(self@ =~= set_cell(old(self)@, pos, c));
    }

    /// Whether `path_clear` holds from `from` to `to`.
    fn clear_between(&self, from: Pos, to: Pos) -> (r: bool)
        requires
            self.wf(),
        ensures
            r == path_clear(self@, from, to),
    {
        let (dx, dy) = match get_dir(from, to) {
            None => return false,
            Some(d) => d,
        };
        let ghost d = (dx as int, dy as int);
        assert(-1 <= dx <= 1 && -1 <= dy <= 1);
        let ax = if to.x >= from.x { to.x - from.x } else { from.x - to.x };
        let ay = if to.y >= from.y { to.y - from.y } else { from.y - to.y };
        let n = if ax >= ay { ax } else { ay };
        assert(n == distance(from, to));
        let mut cur = from;
        let mut k: usize = 0;
        while k < n
            invariant
                self.wf(),
                direction(from, to) == Some(d),
                d == (dx as int, dy as int),
                -1 <= dx <= 1,
                -1 <= dy <= 1,
                n == distance(from, to),
                k <= n,
                cur.x == offset(from.x as int, d.0, k as int),
                cur.y == offset(from.y as int, d.1, k as int),
                forall|j: int|
                    1 <= j <= k ==> {
                        let x = #[trigger] offset(from.x as int, d.0, j);
                        let y = offset(from.y as int, d.1, j);
                        in_board(self@, x, y) && self@[x][y] == GameCell::Empty
                    },
            decreases n - k,
        {
            let next = match cur.shift(dx, dy) {
                None => {
                    assert(!in_board(self@, offset(from.x as int, d.0, k + 1), offset(from.y as int, d.1, k + 1)));
                    return false;
                },
                Some(p) => p,
            };
            match self.get_cell(next) {
                Some(GameCell::Empty) => {},
                _ => {
                    assert(offset(from.x as int, d.0, k + 1) == next.x);
                    return false;
                },
            }
            cur = next;
            k = k + 1;
        }
        true
    }

    /// The board drawn with the glyphs of `view` (a player's, or the
    /// spectators' for `None`).
    fn render_view(&self, view: Option<PlayerTurn>) -> (r: String)
        ensures
            r@ == board_text(self@, view),
    {
        let ghost rows = self@.map_values(|row: Seq<GameCell>| row_text(row, view));
        let mut out = String::new();
        let mut x: usize = 0;
        while x < self.0.len()
            invariant
                x <= self.0@.len(),
                rows == self@.map_values(|row: Seq<GameCell>| row_text(row, view)),
                self@.len() == self.0@.len(),
                out@ == join(rows.subrange(0, x as int), '\n'),
            decreases self.0@.len() - x,
        {
            let row = &self.0[x];
            let ghost cells = row@.map_values(|c: GameCell| seq![glyph(c, view)]);
            let mut line = String::new();
            let mut y: usize = 0;
            while y < row.len()
                invariant
                    y <= row@.len(),
                    cells == row@.map_values(|c: GameCell| seq![glyph(c, view)]),
                    line@ == join(cells.subrange(0, y as int), ' '),
                decreases row@.len() - y,
            {
                proof {
                    lemma_join_push(cells.subrange(0, y as int), cells[y as int], ' ');
                    assert(cells.subrange(0, y as int).push(cells[y as int]) =~= cells.subrange(
                        0,
                        y + 1,
                    ));
                }
                if y > 0 {
                    proof { reveal_strlit(" "); }
                    line.append(" ");
                }
                line.append(glyph_text(row[y], view));
                y = y + 1;
            }
            proof {
                assert(cells.subrange(0, y as int) =~= cells);
                assert(self@[x as int] == row@);
                lemma_join_push(rows.subrange(0, x as int), rows[x as int], '\n');
                assert(rows.subrange(0, x as int).push(rows[x as int]) =~= rows.subrange(
                    0,
                    x + 1,
                ));
            }
            if x > 0 {
                proof { reveal_strlit("\n"); }
                out.append("\n");
            }
            out.append(line.as_str());
            x = x + 1;
        }
        assert(rows.subrange(0, x as int) =~= rows);
        out
    }

    /// The board as player `perspective` is shown it: its own queens `*`, the
    /// other player's `+`, arrows `@`, empty cells `_`; cells separated by
    /// spaces, rows by newlines.
    pub fn render(&self, perspective: PlayerTurn) -> (r: String)
        ensures
            r@ == board_text(self@, Some(perspective)),
    {
        self.render_view(Some(perspective))
    }

    /// The board as the first player is shown it.
    pub fn to_console_player1(&self) -> (r: String)
        ensures
            r@ == board_text(self@, Some(PlayerTurn::Player1)),
    {
        self.render_view(Some(PlayerTurn::Player1))
    }

    /// The board as the second player is shown it.
    pub fn to_console_player2(&self) -> (r: String)
        ensures
            r@ == board_text(self@, Some(PlayerTurn::Player2)),
    {
        self.render_view(Some(PlayerTurn::Player2))
    }

    /// The board for spectators, with its own glyphs for each kind of cell.
    pub fn to_discord(&self) -> (r: String)
        ensures
            r@ == board_text(self@, None),
    {
        self.render_view(None)
    }

    /// Plays `player_input` as `n`: the `from` cell must hold `n`'s queen,
    /// which travels to `to` over empty cells, and an arrow then flies from
    /// `to` to `arrow` over empty cells of the board as it stood before the
    /// move. On success `from` is emptied, the queen stands on `to`, `arrow` is
    /// blocked, and the result is `Ok(false)`: no end of game is ever detected
    /// here. On an error the board is unchanged.
    pub fn play(&mut self, player_input: PlayerInput, n: PlayerTurn) -> (r: Result<bool, GameError>)
        requires
            old(self).wf(),
        ensures
            final(self).wf(),
            match play_result(old(self)@, player_input, n) {
                Ok(b) => r == Ok::<bool, GameError>(false) && final(self)@ == b,
                Err(e) => r == Err::<bool, GameError>(e) && final(self)@ == old(self)@,
            },
    {
        let from_cell = match self.get_cell(player_input.from) {
            None => return Err(GameError::InputOutOfBounds),
            Some(c) => c,
        };
        let own = match n {
            PlayerTurn::Player1 => GameCell::Amazon1,
            PlayerTurn::Player2 => GameCell::Amazon2,
        };
        if from_cell != own {
            return Err(GameError::InputInvalidPosition);
        }
        if player_input.from == player_input.to {
            return Err(GameError::InputInvalidPosition);
        }
        if !self.clear_between(player_input.from, player_input.to) {
            return Err(GameError::InvalidTravel);
        }
        if !self.clear_between(player_input.to, player_input.arrow) {
            return Err(GameError::InvalidArrowTravel);
        }
        proof {
            let d = direction(player_input.from, player_input.to)->Some_0;
            let k = distance(player_input.from, player_input.to);
            assert(offset(player_input.from.x as int, d.0, k) == player_input.to.x);
            let e = direction(player_input.to, player_input.arrow)->Some_0;
            let m = distance(player_input.to, player_input.arrow);
            assert(offset(player_input.to.x as int, e.0, m) == player_input.arrow.x);
        }
        self.set_cell(player_input.from, GameCell::Empty);
        self.set_cell(player_input.to, own);
        self.set_cell(player_input.arrow, GameCell::Arrow);
        Ok(false)
    }
}

} // verus!
