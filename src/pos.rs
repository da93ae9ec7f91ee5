//! Board coordinates: reading them, moving them, and the directions between
//! them.

use vstd::prelude::*;
use crate::text::{chars_of, parse_nat_range, trim, trim_range, nat_text};

verus! {

/// A cell coordinate: `x` picks the row of the board, `y` the cell within it.
#[derive(Debug, PartialEq, Eq, Clone, Copy, Structural)]
pub struct Pos {
    pub x: usize,
    pub y: usize,
}

/// `k` is the index of the first `c` in `s`.
pub open spec fn first_at(s: Seq<char>, c: char, k: int) -> bool {
    &&& 0 <= k < s.len()
    &&& s[k] == c
    &&& forall|j: int| 0 <= j < k ==> s[j] != c
}

/// The position that the token `t` spells: `(x,y)` with white space allowed
/// around the token and around each number; `None` for any other text.
pub open spec fn pos_text(t: Seq<char>) -> Option<Pos> {
    let u = trim(t);
    if u.len() >= 2 && u[0] == '(' && u.last() == ')' {
        let inner = u.subrange(1, u.len() - 1);
        if exists|k: int| first_at(inner, ',', k) {
            let k = choose|k: int| first_at(inner, ',', k);
            match (
                nat_text(trim(inner.subrange(0, k))),
                nat_text(trim(inner.subrange(k + 1, inner.len() as int))),
            ) {
                (Some(x), Some(y)) => Some(Pos { x, y }),
                _ => None,
            }
        } else {
            None
        }
    } else {
        None
    }
}

pub open spec fn sign(d: int) -> int {
    if d > 0 {
        1
    } else if d < 0 {
        -1
    } else {
        0
    }
}

pub open spec fn abs(d: int) -> int {
    if d < 0 {
        -d
    } else {
        d
    }
}

/// The unit step that leads from `a` to `b` along a row, a column or a
/// diagonal; `None` when `a == b` or when no such line joins them.
pub open spec fn direction(a: Pos, b: Pos) -> Option<(int, int)> {
    let dx = b.x - a.x;
    let dy = b.y - a.y;
    if dx == 0 && dy == 0 {
        None
    } else if dx != 0 && dy != 0 && abs(dx) != abs(dy) {
        None
    } else {
        Some((sign(dx), sign(dy)))
    }
}

/// `p` moved by `(dx, dy)`, where both coordinates stay within `usize`.
pub open spec fn shifted(p: Pos, dx: int, dy: int) -> Option<Pos> {
    if 0 <= p.x + dx <= usize::MAX && 0 <= p.y + dy <= usize::MAX {
        Some(Pos { x: (p.x + dx) as usize, y: (p.y + dy) as usize })
    } else {
        None
    }
}

pub proof fn lemma_first_unique(s: Seq<char>, c: char, k: int, m: int)
    requires
        first_at(s, c, k),
        first_at(s, c, m),
    ensures
        k == m,
{
    if k < m {
        assert(s[k] != c);
    } else if m < k {
        assert(s[m] != c);
    }
}

impl Pos {
    /// Reads a position written `(x,y)`.
    pub fn parse_pos(s: &str) -> (r: Option<Self>)
        ensures
            r == pos_text(s@),
    {
        let cs = chars_of(s);
        assert(cs@.subrange(0, cs@.len() as int) =~= s@);
        parse_pos_range(&cs, 0, cs.len())
    }

    /// `self` moved by `(dx, dy)`; `None` where a coordinate would leave `usize`.
    pub fn shift(&self, dx: isize, dy: isize) -> (r: Option<Self>)
        ensures
            r == shifted(*self, dx as int, dy as int),
    {
        match self.x.checked_add_signed(dx) {
            None => None,
            Some(x) => match self.y.checked_add_signed(dy) {
                None => None,
                Some(y) => Some(Pos { x, y }),
            },
        }
    }
}

/// The position spelt by `cs[lo..hi]`.
pub fn parse_pos_range(cs: &Vec<char>, lo: usize, hi: usize) -> (r: Option<Pos>)
    requires
        lo <= hi <= cs@.len(),
    ensures
        r == pos_text(cs@.subrange(lo as int, hi as int)),
{
    let ghost t = cs@.subrange(lo as int, hi as int);
    let (a, b) = trim_range(cs, lo, hi);
    let ghost u = cs@.subrange(a as int, b as int);
    if b - a < 2 || cs[a] != '(' || cs[b - 1] != ')' {
        return None;
    }
    let ghost inner = u.subrange(1, u.len() - 1);
    assert(inner =~= cs@.subrange(a + 1, b - 1));
    let mut k = a + 1;
    while k < b - 1 && cs[k] != ','
        invariant
            a + 1 <= k <= b - 1,
            b <= cs@.len(),
            inner == cs@.subrange(a + 1, b - 1),
            forall|j: int| 0 <= j < k - (a + 1) ==> inner[j] != ',',
        decreases b - 1 - k,
    {
        k = k + 1;
    }
    if k == b - 1 {
        assert(!exists|m: int| first_at(inner, ',', m));
        return None;
    }
    let ghost kk = k - (a + 1);
    assert(first_at(inner, ',', kk));
    proof {
        let m = choose|m: int| first_at(inner, ',', m);
        lemma_first_unique(inner, ',', kk, m);
    }
    assert(inner.subrange(0, kk) =~= cs@.subrange(a + 1, k as int));
    assert(inner.subrange(kk + 1, inner.len() as int) =~= cs@.subrange(k + 1, b - 1));
    let (xa, xb) = trim_range(cs, a + 1, k);
    let x = parse_nat_range(cs, xa, xb);
    let (ya, yb) = trim_range(cs, k + 1, b - 1);
    let y = parse_nat_range(cs, ya, yb);
    match (x, y) {
        (Some(x), Some(y)) => Some(Pos { x, y }),
        _ => None,
    }
}

/// The unit step from `from` towards `to` along one of the eight principal
/// directions, or `None` (see `direction`).
pub fn get_dir(from: Pos, to: Pos) -> (r: Option<(isize, isize)>)
    ensures
        match r {
            None => direction(from, to) is None,
            Some(d) => direction(from, to) == Some((d.0 as int, d.1 as int)),
        },
{
    let (sx, ax): (isize, usize) = if to.x > from.x {
        (1, to.x - from.x)
    } else if to.x < from.x {
        (-1, from.x - to.x)
    } else {
        (0, 0)
    };
    let (sy, ay): (isize, usize) = if to.y > from.y {
        (1, to.y - from.y)
    } else if to.y < from.y {
        (-1, from.y - to.y)
    } else {
        (0, 0)
    };
    if sx != 0 && sy != 0 && ax != ay {
        return None;
    }
    if sx == 0 && sy == 0 {
        return None;
    }
    Some((sx, sy))
}

} // verus!
