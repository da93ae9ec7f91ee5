//! Moves and how they are read from a program's output.

use vstd::prelude::*;
use crate::pos::{first_at, lemma_first_unique, parse_pos_range, pos_text, Pos};
use crate::text::{
    all_white, chars_of, decimal, is_white, lemma_decimal, lemma_decimal_read, lemma_split_last,
    lemma_split_nonempty, lemma_split_single, lemma_trim_around, split, trim,
};

verus! {

/// A move: the queen on `from` travels to `to` and shoots an arrow at `arrow`.
#[derive(Debug, PartialEq, Eq, Clone, Copy, Structural)]
pub struct PlayerInput {
    pub from: Pos,
    pub to: Pos,
    pub arrow: Pos,
}

/// Why a program's output could not be read as a move.
#[derive(Debug, PartialEq, Eq, Clone, Copy, Structural)]
pub enum ParseError {
    /// The token is not a position `(x,y)`.
    MalformedToken,
    /// Fewer than three tokens are positions.
    TooFewTokens,
}

/// The positions among `tokens`, in order, the other tokens dropped.
pub open spec fn valid_positions(tokens: Seq<Seq<char>>) -> Seq<Pos>
    decreases tokens.len(),
{
    if tokens.len() == 0 {
        Seq::empty()
    } else {
        let r = valid_positions(tokens.drop_last());
        match pos_text(tokens.last()) {
            Some(p) => r.push(p),
            None => r,
        }
    }
}

/// The move that `s` spells: the first three of its `|`-separated tokens that
/// are positions, the rest ignored; `None` when fewer than three are.
pub open spec fn move_text(s: Seq<char>) -> Option<PlayerInput> {
    let ps = valid_positions(split(s, '|'));
    if ps.len() >= 3 {
        Some(PlayerInput { from: ps[0], to: ps[1], arrow: ps[2] })
    } else {
        None
    }
}

/// How a position is written: `(x,y)`, both in decimal.
pub open spec fn pos_spelling(p: Pos) -> Seq<char> {
    seq!['('] + decimal(p.x as nat) + seq![','] + decimal(p.y as nat) + seq![')']
}

/// A move written as three positions separated by `|`, with the white space
/// `w[0]`, ..., `w[5]` around them.
pub open spec fn spelled_move(a: Pos, b: Pos, c: Pos, w: Seq<Seq<char>>) -> Seq<char> {
    w[0] + pos_spelling(a) + w[1] + seq!['|'] + w[2] + pos_spelling(b) + w[3] + seq!['|'] + w[4]
        + pos_spelling(c) + w[5]
}

proof fn lemma_spelling_chars(p: Pos)
    ensures
        !pos_spelling(p).contains('|'),
        pos_spelling(p).len() > 0,
        !is_white(pos_spelling(p)[0]),
        !is_white(pos_spelling(p).last()),
{
    lemma_decimal(p.x as nat);
    lemma_decimal(p.y as nat);
    let s = pos_spelling(p);
    let dx = decimal(p.x as nat);
    let dy = decimal(p.y as nat);
    assert forall|i: int| 0 <= i < s.len() implies s[i] != '|' by {
        if 1 <= i < 1 + dx.len() {
            assert(s[i] == dx[i - 1]);
        } else if 2 + dx.len() <= i < 2 + dx.len() + dy.len() {
            assert(s[i] == dy[i - 2 - dx.len()]);
        }
    }
}

/// A written position with white space around it is read back as itself.
proof fn lemma_pos_read(p: Pos, w1: Seq<char>, w2: Seq<char>)
    requires
        all_white(w1),
        all_white(w2),
    ensures
        pos_text(w1 + pos_spelling(p) + w2) == Some(p),
{
    lemma_spelling_chars(p);
    let s = pos_spelling(p);
    lemma_trim_around(w1, s, w2);
    let dx = decimal(p.x as nat);
    let dy = decimal(p.y as nat);
    lemma_decimal(p.x as nat);
    lemma_decimal_read(p.x as nat);
    lemma_decimal_read(p.y as nat);
    let u = trim(w1 + s + w2);
    let inner = u.subrange(1, u.len() - 1);
    assert(inner =~= dx + seq![','] + dy);
    let k = dx.len() as int;
    assert forall|j: int| 0 <= j < k implies inner[j] != ',' by {
        assert(inner[j] == dx[j]);
    }
    assert(first_at(inner, ',', k));
    let m = choose|m: int| first_at(inner, ',', m);
    lemma_first_unique(inner, ',', k, m);
    assert(inner.subrange(0, k) =~= dx);
    assert(inner.subrange(k + 1, inner.len() as int) =~= dy);
}

/// A move written as three positions `(x,y)` separated by `|`, with any white
/// space around each, is read back as exactly those three positions.
pub proof fn lemma_parse_spelled_move(a: Pos, b: Pos, c: Pos, w: Seq<Seq<char>>)
    requires
        w.len() == 6,
        forall|i: int| 0 <= i < 6 ==> all_white(#[trigger] w[i]),
    ensures
        move_text(spelled_move(a, b, c, w)) == Some(PlayerInput { from: a, to: b, arrow: c }),
{
    let t1 = w[0] + pos_spelling(a) + w[1];
    let t2 = w[2] + pos_spelling(b) + w[3];
    let t3 = w[4] + pos_spelling(c) + w[5];
    assert(all_white(w[0]) && all_white(w[1]) && all_white(w[2]));
    assert(all_white(w[3]) && all_white(w[4]) && all_white(w[5]));
    assert forall|t: Seq<char>, p: Pos, v1: Seq<char>, v2: Seq<char>|
        all_white(v1) && all_white(v2) && t == v1 + pos_spelling(p) + v2 implies !t.contains('|') by {
        lemma_spelling_chars(p);
        if t.contains('|') {
            let j = choose|j: int| 0 <= j < t.len() && t[j] == '|';
            let s = pos_spelling(p);
            if j < v1.len() {
                assert(is_white(v1[j]));
            } else if j < v1.len() + s.len() {
                assert(s[j - v1.len()] == '|');
            } else {
                assert(is_white(v2[j - v1.len() - s.len()]));
            }
        }
    }
    lemma_split_single(t1, '|');
    lemma_split_last(t1, t2, '|');
    lemma_split_last(t1 + seq!['|'] + t2, t3, '|');
    assert(spelled_move(a, b, c, w) =~= t1 + seq!['|'] + t2 + seq!['|'] + t3);
    let pieces = seq![t1, t2, t3];
    assert(split(spelled_move(a, b, c, w), '|') =~= pieces);
    lemma_pos_read(a, w[0], w[1]);
    lemma_pos_read(b, w[2], w[3]);
    lemma_pos_read(c, w[4], w[5]);
    assert(pieces.drop_last() =~= seq![t1, t2]);
    assert(seq![t1, t2].drop_last() =~= seq![t1]);
    assert(seq![t1].drop_last() =~= Seq::<Seq<char>>::empty());
    assert(valid_positions(Seq::<Seq<char>>::empty()) == Seq::<Pos>::empty());
    assert(valid_positions(seq![t1]) =~= seq![a]);
    assert(valid_positions(seq![t1, t2]) =~= seq![a, b]);
    assert(valid_positions(pieces) =~= seq![a, b, c]);
}

impl Pos {
    /// Reads a position written `(x,y)`; `MalformedToken` for other text.
    pub fn parse_position(s: &str) -> (r: Result<Pos, ParseError>)
        ensures
            match pos_text(s@) {
                Some(p) => r == Ok::<Pos, ParseError>(p),
                None => r == Err::<Pos, ParseError>(ParseError::MalformedToken),
            },
    {
        match Pos::parse_pos(s) {
            Some(p) => Ok(p),
            None => Err(ParseError::MalformedToken),
        }
    }
}

impl PlayerInput {
    /// Reads a move from a program's output: its tokens are separated by `|`,
    /// and the first three that are positions give `from`, `to` and `arrow`;
    /// other tokens are ignored. `TooFewTokens` when fewer than three are
    /// positions.
    pub fn parse_move(s: &str) -> (r: Result<PlayerInput, ParseError>)
        ensures
            match move_text(s@) {
                Some(m) => r == Ok::<PlayerInput, ParseError>(m),
                None => r == Err::<PlayerInput, ParseError>(ParseError::TooFewTokens),
            },
    {
        let cs = chars_of(s);
        let mut found: Vec<Pos> = Vec::new();
        let mut st: usize = 0;
        let mut i: usize = 0;
        assert(cs@.subrange(0, 0) =~= Seq::<char>::empty());
        while i < cs.len()
            invariant
                st <= i <= cs@.len(),
                split(cs@.subrange(0, i as int), '|').len() >= 1,
                split(cs@.subrange(0, i as int), '|').last() == cs@.subrange(st as int, i as int),
                found@ == valid_positions(split(cs@.subrange(0, i as int), '|').drop_last()),
            decreases cs@.len() - i,
        {
            let ghost prev = split(cs@.subrange(0, i as int), '|');
            let ghost t = cs@.subrange(0, i + 1);
            proof {
                assert(t.drop_last() =~= cs@.subrange(0, i as int));
                assert(t.last() == cs@[i as int]);
                lemma_split_nonempty(t, '|');
            }
            if cs[i] == '|' {
                assert(split(t, '|') == prev.push(Seq::empty()));
                assert(split(t, '|').drop_last() =~= prev);
                assert(prev =~= prev.drop_last().push(prev.last()));
                match parse_pos_range(&cs, st, i) {
                    Some(p) => found.push(p),
                    None => {},
                }
                st = i + 1;
                assert(cs@.subrange(st as int, i + 1) =~= Seq::<char>::empty());
            } else {
                assert(split(t, '|').drop_last() =~= prev.drop_last());
                assert(cs@.subrange(st as int, i + 1) =~= cs@.subrange(st as int, i as int).push(
                    cs@[i as int],
                ));
            }
            i = i + 1;
        }
        let ghost all = split(cs@.subrange(0, i as int), '|');
        assert(cs@.subrange(0, i as int) =~= s@);
        assert(all =~= all.drop_last().push(all.last()));
        match parse_pos_range(&cs, st, i) {
            Some(p) => found.push(p),
            None => {},
        }
        assert(found@ == valid_positions(split(s@, '|')));
        if found.len() < 3 {
            return Err(ParseError::TooFewTokens);
        }
        Ok(PlayerInput { from: found[0], to: found[1], arrow: found[2] })
    }
}

impl std::str::FromStr for PlayerInput {
    type Err = ParseError;

    fn from_str(s: &str) -> Result<Self, Self::Err> {
        PlayerInput::parse_move(s)
    }
}

} // verus!
