//! The board configuration and the command options it is read from.

use vstd::prelude::*;
use crate::text::{decimal, decimal_text};

verus! {

/// The value given for one option of a command.
#[derive(Debug, PartialEq, Eq)]
pub enum OptionValue {
    Integer(i64),
    Boolean(bool),
    /// An uploaded file: its size in bytes and its declared content type.
    Attachment { size: u64, content_type: Option<String> },
    Other,
}

/// One named option of a command, as the user filled it in.
#[derive(Debug, PartialEq, Eq)]
pub struct CommandOption {
    pub name: String,
    pub value: OptionValue,
}

/// The size of the board and the number of queens of each player.
#[derive(Debug, Clone, Copy, PartialEq, Eq, Structural)]
pub struct AmazonsConfig {
    pub width: usize,
    pub height: usize,
    pub queens: usize,
}

pub open spec fn clamp(v: int, lo: int, hi: int) -> int {
    if v < lo {
        lo
    } else if v > hi {
        hi
    } else {
        v
    }
}

/// The integer setting that `options` give under `name`, clamped to
/// `[lo, hi]`; the last integer option of that name wins, and `default`
/// stands where there is none.
pub open spec fn option_setting(
    options: Seq<CommandOption>,
    name: Seq<char>,
    default: int,
    lo: int,
    hi: int,
) -> int
    decreases options.len(),
{
    if options.len() == 0 {
        default
    } else {
        let o = options.last();
        if o.name@ == name && o.value is Integer {
            clamp(o.value->Integer_0 as int, lo, hi)
        } else {
            option_setting(options.drop_last(), name, default, lo, hi)
        }
    }
}

proof fn lemma_option_setting_range(
    options: Seq<CommandOption>,
    name: Seq<char>,
    default: int,
    lo: int,
    hi: int,
)
    requires
        lo <= default <= hi,
    ensures
        lo <= option_setting(options, name, default, lo, hi) <= hi,
    decreases options.len(),
{
    if options.len() > 0 {
        lemma_option_setting_range(options.drop_last(), name, default, lo, hi);
    }
}

/// How a configuration is shown to users.
pub open spec fn config_text(c: AmazonsConfig) -> Seq<char> {
    "Width: "@ + decimal(c.width as nat) + " | Height: "@ + decimal(c.height as nat)
        + " | Queens: "@ + decimal(c.queens as nat)
}

/// Whether `name` reads `lit`.
pub fn is_named(name: &String, lit: &str) -> (r: bool)
    ensures
        r == (name@ == lit@),
{
    let l = lit.to_owned();
    *name == l
}

pub fn clamp_i64(v: i64, lo: i64, hi: i64) -> (r: i64)
    requires
        lo <= hi,
    ensures
        r == clamp(v as int, lo as int, hi as int),
{
    if v < lo {
        lo
    } else if v > hi {
        hi
    } else {
        v
    }
}

pub fn clamp_usize(v: usize, lo: usize, hi: usize) -> (r: usize)
    requires
        lo <= hi,
    ensures
        r == clamp(v as int, lo as int, hi as int),
{
    if v < lo {
        lo
    } else if v > hi {
        hi
    } else {
        v
    }
}

impl AmazonsConfig {
    /// The configuration that `options` ask for.
    pub open spec fn from_options_spec(options: Seq<CommandOption>) -> AmazonsConfig {
        AmazonsConfig {
            width: option_setting(options, "width"@, 8, 5, 15) as usize,
            height: option_setting(options, "height"@, 8, 5, 15) as usize,
            queens: option_setting(options, "queens"@, 2, 2, 6) as usize,
        }
    }

    /// The configuration that `options` ask for: `width` and `height` clamped
    /// to `[5, 15]`, `queens` to `[2, 6]`, by default 8, 8 and 2. Options of
    /// other names, and values that are not integers, are ignored; where a
    /// name comes twice the last one counts.
    pub fn from_options(options: &[CommandOption]) -> (r: Self)
        ensures
            r == Self::from_options_spec(options@),
    {
        let mut width: usize = 8;
        let mut height: usize = 8;
        let mut queens: usize = 2;
        let mut i: usize = 0;
        while i < options.len()
            invariant
                i <= options@.len(),
                width == option_setting(options@.subrange(0, i as int), "width"@, 8, 5, 15),
                height == option_setting(options@.subrange(0, i as int), "height"@, 8, 5, 15),
                queens == option_setting(options@.subrange(0, i as int), "queens"@, 2, 2, 6),
            decreases options@.len() - i,
        {
            let option = &options[i];
            proof {
                reveal_strlit("width");
                reveal_strlit("height");
                reveal_strlit("queens");
                assert("width"@.len() != "height"@.len());
                assert("width"@.len() != "queens"@.len());
                assert("height"@[0] != "queens"@[0]);
                assert(options@.subrange(0, i + 1).drop_last() =~= options@.subrange(0, i as int));
                assert(options@.subrange(0, i + 1).last() == options@[i as int]);
            }
            if let OptionValue::Integer(v) = option.value {
                if is_named(&option.name, "width") {
                    width = clamp_i64(v, 5, 15) as usize;
                } else if is_named(&option.name, "height") {
                    height = clamp_i64(v, 5, 15) as usize;
                } else if is_named(&option.name, "queens") {
                    queens = clamp_i64(v, 2, 6) as usize;
                }
            }
            i = i + 1;
        }
        assert(options@.subrange(0, i as int) =~= options@);
        proof {
            lemma_option_setting_range(options@, "width"@, 8, 5, 15);
            lemma_option_setting_range(options@, "height"@, 8, 5, 15);
            lemma_option_setting_range(options@, "queens"@, 2, 2, 6);
        }
        AmazonsConfig { width, height, queens }
    }

    /// The configuration as shown to users:
    /// `Width: <w> | Height: <h> | Queens: <q>`.
    pub fn to_text(&self) -> (r: String)
        ensures
            r@ == config_text(*self),
    {
        let mut s = String::new();
        s.append("Width: ");
        s.append(decimal_text(self.width).as_str());
        s.append(" | Height: ");
        s.append(decimal_text(self.height).as_str());
        s.append(" | Queens: ");
        s.append(decimal_text(self.queens).as_str());
        s
    }
}

} // verus!
