//! What the commands of the duel service ask for: program uploads, the
//! start of a duel, and the duel that a board message belongs to.

use vstd::prelude::*;
use crate::config::{is_named, AmazonsConfig, CommandOption, OptionValue};
use crate::text::{chars_of, nat_text, parse_nat_range};

verus! {

/// The largest program that can be uploaded, in bytes.
pub const MAX_PROGRAM_BYTES: u64 = 100_000_000;

/// Why an upload was refused.
#[derive(Debug, PartialEq, Eq, Clone, Copy, Structural)]
pub enum UploadError {
    /// The first option is not a file.
    NoAttachment,
    /// The file is larger than `MAX_PROGRAM_BYTES`; its size.
    TooLarge(u64),
    /// The file declares no content type.
    NoContentType,
    /// The file is not a WebAssembly module.
    BadContentType,
    /// The second option is not an integer.
    NoProgramId,
}

/// Why a duel could not be started.
#[derive(Debug, PartialEq, Eq, Clone, Copy, Structural)]
pub enum StartError {
    MissingProgram1,
    MissingProgram2,
}

/// What the command that starts a duel asks for.
#[derive(Debug, PartialEq, Eq, Clone, Copy, Structural)]
pub struct StartRequest {
    pub program1: usize,
    pub program2: usize,
    pub automatic: bool,
    pub config: AmazonsConfig,
}

/// The identifier under which an upload described by `options` is stored:
/// the first option is the file, the second the identifier, of which a
/// negative value counts as 0. The file must declare the WebAssembly content
/// type and hold at most `MAX_PROGRAM_BYTES`.
pub open spec fn upload_result(options: Seq<CommandOption>) -> Result<usize, UploadError> {
    if options.len() == 0 || !(options[0].value is Attachment) {
        Err(UploadError::NoAttachment)
    } else if options[0].value->size > MAX_PROGRAM_BYTES {
        Err(UploadError::TooLarge(options[0].value->size))
    } else if options[0].value->content_type is None {
        Err(UploadError::NoContentType)
    } else if options[0].value->content_type->Some_0@ != "application/wasm"@ {
        Err(UploadError::BadContentType)
    } else if options.len() < 2 || !(options[1].value is Integer) {
        Err(UploadError::NoProgramId)
    } else if options[1].value->Integer_0 < 0 {
        Ok(0)
    } else if options[1].value->Integer_0 > usize::MAX {
        Ok(usize::MAX)
    } else {
        Ok(options[1].value->Integer_0 as usize)
    }
}

/// The value of the first option named `name` that holds a non-negative
/// integer that fits a `usize`.
pub open spec fn first_id(options: Seq<CommandOption>, name: Seq<char>) -> Option<usize>
    decreases options.len(),
{
    if options.len() == 0 {
        None
    } else if options[0].name@ == name && options[0].value is Integer && 0
        <= options[0].value->Integer_0 <= usize::MAX {
        Some(options[0].value->Integer_0 as usize)
    } else {
        first_id(options.drop_first(), name)
    }
}

/// The value of the first option named `name` that holds a flag.
pub open spec fn first_flag(options: Seq<CommandOption>, name: Seq<char>) -> Option<bool>
    decreases options.len(),
{
    if options.len() == 0 {
        None
    } else if options[0].name@ == name && options[0].value is Boolean {
        Some(options[0].value->Boolean_0)
    } else {
        first_flag(options.drop_first(), name)
    }
}

/// The first line of `s`: up to its first newline, without a carriage
/// return just before that newline (as `str::lines` gives it).
pub open spec fn first_line(s: Seq<char>) -> Seq<char> {
    if exists|k: int| 0 <= k < s.len() && s[k] == '\n' {
        let k = choose|k: int|
            0 <= k < s.len() && s[k] == '\n' && forall|j: int| 0 <= j < k ==> s[j] != '\n';
        if k > 0 && s[k - 1] == '\r' {
            s.subrange(0, k - 1)
        } else {
            s.subrange(0, k)
        }
    } else {
        s
    }
}

/// The duel identifier that a board message `s` carries: its first line
/// starts with a heading of seven characters (`# Game `), and the rest of
/// that line is the identifier.
pub open spec fn game_id_text(s: Seq<char>) -> Option<usize> {
    let l = first_line(s);
    if s.len() == 0 || l.len() < 7 {
        None
    } else {
        nat_text(l.subrange(7, l.len() as int))
    }
}

/// Checks an upload request: which identifier the program is stored under,
/// or why it is refused (see `upload_result`).
pub fn check_upload(options: &[CommandOption]) -> (r: Result<usize, UploadError>)
    ensures
        r == upload_result(options@),
{
    if options.len() == 0 {
        return Err(UploadError::NoAttachment);
    }
    let (size, content_type) = match &options[0].value {
        OptionValue::Attachment { size, content_type } => (*size, content_type),
        _ => return Err(UploadError::NoAttachment),
    };
    if size > MAX_PROGRAM_BYTES {
        return Err(UploadError::TooLarge(size));
    }
    let content_type = match content_type {
        None => return Err(UploadError::NoContentType),
        Some(c) => c,
    };
    if !is_named(content_type, "application/wasm") {
        return Err(UploadError::BadContentType);
    }
    if options.len() < 2 {
        return Err(UploadError::NoProgramId);
    }
    match options[1].value {
        OptionValue::Integer(id) => {
            if id < 0 {
                Ok(0)
            } else if id as u64 > usize::MAX as u64 {
                Ok(usize::MAX)
            } else {
                Ok(id as usize)
            }
        },
        _ => Err(UploadError::NoProgramId),
    }
}

fn find_id(options: &[CommandOption], name: &str) -> (r: Option<usize>)
    ensures
        r == first_id(options@, name@),
{
    let mut i: usize = 0;
    assert(options@.subrange(0, options@.len() as int) =~= options@);
    while i < options.len()
        invariant
            i <= options@.len(),
            first_id(options@, name@) == first_id(options@.subrange(i as int, options@.len() as int), name@),
        decreases options@.len() - i,
    {
        let ghost rest = options@.subrange(i as int, options@.len() as int);
        assert(rest.drop_first() =~= options@.subrange(i + 1, options@.len() as int));
        assert(rest[0] == options@[i as int]);
        if is_named(&options[i].name, name) {
            if let OptionValue::Integer(v) = options[i].value {
                if v >= 0 && v as u64 <= usize::MAX as u64 {
                    return Some(v as usize);
                }
            }
        }
        i = i + 1;
    }
    assert(options@.subrange(i as int, options@.len() as int).len() == 0);
    None
}

fn find_flag(options: &[CommandOption], name: &str) -> (r: Option<bool>)
    ensures
        r == first_flag(options@, name@),
{
    let mut i: usize = 0;
    assert(options@.subrange(0, options@.len() as int) =~= options@);
    while i < options.len()
        invariant
            i <= options@.len(),
            first_flag(options@, name@) == first_flag(options@.subrange(i as int, options@.len() as int), name@),
        decreases options@.len() - i,
    {
        let ghost rest = options@.subrange(i as int, options@.len() as int);
        assert(rest.drop_first() =~= options@.subrange(i + 1, options@.len() as int));
        assert(rest[0] == options@[i as int]);
        if is_named(&options[i].name, name) {
            if let OptionValue::Boolean(b) = options[i].value {
                return Some(b);
            }
        }
        i = i + 1;
    }
    assert(options@.subrange(i as int, options@.len() as int).len() == 0);
    None
}

/// Reads the options of the command that starts a duel: the two programs
/// (`program1`, `program2`), whether the duel plays itself (`automatic`, by
/// default not), and the board configuration (see
/// `AmazonsConfig::from_options`).
pub fn parse_start_options(options: &[CommandOption]) -> (r: Result<StartRequest, StartError>)
    ensures
        match (first_id(options@, "program1"@), first_id(options@, "program2"@)) {
            (None, _) => r == Err::<StartRequest, StartError>(StartError::MissingProgram1),
            (Some(_), None) => r == Err::<StartRequest, StartError>(StartError::MissingProgram2),
            (Some(a), Some(b)) => r is Ok && r->Ok_0.program1 == a && r->Ok_0.program2 == b
                && r->Ok_0.automatic == (first_flag(options@, "automatic"@) == Some(true))
                && r->Ok_0.config == AmazonsConfig::from_options_spec(options@),
        },
{
    let program1 = match find_id(options, "program1") {
        None => return Err(StartError::MissingProgram1),
        Some(p) => p,
    };
    let program2 = match find_id(options, "program2") {
        None => return Err(StartError::MissingProgram2),
        Some(p) => p,
    };
    let automatic = match find_flag(options, "automatic") {
        Some(true) => true,
        _ => false,
    };
    let config = AmazonsConfig::from_options(options);
    Ok(StartRequest { program1, program2, automatic, config })
}

/// Reads the duel identifier from the text of a board message (see
/// `game_id_text`).
pub fn parse_game_id(content: &str) -> (r: Option<usize>)
    ensures
        r == game_id_text(content@),
{
    let cs = chars_of(content);
    let n = cs.len();
    if n == 0 {
        return None;
    }
    let mut k: usize = 0;
    while k < n && cs[k] != '\n'
        invariant
            k <= n == cs@.len(),
            forall|j: int| 0 <= j < k ==> cs@[j] != '\n',
        decreases n - k,
    {
        k = k + 1;
    }
    let mut end = k;
    if k < n {
        proof {
            let m = choose|m: int|
                0 <= m < cs@.len() && cs@[m] == '\n' && forall|j: int| 0 <= j < m ==> cs@[j] != '\n';
            assert(0 <= k < cs@.len() && cs@[k as int] == '\n');
            if m < k {
                assert(cs@[m] != '\n');
            } else if k < m {
                assert(cs@[k as int] != '\n');
            }
        }
        if k > 0 && cs[k - 1] == '\r' {
            end = k - 1;
        }
    } else {
        assert(cs@.subrange(0, n as int) =~= cs@);
    }
    assert(first_line(content@) == cs@.subrange(0, end as int));
    if end < 7 {
        return None;
    }
    assert(cs@.subrange(0, end as int).subrange(7, end as int) =~= cs@.subrange(7, end as int));
    parse_nat_range(&cs, 7, end)
}

} // verus!
