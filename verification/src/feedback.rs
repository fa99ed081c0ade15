//! The decisions behind the assembler's messages: their levels, which
//! place a message points at, and what a runtime error reports.
use vstd::prelude::*;
use crate::runtimes::RuntimeError;
use crate::tokens::{Info, InfoV, Token, TokenV};

verus! {

/// The kind of a message.
#[derive(Debug, PartialEq, Eq, Structural, Clone, Copy)]
pub enum Type {
    Info,
    Warn,
    Error,
    Trace,
    Details,
}

/// The level of a log record, most severe first (the order of
/// `log::Level`).
#[derive(Debug, PartialEq, Eq, Structural, Clone, Copy)]
pub enum Level {
    Error,
    Warn,
    Info,
    Debug,
    Trace,
}

/// The most verbose level that is shown, `Off` showing nothing (the order
/// of `log::LevelFilter`).
#[derive(Debug, PartialEq, Eq, Structural, Clone, Copy)]
pub enum LevelFilter {
    Off,
    Error,
    Warn,
    Info,
    Debug,
    Trace,
}

/// The rank of a level: 1 for `Error` up to 5 for `Trace`.
pub open spec fn level_rank(l: Level) -> int {
    match l {
        Level::Error => 1,
        Level::Warn => 2,
        Level::Info => 3,
        Level::Debug => 4,
        Level::Trace => 5,
    }
}

/// The rank of a filter: 0 for `Off` up to 5 for `Trace`.
pub open spec fn filter_rank(f: LevelFilter) -> int {
    match f {
        LevelFilter::Off => 0,
        LevelFilter::Error => 1,
        LevelFilter::Warn => 2,
        LevelFilter::Info => 3,
        LevelFilter::Debug => 4,
        LevelFilter::Trace => 5,
    }
}

impl Type {
    /// The log level that decides whether a message of this kind is shown;
    /// traces and details go with notes.
    pub fn to_log_level(&self) -> (res: Level)
        ensures
            res == match *self {
                Type::Info => Level::Info,
                Type::Warn => Level::Warn,
                Type::Error => Level::Error,
                Type::Trace => Level::Info,
                Type::Details => Level::Info,
            },
    {
        match self {
            Type::Info => Level::Info,
            Type::Warn => Level::Warn,
            Type::Error => Level::Error,
            Type::Trace => Level::Info,
            Type::Details => Level::Info,
        }
    }

    /// The label a message of this kind starts with.
    pub fn label(&self) -> (res: &'static str)
        ensures
            res@ == match *self {
                Type::Info => "Note"@,
                Type::Warn => "WARN"@,
                Type::Error => "ERROR"@,
                Type::Trace => "Trace"@,
                Type::Details => "Info"@,
            },
    {
        match self {
            Type::Info => "Note",
            Type::Warn => "WARN",
            Type::Error => "ERROR",
            Type::Trace => "Trace",
            Type::Details => "Info",
        }
    }
}

/// Whether messages of level `l` are shown under the filter `f`.
pub fn shown(f: LevelFilter, l: Level) -> (res: bool)
    ensures
        res == (filter_rank(f) >= level_rank(l)),
{
    let fr: u8 = match f {
        LevelFilter::Off => 0,
        LevelFilter::Error => 1,
        LevelFilter::Warn => 2,
        LevelFilter::Info => 3,
        LevelFilter::Debug => 4,
        LevelFilter::Trace => 5,
    };
    let lr: u8 = match l {
        Level::Error => 1,
        Level::Warn => 2,
        Level::Info => 3,
        Level::Debug => 4,
        Level::Trace => 5,
    };
    fr >= lr
}

/// Sub messages, like traces and hints, are shown only when the message
/// they belong to (of level `parent`) is shown under the filter
/// `max_level`.
pub fn sub_message_level_check(max_level: LevelFilter, parent: Level) -> (res: bool)
    ensures
        res == (filter_rank(max_level) >= level_rank(parent)),
{
    shown(max_level, parent)
}

/// The place a message about a token points at: the last macro call it
/// came through, or the token itself.
pub open spec fn origin_or_info(t: TokenV) -> InfoV {
    if t.origin_info.len() > 0 {
        t.origin_info.last()
    } else {
        t.info
    }
}

/// Gives the last `origin_info` item, or the token's info otherwise.
pub fn origin_info_or_info(tok: &Token) -> (res: &Info)
    ensures
        res@ == origin_or_info(tok@),
{
    let n = tok.origin_info.len();
    if n > 0 {
        assert(tok@.origin_info.last() == tok.origin_info@[n - 1]@);
        &tok.origin_info[n - 1]
    } else {
        &tok.info
    }
}

/// What a runtime error is reported at: the token of a word of the
/// program, a pc when there are no tokens, or nothing (the word has no
/// token).
#[derive(Debug)]
pub enum RuntimeReport {
    AtToken { index: usize, message: &'static str },
    AtPc { pc: usize, message: &'static str },
    Nothing,
}

/// The word a runtime error is about: the instruction for `a`, its `b` or
/// `c` operand for the others when the program's tokens are known.
pub open spec fn runtime_error_index(e: RuntimeError, has_tokens: bool) -> int {
    match e {
        RuntimeError::AOutOfRange(pc) => pc as int,
        RuntimeError::BOutOfRange(pc) => if has_tokens {
            pc + 1
        } else {
            pc as int
        },
        RuntimeError::COutOfRange(pc) => if has_tokens {
            pc + 2
        } else {
            pc as int
        },
        RuntimeError::Breakpoint(pc) => if has_tokens {
            pc + 2
        } else {
            pc as int
        },
    }
}

/// The message of a runtime error.
pub open spec fn runtime_error_message(e: RuntimeError) -> Seq<char> {
    match e {
        RuntimeError::AOutOfRange(_) => "Address at 'A' is outside of memory bounds"@,
        RuntimeError::BOutOfRange(_) => "Address at 'B' is outside of memory bounds"@,
        RuntimeError::COutOfRange(_) => "Jump outside of memory bounds"@,
        RuntimeError::Breakpoint(_) => "Breakpoint"@,
    }
}

/// Decides how a runtime error is reported: at the token of the word it is
/// about when the program's tokens are known (nothing when that word has no
/// token), else with the pc.
pub fn asm_runtime_error(e: RuntimeError, tokens: &Option<Vec<Token>>) -> (res: RuntimeReport)
    requires
        match e {
            RuntimeError::AOutOfRange(pc) => true,
            RuntimeError::BOutOfRange(pc) => pc + 1 <= usize::MAX,
            RuntimeError::COutOfRange(pc) => pc + 2 <= usize::MAX,
            RuntimeError::Breakpoint(pc) => pc + 2 <= usize::MAX,
        },
    ensures
        match tokens {
            Some(t) => {
                let i = runtime_error_index(e, true);
                if i >= t.len() {
                    res is Nothing
                } else {
                    res matches RuntimeReport::AtToken { index, message } && index == i
                        && message@ == runtime_error_message(e)
                }
            },
            None => res matches RuntimeReport::AtPc { pc, message } && pc == runtime_error_index(
                e,
                false,
            ) && message@ == runtime_error_message(e),
        },
{
    let has = tokens.is_some();
    let (index, message): (usize, &'static str) = match e {
        RuntimeError::AOutOfRange(pc) => (pc, "Address at 'A' is outside of memory bounds"),
        RuntimeError::BOutOfRange(pc) => (
            if has {
                pc + 1
            } else {
                pc
            },
            "Address at 'B' is outside of memory bounds",
        ),
        RuntimeError::COutOfRange(pc) => (
            if has {
                pc + 2
            } else {
                pc
            },
            "Jump outside of memory bounds",
        ),
        RuntimeError::Breakpoint(pc) => (
            if has {
                pc + 2
            } else {
                pc
            },
            "Breakpoint",
        ),
    };
    match tokens {
        Some(t) => {
            if index >= t.len() {
                RuntimeReport::Nothing
            } else {
                RuntimeReport::AtToken { index, message }
            }
        },
        None => RuntimeReport::AtPc { pc: index, message },
    }
}

} // verus!
