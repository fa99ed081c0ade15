//! The command line settings, as plain values.
use vstd::prelude::*;
use crate::feedback::LevelFilter;

verus! {

/// Level of assembler and runtime feedback.
#[derive(Debug, PartialEq, Eq, Structural, Clone, Copy)]
pub enum FeedbackLevel {
    Debug,
    Note,
    Warn,
    Error,
}

impl FeedbackLevel {
    /// The log filter for this level: notes are `Info`.
    pub fn to_log_level(&self) -> (res: LevelFilter)
        ensures
            res == match *self {
                FeedbackLevel::Debug => LevelFilter::Debug,
                FeedbackLevel::Note => LevelFilter::Info,
                FeedbackLevel::Warn => LevelFilter::Warn,
                FeedbackLevel::Error => LevelFilter::Error,
            },
    {
        match self {
            FeedbackLevel::Debug => LevelFilter::Debug,
            FeedbackLevel::Note => LevelFilter::Info,
            FeedbackLevel::Warn => LevelFilter::Warn,
            FeedbackLevel::Error => LevelFilter::Error,
        }
    }

    /// The name the level is written with on the command line.
    pub fn name(&self) -> (res: &'static str)
        ensures
            res@ == match *self {
                FeedbackLevel::Debug => "debug"@,
                FeedbackLevel::Note => "note"@,
                FeedbackLevel::Warn => "warn"@,
                FeedbackLevel::Error => "error"@,
            },
    {
        match self {
            FeedbackLevel::Debug => "debug",
            FeedbackLevel::Note => "note",
            FeedbackLevel::Warn => "warn",
            FeedbackLevel::Error => "error",
        }
    }
}

impl Default for FeedbackLevel {
    fn default() -> (res: Self)
        ensures
            res == FeedbackLevel::Note,
    {
        FeedbackLevel::Note
    }
}

/// The settings the program runs with.
#[derive(Debug)]
pub struct Args {
    /// File to assemble or execute; `./Main.sbl` when not given, and
    /// `folder/Main.sbl` for a folder.
    pub target: Option<String>,
    /// Level of assembler and runtime feedback.
    pub feedback_level: FeedbackLevel,
    /// Assemble (and write) only, do not run.
    pub disable_execution: bool,
    /// Run the program with the debugger.
    pub debugger: bool,
    /// Folder that stores libraries.
    pub libs_path: String,
    /// Disables type checking of macro arguments.
    pub disable_type_checking: bool,
    /// Output file: none, a file type, or a file name.
    pub output: Option<Option<String>>,
    /// Only errors from the assembler; program output is still shown.
    pub silent: bool,
    /// More notes and warnings.
    pub pedantic: bool,
    /// Treat warnings as errors.
    pub warnings_are_errors: bool,
}

/// The log filter the program runs with: the feedback level's, or errors
/// only when silent.
pub fn effective_log_level(args: &Args) -> (res: LevelFilter)
    ensures
        res == if args.silent {
            LevelFilter::Error
        } else {
            match args.feedback_level {
                FeedbackLevel::Debug => LevelFilter::Debug,
                FeedbackLevel::Note => LevelFilter::Info,
                FeedbackLevel::Warn => LevelFilter::Warn,
                FeedbackLevel::Error => LevelFilter::Error,
            }
        },
{
    if args.silent {
        LevelFilter::Error
    } else {
        args.feedback_level.to_log_level()
    }
}

} // verus!
