//! Errors that stop the assembler.
use vstd::prelude::*;
use crate::tokens::{Info, InfoV};

verus! {

/// What went wrong while assembling.
#[derive(Debug, PartialEq, Eq, Structural, Clone, Copy)]
pub enum AsmErrorKind {
    /// A character that cannot start or continue a token.
    UnexpectedCharacter,
    /// A `?` where a token starts.
    LabelStartsWithQuestionMark,
    /// `-` followed by something other than `=`, `>`, a digit or `a`/`b`/`c`.
    ExpectedSubleqOrArrow,
    /// A letter right after a leading zero.
    LabelStartsWithNumber,
    /// A letter inside a hex literal.
    UnexpectedCharInHex,
    /// A letter inside a decimal literal.
    UnexpectedCharInDec,
    /// An escape sequence that `unescape` rejects.
    InvalidEscapeSequence,
    /// `$0x..`: a hex number as relative offset.
    HexRelativeOffset,
    /// `$` without digits.
    ExpectedOffset,
    /// A decimal number that does not fit in 32 bits.
    NumberTooLarge,
    /// An empty character literal `''` or an empty escape `'\'`.
    EmptyCharLiteral,
    /// A hex literal that is not a 32 bit number.
    InvalidHexLiteral,
    /// Something other than a label before `->`.
    OnlyLabelBeforeArrow,
    /// Something other than a label in `(label -> value)`.
    ExpectedLabel,
    /// Something other than a label or literal in `(label -> value)`.
    ExpectedLabelOrLiteral,
    /// A braced label definition that ends early.
    UnfinishedBracedLabel,
    /// Something other than a label left of `=`.
    AssignmentLhsNotLabel,
    /// Something other than a label or literal right of `=`.
    AssignmentRhsInvalid,
    /// A label that is used but never defined.
    UndefinedLabel,
    /// `_ASM` is used but never defined.
    UndefinedAsmLabel,
    /// `[` or `]` outside a macro definition.
    UnexpectedMacroBodyToken,
    /// A parameter of a macro definition that is not a label.
    InvalidMacroParameter,
    /// A label arrow in a scoped macro body not preceded by a label.
    InvalidMacroLabelDefinition,
    /// A macro defined inside another macro.
    NestedMacroDefinition,
    /// A macro that calls itself.
    RecursiveMacroCall,
    /// A call of a macro that was never defined.
    UndefinedMacro,
    /// A line break among the arguments of a macro call.
    MissingMacroArguments,
    /// A `}` where a macro argument is expected.
    UnexpectedUnscope,
    /// The input ends before all arguments of a macro call are given.
    NotEnoughArguments,
    /// Macro calls nested deeper than the assembler follows.
    MacroNestingTooDeep,
    /// A `*` at the very end of the input.
    UnfinishedMultiplication,
    /// The program has more words than memory holds.
    ProgramTooBig,
    /// A token that should have been rewritten into a number.
    UnprocessedToken,
    /// A `*` that is neither a multiplication nor followed by a label.
    DerefWithoutLabel,
    /// An instruction whose label arrow or implicit operand cannot be
    /// placed.
    MalformedInstruction,
    /// A label defined after more `}` than `{`, or at an address that
    /// does not fit.
    LabelOutsideScope,
    /// A relative address that does not fit in 32 bits.
    AddressOverflow,
    /// A macro parameter whose type prefix cannot be read: its second
    /// byte lies inside a character.
    UnreadableParameterName,
}

/// An assembler error and the token or place it is about. `name` is the
/// label or macro the error is about (empty where there is none); `counts`
/// the number of arguments a macro call needs and the number it got.
#[derive(Debug)]
pub struct AsmError {
    pub kind: AsmErrorKind,
    pub info: Option<Info>,
    pub name: String,
    pub counts: Option<(usize, usize)>,
}

pub struct AsmErrorV {
    pub kind: AsmErrorKind,
    pub info: Option<InfoV>,
    pub name: Seq<char>,
    pub counts: Option<(usize, usize)>,
}

impl View for AsmError {
    type V = AsmErrorV;

    open spec fn view(&self) -> AsmErrorV {
        AsmErrorV {
            kind: self.kind,
            info: match self.info {
                Some(i) => Some(i@),
                None => None,
            },
            name: self.name@,
            counts: self.counts,
        }
    }
}

/// The error value that the specifications speak of.
pub open spec fn err_at(kind: AsmErrorKind, info: InfoV) -> AsmErrorV {
    AsmErrorV { kind, info: Some(info), name: Seq::empty(), counts: None }
}

/// An error about a named label or macro.
pub open spec fn err_named(kind: AsmErrorKind, info: InfoV, name: Seq<char>) -> AsmErrorV {
    AsmErrorV { kind, info: Some(info), name, counts: None }
}

/// An error about a macro call with the wrong number of arguments: how
/// many the macro takes and how many were found.
pub open spec fn err_counts(kind: AsmErrorKind, info: InfoV, expected: usize, found: usize) -> AsmErrorV {
    AsmErrorV { kind, info: Some(info), name: Seq::empty(), counts: Some((expected, found)) }
}

/// An error about the program as a whole rather than one place in it.
pub open spec fn fault(kind: AsmErrorKind) -> AsmErrorV {
    AsmErrorV { kind, info: None, name: Seq::empty(), counts: None }
}

/// Makes an error about the program as a whole.
pub fn fault_error(kind: AsmErrorKind) -> (res: AsmError)
    ensures
        res@ == fault(kind),
{
    AsmError { kind, info: None, name: String::new(), counts: None }
}

/// Makes an error about the given place.
pub fn asm_error(kind: AsmErrorKind, info: &Info) -> (res: AsmError)
    ensures
        res@ == err_at(kind, info@),
{
    AsmError { kind, info: Some(info.clone()), name: String::new(), counts: None }
}

/// Makes an error about a named label or macro at the given place.
pub fn asm_error_named(kind: AsmErrorKind, info: &Info, name: &String) -> (res: AsmError)
    ensures
        res@ == err_named(kind, info@, name@),
{
    AsmError { kind, info: Some(info.clone()), name: name.clone(), counts: None }
}

/// Makes an error about a macro call with `found` of `expected` arguments.
pub fn asm_error_counts(kind: AsmErrorKind, info: &Info, expected: usize, found: usize) -> (res: AsmError)
    ensures
        res@ == err_counts(kind, info@, expected, found),
{
    AsmError { kind, info: Some(info.clone()), name: String::new(), counts: Some((expected, found)) }
}

/// The type a macro parameter's name asks of its argument.
#[derive(Debug, PartialEq, Eq, Structural, Clone, Copy)]
pub enum ArgType {
    Scope,
    Braced,
    Literal,
    Label,
}

/// What a note tells the user; notes do not stop the assembler.
#[derive(Debug, PartialEq, Eq, Structural, Clone, Copy)]
pub enum NoteKind {
    /// A macro is defined again; `related` is the earlier definition.
    DuplicateMacro,
    /// A macro parameter without the trailing `?`; `name` is the
    /// parameter.
    ParameterWithoutQuestionMark,
    /// A label defined in a `[` `]` macro that is not one of its
    /// parameters.
    LabelInUnscopedMacro,
    /// A macro argument of the wrong type; `related` is the macro's
    /// parameter.
    WrongArgumentType(ArgType),
    /// A label defined again in the same scope; `related` is the
    /// definition it replaces, `name` the label.
    DuplicateLabel,
    /// The jump target of an instruction is a label whose own name (after
    /// the last `?`) does not start with `.`; `name` is the label.
    JumpLabelWithoutDot,
    /// A number above 65535 that wraps to 16 bits; the number it was.
    NumberWraps(i32),
}

/// A warning or a hint about a place in the source.
#[derive(Debug)]
pub struct Note {
    pub kind: NoteKind,
    pub info: Info,
    pub related: Option<Info>,
    pub name: String,
}

pub struct NoteV {
    pub kind: NoteKind,
    pub info: InfoV,
    pub related: Option<InfoV>,
    pub name: Seq<char>,
}

impl View for Note {
    type V = NoteV;

    open spec fn view(&self) -> NoteV {
        NoteV {
            kind: self.kind,
            info: self.info@,
            related: match self.related {
                Some(i) => Some(i@),
                None => None,
            },
            name: self.name@,
        }
    }
}

/// Makes a note.
pub fn note(kind: NoteKind, info: &Info, related: Option<&Info>, name: &String) -> (res: Note)
    ensures
        res@ == (NoteV {
            kind,
            info: info@,
            related: match related {
                Some(r) => Some(r@),
                None => None,
            },
            name: name@,
        }),
{
    Note {
        kind,
        info: info.clone(),
        related: match related {
            Some(r) => Some(r.clone()),
            None => None,
        },
        name: name.clone(),
    }
}

/// Appends a note.
pub fn push_note(notes: &mut Vec<Note>, n: Note)
    ensures
        note_views(final(notes)@) == note_views(old(notes)@).push(n@),
{
    notes.push(n);
    assert(note_views(final(notes)@) =~= note_views(old(notes)@).push(n@));
}

/// The views of a list of notes.
pub open spec fn note_views(s: Seq<Note>) -> Seq<NoteV> {
    s.map_values(|n: Note| n@)
}

} // verus!
