//! Runs the parser and the code generator over a program's tokens.
use vstd::prelude::*;
use crate::codegen::{generate, generate_notes, generate_spec, MAX_WORDS};
use crate::error::{note_views, AsmError, AsmErrorV, Note, NoteV};
use crate::parser::{parse, parse_notes, parse_spec};
use crate::tokens::{views, Token, TokenV};

verus! {

/// The words and their tokens that a program's tokens assemble to.
pub open spec fn assemble_spec(t: Seq<TokenV>, check_types: bool) -> Result<(Seq<u16>, Seq<TokenV>), AsmErrorV> {
    match parse_spec(t, check_types) {
        Err(e) => Err(e),
        Ok(p) => generate_spec(p),
    }
}

/// The notes that assembling gives: those of the parser, then, once it
/// has succeeded, those of code generation.
pub open spec fn assemble_notes(t: Seq<TokenV>, check_types: bool) -> Seq<NoteV> {
    parse_notes(t, check_types) + match parse_spec(t, check_types) {
        Ok(p) => generate_notes(p),
        Err(_) => Seq::empty(),
    }
}

/// Assembles the tokens of a program (its files lexed, includes spliced
/// in): returns the memory image and, for each word, the token it comes
/// from. `check_types` asks for macro arguments to be checked against the
/// types their parameters' names give; warnings and hints are added to
/// `notes`.
pub fn assemble(tokens: Vec<Token>, check_types: bool, notes: &mut Vec<Note>) -> (res: Result<(Vec<u16>, Vec<Token>), AsmError>)
    ensures
        note_views(final(notes)@) == note_views(old(notes)@) + assemble_notes(views(tokens@), check_types),
        match (res, assemble_spec(views(tokens@), check_types)) {
            (Ok((mem, toks)), Ok((smem, stoks))) => mem@ == smem && views(toks@) == stoks,
            (Err(e), Err(se)) => e@ == se,
            _ => false,
        },
        res matches Ok((mem, toks)) ==> mem.len() == toks.len() && mem.len() <= MAX_WORDS + 1,
{
    let ghost t = views(tokens@);
    let parsed = match parse(tokens, check_types, notes) {
        Ok(p) => p,
        Err(e) => {
            assert(note_views(notes@) =~= note_views(old(notes)@) + assemble_notes(t, check_types));
            return Err(e);
        },
    };
    let ghost mid = note_views(notes@);
    let res = generate(parsed, notes);
    assert(note_views(notes@) =~= note_views(old(notes)@) + assemble_notes(t, check_types));
    res
}

} // verus!
