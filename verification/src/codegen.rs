//! Generates the executable words from a vector of tokens.
use vstd::prelude::*;
use crate::error::{asm_error, err_at, fault, fault_error, note_views, push_note, AsmError, AsmErrorKind, AsmErrorV, Note, NoteKind, NoteV};
use crate::tokens::{views, Token, TokenV, TokenVariant, VariantV};

verus! {

/// Code generation stops with an error once more words than this would be
/// emitted.
pub const MAX_WORDS: usize = 0xFFF0;

/// Result of generating code for the tokens `t`: the words and the tokens
/// they come from, or the first error. Literals become words (truncated to
/// 16 bits), scopes and label definitions are dropped, anything else is an
/// error, and a program that already has more than `MAX_WORDS` words stops
/// at the next token.
pub open spec fn generate_spec(t: Seq<TokenV>) -> Result<(Seq<u16>, Seq<TokenV>), AsmErrorV>
    decreases t.len(),
{
    if t.len() == 0 {
        Ok((Seq::empty(), Seq::empty()))
    } else {
        match generate_spec(t.drop_last()) {
            Err(e) => Err(e),
            Ok((mem, toks)) => {
                let last = t.last();
                if toks.len() > MAX_WORDS {
                    Err(fault(AsmErrorKind::ProgramTooBig))
                } else {
                    match last.variant {
                        VariantV::DecLiteral { value } => Ok((mem.push(value as u16), toks.push(last))),
                        VariantV::Scope | VariantV::Unscope | VariantV::LabelDefinition { .. } => Ok(
                            (mem, toks),
                        ),
                        _ => Err(err_at(AsmErrorKind::UnprocessedToken, last.info)),
                    }
                }
            },
        }
    }
}

/// The warnings code generation gives, up to an error: one for each number
/// above 65535, which wraps to 16 bits.
pub open spec fn generate_notes(t: Seq<TokenV>) -> Seq<NoteV>
    decreases t.len(),
{
    if t.len() == 0 {
        Seq::empty()
    } else {
        let prev = generate_notes(t.drop_last());
        match generate_spec(t.drop_last()) {
            Err(_) => prev,
            Ok((mem, toks)) => if toks.len() > MAX_WORDS {
                prev
            } else {
                match t.last().variant {
                    VariantV::DecLiteral { value } => if value > 0xFFFF {
                        prev.push(
                            NoteV {
                                kind: NoteKind::NumberWraps(value),
                                info: t.last().info,
                                related: None,
                                name: Seq::empty(),
                            },
                        )
                    } else {
                        prev
                    },
                    _ => prev,
                }
            },
        }
    }
}

proof fn lemma_generate_words(t: Seq<TokenV>)
    requires
        generate_spec(t) is Ok,
    ensures
        ({
            let (mem, toks) = generate_spec(t)->Ok_0;
            &&& mem.len() == toks.len()
            &&& mem.len() <= MAX_WORDS + 1
            &&& forall|i: int|
                0 <= i < mem.len() ==> #[trigger] toks[i].variant is DecLiteral && mem[i]
                    == (toks[i].variant->DecLiteral_value as u16)
        }),
    decreases t.len(),
{
    if t.len() > 0 {
        lemma_generate_words(t.drop_last());
    }
}

proof fn lemma_generate_error_stays(t: Seq<TokenV>, k: int)
    requires
        0 <= k <= t.len(),
        generate_spec(t.take(k)) is Err,
    ensures
        generate_spec(t) == generate_spec(t.take(k)),
        generate_notes(t) == generate_notes(t.take(k)),
    decreases t.len() - k,
{
    if k < t.len() {
        assert(t.take(k + 1).drop_last() =~= t.take(k));
        lemma_generate_error_stays(t, k + 1);
    } else {
        assert(t.take(k) =~= t);
    }
}

/// Returns both the executable words AND the tokens they come from, to be
/// able to report runtime errors.
/// Numbers above 65535 wrap to 16 bits; each gives a warning in `notes`.
pub fn generate(tokens: Vec<Token>, notes: &mut Vec<Note>) -> (res: Result<(Vec<u16>, Vec<Token>), AsmError>)
    ensures
        note_views(final(notes)@) == note_views(old(notes)@) + generate_notes(views(tokens@)),
        match (res, generate_spec(views(tokens@))) {
            (Ok((mem, toks)), Ok((smem, stoks))) => mem@ == smem && views(toks@) == stoks,
            (Err(e), Err(se)) => e@ == se,
            _ => false,
        },
        res is Ok ==> {
            let (mem, toks) = res->Ok_0;
            &&& mem.len() == toks.len()
            &&& mem.len() <= MAX_WORDS + 1
            &&& forall|i: int|
                0 <= i < mem.len() ==> #[trigger] views(toks@)[i].variant is DecLiteral && mem@[i]
                    == (views(toks@)[i].variant->DecLiteral_value as u16)
        },
{
    let mut mem: Vec<u16> = Vec::with_capacity(tokens.len());
    let mut final_tokens: Vec<Token> = Vec::with_capacity(tokens.len());
    let ghost t = views(tokens@);
    let mut i: usize = 0;
    proof {
        assert(t.take(0) =~= Seq::<TokenV>::empty());
        assert(mem@ =~= Seq::<u16>::empty());
        assert(views(final_tokens@) =~= Seq::<TokenV>::empty());
        assert(note_views(notes@) =~= note_views(old(notes)@) + generate_notes(t.take(0)));
    }
    while i < tokens.len()
        invariant
            i <= tokens.len(),
            t == views(tokens@),
            generate_spec(t.take(i as int)) == Ok::<(Seq<u16>, Seq<TokenV>), AsmErrorV>(
                (mem@, views(final_tokens@)),
            ),
            note_views(notes@) == note_views(old(notes)@) + generate_notes(t.take(i as int)),
        decreases tokens.len() - i,
    {
        let token = &tokens[i];
        proof {
            assert(t.take(i + 1).drop_last() =~= t.take(i as int));
            assert(t.take(i + 1).last() == token@);
        }
        if final_tokens.len() > MAX_WORDS {
            proof {
                lemma_generate_error_stays(t, i + 1);
            }
            return Err(fault_error(AsmErrorKind::ProgramTooBig));
        }
        match &token.variant {
            TokenVariant::DecLiteral { value } => {
                if *value > 0xFFFF {
                    let n = Note {
                        kind: NoteKind::NumberWraps(*value),
                        info: token.info.clone(),
                        related: None,
                        name: String::new(),
                    };
                    push_note(notes, n);
                    proof {
                        assert(note_views(notes@) =~= note_views(old(notes)@) + generate_notes(t.take(i + 1)));
                    }
                }
                mem.push(#[verifier::truncate] (*value as u16));
                let c = token.clone();
                proof {
                    assert(views(final_tokens@.push(c)) =~= views(final_tokens@).push(c@));
                }
                final_tokens.push(c);
            },
            TokenVariant::Scope | TokenVariant::Unscope | TokenVariant::LabelDefinition { .. } => {},
            _ => {
                proof {
                    lemma_generate_error_stays(t, i + 1);
                }
                return Err(asm_error(AsmErrorKind::UnprocessedToken, &token.info));
            },
        }
        i += 1;
    }
    proof {
        assert(t.take(tokens.len() as int) =~= t);
        lemma_generate_words(t);
        assert forall|k: int| 0 <= k < final_tokens.len() implies #[trigger] final_tokens@[k]@ == views(final_tokens@)[k] by {}
    }
    Ok((mem, final_tokens))
}

} // verus!
