//! A simpler instruction pass: completes `b -= a` instructions
//! and collapses label definitions, dropping line breaks.
use vstd::prelude::*;
use crate::error::{asm_error, err_at, AsmError, AsmErrorKind, AsmErrorV};
use crate::parser::other::{bad_label_offset, label_offset_value, prepend};
use crate::tokens::{push_token, views, with_info_v, InfoV, LabelOffset, Token, TokenV, TokenVariant, VariantV};

verus! {

/// The relative operand `$1` that completes `b -= a`: at the line break,
/// four characters on.
pub open spec fn statement_relative(linebreak: TokenV) -> TokenV {
    TokenV {
        info: InfoV { start_char: (linebreak.info.start_char + 4) as i32, ..linebreak.info },
        variant: VariantV::Relative { offset: 1 },
        origin_info: Seq::empty(),
    }
}

/// Output of `separate_statements` for the tokens from index `i` on.
pub open spec fn statements_from(t: Seq<TokenV>, i: int) -> Result<Seq<TokenV>, AsmErrorV>
    decreases t.len() - i,
{
    if i >= t.len() || i < 0 {
        Ok(Seq::empty())
    } else if t[i].variant is Linebreak {
        statements_from(t, i + 1)
    } else if i + 2 < t.len() && t[i + 1].variant is LabelArrow {
        match t[i].variant {
            VariantV::Label { name } => prepend(
                seq![
                    with_info_v(
                        VariantV::LabelDefinition {
                            name,
                            offset: label_offset_value(t[i + 1].variant->LabelArrow_offset) as i32,
                        },
                        TokenV { origin_info: Seq::empty(), ..t[i + 1] },
                    ),
                ],
                statements_from(t, i + 2),
            ),
            _ => Err(err_at(AsmErrorKind::OnlyLabelBeforeArrow, t[i].info)),
        }
    } else if i + 1 < t.len() && t[i + 1].variant is Subleq && i + 3 < t.len()
        && t[i + 3].variant is Linebreak {
        prepend(seq![t[i + 2], t[i], statement_relative(t[i + 3])], statements_from(t, i + 4))
    } else if i + 1 < t.len() && t[i + 1].variant is Subleq && i + 4 < t.len() {
        prepend(seq![t[i + 2], t[i], t[i + 3]], statements_from(t, i + 5))
    } else {
        prepend(seq![t[i]], statements_from(t, i + 1))
    }
}

/// `separate_statements` would crash: a label arrow with a character other
/// than `a`, `b` or `c`, or a line break whose position overflows.
pub open spec fn statements_crash(t: Seq<TokenV>, i: int) -> bool
    decreases t.len() - i,
{
    if i >= t.len() || i < 0 {
        false
    } else if t[i].variant is Linebreak {
        statements_crash(t, i + 1)
    } else if i + 2 < t.len() && t[i + 1].variant is LabelArrow {
        if t[i].variant is Label && bad_label_offset(t[i + 1].variant->LabelArrow_offset) {
            true
        } else if t[i].variant is Label {
            statements_crash(t, i + 2)
        } else {
            false
        }
    } else if i + 1 < t.len() && t[i + 1].variant is Subleq && i + 3 < t.len()
        && t[i + 3].variant is Linebreak {
        if t[i + 3].info.start_char + 4 > i32::MAX {
            true
        } else {
            statements_crash(t, i + 4)
        }
    } else if i + 1 < t.len() && t[i + 1].variant is Subleq && i + 4 < t.len() {
        statements_crash(t, i + 5)
    } else {
        statements_crash(t, i + 1)
    }
}

/// Puts instructions in the Subleq order (`b -= a` becomes `a b $1`),
/// turns a label and its arrow into one label definition, and drops line
/// breaks.
pub fn separate_statements(tokens: &Vec<Token>) -> (res: Result<Vec<Token>, AsmError>)
    requires
        !statements_crash(views(tokens@), 0),
    ensures
        match (res, statements_from(views(tokens@), 0)) {
            (Ok(v), Ok(sv)) => views(v@) == sv,
            (Err(e), Err(se)) => e@ == se,
            _ => false,
        },
{
    let ghost t = views(tokens@);
    let mut new_tokens: Vec<Token> = Vec::new();
    let mut i: usize = 0;
    while i < tokens.len()
        invariant
            i <= tokens.len(),
            t == views(tokens@),
            statements_from(t, 0) == prepend(views(new_tokens@), statements_from(t, i as int)),
            !statements_crash(t, i as int),
        decreases tokens.len() - i,
    {
        let ghost start = views(new_tokens@);
        if matches!(tokens[i].variant, TokenVariant::Linebreak) {
            i += 1;
            continue;
        }
        if tokens.len() - i > 2 {
            if let TokenVariant::LabelArrow { offset } = &tokens[i + 1].variant {
                let name = match &tokens[i].variant {
                    TokenVariant::Label { name } => name,
                    _ => {
                        return Err(asm_error(AsmErrorKind::OnlyLabelBeforeArrow, &tokens[i].info));
                    },
                };
                let label_offset: i32 = match offset {
                    LabelOffset::Char(x) => {
                        if *x == 'a' {
                            0
                        } else if *x == 'b' {
                            1
                        } else {
                            2
                        }
                    },
                    LabelOffset::Int(x) => *x,
                };
                let d = Token {
                    info: tokens[i + 1].info.clone(),
                    variant: TokenVariant::LabelDefinition { name: name.clone(), offset: label_offset },
                    origin_info: Vec::new(),
                };
                assert(d@.origin_info =~= Seq::<InfoV>::empty());
                push_token(&mut new_tokens, d);
                proof {
                    match statements_from(t, i + 2) {
                        Ok(x) => assert(start + (seq![d@] + x) =~= views(new_tokens@) + x),
                        Err(_) => {},
                    }
                }
                i += 2;
                continue;
            }
        }
        if tokens.len() - i > 1 && matches!(tokens[i + 1].variant, TokenVariant::Subleq) {
            if tokens.len() - i > 3 && matches!(tokens[i + 3].variant, TokenVariant::Linebreak) {
                let mut updated_info = tokens[i + 3].info.clone();
                updated_info.start_char = updated_info.start_char + 4;
                let c2 = tokens[i + 2].clone();
                let c0 = tokens[i].clone();
                push_token(&mut new_tokens, c2);
                push_token(&mut new_tokens, c0);
                let rel = Token {
                    info: updated_info,
                    variant: TokenVariant::Relative { offset: 1 },
                    origin_info: Vec::new(),
                };
                assert(rel@.origin_info =~= Seq::<InfoV>::empty());
                assert(rel@ == statement_relative(t[i + 3]));
                push_token(&mut new_tokens, rel);
                proof {
                    match statements_from(t, i + 4) {
                        Ok(x) => assert(start + (seq![t[i + 2], t[i as int], rel@] + x)
                            =~= views(new_tokens@) + x),
                        Err(_) => {},
                    }
                }
                i += 4;
                continue;
            }
            if tokens.len() - i > 4 {
                let c2 = tokens[i + 2].clone();
                let c0 = tokens[i].clone();
                let c3 = tokens[i + 3].clone();
                push_token(&mut new_tokens, c2);
                push_token(&mut new_tokens, c0);
                push_token(&mut new_tokens, c3);
                proof {
                    match statements_from(t, i + 5) {
                        Ok(x) => assert(start + (seq![t[i + 2], t[i as int], t[i + 3]] + x)
                            =~= views(new_tokens@) + x),
                        Err(_) => {},
                    }
                }
                i += 5;
                continue;
            }
        }
        let c = tokens[i].clone();
        push_token(&mut new_tokens, c);
        proof {
            match statements_from(t, i + 1) {
                Ok(x) => assert(start + (seq![t[i as int]] + x) =~= views(new_tokens@) + x),
                Err(_) => {},
            }
        }
        i += 1;
    }
    proof {
        assert(views(new_tokens@) + Seq::<TokenV>::empty() =~= views(new_tokens@));
    }
    Ok(new_tokens)
}

} // verus!
