//! Turns the lexer's tokens into tokens that are all numbers.
pub mod labels;
pub mod literals;
pub mod macros;
pub mod other;
pub mod statements;

use vstd::prelude::*;
use crate::error::{fault, fault_error, note_views, AsmError, AsmErrorKind, AsmErrorV, Note, NoteV};
use crate::parser::labels::{
    assign_addresses_to_labels, assign_crashes, assign_fold, deref_from, deref_hangs,
    duplicate_notes, expand_derefs, grab_braced_label_definitions, grab_crash, grab_from, resolve_crashes,
    resolve_labels_and_relatives, resolve_out, resolve_state,
};
use crate::parser::literals::{char_and_hex_to_dec, convert_strings, literals_to_dec, strings_from};
use crate::parser::macros::{
    insert_macros, insert_notes, insert_spec, read_fold, read_macros, read_notes, MACRO_DEPTH_LIMIT,
};
use crate::parser::other::{
    assign_from, bad_label_offset, expand_mults, fix_crash, fix_from, fix_notes,
    fix_instructions_and_collapse_label_definitions, handle_assignments,
    mults_crash, mults_from,
};
use crate::tokens::{views, LabelOffset, Token, TokenV, TokenVariant};

verus! {

/// Whether `grab_braced_label_definitions` would read past the end.
pub fn grab_would_crash(tokens: &[Token]) -> (res: bool)
    ensures
        res == grab_crash(views(tokens@), 0),
{
    let ghost t = views(tokens@);
    let n = tokens.len();
    let mut i: usize = 0;
    while i < n
        invariant
            n == tokens.len(),
            t == views(tokens@),
            i <= n + 4,
            grab_crash(t, 0) == grab_crash(t, i as int),
        decreases n + 5 - i,
    {
        if matches!(tokens[i].variant, TokenVariant::BraceOpen) {
            if n - i <= 2 {
                return true;
            }
            if matches!(tokens[i + 2].variant, TokenVariant::LabelArrow { .. }) {
                if !matches!(tokens[i + 1].variant, TokenVariant::Label { .. }) {
                    return false;
                }
                if n - i <= 3 {
                    return true;
                }
                if matches!(tokens[i + 3].variant, TokenVariant::DecLiteral { .. })
                    || matches!(tokens[i + 3].variant, TokenVariant::Label { .. }) {
                    assert(grab_crash(t, i as int) == grab_crash(t, i + 5));
                    if n - i > 5 {
                        i += 5;
                    } else {
                        assert(!grab_crash(t, i + 5));
                        assert(!grab_crash(t, n as int));
                        i = n;
                    }
                    continue;
                }
                return false;
            }
        }
        i += 1;
    }
    false
}

/// Whether `expand_mults` would read past the end.
pub fn mults_would_crash(tokens: &[Token]) -> (res: bool)
    ensures
        res == mults_crash(views(tokens@), 0),
{
    let ghost t = views(tokens@);
    let n = tokens.len();
    let mut i: usize = 0;
    while i < n
        invariant
            n == tokens.len(),
            t == views(tokens@),
            i <= n + 2,
            mults_crash(t, 0) == mults_crash(t, i as int),
        decreases n + 3 - i,
    {
        if n - i > 1 && matches!(tokens[i + 1].variant, TokenVariant::Asterisk) {
            if n - i <= 2 {
                return true;
            }
            if matches!(tokens[i + 2].variant, TokenVariant::DecLiteral { .. }) {
                i += 3;
                continue;
            }
        }
        i += 1;
    }
    false
}

/// Whether `expand_derefs` would never finish.
pub fn derefs_would_hang(tokens: &[Token]) -> (res: bool)
    ensures
        res == deref_hangs(views(tokens@)),
{
    let ghost t = views(tokens@);
    let n = tokens.len();
    let mut i: usize = 0;
    while i < n
        invariant
            n == tokens.len(),
            t == views(tokens@),
            i <= n,
            forall|j: int|
                0 <= j < i ==> !(#[trigger] t[j].variant is Asterisk && !(j + 1 < t.len() && t[j
                    + 1].variant is Label)),
        decreases n - i,
    {
        if matches!(tokens[i].variant, TokenVariant::Asterisk) && !(n - i > 1 && matches!(
            tokens[i + 1].variant,
            TokenVariant::Label { .. }
        )) {
            assert(t[i as int].variant is Asterisk);
            return true;
        }
        i += 1;
    }
    false
}

/// Whether `fix_instructions_and_collapse_label_definitions` would crash.
pub fn fix_would_crash(tokens: &[Token]) -> (res: bool)
    ensures
        res == fix_crash(views(tokens@), 0),
{
    let ghost t = views(tokens@);
    let n = tokens.len();
    let mut i: usize = 0;
    while i < n
        invariant
            n == tokens.len(),
            t == views(tokens@),
            i <= n + 4,
            fix_crash(t, 0) == fix_crash(t, i as int),
        decreases n + 5 - i,
    {
        if matches!(tokens[i].variant, TokenVariant::Linebreak) {
            i += 1;
            continue;
        }
        if n - i > 1 {
            if let TokenVariant::LabelArrow { offset } = &tokens[i + 1].variant {
                let bad = match offset {
                    LabelOffset::Char(c) => *c != 'a' && *c != 'b' && *c != 'c',
                    LabelOffset::Int(_) => false,
                };
                assert(bad == bad_label_offset(t[i + 1].variant->LabelArrow_offset));
                if bad {
                    return true;
                }
                if matches!(tokens[i].variant, TokenVariant::Label { .. }) {
                    i += 2;
                    continue;
                }
                return false;
            }
            if matches!(tokens[i + 1].variant, TokenVariant::Subleq) && n - i > 3
                && matches!(tokens[i + 3].variant, TokenVariant::Linebreak) {
                let p: i64 = tokens[i + 2].info.start_char as i64 + tokens[i + 2].info.length as i64;
                let s: i64 = p + 2;
                if p < i32::MIN as i64 || p > i32::MAX as i64 || s < i32::MIN as i64 || s
                    > i32::MAX as i64 {
                    return true;
                }
                i += 4;
                continue;
            }
            if matches!(tokens[i + 1].variant, TokenVariant::Subleq) && n - i > 4 {
                i += 5;
                continue;
            }
        }
        i += 1;
    }
    false
}

proof fn lemma_assign_crash_grows(t: Seq<TokenV>, k: int)
    requires
        0 <= k <= t.len(),
        assign_crashes(t.take(k)),
    ensures
        assign_crashes(t),
    decreases t.len() - k,
{
    if k == t.len() {
        assert(t.take(k) =~= t);
    } else {
        assert(t.take(k + 1).drop_last() =~= t.take(k));
        lemma_assign_crash_grows(t, k + 1);
    }
}

proof fn lemma_resolve_crash_grows(t: Seq<TokenV>, k: int)
    requires
        0 <= k <= t.len(),
        resolve_crashes(t.take(k)),
    ensures
        resolve_crashes(t),
    decreases t.len() - k,
{
    if k == t.len() {
        assert(t.take(k) =~= t);
    } else {
        assert(t.take(k + 1).drop_last() =~= t.take(k));
        lemma_resolve_crash_grows(t, k + 1);
    }
}

proof fn lemma_resolve_address(t: Seq<TokenV>)
    ensures
        0 <= resolve_state(t).address <= t.len(),
    decreases t.len(),
{
    if t.len() > 0 {
        lemma_resolve_address(t.drop_last());
    }
}

proof fn lemma_assign_address(t: Seq<TokenV>)
    ensures
        0 <= assign_fold(t).address <= t.len(),
    decreases t.len(),
{
    if t.len() > 0 {
        lemma_assign_address(t.drop_last());
    }
}

/// Whether `assign_addresses_to_labels` would crash.
pub fn assign_would_crash(tokens: &[Token]) -> (res: bool)
    ensures
        res == assign_crashes(views(tokens@)),
{
    let ghost t = views(tokens@);
    let n = tokens.len();
    let mut address: usize = 0;
    let mut depth: u128 = 1;
    let mut i: usize = 0;
    assert(t.take(0) =~= Seq::<TokenV>::empty());
    while i < n
        invariant
            n == tokens.len(),
            t == views(tokens@),
            i <= n,
            depth <= i + 1,
            !assign_crashes(t.take(i as int)),
            assign_fold(t.take(i as int)).address == address,
            assign_fold(t.take(i as int)).stack.len() == depth,
        decreases n - i,
    {
        let tok = &tokens[i];
        proof {
            assert(t.take(i + 1).drop_last() =~= t.take(i as int));
            assert(t.take(i + 1).last() == tok@);
            lemma_assign_address(t.take(i as int));
        }
        let is_def = matches!(tok.variant, TokenVariant::BracedLabelDefinition { .. })
            || matches!(tok.variant, TokenVariant::LabelDefinition { .. });
        let unprocessed = matches!(tok.variant, TokenVariant::HexLiteral { .. })
            || matches!(tok.variant, TokenVariant::CharLiteral { .. })
            || matches!(tok.variant, TokenVariant::StrLiteral { .. });
        let overflow = match &tok.variant {
            TokenVariant::LabelDefinition { offset, .. } => {
                let off = #[verifier::truncate] (*offset as usize);
                address.checked_add(off).is_none()
            },
            _ => false,
        };
        if (is_def && depth == 0) || unprocessed || overflow {
            proof {
                assert(assign_crashes(t.take(i + 1)));
                lemma_assign_crash_grows(t, i + 1);
            }
            return true;
        }
        if matches!(tok.variant, TokenVariant::Scope) {
            depth += 1;
        } else if matches!(tok.variant, TokenVariant::Unscope) {
            if depth > 0 {
                depth -= 1;
            }
        }
        address += tok.size();
        i += 1;
    }
    assert(t.take(n as int) =~= t);
    false
}

/// Whether `resolve_labels_and_relatives` would crash.
pub fn resolve_would_crash(tokens: &[Token]) -> (res: bool)
    ensures
        res == resolve_crashes(views(tokens@)),
{
    let ghost t = views(tokens@);
    let n = tokens.len();
    let mut address: usize = 0;
    let mut i: usize = 0;
    assert(t.take(0) =~= Seq::<TokenV>::empty());
    while i < n
        invariant
            n == tokens.len(),
            t == views(tokens@),
            i <= n,
            !resolve_crashes(t.take(i as int)),
            resolve_state(t.take(i as int)).address == address,
        decreases n - i,
    {
        let tok = &tokens[i];
        proof {
            assert(t.take(i + 1).drop_last() =~= t.take(i as int));
            assert(t.take(i + 1).last() == tok@);
            lemma_resolve_address(t.take(i as int));
        }
        let unprocessed = matches!(tok.variant, TokenVariant::HexLiteral { .. })
            || matches!(tok.variant, TokenVariant::CharLiteral { .. })
            || matches!(tok.variant, TokenVariant::StrLiteral { .. });
        let overflow = match &tok.variant {
            TokenVariant::Relative { offset } => {
                let a: i32 = #[verifier::truncate] (address as i32);
                let sum: i64 = a as i64 + *offset as i64;
                sum < i32::MIN as i64 || sum > i32::MAX as i64
            },
            _ => false,
        };
        if unprocessed || overflow {
            proof {
                assert(resolve_crashes(t.take(i + 1)));
                lemma_resolve_crash_grows(t, i + 1);
            }
            return true;
        }
        address += tok.size();
        i += 1;
    }
    assert(t.take(n as int) =~= t);
    false
}

/// The passes after macro expansion: strings become characters, `*` with a
/// count repeats, `*label` dereferences, instructions are completed and
/// label definitions collapsed, then every label is resolved to its
/// address. A pass that could not run on the tokens it is given fails with
/// an error about the program as a whole.
pub open spec fn parse_after_macros(t4: Seq<TokenV>) -> Result<Seq<TokenV>, AsmErrorV> {
    match strings_from(t4, 0) {
        Err(e) => Err(e),
        Ok(t5) => if mults_crash(t5, 0) {
            Err(fault(AsmErrorKind::UnfinishedMultiplication))
        } else {
            let t6 = mults_from(t5, 0);
            if deref_hangs(t6) {
                Err(fault(AsmErrorKind::DerefWithoutLabel))
            } else if t6.len() * 9 > usize::MAX {
                Err(fault(AsmErrorKind::ProgramTooBig))
            } else {
                let t7 = deref_from(t6, 0, Seq::empty(), 0, 0);
                if fix_crash(t7, 0) {
                    Err(fault(AsmErrorKind::MalformedInstruction))
                } else {
                    match fix_from(t7, 0) {
                        Err(e) => Err(e),
                        Ok(t8) => if assign_crashes(t8) {
                            Err(fault(AsmErrorKind::LabelOutsideScope))
                        } else if resolve_crashes(t8) {
                            Err(fault(AsmErrorKind::AddressOverflow))
                        } else {
                            resolve_out(assign_fold(t8).entries, t8)
                        },
                    }
                }
            }
        },
    }
}

/// What `parse` makes of the lexer's tokens: the passes of
/// `parse_before_macros`, then macros are read and expanded, then the
/// passes of `parse_after_macros`.
pub open spec fn parse_spec(t0: Seq<TokenV>, check_types: bool) -> Result<Seq<TokenV>, AsmErrorV> {
    match parse_before_macros(t0) {
        Err(e) => Err(e),
        Ok(t3) => if t3.len() >= 0x8000_0000 {
            Err(fault(AsmErrorKind::ProgramTooBig))
        } else {
            match read_fold(t3) {
                Err(e) => Err(e),
                Ok(rs) => match insert_spec(rs.out, rs.macros, Seq::empty(), MACRO_DEPTH_LIMIT as nat, check_types) {
                    Err(e) => Err(e),
                    Ok(t4) => parse_after_macros(t4),
                },
            }
        },
    }
}

/// The notes that `parse` gives: those of reading and of expanding the
/// macros, up to an error.
pub open spec fn parse_notes(t0: Seq<TokenV>, check_types: bool) -> Seq<NoteV> {
    match parse_before_macros(t0) {
        Err(_) => Seq::empty(),
        Ok(t3) => if t3.len() >= 0x8000_0000 {
            Seq::empty()
        } else {
            read_notes(t3) + match read_fold(t3) {
                Err(_) => Seq::empty(),
                Ok(rs) => insert_notes(rs.out, rs.macros, Seq::empty(), MACRO_DEPTH_LIMIT as nat, check_types)
                    + match insert_spec(rs.out, rs.macros, Seq::empty(), MACRO_DEPTH_LIMIT as nat, check_types) {
                    Err(_) => Seq::empty(),
                    Ok(t4) => after_macros_notes(t4),
                },
            }
        },
    }
}

/// The notes of the passes after macro expansion: hints on jump targets
/// once instructions can be completed, then warnings on labels defined
/// twice in a scope once addresses can be assigned.
pub open spec fn after_macros_notes(t4: Seq<TokenV>) -> Seq<NoteV> {
    match strings_from(t4, 0) {
        Err(_) => Seq::empty(),
        Ok(t5) => if mults_crash(t5, 0) {
            Seq::empty()
        } else {
            let t6 = mults_from(t5, 0);
            if deref_hangs(t6) || t6.len() * 9 > usize::MAX {
                Seq::empty()
            } else {
                let t7 = deref_from(t6, 0, Seq::empty(), 0, 0);
                if fix_crash(t7, 0) {
                    Seq::empty()
                } else {
                    fix_notes(t7, 0) + match fix_from(t7, 0) {
                        Err(_) => Seq::empty(),
                        Ok(t8) => if assign_crashes(t8) {
                            Seq::empty()
                        } else {
                            duplicate_notes(assign_fold(t8).entries)
                        },
                    }
                }
            }
        },
    }
}

fn parse_rest(tokens: Vec<Token>, notes: &mut Vec<Note>) -> (res: Result<Vec<Token>, AsmError>)
    ensures
        note_views(final(notes)@) == note_views(old(notes)@) + after_macros_notes(views(tokens@)),
        match (res, parse_after_macros(views(tokens@))) {
            (Ok(t), Ok(st)) => views(t@) == st,
            (Err(e), Err(se)) => e@ == se,
            _ => false,
        },
{
    let ghost t4 = views(tokens@);
    let ghost n0 = note_views(notes@);
    proof {
        assert(n0 + Seq::<NoteV>::empty() =~= n0);
    }
    let tokens = convert_strings(tokens)?;
    if mults_would_crash(&tokens) {
        return Err(fault_error(AsmErrorKind::UnfinishedMultiplication));
    }
    let tokens = expand_mults(&tokens);
    if derefs_would_hang(&tokens) {
        return Err(fault_error(AsmErrorKind::DerefWithoutLabel));
    }
    if tokens.len() > usize::MAX / 9 {
        return Err(fault_error(AsmErrorKind::ProgramTooBig));
    }
    let tokens = expand_derefs(&tokens);
    if fix_would_crash(&tokens) {
        return Err(fault_error(AsmErrorKind::MalformedInstruction));
    }
    let mut tokens = match fix_instructions_and_collapse_label_definitions(&tokens, notes) {
        Ok(t) => t,
        Err(e) => {
            assert(note_views(notes@) =~= n0 + after_macros_notes(t4));
            return Err(e);
        },
    };
    let ghost n1 = note_views(notes@);
    proof {
        assert(n1 + Seq::<NoteV>::empty() =~= n1);
    }
    if assign_would_crash(&tokens) {
        return Err(fault_error(AsmErrorKind::LabelOutsideScope));
    }
    let scoped_label_table = assign_addresses_to_labels(&tokens, notes);
    proof {
        assert(note_views(notes@) =~= n0 + after_macros_notes(t4));
    }
    if resolve_would_crash(&tokens) {
        return Err(fault_error(AsmErrorKind::AddressOverflow));
    }
    resolve_labels_and_relatives(tokens.as_mut_slice(), &scoped_label_table)?;
    Ok(tokens)
}

/// The passes before macros: literals become numbers, assignments and
/// braced label definitions are rewritten.
pub open spec fn parse_before_macros(t0: Seq<TokenV>) -> Result<Seq<TokenV>, AsmErrorV> {
    match literals_to_dec(t0) {
        Err(e) => Err(e),
        Ok(t1) => match assign_from(t1, 0) {
            Err(e) => Err(e),
            Ok(t2) => if grab_crash(t2, 0) {
                Err(fault(AsmErrorKind::UnfinishedBracedLabel))
            } else {
                grab_from(t2, 0)
            },
        },
    }
}

fn parse_front(tokens: Vec<Token>) -> (res: Result<Vec<Token>, AsmError>)
    ensures
        match (res, parse_before_macros(views(tokens@))) {
            (Ok(t), Ok(st)) => views(t@) == st,
            (Err(e), Err(se)) => e@ == se,
            _ => false,
        },
{
    let mut tokens = tokens;
    char_and_hex_to_dec(&mut tokens)?;
    let tokens = handle_assignments(&tokens)?;
    if grab_would_crash(&tokens) {
        return Err(fault_error(AsmErrorKind::UnfinishedBracedLabel));
    }
    grab_braced_label_definitions(tokens)
}

/// Runs every parser pass over the lexer's tokens: literals become numbers,
/// macros are expanded, instructions completed and labels resolved to
/// their addresses, ready for code generation.
#[verifier::rlimit(40)]
pub fn parse(tokens: Vec<Token>, check_types: bool, notes: &mut Vec<Note>) -> (res: Result<Vec<Token>, AsmError>)
    ensures
        note_views(final(notes)@) == note_views(old(notes)@) + parse_notes(views(tokens@), check_types),
        match (res, parse_spec(views(tokens@), check_types)) {
            (Ok(t), Ok(st)) => views(t@) == st,
            (Err(e), Err(se)) => e@ == se,
            _ => false,
        },
{
    let ghost t0 = views(tokens@);
    let tokens = match parse_front(tokens) {
        Ok(t) => t,
        Err(e) => {
            return Err(e);
        },
    };
    assert(parse_before_macros(t0) == Ok::<Seq<TokenV>, AsmErrorV>(views(tokens@)));
    if tokens.len() >= 0x8000_0000 {
        return Err(fault_error(AsmErrorKind::ProgramTooBig));
    }
    let (tokens, macros) = match read_macros(tokens.as_slice(), notes) {
        Ok(x) => x,
        Err(e) => {
            return Err(e);
        },
    };
    let context: Vec<crate::tokens::Info> = Vec::new();
    assert(context.deep_view() =~= Seq::<crate::tokens::InfoV>::empty());
    let tokens = match insert_macros(tokens, &macros, context, check_types, notes) {
        Ok(t) => t,
        Err(e) => {
            assert(note_views(notes@) =~= note_views(old(notes)@) + parse_notes(t0, check_types));
            return Err(e);
        },
    };
    let ghost mid = note_views(notes@);
    let res = parse_rest(tokens, notes);
    assert(note_views(notes@) =~= note_views(old(notes)@) + parse_notes(t0, check_types));
    res
}

} // verus!
