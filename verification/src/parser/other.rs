//! Multiplications, assignments and the Subleq instruction format.
use vstd::prelude::*;
use crate::error::{asm_error, err_at, note, note_views, push_note, AsmError, AsmErrorKind, AsmErrorV, Note, NoteKind, NoteV};
use crate::tokens::{
    push_token, views, with_info_v, Info, InfoV, LabelOffset, Token, TokenV, TokenVariant, VariantV,
};

verus! {

/// `label * n` repeats `label` n times. Output of the tokens from index `i`
/// on.
pub open spec fn mults_from(t: Seq<TokenV>, i: int) -> Seq<TokenV>
    decreases t.len() - i,
{
    if i >= t.len() || i < 0 {
        Seq::empty()
    } else if i + 2 < t.len() && t[i + 1].variant is Asterisk && t[i + 2].variant is DecLiteral {
        let count = t[i + 2].variant->DecLiteral_value;
        Seq::new(if count > 0 { count as nat } else { 0 }, |_k: int| t[i]) + mults_from(t, i + 3)
    } else {
        seq![t[i]] + mults_from(t, i + 1)
    }
}

/// `expand_mults` reads past the end: a `*` is the last token and the scan
/// reaches the token before it.
pub open spec fn mults_crash(t: Seq<TokenV>, i: int) -> bool
    decreases t.len() - i,
{
    if i >= t.len() || i < 0 {
        false
    } else if i + 1 < t.len() && t[i + 1].variant is Asterisk && i + 2 >= t.len() {
        true
    } else if i + 2 < t.len() && t[i + 1].variant is Asterisk && t[i + 2].variant is DecLiteral {
        mults_crash(t, i + 3)
    } else {
        mults_crash(t, i + 1)
    }
}

/// LABEL * 3 => LABEL LABEL LABEL
pub fn expand_mults(tokens: &[Token]) -> (res: Vec<Token>)
    requires
        !mults_crash(views(tokens@), 0),
    ensures
        views(res@) == mults_from(views(tokens@), 0),
{
    let ghost t = views(tokens@);
    let mut new_tokens: Vec<Token> = Vec::new();
    let mut i: usize = 0;
    while i < tokens.len()
        invariant
            i <= tokens.len() + 1,
            t == views(tokens@),
            mults_from(t, 0) == views(new_tokens@) + mults_from(t, i as int),
            !mults_crash(t, i as int),
        decreases tokens.len() + 1 - i,
    {
        if i + 1 < tokens.len() && matches!(tokens[i + 1].variant, TokenVariant::Asterisk) {
            if let TokenVariant::DecLiteral { value: count } = &tokens[i + 2].variant {
                let count = *count;
                let ghost start = views(new_tokens@);
                let mut k: i32 = 0;
                while k < count
                    invariant
                        0 <= k,
                        k <= (if count > 0 { count } else { 0 }),
                        i + 2 < tokens.len(),
                        t == views(tokens@),
                        views(new_tokens@) == start + Seq::new(k as nat, |_j: int| t[i as int]),
                    decreases count - k,
                {
                    let c = tokens[i].clone();
                    push_token(&mut new_tokens, c);
                    k += 1;
                    assert(views(new_tokens@) =~= start + Seq::new(k as nat, |_j: int| t[i as int]));
                }
                proof {
                    let n: nat = if count > 0 { count as nat } else { 0 };
                    assert(Seq::new(k as nat, |_j: int| t[i as int]) =~= Seq::new(n, |_j: int| t[i as int]));
                    assert(views(new_tokens@) + mults_from(t, i + 3) =~= start + mults_from(t, i as int));
                }
                i += 3;
                continue;
            }
        }
        let ghost start = views(new_tokens@);
        let c = tokens[i].clone();
        push_token(&mut new_tokens, c);
        proof {
            assert(views(new_tokens@) + mults_from(t, i + 1) =~= start + mults_from(t, i as int));
        }
        i += 1;
    }
    proof {
        assert(views(new_tokens@) + mults_from(t, i as int) =~= views(new_tokens@));
    }
    new_tokens
}

/// Puts the tokens `p` before a result.
pub open spec fn prepend(p: Seq<TokenV>, r: Result<Seq<TokenV>, AsmErrorV>) -> Result<
    Seq<TokenV>,
    AsmErrorV,
> {
    match r {
        Ok(x) => Ok(p + x),
        Err(e) => Err(e),
    }
}

/// Makes tokens of the given variants, all with the same info and origin.
pub fn token_variants_to_tokens(token_variants: Vec<TokenVariant>, info: &Info, origin_info: &[Info]) -> (res: Vec<
    Token,
>)
    ensures
        res.len() == token_variants.len(),
        forall|k: int|
            0 <= k < res.len() ==> #[trigger] res@[k]@ == (TokenV {
                info: info@,
                variant: token_variants@[k]@,
                origin_info: origin_info@.map_values(|x: Info| x@),
            }),
{
    let mut res: Vec<Token> = Vec::new();
    let mut k: usize = 0;
    while k < token_variants.len()
        invariant
            k <= token_variants.len(),
            res.len() == k,
            forall|j: int|
                0 <= j < k ==> #[trigger] res@[j]@ == (TokenV {
                    info: info@,
                    variant: token_variants@[j]@,
                    origin_info: origin_info@.map_values(|x: Info| x@),
                }),
        decreases token_variants.len() - k,
    {
        let t = Token {
            variant: token_variants[k].clone(),
            info: info.clone(),
            origin_info: clone_info_slice(origin_info),
        };
        res.push(t);
        k += 1;
    }
    res
}

/// Copies a slice of infos into a vector.
pub fn clone_info_slice(v: &[Info]) -> (res: Vec<Info>)
    ensures
        res.deep_view() == v@.map_values(|x: Info| x@),
{
    let mut res: Vec<Info> = Vec::new();
    let mut i: usize = 0;
    while i < v.len()
        invariant
            i <= v.len(),
            res.len() == i,
            forall|k: int| 0 <= k < i ==> #[trigger] res@[k]@ == v@[k]@,
        decreases v.len() - i,
    {
        res.push(v[i].clone());
        i += 1;
    }
    assert(res.deep_view() =~= v@.map_values(|x: Info| x@));
    res
}

/// A call of the macro `name` with the info of `origin`.
pub open spec fn macro_call_v(name: Seq<char>, origin: TokenV) -> TokenV {
    with_info_v(VariantV::MacroCall { name }, origin)
}

/// A macro call made by the assembler, followed by its arguments.
pub fn insert_asm_macro(macro_name: String, origin_tok: &Token, args: Vec<&Token>) -> (res: Vec<Token>)
    ensures
        views(res@) == seq![macro_call_v(macro_name@, origin_tok@)] + args@.map_values(
            |t: &Token| t@,
        ),
{
    let mut toks: Vec<Token> = Vec::new();
    push_token(&mut toks, Token::with_info(TokenVariant::MacroCall { name: macro_name }, origin_tok));
    let mut k: usize = 0;
    while k < args.len()
        invariant
            k <= args.len(),
            views(toks@) == seq![macro_call_v(macro_name@, origin_tok@)] + args@.take(
                k as int,
            ).map_values(|t: &Token| t@),
        decreases args.len() - k,
    {
        let c = args[k].clone();
        push_token(&mut toks, c);
        k += 1;
        assert(args@.take(k as int).map_values(|t: &Token| t@) =~= args@.take(k - 1).map_values(
            |t: &Token| t@,
        ).push(args@[k - 1]@));
    }
    assert(args@.take(args.len() as int) =~= args@);
    toks
}

/// The tokens an assignment `label = target` becomes, where `eq` is the
/// `=` token.
pub open spec fn assignment_v(label: TokenV, eq: TokenV, target: TokenV) -> Result<Seq<TokenV>, AsmErrorV> {
    match target.variant {
        VariantV::DecLiteral { value } => if value == 0 {
            Ok(seq![macro_call_v("ASM::AssignZero"@, eq), label])
        } else {
            Ok(seq![macro_call_v("ASM::AssignLit"@, eq), label, target])
        },
        VariantV::Label { .. } => Ok(seq![macro_call_v("ASM::AssignLabel"@, eq), label, target]),
        _ => Err(err_at(AsmErrorKind::AssignmentRhsInvalid, target.info)),
    }
}

/// Output of `handle_assignments` for the tokens from index `i` on.
pub open spec fn assign_from(t: Seq<TokenV>, i: int) -> Result<Seq<TokenV>, AsmErrorV>
    decreases t.len() - i,
{
    if i >= t.len() || i < 0 {
        Ok(Seq::empty())
    } else if i + 2 < t.len() && t[i + 1].variant is Equals {
        if !(t[i].variant is Label) {
            Err(err_at(AsmErrorKind::AssignmentLhsNotLabel, t[i].info))
        } else {
            match assignment_v(t[i], t[i + 1], t[i + 2]) {
                Err(e) => Err(e),
                Ok(h) => prepend(h, assign_from(t, i + 3)),
            }
        }
    } else {
        prepend(seq![t[i]], assign_from(t, i + 1))
    }
}

/// Rewrites `label = target` into a call of one of the assembler's
/// assignment macros: `ASM::AssignZero label` for a zero literal,
/// `ASM::AssignLit label target` for another literal and
/// `ASM::AssignLabel label target` for a label.
pub fn handle_assignments(tokens: &[Token]) -> (res: Result<Vec<Token>, AsmError>)
    ensures
        match (res, assign_from(views(tokens@), 0)) {
            (Ok(v), Ok(sv)) => views(v@) == sv,
            (Err(e), Err(se)) => e@ == se,
            _ => false,
        },
{
    let ghost t = views(tokens@);
    let mut new_tokens: Vec<Token> = Vec::new();
    let mut i: usize = 0;
    while i < tokens.len()
        invariant
            i <= tokens.len(),
            t == views(tokens@),
            assign_from(t, 0) == prepend(views(new_tokens@), assign_from(t, i as int)),
        decreases tokens.len() - i,
    {
        let ghost start = views(new_tokens@);
        if tokens.len() - i > 2 && matches!(tokens[i + 1].variant, TokenVariant::Equals) {
            let label_tok = &tokens[i];
            if !matches!(label_tok.variant, TokenVariant::Label { .. }) {
                return Err(asm_error(AsmErrorKind::AssignmentLhsNotLabel, &tokens[i].info));
            }
            let target_tok = &tokens[i + 2];
            let mut toks = match &target_tok.variant {
                TokenVariant::DecLiteral { value } => {
                    if *value == 0 {
                        insert_asm_macro("ASM::AssignZero".to_owned(), &tokens[i + 1], vec![label_tok])
                    } else {
                        insert_asm_macro(
                            "ASM::AssignLit".to_owned(),
                            &tokens[i + 1],
                            vec![label_tok, target_tok],
                        )
                    }
                },
                TokenVariant::Label { .. } => {
                    insert_asm_macro(
                        "ASM::AssignLabel".to_owned(),
                        &tokens[i + 1],
                        vec![label_tok, target_tok],
                    )
                },
                _ => {
                    return Err(
                        asm_error(AsmErrorKind::AssignmentRhsInvalid, &tokens[i + 2].info),
                    );
                },
            };
            proof {
                let h = assignment_v(t[i as int], t[i + 1], t[i + 2]);
                assert(views(toks@) =~= h->Ok_0);
            }
            let ghost hv = views(toks@);
            crate::tokens::append_tokens(&mut new_tokens, toks);
            proof {
                assert(views(new_tokens@) == start + hv);
                match assign_from(t, i + 3) {
                    Ok(x) => assert(start + (hv + x) =~= views(new_tokens@) + x),
                    Err(_) => {},
                }
            }
            i += 3;
            continue;
        }
        let c = tokens[i].clone();
        push_token(&mut new_tokens, c);
        proof {
            match assign_from(t, i + 1) {
                Ok(x) => assert(start + (seq![t[i as int]] + x) =~= views(new_tokens@) + x),
                Err(_) => {},
            }
        }
        i += 1;
    }
    proof {
        assert(views(new_tokens@) + Seq::<TokenV>::empty() =~= views(new_tokens@));
    }
    Ok(new_tokens)
}

/// The offset that a label arrow gives its label: 0, 1 or 2 for `-a>`,
/// `-b>`, `-c>`, the number for `->`.
pub open spec fn label_offset_value(o: LabelOffset) -> int {
    match o {
        LabelOffset::Char(c) => if c == 'a' {
            0
        } else if c == 'b' {
            1
        } else {
            2
        },
        LabelOffset::Int(x) => x as int,
    }
}

/// A character label offset other than `a`, `b` and `c`.
pub open spec fn bad_label_offset(o: LabelOffset) -> bool {
    match o {
        LabelOffset::Char(c) => c != 'a' && c != 'b' && c != 'c',
        LabelOffset::Int(_) => false,
    }
}

/// The relative operand `$1` that completes `b -= a` on the line of `a`:
/// placed two characters after `a`.
pub open spec fn implicit_relative(a: TokenV, linebreak: TokenV) -> TokenV {
    TokenV {
        info: InfoV {
            start_char: (a.info.start_char + a.info.length + 2) as i32,
            length: 2,
            line_number: a.info.line_number,
            file: a.info.file,
            sourceline_suffix: Some("$1"@),
        },
        variant: VariantV::Relative { offset: 1 },
        origin_info: linebreak.origin_info,
    }
}

/// Output of `fix_instructions_and_collapse_label_definitions` for the
/// tokens from index `i` on.
pub open spec fn fix_from(t: Seq<TokenV>, i: int) -> Result<Seq<TokenV>, AsmErrorV>
    decreases t.len() - i,
{
    if i >= t.len() || i < 0 {
        Ok(Seq::empty())
    } else if t[i].variant is Linebreak {
        fix_from(t, i + 1)
    } else if i + 1 < t.len() && t[i + 1].variant is LabelArrow {
        match t[i].variant {
            VariantV::Label { name } => prepend(
                seq![
                    with_info_v(
                        VariantV::LabelDefinition {
                            name,
                            offset: label_offset_value(t[i + 1].variant->LabelArrow_offset) as i32,
                        },
                        t[i + 1],
                    ),
                ],
                fix_from(t, i + 2),
            ),
            _ => Err(err_at(AsmErrorKind::OnlyLabelBeforeArrow, t[i].info)),
        }
    } else if i + 1 < t.len() && t[i + 1].variant is Subleq && i + 3 < t.len()
        && t[i + 3].variant is Linebreak {
        prepend(seq![t[i + 2], t[i], implicit_relative(t[i + 2], t[i + 3])], fix_from(t, i + 4))
    } else if i + 1 < t.len() && t[i + 1].variant is Subleq && i + 4 < t.len() {
        prepend(seq![t[i + 2], t[i], t[i + 3]], fix_from(t, i + 5))
    } else {
        prepend(seq![t[i]], fix_from(t, i + 1))
    }
}

/// `fix_instructions_and_collapse_label_definitions` would crash: a label
/// arrow with a character other than `a`, `b` or `c`, or a position of the
/// implicit relative operand that overflows.
pub open spec fn fix_crash(t: Seq<TokenV>, i: int) -> bool
    decreases t.len() - i,
{
    if i >= t.len() || i < 0 {
        false
    } else if t[i].variant is Linebreak {
        fix_crash(t, i + 1)
    } else if i + 1 < t.len() && t[i + 1].variant is LabelArrow {
        if bad_label_offset(t[i + 1].variant->LabelArrow_offset) {
            true
        } else if t[i].variant is Label {
            fix_crash(t, i + 2)
        } else {
            false
        }
    } else if i + 1 < t.len() && t[i + 1].variant is Subleq && i + 3 < t.len()
        && t[i + 3].variant is Linebreak {
        let p = t[i + 2].info.start_char + t[i + 2].info.length;
        let s = p + 2;
        if p < i32::MIN || p > i32::MAX || s < i32::MIN || s > i32::MAX {
            true
        } else {
            fix_crash(t, i + 4)
        }
    } else if i + 1 < t.len() && t[i + 1].variant is Subleq && i + 4 < t.len() {
        fix_crash(t, i + 5)
    } else {
        fix_crash(t, i + 1)
    }
}

/// This routine does two different things
/// It fixes instructions to be in the subleq format i.e: b -= a => a b &1
/// and it converts label definitions into a single token instead of the two
/// *label* and ->. At this point linebreaks are also removed, since they don't carry
/// any meaning anymore.
/// Jump targets of full instructions that are labels should have an own
/// name starting with `.`; a hint for each other one is added to `notes`.
pub fn fix_instructions_and_collapse_label_definitions(tokens: &[Token], notes: &mut Vec<Note>) -> (res: Result<
    Vec<Token>,
    AsmError,
>)
    requires
        !fix_crash(views(tokens@), 0),
    ensures
        note_views(final(notes)@) == note_views(old(notes)@) + fix_notes(views(tokens@), 0),
        match (res, fix_from(views(tokens@), 0)) {
            (Ok(v), Ok(sv)) => views(v@) == sv,
            (Err(e), Err(se)) => e@ == se,
            _ => false,
        },
{
    jump_label_notes(tokens, notes);
    let ghost t = views(tokens@);
    let mut new_tokens: Vec<Token> = Vec::new();
    let mut i: usize = 0;
    while i < tokens.len()
        invariant
            i <= tokens.len(),
            t == views(tokens@),
            fix_from(t, 0) == prepend(views(new_tokens@), fix_from(t, i as int)),
            !fix_crash(t, i as int),
            note_views(notes@) == note_views(old(notes)@) + fix_notes(t, 0),
        decreases tokens.len() - i,
    {
        let ghost start = views(new_tokens@);
        if matches!(tokens[i].variant, TokenVariant::Linebreak) {
            i += 1;
            continue;
        }
        if tokens.len() - i > 1 {
            if let TokenVariant::LabelArrow { offset } = &tokens[i + 1].variant {
                let label_offset: i32 = match offset {
                    LabelOffset::Char(x) => {
                        if *x == 'a' {
                            0
                        } else if *x == 'b' {
                            1
                        } else {
                            2
                        }
                    },
                    LabelOffset::Int(x) => *x,
                };
                let name = match &tokens[i].variant {
                    TokenVariant::Label { name } => name,
                    _ => {
                        return Err(asm_error(AsmErrorKind::OnlyLabelBeforeArrow, &tokens[i].info));
                    },
                };
                let d = Token::with_info(
                    TokenVariant::LabelDefinition { name: name.clone(), offset: label_offset },
                    &tokens[i + 1],
                );
                push_token(&mut new_tokens, d);
                proof {
                    match fix_from(t, i + 2) {
                        Ok(x) => assert(start + (seq![d@] + x) =~= views(new_tokens@) + x),
                        Err(_) => {},
                    }
                }
                i += 2;
                continue;
            }
            if matches!(tokens[i + 1].variant, TokenVariant::Subleq) {
                if tokens.len() - i > 3 && matches!(tokens[i + 3].variant, TokenVariant::Linebreak) {
                    let mut updated_info = tokens[i + 2].info.clone();
                    proof {
                        assert(t[i as int].variant !is Linebreak);
                        assert(!(t[i + 1].variant is LabelArrow));
                        let p = t[i + 2].info.start_char + t[i + 2].info.length;
                        assert(i32::MIN <= p <= i32::MAX);
                        assert(i32::MIN <= p + 2 <= i32::MAX);
                    }
                    updated_info.start_char = updated_info.start_char + updated_info.length + 2;
                    updated_info.length = 2;
                    updated_info.sourceline_suffix = Some("$1".to_owned());
                    let c2 = tokens[i + 2].clone();
                    let c0 = tokens[i].clone();
                    push_token(&mut new_tokens, c2);
                    push_token(&mut new_tokens, c0);
                    let rel = Token {
                        info: updated_info,
                        variant: TokenVariant::Relative { offset: 1 },
                        origin_info: crate::tokens::clone_infos(&tokens[i + 3].origin_info),
                    };
                    proof {
                        assert(rel@ == implicit_relative(t[i + 2], t[i + 3]));
                    }
                    push_token(&mut new_tokens, rel);
                    proof {
                        match fix_from(t, i + 4) {
                            Ok(x) => assert(start + (seq![t[i + 2], t[i as int], rel@] + x)
                                =~= views(new_tokens@) + x),
                            Err(_) => {},
                        }
                    }
                    i += 4;
                    continue;
                }
                if tokens.len() - i > 4 {
                    let c2 = tokens[i + 2].clone();
                    let c0 = tokens[i].clone();
                    let c3 = tokens[i + 3].clone();
                    push_token(&mut new_tokens, c2);
                    push_token(&mut new_tokens, c0);
                    push_token(&mut new_tokens, c3);
                    proof {
                        match fix_from(t, i + 5) {
                            Ok(x) => assert(start + (seq![t[i + 2], t[i as int], t[i + 3]] + x)
                                =~= views(new_tokens@) + x),
                            Err(_) => {},
                        }
                    }
                    i += 5;
                    continue;
                }
            }
        }
        let c = tokens[i].clone();
        push_token(&mut new_tokens, c);
        proof {
            match fix_from(t, i + 1) {
                Ok(x) => assert(start + (seq![t[i as int]] + x) =~= views(new_tokens@) + x),
                Err(_) => {},
            }
        }
        i += 1;
    }
    proof {
        assert(views(new_tokens@) + Seq::<TokenV>::empty() =~= views(new_tokens@));
    }
    Ok(new_tokens)
}

/// The part of a label's name after its last `?`: macros prefix the labels
/// they define with `?MACRO?`.
pub open spec fn own_name(s: Seq<char>) -> Seq<char>
    decreases s.len(),
{
    if s.len() == 0 {
        s
    } else if s.last() == '?' {
        Seq::empty()
    } else {
        own_name(s.drop_last()).push(s.last())
    }
}

/// Whether a label is named as a jump target should be: its own name
/// starts with `.`.
pub open spec fn is_jump_label_name(s: Seq<char>) -> bool {
    own_name(s).len() > 0 && own_name(s)[0] == '.'
}

/// The hints that `fix_instructions_and_collapse_label_definitions` gives
/// for the tokens from index `i` on, up to an error: one for each full
/// instruction `b -= a c` whose jump target `c` is a label not named as a
/// jump target.
pub open spec fn fix_notes(t: Seq<TokenV>, i: int) -> Seq<NoteV>
    decreases t.len() - i,
{
    if i >= t.len() || i < 0 {
        Seq::empty()
    } else if t[i].variant is Linebreak {
        fix_notes(t, i + 1)
    } else if i + 1 < t.len() && t[i + 1].variant is LabelArrow {
        if t[i].variant is Label {
            fix_notes(t, i + 2)
        } else {
            Seq::empty()
        }
    } else if i + 1 < t.len() && t[i + 1].variant is Subleq && i + 3 < t.len()
        && t[i + 3].variant is Linebreak {
        fix_notes(t, i + 4)
    } else if i + 1 < t.len() && t[i + 1].variant is Subleq && i + 4 < t.len() {
        match t[i + 3].variant {
            VariantV::Label { name } => if is_jump_label_name(name) {
                fix_notes(t, i + 5)
            } else {
                seq![
                    NoteV {
                        kind: NoteKind::JumpLabelWithoutDot,
                        info: t[i + 3].info,
                        related: None,
                        name,
                    },
                ] + fix_notes(t, i + 5)
            },
            _ => fix_notes(t, i + 5),
        }
    } else {
        fix_notes(t, i + 1)
    }
}

/// Whether a label is named as a jump target should be.
fn jump_label_name(name: &String) -> (res: bool)
    ensures
        res == is_jump_label_name(name@),
{
    let c = crate::text::chars_of(name.as_str());
    let ghost s = c@;
    let mut k: usize = c.len();
    proof {
        assert(s.subrange(k as int, s.len() as int) =~= Seq::<char>::empty());
        assert(s.take(k as int) =~= s);
        assert(own_name(s) =~= own_name(s.take(k as int)) + s.subrange(k as int, s.len() as int));
    }
    while k > 0 && c[k - 1] != '?'
        invariant
            k <= c.len(),
            s == c@,
            own_name(s) == own_name(s.take(k as int)) + s.subrange(k as int, s.len() as int),
        decreases k,
    {
        proof {
            assert(s.take(k as int).drop_last() =~= s.take(k - 1));
            assert(s.take(k as int).last() == s[k - 1]);
            assert(own_name(s.take(k as int)) == own_name(s.take(k - 1)).push(s[k - 1]));
            assert(own_name(s.take(k - 1)).push(s[k - 1]) + s.subrange(k as int, s.len() as int)
                =~= own_name(s.take(k - 1)) + s.subrange(k - 1, s.len() as int));
        }
        k -= 1;
    }
    proof {
        if k > 0 {
            assert(s.take(k as int).last() == s[k - 1]);
        }
        assert(own_name(s.take(k as int)) =~= Seq::<char>::empty());
        assert(own_name(s) =~= s.subrange(k as int, s.len() as int));
    }
    k < c.len() && c[k] == '.'
}

/// Gives the hints of `fix_instructions_and_collapse_label_definitions`:
/// jump targets of full instructions should be labels whose own name
/// starts with `.`.
fn jump_label_notes(tokens: &[Token], notes: &mut Vec<Note>)
    ensures
        note_views(final(notes)@) == note_views(old(notes)@) + fix_notes(views(tokens@), 0),
{
    let ghost t = views(tokens@);
    let mut i: usize = 0;
    proof {
        assert(note_views(notes@) + fix_notes(t, 0) =~= note_views(old(notes)@) + fix_notes(t, 0));
    }
    while i < tokens.len()
        invariant
            i <= tokens.len(),
            t == views(tokens@),
            note_views(old(notes)@) + fix_notes(t, 0) == note_views(notes@) + fix_notes(t, i as int),
        decreases tokens.len() - i,
    {
        if matches!(tokens[i].variant, TokenVariant::Linebreak) {
            i += 1;
            continue;
        }
        if tokens.len() - i > 1 {
            if matches!(tokens[i + 1].variant, TokenVariant::LabelArrow { .. }) {
                if matches!(tokens[i].variant, TokenVariant::Label { .. }) {
                    i += 2;
                    continue;
                }
                proof {
                    assert(note_views(notes@) + fix_notes(t, i as int) =~= note_views(notes@));
                }
                return;
            }
            if matches!(tokens[i + 1].variant, TokenVariant::Subleq) {
                if tokens.len() - i > 3 && matches!(tokens[i + 3].variant, TokenVariant::Linebreak) {
                    i += 4;
                    continue;
                }
                if tokens.len() - i > 4 {
                    if let TokenVariant::Label { name } = &tokens[i + 3].variant {
                        if !jump_label_name(name) {
                            let n = note(NoteKind::JumpLabelWithoutDot, &tokens[i + 3].info, None, name);
                            let ghost before = note_views(notes@);
                            push_note(notes, n);
                            proof {
                                assert(before + fix_notes(t, i as int) =~= note_views(notes@) + fix_notes(t, i + 5));
                            }
                        }
                    }
                    i += 5;
                    continue;
                }
            }
        }
        i += 1;
    }
    proof {
        assert(note_views(notes@) + fix_notes(t, i as int) =~= note_views(notes@));
    }
}

/// `b -= a c` and `b -= a` are Subleq instructions that subtract `a`
/// from `b`: the instruction they become, run on any values of the labels,
/// leaves `b` holding its value minus that of `a` and changes no other
/// label. The jump target is `c`, or the next instruction for `b -= a`.
pub proof fn lemma_subleq_form_subtracts_a_from_b(t: Seq<TokenV>, m: spec_fn(Seq<char>) -> int)
    requires
        t.len() >= 4,
        t[0].variant is Label,
        t[1].variant is Subleq,
        t[2].variant is Label,
        t[3].variant is Linebreak || t.len() > 4,
        fix_from(t, 0) is Ok,
    ensures
        ({
            let out = fix_from(t, 0)->Ok_0;
            let nb = t[0].variant->Label_name;
            let na = t[2].variant->Label_name;
            let run = crate::parser::labels::run_label_lines(m, out.take(3).map_values(|x: TokenV| x.variant));
            &&& out.len() >= 3
            &&& run(nb) == m(nb) - m(na)
            &&& forall|x: Seq<char>| x != nb ==> #[trigger] run(x) == m(x)
            &&& t[3].variant is Linebreak ==> out[2].variant == VariantV::Relative { offset: 1 }
            &&& !(t[3].variant is Linebreak) && t.len() > 4 ==> out[2] == t[3]
        }),
{
    let out = fix_from(t, 0)->Ok_0;
    assert(!(t[0].variant is Linebreak));
    assert(!(t[1].variant is LabelArrow));
    if t[3].variant is Linebreak {
        assert(out == seq![t[2], t[0], implicit_relative(t[2], t[3])] + fix_from(t, 4)->Ok_0);
    } else {
        assert(out == seq![t[2], t[0], t[3]] + fix_from(t, 5)->Ok_0);
    }
    let v = out.take(3).map_values(|x: TokenV| x.variant);
    assert(v.skip(3) =~= Seq::<VariantV>::empty());
    reveal_with_fuel(crate::parser::labels::run_label_lines, 3);
}

/// `x * n` stands for `n` copies of `x`: the expansion of tokens that
/// start with `x * n` (n a positive number) starts with exactly `n`
/// tokens equal to `x`, followed by the expansion of what comes after `n`;
/// its length grows by `n - 3` over theirs.
pub proof fn lemma_mult_repeats(t: Seq<TokenV>)
    requires
        t.len() >= 3,
        t[1].variant is Asterisk,
        t[2].variant is DecLiteral,
        t[2].variant->DecLiteral_value > 0,
    ensures
        ({
            let n = t[2].variant->DecLiteral_value as int;
            let out = mults_from(t, 0);
            &&& out.len() == n + mults_from(t, 3).len()
            &&& forall|k: int| 0 <= k < n ==> #[trigger] out[k] == t[0]
            &&& out.skip(n) == mults_from(t, 3)
        }),
{
    let n = t[2].variant->DecLiteral_value as int;
    let out = mults_from(t, 0);
    assert(out.skip(n) =~= mults_from(t, 3));
}

} // verus!
