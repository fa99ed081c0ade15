//! Macro definitions and their expansion.
use vstd::prelude::*;
use crate::error::{asm_error, asm_error_counts, asm_error_named, err_at, err_counts, err_named, note, note_views, push_note, ArgType, AsmError, AsmErrorKind, AsmErrorV, Note, NoteKind, NoteV};
use crate::text::{push_char, push_chars};
use crate::tokens::{clone_infos, push_token, views, Info, InfoV, Token, TokenV, TokenVariant, VariantV};

verus! {

/// A macro: its name, where it was declared, its parameters, its body, and
/// the labels that its body defines (renamed on expansion).
#[derive(Debug)]
pub struct Macro {
    pub name: String,
    pub info: Info,
    pub params: Vec<(String, Info)>,
    pub body: Vec<Token>,
    pub labels_defined_in_macro: Vec<String>,
}

/// Mathematical view of a macro.
pub struct MacroV {
    pub name: Seq<char>,
    pub info: InfoV,
    pub params: Seq<(Seq<char>, InfoV)>,
    pub body: Seq<TokenV>,
    pub labels_defined_in_macro: Seq<Seq<char>>,
}

impl View for Macro {
    type V = MacroV;

    open spec fn view(&self) -> MacroV {
        MacroV {
            name: self.name@,
            info: self.info@,
            params: self.params@.map_values(|p: (String, Info)| (p.0@, p.1@)),
            body: views(self.body@),
            labels_defined_in_macro: self.labels_defined_in_macro@.map_values(|s: String| s@),
        }
    }
}

/// The views of a table of macros.
pub open spec fn macro_views(s: Seq<Macro>) -> Seq<MacroV> {
    s.map_values(|m: Macro| m@)
}

/// Where `read_macros` is: outside a macro, reading its parameters, or
/// reading its body (between `{` `}` or between `[` `]`).
#[derive(Debug, PartialEq, Eq, Structural, Clone, Copy)]
pub enum ReadMode {
    Normal,
    Parameters,
    Body { bounded_by_scopes: bool },
}

/// The state of `read_macros` between two tokens.
pub struct ReadState {
    pub mode: ReadMode,
    pub scope: int,
    pub cur: MacroV,
    pub out: Seq<TokenV>,
    pub macros: Seq<MacroV>,
}

/// The info of a place that is none in particular.
pub open spec fn blank_info() -> InfoV {
    InfoV { start_char: 0, length: 0, line_number: 0, file: 0, sourceline_suffix: None }
}

/// A macro with the given name and info and nothing else yet.
pub open spec fn new_macro(name: Seq<char>, info: InfoV) -> MacroV {
    MacroV {
        name,
        info,
        params: Seq::empty(),
        body: Seq::empty(),
        labels_defined_in_macro: Seq::empty(),
    }
}

pub open spec fn read_init() -> ReadState {
    ReadState {
        mode: ReadMode::Normal,
        scope: 0,
        cur: new_macro(Seq::empty(), blank_info()),
        out: Seq::empty(),
        macros: Seq::empty(),
    }
}

/// The body of a `[` `]` macro loses one line break at its start and one at
/// its end.
pub open spec fn strip_linebreaks(body: Seq<TokenV>) -> Seq<TokenV> {
    let b1 = if body.len() > 0 && body[0].variant is Linebreak {
        body.skip(1)
    } else {
        body
    };
    if b1.len() > 0 && b1.last().variant is Linebreak {
        b1.drop_last()
    } else {
        b1
    }
}

/// The current macro with one more body token.
pub open spec fn with_body_token(m: MacroV, t: TokenV) -> MacroV {
    MacroV { body: m.body.push(t), ..m }
}

/// `read_macros` on one token; `prev` is the token before it.
pub open spec fn read_step(st: ReadState, tok: TokenV, prev: Option<TokenV>) -> Result<
    ReadState,
    AsmErrorV,
> {
    match st.mode {
        ReadMode::Normal => match tok.variant {
            VariantV::MacroDeclaration { name } => Ok(
                ReadState { mode: ReadMode::Parameters, scope: 0, cur: new_macro(name, tok.info), ..st },
            ),
            VariantV::MacroBodyStart => Err(err_at(AsmErrorKind::UnexpectedMacroBodyToken, tok.info)),
            VariantV::MacroBodyEnd => Err(err_at(AsmErrorKind::UnexpectedMacroBodyToken, tok.info)),
            _ => Ok(ReadState { out: st.out.push(tok), ..st }),
        },
        ReadMode::Parameters => match tok.variant {
            VariantV::Linebreak => Ok(st),
            VariantV::Label { name } => Ok(
                ReadState {
                    cur: MacroV { params: st.cur.params.push((name, tok.info)), ..st.cur },
                    ..st
                },
            ),
            VariantV::MacroBodyStart => Ok(
                ReadState { mode: ReadMode::Body { bounded_by_scopes: false }, ..st },
            ),
            VariantV::Scope => Ok(
                ReadState {
                    mode: ReadMode::Body { bounded_by_scopes: true },
                    cur: with_body_token(st.cur, tok),
                    scope: st.scope + 1,
                    ..st
                },
            ),
            _ => Err(err_named(AsmErrorKind::InvalidMacroParameter, tok.info, st.cur.name)),
        },
        ReadMode::Body { bounded_by_scopes } => {
            if tok.variant is LabelArrow && !bounded_by_scopes {
                Ok(ReadState { cur: with_body_token(st.cur, tok), ..st })
            } else if tok.variant is LabelArrow {
                match prev {
                    Some(p) => match p.variant {
                        VariantV::Label { name } => Ok(
                            ReadState {
                                cur: MacroV {
                                    body: st.cur.body.push(tok),
                                    labels_defined_in_macro: st.cur.labels_defined_in_macro.push(
                                        name,
                                    ),
                                    ..st.cur
                                },
                                ..st
                            },
                        ),
                        _ => Err(err_at(AsmErrorKind::InvalidMacroLabelDefinition, p.info)),
                    },
                    None => Err(err_at(AsmErrorKind::InvalidMacroLabelDefinition, tok.info)),
                }
            } else if tok.variant is Scope {
                Ok(ReadState { cur: with_body_token(st.cur, tok), scope: st.scope + 1, ..st })
            } else if tok.variant is MacroDeclaration {
                Err(err_at(AsmErrorKind::NestedMacroDefinition, tok.info))
            } else if tok.variant is MacroCall && tok.variant->MacroCall_name == st.cur.name {
                Err(err_at(AsmErrorKind::RecursiveMacroCall, tok.info))
            } else if tok.variant is MacroBodyEnd && !bounded_by_scopes {
                Ok(
                    ReadState {
                        mode: ReadMode::Normal,
                        cur: new_macro(Seq::empty(), blank_info()),
                        macros: st.macros.push(
                            MacroV { body: strip_linebreaks(st.cur.body), ..st.cur },
                        ),
                        ..st
                    },
                )
            } else if tok.variant is Unscope {
                let cur = with_body_token(st.cur, tok);
                if !bounded_by_scopes || st.scope - 1 != 0 {
                    Ok(ReadState { cur, scope: st.scope - 1, ..st })
                } else {
                    Ok(
                        ReadState {
                            mode: ReadMode::Normal,
                            cur: new_macro(Seq::empty(), blank_info()),
                            scope: st.scope - 1,
                            macros: st.macros.push(cur),
                            ..st
                        },
                    )
                }
            } else {
                Ok(ReadState { cur: with_body_token(st.cur, tok), ..st })
            }
        },
    }
}

/// `read_macros` after the tokens `t`.
pub open spec fn read_fold(t: Seq<TokenV>) -> Result<ReadState, AsmErrorV>
    decreases t.len(),
{
    if t.len() == 0 {
        Ok(read_init())
    } else {
        match read_fold(t.drop_last()) {
            Err(e) => Err(e),
            Ok(st) => read_step(
                st,
                t.last(),
                if t.len() >= 2 {
                    Some(t[t.len() - 2])
                } else {
                    None
                },
            ),
        }
    }
}

proof fn lemma_read_fold_err(t: Seq<TokenV>, k: int)
    requires
        0 <= k <= t.len(),
        read_fold(t.take(k)) is Err,
    ensures
        read_fold(t) == read_fold(t.take(k)),
    decreases t.len() - k,
{
    if k == t.len() {
        assert(t.take(k) =~= t);
    } else {
        assert(t.take(k + 1).drop_last() =~= t.take(k));
        lemma_read_fold_err(t, k + 1);
    }
}


/// The name ends with `?`, as macro parameters should.
pub open spec fn ends_with_question_mark(name: Seq<char>) -> bool {
    name.len() > 0 && name.last() == '?'
}

/// The notes `read_macros` gives on one token: a macro defined again, a
/// parameter without `?`, a label defined in a `[` `]` macro (outside its
/// `{ }` groups) that is not a parameter.
pub open spec fn read_step_notes(st: ReadState, tok: TokenV, prev: Option<TokenV>) -> Seq<NoteV> {
    match st.mode {
        ReadMode::Normal => match tok.variant {
            VariantV::MacroDeclaration { name } => match macro_index(st.macros, name) {
                Some(k) => seq![
                    NoteV {
                        kind: NoteKind::DuplicateMacro,
                        info: tok.info,
                        related: Some(st.macros[k].info),
                        name,
                    },
                ],
                None => Seq::empty(),
            },
            _ => Seq::empty(),
        },
        ReadMode::Parameters => match tok.variant {
            VariantV::Label { name } => if ends_with_question_mark(name) {
                Seq::empty()
            } else {
                seq![
                    NoteV {
                        kind: NoteKind::ParameterWithoutQuestionMark,
                        info: tok.info,
                        related: None,
                        name,
                    },
                ]
            },
            _ => Seq::empty(),
        },
        ReadMode::Body { bounded_by_scopes } => if tok.variant is LabelArrow && !bounded_by_scopes
            && st.scope <= 0 {
            match prev {
                Some(p) => match p.variant {
                    VariantV::Label { name } => if ends_with_question_mark(name) {
                        Seq::empty()
                    } else {
                        seq![
                            NoteV {
                                kind: NoteKind::LabelInUnscopedMacro,
                                info: tok.info,
                                related: None,
                                name,
                            },
                        ]
                    },
                    _ => Seq::empty(),
                },
                None => Seq::empty(),
            }
        } else {
            Seq::empty()
        },
    }
}

/// The notes `read_macros` gives on the tokens `t`, up to an error.
pub open spec fn read_notes(t: Seq<TokenV>) -> Seq<NoteV>
    decreases t.len(),
{
    if t.len() == 0 {
        Seq::empty()
    } else {
        match read_fold(t.drop_last()) {
            Err(_) => read_notes(t.drop_last()),
            Ok(st) => read_notes(t.drop_last()) + read_step_notes(
                st,
                t.last(),
                if t.len() >= 2 {
                    Some(t[t.len() - 2])
                } else {
                    None
                },
            ),
        }
    }
}

proof fn lemma_read_notes_err(t: Seq<TokenV>, k: int)
    requires
        0 <= k <= t.len(),
        read_fold(t.take(k)) is Err,
    ensures
        read_notes(t) == read_notes(t.take(k)),
    decreases t.len() - k,
{
    if k == t.len() {
        assert(t.take(k) =~= t);
    } else {
        assert(t.take(k + 1).drop_last() =~= t.take(k));
        lemma_read_notes_err(t, k + 1);
    }
}

/// Whether the name ends with `?`.
fn question_mark_at_end(name: &String) -> (res: bool)
    ensures
        res == ends_with_question_mark(name@),
{
    let c = crate::text::chars_of(name.as_str());
    c.len() > 0 && c[c.len() - 1] == '?'
}

impl Macro {
    /// A macro with no name, parameters or body.
    pub fn blank() -> (res: Macro)
        ensures
            res@ == new_macro(Seq::empty(), blank_info()),
    {
        let res = Macro {
            name: String::new(),
            info: Info { start_char: 0, length: 0, line_number: 0, file: 0, sourceline_suffix: None },
            params: Vec::new(),
            body: Vec::new(),
            labels_defined_in_macro: Vec::new(),
        };
        assert(res@.params =~= Seq::<(Seq<char>, InfoV)>::empty());
        assert(res@.body =~= Seq::<TokenV>::empty());
        assert(res@.labels_defined_in_macro =~= Seq::<Seq<char>>::empty());
        res
    }

    /// Adds a token at the end of the body.
    fn push_body(&mut self, t: Token)
        ensures
            final(self)@ == with_body_token(old(self)@, t@),
    {
        push_token(&mut self.body, t);
        assert(final(self)@.params =~= old(self)@.params);
        assert(final(self)@.labels_defined_in_macro =~= old(self)@.labels_defined_in_macro);
    }
}

/// Removes one leading and one trailing line break.
fn strip_body_linebreaks(body: &mut Vec<Token>)
    ensures
        views(final(body)@) == strip_linebreaks(views(old(body)@)),
{
    let ghost b0 = views(body@);
    if body.len() > 0 && matches!(body[0].variant, TokenVariant::Linebreak) {
        body.remove(0);
        assert(views(body@) =~= b0.skip(1));
    }
    let ghost b1 = views(body@);
    let n = body.len();
    if n > 0 && matches!(body[n - 1].variant, TokenVariant::Linebreak) {
        body.remove(n - 1);
        assert(views(body@) =~= b1.drop_last());
    }
}

/// Takes the macro definitions out of the token stream: returns the other
/// tokens and the macros in the order in which their definitions end. A
/// later definition of a name hides an earlier one (see `find_macro`).
/// Warnings and hints are added to `notes`, also when an error stops the
/// reading.
pub fn read_macros(tokens: &[Token], notes: &mut Vec<Note>) -> (res: Result<(Vec<Token>, Vec<Macro>), AsmError>)
    requires
        tokens@.len() < 0x8000_0000,
    ensures
        note_views(final(notes)@) == note_views(old(notes)@) + read_notes(views(tokens@)),
        match (res, read_fold(views(tokens@))) {
            (Ok((out, macros)), Ok(st)) => views(out@) == st.out && macro_views(macros@)
                == st.macros,
            (Err(e), Err(se)) => e@ == se,
            _ => false,
        },
{
    let ghost t = views(tokens@);
    let mut new_tokens: Vec<Token> = Vec::new();
    let mut macros: Vec<Macro> = Vec::new();
    let mut mode = ReadMode::Normal;
    let mut scope_tracker: i32 = 0;
    let mut cur = Macro::blank();
    let mut i: usize = 0;
    assert(views(new_tokens@) =~= Seq::<TokenV>::empty());
    assert(macro_views(macros@) =~= Seq::<MacroV>::empty());
    assert(t.take(0) =~= Seq::<TokenV>::empty());
    while i < tokens.len()
        invariant
            t == views(tokens@),
            tokens@.len() < 0x8000_0000,
            i <= tokens.len(),
            -(i as int) <= scope_tracker <= i,
            read_fold(t.take(i as int)) == Ok::<ReadState, AsmErrorV>(
                ReadState {
                    mode,
                    scope: scope_tracker as int,
                    cur: cur@,
                    out: views(new_tokens@),
                    macros: macro_views(macros@),
                },
            ),
            note_views(notes@) == note_views(old(notes)@) + read_notes(t.take(i as int)),
        decreases tokens.len() - i,
    {
        let ghost st = ReadState {
            mode,
            scope: scope_tracker as int,
            cur: cur@,
            out: views(new_tokens@),
            macros: macro_views(macros@),
        };
        let ghost prev = if i >= 1 {
            Some(t[i - 1])
        } else {
            None::<TokenV>
        };
        proof {
            assert(t.take(i + 1).drop_last() =~= t.take(i as int));
            assert(t.take(i + 1).last() == t[i as int]);
            if i >= 1 {
                assert(t.take(i + 1)[i - 1] == t[i - 1]);
            }
        }
        assert(read_fold(t.take(i + 1)) == read_step(st, t[i as int], prev));
        let token = &tokens[i];
        let ghost notes_before = note_views(notes@);
        match mode {
            ReadMode::Normal => {
                if let TokenVariant::MacroDeclaration { name } = &token.variant {
                    proof {
                        lemma_macro_index_found(macro_views(macros@), name@);
                    }
                    if let Some(k) = find_macro(&macros, name) {
                        push_note(
                            notes,
                            note(NoteKind::DuplicateMacro, &token.info, Some(&macros[k].info), name),
                        );
                    }
                }
            },
            ReadMode::Parameters => {
                if let TokenVariant::Label { name } = &token.variant {
                    if !question_mark_at_end(name) {
                        push_note(
                            notes,
                            note(NoteKind::ParameterWithoutQuestionMark, &token.info, None, name),
                        );
                    }
                }
            },
            ReadMode::Body { bounded_by_scopes } => {
                if matches!(token.variant, TokenVariant::LabelArrow { .. }) && !bounded_by_scopes
                    && scope_tracker <= 0 && i >= 1 {
                    if let TokenVariant::Label { name } = &tokens[i - 1].variant {
                        if !question_mark_at_end(name) {
                            push_note(
                                notes,
                                note(NoteKind::LabelInUnscopedMacro, &token.info, None, name),
                            );
                        }
                    }
                }
            },
        }
        assert(note_views(notes@) == notes_before + read_step_notes(st, t[i as int], prev));
        proof {
            assert(read_notes(t.take(i + 1)) == read_notes(t.take(i as int)) + read_step_notes(
                st,
                t[i as int],
                prev,
            ));
            assert(note_views(notes@) =~= note_views(old(notes)@) + read_notes(t.take(i + 1)));
            if read_fold(t.take(i + 1)) is Err {
                lemma_read_fold_err(t, i + 1);
                lemma_read_notes_err(t, i + 1);
            }
        }
        match mode {
            ReadMode::Normal => {
                match &token.variant {
                    TokenVariant::MacroDeclaration { name } => {
                        cur = Macro {
                            name: name.clone(),
                            info: token.info.clone(),
                            params: Vec::new(),
                            body: Vec::new(),
                            labels_defined_in_macro: Vec::new(),
                        };
                        assert(cur@.params =~= Seq::<(Seq<char>, InfoV)>::empty());
                        assert(cur@.body =~= Seq::<TokenV>::empty());
                        assert(cur@.labels_defined_in_macro =~= Seq::<Seq<char>>::empty());
                        scope_tracker = 0;
                        mode = ReadMode::Parameters;
                    },
                    TokenVariant::MacroBodyStart | TokenVariant::MacroBodyEnd => {
                        return Err(asm_error(AsmErrorKind::UnexpectedMacroBodyToken, &token.info));
                    },
                    _ => {
                        push_token(&mut new_tokens, token.clone());
                    },
                }
            },
            ReadMode::Parameters => {
                match &token.variant {
                    TokenVariant::Linebreak => {},
                    TokenVariant::Label { name } => {
                        let ghost before = cur@;
                        cur.params.push((name.clone(), token.info.clone()));
                        assert(cur@.params =~= before.params.push((name@, token.info@)));
                        assert(cur@.body =~= before.body);
                        assert(cur@.labels_defined_in_macro =~= before.labels_defined_in_macro);
                    },
                    TokenVariant::MacroBodyStart => {
                        mode = ReadMode::Body { bounded_by_scopes: false };
                    },
                    TokenVariant::Scope => {
                        mode = ReadMode::Body { bounded_by_scopes: true };
                        cur.push_body(token.clone());
                        scope_tracker = scope_tracker + 1;
                    },
                    _ => {
                        return Err(asm_error_named(AsmErrorKind::InvalidMacroParameter, &token.info, &cur.name));
                    },
                }
            },
            ReadMode::Body { bounded_by_scopes } => {
                if matches!(token.variant, TokenVariant::LabelArrow { .. }) && !bounded_by_scopes {
                    cur.push_body(token.clone());
                } else if matches!(token.variant, TokenVariant::LabelArrow { .. }) {
                    if i == 0 {
                        return Err(
                            asm_error(AsmErrorKind::InvalidMacroLabelDefinition, &token.info),
                        );
                    }
                    match &tokens[i - 1].variant {
                        TokenVariant::Label { name } => {
                            let ghost before = cur@;
                            cur.push_body(token.clone());
                            cur.labels_defined_in_macro.push(name.clone());
                            assert(cur@.labels_defined_in_macro
                                =~= before.labels_defined_in_macro.push(name@));
                        },
                        _ => {
                            return Err(
                                asm_error(
                                    AsmErrorKind::InvalidMacroLabelDefinition,
                                    &tokens[i - 1].info,
                                ),
                            );
                        },
                    }
                } else if matches!(token.variant, TokenVariant::Scope) {
                    cur.push_body(token.clone());
                    scope_tracker = scope_tracker + 1;
                } else if matches!(token.variant, TokenVariant::MacroDeclaration { .. }) {
                    return Err(asm_error(AsmErrorKind::NestedMacroDefinition, &token.info));
                } else if is_call_to(&token.variant, &cur.name) {
                    return Err(asm_error(AsmErrorKind::RecursiveMacroCall, &token.info));
                } else if matches!(token.variant, TokenVariant::MacroBodyEnd) && !bounded_by_scopes {
                    let mut fin = cur;
                    strip_body_linebreaks(&mut fin.body);
                    let ghost fv = fin@;
                    let ghost mv = macro_views(macros@);
                    macros.push(fin);
                    assert(macro_views(macros@) =~= mv.push(fv));
                    cur = Macro::blank();
                    mode = ReadMode::Normal;
                } else if matches!(token.variant, TokenVariant::Unscope) {
                    cur.push_body(token.clone());
                    scope_tracker = scope_tracker - 1;
                    if bounded_by_scopes && scope_tracker == 0 {
                        let fin = cur;
                        let ghost fv = fin@;
                        let ghost mv = macro_views(macros@);
                        macros.push(fin);
                        assert(macro_views(macros@) =~= mv.push(fv));
                        cur = Macro::blank();
                        mode = ReadMode::Normal;
                    }
                } else {
                    cur.push_body(token.clone());
                }
            },
        }
        i += 1;
    }
    assert(t.take(tokens.len() as int) =~= t);
    Ok((new_tokens, macros))
}

/// Whether a token variant is a call of the named macro.
fn is_call_to(v: &TokenVariant, name: &String) -> (res: bool)
    ensures
        res == (v@ is MacroCall && v@->MacroCall_name == name@),
{
    match v {
        TokenVariant::MacroCall { name: n } => *n == *name,
        _ => false,
    }
}

/// A macro argument: one token, or the tokens of a `{ }` or `( )` group.
#[derive(Debug)]
pub enum TokenOrTokenVec {
    Tok(Token),
    TokVec(Vec<Token>),
}

/// Mathematical view of a macro argument.
pub enum ArgV {
    Tok(TokenV),
    TokVec(Seq<TokenV>),
}

impl View for TokenOrTokenVec {
    type V = ArgV;

    open spec fn view(&self) -> ArgV {
        match self {
            TokenOrTokenVec::Tok(t) => ArgV::Tok(t@),
            TokenOrTokenVec::TokVec(v) => ArgV::TokVec(views(v@)),
        }
    }
}

/// The arguments of a call so far: parameter names with their arguments,
/// each name at most once.
pub open spec fn arg_views(s: Seq<(String, TokenOrTokenVec)>) -> Seq<(Seq<char>, ArgV)> {
    s.map_values(|p: (String, TokenOrTokenVec)| (p.0@, p.1@))
}

/// The macro a call of `name` runs: the last one defined with that name.
pub open spec fn macro_index(ms: Seq<MacroV>, name: Seq<char>) -> Option<int>
    decreases ms.len(),
{
    if ms.len() == 0 {
        None
    } else if ms.last().name == name {
        Some(ms.len() - 1)
    } else {
        macro_index(ms.drop_last(), name)
    }
}

/// Where the argument of the parameter `name` is kept.
pub open spec fn key_index(m: Seq<(Seq<char>, ArgV)>, name: Seq<char>) -> Option<int>
    decreases m.len(),
{
    if m.len() == 0 {
        None
    } else if m.last().0 == name {
        Some(m.len() - 1)
    } else {
        key_index(m.drop_last(), name)
    }
}

/// The arguments with `name` bound to `a`, as a map's `insert` does.
pub open spec fn arg_set(m: Seq<(Seq<char>, ArgV)>, name: Seq<char>, a: ArgV) -> Seq<
    (Seq<char>, ArgV),
> {
    match key_index(m, name) {
        Some(k) => m.update(k, (name, a)),
        None => m.push((name, a)),
    }
}

/// The arguments with `t` added to the group bound to `name`.
pub open spec fn arg_push(m: Seq<(Seq<char>, ArgV)>, name: Seq<char>, t: TokenV) -> Seq<
    (Seq<char>, ArgV),
> {
    match key_index(m, name) {
        Some(k) => match m[k].1 {
            ArgV::TokVec(v) => m.update(k, (name, ArgV::TokVec(v.push(t)))),
            ArgV::Tok(_) => m,
        },
        None => m,
    }
}

/// A label defined inside a scoped macro is renamed on expansion, so that
/// two expansions do not define the same label.
pub open spec fn hygienic(m: MacroV, name: Seq<char>) -> Seq<char> {
    if m.labels_defined_in_macro.contains(name) {
        seq!['?'] + m.name + seq!['?'] + name
    } else {
        name
    }
}

/// A token with a new trace of origins.
pub open spec fn with_origin(t: TokenV, o: Seq<InfoV>) -> TokenV {
    TokenV { origin_info: o, ..t }
}

/// What one token of a macro body becomes: a parameter becomes its
/// argument, a label defined in the macro is renamed; every token gets the
/// trace of the calls and the body token's own info as origin.
pub open spec fn subst_token(m: MacroV, args: Seq<(Seq<char>, ArgV)>, ctx: Seq<InfoV>, b: TokenV) -> Seq<
    TokenV,
> {
    let o = ctx.push(b.info);
    match b.variant {
        VariantV::Label { name } => {
            let n = hygienic(m, name);
            match key_index(args, n) {
                Some(k) => match args[k].1 {
                    ArgV::Tok(x) => seq![with_origin(x, o)],
                    ArgV::TokVec(v) => v.map_values(|x: TokenV| with_origin(x, o)),
                },
                None => seq![TokenV { info: b.info, variant: VariantV::Label { name: n }, origin_info: o }],
            }
        },
        _ => seq![with_origin(b, o)],
    }
}

/// What the tokens `body` of a macro become.
pub open spec fn substituted(m: MacroV, args: Seq<(Seq<char>, ArgV)>, ctx: Seq<InfoV>, body: Seq<TokenV>) -> Seq<
    TokenV,
>
    decreases body.len(),
{
    if body.len() == 0 {
        Seq::empty()
    } else {
        substituted(m, args, ctx, body.drop_last()) + subst_token(m, args, ctx, body.last())
    }
}

/// Where `insert_macros` is: copying tokens, reading the arguments of a
/// call, or inside a `( )` or `{ }` argument.
#[derive(Debug, PartialEq, Eq, Structural, Clone, Copy)]
pub enum InsertMode {
    Normal,
    Args,
    Braced,
    Scoped,
}

/// The state of `insert_macros` between two tokens.
pub struct InsertState {
    pub mode: InsertMode,
    pub scope: int,
    pub mac: int,
    pub args: Seq<(Seq<char>, ArgV)>,
    pub caller: InfoV,
    pub cur_param: Seq<char>,
    pub out: Seq<TokenV>,
}

pub open spec fn ins_init() -> InsertState {
    InsertState {
        mode: InsertMode::Normal,
        scope: 0,
        mac: 0,
        args: Seq::empty(),
        caller: blank_info(),
        cur_param: Seq::empty(),
        out: Seq::empty(),
    }
}

/// The expansion of a macro body: arguments substituted, then the macros
/// called in it expanded in turn. `fuel` bounds how deep calls nest.
pub open spec fn gen_body(
    m: MacroV,
    macros: Seq<MacroV>,
    args: Seq<(Seq<char>, ArgV)>,
    ctx: Seq<InfoV>,
    fuel: nat,
    check: bool,
) -> Result<Seq<TokenV>, AsmErrorV>
    decreases fuel, 0nat, 0nat,
{
    if fuel == 0 {
        Err(err_at(AsmErrorKind::MacroNestingTooDeep, ctx.last()))
    } else {
        insert_spec(substituted(m, args, ctx, m.body), macros, ctx, (fuel - 1) as nat, check)
    }
}

/// One pass of `insert_macros` over a token; the flag says whether the
/// token was used up or has to be looked at again.
pub open spec fn ins_step(st: InsertState, tok: TokenV, macros: Seq<MacroV>, ctx: Seq<InfoV>, fuel: nat, check: bool) -> Result<
    (InsertState, bool),
    AsmErrorV,
>
    decreases fuel, 1nat, 0nat,
{
    match st.mode {
        InsertMode::Normal => match tok.variant {
            VariantV::MacroCall { name } => match macro_index(macros, name) {
                None => Err(err_named(AsmErrorKind::UndefinedMacro, tok.info, name)),
                Some(k) => Ok(
                    (InsertState { mode: InsertMode::Args, mac: k, caller: tok.info, ..st }, true),
                ),
            },
            _ => Ok((InsertState { out: st.out.push(tok), ..st }, true)),
        },
        InsertMode::Args => {
            let m = macros[st.mac];
            if st.args.len() >= m.params.len() {
                match gen_body(m, macros, st.args, ctx.push(st.caller), fuel, check) {
                    Err(e) => Err(e),
                    Ok(b) => Ok(
                        (
                            InsertState {
                                mode: InsertMode::Normal,
                                args: Seq::empty(),
                                scope: 0,
                                out: st.out + b,
                                ..st
                            },
                            false,
                        ),
                    ),
                }
            } else {
                let p = m.params[st.args.len() as int].0;
                if tok.variant is Linebreak {
                    Err(err_counts(AsmErrorKind::MissingMacroArguments, tok.info, m.params.len() as usize, st.args.len() as usize))
                } else if check && !prefix_readable(p) {
                    Err(err_at(AsmErrorKind::UnreadableParameterName, tok.info))
                } else if tok.variant is Scope {
                    Ok(
                        (
                            InsertState {
                                mode: InsertMode::Scoped,
                                args: arg_set(st.args, p, ArgV::TokVec(Seq::empty())),
                                cur_param: p,
                                ..st
                            },
                            false,
                        ),
                    )
                } else if tok.variant is Unscope {
                    Err(err_at(AsmErrorKind::UnexpectedUnscope, tok.info))
                } else if tok.variant is BraceOpen {
                    Ok(
                        (
                            InsertState {
                                mode: InsertMode::Braced,
                                args: arg_set(st.args, p, ArgV::TokVec(Seq::empty())),
                                cur_param: p,
                                scope: 1,
                                ..st
                            },
                            true,
                        ),
                    )
                } else {
                    Ok((InsertState { args: arg_set(st.args, p, ArgV::Tok(tok)), ..st }, true))
                }
            }
        },
        InsertMode::Scoped => {
            let a = arg_push(st.args, st.cur_param, tok);
            if tok.variant is Scope {
                Ok((InsertState { scope: st.scope + 1, args: a, ..st }, true))
            } else if tok.variant is Unscope {
                if st.scope - 1 > 0 {
                    Ok((InsertState { scope: st.scope - 1, args: a, ..st }, true))
                } else {
                    Ok(
                        (
                            InsertState {
                                mode: InsertMode::Args,
                                scope: st.scope - 1,
                                args: a,
                                cur_param: Seq::empty(),
                                ..st
                            },
                            true,
                        ),
                    )
                }
            } else {
                Ok((InsertState { args: a, ..st }, true))
            }
        },
        InsertMode::Braced => {
            let a = arg_push(st.args, st.cur_param, tok);
            if tok.variant is BraceOpen {
                Ok((InsertState { scope: st.scope + 1, args: a, ..st }, true))
            } else if tok.variant is BraceClose {
                if st.scope - 1 <= 0 {
                    Ok(
                        (
                            InsertState {
                                mode: InsertMode::Args,
                                scope: st.scope - 1,
                                cur_param: Seq::empty(),
                                ..st
                            },
                            true,
                        ),
                    )
                } else {
                    Ok((InsertState { scope: st.scope - 1, args: a, ..st }, true))
                }
            } else {
                Ok((InsertState { args: a, ..st }, true))
            }
        },
    }
}

/// The number of `{` minus the number of `}` among the tokens.
pub open spec fn scope_depth(v: Seq<TokenV>) -> int
    decreases v.len(),
{
    if v.len() == 0 {
        0
    } else {
        scope_depth(v.drop_last()) + if v.last().variant is Scope {
            1int
        } else if v.last().variant is Unscope {
            -1int
        } else {
            0int
        }
    }
}

/// The number of `(` minus the number of `)` among the tokens.
pub open spec fn brace_depth(v: Seq<TokenV>) -> int
    decreases v.len(),
{
    if v.len() == 0 {
        0
    } else {
        brace_depth(v.drop_last()) + if v.last().variant is BraceOpen {
            1int
        } else if v.last().variant is BraceClose {
            -1int
        } else {
            0int
        }
    }
}

/// The tokens collected so far of the argument bound to `param`.
pub open spec fn collected(args: Seq<(Seq<char>, ArgV)>, param: Seq<char>) -> Seq<TokenV> {
    match key_index(args, param) {
        Some(k) => match args[k].1 {
            ArgV::TokVec(v) => v,
            ArgV::Tok(_) => Seq::empty(),
        },
        None => Seq::empty(),
    }
}

/// A `{ ... }` argument ends at the `}` that matches its `{`: while it is
/// read, the scopes it opened minus those it closed is the depth the
/// expansion keeps, and every nonempty part read so far has more `{` than
/// `}`; when the argument is done, it holds as many `}` as `{`, every
/// shorter nonempty part of it has more `{`, so nested `{ }` stay inside it.
pub proof fn lemma_scope_argument_matches(
    st: InsertState,
    tok: TokenV,
    macros: Seq<MacroV>,
    ctx: Seq<InfoV>,
    fuel: nat,
    check: bool,
)
    requires
        st.mode == InsertMode::Scoped,
        key_index(st.args, st.cur_param) is Some,
        st.args[key_index(st.args, st.cur_param)->0].1 is TokVec,
        scope_depth(collected(st.args, st.cur_param)) == st.scope,
        forall|j: int|
            0 < j <= collected(st.args, st.cur_param).len() ==> scope_depth(
                #[trigger] collected(st.args, st.cur_param).take(j),
            ) > 0,
        collected(st.args, st.cur_param).len() == 0 ==> tok.variant is Scope,
    ensures
        ins_step(st, tok, macros, ctx, fuel, check) is Ok,
        ({
            let st2 = ins_step(st, tok, macros, ctx, fuel, check)->Ok_0.0;
            let v = collected(st.args, st.cur_param);
            let v2 = collected(st2.args, st.cur_param);
            &&& v2 == v.push(tok)
            &&& st2.mode == InsertMode::Scoped ==> st2.cur_param == st.cur_param && scope_depth(v2)
                == st2.scope && forall|j: int| 0 < j <= v2.len() ==> scope_depth(#[trigger] v2.take(j)) > 0
            &&& st2.mode != InsertMode::Scoped ==> {
                &&& st2.mode == InsertMode::Args
                &&& tok.variant is Unscope
                &&& scope_depth(v2) == 0
                &&& forall|j: int| 0 < j < v2.len() ==> scope_depth(#[trigger] v2.take(j)) > 0
            }
        }),
{
    let k = key_index(st.args, st.cur_param)->0;
    lemma_key_index_found(st.args, st.cur_param);
    let v = collected(st.args, st.cur_param);
    let a = arg_push(st.args, st.cur_param, tok);
    lemma_key_index_update(st.args, k, st.cur_param, ArgV::TokVec(v.push(tok)));
    assert(collected(a, st.cur_param) == v.push(tok));
    let v2 = v.push(tok);
    assert(v2.drop_last() =~= v);
    assert forall|j: int| 0 < j <= v.len() implies #[trigger] v2.take(j) == v.take(j) by {
        assert(v2.take(j) =~= v.take(j));
    }
    assert(v2.take(v2.len() as int) =~= v2);
}

/// A `( ... )` argument ends at the `)` that matches its `(`: while it is
/// read, the `(` it opened (its own included) minus the `)` it closed is
/// the depth the expansion keeps; when it is done, the tokens inside hold
/// as many `)` as `(`, and no shorter part has more `)` than `(`.
pub proof fn lemma_braced_argument_matches(
    st: InsertState,
    tok: TokenV,
    macros: Seq<MacroV>,
    ctx: Seq<InfoV>,
    fuel: nat,
    check: bool,
)
    requires
        st.mode == InsertMode::Braced,
        key_index(st.args, st.cur_param) is Some,
        st.args[key_index(st.args, st.cur_param)->0].1 is TokVec,
        brace_depth(collected(st.args, st.cur_param)) + 1 == st.scope,
        forall|j: int|
            0 <= j <= collected(st.args, st.cur_param).len() ==> brace_depth(
                #[trigger] collected(st.args, st.cur_param).take(j),
            ) >= 0,
    ensures
        ins_step(st, tok, macros, ctx, fuel, check) is Ok,
        ({
            let st2 = ins_step(st, tok, macros, ctx, fuel, check)->Ok_0.0;
            let v = collected(st.args, st.cur_param);
            let v2 = collected(st2.args, st.cur_param);
            &&& st2.mode == InsertMode::Braced ==> {
                &&& v2 == v.push(tok)
                &&& st2.cur_param == st.cur_param
                &&& brace_depth(v2) + 1 == st2.scope
                &&& forall|j: int| 0 <= j <= v2.len() ==> brace_depth(#[trigger] v2.take(j)) >= 0
            }
            &&& st2.mode != InsertMode::Braced ==> {
                &&& st2.mode == InsertMode::Args
                &&& tok.variant is BraceClose
                &&& v2 == v
                &&& brace_depth(v) == 0
            }
        }),
{
    let k = key_index(st.args, st.cur_param)->0;
    lemma_key_index_found(st.args, st.cur_param);
    let v = collected(st.args, st.cur_param);
    let a = arg_push(st.args, st.cur_param, tok);
    lemma_key_index_update(st.args, k, st.cur_param, ArgV::TokVec(v.push(tok)));
    assert(collected(a, st.cur_param) == v.push(tok));
    let v2 = v.push(tok);
    assert(v2.drop_last() =~= v);
    assert forall|j: int| 0 <= j <= v.len() implies #[trigger] v2.take(j) == v.take(j) by {
        assert(v2.take(j) =~= v.take(j));
    }
    assert(v2.take(v2.len() as int) =~= v2);
    assert(v.take(v.len() as int) =~= v);
}

/// `insert_macros` on one token: one pass, or two when the first left the
/// token to be looked at again.
pub open spec fn ins_token(st: InsertState, tok: TokenV, macros: Seq<MacroV>, ctx: Seq<InfoV>, fuel: nat, check: bool) -> Result<
    InsertState,
    AsmErrorV,
>
    decreases fuel, 2nat, 0nat,
{
    match ins_step(st, tok, macros, ctx, fuel, check) {
        Err(e) => Err(e),
        Ok((s1, used)) => if used {
            Ok(s1)
        } else {
            match ins_step(s1, tok, macros, ctx, fuel, check) {
                Err(e) => Err(e),
                Ok((s2, _)) => Ok(s2),
            }
        },
    }
}

/// `insert_macros` after the tokens `t`.
pub open spec fn ins_fold(t: Seq<TokenV>, macros: Seq<MacroV>, ctx: Seq<InfoV>, fuel: nat, check: bool) -> Result<
    InsertState,
    AsmErrorV,
>
    decreases fuel, 3nat, t.len(),
{
    if t.len() == 0 {
        Ok(ins_init())
    } else {
        match ins_fold(t.drop_last(), macros, ctx, fuel, check) {
            Err(e) => Err(e),
            Ok(st) => ins_token(st, t.last(), macros, ctx, fuel, check),
        }
    }
}

/// The end of the input: a call whose arguments are all there is expanded.
pub open spec fn ins_finish(st: InsertState, macros: Seq<MacroV>, ctx: Seq<InfoV>, fuel: nat, check: bool) -> Result<
    Seq<TokenV>,
    AsmErrorV,
>
    decreases fuel, 3nat, 0nat,
{
    if st.mode == InsertMode::Args {
        let m = macros[st.mac];
        if m.params.len() != st.args.len() {
            Err(err_counts(AsmErrorKind::NotEnoughArguments, st.caller, m.params.len() as usize, st.args.len() as usize))
        } else {
            match gen_body(m, macros, st.args, ctx.push(st.caller), fuel, check) {
                Err(e) => Err(e),
                Ok(b) => Ok(st.out + b),
            }
        }
    } else {
        Ok(st.out)
    }
}

/// The tokens with every macro call replaced by the macro's expansion.
pub open spec fn insert_spec(t: Seq<TokenV>, macros: Seq<MacroV>, ctx: Seq<InfoV>, fuel: nat, check: bool) -> Result<
    Seq<TokenV>,
    AsmErrorV,
>
    decreases fuel, 4nat, 0nat,
{
    match ins_fold(t, macros, ctx, fuel, check) {
        Err(e) => Err(e),
        Ok(st) => ins_finish(st, macros, ctx, fuel, check),
    }
}

/// The type that a parameter's name asks of its argument; `None` for `a_`,
/// which takes anything.
pub open spec fn expected_type(name: Seq<char>) -> Option<ArgType> {
    if has_type_prefix(name, 's', 'S') {
        Some(ArgType::Scope)
    } else if has_type_prefix(name, 'm', 'M') {
        Some(ArgType::Braced)
    } else if has_type_prefix(name, 'l', 'L') {
        Some(ArgType::Literal)
    } else if has_type_prefix(name, 'a', 'A') {
        None
    } else {
        Some(ArgType::Label)
    }
}

/// The note about an argument `tok` that does not fit the type of its
/// parameter `p` (name and info), when types are checked.
pub open spec fn type_notes(check: bool, p: (Seq<char>, InfoV), tok: TokenV) -> Seq<NoteV> {
    if check && !argument_type_ok(p.0, tok.variant) {
        seq![
            NoteV {
                kind: NoteKind::WrongArgumentType(expected_type(p.0)->0),
                info: tok.info,
                related: Some(p.1),
                name: p.0,
            },
        ]
    } else {
        Seq::empty()
    }
}

/// The notes of expanding a macro body.
pub open spec fn gen_body_notes(
    m: MacroV,
    macros: Seq<MacroV>,
    args: Seq<(Seq<char>, ArgV)>,
    ctx: Seq<InfoV>,
    fuel: nat,
    check: bool,
) -> Seq<NoteV>
    decreases fuel, 0nat, 0nat,
{
    if fuel == 0 {
        Seq::empty()
    } else {
        insert_notes(substituted(m, args, ctx, m.body), macros, ctx, (fuel - 1) as nat, check)
    }
}

/// The notes of one pass of `insert_macros` over a token: the type of an
/// argument, or the notes of the expansion that the token completes.
pub open spec fn ins_step_notes(
    st: InsertState,
    tok: TokenV,
    macros: Seq<MacroV>,
    ctx: Seq<InfoV>,
    fuel: nat,
    check: bool,
) -> Seq<NoteV>
    decreases fuel, 1nat, 0nat,
{
    if st.mode == InsertMode::Args {
        let m = macros[st.mac];
        if st.args.len() >= m.params.len() {
            gen_body_notes(m, macros, st.args, ctx.push(st.caller), fuel, check)
        } else {
            let p = m.params[st.args.len() as int];
            if tok.variant is Linebreak || (check && !prefix_readable(p.0)) {
                Seq::empty()
            } else {
                type_notes(check, p, tok)
            }
        }
    } else {
        Seq::empty()
    }
}

/// The notes of `insert_macros` on one token.
pub open spec fn ins_token_notes(
    st: InsertState,
    tok: TokenV,
    macros: Seq<MacroV>,
    ctx: Seq<InfoV>,
    fuel: nat,
    check: bool,
) -> Seq<NoteV>
    decreases fuel, 2nat, 0nat,
{
    match ins_step(st, tok, macros, ctx, fuel, check) {
        Ok((s1, used)) => if used {
            ins_step_notes(st, tok, macros, ctx, fuel, check)
        } else {
            ins_step_notes(st, tok, macros, ctx, fuel, check) + ins_step_notes(
                s1,
                tok,
                macros,
                ctx,
                fuel,
                check,
            )
        },
        Err(_) => ins_step_notes(st, tok, macros, ctx, fuel, check),
    }
}

/// The notes of `insert_macros` on the tokens `t`, up to an error.
pub open spec fn ins_fold_notes(t: Seq<TokenV>, macros: Seq<MacroV>, ctx: Seq<InfoV>, fuel: nat, check: bool) -> Seq<
    NoteV,
>
    decreases fuel, 3nat, t.len(),
{
    if t.len() == 0 {
        Seq::empty()
    } else {
        match ins_fold(t.drop_last(), macros, ctx, fuel, check) {
            Err(_) => ins_fold_notes(t.drop_last(), macros, ctx, fuel, check),
            Ok(st) => ins_fold_notes(t.drop_last(), macros, ctx, fuel, check) + ins_token_notes(
                st,
                t.last(),
                macros,
                ctx,
                fuel,
                check,
            ),
        }
    }
}

/// The notes of the expansion at the end of the input.
pub open spec fn ins_finish_notes(st: InsertState, macros: Seq<MacroV>, ctx: Seq<InfoV>, fuel: nat, check: bool) -> Seq<
    NoteV,
>
    decreases fuel, 3nat, 0nat,
{
    if st.mode == InsertMode::Args && macros[st.mac].params.len() == st.args.len() {
        gen_body_notes(macros[st.mac], macros, st.args, ctx.push(st.caller), fuel, check)
    } else {
        Seq::empty()
    }
}

/// The notes that `insert_macros` gives on the tokens `t`, nested
/// expansions included, up to an error.
pub open spec fn insert_notes(t: Seq<TokenV>, macros: Seq<MacroV>, ctx: Seq<InfoV>, fuel: nat, check: bool) -> Seq<
    NoteV,
>
    decreases fuel, 4nat, 0nat,
{
    ins_fold_notes(t, macros, ctx, fuel, check) + match ins_fold(t, macros, ctx, fuel, check) {
        Err(_) => Seq::empty(),
        Ok(st) => ins_finish_notes(st, macros, ctx, fuel, check),
    }
}

proof fn lemma_macro_index_found(ms: Seq<MacroV>, name: Seq<char>)
    ensures
        macro_index(ms, name) matches Some(k) ==> 0 <= k < ms.len() && ms[k].name == name,
    decreases ms.len(),
{
    if ms.len() > 0 && ms.last().name != name {
        lemma_macro_index_found(ms.drop_last(), name);
    }
}

proof fn lemma_key_index_found(m: Seq<(Seq<char>, ArgV)>, name: Seq<char>)
    ensures
        key_index(m, name) matches Some(k) ==> 0 <= k < m.len() && m[k].0 == name,
    decreases m.len(),
{
    if m.len() > 0 && m.last().0 != name {
        lemma_key_index_found(m.drop_last(), name);
    }
}

proof fn lemma_key_index_update(m: Seq<(Seq<char>, ArgV)>, k: int, name: Seq<char>, a: ArgV)
    requires
        key_index(m, name) == Some(k),
    ensures
        key_index(m.update(k, (name, a)), name) == Some(k),
    decreases m.len(),
{
    lemma_key_index_found(m, name);
    let u = m.update(k, (name, a));
    if k != m.len() - 1 {
        assert(m.last().0 != name);
        assert(u.last() == m.last());
        assert(u.drop_last() =~= m.drop_last().update(k, (name, a)));
        lemma_key_index_update(m.drop_last(), k, name, a);
    }
}

/// Starting a `{ }` argument and adding its `{` gives the group of that
/// one token.
proof fn lemma_start_scoped(m: Seq<(Seq<char>, ArgV)>, p: Seq<char>, t: TokenV)
    ensures
        arg_push(arg_set(m, p, ArgV::TokVec(Seq::empty())), p, t) == arg_set(
            m,
            p,
            ArgV::TokVec(seq![t]),
        ),
{
    let e = ArgV::TokVec(Seq::<TokenV>::empty());
    match key_index(m, p) {
        Some(k) => {
            lemma_key_index_found(m, p);
            lemma_key_index_update(m, k, p, e);
            assert(Seq::<TokenV>::empty().push(t) =~= seq![t]);
            assert(m.update(k, (p, e)).update(k, (p, ArgV::TokVec(seq![t]))) =~= m.update(
                k,
                (p, ArgV::TokVec(seq![t])),
            ));
        },
        None => {
            let n = m.push((p, e));
            assert(n.last().0 == p);
            assert(Seq::<TokenV>::empty().push(t) =~= seq![t]);
            assert(n.update(m.len() as int, (p, ArgV::TokVec(seq![t]))) =~= m.push(
                (p, ArgV::TokVec(seq![t])),
            ));
        },
    }
}

/// The macro that a call of `name` runs.
pub fn find_macro(macros: &Vec<Macro>, name: &String) -> (res: Option<usize>)
    ensures
        match (res, macro_index(macro_views(macros@), name@)) {
            (Some(i), Some(j)) => i == j,
            (None, None) => true,
            _ => false,
        },
{
    let ghost mv = macro_views(macros@);
    let mut i: usize = macros.len();
    assert(mv.take(i as int) =~= mv);
    while i > 0
        invariant
            i <= macros.len(),
            mv == macro_views(macros@),
            macro_index(mv, name@) == macro_index(mv.take(i as int), name@),
        decreases i,
    {
        assert(mv.take(i as int).drop_last() =~= mv.take(i - 1));
        assert(mv.take(i as int).last() == macros@[i - 1]@);
        if macros[i - 1].name == *name {
            return Some(i - 1);
        }
        i -= 1;
    }
    None
}

/// Where the argument of the parameter `name` is kept.
fn arg_index(args: &Vec<(String, TokenOrTokenVec)>, name: &String) -> (res: Option<usize>)
    ensures
        match (res, key_index(arg_views(args@), name@)) {
            (Some(i), Some(j)) => i == j,
            (None, None) => true,
            _ => false,
        },
{
    let ghost av = arg_views(args@);
    let mut i: usize = args.len();
    assert(av.take(i as int) =~= av);
    while i > 0
        invariant
            i <= args.len(),
            av == arg_views(args@),
            key_index(av, name@) == key_index(av.take(i as int), name@),
        decreases i,
    {
        assert(av.take(i as int).drop_last() =~= av.take(i - 1));
        assert(av.take(i as int).last() == (args@[i - 1].0@, args@[i - 1].1@));
        if args[i - 1].0 == *name {
            return Some(i - 1);
        }
        i -= 1;
    }
    None
}

/// Binds `name` to `a`.
fn set_arg(args: &mut Vec<(String, TokenOrTokenVec)>, name: String, a: TokenOrTokenVec)
    ensures
        arg_views(final(args)@) == arg_set(arg_views(old(args)@), name@, a@),
{
    let ghost av = arg_views(args@);
    let ghost entry = (name@, a@);
    proof {
        lemma_key_index_found(av, name@);
    }
    match arg_index(args, &name) {
        Some(k) => {
            args.remove(k);
            args.insert(k, (name, a));
            assert(arg_views(args@) =~= av.update(k as int, entry));
        },
        None => {
            args.push((name, a));
            assert(arg_views(args@) =~= av.push(entry));
        },
    }
}

/// Adds `t` to the group bound to `name`.
fn push_arg(args: &mut Vec<(String, TokenOrTokenVec)>, name: &String, t: Token)
    ensures
        arg_views(final(args)@) == arg_push(arg_views(old(args)@), name@, t@),
{
    let ghost av = arg_views(args@);
    proof {
        lemma_key_index_found(av, name@);
    }
    match arg_index(args, name) {
        Some(k) => {
            let (n, v) = args.remove(k);
            match v {
                TokenOrTokenVec::TokVec(mut toks) => {
                    push_token(&mut toks, t);
                    let ghost entry = (n@, ArgV::TokVec(views(toks@)));
                    args.insert(k, (n, TokenOrTokenVec::TokVec(toks)));
                    assert(arg_views(args@) =~= av.update(k as int, entry));
                },
                TokenOrTokenVec::Tok(x) => {
                    args.insert(k, (n, TokenOrTokenVec::Tok(x)));
                    assert(arg_views(args@) =~= av);
                },
            }
        },
        None => {},
    }
}

/// Whether `name` is one of `names`.
fn contains_name(names: &Vec<String>, name: &String) -> (res: bool)
    ensures
        res == names@.map_values(|s: String| s@).contains(name@),
{
    let ghost nv = names@.map_values(|s: String| s@);
    let mut i: usize = 0;
    while i < names.len()
        invariant
            i <= names.len(),
            nv == names@.map_values(|s: String| s@),
            forall|j: int| 0 <= j < i ==> nv[j] != name@,
        decreases names.len() - i,
    {
        if names[i] == *name {
            assert(nv[i as int] == name@);
            return true;
        }
        i += 1;
    }
    false
}

/// The name a label of a macro body gets on expansion.
fn hygienic_name(m: &Macro, name: &String) -> (res: String)
    ensures
        res@ == hygienic(m@, name@),
{
    if contains_name(&m.labels_defined_in_macro, name) {
        let mut r = String::new();
        push_char(&mut r, '?');
        push_chars(&mut r, m.name.as_str());
        push_char(&mut r, '?');
        push_chars(&mut r, name.as_str());
        assert(r@ =~= seq!['?'] + m@.name + seq!['?'] + name@);
        r
    } else {
        name.clone()
    }
}

/// Copies a token and gives the copy the trace `o`.
fn copy_with_origin(t: &Token, o: &Vec<Info>) -> (res: Token)
    ensures
        res@ == with_origin(t@, o.deep_view()),
{
    let mut c = t.clone();
    c.origin_info = clone_infos(o);
    c
}

/// What one body token becomes; appended to `out`.
fn subst_one(m: &Macro, args: &Vec<(String, TokenOrTokenVec)>, ctx: &Vec<Info>, b: &Token, out: &mut Vec<Token>)
    ensures
        views(final(out)@) == views(old(out)@) + subst_token(
            m@,
            arg_views(args@),
            ctx.deep_view(),
            b@,
        ),
{
    let ghost start = views(out@);
    let mut o = clone_infos(ctx);
    o.push(b.info.clone());
    assert(o.deep_view() =~= ctx.deep_view().push(b.info@));
    let ghost ov = o.deep_view();
    match &b.variant {
        TokenVariant::Label { name } => {
            let n = hygienic_name(m, name);
            proof {
                lemma_key_index_found(arg_views(args@), n@);
            }
            match arg_index(args, &n) {
                Some(k) => {
                    assert(arg_views(args@)[k as int].1 == args@[k as int].1@);
                    match &args[k].1 {
                        TokenOrTokenVec::Tok(x) => {
                            push_token(out, copy_with_origin(x, &o));
                            assert(views(out@) =~= start + seq![with_origin(x@, ov)]);
                        },
                        TokenOrTokenVec::TokVec(v) => {
                            let ghost vv = views(v@);
                            let mut j: usize = 0;
                            while j < v.len()
                                invariant
                                    j <= v.len(),
                                    vv == views(v@),
                                    ov == o.deep_view(),
                                    views(out@) == start + vv.take(j as int).map_values(
                                        |x: TokenV| with_origin(x, ov),
                                    ),
                                decreases v.len() - j,
                            {
                                push_token(out, copy_with_origin(&v[j], &o));
                                j += 1;
                                assert(views(out@) =~= start + vv.take(j as int).map_values(
                                    |x: TokenV| with_origin(x, ov),
                                ));
                            }
                            assert(vv.take(v.len() as int) =~= vv);
                        },
                    }
                },
                None => {
                    let t = Token {
                        info: b.info.clone(),
                        variant: TokenVariant::Label { name: n },
                        origin_info: o,
                    };
                    push_token(out, t);
                    assert(views(out@) =~= start + seq![
                        TokenV {
                            info: b.info@,
                            variant: VariantV::Label { name: hygienic(m@, name@) },
                            origin_info: ov,
                        },
                    ]);
                },
            }
        },
        _ => {
            push_token(out, copy_with_origin(b, &o));
            assert(views(out@) =~= start + seq![with_origin(b@, ov)]);
        },
    }
}

/// The body of `m` with the arguments substituted.
fn substitute(m: &Macro, args: &Vec<(String, TokenOrTokenVec)>, ctx: &Vec<Info>) -> (res: Vec<Token>)
    ensures
        views(res@) == substituted(m@, arg_views(args@), ctx.deep_view(), m@.body),
{
    let ghost body = m@.body;
    let mut out: Vec<Token> = Vec::new();
    let mut i: usize = 0;
    assert(body.take(0) =~= Seq::<TokenV>::empty());
    assert(views(out@) =~= Seq::<TokenV>::empty());
    while i < m.body.len()
        invariant
            i <= m.body.len(),
            body == m@.body,
            views(out@) == substituted(m@, arg_views(args@), ctx.deep_view(), body.take(i as int)),
        decreases m.body.len() - i,
    {
        subst_one(m, args, ctx, &m.body[i], &mut out);
        proof {
            assert(body.take(i + 1).drop_last() =~= body.take(i as int));
            assert(body.take(i + 1).last() == m.body@[i as int]@);
        }
        i += 1;
    }
    assert(body.take(m.body.len() as int) =~= body);
    out
}

/// How deep macro calls may nest; deeper nesting is refused rather than
/// followed until the stack runs out.
pub const MACRO_DEPTH_LIMIT: u32 = 256;

/// The executable state of `insert_macros`; its view is an `InsertState`.
pub struct Expansion {
    pub mode: InsertMode,
    pub scope: usize,
    pub mac: usize,
    pub args: Vec<(String, TokenOrTokenVec)>,
    pub caller: Info,
    pub cur_param: String,
    pub out: Vec<Token>,
}

impl View for Expansion {
    type V = InsertState;

    open spec fn view(&self) -> InsertState {
        InsertState {
            mode: self.mode,
            scope: self.scope as int,
            mac: self.mac as int,
            args: arg_views(self.args@),
            caller: self.caller@,
            cur_param: self.cur_param@,
            out: views(self.out@),
        }
    }
}

/// The states that `insert_macros` passes through between tokens, after at
/// most `bound` tokens: a call refers to a macro of the table, and the
/// group depth counts the open groups of the argument being read.
pub open spec fn expansion_wf(st: InsertState, n_macros: int, bound: int) -> bool {
    &&& st.mode != InsertMode::Normal ==> 0 <= st.mac < n_macros
    &&& (st.mode == InsertMode::Normal || st.mode == InsertMode::Args) ==> st.scope == 0
    &&& (st.mode == InsertMode::Scoped || st.mode == InsertMode::Braced) ==> 1 <= st.scope <= bound
}

impl Expansion {
    fn new() -> (res: Expansion)
        ensures
            res@ == ins_init(),
    {
        let res = Expansion {
            mode: InsertMode::Normal,
            scope: 0,
            mac: 0,
            args: Vec::new(),
            caller: Info { start_char: 0, length: 0, line_number: 0, file: 0, sourceline_suffix: None },
            cur_param: String::new(),
            out: Vec::new(),
        };
        assert(res@.args =~= Seq::<(Seq<char>, ArgV)>::empty());
        assert(res@.out =~= Seq::<TokenV>::empty());
        res
    }

    /// A token outside any call.
    fn normal_step(&mut self, tok: &Token, macros: &Vec<Macro>, Ghost(ctx): Ghost<Seq<InfoV>>, Ghost(fuel): Ghost<nat>, Ghost(check): Ghost<bool>) -> (res: Result<(), AsmError>)
        requires
            old(self).mode == InsertMode::Normal,
        ensures
            match (res, ins_step(old(self)@, tok@, macro_views(macros@), ctx, fuel, check)) {
                (Ok(()), Ok((st, used))) => final(self)@ == st && used,
                (Err(e), Err(se)) => e@ == se,
                _ => false,
            },
            res is Ok ==> final(self).scope == old(self).scope,
            res is Ok && final(self).mode != InsertMode::Normal ==> final(self).mac < macros.len(),
    {
        proof {
            lemma_macro_index_found(macro_views(macros@), tok@.variant->MacroCall_name);
        }
        match &tok.variant {
            TokenVariant::MacroCall { name } => {
                match find_macro(macros, name) {
                    None => Err(asm_error_named(AsmErrorKind::UndefinedMacro, &tok.info, name)),
                    Some(k) => {
                        self.mode = InsertMode::Args;
                        self.mac = k;
                        self.caller = tok.info.clone();
                        Ok(())
                    },
                }
            },
            _ => {
                push_token(&mut self.out, tok.clone());
                Ok(())
            },
        }
    }

    /// `insert_macros` on one token.
    fn process_token(
        &mut self,
        tok: &Token,
        macros: &Vec<Macro>,
        ctx: &Vec<Info>,
        fuel: u32,
        check: bool,
        notes: &mut Vec<Note>,
        Ghost(bound): Ghost<int>,
    ) -> (res: Result<(), AsmError>)
        requires
            expansion_wf(old(self)@, macros.len() as int, bound),
            0 <= bound < usize::MAX,
        ensures
            note_views(final(notes)@) == note_views(old(notes)@) + ins_token_notes(
                old(self)@,
                tok@,
                macro_views(macros@),
                ctx.deep_view(),
                fuel as nat,
                check,
            ),
            match (res, ins_token(old(self)@, tok@, macro_views(macros@), ctx.deep_view(), fuel as nat, check)) {
                (Ok(()), Ok(st)) => final(self)@ == st,
                (Err(e), Err(se)) => e@ == se,
                _ => false,
            },
            res is Ok ==> expansion_wf(final(self)@, macros.len() as int, bound + 1),
        decreases fuel, 2int,
    {
        let ghost mv = macro_views(macros@);
        let ghost cv = ctx.deep_view();
        let ghost st0 = self@;
        match self.mode {
            InsertMode::Normal => {
                self.normal_step(tok, macros, Ghost(cv), Ghost(fuel as nat), Ghost(check))
            },
            InsertMode::Args => {
                let m = &macros[self.mac];
                assert(mv[self.mac as int] == m@);
                if self.args.len() >= m.params.len() {
                    let mut c = clone_infos(ctx);
                    c.push(self.caller.clone());
                    assert(c.deep_view() =~= cv.push(self.caller@));
                    let body = generate_macro_body(m, macros, &self.args, c, fuel, check, notes)?;
                    let ghost bv = views(body@);
                    crate::tokens::append_tokens(&mut self.out, body);
                    self.mode = InsertMode::Normal;
                    self.args = Vec::new();
                    self.scope = 0;
                    assert(self@.args =~= Seq::<(Seq<char>, ArgV)>::empty());
                    let ghost s1 = self@;
                    assert(ins_step(st0, tok@, mv, cv, fuel as nat, check) == Ok::<
                        (InsertState, bool),
                        AsmErrorV,
                    >((s1, false)));
                    self.normal_step(tok, macros, Ghost(cv), Ghost(fuel as nat), Ghost(check))
                } else {
                    let p = m.params[self.args.len()].0.clone();
                    assert(p@ == m@.params[self.args.len() as int].0);
                    if matches!(tok.variant, TokenVariant::Linebreak) {
                        Err(asm_error_counts(AsmErrorKind::MissingMacroArguments, &tok.info, m.params.len(), self.args.len()))
                    } else if check && !name_prefix_readable(&p) {
                        Err(asm_error(AsmErrorKind::UnreadableParameterName, &tok.info))
                    } else {
                        if check && !macro_argument_type_check(p.as_str(), tok) {
                            let pinfo = &m.params[self.args.len()].1;
                            push_note(
                                notes,
                                Note {
                                    kind: NoteKind::WrongArgumentType(arg_type_for(p.as_str())),
                                    info: tok.info.clone(),
                                    related: Some(pinfo.clone()),
                                    name: p.clone(),
                                },
                            );
                        }
                        if matches!(tok.variant, TokenVariant::Scope) {
                            let mut group: Vec<Token> = Vec::new();
                            push_token(&mut group, tok.clone());
                            assert(views(group@) =~= seq![tok@]);
                            proof {
                                lemma_start_scoped(st0.args, p@, tok@);
                            }
                            set_arg(&mut self.args, p.clone(), TokenOrTokenVec::TokVec(group));
                            self.cur_param = p;
                            self.mode = InsertMode::Scoped;
                            self.scope = 1;
                            Ok(())
                        } else if matches!(tok.variant, TokenVariant::Unscope) {
                            Err(asm_error(AsmErrorKind::UnexpectedUnscope, &tok.info))
                        } else if matches!(tok.variant, TokenVariant::BraceOpen) {
                            let group: Vec<Token> = Vec::new();
                            assert(views(group@) =~= Seq::<TokenV>::empty());
                            set_arg(&mut self.args, p.clone(), TokenOrTokenVec::TokVec(group));
                            self.cur_param = p;
                            self.mode = InsertMode::Braced;
                            self.scope = 1;
                            Ok(())
                        } else {
                            set_arg(&mut self.args, p, TokenOrTokenVec::Tok(tok.clone()));
                            Ok(())
                        }
                    }
                }
            },
            InsertMode::Scoped => {
                push_arg(&mut self.args, &self.cur_param, tok.clone());
                if matches!(tok.variant, TokenVariant::Scope) {
                    self.scope = self.scope + 1;
                } else if matches!(tok.variant, TokenVariant::Unscope) {
                    self.scope = self.scope - 1;
                    if self.scope == 0 {
                        self.cur_param = String::new();
                        self.mode = InsertMode::Args;
                    }
                }
                Ok(())
            },
            InsertMode::Braced => {
                if matches!(tok.variant, TokenVariant::BraceOpen) {
                    push_arg(&mut self.args, &self.cur_param, tok.clone());
                    self.scope = self.scope + 1;
                } else if matches!(tok.variant, TokenVariant::BraceClose) {
                    self.scope = self.scope - 1;
                    if self.scope == 0 {
                        self.cur_param = String::new();
                        self.mode = InsertMode::Args;
                    } else {
                        push_arg(&mut self.args, &self.cur_param, tok.clone());
                    }
                } else {
                    push_arg(&mut self.args, &self.cur_param, tok.clone());
                }
                Ok(())
            },
        }
    }
}

/// The expansion of a call of `m` with the given arguments; `ctx` is the
/// trace of calls, the last one this call.
fn generate_macro_body(
    m: &Macro,
    macros: &Vec<Macro>,
    args: &Vec<(String, TokenOrTokenVec)>,
    ctx: Vec<Info>,
    fuel: u32,
    check: bool,
    notes: &mut Vec<Note>,
) -> (res: Result<Vec<Token>, AsmError>)
    requires
        ctx@.len() > 0,
    ensures
        note_views(final(notes)@) == note_views(old(notes)@) + gen_body_notes(
            m@,
            macro_views(macros@),
            arg_views(args@),
            ctx.deep_view(),
            fuel as nat,
            check,
        ),
        match (res, gen_body(m@, macro_views(macros@), arg_views(args@), ctx.deep_view(), fuel as nat, check)) {
            (Ok(t), Ok(st)) => views(t@) == st,
            (Err(e), Err(se)) => e@ == se,
            _ => false,
        },
    decreases fuel, 0int,
{
    if fuel == 0 {
        assert(ctx.deep_view().last() == ctx@[ctx@.len() - 1]@);
        assert(note_views(notes@) =~= note_views(old(notes)@) + Seq::<NoteV>::empty());
        return Err(asm_error(AsmErrorKind::MacroNestingTooDeep, &ctx[ctx.len() - 1]));
    }
    let body = substitute(m, args, &ctx);
    insert_within(&body, macros, &ctx, fuel - 1, check, notes)
}

/// `insert_macros` with at most `fuel` levels of nested calls.
fn insert_within(
    tokens: &Vec<Token>,
    macros: &Vec<Macro>,
    ctx: &Vec<Info>,
    fuel: u32,
    check: bool,
    notes: &mut Vec<Note>,
) -> (res: Result<Vec<Token>, AsmError>)
    ensures
        note_views(final(notes)@) == note_views(old(notes)@) + insert_notes(
            views(tokens@),
            macro_views(macros@),
            ctx.deep_view(),
            fuel as nat,
            check,
        ),
        match (res, insert_spec(views(tokens@), macro_views(macros@), ctx.deep_view(), fuel as nat, check)) {
            (Ok(t), Ok(st)) => views(t@) == st,
            (Err(e), Err(se)) => e@ == se,
            _ => false,
        },
    decreases fuel, 3int,
{
    let ghost t = views(tokens@);
    let ghost mv = macro_views(macros@);
    let ghost cv = ctx.deep_view();
    let mut ex = Expansion::new();
    let mut i: usize = 0;
    assert(t.take(0) =~= Seq::<TokenV>::empty());
    while i < tokens.len()
        invariant
            i <= tokens.len(),
            t == views(tokens@),
            mv == macro_views(macros@),
            cv == ctx.deep_view(),
            ins_fold(t.take(i as int), mv, cv, fuel as nat, check) == Ok::<InsertState, AsmErrorV>(ex@),
            note_views(notes@) == note_views(old(notes)@) + ins_fold_notes(
                t.take(i as int),
                mv,
                cv,
                fuel as nat,
                check,
            ),
            expansion_wf(ex@, macros.len() as int, i as int),
        decreases tokens.len() - i,
    {
        proof {
            assert(t.take(i + 1).drop_last() =~= t.take(i as int));
            assert(t.take(i + 1).last() == tokens@[i as int]@);
        }
        let r = ex.process_token(&tokens[i], macros, ctx, fuel, check, notes, Ghost(i as int));
        match r {
            Ok(()) => {},
            Err(e) => {
                proof {
                    lemma_ins_fold_err(t, i + 1, mv, cv, fuel as nat, check);
                    lemma_ins_notes_err(t, i + 1, mv, cv, fuel as nat, check);
                    assert(note_views(notes@) =~= note_views(old(notes)@) + insert_notes(
                        t,
                        mv,
                        cv,
                        fuel as nat,
                        check,
                    ));
                }
                return Err(e);
            },
        }
        i += 1;
    }
    assert(t.take(tokens.len() as int) =~= t);
    if ex.mode == InsertMode::Args {
        let m = &macros[ex.mac];
        assert(mv[ex.mac as int] == m@);
        if m.params.len() != ex.args.len() {
            assert(note_views(notes@) =~= note_views(old(notes)@) + insert_notes(
                t,
                mv,
                cv,
                fuel as nat,
                check,
            ));
            return Err(asm_error_counts(AsmErrorKind::NotEnoughArguments, &ex.caller, m.params.len(), ex.args.len()));
        }
        let mut c = clone_infos(ctx);
        c.push(ex.caller.clone());
        assert(c.deep_view() =~= cv.push(ex.caller@));
        let body = generate_macro_body(m, macros, &ex.args, c, fuel, check, notes)?;
        let mut out = ex.out;
        crate::tokens::append_tokens(&mut out, body);
        Ok(out)
    } else {
        assert(note_views(notes@) =~= note_views(old(notes)@) + insert_notes(
            t,
            mv,
            cv,
            fuel as nat,
            check,
        ));
        Ok(ex.out)
    }
}

proof fn lemma_ins_fold_err(t: Seq<TokenV>, k: int, mv: Seq<MacroV>, cv: Seq<InfoV>, fuel: nat, check: bool)
    requires
        0 <= k <= t.len(),
        ins_fold(t.take(k), mv, cv, fuel, check) is Err,
    ensures
        ins_fold(t, mv, cv, fuel, check) == ins_fold(t.take(k), mv, cv, fuel, check),
    decreases t.len() - k,
{
    if k == t.len() {
        assert(t.take(k) =~= t);
    } else {
        assert(t.take(k + 1).drop_last() =~= t.take(k));
        lemma_ins_fold_err(t, k + 1, mv, cv, fuel, check);
    }
}

proof fn lemma_ins_notes_err(t: Seq<TokenV>, k: int, mv: Seq<MacroV>, cv: Seq<InfoV>, fuel: nat, check: bool)
    requires
        0 <= k <= t.len(),
        ins_fold(t.take(k), mv, cv, fuel, check) is Err,
    ensures
        ins_fold_notes(t, mv, cv, fuel, check) == ins_fold_notes(t.take(k), mv, cv, fuel, check),
    decreases t.len() - k,
{
    if k == t.len() {
        assert(t.take(k) =~= t);
    } else {
        assert(t.take(k + 1).drop_last() =~= t.take(k));
        lemma_ins_notes_err(t, k + 1, mv, cv, fuel, check);
    }
}

/// The type a parameter's name asks for.
fn arg_type_for(name: &str) -> (res: ArgType)
    requires
        expected_type(name@) is Some,
    ensures
        res == expected_type(name@)->0,
{
    let c = crate::text::chars_of(name);
    let n = c.len();
    if n > 1 && (c[0] == 's' || c[0] == 'S') && c[1] == '_' {
        ArgType::Scope
    } else if n > 1 && (c[0] == 'm' || c[0] == 'M') && c[1] == '_' {
        ArgType::Braced
    } else if n > 1 && (c[0] == 'l' || c[0] == 'L') && c[1] == '_' {
        ArgType::Literal
    } else {
        ArgType::Label
    }
}

/// Replaces every macro call by the macro's body, with its arguments
/// substituted and the calls inside it expanded in turn. `context` is the
/// trace of calls that the tokens come from. With `check_types`, each
/// argument is checked against the type its parameter's name gives, and a
/// note is added to `notes` for one that does not fit.
pub fn insert_macros(
    tokens: Vec<Token>,
    macros: &Vec<Macro>,
    context: Vec<Info>,
    check_types: bool,
    notes: &mut Vec<Note>,
) -> (res: Result<Vec<Token>, AsmError>)
    ensures
        note_views(final(notes)@) == note_views(old(notes)@) + insert_notes(
            views(tokens@),
            macro_views(macros@),
            context.deep_view(),
            MACRO_DEPTH_LIMIT as nat,
            check_types,
        ),
        match (res, insert_spec(views(tokens@), macro_views(macros@), context.deep_view(), MACRO_DEPTH_LIMIT as nat, check_types)) {
            (Ok(t), Ok(st)) => views(t@) == st,
            (Err(e), Err(se)) => e@ == se,
            _ => false,
        },
{
    insert_within(&tokens, macros, &context, MACRO_DEPTH_LIMIT, check_types, notes)
}

/// The parameter name starts with the type prefix `lo_` (either case of
/// the letter).
pub open spec fn has_type_prefix(name: Seq<char>, lo: char, up: char) -> bool {
    name.len() > 1 && (name[0] == lo || name[0] == up) && name[1] == '_'
}

/// Whether an argument fits the type that its parameter's name gives:
/// `s_` a scope, `m_` a braced group, `l_` a literal, `a_` anything, and
/// any other name a label.
pub open spec fn argument_type_ok(name: Seq<char>, v: VariantV) -> bool {
    if has_type_prefix(name, 's', 'S') {
        v is Scope
    } else if has_type_prefix(name, 'm', 'M') {
        v is BraceOpen
    } else if has_type_prefix(name, 'l', 'L') {
        v is DecLiteral || v is StrLiteral
    } else if has_type_prefix(name, 'a', 'A') {
        true
    } else {
        v is Label
    }
}

/// The byte at index 2 of the name's UTF-8 encoding starts a character
/// (or the name is shorter), so that its first two bytes can be read as a
/// prefix.
pub open spec fn prefix_readable(name: Seq<char>) -> bool {
    &&& name.len() >= 1 ==> (name[0] as u32) < 0x800
    &&& name.len() >= 2 && (name[0] as u32) < 0x80 ==> (name[1] as u32) < 0x80
}

/// Whether the first two bytes of the name can be read as its type
/// prefix.
fn name_prefix_readable(name: &String) -> (res: bool)
    ensures
        res == prefix_readable(name@),
{
    let c = crate::text::chars_of(name.as_str());
    (c.len() < 1 || (c[0] as u32) < 0x800) && (c.len() < 2 || !((c[0] as u32) < 0x80) || (c[1]
        as u32) < 0x80)
}

/// Checks an argument of a macro call against the type of its parameter;
/// `false` means the assembler tells the user which type was expected.
pub fn macro_argument_type_check(argument_name: &str, token: &Token) -> (res: bool)
    requires
        prefix_readable(argument_name@),
    ensures
        res == argument_type_ok(argument_name@, token@.variant),
{
    let name = crate::text::chars_of(argument_name);
    let n = name.len();
    let prefixed = |lo: char, up: char| -> (r: bool)
        ensures
            r == has_type_prefix(name@, lo, up),
        { n > 1 && (name[0] == lo || name[0] == up) && name[1] == '_' };
    if prefixed('s', 'S') {
        matches!(token.variant, TokenVariant::Scope)
    } else if prefixed('m', 'M') {
        matches!(token.variant, TokenVariant::BraceOpen)
    } else if prefixed('l', 'L') {
        matches!(token.variant, TokenVariant::DecLiteral { .. } | TokenVariant::StrLiteral { .. })
    } else if prefixed('a', 'A') {
        true
    } else {
        matches!(token.variant, TokenVariant::Label { .. })
    }
}

/// No token is a macro call.
pub open spec fn no_calls(t: Seq<TokenV>) -> bool {
    forall|i: int| 0 <= i < t.len() ==> !(#[trigger] t[i].variant is MacroCall)
}

proof fn lemma_fold_without_calls(t: Seq<TokenV>, macros: Seq<MacroV>, ctx: Seq<InfoV>, fuel: nat, check: bool)
    requires
        no_calls(t),
    ensures
        ins_fold(t, macros, ctx, fuel, check) == Ok::<InsertState, AsmErrorV>(
            InsertState { out: t, ..ins_init() },
        ),
    decreases t.len(),
{
    if t.len() > 0 {
        let p = t.drop_last();
        assert(no_calls(p)) by {
            assert forall|i: int| 0 <= i < p.len() implies !(#[trigger] p[i].variant is MacroCall) by {
                assert(p[i] == t[i]);
            }
        }
        lemma_fold_without_calls(p, macros, ctx, fuel, check);
        let tok = t.last();
        assert(!(t[t.len() - 1].variant is MacroCall));
        let st = InsertState { out: p, ..ins_init() };
        let st2 = InsertState { out: p.push(tok), ..ins_init() };
        assert(p.push(tok) =~= t);
        assert(ins_step(st, tok, macros, ctx, fuel, check) == Ok::<(InsertState, bool), AsmErrorV>((st2, true)));
        assert(ins_token(st, tok, macros, ctx, fuel, check) == Ok::<InsertState, AsmErrorV>(st2));
    } else {
        assert(t =~= Seq::<TokenV>::empty());
    }
}

/// Tokens without macro calls come out of macro expansion unchanged,
/// whatever the macros, the trace, the depth limit and the type checking.
pub proof fn lemma_insert_without_calls(t: Seq<TokenV>, macros: Seq<MacroV>, ctx: Seq<InfoV>, fuel: nat, check: bool)
    requires
        no_calls(t),
    ensures
        insert_spec(t, macros, ctx, fuel, check) == Ok::<Seq<TokenV>, AsmErrorV>(t),
{
    lemma_fold_without_calls(t, macros, ctx, fuel, check);
}

} // verus!
