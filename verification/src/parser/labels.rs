//! Label definitions, addresses, and the `*` dereference operator.
use vstd::prelude::*;
use crate::error::{asm_error, asm_error_named, err_at, err_named, note, note_views, push_note, AsmError, AsmErrorKind, AsmErrorV, Note, NoteKind, NoteV};
use crate::parser::other::prepend;
use crate::tokens::{
    is_unprocessed_literal, push_token, variant_size, views, with_info_v, Info, InfoV, IntOrString, IntOrStringV, Token, TokenV,
    TokenVariant, VariantV,
};

verus! {

/// Output of `grab_braced_label_definitions` for the tokens from index `i`
/// on.
pub open spec fn grab_from(t: Seq<TokenV>, i: int) -> Result<Seq<TokenV>, AsmErrorV>
    decreases t.len() + 5 - i,
{
    if i >= t.len() || i < 0 {
        Ok(Seq::empty())
    } else if t[i].variant is BraceOpen && i + 2 < t.len() && t[i + 2].variant is LabelArrow {
        match t[i + 1].variant {
            VariantV::Label { name } => {
                if i + 3 < t.len() {
                    let data = match t[i + 3].variant {
                        VariantV::DecLiteral { value } => Some(IntOrStringV::Int(value)),
                        VariantV::Label { name } => Some(IntOrStringV::Str(name)),
                        _ => None,
                    };
                    match data {
                        Some(d) => prepend(
                            seq![
                                with_info_v(
                                    VariantV::BracedLabelDefinition { name, data: d },
                                    t[i + 2],
                                ),
                            ],
                            grab_from(t, i + 5),
                        ),
                        None => Err(err_at(AsmErrorKind::ExpectedLabelOrLiteral, t[i + 3].info)),
                    }
                } else {
                    Ok(Seq::empty())
                }
            },
            _ => Err(err_at(AsmErrorKind::ExpectedLabel, t[i + 1].info)),
        }
    } else {
        prepend(seq![t[i]], grab_from(t, i + 1))
    }
}

/// `grab_braced_label_definitions` reads past the end: a `(` among the
/// last two tokens, or `(label ->` at the very end.
pub open spec fn grab_crash(t: Seq<TokenV>, i: int) -> bool
    decreases t.len() + 5 - i,
{
    if i >= t.len() || i < 0 {
        false
    } else if t[i].variant is BraceOpen && i + 2 >= t.len() {
        true
    } else if t[i].variant is BraceOpen && t[i + 2].variant is LabelArrow {
        if t[i + 1].variant is Label {
            if i + 3 >= t.len() {
                true
            } else if t[i + 3].variant is DecLiteral || t[i + 3].variant is Label {
                grab_crash(t, i + 5)
            } else {
                false
            }
        } else {
            false
        }
    } else {
        grab_crash(t, i + 1)
    }
}

/// Labels may be defined inside of instructions using the following syntax:
/// (label -> 0). This routine converts these definitions into single tokens
pub fn grab_braced_label_definitions(tokens: Vec<Token>) -> (res: Result<Vec<Token>, AsmError>)
    requires
        !grab_crash(views(tokens@), 0),
    ensures
        match (res, grab_from(views(tokens@), 0)) {
            (Ok(v), Ok(sv)) => views(v@) == sv,
            (Err(e), Err(se)) => e@ == se,
            _ => false,
        },
{
    let ghost t = views(tokens@);
    let mut updated_tokens: Vec<Token> = Vec::new();
    let mut i: usize = 0;
    while i < tokens.len()
        invariant
            i <= tokens.len(),
            t == views(tokens@),
            grab_from(t, 0) == prepend(views(updated_tokens@), grab_from(t, i as int)),
            !grab_crash(t, i as int),
        decreases tokens.len() - i,
    {
        let ghost start = views(updated_tokens@);
        if matches!(tokens[i].variant, TokenVariant::BraceOpen) && matches!(
            tokens[i + 2].variant,
            TokenVariant::LabelArrow { .. }
        ) {
            let name = match &tokens[i + 1].variant {
                TokenVariant::Label { name } => name,
                _ => {
                    return Err(asm_error(AsmErrorKind::ExpectedLabel, &tokens[i + 1].info));
                },
            };
            let data: IntOrString = match &tokens[i + 3].variant {
                TokenVariant::DecLiteral { value } => IntOrString::Int(*value),
                TokenVariant::Label { name } => IntOrString::Str(name.clone()),
                _ => {
                    return Err(
                        asm_error(AsmErrorKind::ExpectedLabelOrLiteral, &tokens[i + 3].info),
                    );
                },
            };
            let d = Token::with_info(
                TokenVariant::BracedLabelDefinition { name: name.clone(), data },
                &tokens[i + 2],
            );
            push_token(&mut updated_tokens, d);
            proof {
                match grab_from(t, i + 5) {
                    Ok(x) => assert(start + (seq![d@] + x) =~= views(updated_tokens@) + x),
                    Err(_) => {},
                }
            }
            i = if tokens.len() - i > 5 {
                i + 5
            } else {
                tokens.len()
            };
            continue;
        }
        let c = tokens[i].clone();
        push_token(&mut updated_tokens, c);
        proof {
            match grab_from(t, i + 1) {
                Ok(x) => assert(start + (seq![t[i as int]] + x) =~= views(updated_tokens@) + x),
                Err(_) => {},
            }
        }
        i += 1;
    }
    proof {
        assert(views(updated_tokens@) + Seq::<TokenV>::empty() =~= views(updated_tokens@));
    }
    Ok(updated_tokens)
}

/// A label definition: the scope it belongs to, its name, the address it
/// labels and where it was defined.
#[derive(Debug)]
pub struct LabelEntry {
    pub scope: usize,
    pub name: String,
    pub address: usize,
    pub info: Info,
}

pub struct EntryV {
    pub scope: usize,
    pub name: Seq<char>,
    pub address: usize,
    pub info: InfoV,
}

impl View for LabelEntry {
    type V = EntryV;

    open spec fn view(&self) -> EntryV {
        EntryV { scope: self.scope, name: self.name@, address: self.address, info: self.info@ }
    }
}

/// The views of a label table.
pub open spec fn entry_views(s: Seq<LabelEntry>) -> Seq<EntryV> {
    s.map_values(|e: LabelEntry| e@)
}

/// While addresses are assigned: the number of scopes opened so far, the
/// address of the next word, the stack of open scopes (innermost last) and
/// the definitions found.
pub struct AssignState {
    pub seen: int,
    pub address: int,
    pub stack: Seq<int>,
    pub entries: Seq<EntryV>,
}

pub open spec fn assign_init() -> AssignState {
    AssignState { seen: 0, address: 0, stack: seq![0], entries: Seq::empty() }
}

/// The state after one token: `{` opens a new scope, `}` closes the
/// innermost one, label definitions are recorded in the innermost scope,
/// and the address advances by the size of the token.
pub open spec fn assign_step(st: AssignState, tok: TokenV) -> AssignState {
    let st2 = match tok.variant {
        VariantV::Scope => AssignState {
            seen: st.seen + 1,
            stack: st.stack.push(st.seen + 1),
            ..st
        },
        VariantV::Unscope => AssignState {
            stack: if st.stack.len() > 0 { st.stack.drop_last() } else { st.stack },
            ..st
        },
        VariantV::BracedLabelDefinition { name, .. } => AssignState {
            entries: st.entries.push(
                EntryV {
                    scope: st.stack.last() as usize,
                    name,
                    address: st.address as usize,
                    info: tok.info,
                },
            ),
            ..st
        },
        VariantV::LabelDefinition { name, offset } => AssignState {
            entries: st.entries.push(
                EntryV {
                    scope: st.stack.last() as usize,
                    name,
                    address: (st.address + (offset as usize)) as usize,
                    info: tok.info,
                },
            ),
            ..st
        },
        _ => st,
    };
    AssignState { address: st2.address + variant_size(tok.variant), ..st2 }
}

/// `assign_addresses_to_labels` would crash on this token: a definition
/// outside every scope (after one `}` too many), a literal that should have
/// been rewritten already, or an offset that overflows the address.
pub open spec fn assign_step_crash(st: AssignState, tok: TokenV) -> bool {
    ||| (tok.variant is BracedLabelDefinition || tok.variant is LabelDefinition) && st.stack.len()
        == 0
    ||| is_unprocessed_literal(tok.variant)
    ||| tok.variant is LabelDefinition && st.address + (tok.variant->LabelDefinition_offset as usize)
        > usize::MAX
}

pub open spec fn assign_fold(t: Seq<TokenV>) -> AssignState
    decreases t.len(),
{
    if t.len() == 0 {
        assign_init()
    } else {
        assign_step(assign_fold(t.drop_last()), t.last())
    }
}

pub open spec fn assign_crashes(t: Seq<TokenV>) -> bool
    decreases t.len(),
{
    t.len() > 0 && (assign_crashes(t.drop_last()) || assign_step_crash(
        assign_fold(t.drop_last()),
        t.last(),
    ))
}

proof fn lemma_assign_fold_bounds(t: Seq<TokenV>)
    ensures
        assign_fold(t).seen >= 0,
        0 <= assign_fold(t).address <= t.len(),
        forall|k: int| 0 <= k < assign_fold(t).stack.len() ==> 0 <= #[trigger] assign_fold(t).stack[k] <= assign_fold(t).seen,
        assign_fold(t).seen <= t.len(),
    decreases t.len(),
{
    if t.len() > 0 {
        lemma_assign_fold_bounds(t.drop_last());
    }
}

/// Finds every label definition and the address it labels. Each definition
/// is recorded with the scope it is in; scopes are numbered in the order
/// they are opened, the outermost being 0.
/// A label defined again in the scope it was defined in replaces the
/// earlier definition, with a warning added to `notes`.
pub fn assign_addresses_to_labels(tokens: &[Token], notes: &mut Vec<Note>) -> (res: Vec<LabelEntry>)
    requires
        !assign_crashes(views(tokens@)),
    ensures
        entry_views(res@) == assign_fold(views(tokens@)).entries,
        note_views(final(notes)@) == note_views(old(notes)@) + duplicate_notes(assign_fold(views(tokens@)).entries),
{
    let ghost t = views(tokens@);
    let mut entries: Vec<LabelEntry> = Vec::new();
    let mut address: usize = 0;
    let mut current_scope_indexes: Vec<usize> = vec![0];
    let mut seen_scopes_count: usize = 0;
    let mut i: usize = 0;
    proof {
        assert(t.take(0) =~= Seq::<TokenV>::empty());
        assert(entry_views(entries@) =~= Seq::<EntryV>::empty());
        assert(current_scope_indexes@.map_values(|x: usize| x as int) =~= seq![0int]);
    }
    while i < tokens.len()
        invariant
            i <= tokens.len(),
            t == views(tokens@),
            !assign_crashes(t),
            ({
                let st = assign_fold(t.take(i as int));
                &&& st.seen == seen_scopes_count
                &&& st.address == address
                &&& st.stack == current_scope_indexes@.map_values(|x: usize| x as int)
                &&& st.entries == entry_views(entries@)
            }),
        decreases tokens.len() - i,
    {
        let token = &tokens[i];
        proof {
            assert(t.take(i + 1).drop_last() =~= t.take(i as int));
            assert(t.take(i + 1).last() == token@);
            lemma_assign_fold_bounds(t.take(i as int));
            lemma_no_crash_prefix(t, i + 1);
        }
        let ghost st = assign_fold(t.take(i as int));
        match &token.variant {
            TokenVariant::Scope => {
                seen_scopes_count += 1;
                current_scope_indexes.push(seen_scopes_count);
            },
            TokenVariant::Unscope => {
                current_scope_indexes.pop();
            },
            TokenVariant::BracedLabelDefinition { name, .. } => {
                let scope = current_scope_indexes[current_scope_indexes.len() - 1];
                entries.push(
                    LabelEntry { scope, name: name.clone(), address, info: token.info.clone() },
                );
            },
            TokenVariant::LabelDefinition { name, offset } => {
                let scope = current_scope_indexes[current_scope_indexes.len() - 1];
                let off = #[verifier::truncate] (*offset as usize);
                entries.push(
                    LabelEntry {
                        scope,
                        name: name.clone(),
                        address: address + off,
                        info: token.info.clone(),
                    },
                );
            },
            _ => {},
        }
        address += token.size();
        i += 1;
        proof {
            let st2 = assign_fold(t.take(i as int));
            assert(st2.stack =~= current_scope_indexes@.map_values(|x: usize| x as int));
            assert(st2.entries =~= entry_views(entries@));
        }
    }
    proof {
        assert(t.take(tokens.len() as int) =~= t);
    }
    duplicate_label_notes(&entries, notes);
    entries
}

proof fn lemma_no_crash_prefix(t: Seq<TokenV>, k: int)
    requires
        0 < k <= t.len(),
        !assign_crashes(t),
    ensures
        !assign_crashes(t.take(k)),
        !assign_step_crash(assign_fold(t.take(k - 1)), t[k - 1]),
    decreases t.len() - k,
{
    if k < t.len() {
        lemma_no_crash_prefix(t, k + 1);
        assert(t.take(k + 1).drop_last() =~= t.take(k));
    } else {
        assert(t.take(k) =~= t);
    }
    assert(t.take(k).drop_last() =~= t.take(k - 1));
}

/// Where `name` was last defined in scope `scope`, if it was.
pub open spec fn prior_definition(entries: Seq<EntryV>, scope: usize, name: Seq<char>) -> Option<InfoV>
    decreases entries.len(),
{
    if entries.len() == 0 {
        None
    } else if entries.last().scope == scope && entries.last().name == name {
        Some(entries.last().info)
    } else {
        prior_definition(entries.drop_last(), scope, name)
    }
}

/// The warnings for labels defined again in the same scope, in the order
/// of the definitions: each names the label and the definition it
/// replaces.
pub open spec fn duplicate_notes(entries: Seq<EntryV>) -> Seq<NoteV>
    decreases entries.len(),
{
    if entries.len() == 0 {
        Seq::empty()
    } else {
        let e = entries.last();
        let prev = duplicate_notes(entries.drop_last());
        match prior_definition(entries.drop_last(), e.scope, e.name) {
            Some(earlier) => prev.push(
                NoteV { kind: NoteKind::DuplicateLabel, info: e.info, related: Some(earlier), name: e.name },
            ),
            None => prev,
        }
    }
}

/// Warns of each label that is defined again in the scope it was defined
/// in (the later definition wins).
fn duplicate_label_notes(table: &[LabelEntry], notes: &mut Vec<Note>)
    ensures
        note_views(final(notes)@) == note_views(old(notes)@) + duplicate_notes(entry_views(table@)),
{
    let ghost entries = entry_views(table@);
    let mut i: usize = 0;
    proof {
        assert(entries.take(0) =~= Seq::<EntryV>::empty());
        assert(note_views(notes@) =~= note_views(old(notes)@) + duplicate_notes(entries.take(0)));
    }
    while i < table.len()
        invariant
            i <= table.len(),
            entries == entry_views(table@),
            note_views(notes@) == note_views(old(notes)@) + duplicate_notes(entries.take(i as int)),
        decreases table.len() - i,
    {
        let e = &table[i];
        proof {
            assert(entries.take(i + 1).drop_last() =~= entries.take(i as int));
            assert(entries.take(i + 1).last() == e@);
        }
        let mut j: usize = i;
        let mut found: Option<&Info> = None;
        while found.is_none() && j > 0
            invariant
                j <= i < table.len(),
                entries == entry_views(table@),
                e == &table@[i as int],
                found is None ==> prior_definition(entries.take(i as int), e.scope, e.name@)
                    == prior_definition(entries.take(j as int), e.scope, e.name@),
                found matches Some(f) ==> prior_definition(entries.take(i as int), e.scope, e.name@)
                    == Some(f@),
            decreases j,
        {
            proof {
                assert(entries.take(j as int).drop_last() =~= entries.take(j - 1));
                assert(entries.take(j as int).last() == table@[j - 1]@);
            }
            if table[j - 1].scope == e.scope && table[j - 1].name == e.name {
                found = Some(&table[j - 1].info);
            }
            j -= 1;
        }
        proof {
            if found is None {
                assert(entries.take(0) =~= Seq::<EntryV>::empty());
            }
        }
        match found {
            Some(earlier) => {
                let n = note(NoteKind::DuplicateLabel, &e.info, Some(earlier), &e.name);
                push_note(notes, n);
            },
            None => {},
        }
        i += 1;
        proof {
            assert(note_views(notes@) =~= note_views(old(notes)@) + duplicate_notes(entries.take(i as int)));
        }
    }
    proof {
        assert(entries.take(table.len() as int) =~= entries);
    }
}

/// The address of the last definition of `name` in scope `scope`.
pub open spec fn find_in_scope(entries: Seq<EntryV>, scope: int, name: Seq<char>) -> Option<usize>
    decreases entries.len(),
{
    if entries.len() == 0 {
        None
    } else if entries.last().scope == scope && entries.last().name == name {
        Some(entries.last().address)
    } else {
        find_in_scope(entries.drop_last(), scope, name)
    }
}

/// The address of `name` as seen from the innermost scope of `stack`: the
/// innermost scope that defines it wins.
pub open spec fn lookup(entries: Seq<EntryV>, stack: Seq<int>, name: Seq<char>) -> Option<usize>
    decreases stack.len(),
{
    if stack.len() == 0 {
        None
    } else {
        match find_in_scope(entries, stack.last(), name) {
            Some(a) => Some(a),
            None => lookup(entries, stack.drop_last(), name),
        }
    }
}

/// Looks a label up in the scopes of `stack`, innermost first.
fn find_label(name: &String, table: &[LabelEntry], stack: &Vec<usize>) -> (res: Option<usize>)
    ensures
        res == lookup(entry_views(table@), stack@.map_values(|x: usize| x as int), name@),
{
    let ghost entries = entry_views(table@);
    let ghost st = stack@.map_values(|x: usize| x as int);
    let mut k: usize = stack.len();
    assert(st.take(k as int) =~= st);
    while k > 0
        invariant
            k <= stack.len(),
            entries == entry_views(table@),
            st == stack@.map_values(|x: usize| x as int),
            lookup(entries, st, name@) == lookup(entries, st.take(k as int), name@),
        decreases k,
    {
        let scope = stack[k - 1];
        proof {
            assert(st.take(k as int).drop_last() =~= st.take(k - 1));
            assert(st.take(k as int).last() == scope as int);
        }
        let mut j: usize = table.len();
        assert(entries.take(j as int) =~= entries);
        #[verifier::loop_isolation(false)]
        while j > 0
            invariant
                j <= table.len(),
                entries == entry_views(table@),
                find_in_scope(entries, scope as int, name@) == find_in_scope(
                    entries.take(j as int),
                    scope as int,
                    name@,
                ),
            decreases j,
        {
            proof {
                assert(entries.take(j as int).drop_last() =~= entries.take(j - 1));
                assert(entries.take(j as int).last() == table@[j - 1]@);
            }
            if table[j - 1].scope == scope && table[j - 1].name == *name {
                proof {
                    assert(find_in_scope(entries, scope as int, name@) == Some(table@[j - 1].address));
                    assert(lookup(entries, st.take(k as int), name@) == Some(table@[j - 1].address));
                }
                return Some(table[j - 1].address);
            }
            j -= 1;
        }
        proof {
            assert(entries.take(0) =~= Seq::<EntryV>::empty());
            assert(find_in_scope(entries, scope as int, name@) is None);
        }
        k -= 1;
    }
    None
}

/// While labels are resolved: the address of the current word, the stack of
/// open scopes and the number of scopes opened so far.
pub struct ResolveState {
    pub address: int,
    pub stack: Seq<int>,
    pub seen: int,
}

pub open spec fn resolve_state(t: Seq<TokenV>) -> ResolveState
    decreases t.len(),
{
    if t.len() == 0 {
        ResolveState { address: 0, stack: seq![0], seen: 0 }
    } else {
        let st = resolve_state(t.drop_last());
        let tok = t.last();
        let st2 = match tok.variant {
            VariantV::Scope => ResolveState {
                stack: st.stack.push(st.seen + 1),
                seen: st.seen + 1,
                ..st
            },
            VariantV::Unscope => ResolveState {
                stack: if st.stack.len() > 0 { st.stack.drop_last() } else { st.stack },
                ..st
            },
            _ => st,
        };
        ResolveState { address: st2.address + variant_size(tok.variant), ..st2 }
    }
}

/// The number of `{` minus the number of `}` among the tokens.
pub open spec fn scope_balance(q: Seq<TokenV>) -> int
    decreases q.len(),
{
    if q.len() == 0 {
        0
    } else {
        scope_balance(q.drop_last()) + if q.last().variant is Scope {
            1int
        } else if q.last().variant is Unscope {
            -1int
        } else {
            0int
        }
    }
}

/// No `}` among the tokens closes a scope opened before them.
pub open spec fn never_closes_outer(q: Seq<TokenV>) -> bool {
    forall|k: int| 0 <= k <= q.len() ==> scope_balance(#[trigger] q.take(k)) >= 0
}

proof fn lemma_never_closes_outer_prefix(q: Seq<TokenV>)
    requires
        q.len() > 0,
        never_closes_outer(q),
    ensures
        never_closes_outer(q.drop_last()),
        scope_balance(q.drop_last()) >= 0,
{
    let q2 = q.drop_last();
    assert forall|k: int| 0 <= k <= q2.len() implies scope_balance(#[trigger] q2.take(k)) >= 0 by {
        assert(q2.take(k) =~= q.take(k));
    }
    assert(q.take(q2.len() as int) =~= q2);
}

proof fn lemma_resolve_stack_inside(p: Seq<TokenV>, open: TokenV, q: Seq<TokenV>)
    requires
        open.variant is Scope,
        never_closes_outer(q),
    ensures
        ({
            let sp = resolve_state(p).stack;
            let st = resolve_state(p + seq![open] + q).stack;
            &&& st.len() == sp.len() + 1 + scope_balance(q)
            &&& st.take(sp.len() as int) == sp
        }),
    decreases q.len(),
{
    let sp = resolve_state(p).stack;
    if q.len() == 0 {
        assert(p + seq![open] + q =~= p.push(open));
        assert(p.push(open).drop_last() =~= p);
        assert(resolve_state(p + seq![open] + q).stack.take(sp.len() as int) =~= sp);
    } else {
        let q2 = q.drop_last();
        lemma_never_closes_outer_prefix(q);
        lemma_resolve_stack_inside(p, open, q2);
        assert((p + seq![open] + q).drop_last() =~= p + seq![open] + q2);
        assert(q.take(q.len() as int) =~= q);
        let st2 = resolve_state(p + seq![open] + q2).stack;
        let st = resolve_state(p + seq![open] + q).stack;
        if q.last().variant is Scope {
            assert(st == st2.push(resolve_state(p + seq![open] + q2).seen + 1));
            assert(st.take(sp.len() as int) =~= st2.take(sp.len() as int));
        } else if q.last().variant is Unscope {
            assert(st == st2.drop_last());
            assert(st.take(sp.len() as int) =~= st2.take(sp.len() as int));
        } else {
            assert(st == st2);
        }
    }
}

/// A closed scope hides its labels: after a scope `{ q }` whose own `}`
/// closes it (q closes no scope it did not open, and closes all it opens),
/// the scopes in which labels are looked up are again exactly those open
/// before the `{`, so a label resolves as it would have before the scope,
/// never to a definition made inside it.
pub proof fn lemma_closed_scope_hides_labels(
    p: Seq<TokenV>,
    open: TokenV,
    q: Seq<TokenV>,
    close: TokenV,
    entries: Seq<EntryV>,
    address: int,
    tok: TokenV,
)
    requires
        open.variant is Scope,
        close.variant is Unscope,
        never_closes_outer(q),
        scope_balance(q) == 0,
    ensures
        resolve_state(p + seq![open] + q + seq![close]).stack == resolve_state(p).stack,
        resolve_variant(entries, resolve_state(p + seq![open] + q + seq![close]).stack, address, tok)
            == resolve_variant(entries, resolve_state(p).stack, address, tok),
{
    lemma_resolve_stack_inside(p, open, q);
    let t = p + seq![open] + q + seq![close];
    assert(t.drop_last() =~= p + seq![open] + q);
    let sp = resolve_state(p).stack;
    let st2 = resolve_state(p + seq![open] + q).stack;
    assert(resolve_state(t).stack == st2.drop_last());
    assert(st2.drop_last() =~= st2.take(sp.len() as int));
}

proof fn lemma_resolve_stack_bound(t: Seq<TokenV>)
    ensures
        resolve_state(t).seen >= 0,
        forall|i: int| 0 <= i < resolve_state(t).stack.len() ==> 0 <= #[trigger] resolve_state(t).stack[i]
            <= resolve_state(t).seen,
    decreases t.len(),
{
    if t.len() > 0 {
        lemma_resolve_stack_bound(t.drop_last());
    }
}

/// A label used after a closed scope `{ q }` resolves among the scopes
/// open before the `{` only: every scope it is looked up in was opened
/// before the `{` (scopes are numbered in the order they are opened), and
/// the label becomes the address that lookup gives, or the error for an
/// undefined label.
pub proof fn lemma_label_after_closed_scope(
    p: Seq<TokenV>,
    open: TokenV,
    q: Seq<TokenV>,
    close: TokenV,
    entries: Seq<EntryV>,
    x: TokenV,
)
    requires
        open.variant is Scope,
        close.variant is Unscope,
        never_closes_outer(q),
        scope_balance(q) == 0,
        x.variant is Label,
    ensures
        ({
            let t = p + seq![open] + q + seq![close];
            let sp = resolve_state(p).stack;
            let name = x.variant->Label_name;
            &&& forall|i: int| 0 <= i < resolve_state(t).stack.len() ==> #[trigger] resolve_state(t).stack[i]
                <= resolve_state(p).seen
            &&& resolve_state(p + seq![open]).stack.last() == resolve_state(p).seen + 1
            &&& resolve_out(entries, t) matches Ok(before) ==> resolve_out(entries, t.push(x)) == match lookup(
                entries,
                sp,
                name,
            ) {
                Some(a) => Ok(before.push(TokenV { variant: VariantV::DecLiteral { value: a as i32 }, ..x })),
                None => Err(undefined_label(name, x.info)),
            }
        }),
{
    let t = p + seq![open] + q + seq![close];
    lemma_closed_scope_hides_labels(p, open, q, close, entries, 0, x);
    lemma_resolve_stack_bound(p);
    assert(t.push(x).drop_last() =~= t);
    assert((p + seq![open]).drop_last() =~= p);
}

proof fn lemma_assign_stack_inside(p: Seq<TokenV>, open: TokenV, q: Seq<TokenV>)
    requires
        open.variant is Scope,
        never_closes_outer(q),
    ensures
        ({
            let sp = assign_fold(p).stack;
            let st = assign_fold(p + seq![open] + q).stack;
            &&& st.len() == sp.len() + 1 + scope_balance(q)
            &&& st.take(sp.len() as int) == sp
        }),
    decreases q.len(),
{
    let sp = assign_fold(p).stack;
    if q.len() == 0 {
        assert(p + seq![open] + q =~= p.push(open));
        assert(p.push(open).drop_last() =~= p);
        assert(assign_fold(p + seq![open] + q).stack.take(sp.len() as int) =~= sp);
    } else {
        let q2 = q.drop_last();
        lemma_never_closes_outer_prefix(q);
        lemma_assign_stack_inside(p, open, q2);
        assert((p + seq![open] + q).drop_last() =~= p + seq![open] + q2);
        assert(q.take(q.len() as int) =~= q);
        let st2 = assign_fold(p + seq![open] + q2).stack;
        let st = assign_fold(p + seq![open] + q).stack;
        if q.last().variant is Scope {
            assert(st == st2.push(assign_fold(p + seq![open] + q2).seen + 1));
            assert(st.take(sp.len() as int) =~= st2.take(sp.len() as int));
        } else if q.last().variant is Unscope {
            assert(st == st2.drop_last());
            assert(st.take(sp.len() as int) =~= st2.take(sp.len() as int));
        } else {
            assert(st == st2);
        }
    }
}

/// Label definitions inside a closed scope stay there: after a scope
/// `{ q }` closed by its own `}`, later definitions are recorded in the
/// scope that was innermost before the `{`, and every definition made
/// inside it is recorded in a scope opened after the `{` (numbered above
/// every scope opened before it).
pub proof fn lemma_closed_scope_keeps_definitions(p: Seq<TokenV>, open: TokenV, q: Seq<TokenV>, close: TokenV)
    requires
        open.variant is Scope,
        close.variant is Unscope,
        never_closes_outer(q),
        scope_balance(q) == 0,
    ensures
        assign_fold(p + seq![open] + q + seq![close]).stack == assign_fold(p).stack,
        assign_fold(p + seq![open]).stack.last() == assign_fold(p).seen + 1,
        forall|i: int| 0 <= i < assign_fold(p).stack.len() ==> #[trigger] assign_fold(p).stack[i] <= assign_fold(p).seen,
{
    lemma_assign_stack_inside(p, open, q);
    let t = p + seq![open] + q + seq![close];
    assert(t.drop_last() =~= p + seq![open] + q);
    let sp = assign_fold(p).stack;
    let st2 = assign_fold(p + seq![open] + q).stack;
    assert(assign_fold(t).stack == st2.drop_last());
    assert(st2.drop_last() =~= st2.take(sp.len() as int));
    assert((p + seq![open]).drop_last() =~= p);
    lemma_assign_fold_bounds(p);
}

/// The error for a label that has no definition in scope.
pub open spec fn undefined_label(name: Seq<char>, info: InfoV) -> AsmErrorV {
    if name == "_ASM"@ {
        err_named(AsmErrorKind::UndefinedAsmLabel, info, name)
    } else {
        err_named(AsmErrorKind::UndefinedLabel, info, name)
    }
}

/// The variant a token is resolved to, given the stack of scopes after the
/// tokens before it (for `{` and `}` the stack after them) and the address
/// it has: labels become their address, braced label definitions their
/// value (a label as value stands for the address of that label, looked up
/// in the scopes open at the definition), relative addresses `$n` become the
/// address plus `n`.
pub open spec fn resolve_variant(entries: Seq<EntryV>, stack: Seq<int>, address: int, tok: TokenV) -> Result<
    VariantV,
    AsmErrorV,
> {
    match tok.variant {
        VariantV::Label { name } => match lookup(entries, stack, name) {
            Some(a) => Ok(VariantV::DecLiteral { value: a as i32 }),
            None => Err(undefined_label(name, tok.info)),
        },
        VariantV::BracedLabelDefinition { name, data } => match data {
            IntOrStringV::Int(v) => Ok(VariantV::DecLiteral { value: v }),
            IntOrStringV::Str(target) => match lookup(entries, stack, target) {
                Some(a) => Ok(VariantV::DecLiteral { value: a as i32 }),
                None => Err(undefined_label(target, tok.info)),
            },
        },
        VariantV::Relative { offset } => Ok(
            VariantV::DecLiteral { value: ((address as i32) + offset) as i32 },
        ),
        _ => Ok(tok.variant),
    }
}

/// The resolved tokens, or the first undefined label.
pub open spec fn resolve_out(entries: Seq<EntryV>, t: Seq<TokenV>) -> Result<Seq<TokenV>, AsmErrorV>
    decreases t.len(),
{
    if t.len() == 0 {
        Ok(Seq::empty())
    } else {
        match resolve_out(entries, t.drop_last()) {
            Err(e) => Err(e),
            Ok(p) => {
                let st = resolve_state(t.drop_last());
                let tok = t.last();
                let stack = match tok.variant {
                    VariantV::Scope => st.stack.push(st.seen + 1),
                    VariantV::Unscope => if st.stack.len() > 0 {
                        st.stack.drop_last()
                    } else {
                        st.stack
                    },
                    _ => st.stack,
                };
                match resolve_variant(entries, stack, st.address, tok) {
                    Ok(v) => Ok(p.push(TokenV { variant: v, ..tok })),
                    Err(e) => Err(e),
                }
            },
        }
    }
}

/// `resolve_labels_and_relatives` would crash: a literal that should have
/// been rewritten already, or a relative address that overflows.
pub open spec fn resolve_crashes(t: Seq<TokenV>) -> bool
    decreases t.len(),
{
    t.len() > 0 && (resolve_crashes(t.drop_last()) || {
        let tok = t.last();
        let address = resolve_state(t.drop_last()).address;
        ||| is_unprocessed_literal(tok.variant)
        ||| tok.variant is Relative && ((address as i32) + tok.variant->Relative_offset < i32::MIN || (
        address as i32) + tok.variant->Relative_offset > i32::MAX)
    })
}

proof fn lemma_resolve_state_bounds(t: Seq<TokenV>)
    ensures
        0 <= resolve_state(t).address <= t.len(),
        0 <= resolve_state(t).seen <= t.len(),
    decreases t.len(),
{
    if t.len() > 0 {
        lemma_resolve_state_bounds(t.drop_last());
    }
}

proof fn lemma_resolve_no_crash_prefix(t: Seq<TokenV>, k: int)
    requires
        0 <= k <= t.len(),
        !resolve_crashes(t),
    ensures
        !resolve_crashes(t.take(k)),
    decreases t.len() - k,
{
    if k < t.len() {
        lemma_resolve_no_crash_prefix(t, k + 1);
        assert(t.take(k + 1).drop_last() =~= t.take(k));
    } else {
        assert(t.take(k) =~= t);
    }
}

proof fn lemma_resolve_err_stays(entries: Seq<EntryV>, t: Seq<TokenV>, k: int)
    requires
        0 <= k <= t.len(),
        resolve_out(entries, t.take(k)) is Err,
    ensures
        resolve_out(entries, t) == resolve_out(entries, t.take(k)),
    decreases t.len() - k,
{
    if k < t.len() {
        assert(t.take(k + 1).drop_last() =~= t.take(k));
        lemma_resolve_err_stays(entries, t, k + 1);
    } else {
        assert(t.take(k) =~= t);
    }
}

/// All labels get resolved, i.e. converted into the address they label.
/// This routine also resolves relatives. On an error the tokens are left
/// as they were.
pub fn resolve_labels_and_relatives(tokens: &mut [Token], scoped_label_table: &[LabelEntry]) -> (res:
    Result<(), AsmError>)
    requires
        !resolve_crashes(views(old(tokens)@)),
    ensures
        match (res, resolve_out(entry_views(scoped_label_table@), views(old(tokens)@))) {
            (Ok(()), Ok(sv)) => views(final(tokens)@) == sv,
            (Err(e), Err(se)) => e@ == se && final(tokens)@ == old(tokens)@,
            _ => false,
        },
{
    let ghost t = views(tokens@);
    let ghost entries = entry_views(scoped_label_table@);
    let mut new_variants: Vec<TokenVariant> = Vec::new();
    let mut address: usize = 0;
    let mut current_scope_indexes: Vec<usize> = vec![0];
    let mut seen_scopes_count: usize = 0;
    let mut i: usize = 0;
    proof {
        assert(t.take(0) =~= Seq::<TokenV>::empty());
        assert(current_scope_indexes@.map_values(|x: usize| x as int) =~= seq![0int]);
    }
    while i < tokens.len()
        invariant
            i <= tokens.len(),
            t == views(tokens@),
            entries == entry_views(scoped_label_table@),
            !resolve_crashes(t),
            new_variants.len() == i,
            ({
                let st = resolve_state(t.take(i as int));
                &&& st.seen == seen_scopes_count
                &&& st.address == address
                &&& st.stack == current_scope_indexes@.map_values(|x: usize| x as int)
            }),
            resolve_out(entries, t.take(i as int)) is Ok,
            resolve_out(entries, t.take(i as int))->Ok_0.len() == i,
            forall|k: int|
                0 <= k < i ==> #[trigger] resolve_out(entries, t.take(i as int))->Ok_0[k] == (
                TokenV { variant: new_variants@[k]@, ..t[k] }),
        decreases tokens.len() - i,
    {
        let token = &tokens[i];
        proof {
            assert(t.take(i + 1).drop_last() =~= t.take(i as int));
            assert(t.take(i + 1).last() == token@);
            lemma_resolve_state_bounds(t.take(i as int));
            lemma_resolve_no_crash_prefix(t, i + 1);
        }
        let ghost st = resolve_state(t.take(i as int));
        match &token.variant {
            TokenVariant::Scope => {
                seen_scopes_count += 1;
                current_scope_indexes.push(seen_scopes_count);
            },
            TokenVariant::Unscope => {
                current_scope_indexes.pop();
            },
            _ => {},
        }
        proof {
            assert(current_scope_indexes@.map_values(|x: usize| x as int) =~= match token@.variant {
                VariantV::Scope => st.stack.push(st.seen + 1),
                VariantV::Unscope => if st.stack.len() > 0 {
                    st.stack.drop_last()
                } else {
                    st.stack
                },
                _ => st.stack,
            });
        }
        let new_variant: TokenVariant = match &token.variant {
            TokenVariant::Label { name } => {
                match find_label(name, scoped_label_table, &current_scope_indexes) {
                    Some(val) => TokenVariant::DecLiteral { value: #[verifier::truncate] (val as i32) },
                    None => {
                        let kind = if *name == "_ASM".to_owned() {
                            AsmErrorKind::UndefinedAsmLabel
                        } else {
                            AsmErrorKind::UndefinedLabel
                        };
                        proof {
                            lemma_resolve_err_stays(entries, t, i + 1);
                        }
                        return Err(asm_error_named(kind, &token.info, name));
                    },
                }
            },
            TokenVariant::BracedLabelDefinition { name, data } => {
                match data {
                    IntOrString::Int(val) => TokenVariant::DecLiteral { value: *val },
                    IntOrString::Str(target) => {
                        match find_label(target, scoped_label_table, &current_scope_indexes) {
                            Some(val) => TokenVariant::DecLiteral {
                                value: #[verifier::truncate] (val as i32),
                            },
                            None => {
                                let kind = if *target == "_ASM".to_owned() {
                                    AsmErrorKind::UndefinedAsmLabel
                                } else {
                                    AsmErrorKind::UndefinedLabel
                                };
                                proof {
                                    lemma_resolve_err_stays(entries, t, i + 1);
                                }
                                return Err(asm_error_named(kind, &token.info, target));
                            },
                        }
                    },
                }
            },
            TokenVariant::Relative { offset } => {
                TokenVariant::DecLiteral {
                    value: (#[verifier::truncate] (address as i32)) + *offset,
                }
            },
            _ => token.variant.clone(),
        };
        address += token.size();
        new_variants.push(new_variant);
        i += 1;
        proof {
            let st2 = resolve_state(t.take(i as int));
            assert(st2.stack =~= current_scope_indexes@.map_values(|x: usize| x as int));
            let r = resolve_out(entries, t.take(i as int))->Ok_0;
            assert forall|k: int| 0 <= k < i implies #[trigger] r[k] == (TokenV {
                variant: new_variants@[k]@,
                ..t[k]
            }) by {
                if k < i - 1 {
                    assert(r[k] == resolve_out(entries, t.take(i - 1))->Ok_0[k]);
                }
            }
        }
    }
    proof {
        assert(t.take(tokens.len() as int) =~= t);
    }
    let ghost out = resolve_out(entries, t)->Ok_0;
    let mut k: usize = 0;
    while k < tokens.len()
        invariant
            k <= tokens.len(),
            tokens.len() == t.len(),
            new_variants.len() == tokens.len(),
            out.len() == t.len(),
            forall|j: int| 0 <= j < k ==> #[trigger] tokens@[j]@ == out[j],
            forall|j: int| k <= j < tokens.len() ==> #[trigger] tokens@[j]@ == t[j],
            forall|j: int|
                0 <= j < tokens.len() ==> #[trigger] out[j] == (TokenV {
                    variant: new_variants@[j]@,
                    ..t[j]
                }),
        decreases tokens.len() - k,
    {
        let v = new_variants[k].clone();
        let mut tk = tokens[k].clone();
        tk.variant = v;
        tokens[k] = tk;
        k += 1;
    }
    proof {
        assert(views(tokens@) =~= out);
    }
    Ok(())
}

/// The instructions that copy the word at `*ptr` into the label `w`, with
/// `n` the name of the pointer:
///
///     _ASM _ASM $1
///     w    w    $1
///     n    _ASM $1
///     _ASM w    $1
pub open spec fn deref_variants(w: Seq<char>, n: Seq<char>) -> Seq<VariantV> {
    let tmp = VariantV::Label { name: "_ASM"@ };
    let lw = VariantV::Label { name: w };
    let ln = VariantV::Label { name: n };
    let r = VariantV::Relative { offset: 1 };
    let lb = VariantV::Linebreak;
    seq![lb, tmp, tmp, r, lb, lw, lw, r, lb, ln, tmp, r, lb, tmp, lw, r, lb]
}

/// Runs a straight line of Subleq instructions `a b c` written with labels,
/// where every jump goes on to the next instruction: each instruction
/// subtracts the value of `a` from the value of `b`. Line breaks and
/// anything that does not start with two labels are skipped.
pub open spec fn run_label_lines(m: spec_fn(Seq<char>) -> int, v: Seq<VariantV>) -> spec_fn(Seq<char>) -> int
    decreases v.len(),
{
    if v.len() < 3 {
        m
    } else if v[0] is Label && v[1] is Label {
        let a = v[0]->Label_name;
        let b = v[1]->Label_name;
        run_label_lines(|x: Seq<char>| if x == b { m(b) - m(a) } else { m(x) }, v.skip(3))
    } else {
        run_label_lines(m, v.skip(1))
    }
}

/// The dereference copies the pointer's value: run on any values, the
/// instructions that dereference pointer `n` into the fresh label `w`
/// leave `w` holding the value of `n`, and change no label but `w` and
/// `_ASM`.
pub proof fn lemma_deref_copies_pointer(w: Seq<char>, n: Seq<char>, m: spec_fn(Seq<char>) -> int)
    requires
        w != n,
        w != "_ASM"@,
        n != "_ASM"@,
    ensures
        run_label_lines(m, deref_variants(w, n))(w) == m(n),
        run_label_lines(m, deref_variants(w, n))(n) == m(n),
        forall|x: Seq<char>| x != w && x != "_ASM"@ ==> #[trigger] run_label_lines(m, deref_variants(w, n))(x) == m(x),
{
    let v = deref_variants(w, n);
    reveal_with_fuel(run_label_lines, 18);
    assert(v.skip(1).skip(3) =~= v.skip(4));
    assert(v.skip(4).skip(1).skip(3) =~= v.skip(8));
    assert(v.skip(8).skip(1).skip(3) =~= v.skip(12));
    assert(v.skip(12).skip(1).skip(3) =~= v.skip(16));
    let m1 = |x: Seq<char>| if x == "_ASM"@ { m("_ASM"@) - m("_ASM"@) } else { m(x) };
    let m2 = |x: Seq<char>| if x == w { m1(w) - m1(w) } else { m1(x) };
    let m3 = |x: Seq<char>| if x == "_ASM"@ { m2("_ASM"@) - m2(n) } else { m2(x) };
    let m4 = |x: Seq<char>| if x == w { m3(w) - m3("_ASM"@) } else { m3(x) };
    assert(run_label_lines(m, v) == run_label_lines(m1, v.skip(4)));
    assert(run_label_lines(m1, v.skip(4)) == run_label_lines(m2, v.skip(8)));
    assert(run_label_lines(m2, v.skip(8)) == run_label_lines(m3, v.skip(12)));
    assert(run_label_lines(m3, v.skip(12)) == run_label_lines(m4, v.skip(16)));
    assert(run_label_lines(m4, v.skip(16)) == m4);
}

/// Tokens with the given variants, all with the same info and origin.
pub open spec fn tokens_with(vs: Seq<VariantV>, info: InfoV, origin: Seq<InfoV>) -> Seq<TokenV> {
    vs.map_values(|v: VariantV| TokenV { info, variant: v, origin_info: origin })
}

fn label_token(name: String, info: &Info, origin_info: &[Info]) -> (res: Token)
    ensures
        res@ == (TokenV {
            info: info@,
            variant: VariantV::Label { name: name@ },
            origin_info: origin_info@.map_values(|x: Info| x@),
        }),
{
    Token {
        info: info.clone(),
        origin_info: crate::parser::other::clone_info_slice(origin_info),
        variant: TokenVariant::Label { name },
    }
}

fn plain_token(variant: TokenVariant, info: &Info, origin_info: &[Info]) -> (res: Token)
    ensures
        res@ == (TokenV {
            info: info@,
            variant: variant@,
            origin_info: origin_info@.map_values(|x: Info| x@),
        }),
{
    Token {
        info: info.clone(),
        origin_info: crate::parser::other::clone_info_slice(origin_info),
        variant,
    }
}

/// The seventeen tokens that copy the word a pointer points at into the
/// label `label_with_id`.
pub fn make_deref_instructions(
    info: &Info,
    origin_info: &[Info],
    label_with_id: &str,
    label_without_id: &String,
) -> (res: Vec<Token>)
    ensures
        views(res@) == tokens_with(
            deref_variants(label_with_id@, label_without_id@),
            info@,
            origin_info@.map_values(|x: Info| x@),
        ),
{
    let mut deref: Vec<Token> = Vec::new();
    let ghost vs = deref_variants(label_with_id@, label_without_id@);
    let ghost o = origin_info@.map_values(|x: Info| x@);
    push_token(&mut deref, plain_token(TokenVariant::Linebreak, info, origin_info));
    push_token(&mut deref, label_token("_ASM".to_owned(), info, origin_info));
    push_token(&mut deref, label_token("_ASM".to_owned(), info, origin_info));
    push_token(&mut deref, plain_token(TokenVariant::Relative { offset: 1 }, info, origin_info));
    push_token(&mut deref, plain_token(TokenVariant::Linebreak, info, origin_info));
    push_token(&mut deref, label_token(label_with_id.to_owned(), info, origin_info));
    push_token(&mut deref, label_token(label_with_id.to_owned(), info, origin_info));
    push_token(&mut deref, plain_token(TokenVariant::Relative { offset: 1 }, info, origin_info));
    push_token(&mut deref, plain_token(TokenVariant::Linebreak, info, origin_info));
    push_token(&mut deref, label_token(label_without_id.clone(), info, origin_info));
    push_token(&mut deref, label_token("_ASM".to_owned(), info, origin_info));
    push_token(&mut deref, plain_token(TokenVariant::Relative { offset: 1 }, info, origin_info));
    push_token(&mut deref, plain_token(TokenVariant::Linebreak, info, origin_info));
    push_token(&mut deref, label_token("_ASM".to_owned(), info, origin_info));
    push_token(&mut deref, label_token(label_with_id.to_owned(), info, origin_info));
    push_token(&mut deref, plain_token(TokenVariant::Relative { offset: 1 }, info, origin_info));
    push_token(&mut deref, plain_token(TokenVariant::Linebreak, info, origin_info));
    assert(views(deref@) =~= tokens_with(vs, info@, o));
    deref
}

/// The name of the label that holds the `id`-th dereferenced value of the
/// pointer `name`: `*id*name`.
pub open spec fn deref_label(id: nat, name: Seq<char>) -> Seq<char> {
    seq!['*'] + crate::text::dec_chars(id) + seq!['*'] + name
}

/// Number of tokens that one dereference inserts before its line.
pub const INSERTED_INSTRUCTIONS_SIZE: usize = 17;

/// Output of `expand_derefs` for the tokens from `i` on, given the output
/// `out` so far, the index `lb` where instructions are inserted, and the
/// number `id` of dereferences so far. `*ptr` is replaced by the braced
/// label `(*id*ptr -> 0)`, and the instructions that fill that label are
/// inserted before the line break that precedes the current line.
#[verifier::opaque]
pub open spec fn deref_from(t: Seq<TokenV>, i: int, out: Seq<TokenV>, lb: int, id: nat) -> Seq<TokenV>
    decreases t.len() - i,
{
    if i >= t.len() || i < 0 {
        out
    } else if t[i].variant is Asterisk && i + 1 < t.len() && t[i + 1].variant is Label {
        let name = t[i + 1].variant->Label_name;
        let w = deref_label(id, name);
        let d = tokens_with(deref_variants(w, name), t[i].info, t[i].origin_info);
        let braced = TokenV {
            info: t[i].info,
            origin_info: t[i].origin_info,
            variant: VariantV::BracedLabelDefinition { name: w, data: IntOrStringV::Int(0) },
        };
        deref_from(t, i + 2, (out.take(lb) + d + out.skip(lb)).push(braced), lb + 17, id + 1)
    } else if t[i].variant is Linebreak {
        deref_from(t, i + 1, out.push(t[i]), i + id * 16, id)
    } else {
        deref_from(t, i + 1, out.push(t[i]), lb, id)
    }
}

proof fn lemma_deref_star(t: Seq<TokenV>, i: int, out: Seq<TokenV>, lb: int, id: nat)
    requires
        0 <= i,
        i + 1 < t.len(),
        t[i].variant is Asterisk,
        t[i + 1].variant is Label,
    ensures
        deref_from(t, i, out, lb, id) == ({
            let name = t[i + 1].variant->Label_name;
            let w = deref_label(id, name);
            let d = tokens_with(deref_variants(w, name), t[i].info, t[i].origin_info);
            let braced = TokenV {
                info: t[i].info,
                origin_info: t[i].origin_info,
                variant: VariantV::BracedLabelDefinition { name: w, data: IntOrStringV::Int(0) },
            };
            deref_from(t, i + 2, (out.take(lb) + d + out.skip(lb)).push(braced), lb + 17, id + 1)
        }),
{
    reveal_with_fuel(deref_from, 1);
}

proof fn lemma_deref_other(t: Seq<TokenV>, i: int, out: Seq<TokenV>, lb: int, id: nat)
    requires
        0 <= i < t.len(),
        !(t[i].variant is Asterisk),
    ensures
        deref_from(t, i, out, lb, id) == if t[i].variant is Linebreak {
            deref_from(t, i + 1, out.push(t[i]), i + id * 16, id)
        } else {
            deref_from(t, i + 1, out.push(t[i]), lb, id)
        },
{
    reveal_with_fuel(deref_from, 1);
}

proof fn lemma_deref_end(t: Seq<TokenV>, i: int, out: Seq<TokenV>, lb: int, id: nat)
    requires
        i >= t.len(),
    ensures
        deref_from(t, i, out, lb, id) == out,
{
    reveal_with_fuel(deref_from, 1);
}

/// `expand_derefs` would never finish: a `*` that is not followed by a
/// label (and was not a multiplication).
pub open spec fn deref_hangs(t: Seq<TokenV>) -> bool {
    exists|i: int|
        0 <= i < t.len() && #[trigger] t[i].variant is Asterisk && !(i + 1 < t.len() && t[i
            + 1].variant is Label)
}

/// Inserts tokens at a position.
fn insert_tokens_at(out: &mut Vec<Token>, at: usize, toks: Vec<Token>)
    requires
        at <= old(out).len(),
    ensures
        views(final(out)@) == views(old(out)@).take(at as int) + views(toks@) + views(
            old(out)@,
        ).skip(at as int),
{
    let ghost o = views(out@);
    let mut k: usize = 0;
    let mut toks = toks;
    let ghost tv = views(toks@);
    let mut rest: Vec<Token> = Vec::new();
    while out.len() > at
        invariant
            at <= out.len(),
            o.take(at as int) == views(out@).take(at as int),
            views(out@) + views(rest@) == o,
        decreases out.len(),
    {
        let x = out.pop().unwrap();
        let ghost r = views(rest@);
        rest.insert(0, x);
        proof {
            assert(views(rest@) =~= seq![x@] + r);
            assert(views(out@) + views(rest@) =~= o);
            assert(views(out@).take(at as int) =~= o.take(at as int));
        }
    }
    proof {
        assert(views(out@) =~= o.take(at as int));
        assert(views(rest@) =~= o.skip(at as int));
    }
    crate::tokens::append_tokens(out, toks);
    crate::tokens::append_tokens(out, rest);
}

/// The name `*id*name` as a string.
fn deref_label_string(id: usize, name: &String) -> (res: String)
    ensures
        res@ == deref_label(id as nat, name@),
{
    let mut label = String::new();
    crate::text::push_char(&mut label, '*');
    crate::text::push_dec(&mut label, id as u64);
    crate::text::push_char(&mut label, '*');
    let name_chars = crate::text::chars_of(name.as_str());
    let mut k: usize = 0;
    let ghost prefix = label@;
    while k < name_chars.len()
        invariant
            k <= name_chars.len(),
            label@ == prefix + name_chars@.take(k as int),
        decreases name_chars.len() - k,
    {
        crate::text::push_char(&mut label, name_chars[k]);
        k += 1;
        assert(label@ =~= prefix + name_chars@.take(k as int));
    }
    assert(name_chars@.take(name_chars.len() as int) =~= name_chars@);
    assert(label@ =~= deref_label(id as nat, name@));
    label
}

/// Replaces `*name` (the `*` token `star`) by its braced label and inserts
/// the instructions that fill it at `lb`.
fn expand_one_deref(new_tokens: &mut Vec<Token>, lb: usize, id: usize, star: &Token, name: &String)
    requires
        lb <= old(new_tokens).len(),
    ensures
        final(new_tokens).len() == old(new_tokens).len() + 18,
        views(final(new_tokens)@) == ({
            let w = deref_label(id as nat, name@);
            let d = tokens_with(deref_variants(w, name@), star@.info, star@.origin_info);
            let braced = TokenV {
                info: star@.info,
                origin_info: star@.origin_info,
                variant: VariantV::BracedLabelDefinition { name: w, data: IntOrStringV::Int(0) },
            };
            (views(old(new_tokens)@).take(lb as int) + d + views(old(new_tokens)@).skip(
                lb as int,
            )).push(braced)
        }),
{
    let label = deref_label_string(id, name);
    let deref = make_deref_instructions(&star.info, star.origin_info.as_slice(), label.as_str(), name);
    proof {
        assert(star.origin_info@.map_values(|x: Info| x@) =~= star@.origin_info);
    }
    insert_tokens_at(new_tokens, lb, deref);
    let braced = Token {
        info: star.info.clone(),
        origin_info: crate::tokens::clone_infos(&star.origin_info),
        variant: TokenVariant::BracedLabelDefinition { name: label, data: IntOrString::Int(0) },
    };
    push_token(new_tokens, braced);
    proof {
        assert(views(final(new_tokens)@).len() == final(new_tokens)@.len());
        assert(views(old(new_tokens)@).len() == old(new_tokens)@.len());
    }
}

/// Expands every dereference `*ptr`: the four instructions that copy the
/// value of `ptr` into a fresh cell `*ID*ptr` are inserted before the
/// statement that holds it (after its last line break), and `*ptr` itself
/// becomes the braced definition `(*ID*ptr -> 0)`.
#[verifier::rlimit(60)]
pub fn expand_derefs(tokens: &[Token]) -> (res: Vec<Token>)
    requires
        !deref_hangs(views(tokens@)),
        tokens@.len() * 9 <= usize::MAX,
    ensures
        views(res@) == deref_from(views(tokens@), 0, Seq::empty(), 0, 0),
{
    let ghost t = views(tokens@);
    let mut new_tokens: Vec<Token> = Vec::new();
    let mut i: usize = 0;
    let mut last_linebreak_idx: usize = 0;
    let mut id: usize = 0;
    assert(views(new_tokens@) =~= Seq::<TokenV>::empty());
    while i < tokens.len()
        invariant
            i <= tokens.len(),
            t == views(tokens@),
            !deref_hangs(t),
            tokens@.len() * 9 <= usize::MAX,
            2 * id <= i,
            new_tokens.len() == i + 16 * id,
            last_linebreak_idx <= new_tokens.len(),
            deref_from(t, 0, Seq::empty(), 0, 0) == deref_from(
                t,
                i as int,
                views(new_tokens@),
                last_linebreak_idx as int,
                id as nat,
            ),
        decreases tokens.len() - i,
    {
        let ghost before = views(new_tokens@);
        if matches!(tokens[i].variant, TokenVariant::Asterisk) {
            if i + 1 < tokens.len() {
                if let TokenVariant::Label { name } = &tokens[i + 1].variant {
                    proof {
                        lemma_deref_star(t, i as int, before, last_linebreak_idx as int, id as nat);
                    }
                    expand_one_deref(&mut new_tokens, last_linebreak_idx, id, &tokens[i], name);
                    last_linebreak_idx += INSERTED_INSTRUCTIONS_SIZE;
                    id += 1;
                    i += 2;
                    continue;
                }
            }
            proof {
                assert(t[i as int].variant is Asterisk);
            }
            return new_tokens;
        }
        proof {
            lemma_deref_other(t, i as int, before, last_linebreak_idx as int, id as nat);
        }
        if matches!(tokens[i].variant, TokenVariant::Linebreak) {
            last_linebreak_idx = i + id * (INSERTED_INSTRUCTIONS_SIZE - 1);
        }
        let c = tokens[i].clone();
        push_token(&mut new_tokens, c);
        i += 1;
    }
    proof {
        lemma_deref_end(t, i as int, views(new_tokens@), last_linebreak_idx as int, id as nat);
    }
    new_tokens
}

} // verus!
