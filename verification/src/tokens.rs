//! Tokens produced by the lexer and rewritten by the parser passes.
use vstd::prelude::*;

verus! {

/// Offset written on a label arrow: `->` is `Int(0)`, `-a>`, `-b>` and `-c>`
/// are `Char('a')` and so on.
#[derive(Debug, PartialEq, Eq, Structural, Clone, Copy)]
pub enum LabelOffset {
    Char(char),
    Int(i32),
}

/// Payload of a braced label definition `(name -> data)`.
#[derive(Debug)]
pub enum IntOrString {
    Str(String),
    Int(i32),
}

/// Payload of a braced label definition, with the string as characters.
pub enum IntOrStringV {
    Str(Seq<char>),
    Int(i32),
}

impl View for IntOrString {
    type V = IntOrStringV;

    open spec fn view(&self) -> IntOrStringV {
        match self {
            IntOrString::Str(s) => IntOrStringV::Str(s@),
            IntOrString::Int(i) => IntOrStringV::Int(*i),
        }
    }
}

/// Where a token came from in the source.
#[derive(Debug)]
pub struct Info {
    pub start_char: i32,
    pub length: i32,
    pub line_number: i32,
    pub file: usize,
    pub sourceline_suffix: Option<String>,
}

/// An `Info` with its optional suffix as characters.
pub struct InfoV {
    pub start_char: i32,
    pub length: i32,
    pub line_number: i32,
    pub file: usize,
    pub sourceline_suffix: Option<Seq<char>>,
}

impl View for Info {
    type V = InfoV;

    open spec fn view(&self) -> InfoV {
        InfoV {
            start_char: self.start_char,
            length: self.length,
            line_number: self.line_number,
            file: self.file,
            sourceline_suffix: match self.sourceline_suffix {
                Some(s) => Some(s@),
                None => None,
            },
        }
    }
}

impl DeepView for Info {
    type V = InfoV;

    open spec fn deep_view(&self) -> InfoV {
        self@
    }
}

#[allow(inconsistent_fields)]
#[derive(Debug)]
pub enum TokenVariant {
    DecLiteral { value: i32 },
    HexLiteral { value: String },
    LabelArrow { offset: LabelOffset },
    Subleq,
    Label { name: String },
    LabelDefinition { name: String, offset: i32 },
    Relative { offset: i32 },
    Scope,
    Unscope,
    CharLiteral { value: char },
    StrLiteral { value: String },
    MacroDeclaration { name: String },
    MacroBodyStart,
    MacroBodyEnd,
    MacroCall { name: String },
    Namespace { name: String },
    Equals,
    BraceOpen,
    BraceClose,
    Linebreak,
    BracedLabelDefinition { name: String, data: IntOrString },
    Asterisk,
}

/// A token variant with its strings as sequences of characters.
#[allow(inconsistent_fields)]
pub enum VariantV {
    DecLiteral { value: i32 },
    HexLiteral { value: Seq<char> },
    LabelArrow { offset: LabelOffset },
    Subleq,
    Label { name: Seq<char> },
    LabelDefinition { name: Seq<char>, offset: i32 },
    Relative { offset: i32 },
    Scope,
    Unscope,
    CharLiteral { value: char },
    StrLiteral { value: Seq<char> },
    MacroDeclaration { name: Seq<char> },
    MacroBodyStart,
    MacroBodyEnd,
    MacroCall { name: Seq<char> },
    Namespace { name: Seq<char> },
    Equals,
    BraceOpen,
    BraceClose,
    Linebreak,
    BracedLabelDefinition { name: Seq<char>, data: IntOrStringV },
    Asterisk,
}

impl View for TokenVariant {
    type V = VariantV;

    open spec fn view(&self) -> VariantV {
        match self {
            TokenVariant::DecLiteral { value } => VariantV::DecLiteral { value: *value },
            TokenVariant::HexLiteral { value } => VariantV::HexLiteral { value: value@ },
            TokenVariant::LabelArrow { offset } => VariantV::LabelArrow { offset: *offset },
            TokenVariant::Subleq => VariantV::Subleq,
            TokenVariant::Label { name } => VariantV::Label { name: name@ },
            TokenVariant::LabelDefinition { name, offset } => VariantV::LabelDefinition { name: name@, offset: *offset },
            TokenVariant::Relative { offset } => VariantV::Relative { offset: *offset },
            TokenVariant::Scope => VariantV::Scope,
            TokenVariant::Unscope => VariantV::Unscope,
            TokenVariant::CharLiteral { value } => VariantV::CharLiteral { value: *value },
            TokenVariant::StrLiteral { value } => VariantV::StrLiteral { value: value@ },
            TokenVariant::MacroDeclaration { name } => VariantV::MacroDeclaration { name: name@ },
            TokenVariant::MacroBodyStart => VariantV::MacroBodyStart,
            TokenVariant::MacroBodyEnd => VariantV::MacroBodyEnd,
            TokenVariant::MacroCall { name } => VariantV::MacroCall { name: name@ },
            TokenVariant::Namespace { name } => VariantV::Namespace { name: name@ },
            TokenVariant::Equals => VariantV::Equals,
            TokenVariant::BraceOpen => VariantV::BraceOpen,
            TokenVariant::BraceClose => VariantV::BraceClose,
            TokenVariant::Linebreak => VariantV::Linebreak,
            TokenVariant::BracedLabelDefinition { name, data } => VariantV::BracedLabelDefinition { name: name@, data: data@ },
            TokenVariant::Asterisk => VariantV::Asterisk,
        }
    }
}

#[derive(Debug)]
pub struct Token {
    /// Origin of the token
    pub info: Info,
    pub variant: TokenVariant,
    /// Trace of the token through macro expansions: every time it is used
    /// as an argument an `Info` is appended.
    pub origin_info: Vec<Info>,
}

/// Mathematical view of a token.
pub struct TokenV {
    pub info: InfoV,
    pub variant: VariantV,
    pub origin_info: Seq<InfoV>,
}

impl View for Token {
    type V = TokenV;

    open spec fn view(&self) -> TokenV {
        TokenV {
            info: self.info@,
            variant: self.variant@,
            origin_info: self.origin_info.deep_view(),
        }
    }
}

impl DeepView for Token {
    type V = TokenV;

    open spec fn deep_view(&self) -> TokenV {
        self@
    }
}

impl Clone for IntOrString {
    fn clone(&self) -> (res: Self)
        ensures
            res@ == self@,
    {
        match self {
            IntOrString::Str(s) => IntOrString::Str(s.clone()),
            IntOrString::Int(i) => IntOrString::Int(*i),
        }
    }
}

impl Clone for Info {
    fn clone(&self) -> (res: Self)
        ensures
            res@ == self@,
    {
        let suffix = match &self.sourceline_suffix {
            Some(s) => Some(s.clone()),
            None => None,
        };
        Info {
            start_char: self.start_char,
            length: self.length,
            line_number: self.line_number,
            file: self.file,
            sourceline_suffix: suffix,
        }
    }
}

impl Clone for TokenVariant {
    fn clone(&self) -> (res: Self)
        ensures
            res@ == self@,
    {
        match self {
            TokenVariant::DecLiteral { value } => TokenVariant::DecLiteral { value: *value },
            TokenVariant::HexLiteral { value } => TokenVariant::HexLiteral { value: value.clone() },
            TokenVariant::LabelArrow { offset } => TokenVariant::LabelArrow { offset: *offset },
            TokenVariant::Subleq => TokenVariant::Subleq,
            TokenVariant::Label { name } => TokenVariant::Label { name: name.clone() },
            TokenVariant::LabelDefinition { name, offset } => TokenVariant::LabelDefinition { name: name.clone(), offset: *offset },
            TokenVariant::Relative { offset } => TokenVariant::Relative { offset: *offset },
            TokenVariant::Scope => TokenVariant::Scope,
            TokenVariant::Unscope => TokenVariant::Unscope,
            TokenVariant::CharLiteral { value } => TokenVariant::CharLiteral { value: *value },
            TokenVariant::StrLiteral { value } => TokenVariant::StrLiteral { value: value.clone() },
            TokenVariant::MacroDeclaration { name } => TokenVariant::MacroDeclaration { name: name.clone() },
            TokenVariant::MacroBodyStart => TokenVariant::MacroBodyStart,
            TokenVariant::MacroBodyEnd => TokenVariant::MacroBodyEnd,
            TokenVariant::MacroCall { name } => TokenVariant::MacroCall { name: name.clone() },
            TokenVariant::Namespace { name } => TokenVariant::Namespace { name: name.clone() },
            TokenVariant::Equals => TokenVariant::Equals,
            TokenVariant::BraceOpen => TokenVariant::BraceOpen,
            TokenVariant::BraceClose => TokenVariant::BraceClose,
            TokenVariant::Linebreak => TokenVariant::Linebreak,
            TokenVariant::BracedLabelDefinition { name, data } => TokenVariant::BracedLabelDefinition { name: name.clone(), data: data.clone() },
            TokenVariant::Asterisk => TokenVariant::Asterisk,
        }
    }
}

/// Copies a trace of origins.
pub fn clone_infos(v: &Vec<Info>) -> (res: Vec<Info>)
    ensures
        res.deep_view() == v.deep_view(),
{
    let mut res: Vec<Info> = Vec::new();
    let mut i: usize = 0;
    while i < v.len()
        invariant
            i <= v.len(),
            res.len() == i,
            forall|k: int| 0 <= k < i ==> #[trigger] res@[k]@ == v@[k]@,
        decreases v.len() - i,
    {
        let c = v[i].clone();
        let ghost old_res = res@;
        res.push(c);
        i += 1;
    }
    assert(res.deep_view() =~= v.deep_view());
    res
}

impl Clone for Token {
    fn clone(&self) -> (res: Self)
        ensures
            res@ == self@,
    {
        Token {
            info: self.info.clone(),
            variant: self.variant.clone(),
            origin_info: clone_infos(&self.origin_info),
        }
    }
}

/// Equality of tokens as tests use it: the same variant, start character,
/// line and file. The length, source-line suffix and origin trace are not
/// compared.
pub open spec fn token_eq(a: TokenV, b: TokenV) -> bool {
    &&& a.variant == b.variant
    &&& a.info.start_char == b.info.start_char
    &&& a.info.line_number == b.info.line_number
    &&& a.info.file == b.info.file
}

impl PartialEq for IntOrString {
    fn eq(&self, other: &Self) -> (res: bool) {
        match (self, other) {
            (IntOrString::Str(x), IntOrString::Str(y)) => *x == *y,
            (IntOrString::Int(x), IntOrString::Int(y)) => *x == *y,
            _ => false,
        }
    }
}

impl vstd::std_specs::cmp::PartialEqSpecImpl for IntOrString {
    open spec fn obeys_eq_spec() -> bool {
        true
    }

    open spec fn eq_spec(&self, other: &Self) -> bool {
        self@ == other@
    }
}

impl PartialEq for TokenVariant {
    fn eq(&self, other: &Self) -> (res: bool) {
        match (self, other) {
            (TokenVariant::DecLiteral { value: a_value }, TokenVariant::DecLiteral { value: b_value }) => *a_value == *b_value,
            (TokenVariant::HexLiteral { value: a_value }, TokenVariant::HexLiteral { value: b_value }) => *a_value == *b_value,
            (TokenVariant::LabelArrow { offset: a_offset }, TokenVariant::LabelArrow { offset: b_offset }) => *a_offset == *b_offset,
            (TokenVariant::Subleq, TokenVariant::Subleq) => true,
            (TokenVariant::Label { name: a_name }, TokenVariant::Label { name: b_name }) => *a_name == *b_name,
            (TokenVariant::LabelDefinition { name: a_name, offset: a_offset }, TokenVariant::LabelDefinition { name: b_name, offset: b_offset }) => *a_name == *b_name && *a_offset == *b_offset,
            (TokenVariant::Relative { offset: a_offset }, TokenVariant::Relative { offset: b_offset }) => *a_offset == *b_offset,
            (TokenVariant::Scope, TokenVariant::Scope) => true,
            (TokenVariant::Unscope, TokenVariant::Unscope) => true,
            (TokenVariant::CharLiteral { value: a_value }, TokenVariant::CharLiteral { value: b_value }) => *a_value == *b_value,
            (TokenVariant::StrLiteral { value: a_value }, TokenVariant::StrLiteral { value: b_value }) => *a_value == *b_value,
            (TokenVariant::MacroDeclaration { name: a_name }, TokenVariant::MacroDeclaration { name: b_name }) => *a_name == *b_name,
            (TokenVariant::MacroBodyStart, TokenVariant::MacroBodyStart) => true,
            (TokenVariant::MacroBodyEnd, TokenVariant::MacroBodyEnd) => true,
            (TokenVariant::MacroCall { name: a_name }, TokenVariant::MacroCall { name: b_name }) => *a_name == *b_name,
            (TokenVariant::Namespace { name: a_name }, TokenVariant::Namespace { name: b_name }) => *a_name == *b_name,
            (TokenVariant::Equals, TokenVariant::Equals) => true,
            (TokenVariant::BraceOpen, TokenVariant::BraceOpen) => true,
            (TokenVariant::BraceClose, TokenVariant::BraceClose) => true,
            (TokenVariant::Linebreak, TokenVariant::Linebreak) => true,
            (TokenVariant::BracedLabelDefinition { name: a_name, data: a_data }, TokenVariant::BracedLabelDefinition { name: b_name, data: b_data }) => *a_name == *b_name && a_data.eq(b_data),
            (TokenVariant::Asterisk, TokenVariant::Asterisk) => true,
            _ => false,
        }
    }
}

impl vstd::std_specs::cmp::PartialEqSpecImpl for TokenVariant {
    open spec fn obeys_eq_spec() -> bool {
        true
    }

    open spec fn eq_spec(&self, other: &Self) -> bool {
        self@ == other@
    }
}

impl PartialEq for Token {
    fn eq(&self, other: &Self) -> (res: bool) {
        self.variant.eq(&other.variant) && self.info.start_char == other.info.start_char
            && self.info.line_number == other.info.line_number && self.info.file
            == other.info.file
    }
}

impl vstd::std_specs::cmp::PartialEqSpecImpl for Token {
    open spec fn obeys_eq_spec() -> bool {
        true
    }

    open spec fn eq_spec(&self, other: &Self) -> bool {
        token_eq(self@, other@)
    }
}

/// Whether a variant is a hex, character or string literal: those are
/// rewritten before memory is laid out.
pub open spec fn is_unprocessed_literal(v: VariantV) -> bool {
    v is HexLiteral || v is CharLiteral || v is StrLiteral
}

/// Number of memory words a token occupies.
pub open spec fn variant_size(v: VariantV) -> nat {
    match v {
        VariantV::DecLiteral { .. } | VariantV::Relative { .. } | VariantV::Label { .. }
        | VariantV::BracedLabelDefinition { .. } => 1,
        _ => 0,
    }
}

impl Token {
    /// Size in subleq memory of a token.
    pub fn size(&self) -> (res: usize)
        requires
            !is_unprocessed_literal(self.variant@),
        ensures
            res == variant_size(self.variant@),
    {
        match self.variant {
            TokenVariant::DecLiteral { .. }
            | TokenVariant::Relative { .. }
            | TokenVariant::Label { .. }
            | TokenVariant::BracedLabelDefinition { .. } => 1,
            _ => 0,
        }
    }

    /// Create a new token with the given token variant, but with the info
    /// of the given token
    pub fn with_info(token_variant: TokenVariant, token: &Token) -> (res: Self)
        ensures
            res@ == (TokenV {
                info: token.info@,
                variant: token_variant@,
                origin_info: token.origin_info.deep_view(),
            }),
    {
        Token {
            info: token.info.clone(),
            origin_info: clone_infos(&token.origin_info),
            variant: token_variant,
        }
    }
}

/// The token that `tokens_from_token_variant_vec` makes of an identifier and
/// a variant.
pub open spec fn test_token(id: i32, variant: VariantV) -> TokenV {
    TokenV {
        info: InfoV {
            start_char: id,
            length: 0,
            line_number: 0,
            file: 0,
            sourceline_suffix: None,
        },
        variant: variant,
        origin_info: Seq::empty(),
    }
}

/// Makes a list of tokens from a list of variants with an identifier. The
/// identifier is stored as the start character, the rest of the info is zero
/// and the origin trace is empty; tests use the identifier to tell which
/// input a token of the output came from.
pub fn tokens_from_token_variant_vec(token_variants: Vec<(i32, TokenVariant)>) -> (res: Vec<Token>)
    ensures
        res.len() == token_variants.len(),
        forall|i: int|
            0 <= i < res.len() ==> #[trigger] res@[i]@ == test_token(
                token_variants@[i].0,
                token_variants@[i].1@,
            ),
{
    let mut res: Vec<Token> = Vec::new();
    let mut i: usize = 0;
    while i < token_variants.len()
        invariant
            i <= token_variants.len(),
            res.len() == i,
            forall|k: int|
                0 <= k < i ==> #[trigger] res@[k]@ == test_token(
                    token_variants@[k].0,
                    token_variants@[k].1@,
                ),
        decreases token_variants.len() - i,
    {
        let x = &token_variants[i];
        let t = Token {
            info: Info {
                start_char: x.0,
                length: 0,
                line_number: 0,
                file: 0,
                sourceline_suffix: None,
            },
            variant: x.1.clone(),
            origin_info: Vec::new(),
        };
        proof {
            assert(t.origin_info.deep_view() =~= Seq::<InfoV>::empty());
        }
        res.push(t);
        i += 1;
    }
    res
}

/// A token with the given variant and the info and origin of `t`.
pub open spec fn with_info_v(v: VariantV, t: TokenV) -> TokenV {
    TokenV { info: t.info, variant: v, origin_info: t.origin_info }
}

/// The views of a sequence of tokens.
pub open spec fn views(s: Seq<Token>) -> Seq<TokenV> {
    s.map_values(|t: Token| t@)
}

/// Appends a token to a list of tokens.
pub fn push_token(out: &mut Vec<Token>, t: Token)
    ensures
        final(out).len() == old(out).len() + 1,
        views(final(out)@) == views(old(out)@).push(t@),
{
    out.push(t);
    assert(views(final(out)@) =~= views(old(out)@).push(t@));
}

/// Moves all the given tokens to the end of a list of tokens.
pub fn append_tokens(out: &mut Vec<Token>, toks: Vec<Token>)
    ensures
        final(out).len() == old(out).len() + toks.len(),
        views(final(out)@) == views(old(out)@) + views(toks@),
{
    let ghost tv = toks@;
    let mut toks = toks;
    out.append(&mut toks);
    assert(views(final(out)@) =~= views(old(out)@) + views(tv));
}

/// Appends copies of all the given tokens.
pub fn extend_tokens(out: &mut Vec<Token>, toks: &[Token])
    ensures
        views(final(out)@) == views(old(out)@) + views(toks@),
{
    let ghost start = views(out@);
    let mut i: usize = 0;
    while i < toks.len()
        invariant
            i <= toks.len(),
            views(out@) == start + views(toks@.subrange(0, i as int)),
        decreases toks.len() - i,
    {
        let c = toks[i].clone();
        push_token(out, c);
        i += 1;
        assert(views(toks@.subrange(0, i as int)) =~= views(toks@.subrange(0, i - 1)).push(
            toks@[i - 1]@,
        ));
    }
    assert(toks@.subrange(0, toks.len() as int) =~= toks@);
}

} // verus!
