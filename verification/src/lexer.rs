//! Converts source text into a vector of tokens.
use vstd::prelude::*;
use crate::error::{asm_error, err_at, AsmError, AsmErrorKind, AsmErrorV};
use crate::parser::literals::{unescape_str, unescaped};
use crate::text::{all_digits, digit_value, digits_value, is_digit, push_char, string_from_chars};
use crate::tokens::{
    append_tokens, push_token, views, Info, InfoV, LabelOffset, Token, TokenV, TokenVariant, VariantV,
};

verus! {

/// What the lexer is in the middle of reading.
#[derive(Debug, PartialEq, Eq, Structural, Clone, Copy)]
pub enum Context {
    Start,
    LineComment,
    Str,
    Char,
    EscapedChar,
    BlockComment,
    SubleqOrNegativeOrLabelArrow,
    LabelArrow,
    HexOrDec,
    Hex,
    Dec,
    Label,
    DontConsume,
    MacroDeclaration,
    MacroCall,
    Relative,
    Namespace,
    AsteriskOrBlockComment,
    PossibleBlockCommentEnd,
}

/// `'a'..='z'` or `'A'..='Z'`.
pub open spec fn is_ascii_alpha(c: char) -> bool {
    ('a' <= c <= 'z') || ('A' <= c <= 'Z')
}

/// `char::is_ascii_hexdigit`.
pub open spec fn is_ascii_hex(c: char) -> bool {
    ('0' <= c <= '9') || ('a' <= c <= 'f') || ('A' <= c <= 'F')
}

/// What `char::is_alphanumeric` returns: the character is Unicode
/// alphabetic or numeric.
pub uninterp spec fn unicode_alphanumeric(c: char) -> bool;

/// `char::is_alphanumeric`: the result is named; of ASCII characters the
/// letters and digits are alphanumeric and no other is.
#[verifier::external_body]
fn is_alphanumeric(c: char) -> (res: bool)
    ensures
        res == unicode_alphanumeric(c),
        c <= '\u{7f}' ==> (res <==> ('0' <= c <= '9' || 'a' <= c <= 'z' || 'A' <= c <= 'Z')),
{
    c.is_alphanumeric()
}

/// Characters that may continue a macro name.
pub open spec fn valid_macro_char(c: char) -> bool {
    unicode_alphanumeric(c) || c == '_' || c == ':'
}

/// Characters that may continue a label name.
pub open spec fn valid_label_char(c: char) -> bool {
    unicode_alphanumeric(c) || c == '_' || c == ':' || c == '?' || c == '.'
}

fn is_valid_macro_name(c: char) -> (res: bool)
    ensures
        res == valid_macro_char(c),
{
    is_alphanumeric(c) || c == '_' || c == ':'
}

fn is_valid_label_name(c: char) -> (res: bool)
    ensures
        res == valid_label_char(c),
{
    is_alphanumeric(c) || c == '_' || c == ':' || c == '?' || c == '.'
}

/// How `str::parse::<i32>` reads a string: an optional sign, then at least
/// one decimal digit, with a value that fits in 32 bits.
pub open spec fn parse_dec_i32(s: Seq<char>) -> Option<i32> {
    let neg = s.len() > 0 && s[0] == '-';
    let digits = if s.len() > 0 && (s[0] == '+' || s[0] == '-') {
        s.skip(1)
    } else {
        s
    };
    dec_result(neg, digits)
}

/// The number that the digits after the sign stand for, if it fits.
pub open spec fn dec_result(neg: bool, digits: Seq<char>) -> Option<i32> {
    let v = if neg {
        -digits_value(digits)
    } else {
        digits_value(digits)
    };
    if digits.len() > 0 && all_digits(digits) && i32::MIN <= v <= i32::MAX {
        Some(v as i32)
    } else {
        None
    }
}

proof fn lemma_dec_grows(s: Seq<char>, k: int)
    requires
        0 <= k <= s.len(),
        all_digits(s.take(k)),
        digits_value(s.take(k)) > 0x8000_0000,
    ensures
        !(all_digits(s) && digits_value(s) <= 0x8000_0000),
    decreases s.len() - k,
{
    if k < s.len() && all_digits(s) {
        assert(s.take(k + 1).drop_last() =~= s.take(k));
        assert(all_digits(s.take(k + 1)));
        assert(is_digit(s[k]));
        lemma_dec_grows(s, k + 1);
    } else if k == s.len() {
        assert(s.take(k) =~= s);
    }
}

/// `str::parse::<i32>`.
pub fn parse_dec(w: &Vec<char>) -> (res: Option<i32>)
    ensures
        res == parse_dec_i32(w@),
{
    let neg = w.len() > 0 && w[0] == '-';
    let mut start: usize = 0;
    if w.len() > 0 && (w[0] == '+' || w[0] == '-') {
        start = 1;
    }
    let ghost digits = if w@.len() > 0 && (w@[0] == '+' || w@[0] == '-') {
        w@.skip(1)
    } else {
        w@
    };
    assert(digits =~= w@.skip(start as int));
    assert(parse_dec_i32(w@) == dec_result(neg, digits));
    if start >= w.len() {
        return None;
    }
    let mut value: u64 = 0;
    let mut i: usize = start;
    assert(digits.take(0) =~= Seq::<char>::empty());
    while i < w.len()
        invariant
            start <= i <= w.len(),
            digits == w@.skip(start as int),
            parse_dec_i32(w@) == dec_result(neg, digits),
            all_digits(digits.take(i - start)),
            value == digits_value(digits.take(i - start)),
            value <= 0x8000_0000,
        decreases w.len() - i,
    {
        let c = w[i];
        let ghost k = i - start;
        proof {
            assert(digits.take(k + 1).drop_last() =~= digits.take(k));
            assert(digits[k] == c);
        }
        if !('0' <= c && c <= '9') {
            proof {
                assert(!is_digit(digits[k]));
                assert(!all_digits(digits));
            }
            return None;
        }
        value = value * 10 + ((c as u64) - ('0' as u64));
        proof {
            assert(all_digits(digits.take(k + 1)));
            assert(digits_value(digits.take(k + 1)) == value);
        }
        if value > 0x8000_0000 {
            proof {
                lemma_dec_grows(digits, k + 1);
            }
            return None;
        }
        i += 1;
    }
    assert(digits.take(w.len() - start) =~= digits);
    if neg {
        Some((0 - (value as i64)) as i32)
    } else if value <= 0x7FFF_FFFF {
        Some(value as i32)
    } else {
        None
    }
}

/// One step of the lexer's context machine: the next context, the character
/// to add to the buffer, and the token variant to emit, or an error. The
/// machine is never asked to step in `DontConsume`.
pub open spec fn context_step(ctx: Context, buffer: Seq<char>, c: char) -> Result<
    (Context, Option<char>, Option<VariantV>),
    AsmErrorKind,
> {
    match ctx {
        Context::Start => {
            if c == '\n' {
                Ok((Context::Start, None, Some(VariantV::Linebreak)))
            } else if c == ' ' {
                Ok((Context::Start, None, None))
            } else if c == ';' {
                Ok((Context::LineComment, None, None))
            } else if c == '-' {
                Ok((Context::SubleqOrNegativeOrLabelArrow, Some(c), None))
            } else if c == '0' {
                Ok((Context::HexOrDec, Some(c), None))
            } else if is_digit(c) {
                Ok((Context::Dec, Some(c), None))
            } else if is_ascii_alpha(c) || c == '_' || c == '.' {
                Ok((Context::Label, Some(c), None))
            } else if c == '*' {
                Ok((Context::AsteriskOrBlockComment, None, None))
            } else if c == '{' {
                Ok((Context::Start, None, Some(VariantV::Scope)))
            } else if c == '}' {
                Ok((Context::Start, None, Some(VariantV::Unscope)))
            } else if c == '[' {
                Ok((Context::Start, None, Some(VariantV::MacroBodyStart)))
            } else if c == ']' {
                Ok((Context::Start, None, Some(VariantV::MacroBodyEnd)))
            } else if c == '=' {
                Ok((Context::Start, None, Some(VariantV::Equals)))
            } else if c == '(' {
                Ok((Context::Start, None, Some(VariantV::BraceOpen)))
            } else if c == ')' {
                Ok((Context::Start, None, Some(VariantV::BraceClose)))
            } else if c == '$' {
                Ok((Context::Relative, None, None))
            } else if c == '&' {
                Ok((Context::Start, None, Some(VariantV::Relative { offset: 1 })))
            } else if c == '\'' {
                Ok((Context::Char, None, None))
            } else if c == '"' {
                Ok((Context::Str, None, None))
            } else if c == '@' {
                Ok((Context::MacroDeclaration, None, None))
            } else if c == '!' {
                Ok((Context::MacroCall, None, None))
            } else if c == '#' {
                Ok((Context::Namespace, None, None))
            } else if c == '?' {
                Err(AsmErrorKind::LabelStartsWithQuestionMark)
            } else {
                Err(AsmErrorKind::UnexpectedCharacter)
            }
        },
        Context::AsteriskOrBlockComment => if c == '*' {
            Ok((Context::BlockComment, None, None))
        } else {
            Ok((Context::DontConsume, None, Some(VariantV::Asterisk)))
        },
        Context::BlockComment => if c == '*' {
            Ok((Context::PossibleBlockCommentEnd, None, None))
        } else if c == '\n' {
            Ok((Context::BlockComment, None, Some(VariantV::Linebreak)))
        } else {
            Ok((Context::BlockComment, None, None))
        },
        Context::PossibleBlockCommentEnd => if c == '*' {
            Ok((Context::Start, None, None))
        } else {
            Ok((Context::BlockComment, None, None))
        },
        Context::LineComment => if c == '\n' {
            Ok((Context::DontConsume, None, None))
        } else {
            Ok((Context::LineComment, None, None))
        },
        Context::Namespace => if c == '\n' {
            Ok((Context::DontConsume, None, Some(VariantV::Namespace { name: buffer })))
        } else {
            Ok((Context::Namespace, Some(c), None))
        },
        Context::SubleqOrNegativeOrLabelArrow => if c == '=' {
            Ok((Context::Start, None, Some(VariantV::Subleq)))
        } else if c == '0' {
            Ok((Context::HexOrDec, Some(c), None))
        } else if is_digit(c) {
            Ok((Context::Dec, Some(c), None))
        } else if c == 'a' || c == 'b' || c == 'c' {
            Ok((Context::LabelArrow, Some(c), None))
        } else if c == '>' {
            Ok(
                (
                    Context::Start,
                    Some(c),
                    Some(VariantV::LabelArrow { offset: LabelOffset::Int(0) }),
                ),
            )
        } else {
            Err(AsmErrorKind::ExpectedSubleqOrArrow)
        },
        Context::LabelArrow => if c == '>' && buffer.len() >= 2 && (buffer[1] == 'a' || buffer[1]
            == 'b' || buffer[1] == 'c') {
            Ok(
                (
                    Context::Start,
                    Some(c),
                    Some(VariantV::LabelArrow { offset: LabelOffset::Char(buffer[1]) }),
                ),
            )
        } else {
            Err(AsmErrorKind::UnexpectedCharacter)
        },
        Context::HexOrDec => if c == 'x' {
            Ok((Context::Hex, None, None))
        } else if is_digit(c) {
            Ok((Context::Dec, Some(c), None))
        } else if is_ascii_alpha(c) {
            Err(AsmErrorKind::LabelStartsWithNumber)
        } else {
            match parse_dec_i32(buffer) {
                Some(v) => Ok((Context::DontConsume, None, Some(VariantV::DecLiteral { value: v }))),
                None => Err(AsmErrorKind::NumberTooLarge),
            }
        },
        Context::Hex => if is_ascii_hex(c) {
            Ok((Context::Hex, Some(c), None))
        } else if is_ascii_alpha(c) {
            Err(AsmErrorKind::UnexpectedCharInHex)
        } else {
            Ok((Context::DontConsume, None, Some(VariantV::HexLiteral { value: buffer })))
        },
        Context::Dec => if is_digit(c) {
            Ok((Context::Dec, Some(c), None))
        } else if is_ascii_alpha(c) {
            Err(AsmErrorKind::UnexpectedCharInDec)
        } else {
            match parse_dec_i32(buffer) {
                Some(v) => Ok((Context::DontConsume, None, Some(VariantV::DecLiteral { value: v }))),
                None => Err(AsmErrorKind::NumberTooLarge),
            }
        },
        Context::Label => if valid_label_char(c) {
            Ok((Context::Label, Some(c), None))
        } else {
            Ok((Context::DontConsume, None, Some(VariantV::Label { name: buffer })))
        },
        Context::MacroDeclaration => if valid_macro_char(c) {
            Ok((Context::MacroDeclaration, Some(c), None))
        } else {
            Ok((Context::DontConsume, None, Some(VariantV::MacroDeclaration { name: buffer })))
        },
        Context::MacroCall => if valid_macro_char(c) {
            Ok((Context::MacroCall, Some(c), None))
        } else {
            Ok((Context::DontConsume, None, Some(VariantV::MacroCall { name: buffer })))
        },
        Context::Char => if c == '\\' {
            Ok((Context::EscapedChar, None, None))
        } else if c == '\'' {
            if buffer.len() > 0 {
                Ok((Context::Start, None, Some(VariantV::CharLiteral { value: buffer[0] })))
            } else {
                Err(AsmErrorKind::EmptyCharLiteral)
            }
        } else {
            Ok((Context::Char, Some(c), None))
        },
        Context::EscapedChar => if c == '\'' {
            if buffer.len() > 0 {
                match unescaped(seq!['\\', buffer[0]]) {
                    Some(u) => Ok(
                        (Context::Start, None, Some(VariantV::CharLiteral { value: u[0] })),
                    ),
                    None => Err(AsmErrorKind::InvalidEscapeSequence),
                }
            } else {
                Err(AsmErrorKind::EmptyCharLiteral)
            }
        } else {
            Ok((Context::EscapedChar, Some(c), None))
        },
        Context::Str => if c == '"' {
            Ok((Context::Start, None, Some(VariantV::StrLiteral { value: buffer })))
        } else {
            Ok((Context::Str, Some(c), None))
        },
        Context::Relative => if is_digit(c) {
            Ok((Context::Relative, Some(c), None))
        } else if buffer.len() > 0 {
            if c == 'x' && buffer[0] == '0' {
                Err(AsmErrorKind::HexRelativeOffset)
            } else {
                match parse_dec_i32(buffer) {
                    Some(v) => Ok(
                        (Context::DontConsume, None, Some(VariantV::Relative { offset: v })),
                    ),
                    None => Err(AsmErrorKind::NumberTooLarge),
                }
            }
        } else {
            Err(AsmErrorKind::ExpectedOffset)
        },
        Context::DontConsume => Err(AsmErrorKind::UnexpectedCharacter),
    }
}

/// The view of an optional variant.
pub open spec fn opt_variant(v: Option<TokenVariant>) -> Option<VariantV> {
    match v {
        Some(x) => Some(x@),
        None => None,
    }
}

/// One step of the context machine; see `context_step`.
fn updated_context(context: Context, buffer: &Vec<char>, cur_char: char) -> (res: Result<
    (Context, Option<char>, Option<TokenVariant>),
    AsmErrorKind,
>)
    ensures
        match (res, context_step(context, buffer@, cur_char)) {
            (Ok((c, a, v)), Ok((sc, sa, sv))) => c == sc && a == sa && opt_variant(v) == sv,
            (Err(k), Err(sk)) => k == sk,
            _ => false,
        },
{
    let c = cur_char;
    match context {
        Context::Start => {
            if c == '\n' {
                Ok((Context::Start, None, Some(TokenVariant::Linebreak)))
            } else if c == ' ' {
                Ok((Context::Start, None, None))
            } else if c == ';' {
                Ok((Context::LineComment, None, None))
            } else if c == '-' {
                Ok((Context::SubleqOrNegativeOrLabelArrow, Some(c), None))
            } else if c == '0' {
                Ok((Context::HexOrDec, Some(c), None))
            } else if '0' <= c && c <= '9' {
                Ok((Context::Dec, Some(c), None))
            } else if ('a' <= c && c <= 'z') || ('A' <= c && c <= 'Z') || c == '_' || c == '.' {
                Ok((Context::Label, Some(c), None))
            } else if c == '*' {
                Ok((Context::AsteriskOrBlockComment, None, None))
            } else if c == '{' {
                Ok((Context::Start, None, Some(TokenVariant::Scope)))
            } else if c == '}' {
                Ok((Context::Start, None, Some(TokenVariant::Unscope)))
            } else if c == '[' {
                Ok((Context::Start, None, Some(TokenVariant::MacroBodyStart)))
            } else if c == ']' {
                Ok((Context::Start, None, Some(TokenVariant::MacroBodyEnd)))
            } else if c == '=' {
                Ok((Context::Start, None, Some(TokenVariant::Equals)))
            } else if c == '(' {
                Ok((Context::Start, None, Some(TokenVariant::BraceOpen)))
            } else if c == ')' {
                Ok((Context::Start, None, Some(TokenVariant::BraceClose)))
            } else if c == '$' {
                Ok((Context::Relative, None, None))
            } else if c == '&' {
                Ok((Context::Start, None, Some(TokenVariant::Relative { offset: 1 })))
            } else if c == '\'' {
                Ok((Context::Char, None, None))
            } else if c == '"' {
                Ok((Context::Str, None, None))
            } else if c == '@' {
                Ok((Context::MacroDeclaration, None, None))
            } else if c == '!' {
                Ok((Context::MacroCall, None, None))
            } else if c == '#' {
                Ok((Context::Namespace, None, None))
            } else if c == '?' {
                Err(AsmErrorKind::LabelStartsWithQuestionMark)
            } else {
                Err(AsmErrorKind::UnexpectedCharacter)
            }
        },
        Context::AsteriskOrBlockComment => if c == '*' {
            Ok((Context::BlockComment, None, None))
        } else {
            Ok((Context::DontConsume, None, Some(TokenVariant::Asterisk)))
        },
        Context::BlockComment => if c == '*' {
            Ok((Context::PossibleBlockCommentEnd, None, None))
        } else if c == '\n' {
            Ok((Context::BlockComment, None, Some(TokenVariant::Linebreak)))
        } else {
            Ok((Context::BlockComment, None, None))
        },
        Context::PossibleBlockCommentEnd => if c == '*' {
            Ok((Context::Start, None, None))
        } else {
            Ok((Context::BlockComment, None, None))
        },
        Context::LineComment => if c == '\n' {
            Ok((Context::DontConsume, None, None))
        } else {
            Ok((Context::LineComment, None, None))
        },
        Context::Namespace => if c == '\n' {
            Ok(
                (
                    Context::DontConsume,
                    None,
                    Some(TokenVariant::Namespace { name: string_from_chars(buffer.as_slice()) }),
                ),
            )
        } else {
            Ok((Context::Namespace, Some(c), None))
        },
        Context::SubleqOrNegativeOrLabelArrow => if c == '=' {
            Ok((Context::Start, None, Some(TokenVariant::Subleq)))
        } else if c == '0' {
            Ok((Context::HexOrDec, Some(c), None))
        } else if '0' <= c && c <= '9' {
            Ok((Context::Dec, Some(c), None))
        } else if c == 'a' || c == 'b' || c == 'c' {
            Ok((Context::LabelArrow, Some(c), None))
        } else if c == '>' {
            Ok(
                (
                    Context::Start,
                    Some(c),
                    Some(TokenVariant::LabelArrow { offset: LabelOffset::Int(0) }),
                ),
            )
        } else {
            Err(AsmErrorKind::ExpectedSubleqOrArrow)
        },
        Context::LabelArrow => if c == '>' && buffer.len() >= 2 && (buffer[1] == 'a' || buffer[1]
            == 'b' || buffer[1] == 'c') {
            Ok(
                (
                    Context::Start,
                    Some(c),
                    Some(TokenVariant::LabelArrow { offset: LabelOffset::Char(buffer[1]) }),
                ),
            )
        } else {
            Err(AsmErrorKind::UnexpectedCharacter)
        },
        Context::HexOrDec => if c == 'x' {
            Ok((Context::Hex, None, None))
        } else if '0' <= c && c <= '9' {
            Ok((Context::Dec, Some(c), None))
        } else if ('a' <= c && c <= 'z') || ('A' <= c && c <= 'Z') {
            Err(AsmErrorKind::LabelStartsWithNumber)
        } else {
            match parse_dec(buffer) {
                Some(v) => Ok(
                    (Context::DontConsume, None, Some(TokenVariant::DecLiteral { value: v })),
                ),
                None => Err(AsmErrorKind::NumberTooLarge),
            }
        },
        Context::Hex => if ('0' <= c && c <= '9') || ('a' <= c && c <= 'f') || ('A' <= c && c
            <= 'F') {
            Ok((Context::Hex, Some(c), None))
        } else if ('a' <= c && c <= 'z') || ('A' <= c && c <= 'Z') {
            Err(AsmErrorKind::UnexpectedCharInHex)
        } else {
            Ok(
                (
                    Context::DontConsume,
                    None,
                    Some(TokenVariant::HexLiteral { value: string_from_chars(buffer.as_slice()) }),
                ),
            )
        },
        Context::Dec => if '0' <= c && c <= '9' {
            Ok((Context::Dec, Some(c), None))
        } else if ('a' <= c && c <= 'z') || ('A' <= c && c <= 'Z') {
            Err(AsmErrorKind::UnexpectedCharInDec)
        } else {
            match parse_dec(buffer) {
                Some(v) => Ok(
                    (Context::DontConsume, None, Some(TokenVariant::DecLiteral { value: v })),
                ),
                None => Err(AsmErrorKind::NumberTooLarge),
            }
        },
        Context::Label => if is_valid_label_name(c) {
            Ok((Context::Label, Some(c), None))
        } else {
            Ok(
                (
                    Context::DontConsume,
                    None,
                    Some(TokenVariant::Label { name: string_from_chars(buffer.as_slice()) }),
                ),
            )
        },
        Context::MacroDeclaration => if is_valid_macro_name(c) {
            Ok((Context::MacroDeclaration, Some(c), None))
        } else {
            Ok(
                (
                    Context::DontConsume,
                    None,
                    Some(
                        TokenVariant::MacroDeclaration { name: string_from_chars(buffer.as_slice()) },
                    ),
                ),
            )
        },
        Context::MacroCall => if is_valid_macro_name(c) {
            Ok((Context::MacroCall, Some(c), None))
        } else {
            Ok(
                (
                    Context::DontConsume,
                    None,
                    Some(TokenVariant::MacroCall { name: string_from_chars(buffer.as_slice()) }),
                ),
            )
        },
        Context::Char => if c == '\\' {
            Ok((Context::EscapedChar, None, None))
        } else if c == '\'' {
            if buffer.len() > 0 {
                Ok((Context::Start, None, Some(TokenVariant::CharLiteral { value: buffer[0] })))
            } else {
                Err(AsmErrorKind::EmptyCharLiteral)
            }
        } else {
            Ok((Context::Char, Some(c), None))
        },
        Context::EscapedChar => if c == '\'' {
            if buffer.len() > 0 {
                let mut esc = String::new();
                push_char(&mut esc, '\\');
                push_char(&mut esc, buffer[0]);
                proof {
                    assert(esc@ =~= seq!['\\', buffer@[0]]);
                }
                match unescape_str(esc.as_str()) {
                    Some(u) => {
                        let uc = crate::text::chars_of(u.as_str());
                        Ok((Context::Start, None, Some(TokenVariant::CharLiteral { value: uc[0] })))
                    },
                    None => Err(AsmErrorKind::InvalidEscapeSequence),
                }
            } else {
                Err(AsmErrorKind::EmptyCharLiteral)
            }
        } else {
            Ok((Context::EscapedChar, Some(c), None))
        },
        Context::Str => if c == '"' {
            Ok(
                (
                    Context::Start,
                    None,
                    Some(TokenVariant::StrLiteral { value: string_from_chars(buffer.as_slice()) }),
                ),
            )
        } else {
            Ok((Context::Str, Some(c), None))
        },
        Context::Relative => if '0' <= c && c <= '9' {
            Ok((Context::Relative, Some(c), None))
        } else if buffer.len() > 0 {
            if c == 'x' && buffer[0] == '0' {
                Err(AsmErrorKind::HexRelativeOffset)
            } else {
                match parse_dec(buffer) {
                    Some(v) => Ok(
                        (Context::DontConsume, None, Some(TokenVariant::Relative { offset: v })),
                    ),
                    None => Err(AsmErrorKind::NumberTooLarge),
                }
            }
        } else {
            Err(AsmErrorKind::ExpectedOffset)
        },
        Context::DontConsume => Err(AsmErrorKind::UnexpectedCharacter),
    }
}

/// The lexer between two characters: the context, the buffer of the token
/// being read, the position bookkeeping (start character and length of the
/// token, line, column) and the tokens so far.
pub struct LexState {
    pub ctx: Context,
    pub buffer: Seq<char>,
    pub start_char: int,
    pub length: int,
    pub line: int,
    pub column: int,
    pub tokens: Seq<TokenV>,
}

pub open spec fn lex_init() -> LexState {
    LexState {
        ctx: Context::Start,
        buffer: Seq::empty(),
        start_char: 0,
        length: 0,
        line: 1,
        column: 1,
        tokens: Seq::empty(),
    }
}

/// The info the lexer reports errors with.
pub open spec fn lex_info(st: LexState, file: usize) -> InfoV {
    InfoV {
        start_char: st.start_char as i32,
        length: st.length as i32,
        line_number: st.line as i32,
        file,
        sourceline_suffix: None,
    }
}

/// Appends a token, except a line break right after a line break:
/// consecutive line breaks carry no information.
pub open spec fn push_dedup(toks: Seq<TokenV>, tok: TokenV) -> Seq<TokenV> {
    if tok.variant is Linebreak && toks.len() > 0 && toks.last().variant is Linebreak {
        toks
    } else {
        toks.push(tok)
    }
}

/// One pass of the context machine over a character. The flag says that
/// the character has to be read again (the machine stopped a token on it).
pub open spec fn lex_inner(st: LexState, c: char, file: usize) -> Result<(LexState, bool), AsmErrorV> {
    match context_step(st.ctx, st.buffer, c) {
        Err(k) => Err(err_at(k, lex_info(st, file))),
        Ok((ctx2, add, var)) => {
            let start2 = st.column - st.length;
            let buf2 = match add {
                Some(a) => st.buffer.push(a),
                None => st.buffer,
            };
            match var {
                None => if ctx2 == Context::DontConsume {
                    Ok((LexState { ctx: Context::Start, buffer: buf2, start_char: start2, ..st }, true))
                } else {
                    Ok((LexState { ctx: ctx2, buffer: buf2, start_char: start2, ..st }, false))
                },
                Some(v) => {
                    let len2 = if ctx2 == Context::Start {
                        st.length + 1
                    } else {
                        st.length
                    };
                    let tok = TokenV {
                        info: InfoV {
                            start_char: start2 as i32,
                            length: len2 as i32,
                            line_number: st.line as i32,
                            file,
                            sourceline_suffix: None,
                        },
                        variant: v,
                        origin_info: Seq::empty(),
                    };
                    let toks2 = push_dedup(st.tokens, tok);
                    if v is Linebreak {
                        Ok(
                            (
                                LexState {
                                    ctx: ctx2,
                                    buffer: Seq::empty(),
                                    start_char: 0,
                                    length: 0,
                                    line: st.line + 1,
                                    column: 0,
                                    tokens: toks2,
                                },
                                false,
                            ),
                        )
                    } else if ctx2 == Context::DontConsume {
                        Ok(
                            (
                                LexState {
                                    ctx: Context::Start,
                                    buffer: Seq::empty(),
                                    start_char: start2,
                                    length: len2,
                                    tokens: toks2,
                                    ..st
                                },
                                true,
                            ),
                        )
                    } else {
                        Ok(
                            (
                                LexState {
                                    ctx: ctx2,
                                    buffer: Seq::empty(),
                                    start_char: start2,
                                    length: len2,
                                    tokens: toks2,
                                    ..st
                                },
                                false,
                            ),
                        )
                    }
                },
            }
        },
    }
}

/// The lexer after reading one character: the context machine runs once,
/// or twice when it stopped a token on the character; then the length and
/// column advance.
#[verifier::opaque]
pub open spec fn lex_char(st: LexState, c: char, file: usize) -> Result<LexState, AsmErrorV> {
    let r1 = match lex_inner(st, c, file) {
        Err(e) => Err(e),
        Ok((st1, again)) => if again {
            match lex_inner(st1, c, file) {
                Err(e) => Err(e),
                Ok((st2, _)) => Ok(st2),
            }
        } else {
            Ok(st1)
        },
    };
    match r1 {
        Err(e) => Err(e),
        Ok(s) => Ok(
            LexState {
                length: if s.ctx == Context::Start {
                    0
                } else {
                    s.length + 1
                },
                column: s.column + 1,
                ..s
            },
        ),
    }
}

/// The lexer after reading all of `s`.
pub open spec fn lex_fold(s: Seq<char>, file: usize) -> Result<LexState, AsmErrorV>
    decreases s.len(),
{
    if s.len() == 0 {
        Ok(lex_init())
    } else {
        match lex_fold(s.drop_last(), file) {
            Err(e) => Err(e),
            Ok(st) => lex_char(st, s.last(), file),
        }
    }
}

/// The executable state of the lexer; its view is a `LexState`.
pub struct Lexer {
    pub ctx: Context,
    pub buffer: Vec<char>,
    pub start_char: i32,
    pub length: i32,
    pub line: i32,
    pub column: i32,
    pub tokens: Vec<Token>,
}

impl View for Lexer {
    type V = LexState;

    open spec fn view(&self) -> LexState {
        LexState {
            ctx: self.ctx,
            buffer: self.buffer@,
            start_char: self.start_char as int,
            length: self.length as int,
            line: self.line as int,
            column: self.column as int,
            tokens: views(self.tokens@),
        }
    }
}

/// The position fields stay small: at most `n` away from zero.
pub open spec fn lex_bounded(st: LexState, n: int) -> bool {
    &&& 0 <= st.length <= n
    &&& 0 <= st.column <= n
    &&& 1 <= st.line <= n
    &&& -n <= st.start_char <= n
}

/// The token lists the lexer builds never hold two line breaks in a row.
pub open spec fn no_double_linebreak(t: Seq<TokenV>) -> bool {
    forall|i: int| 0 <= i < t.len() - 1 ==> !(#[trigger] t[i].variant is Linebreak && t[i
        + 1].variant is Linebreak)
}

proof fn lemma_push_dedup(toks: Seq<TokenV>, tok: TokenV)
    requires
        no_double_linebreak(toks),
    ensures
        no_double_linebreak(push_dedup(toks, tok)),
{
    let r = push_dedup(toks, tok);
    if r != toks {
        assert forall|i: int| 0 <= i < r.len() - 1 implies !(#[trigger] r[i].variant is Linebreak
            && r[i + 1].variant is Linebreak) by {
            if i < toks.len() - 1 {
                assert(r[i] == toks[i] && r[i + 1] == toks[i + 1]);
            }
        }
    }
}

impl Lexer {
    /// A lexer at the start of a file.
    pub fn new() -> (res: Self)
        ensures
            res@ == lex_init(),
    {
        let res = Lexer {
            ctx: Context::Start,
            buffer: Vec::new(),
            start_char: 0,
            length: 0,
            line: 1,
            column: 1,
            tokens: Vec::new(),
        };
        assert(res@.buffer =~= Seq::<char>::empty());
        assert(res@.tokens =~= Seq::<TokenV>::empty());
        res
    }

    /// One pass of the context machine; returns whether the character has
    /// to be read again.
    fn inner(&mut self, c: char, file: usize, bound: Ghost<int>) -> (res: Result<bool, AsmError>)
        requires
            old(self).ctx != Context::DontConsume,
            lex_bounded(old(self)@, bound@),
            bound@ + 2 <= i32::MAX,
        ensures
            match (res, lex_inner(old(self)@, c, file)) {
                (Ok(again), Ok((st, sagain))) => final(self)@ == st && again == sagain,
                (Err(e), Err(se)) => e@ == se,
                _ => false,
            },
            res is Ok ==> lex_bounded(final(self)@, bound@ + 1),
            res is Ok ==> final(self).ctx != Context::DontConsume,
            res matches Ok(again) && again ==> old(self).ctx != Context::Start && final(self).ctx
                == Context::Start,
            res is Ok && no_double_linebreak(old(self)@.tokens) ==> no_double_linebreak(
                final(self)@.tokens,
            ),
    {
        let step = updated_context(self.ctx, &self.buffer, c);
        let (ctx2, add, var) = match step {
            Ok(x) => x,
            Err(k) => {
                let info = Info {
                    start_char: self.start_char,
                    length: self.length,
                    line_number: self.line,
                    file,
                    sourceline_suffix: None,
                };
                return Err(asm_error(k, &info));
            },
        };
        let start2 = self.column - self.length;
        if let Some(a) = add {
            self.buffer.push(a);
        }
        self.start_char = start2;
        match var {
            None => {
                if ctx2 == Context::DontConsume {
                    self.ctx = Context::Start;
                    return Ok(true);
                } else {
                    self.ctx = ctx2;
                    return Ok(false);
                }
            },
            Some(v) => {
                if ctx2 == Context::Start {
                    self.length = self.length + 1;
                }
                let is_lb = matches!(v, TokenVariant::Linebreak);
                let tok = Token {
                    info: Info {
                        start_char: self.start_char,
                        length: self.length,
                        line_number: self.line,
                        file,
                        sourceline_suffix: None,
                    },
                    variant: v,
                    origin_info: Vec::new(),
                };
                proof {
                    assert(tok.origin_info.deep_view() =~= Seq::<InfoV>::empty());
                    if no_double_linebreak(old(self)@.tokens) {
                        lemma_push_dedup(old(self)@.tokens, tok@);
                    }
                }
                let n = self.tokens.len();
                if !(is_lb && n > 0 && matches!(self.tokens[n - 1].variant, TokenVariant::Linebreak)) {
                    push_token(&mut self.tokens, tok);
                }
                self.buffer = Vec::new();
                assert(self.buffer@ =~= Seq::<char>::empty());
                if is_lb {
                    self.line = self.line + 1;
                    self.start_char = 0;
                    self.length = 0;
                    self.column = 0;
                    self.ctx = ctx2;
                    return Ok(false);
                }
                if ctx2 == Context::DontConsume {
                    self.ctx = Context::Start;
                    return Ok(true);
                }
                self.ctx = ctx2;
                Ok(false)
            },
        }
    }

    /// Reads one character.
    fn read_char(&mut self, c: char, file: usize, bound: Ghost<int>) -> (res: Result<(), AsmError>)
        requires
            old(self).ctx != Context::DontConsume,
            lex_bounded(old(self)@, bound@),
            bound@ + 4 <= i32::MAX,
        ensures
            match (res, lex_char(old(self)@, c, file)) {
                (Ok(()), Ok(st)) => final(self)@ == st,
                (Err(e), Err(se)) => e@ == se,
                _ => false,
            },
            res is Ok ==> lex_bounded(final(self)@, bound@ + 3),
            res is Ok ==> final(self).ctx != Context::DontConsume,
            res is Ok && no_double_linebreak(old(self)@.tokens) ==> no_double_linebreak(
                final(self)@.tokens,
            ),
    {
        proof {
            reveal(lex_char);
        }
        let again = self.inner(c, file, bound)?;
        if again {
            self.inner(c, file, Ghost(bound@ + 1))?;
        }
        if self.ctx == Context::Start {
            self.length = 0;
        } else {
            self.length = self.length + 1;
        }
        self.column = self.column + 1;
        Ok(())
    }
}

/// Every `"\r\n"` replaced by `"\n"`, scanning from the left as
/// `str::replace` does.
pub open spec fn crlf_to_lf(s: Seq<char>) -> Seq<char>
    decreases s.len(),
{
    if s.len() == 0 {
        Seq::empty()
    } else if s.len() >= 2 && s[0] == '\r' && s[1] == '\n' {
        seq!['\n'] + crlf_to_lf(s.skip(2))
    } else {
        seq![s[0]] + crlf_to_lf(s.skip(1))
    }
}

/// Every tab replaced by four spaces.
pub open spec fn expand_tabs(s: Seq<char>) -> Seq<char>
    decreases s.len(),
{
    if s.len() == 0 {
        Seq::empty()
    } else if s[0] == '\t' {
        seq![' ', ' ', ' ', ' '] + expand_tabs(s.skip(1))
    } else {
        seq![s[0]] + expand_tabs(s.skip(1))
    }
}

/// The sanitised text: line endings made `'\n'`, tabs made four spaces.
pub open spec fn sanitise(s: Seq<char>) -> Seq<char> {
    expand_tabs(crlf_to_lf(s))
}

/// `s` holds `'\r'` directly followed by `'\n'` somewhere.
pub open spec fn has_crlf(s: Seq<char>) -> bool {
    exists|i: int| 0 <= i < s.len() - 1 && #[trigger] s[i] == '\r' && s[i + 1] == '\n'
}

proof fn lemma_crlf_len(s: Seq<char>)
    ensures
        crlf_to_lf(s).len() <= s.len(),
    decreases s.len(),
{
    if s.len() > 0 {
        if s.len() >= 2 && s[0] == '\r' && s[1] == '\n' {
            lemma_crlf_len(s.skip(2));
        } else {
            lemma_crlf_len(s.skip(1));
        }
    }
}

proof fn lemma_tabs_len(s: Seq<char>)
    ensures
        expand_tabs(s).len() <= 4 * s.len(),
    decreases s.len(),
{
    if s.len() > 0 {
        lemma_tabs_len(s.skip(1));
    }
}

proof fn lemma_crlf_identity(s: Seq<char>)
    requires
        !has_crlf(s),
    ensures
        crlf_to_lf(s) == s,
    decreases s.len(),
{
    if s.len() > 0 {
        let t = s.skip(1);
        assert(!has_crlf(t)) by {
            if has_crlf(t) {
                let i = choose|i: int| 0 <= i < t.len() - 1 && #[trigger] t[i] == '\r' && t[i + 1]
                    == '\n';
                assert(s[i + 1] == '\r' && s[i + 2] == '\n');
            }
        }
        if s.len() >= 2 && s[0] == '\r' && s[1] == '\n' {
            assert(s[0] == '\r');
        }
        lemma_crlf_identity(t);
        assert(seq![s[0]] + t =~= s);
    }
}

proof fn lemma_tabs_no_tab(s: Seq<char>)
    ensures
        !expand_tabs(s).contains('\t'),
    decreases s.len(),
{
    if s.len() > 0 {
        lemma_tabs_no_tab(s.skip(1));
        let r = expand_tabs(s);
        let rest = expand_tabs(s.skip(1));
        if s[0] == '\t' {
            assert forall|i: int| 0 <= i < r.len() implies r[i] != '\t' by {
                if i >= 4 {
                    assert(r[i] == rest[i - 4]);
                }
            }
        } else {
            assert forall|i: int| 0 <= i < r.len() implies r[i] != '\t' by {
                if i >= 1 {
                    assert(r[i] == rest[i - 1]);
                }
            }
        }
    }
}

proof fn lemma_tabs_identity(s: Seq<char>)
    requires
        !s.contains('\t'),
    ensures
        expand_tabs(s) == s,
    decreases s.len(),
{
    if s.len() > 0 {
        assert(s[0] != '\t');
        let t = s.skip(1);
        assert(!t.contains('\t')) by {
            if t.contains('\t') {
                let i = choose|i: int| 0 <= i < t.len() && t[i] == '\t';
                assert(s[i + 1] == '\t');
            }
        }
        lemma_tabs_identity(t);
        assert(seq![s[0]] + t =~= s);
    }
}

/// Sanitising twice gives what sanitising once gave, unless the first pass
/// left a `"\r\n"` behind (as it does of `"\r\r\n"`).
pub proof fn lemma_sanitise_idempotent(s: Seq<char>)
    requires
        !has_crlf(sanitise(s)),
    ensures
        sanitise(sanitise(s)) == sanitise(s),
{
    let t = sanitise(s);
    lemma_crlf_identity(t);
    lemma_tabs_no_tab(crlf_to_lf(s));
    lemma_tabs_identity(t);
}

/// The characters with every `"\r\n"` replaced by `"\n"`.
pub fn replace_crlf(s: &Vec<char>) -> (res: Vec<char>)
    ensures
        res@ == crlf_to_lf(s@),
{
    let mut a: Vec<char> = Vec::new();
    let mut i: usize = 0;
    assert(s@.skip(0) =~= s@);
    assert(a@ + crlf_to_lf(s@) =~= crlf_to_lf(s@));
    while i < s.len()
        invariant
            i <= s.len(),
            crlf_to_lf(s@) == a@ + crlf_to_lf(s@.skip(i as int)),
        decreases s.len() - i,
    {
        let ghost rest = s@.skip(i as int);
        if s.len() - i > 1 && s[i] == '\r' && s[i + 1] == '\n' {
            a.push('\n');
            assert(rest.skip(2) =~= s@.skip(i + 2));
            i += 2;
        } else {
            a.push(s[i]);
            assert(rest.skip(1) =~= s@.skip(i + 1));
            i += 1;
        }
        assert(crlf_to_lf(s@) =~= a@ + crlf_to_lf(s@.skip(i as int)));
    }
    assert(s@.skip(s.len() as int) =~= Seq::<char>::empty());
    a
}

/// Does some basic and safe sanitisation: Windows line endings become
/// `'\n'` and tabs become four spaces.
pub fn generic_sanitisation(text: &str) -> (res: String)
    ensures
        res@ == sanitise(text@),
{
    let s = crate::text::chars_of(text);
    let a = replace_crlf(&s);
    let mut b: Vec<char> = Vec::new();
    let mut j: usize = 0;
    assert(a@.skip(0) =~= a@);
    assert(b@ + expand_tabs(a@) =~= expand_tabs(a@));
    while j < a.len()
        invariant
            j <= a.len(),
            expand_tabs(a@) == b@ + expand_tabs(a@.skip(j as int)),
        decreases a.len() - j,
    {
        let ghost rest = a@.skip(j as int);
        assert(rest.skip(1) =~= a@.skip(j + 1));
        if a[j] == '\t' {
            b.push(' ');
            b.push(' ');
            b.push(' ');
            b.push(' ');
        } else {
            b.push(a[j]);
        }
        j += 1;
        assert(expand_tabs(a@) =~= b@ + expand_tabs(a@.skip(j as int)));
    }
    assert(a@.skip(a.len() as int) =~= Seq::<char>::empty());
    crate::text::string_from_chars(b.as_slice())
}

/// Every tab replaced by one space.
pub open spec fn tabs_to_spaces(s: Seq<char>) -> Seq<char> {
    s.map_values(|c: char| if c == '\t' { ' ' } else { c })
}

/// Windows line endings become `'\n'` and tabs become single spaces.
pub fn clean(text: String) -> (res: String)
    ensures
        res@ == tabs_to_spaces(crlf_to_lf(text@)),
{
    let s = crate::text::chars_of(text.as_str());
    let a = replace_crlf(&s);
    let mut b: Vec<char> = Vec::new();
    let mut j: usize = 0;
    while j < a.len()
        invariant
            j <= a.len(),
            b@ == tabs_to_spaces(a@.take(j as int)),
        decreases a.len() - j,
    {
        if a[j] == '\t' {
            b.push(' ');
        } else {
            b.push(a[j]);
        }
        j += 1;
        assert(b@ =~= tabs_to_spaces(a@.take(j as int)));
    }
    assert(a@.take(a.len() as int) =~= a@);
    crate::text::string_from_chars(b.as_slice())
}

/// Every token was read from the file with the given index.
pub open spec fn tokens_in_file(t: Seq<TokenV>, file: usize) -> bool {
    forall|i: int| 0 <= i < t.len() ==> (#[trigger] t[i]).info.file == file
}

proof fn lemma_inner_file(st: LexState, c: char, file: usize)
    requires
        tokens_in_file(st.tokens, file),
    ensures
        lex_inner(st, c, file) matches Ok((st2, _)) ==> tokens_in_file(st2.tokens, file),
{
    if let Ok((st2, _)) = lex_inner(st, c, file) {
        assert forall|i: int| 0 <= i < st2.tokens.len() implies (#[trigger] st2.tokens[i]).info.file
            == file by {
            if i < st.tokens.len() {
                assert(st2.tokens[i] == st.tokens[i]);
            }
        }
    }
}

proof fn lemma_lex_fold_file(s: Seq<char>, file: usize)
    ensures
        lex_fold(s, file) matches Ok(st) ==> tokens_in_file(st.tokens, file),
    decreases s.len(),
{
    if s.len() > 0 {
        lemma_lex_fold_file(s.drop_last(), file);
        if let Ok(st) = lex_fold(s.drop_last(), file) {
            reveal(lex_char);
            lemma_inner_file(st, s.last(), file);
            if let Ok((st1, _)) = lex_inner(st, s.last(), file) {
                lemma_inner_file(st1, s.last(), file);
            }
        }
    }
}

proof fn lemma_lex_fold_step(s: Seq<char>, k: int, file: usize, st: LexState)
    requires
        0 <= k < s.len(),
        lex_fold(s.take(k), file) == Ok::<LexState, AsmErrorV>(st),
    ensures
        lex_fold(s.take(k + 1), file) == lex_char(st, s[k], file),
{
    assert(s.take(k + 1).drop_last() =~= s.take(k));
}

proof fn lemma_lex_fold_err(s: Seq<char>, k: int, file: usize)
    requires
        0 <= k <= s.len(),
        lex_fold(s.take(k), file) is Err,
    ensures
        lex_fold(s, file) == lex_fold(s.take(k), file),
    decreases s.len() - k,
{
    if k == s.len() {
        assert(s.take(k) =~= s);
    } else {
        assert(s.take(k + 1).drop_last() =~= s.take(k));
        lemma_lex_fold_err(s, k + 1, file);
    }
}

/// Converts a source text into tokens: the text is sanitised, a line break
/// is appended, and the lexer reads it character by character. An include
/// (`#name`) stays in the result as a `Namespace` token, which the caller
/// replaces by the included file's tokens (see `splice_include`).
pub fn tokenise(text: &str, file: usize) -> (res: Result<Vec<Token>, AsmError>)
    requires
        text@.len() < 0x0800_0000,
    ensures
        match (res, lex_fold(sanitise(text@).push('\n'), file)) {
            (Ok(t), Ok(st)) => views(t@) == st.tokens,
            (Err(e), Err(se)) => e@ == se,
            _ => false,
        },
        res matches Ok(t) ==> no_double_linebreak(views(t@)) && tokens_in_file(views(t@), file),
{
    let clean = generic_sanitisation(text);
    let mut chars = crate::text::chars_of(clean.as_str());
    chars.push('\n');
    let ghost full = sanitise(text@).push('\n');
    proof {
        lemma_crlf_len(text@);
        lemma_tabs_len(crlf_to_lf(text@));
        assert(chars@ == full);
    }
    let mut lx = Lexer::new();
    let mut i: usize = 0;
    assert(full.take(0) =~= Seq::<char>::empty());
    while i < chars.len()
        invariant
            full == sanitise(text@).push('\n'),
            chars@ == full,
            chars.len() <= 0x2000_0000,
            i <= chars.len(),
            lex_fold(full.take(i as int), file) == Ok::<LexState, AsmErrorV>(lx@),
            lx.ctx != Context::DontConsume,
            lex_bounded(lx@, 3 * i + 1),
            no_double_linebreak(lx@.tokens),
        decreases chars.len() - i,
    {
        proof {
            lemma_lex_fold_step(full, i as int, file, lx@);
        }
        let r = lx.read_char(chars[i], file, Ghost(3 * i + 1));
        match r {
            Ok(()) => {},
            Err(e) => {
                proof {
                    lemma_lex_fold_err(full, i + 1, file);
                }
                return Err(e);
            },
        }
        i += 1;
    }
    assert(full.take(chars.len() as int) =~= full);
    proof {
        lemma_lex_fold_file(full, file);
    }
    Ok(lx.tokens)
}

/// The tokens of a file after the include token at `at` is replaced by the
/// included file's tokens. The line break that ended the include line is
/// dropped when the tokens before it now end in a line break.
pub open spec fn spliced(t: Seq<TokenV>, at: int, inc: Seq<TokenV>) -> Seq<TokenV> {
    let head = t.take(at) + inc;
    let rest = t.skip(at + 1);
    if rest.len() > 0 && rest[0].variant is Linebreak && head.len() > 0
        && head.last().variant is Linebreak {
        head + rest.skip(1)
    } else {
        head + rest
    }
}

/// Replaces the include token at `at` by the tokens of the included file
/// (none when that file was included before).
pub fn splice_include(tokens: &Vec<Token>, at: usize, included: Vec<Token>) -> (res: Vec<Token>)
    requires
        at < tokens.len(),
    ensures
        views(res@) == spliced(views(tokens@), at as int, views(included@)),
{
    let ghost t = views(tokens@);
    let mut out: Vec<Token> = Vec::new();
    let mut k: usize = 0;
    while k < at
        invariant
            at < tokens.len(),
            k <= at,
            t == views(tokens@),
            views(out@) == t.take(k as int),
        decreases at - k,
    {
        push_token(&mut out, tokens[k].clone());
        k += 1;
        assert(views(out@) =~= t.take(k as int));
    }
    append_tokens(&mut out, included);
    let ghost head = views(out@);
    let mut j: usize = at + 1;
    let n = out.len();
    if j < tokens.len() && matches!(tokens[j].variant, TokenVariant::Linebreak) && n > 0
        && matches!(out[n - 1].variant, TokenVariant::Linebreak) {
        j += 1;
    }
    let ghost from = j;
    proof {
        if from == at + 2 {
            assert(t.skip(at + 1).skip(1) =~= t.skip(at + 2));
            assert(t.skip(at + 1)[0] == t[at + 1]);
        } else if at + 1 < tokens.len() {
            assert(t.skip(at + 1)[0] == t[at + 1]);
        }
    }
    assert(views(out@) =~= head + t.skip(from as int).take(0));
    while j < tokens.len()
        invariant
            at < from <= j <= tokens.len(),
            t == views(tokens@),
            views(out@) == head + t.skip(from as int).take(j - from),
        decreases tokens.len() - j,
    {
        push_token(&mut out, tokens[j].clone());
        j += 1;
        assert(views(out@) =~= head + t.skip(from as int).take(j - from));
    }
    assert(t.skip(from as int).take(tokens.len() - from) =~= t.skip(from as int));
    out
}

} // verus!
