//! Hex, character and string literals become decimal literals.
use vstd::prelude::*;
use crate::error::{asm_error, err_at, AsmError, AsmErrorKind, AsmErrorV};
use crate::parser::other::prepend;
use crate::tokens::{push_token, views, with_info_v, Token, TokenV, TokenVariant, VariantV};

verus! {

/// `0`-`9`, `a`-`f`, `A`-`F`.
pub open spec fn is_hex_digit(c: char) -> bool {
    ('0' <= c <= '9') || ('a' <= c <= 'f') || ('A' <= c <= 'F')
}

/// The value of a hex digit.
pub open spec fn hex_digit_value(c: char) -> int {
    if '0' <= c <= '9' {
        c as int - '0' as int
    } else if 'a' <= c <= 'f' {
        c as int - 'a' as int + 10
    } else {
        c as int - 'A' as int + 10
    }
}

/// The value of a sequence of hex digits.
pub open spec fn hex_digits_value(s: Seq<char>) -> int
    decreases s.len(),
{
    if s.len() == 0 {
        0
    } else {
        hex_digits_value(s.drop_last()) * 16 + hex_digit_value(s.last())
    }
}

pub open spec fn all_hex(s: Seq<char>) -> bool {
    forall|i: int| 0 <= i < s.len() ==> #[trigger] is_hex_digit(s[i])
}

/// How `i32::from_str_radix(s, 16)` reads a string: an optional sign, then
/// at least one hex digit, with a value that fits in 32 bits.
pub open spec fn parse_hex_i32(s: Seq<char>) -> Option<i32> {
    let neg = s.len() > 0 && s[0] == '-';
    let digits = if s.len() > 0 && (s[0] == '+' || s[0] == '-') {
        s.skip(1)
    } else {
        s
    };
    hex_result(neg, digits)
}

/// The number that the digits after the sign stand for, if it fits.
pub open spec fn hex_result(neg: bool, digits: Seq<char>) -> Option<i32> {
    let v = if neg {
        -hex_digits_value(digits)
    } else {
        hex_digits_value(digits)
    };
    if digits.len() > 0 && all_hex(digits) && i32::MIN <= v <= i32::MAX {
        Some(v as i32)
    } else {
        None
    }
}

proof fn lemma_hex_value_nonneg(s: Seq<char>)
    requires
        all_hex(s),
    ensures
        hex_digits_value(s) >= 0,
    decreases s.len(),
{
    if s.len() > 0 {
        assert(all_hex(s.drop_last()));
        lemma_hex_value_nonneg(s.drop_last());
        assert(is_hex_digit(s[s.len() - 1]));
    }
}

proof fn lemma_hex_grows(s: Seq<char>, k: int)
    requires
        0 <= k <= s.len(),
        all_hex(s.take(k)),
        hex_digits_value(s.take(k)) > 0x8000_0000,
    ensures
        !(all_hex(s) && hex_digits_value(s) <= 0x8000_0000),
    decreases s.len() - k,
{
    if k < s.len() && all_hex(s) {
        assert(s.take(k + 1).drop_last() =~= s.take(k));
        assert(all_hex(s.take(k + 1)));
        assert(is_hex_digit(s[k]));
        lemma_hex_grows(s, k + 1);
    } else if k == s.len() {
        assert(s.take(k) =~= s);
    }
}

/// Hex digits have their standard values in either case: for `k` below 16,
/// the `k`-th of `0123456789abcdef` and the `k`-th of `0123456789ABCDEF`
/// both read as `k`, and appending one to unsigned hex digits that read as
/// `v` reads as `16 * v + k` (where that fits in 32 bits).
pub proof fn lemma_hex_digits_standard(s: Seq<char>, k: int)
    requires
        0 <= k < 16,
        s.len() > 0 ==> s[0] != '+' && s[0] != '-',
    ensures
        ({
            let lower = "0123456789abcdef"@[k];
            let upper = "0123456789ABCDEF"@[k];
            &&& parse_hex_i32(seq![lower]) == Some(k as i32)
            &&& parse_hex_i32(seq![upper]) == Some(k as i32)
            &&& (parse_hex_i32(s) is Some && 16 * parse_hex_i32(s)->0 + k <= i32::MAX) ==> (
                parse_hex_i32(s.push(lower)) == Some((16 * parse_hex_i32(s)->0 + k) as i32)
                && parse_hex_i32(s.push(upper)) == Some((16 * parse_hex_i32(s)->0 + k) as i32))
        }),
{
    reveal_strlit("0123456789abcdef");
    reveal_strlit("0123456789ABCDEF");
    let lower = "0123456789abcdef"@[k];
    let upper = "0123456789ABCDEF"@[k];
    assert(is_hex_digit(lower) && hex_digit_value(lower) == k);
    assert(is_hex_digit(upper) && hex_digit_value(upper) == k);
    assert(seq![lower].drop_last() =~= Seq::<char>::empty());
    assert(seq![upper].drop_last() =~= Seq::<char>::empty());
    assert(all_hex(seq![lower]));
    assert(all_hex(seq![upper]));
    if parse_hex_i32(s) is Some {
        let v = parse_hex_i32(s)->0;
        assert(s.len() > 0);
        lemma_hex_value_nonneg(s);
        assert(s.push(lower).drop_last() =~= s);
        assert(s.push(upper).drop_last() =~= s);
        assert(all_hex(s.push(lower)));
        assert(all_hex(s.push(upper)));
        assert(s.push(lower)[0] == s[0]);
        assert(s.push(upper)[0] == s[0]);
        assert(hex_digits_value(s.push(lower)) == hex_digits_value(s) * 16 + k);
        assert(hex_digits_value(s.push(upper)) == hex_digits_value(s) * 16 + k);
        assert(v as int == hex_digits_value(s));
    }
    assert(hex_digits_value(Seq::<char>::empty()) == 0);
    assert(seq![lower].last() == lower);
    assert(seq![upper].last() == upper);
    assert(hex_digits_value(seq![lower]) == hex_digits_value(seq![lower].drop_last()) * 16 + hex_digit_value(lower));
    assert(hex_digits_value(seq![lower]) == k);
    assert(hex_digits_value(seq![upper]) == hex_digits_value(seq![upper].drop_last()) * 16 + hex_digit_value(upper));
    assert(hex_digits_value(seq![upper]) == k);
}

/// `i32::from_str_radix(s, 16)`.
pub fn parse_hex(s: &String) -> (res: Option<i32>)
    ensures
        res == parse_hex_i32(s@),
{
    let w = crate::text::chars_of(s.as_str());
    let neg = w.len() > 0 && w[0] == '-';
    let mut start: usize = 0;
    if w.len() > 0 && (w[0] == '+' || w[0] == '-') {
        start = 1;
    }
    let ghost digits = if w@.len() > 0 && (w@[0] == '+' || w@[0] == '-') {
        w@.skip(1)
    } else {
        w@
    };
    assert(digits =~= w@.skip(start as int));
    assert(parse_hex_i32(s@) == hex_result(neg, digits));
    if start >= w.len() {
        return None;
    }
    let mut value: u64 = 0;
    let mut i: usize = start;
    assert(digits.take(0) =~= Seq::<char>::empty());
    while i < w.len()
        invariant
            start <= i <= w.len(),
            digits == w@.skip(start as int),
            parse_hex_i32(s@) == hex_result(neg, digits),
            all_hex(digits.take(i - start)),
            value == hex_digits_value(digits.take(i - start)),
            value <= 0x8000_0000,
        decreases w.len() - i,
    {
        let c = w[i];
        let ghost k = i - start;
        proof {
            assert(digits.take(k + 1).drop_last() =~= digits.take(k));
            assert(digits[k] == c);
        }
        let d: u64 = if '0' <= c && c <= '9' {
            (c as u64) - ('0' as u64)
        } else if 'a' <= c && c <= 'f' {
            (c as u64) - ('a' as u64) + 10
        } else if 'A' <= c && c <= 'F' {
            (c as u64) - ('A' as u64) + 10
        } else {
            proof {
                assert(!is_hex_digit(digits[k]));
                assert(!all_hex(digits));
            }
            return None;
        };
        value = value * 16 + d;
        proof {
            assert(all_hex(digits.take(k + 1)));
            assert(hex_digits_value(digits.take(k + 1)) == value);
        }
        if value > 0x8000_0000 {
            proof {
                lemma_hex_grows(digits, k + 1);
            }
            return None;
        }
        i += 1;
    }
    assert(digits.take(w.len() - start) =~= digits);
    if neg {
        Some((0 - (value as i64)) as i32)
    } else if value <= 0x7FFF_FFFF {
        Some(value as i32)
    } else {
        None
    }
}

/// The decimal literal that a hex or character literal becomes, or the
/// token unchanged.
pub open spec fn literal_to_dec(tok: TokenV) -> Result<TokenV, AsmErrorV> {
    match tok.variant {
        VariantV::HexLiteral { value } => match parse_hex_i32(value) {
            Some(v) => Ok(TokenV { variant: VariantV::DecLiteral { value: v }, ..tok }),
            None => Err(err_at(AsmErrorKind::InvalidHexLiteral, tok.info)),
        },
        VariantV::CharLiteral { value } => Ok(
            TokenV { variant: VariantV::DecLiteral { value: value as i32 }, ..tok },
        ),
        _ => Ok(tok),
    }
}

/// All tokens converted, or the first invalid hex literal.
pub open spec fn literals_to_dec(t: Seq<TokenV>) -> Result<Seq<TokenV>, AsmErrorV>
    decreases t.len(),
{
    if t.len() == 0 {
        Ok(Seq::empty())
    } else {
        match (literals_to_dec(t.drop_last()), literal_to_dec(t.last())) {
            (Err(e), _) => Err(e),
            (Ok(_), Err(e)) => Err(e),
            (Ok(p), Ok(x)) => Ok(p.push(x)),
        }
    }
}

proof fn lemma_literals_err_stays(t: Seq<TokenV>, k: int)
    requires
        0 <= k <= t.len(),
        literals_to_dec(t.take(k)) is Err,
    ensures
        literals_to_dec(t) == literals_to_dec(t.take(k)),
    decreases t.len() - k,
{
    if k < t.len() {
        assert(t.take(k + 1).drop_last() =~= t.take(k));
        lemma_literals_err_stays(t, k + 1);
    } else {
        assert(t.take(k) =~= t);
    }
}

/// Convert character and hex literals into dec literals in place. On an
/// invalid hex literal the tokens are left as they were.
pub fn char_and_hex_to_dec(tokens: &mut Vec<Token>) -> (res: Result<(), AsmError>)
    ensures
        match (res, literals_to_dec(views(old(tokens)@))) {
            (Ok(()), Ok(sv)) => views(final(tokens)@) == sv,
            (Err(e), Err(se)) => e@ == se && final(tokens)@ == old(tokens)@,
            _ => false,
        },
{
    let ghost t = views(tokens@);
    let mut values: Vec<Option<i32>> = Vec::new();
    let mut i: usize = 0;
    assert(t.take(0) =~= Seq::<TokenV>::empty());
    while i < tokens.len()
        invariant
            i <= tokens.len(),
            t == views(tokens@),
            values.len() == i,
            literals_to_dec(t.take(i as int)) is Ok,
            forall|k: int|
                0 <= k < i ==> #[trigger] literals_to_dec(t.take(i as int))->Ok_0[k] == match values@[k] {
                    Some(v) => TokenV { variant: VariantV::DecLiteral { value: v }, ..t[k] },
                    None => t[k],
                },
            literals_to_dec(t.take(i as int))->Ok_0.len() == i,
        decreases tokens.len() - i,
    {
        proof {
            assert(t.take(i + 1).drop_last() =~= t.take(i as int));
            assert(t.take(i + 1).last() == t[i as int]);
        }
        let v = match &tokens[i].variant {
            TokenVariant::HexLiteral { value } => match parse_hex(value) {
                Some(v) => Some(v),
                None => {
                    proof {
                        lemma_literals_err_stays(t, i + 1);
                    }
                    return Err(asm_error(AsmErrorKind::InvalidHexLiteral, &tokens[i].info));
                },
            },
            TokenVariant::CharLiteral { value } => Some(*value as i32),
            _ => None,
        };
        values.push(v);
        i += 1;
        proof {
            let r = literals_to_dec(t.take(i as int))->Ok_0;
            assert forall|k: int| 0 <= k < i implies #[trigger] r[k] == match values@[k] {
                Some(v) => TokenV { variant: VariantV::DecLiteral { value: v }, ..t[k] },
                None => t[k],
            } by {
                if k < i - 1 {
                    assert(r[k] == literals_to_dec(t.take(i - 1))->Ok_0[k]);
                }
            }
        }
    }
    assert(t.take(tokens.len() as int) =~= t);
    let ghost out = literals_to_dec(t)->Ok_0;
    let mut k: usize = 0;
    while k < tokens.len()
        invariant
            k <= tokens.len(),
            tokens.len() == t.len(),
            values.len() == t.len(),
            out.len() == t.len(),
            forall|j: int| 0 <= j < k ==> #[trigger] tokens@[j]@ == out[j],
            forall|j: int| k <= j < tokens.len() ==> #[trigger] tokens@[j]@ == t[j],
            forall|j: int|
                0 <= j < t.len() ==> #[trigger] out[j] == match values@[j] {
                    Some(v) => TokenV { variant: VariantV::DecLiteral { value: v }, ..t[j] },
                    None => t[j],
                },
        decreases tokens.len() - k,
    {
        if let Some(v) = values[k] {
            let mut tk = tokens[k].clone();
            tk.variant = TokenVariant::DecLiteral { value: v };
            tokens.set(k, tk);
        }
        k += 1;
    }
    assert(views(tokens@) =~= out);
    Ok(())
}

/// What `unescape::unescape` returns for a string: the string with its
/// backslash escapes replaced, or `None` for an invalid escape.
pub uninterp spec fn unescaped(s: Seq<char>) -> Option<Seq<char>>;

/// `unescape::unescape`. Its result is named, not stated; the one fact
/// stated is one its source shows: every character of a non-empty input
/// either is copied or starts an escape that yields one character, so a
/// non-empty input never gives an empty result.
#[verifier::external_body]
pub(crate) fn unescape_str(s: &str) -> (res: Option<String>)
    ensures
        match res {
            Some(r) => unescaped(s@) == Some(r@),
            None => unescaped(s@) is None,
        },
        s@.len() > 0 && res is Some ==> res->0@.len() > 0,
{
    unescape::unescape(s)
}

/// The decimal literals of a string's characters followed by a zero, all
/// with the info of the string token `tok`.
pub open spec fn string_tokens(tok: TokenV, chars: Seq<char>) -> Seq<TokenV> {
    chars.map_values(|c: char| with_info_v(VariantV::DecLiteral { value: c as i32 }, tok)).push(
        with_info_v(VariantV::DecLiteral { value: 0 }, tok),
    )
}

/// Turns the characters of an unescaped string into decimal literals with
/// the info of the string token, and adds the null terminator.
pub fn string_to_tokens(tok: &Token, unescaped: &str) -> (res: Vec<Token>)
    ensures
        views(res@) == string_tokens(tok@, unescaped@),
{
    let chars = crate::text::chars_of(unescaped);
    let mut out: Vec<Token> = Vec::new();
    let mut k: usize = 0;
    while k < chars.len()
        invariant
            k <= chars.len(),
            chars@ == unescaped@,
            views(out@) == chars@.take(k as int).map_values(
                |c: char| with_info_v(VariantV::DecLiteral { value: c as i32 }, tok@),
            ),
        decreases chars.len() - k,
    {
        push_token(&mut out, Token::with_info(TokenVariant::DecLiteral { value: chars[k] as i32 }, tok));
        k += 1;
        assert(chars@.take(k as int).map_values(
            |c: char| with_info_v(VariantV::DecLiteral { value: c as i32 }, tok@),
        ) =~= chars@.take(k - 1).map_values(
            |c: char| with_info_v(VariantV::DecLiteral { value: c as i32 }, tok@),
        ).push(with_info_v(VariantV::DecLiteral { value: chars@[k - 1] as i32 }, tok@)));
    }
    assert(chars@.take(chars.len() as int) =~= chars@);
    push_token(&mut out, Token::with_info(TokenVariant::DecLiteral { value: 0 }, tok));
    out
}

/// Output of `convert_strings` for the tokens from `i` on.
pub open spec fn strings_from(t: Seq<TokenV>, i: int) -> Result<Seq<TokenV>, AsmErrorV>
    decreases t.len() - i,
{
    if i >= t.len() || i < 0 {
        Ok(Seq::empty())
    } else {
        match t[i].variant {
            VariantV::StrLiteral { value } => match unescaped(value) {
                Some(u) => prepend(string_tokens(t[i], u), strings_from(t, i + 1)),
                None => Err(err_at(AsmErrorKind::InvalidEscapeSequence, t[i].info)),
            },
            _ => prepend(seq![t[i]], strings_from(t, i + 1)),
        }
    }
}

/// Turn string tokens into dec tokens. Adds a null terminator.
pub fn convert_strings(tokens: Vec<Token>) -> (res: Result<Vec<Token>, AsmError>)
    ensures
        match (res, strings_from(views(tokens@), 0)) {
            (Ok(v), Ok(sv)) => views(v@) == sv,
            (Err(e), Err(se)) => e@ == se,
            _ => false,
        },
{
    let ghost t = views(tokens@);
    let mut new_tokens: Vec<Token> = Vec::new();
    let mut i: usize = 0;
    while i < tokens.len()
        invariant
            i <= tokens.len(),
            t == views(tokens@),
            strings_from(t, 0) == prepend(views(new_tokens@), strings_from(t, i as int)),
        decreases tokens.len() - i,
    {
        let ghost start = views(new_tokens@);
        let token = &tokens[i];
        if let TokenVariant::StrLiteral { value } = &token.variant {
            match unescape_str(value.as_str()) {
                Some(string) => {
                    let toks = string_to_tokens(token, string.as_str());
                    let ghost tv = views(toks@);
                    crate::tokens::append_tokens(&mut new_tokens, toks);
                    proof {
                        match strings_from(t, i + 1) {
                            Ok(x) => assert(start + (tv + x) =~= views(new_tokens@) + x),
                            Err(_) => {},
                        }
                    }
                },
                None => {
                    return Err(asm_error(AsmErrorKind::InvalidEscapeSequence, &token.info));
                },
            }
        } else {
            let c = token.clone();
            push_token(&mut new_tokens, c);
            proof {
                match strings_from(t, i + 1) {
                    Ok(x) => assert(start + (seq![t[i as int]] + x) =~= views(new_tokens@) + x),
                    Err(_) => {},
                }
            }
        }
        i += 1;
    }
    assert(views(new_tokens@) + Seq::<TokenV>::empty() =~= views(new_tokens@));
    Ok(new_tokens)
}

} // verus!
