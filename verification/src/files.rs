//! Encodings of assembled memory: plain text and big-endian binary.
use vstd::prelude::*;
use crate::text::{
    all_digits, chars_of, dec_chars, digit_value, digits_value, is_digit, lemma_dec_chars,
    lemma_digits_value_nonneg, push_char, push_dec, lowercase, to_lowercase, trim_spec, trim_chars,
    chars_eq_str, string_from_chars, all_ascii, ascii_lower,
};

verus! {

/// The two bytes of every word, high byte first.
pub open spec fn bytes_of(data: Seq<u16>) -> Seq<u8>
    decreases data.len(),
{
    if data.len() == 0 {
        Seq::empty()
    } else {
        bytes_of(data.drop_last()).push((data.last() / 256) as u8).push((data.last() % 256) as u8)
    }
}

/// Words made of pairs of bytes, high byte first.
pub open spec fn words_of(data: Seq<u8>) -> Seq<u16>
    decreases data.len(),
{
    if data.len() < 2 {
        Seq::empty()
    } else {
        let n = data.len();
        words_of(data.take(n - 2)).push((data[n - 2] * 256 + data[n - 1]) as u16)
    }
}

proof fn lemma_bytes_of_len(data: Seq<u16>)
    ensures
        bytes_of(data).len() == 2 * data.len(),
        forall|i: int|
            0 <= i < data.len() ==> bytes_of(data)[2 * i] == (data[i] / 256) as u8 && bytes_of(
                data,
            )[2 * i + 1] == (data[i] % 256) as u8,
    decreases data.len(),
{
    if data.len() > 0 {
        lemma_bytes_of_len(data.drop_last());
        let n = data.len() - 1;
        assert forall|i: int| 0 <= i < data.len() implies bytes_of(data)[2 * i] == (data[i] / 256) as u8
            && bytes_of(data)[2 * i + 1] == (data[i] % 256) as u8 by {
            if i < n {
                assert(data.drop_last()[i] == data[i]);
            }
        }
    }
}

proof fn lemma_words_of(data: Seq<u8>)
    requires
        data.len() % 2 == 0,
    ensures
        words_of(data).len() * 2 == data.len(),
        forall|i: int|
            0 <= i < words_of(data).len() ==> #[trigger] words_of(data)[i] == (data[2 * i] * 256
                + data[2 * i + 1]) as u16,
    decreases data.len(),
{
    if data.len() >= 2 {
        let n = data.len();
        lemma_words_of(data.take(n - 2));
        assert forall|i: int| 0 <= i < words_of(data).len() implies #[trigger] words_of(data)[i]
            == (data[2 * i] * 256 + data[2 * i + 1]) as u16 by {
            if i < words_of(data).len() - 1 {
                assert(data.take(n - 2)[2 * i] == data[2 * i]);
                assert(data.take(n - 2)[2 * i + 1] == data[2 * i + 1]);
            }
        }
    }
}

/// Binary format is in Big Endian
pub fn to_bytes(data: &[u16]) -> (res: Vec<u8>)
    ensures
        res@ == bytes_of(data@),
{
    let mut u8data: Vec<u8> = Vec::new();
    let mut i: usize = 0;
    while i < data.len()
        invariant
            i <= data.len(),
            u8data@ == bytes_of(data@.take(i as int)),
        decreases data.len() - i,
    {
        let w = data[i];
        proof {
            assert(data@.take(i + 1).drop_last() =~= data@.take(i as int));
            assert((w >> 8) as u8 == (w / 256) as u8) by (bit_vector);
            assert((w & 0xFF) as u8 == (w % 256) as u8) by (bit_vector);
        }
        u8data.push((w >> 8) as u8);
        u8data.push((w & 0xFF) as u8);
        i += 1;
    }
    assert(data@.take(data.len() as int) =~= data@);
    u8data
}

/// Binary format is in Big Endian
pub fn from_bytes(data: &[u8]) -> (res: Vec<u16>)
    requires
        data@.len() % 2 == 0,
    ensures
        res@ == words_of(data@),
{
    let mut u16data: Vec<u16> = Vec::new();
    let mut i: usize = 0;
    while i < data.len()
        invariant
            i <= data.len(),
            i % 2 == 0,
            data@.len() % 2 == 0,
            u16data@ == words_of(data@.take(i as int)),
        decreases data.len() - i,
    {
        let hi = data[i];
        let lo = data[i + 1];
        proof {
            assert(data@.take(i + 2).take(i as int) =~= data@.take(i as int));
        }
        proof {
            assert(((hi as u16) << 8) == hi * 256 && hi * 256 + lo <= 0xFFFF) by (bit_vector);
        }
        u16data.push(((hi as u16) << 8) + (lo as u16));
        i += 2;
    }
    assert(data@.take(data.len() as int) =~= data@);
    u16data
}

/// Decoding the binary encoding of words gives the words back.
pub proof fn lemma_from_bytes_to_bytes(data: Seq<u16>)
    ensures
        words_of(bytes_of(data)) == data,
{
    lemma_bytes_of_len(data);
    lemma_words_of(bytes_of(data));
    let b = bytes_of(data);
    assert forall|i: int| 0 <= i < data.len() implies words_of(b)[i] == data[i] by {
        let w = data[i];
        assert(((w / 256) as u8 * 256 + (w % 256) as u8) as u16 == w) by (nonlinear_arith);
    }
    assert(words_of(b) =~= data);
}

/// Encoding the words of an even number of bytes gives the bytes back.
pub proof fn lemma_to_bytes_from_bytes(data: Seq<u8>)
    requires
        data.len() % 2 == 0,
    ensures
        bytes_of(words_of(data)) == data,
{
    lemma_words_of(data);
    let w = words_of(data);
    lemma_bytes_of_len(w);
    assert forall|i: int| 0 <= i < data.len() implies bytes_of(w)[i] == data[i] by {
        let k = i / 2;
        let hi = data[2 * k];
        let lo = data[2 * k + 1];
        assert(w[k] == (hi * 256 + lo) as u16);
        assert((((hi * 256 + lo) as u16) / 256) as u8 == hi && (((hi * 256 + lo) as u16) % 256) as u8 == lo) by (nonlinear_arith)
            requires hi < 256, lo < 256;
        if i % 2 == 0 {
            assert(i == 2 * k);
        } else {
            assert(i == 2 * k + 1);
        }
    }
    assert(bytes_of(w) =~= data);
}

/// The plain-text encoding: every word in decimal, separated by single
/// spaces.
pub open spec fn text_of(data: Seq<u16>) -> Seq<char>
    decreases data.len(),
{
    if data.len() == 0 {
        Seq::empty()
    } else if data.len() == 1 {
        dec_chars(data[0] as nat)
    } else {
        text_of(data.drop_last()) + seq![' '] + dec_chars(data.last() as nat)
    }
}

pub fn to_text(data: &[u16]) -> (res: String)
    ensures
        res@ == text_of(data@),
{
    let mut text = String::new();
    let mut i: usize = 0;
    while i < data.len()
        invariant
            i <= data.len(),
            text@ == text_of(data@.take(i as int)),
        decreases data.len() - i,
    {
        proof {
            assert(data@.take(i + 1).drop_last() =~= data@.take(i as int));
        }
        if i > 0 {
            push_char(&mut text, ' ');
        }
        push_dec(&mut text, data[i] as u64);
        i += 1;
        proof {
            if i == 1 {
                assert(text@ =~= text_of(data@.take(i as int)));
            }
        }
    }
    assert(data@.take(data.len() as int) =~= data@);
    text
}

/// The characters that `split_ascii_whitespace` splits at.
pub open spec fn is_ascii_ws(c: char) -> bool {
    c == ' ' || c == '\t' || c == '\n' || c == '\x0C' || c == '\r'
}

/// Splitting a text left to right: the finished words and the word being
/// read.
pub open spec fn split_fold(s: Seq<char>) -> (Seq<Seq<char>>, Seq<char>)
    decreases s.len(),
{
    if s.len() == 0 {
        (Seq::empty(), Seq::empty())
    } else {
        let (ws, cur) = split_fold(s.drop_last());
        let c = s.last();
        if is_ascii_ws(c) {
            if cur.len() > 0 {
                (ws.push(cur), Seq::empty())
            } else {
                (ws, Seq::empty())
            }
        } else {
            (ws, cur.push(c))
        }
    }
}

/// The non-empty runs of non-whitespace characters of a text.
pub open spec fn split_ws(s: Seq<char>) -> Seq<Seq<char>> {
    let (ws, cur) = split_fold(s);
    if cur.len() > 0 {
        ws.push(cur)
    } else {
        ws
    }
}

/// How `str::parse::<u16>` reads a word: an optional `+`, then at least one
/// decimal digit, with a value that fits in 16 bits.
pub open spec fn parse_u16(w: Seq<char>) -> Option<u16> {
    let digits = if w.len() > 0 && w[0] == '+' {
        w.skip(1)
    } else {
        w
    };
    if digits.len() > 0 && all_digits(digits) && digits_value(digits) <= 0xFFFF {
        Some(digits_value(digits) as u16)
    } else {
        None
    }
}

/// Every word parsed, or `None` if one of them does not parse.
pub open spec fn parse_words(ws: Seq<Seq<char>>) -> Option<Seq<u16>>
    decreases ws.len(),
{
    if ws.len() == 0 {
        Some(Seq::empty())
    } else {
        match (parse_words(ws.drop_last()), parse_u16(ws.last())) {
            (Some(a), Some(x)) => Some(a.push(x)),
            _ => None,
        }
    }
}

/// Reads a word as `str::parse::<u16>` does.
fn parse_word(w: &Vec<char>) -> (res: Option<u16>)
    ensures
        res == parse_u16(w@),
{
    let mut start: usize = 0;
    if w.len() > 0 && w[0] == '+' {
        start = 1;
    }
    let ghost digits = if w@.len() > 0 && w@[0] == '+' {
        w@.skip(1)
    } else {
        w@
    };
    assert(digits =~= w@.skip(start as int));
    assert(parse_u16(w@) == (if digits.len() > 0 && all_digits(digits) && digits_value(digits) <= 0xFFFF {
        Some(digits_value(digits) as u16)
    } else {
        None
    }));
    if start >= w.len() {
        assert(digits.len() == 0);
        return None;
    }
    let mut value: u32 = 0;
    let mut i: usize = start;
    assert(digits.take(0) =~= Seq::<char>::empty());
    while i < w.len()
        invariant
            start <= i <= w.len(),
            digits == w@.skip(start as int),
            parse_u16(w@) == (if digits.len() > 0 && all_digits(digits) && digits_value(digits) <= 0xFFFF {
                Some(digits_value(digits) as u16)
            } else {
                None
            }),
            all_digits(digits.take(i - start)),
            value == digits_value(digits.take(i - start)),
            value <= 0xFFFF,
        decreases w.len() - i,
    {
        let c = w[i];
        let ghost k = i - start;
        proof {
            assert(digits.take(k + 1).drop_last() =~= digits.take(k));
            assert(digits[k] == c);
        }
        if !('0' <= c && c <= '9') {
            proof {
                assert(!is_digit(digits[k]));
                assert(!all_digits(digits));
                assert(parse_u16(w@) is None);
            }
            return None;
        }
        let d = (c as u32) - ('0' as u32);
        value = value * 10 + d;
        proof {
            assert(all_digits(digits.take(k + 1)));
        }
        if value > 0xFFFF {
            proof {
                assert(digit_value(c) == d);
                assert(digits_value(digits.take(k + 1)) == value);
                lemma_digits_grow(digits, k + 1);
                assert(parse_u16(w@) is None);
            }
            return None;
        }
        i += 1;
    }
    assert(digits.take(w.len() - start) =~= digits);
    Some(value as u16)
}

/// Once a prefix of digits is too large for 16 bits, so is the whole run.
proof fn lemma_digits_grow(s: Seq<char>, k: int)
    requires
        0 <= k <= s.len(),
        all_digits(s.take(k)),
        digits_value(s.take(k)) > 0xFFFF,
    ensures
        !(all_digits(s) && digits_value(s) <= 0xFFFF),
    decreases s.len() - k,
{
    if k < s.len() && all_digits(s) {
        assert(s.take(k + 1).drop_last() =~= s.take(k));
        assert(all_digits(s.take(k + 1)));
        assert(is_digit(s[k]));
        lemma_digits_grow(s, k + 1);
    } else if k == s.len() {
        assert(s.take(k) =~= s);
    }
}

/// The characters of each word.
pub open spec fn word_views(v: Seq<Vec<char>>) -> Seq<Seq<char>> {
    v.map_values(|w: Vec<char>| w@)
}

/// Reads words of decimal numbers separated by ASCII whitespace. `None` if
/// some word is not a 16 bit number.
pub fn from_text(text: &str) -> (res: Option<Vec<u16>>)
    ensures
        match res {
            Some(v) => parse_words(split_ws(text@)) == Some(v@),
            None => parse_words(split_ws(text@)) is None,
        },
{
    let chars = chars_of(text);
    let mut words: Vec<Vec<char>> = Vec::new();
    let mut cur: Vec<char> = Vec::new();
    let mut i: usize = 0;
    while i < chars.len()
        invariant
            i <= chars.len(),
            chars@ == text@,
            split_fold(chars@.take(i as int)) == (word_views(words@), cur@),
        decreases chars.len() - i,
    {
        let c = chars[i];
        proof {
            assert(chars@.take(i + 1).drop_last() =~= chars@.take(i as int));
        }
        if c == ' ' || c == '\t' || c == '\n' || c == '\x0C' || c == '\r' {
            if cur.len() > 0 {
                let ghost old_words = word_views(words@);
                let ghost cv = cur@;
                words.push(cur);
                assert(word_views(words@) =~= old_words.push(cv));
                cur = Vec::new();
            } else {
                cur = Vec::new();
            }
            assert(cur@ =~= Seq::<char>::empty());
        } else {
            cur.push(c);
        }
        i += 1;
    }
    assert(chars@.take(chars.len() as int) =~= chars@);
    if cur.len() > 0 {
        let ghost old_words = word_views(words@);
        let ghost cv = cur@;
        words.push(cur);
        assert(word_views(words@) =~= old_words.push(cv));
    }
    let ghost ws = word_views(words@);
    assert(ws == split_ws(text@));
    let mut res: Vec<u16> = Vec::new();
    let mut k: usize = 0;
    while k < words.len()
        invariant
            k <= words.len(),
            ws == word_views(words@),
            ws == split_ws(text@),
            parse_words(ws.take(k as int)) == Some(res@),
        decreases words.len() - k,
    {
        proof {
            assert(ws.take(k + 1).drop_last() =~= ws.take(k as int));
            assert(ws.take(k + 1).last() == words@[k as int]@);
        }
        match parse_word(&words[k]) {
            Some(x) => {
                res.push(x);
            },
            None => {
                proof {
                    lemma_parse_words_none_stays(ws, k + 1);
                }
                return None;
            },
        }
        k += 1;
    }
    assert(ws.take(words.len() as int) =~= ws);
    Some(res)
}

proof fn lemma_parse_words_none_stays(ws: Seq<Seq<char>>, k: int)
    requires
        0 <= k <= ws.len(),
        parse_words(ws.take(k)) is None,
    ensures
        parse_words(ws) is None,
    decreases ws.len() - k,
{
    if k < ws.len() {
        assert(ws.take(k + 1).drop_last() =~= ws.take(k));
        lemma_parse_words_none_stays(ws, k + 1);
    } else {
        assert(ws.take(k) =~= ws);
    }
}

/// Appending characters that are not whitespace extends the word being read.
proof fn lemma_split_fold_word(p: Seq<char>, t: Seq<char>)
    requires
        forall|i: int| 0 <= i < t.len() ==> !is_ascii_ws(#[trigger] t[i]),
    ensures
        split_fold(p + t) == (split_fold(p).0, split_fold(p).1 + t),
    decreases t.len(),
{
    if t.len() == 0 {
        assert(p + t =~= p);
        assert(split_fold(p).1 + t =~= split_fold(p).1);
    } else {
        lemma_split_fold_word(p, t.drop_last());
        assert((p + t).drop_last() =~= p + t.drop_last());
        assert((p + t).last() == t.last());
        assert(split_fold(p).1 + t.drop_last() + seq![t.last()] =~= split_fold(p).1 + t);
    }
}

/// The decimal words of a sequence of numbers.
pub open spec fn dec_words(d: Seq<u16>) -> Seq<Seq<char>> {
    d.map_values(|x: u16| dec_chars(x as nat))
}

proof fn lemma_dec_no_ws(n: nat)
    ensures
        forall|i: int| 0 <= i < dec_chars(n).len() ==> !is_ascii_ws(#[trigger] dec_chars(n)[i]),
{
    lemma_dec_chars(n);
    assert forall|i: int| 0 <= i < dec_chars(n).len() implies !is_ascii_ws(#[trigger] dec_chars(n)[i]) by {
        assert(is_digit(dec_chars(n)[i]));
    }
}

proof fn lemma_split_fold_text(d: Seq<u16>)
    requires
        d.len() > 0,
    ensures
        split_fold(text_of(d)) == (dec_words(d.drop_last()), dec_chars(d.last() as nat)),
    decreases d.len(),
{
    lemma_dec_no_ws(d.last() as nat);
    lemma_dec_chars(d.last() as nat);
    if d.len() == 1 {
        lemma_split_fold_word(Seq::empty(), dec_chars(d[0] as nat));
        assert(Seq::<char>::empty() + dec_chars(d[0] as nat) =~= dec_chars(d[0] as nat));
        assert(dec_words(d.drop_last()) =~= Seq::<Seq<char>>::empty());
        assert(Seq::<char>::empty() + dec_chars(d[0] as nat) =~= dec_chars(d[0] as nat));
    } else {
        let d2 = d.drop_last();
        lemma_split_fold_text(d2);
        lemma_dec_chars(d2.last() as nat);
        let p = text_of(d2) + seq![' '];
        assert(p.drop_last() =~= text_of(d2));
        assert(split_fold(p) == (dec_words(d2.drop_last()).push(dec_chars(d2.last() as nat)), Seq::<char>::empty()));
        lemma_split_fold_word(p, dec_chars(d.last() as nat));
        assert(dec_words(d2.drop_last()).push(dec_chars(d2.last() as nat)) =~= dec_words(d2));
        assert(Seq::<char>::empty() + dec_chars(d.last() as nat) =~= dec_chars(d.last() as nat));
    }
}

proof fn lemma_parse_dec_words(d: Seq<u16>)
    ensures
        parse_words(dec_words(d)) == Some(d),
    decreases d.len(),
{
    if d.len() > 0 {
        lemma_parse_dec_words(d.drop_last());
        assert(dec_words(d).drop_last() =~= dec_words(d.drop_last()));
        let n = d.last() as nat;
        lemma_dec_chars(n);
        assert(is_digit(dec_chars(n)[0]));
        assert(parse_u16(dec_chars(n)) == Some(d.last()));
        assert(d.drop_last().push(d.last()) =~= d);
    } else {
        assert(dec_words(d) =~= Seq::<Seq<char>>::empty());
        assert(d =~= Seq::<u16>::empty());
    }
}

/// Reading back the plain-text encoding of words gives the words.
pub proof fn lemma_from_text_to_text(d: Seq<u16>)
    ensures
        parse_words(split_ws(text_of(d))) == Some(d),
{
    if d.len() == 0 {
        assert(split_ws(text_of(d)) =~= Seq::<Seq<char>>::empty());
        assert(d =~= Seq::<u16>::empty());
    } else {
        lemma_split_fold_text(d);
        lemma_dec_chars(d.last() as nat);
        assert(dec_words(d.drop_last()).push(dec_chars(d.last() as nat)) =~= dec_words(d));
    }
    lemma_parse_dec_words(d);
}

#[derive(Clone, Copy, Debug, PartialEq, Eq, Structural)]
pub enum InputFileType {
    Sublang,
    Plaintext,
    Binary,
}

#[derive(Clone, Copy, Debug, PartialEq, Eq, Structural)]
pub enum OutputFileType {
    Plaintext,
    Binary,
}

/// A file extension as the assembler reads it: lower-cased and trimmed.
pub open spec fn normalized(value: Seq<char>) -> Seq<char> {
    trim_spec(lowercase(value))
}

/// An ASCII file extension lower-cased (`A` to `Z` only) and trimmed.
pub open spec fn ascii_normalized(value: Seq<char>) -> Seq<char> {
    trim_spec(value.map_values(|c: char| ascii_lower(c)))
}

/// Lower-cases and trims a file extension.
fn normalize(value: &str) -> (res: Vec<char>)
    ensures
        res@ == normalized(value@),
        all_ascii(value@) ==> normalized(value@) == ascii_normalized(value@),
{
    let lower = to_lowercase(value);
    let chars = crate::text::chars_of(lower.as_str());
    trim_chars(&chars)
}

pub open spec fn input_file_type_spec(value: Seq<char>) -> Option<InputFileType> {
    let n = normalized(value);
    if n == "sbl"@ {
        Some(InputFileType::Sublang)
    } else if n == "sblx"@ {
        Some(InputFileType::Plaintext)
    } else if n == "bin"@ {
        Some(InputFileType::Binary)
    } else {
        None
    }
}

pub open spec fn output_file_type_spec(value: Seq<char>) -> Option<OutputFileType> {
    let n = normalized(value);
    if n == "sblx"@ {
        Some(OutputFileType::Plaintext)
    } else if n == "bin"@ {
        Some(OutputFileType::Binary)
    } else {
        None
    }
}

impl InputFileType {
    /// The input type of a file extension, case-insensitively.
    pub fn from_str(value: &str) -> (res: Option<Self>)
        ensures
            res == input_file_type_spec(value@),
            all_ascii(value@) ==> normalized(value@) == ascii_normalized(value@),
    {
        let n = normalize(value);
        if chars_eq_str(&n, "sbl") {
            Some(InputFileType::Sublang)
        } else if chars_eq_str(&n, "sblx") {
            Some(InputFileType::Plaintext)
        } else if chars_eq_str(&n, "bin") {
            Some(InputFileType::Binary)
        } else {
            None
        }
    }
}

impl OutputFileType {
    pub fn extension(&self) -> (res: String)
        ensures
            res@ == match self {
                OutputFileType::Plaintext => "sblx"@,
                OutputFileType::Binary => "bin"@,
            },
    {
        match self {
            OutputFileType::Plaintext => "sblx",
            OutputFileType::Binary => "bin",
        }.to_owned()
    }

    /// The output type of a file extension, case-insensitively.
    pub fn from_str(value: &str) -> (res: Option<Self>)
        ensures
            res == output_file_type_spec(value@),
            all_ascii(value@) ==> normalized(value@) == ascii_normalized(value@),
    {
        let n = normalize(value);
        if chars_eq_str(&n, "sblx") {
            Some(OutputFileType::Plaintext)
        } else if chars_eq_str(&n, "bin") {
            Some(OutputFileType::Binary)
        } else {
            None
        }
    }
}

/// What `Path::extension` returns for a path, as characters.
pub uninterp spec fn path_extension(path: Seq<char>) -> Option<Seq<char>>;

/// What `Path::with_extension` returns for a path and an extension, as
/// characters.
pub uninterp spec fn path_with_extension(path: Seq<char>, ext: Seq<char>) -> Seq<char>;

/// What `Path::join` returns for a path and a part, as characters.
pub uninterp spec fn path_joined(path: Seq<char>, part: Seq<char>) -> Seq<char>;

/// `Path::extension`: the result is named, not stated.
#[verifier::external_body]
fn extension_of(path: &str) -> (res: Option<String>)
    ensures
        res matches Some(e) ==> path_extension(path@) == Some(e@),
        res matches Some(e) ==> exists|k: int|
            0 <= k && k + e@.len() <= path@.len() && #[trigger] path@.subrange(k, k + e@.len()) == e@,
        res is None ==> path_extension(path@) is None,
{
    std::path::Path::new(path).extension().map(|e| e.to_string_lossy().into_owned())
}

/// `Path::with_extension`: the result is named, not stated. It panics on
/// an extension that holds a path separator, which is left out.
#[verifier::external_body]
fn with_extension(path: &str, ext: &str) -> (res: String)
    requires
        !ext@.contains('/'),
        !ext@.contains('\\'),
    ensures
        res@ == path_with_extension(path@, ext@),
{
    std::path::Path::new(path).with_extension(ext).to_string_lossy().into_owned()
}

/// `Path::join`: the result is named, not stated.
#[verifier::external_body]
fn join_path(path: &str, part: &str) -> (res: String)
    ensures
        res@ == path_joined(path@, part@),
{
    std::path::Path::new(path).join(part).to_string_lossy().into_owned()
}

/// The file an include directive names: `name` taken relative to the
/// directory `base`. Where that is a directory (`is_dir`), a module, its
/// `Lib` file (`Lib.sbl`) is meant; a path without an extension gets
/// `.sbl`.
pub open spec fn include_path_spec(base: Seq<char>, name: Seq<char>, is_dir: bool) -> Seq<char> {
    let p = path_joined(base, name);
    let q = if is_dir { path_joined(p, "Lib"@) } else { p };
    if path_extension(q) is None {
        path_with_extension(q, "sbl"@)
    } else {
        q
    }
}

/// The path of the file that an include directive names; `is_dir` tells
/// whether `base` joined with `name` is a directory.
pub fn include_path(base: &str, name: &str, is_dir: bool) -> (res: String)
    ensures
        res@ == include_path_spec(base@, name@, is_dir),
{
    let p = join_path(base, name);
    let q = if is_dir { join_path(p.as_str(), "Lib") } else { p };
    proof {
        reveal_strlit("Lib");
        reveal_strlit("sbl");
        assert(!"sbl"@.contains('/') && !"sbl"@.contains('\\')) by {
            assert(forall|i: int| 0 <= i < 3 ==> "sbl"@[i] != '/' && "sbl"@[i] != '\\');
        }
    }
    match extension_of(q.as_str()) {
        None => with_extension(q.as_str(), "sbl"),
        Some(_) => q,
    }
}


/// Where and how assembled memory is written.
#[derive(Debug)]
pub struct OutputFile {
    /// Example: .sblx, .bin, etc.
    pub file_type: OutputFileType,
    /// Example: ./folder/filename
    pub file_base: String,
}

impl PartialEq for OutputFile {
    fn eq(&self, other: &Self) -> (res: bool) {
        self.file_type == other.file_type && self.file_base == other.file_base
    }
}

impl vstd::std_specs::cmp::PartialEqSpecImpl for OutputFile {
    open spec fn obeys_eq_spec() -> bool {
        true
    }

    open spec fn eq_spec(&self, other: &Self) -> bool {
        self.file_type == other.file_type && self.file_base@ == other.file_base@
    }
}

/// The output file for the `--output` argument: the type and the path
/// without extension, or `None` when there is no output.
pub open spec fn output_file_spec(argument: Option<Option<Seq<char>>>, module_name: Seq<char>) -> Option<
    (OutputFileType, Seq<char>),
> {
    match argument {
        None => None,
        Some(None) => Some((OutputFileType::Binary, module_name)),
        Some(Some(arg)) => {
            if let Some(t) = output_file_type_spec(arg) {
                Some((t, module_name))
            } else if path_extension(arg) is Some && output_file_type_spec(
                path_extension(arg)->0,
            ) is Some {
                Some(
                    (
                        output_file_type_spec(path_extension(arg)->0)->0,
                        path_with_extension(arg, Seq::empty()),
                    ),
                )
            } else {
                Some((OutputFileType::Binary, arg))
            }
        },
    }
}

impl OutputFile {
    /// The argument given can be of four types:
    ///
    /// * None, in which case None is returned
    /// * Only a filetype, like 'sblx' or 'bin', the file will become module_name.filetype
    /// * Only a path without extension, like ./my_folder/my_file, the file will become path_given.bin
    /// * A path with extension.
    pub fn new(argument: &Option<Option<String>>, module_name: String) -> (res: Option<Self>)
        ensures
            ({
                let arg = match argument {
                    None => None,
                    Some(None) => Some(None),
                    Some(Some(s)) => Some(Some(s@)),
                };
                match (res, output_file_spec(arg, module_name@)) {
                    (None, None) => true,
                    (Some(f), Some((t, base))) => f.file_type == t && f.file_base@ == base,
                    _ => false,
                }
            }),
            match argument {
                Some(Some(a)) => all_ascii(a@) ==> {
                    &&& normalized(a@) == ascii_normalized(a@)
                    &&& (output_file_type_spec(a@) is None && path_extension(a@) is Some)
                        ==> normalized(path_extension(a@)->0) == ascii_normalized(
                        path_extension(a@)->0,
                    )
                },
                _ => true,
            },
    {
        let argument = match argument {
            None => {
                return None;
            },
            Some(a) => a,
        };
        let argument = match argument {
            Some(arg) => arg,
            None => {
                // No name or file type was given
                return Some(OutputFile { file_type: OutputFileType::Binary, file_base: module_name });
            },
        };
        // The argument is only a file type
        if let Some(file_type) = OutputFileType::from_str(argument.as_str()) {
            return Some(OutputFile { file_type, file_base: module_name });
        }
        // File + file type
        if let Some(ext) = extension_of(argument.as_str()) {
            proof {
                if all_ascii(argument@) {
                    let k = choose|k: int|
                        0 <= k && k + ext@.len() <= argument@.len() && #[trigger] argument@.subrange(
                            k,
                            k + ext@.len(),
                        ) == ext@;
                    assert forall|i: int| 0 <= i < ext@.len() implies #[trigger] ext@[i] <= '\u{7f}' by {
                        assert(ext@[i] == argument@.subrange(k, k + ext@.len())[i]);
                        assert(argument@[k + i] <= '\u{7f}');
                    }
                }
            }
            if let Some(file_type) = OutputFileType::from_str(ext.as_str()) {
                proof {
                    reveal_strlit("");
                    assert(""@ =~= Seq::<char>::empty());
                }
                let base = with_extension(argument.as_str(), "");
                return Some(OutputFile { file_base: base, file_type });
            }
        }
        // File only
        Some(OutputFile { file_type: OutputFileType::Binary, file_base: argument.clone() })
    }
}

} // verus!
