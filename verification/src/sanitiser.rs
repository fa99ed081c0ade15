//! Removes line comments from source text, byte by byte.
use vstd::prelude::*;
use vstd::string::StringSliceAdditionalSpecFns;
use crate::lexer::{crlf_to_lf, replace_crlf};
use crate::text::{chars_of, string_from_chars};

verus! {

/// Where the scan is: in code, a line comment, a string or a character
/// literal.
#[derive(Debug, PartialEq, Eq, Structural, Clone, Copy)]
pub enum SanitiseContext {
    Normal,
    LineComment,
    Str,
    Char,
}

/// The context after a byte; `None` for a line break inside a string,
/// which is refused.
pub open spec fn next_context(ctx: SanitiseContext, b: u8) -> Option<SanitiseContext> {
    match ctx {
        SanitiseContext::Normal => if b == 59 {
            Some(SanitiseContext::LineComment)
        } else if b == 39 {
            Some(SanitiseContext::Char)
        } else if b == 34 {
            Some(SanitiseContext::Str)
        } else {
            Some(SanitiseContext::Normal)
        },
        SanitiseContext::LineComment => if b == 10 {
            Some(SanitiseContext::Normal)
        } else {
            Some(SanitiseContext::LineComment)
        },
        SanitiseContext::Str => if b == 34 {
            Some(SanitiseContext::Normal)
        } else if b == 10 {
            None
        } else {
            Some(SanitiseContext::Str)
        },
        SanitiseContext::Char => if b == 39 {
            Some(SanitiseContext::Normal)
        } else {
            Some(SanitiseContext::Char)
        },
    }
}

/// The scan after the bytes `bs`: the context and the kept bytes, each as
/// the character of the same number; `None` once a string holds a line
/// break.
pub open spec fn sanitise_fold(bs: Seq<u8>) -> Option<(SanitiseContext, Seq<char>)>
    decreases bs.len(),
{
    if bs.len() == 0 {
        Some((SanitiseContext::Normal, Seq::empty()))
    } else {
        match sanitise_fold(bs.drop_last()) {
            None => None,
            Some((ctx, out)) => match next_context(ctx, bs.last()) {
                None => None,
                Some(ctx2) => if ctx2 == SanitiseContext::LineComment {
                    Some((ctx2, out))
                } else {
                    Some((ctx2, out.push(bs.last() as char)))
                },
            },
        }
    }
}

/// The bytes that `sanitise` scans: those of the text with Windows line
/// endings made `'\n'`.
pub open spec fn sanitise_bytes(text: Seq<char>) -> Seq<u8> {
    vstd::utf8::encode_utf8(crlf_to_lf(text))
}

/// Removes line comments (from `;` to the end of the line) outside strings
/// and character literals. Each byte that is kept becomes the character of
/// the same number.
pub fn sanitise(text: String) -> (res: String)
    requires
        sanitise_fold(sanitise_bytes(text@)) is Some,
    ensures
        res@ == sanitise_fold(sanitise_bytes(text@))->Some_0.1,
{
    let chars = chars_of(text.as_str());
    let cleaned = string_from_chars(replace_crlf(&chars).as_slice());
    let bytes = cleaned.as_str().as_bytes();
    let ghost bs = bytes@;
    assert(bs == sanitise_bytes(text@));
    let mut ctx = SanitiseContext::Normal;
    let mut out: Vec<char> = Vec::new();
    let mut i: usize = 0;
    assert(bs.take(0) =~= Seq::<u8>::empty());
    while i < bytes.len()
        invariant
            bs == bytes@,
            sanitise_fold(bs) is Some,
            i <= bytes.len(),
            sanitise_fold(bs.take(i as int)) == Some((ctx, out@)),
        decreases bytes.len() - i,
    {
        proof {
            assert(bs.take(i + 1).drop_last() =~= bs.take(i as int));
            lemma_fold_prefix(bs, i + 1);
        }
        let b = bytes[i];
        ctx = match ctx {
            SanitiseContext::Normal => if b == 59 {
                SanitiseContext::LineComment
            } else if b == 39 {
                SanitiseContext::Char
            } else if b == 34 {
                SanitiseContext::Str
            } else {
                SanitiseContext::Normal
            },
            SanitiseContext::LineComment => if b == 10 {
                SanitiseContext::Normal
            } else {
                SanitiseContext::LineComment
            },
            SanitiseContext::Str => if b == 34 {
                SanitiseContext::Normal
            } else {
                SanitiseContext::Str
            },
            SanitiseContext::Char => if b == 39 {
                SanitiseContext::Normal
            } else {
                SanitiseContext::Char
            },
        };
        if ctx != SanitiseContext::LineComment {
            out.push(b as char);
        }
        i += 1;
    }
    assert(bs.take(bytes.len() as int) =~= bs);
    string_from_chars(out.as_slice())
}

proof fn lemma_fold_prefix(bs: Seq<u8>, k: int)
    requires
        0 <= k <= bs.len(),
        sanitise_fold(bs) is Some,
    ensures
        sanitise_fold(bs.take(k)) is Some,
    decreases bs.len() - k,
{
    if k == bs.len() {
        assert(bs.take(k) =~= bs);
    } else {
        lemma_fold_prefix(bs, k + 1);
        assert(bs.take(k + 1).drop_last() =~= bs.take(k));
    }
}

} // verus!
