//! Small helpers: digit grouping and a cursor over a vector.
use vstd::prelude::*;
use crate::text::{chars_of, string_from_chars};

verus! {

/// The number of bytes of a character in UTF-8.
pub open spec fn utf8_len(c: char) -> nat {
    if (c as u32) < 0x80 {
        1
    } else if (c as u32) < 0x800 {
        2
    } else if (c as u32) < 0x10000 {
        3
    } else {
        4
    }
}

/// The byte offset of the `i`th character in the UTF-8 encoding of `s`.
pub open spec fn byte_offset(s: Seq<char>, i: int) -> nat
    decreases i,
{
    if i <= 0 || i > s.len() {
        0
    } else {
        byte_offset(s, i - 1) + utf8_len(s[i - 1])
    }
}

/// The length of `s` in UTF-8 bytes.
pub open spec fn total_bytes(s: Seq<char>) -> nat {
    byte_offset(s, s.len() as int)
}

/// A comma goes before the `i`th character: it starts a group of three
/// bytes counted from the end, and is not the first.
pub open spec fn comma_before(s: Seq<char>, i: int) -> bool {
    0 < byte_offset(s, i) && (total_bytes(s) - byte_offset(s, i)) % 3 == 0
}

/// Every group boundary (a multiple of three bytes from the end) falls
/// between two characters, so that each group is valid text.
pub open spec fn groups_split_chars(s: Seq<char>) -> bool {
    forall|p: int|
        0 < p < total_bytes(s) && (total_bytes(s) - p) % 3 == 0 ==> #[trigger] char_boundary(s, p)
}

/// A character of `s` starts at byte `p`, or `p` is the end.
pub open spec fn char_boundary(s: Seq<char>, p: int) -> bool {
    exists|i: int| 0 <= i <= s.len() && #[trigger] byte_offset(s, i) == p
}

/// The first `n` characters of `s` with the group commas.
pub open spec fn with_commas(s: Seq<char>, n: int) -> Seq<char>
    decreases n,
{
    if n <= 0 || n > s.len() {
        Seq::empty()
    } else {
        with_commas(s, n - 1) + if comma_before(s, n - 1) {
            seq![',', s[n - 1]]
        } else {
            seq![s[n - 1]]
        }
    }
}

fn utf8_width(c: char) -> (res: u128)
    ensures
        res == utf8_len(c),
{
    let code = c as u32;
    if code < 0x80 {
        1
    } else if code < 0x800 {
        2
    } else if code < 0x10000 {
        3
    } else {
        4
    }
}

proof fn lemma_byte_offset_bound(s: Seq<char>, i: int)
    requires
        0 <= i <= s.len(),
    ensures
        byte_offset(s, i) <= 4 * i,
    decreases i,
{
    if i > 0 {
        lemma_byte_offset_bound(s, i - 1);
    }
}

/// Splits a number's digits into groups of three from the right, joined by
/// commas: `1234567` becomes `1,234,567`.
pub fn with_thousands(s: String) -> (res: String)
    requires
        groups_split_chars(s@),
    ensures
        res@ == with_commas(s@, s@.len() as int),
{
    let c = chars_of(s.as_str());
    let ghost v = c@;
    let mut total: u128 = 0;
    let mut i: usize = 0;
    while i < c.len()
        invariant
            v == c@,
            i <= c.len(),
            total == byte_offset(v, i as int),
        decreases c.len() - i,
    {
        proof {
            lemma_byte_offset_bound(v, i as int);
        }
        total = total + utf8_width(c[i]);
        i += 1;
    }
    let mut out: Vec<char> = Vec::new();
    let mut offset: u128 = 0;
    let mut j: usize = 0;
    assert(out@ =~= with_commas(v, 0));
    while j < c.len()
        invariant
            v == c@,
            j <= c.len(),
            total == total_bytes(v),
            offset == byte_offset(v, j as int),
            out@ == with_commas(v, j as int),
        decreases c.len() - j,
    {
        proof {
            lemma_byte_offset_bound(v, j as int);
            lemma_byte_offset_bound(v, v.len() as int);
            lemma_byte_offset_mono(v, j as int, v.len() as int);
        }
        if 0 < offset && (total - offset) % 3 == 0 {
            out.push(',');
        }
        out.push(c[j]);
        offset = offset + utf8_width(c[j]);
        j += 1;
        assert(out@ =~= with_commas(v, j as int));
    }
    string_from_chars(out.as_slice())
}

proof fn lemma_byte_offset_mono(s: Seq<char>, i: int, j: int)
    requires
        0 <= i <= j <= s.len(),
    ensures
        byte_offset(s, i) <= byte_offset(s, j),
    decreases j - i,
{
    if i < j {
        lemma_byte_offset_mono(s, i, j - 1);
    }
}

/// A cursor over the items of a vector.
pub struct IterVec<'a, T> {
    pub vec: &'a Vec<T>,
    pub index: usize,
}

impl<'a, T> IterVec<'a, T> {
    /// A cursor at the first item.
    pub fn new(vec: &'a Vec<T>) -> (res: Self)
        ensures
            res.vec@ == vec@,
            res.index == 0,
    {
        IterVec { vec, index: 0 }
    }

    /// The item at the cursor.
    pub fn current(&self) -> (res: &T)
        requires
            self.index < self.vec@.len(),
        ensures
            *res == self.vec@[self.index as int],
    {
        &self.vec[self.index]
    }

    /// The item at the cursor; the cursor moves past it.
    pub fn consume(&mut self) -> (res: &'a T)
        requires
            old(self).index < old(self).vec@.len(),
        ensures
            *res == old(self).vec@[old(self).index as int],
            final(self).index == old(self).index + 1,
            final(self).vec == old(self).vec,
    {
        let v: &'a Vec<T> = self.vec;
        let n = v.len();
        self.index += 1;
        &v[self.index - 1]
    }

    /// The item `offset` places from the cursor.
    pub fn get(&self, offset: i32) -> (res: &T)
        requires
            self.index <= i32::MAX,
            0 <= self.index + offset < self.vec@.len(),
            self.index + offset <= i32::MAX,
        ensures
            *res == self.vec@[self.index + offset],
    {
        let k = (self.index as i32 + offset) as usize;
        &self.vec[k]
    }

    /// The cursor is past the last item.
    pub fn finished(&self) -> (res: bool)
        ensures
            res == (self.index >= self.vec@.len()),
    {
        self.index >= self.vec.len()
    }

    /// The number of items.
    pub fn len(&self) -> (res: usize)
        ensures
            res == self.vec@.len(),
    {
        self.vec.len()
    }

    /// There are no items.
    pub fn is_empty(&self) -> (res: bool)
        ensures
            res == (self.vec@.len() == 0),
    {
        self.vec.len() == 0
    }

    /// The position of the cursor.
    pub fn current_index(&self) -> (res: usize)
        ensures
            res == self.index,
    {
        self.index
    }
}

/// The characters of `s` other than commas.
pub open spec fn without_commas(s: Seq<char>) -> Seq<char> {
    s.filter(|c: char| c != ',')
}

proof fn lemma_without_commas_prefix(s: Seq<char>, n: int)
    requires
        0 <= n <= s.len(),
        !s.contains(','),
    ensures
        without_commas(with_commas(s, n)) == s.take(n),
    decreases n,
{
    let pred = |c: char| c != ',';
    if n == 0 {
        assert(with_commas(s, 0) =~= Seq::<char>::empty());
        assert(Seq::<char>::empty().filter(pred) =~= Seq::<char>::empty());
        assert(s.take(0) =~= Seq::<char>::empty());
    } else {
        lemma_without_commas_prefix(s, n - 1);
        let piece = if comma_before(s, n - 1) {
            seq![',', s[n - 1]]
        } else {
            seq![s[n - 1]]
        };
        Seq::filter_distributes_over_add(with_commas(s, n - 1), piece, pred);
        assert(s[n - 1] != ',') by {
            if s[n - 1] == ',' {
                assert(s.contains(','));
            }
        }
        if comma_before(s, n - 1) {
            assert(seq![',', s[n - 1]] =~= seq![','] + seq![s[n - 1]]);
            Seq::filter_distributes_over_add(seq![','], seq![s[n - 1]], pred);
            reveal_with_fuel(Seq::filter, 2);
            assert(seq![','].filter(pred) =~= Seq::<char>::empty());
            assert(seq![s[n - 1]].filter(pred) =~= seq![s[n - 1]]);
        } else {
            reveal_with_fuel(Seq::filter, 2);
            assert(seq![s[n - 1]].filter(pred) =~= seq![s[n - 1]]);
        }
        assert(s.take(n - 1) + seq![s[n - 1]] =~= s.take(n));
    }
}

/// Dropping the commas of a grouped number gives the number back.
pub proof fn lemma_with_thousands_keeps_digits(s: Seq<char>)
    requires
        !s.contains(','),
    ensures
        without_commas(with_commas(s, s.len() as int)) == s,
{
    lemma_without_commas_prefix(s, s.len() as int);
    assert(s.take(s.len() as int) =~= s);
}

} // verus!
