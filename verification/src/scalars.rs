//! Unicode scalar values: their length in UTF-8, and the passage between
//! strings and vectors of scalars.

use vstd::prelude::*;
use vstd::utf8::*;
use vstd::string::StringSliceAdditionalSpecFns;

verus! {

/// `String::push` appends one scalar value to the string.
pub assume_specification[ String::push ](s: &mut String, c: char)
    ensures
        final(s)@ == old(s)@.push(c),
;

/// `char::from_u32` gives the scalar value with the given number, and `None`
/// for a surrogate or a number above `0x10FFFF`.
pub assume_specification[ char::from_u32 ](v: u32) -> (r: Option<char>)
    ensures
        r == (if is_scalar(v) { Some(v as char) } else { None::<char> }),
;

/// The number of bytes that the scalar value takes in UTF-8.
pub open spec fn scalar_len(c: char) -> nat {
    let v = c as u32;
    if v < 0x80 {
        1
    } else if v < 0x800 {
        2
    } else if v < 0x10000 {
        3
    } else {
        4
    }
}

/// The number of bytes that the sequence of scalar values takes in UTF-8.
pub open spec fn utf8_len(s: Seq<char>) -> nat
    decreases s.len(),
{
    if s.len() == 0 {
        0
    } else {
        utf8_len(s.drop_last()) + scalar_len(s.last())
    }
}

/// The byte offset at which the scalar with index `k` starts in `s`.
pub open spec fn byte_offset(s: Seq<char>, k: int) -> nat {
    utf8_len(s.take(k))
}

/// One scalar alone takes its own number of bytes.
pub proof fn lemma_utf8_len_single(c: char)
    ensures
        utf8_len(seq![c]) == scalar_len(c),
{
    assert(seq![c].drop_last() =~= Seq::<char>::empty());
    assert(utf8_len(seq![c].drop_last()) == 0);
}

/// The offset behind a scalar is the offset before it and its length.
pub proof fn lemma_byte_offset_step(s: Seq<char>, k: int)
    requires
        0 <= k < s.len(),
    ensures
        byte_offset(s, k + 1) == byte_offset(s, k) + scalar_len(s[k]),
{
    assert(s.take(k + 1).drop_last() =~= s.take(k));
}

/// Offsets grow with the index, by at least one byte for each scalar, and
/// stay within the length of the whole.
pub proof fn lemma_byte_offset_monotonic(s: Seq<char>, i: int, j: int)
    requires
        0 <= i <= j <= s.len(),
    ensures
        byte_offset(s, i) + (j - i) <= byte_offset(s, j),
        byte_offset(s, j) <= utf8_len(s),
    decreases j - i,
{
    if i < j {
        lemma_byte_offset_step(s, j - 1);
        lemma_byte_offset_monotonic(s, i, j - 1);
    }
    lemma_byte_offset_bounded(s, j);
}

/// No offset exceeds the length of the whole.
pub proof fn lemma_byte_offset_bounded(s: Seq<char>, j: int)
    requires
        0 <= j <= s.len(),
    ensures
        byte_offset(s, j) <= utf8_len(s),
    decreases s.len() - j,
{
    if j < s.len() {
        lemma_byte_offset_step(s, j);
        lemma_byte_offset_bounded(s, j + 1);
    } else {
        assert(s.take(j) =~= s);
    }
}

/// The encoding of two sequences, one after the other, is the encoding of
/// the first followed by that of the second.
proof fn lemma_encode_concat(a: Seq<char>, b: Seq<char>)
    ensures
        encode_utf8(a + b) =~= encode_utf8(a) + encode_utf8(b),
    decreases a.len(),
{
    if a.len() == 0 {
        assert(a + b =~= b);
    } else {
        assert((a + b).drop_first() =~= a.drop_first() + b);
        lemma_encode_concat(a.drop_first(), b);
    }
}

/// The length defined here is the length of the UTF-8 encoding.
pub proof fn lemma_utf8_len_is_encoded_len(s: Seq<char>)
    ensures
        utf8_len(s) == encode_utf8(s).len(),
    decreases s.len(),
{
    if s.len() > 0 {
        let c = s.last();
        char_is_scalar(c);
        lemma_utf8_len_is_encoded_len(s.drop_last());
        lemma_encode_concat(s.drop_last(), seq![c]);
        assert(s.drop_last() + seq![c] =~= s);
        assert(seq![c].drop_first() =~= Seq::<char>::empty());
        assert(encode_utf8(seq![c]) =~= encode_scalar(c as u32)) by {
            reveal_with_fuel(encode_utf8, 2);
        }
    }
}

/// The number of bytes of one scalar value in UTF-8.
pub fn char_len(c: char) -> (n: usize)
    ensures
        n == scalar_len(c),
        1 <= n <= 4,
{
    let v = c as u32;
    if v < 0x80 {
        1
    } else if v < 0x800 {
        2
    } else if v < 0x10000 {
        3
    } else {
        4
    }
}

/// The scalar values of a string, in order.
pub fn chars_of(s: &str) -> (v: Vec<char>)
    ensures
        v@ == s@,
        utf8_len(v@) <= usize::MAX,
{
    let mut v: Vec<char> = Vec::new();
    for c in it: s.chars()
        invariant
            v@ == it.seq().take(it.index() as int),
            it.seq() == s@,
    {
        proof {
            assert(it.seq().take(it.index() + 1) =~= it.seq().take(it.index() as int).push(c));
        }
        v.push(c);
    }
    // the bytes of a string are counted by a `usize`
    let bytes: usize = s.as_bytes().len();
    proof {
        assert(s@.take(s@.len() as int) =~= s@);
        lemma_utf8_len_is_encoded_len(s@);
        assert(bytes == utf8_len(v@));
    }
    v
}

/// The string made of the scalars `v[from..to]`.
pub fn string_of(v: &Vec<char>, from: usize, to: usize) -> (s: String)
    requires
        from <= to <= v.len(),
    ensures
        s@ == v@.subrange(from as int, to as int),
{
    let mut s = String::new();
    let mut i: usize = from;
    while i < to
        invariant
            from <= i <= to <= v.len(),
            s@ == v@.subrange(from as int, i as int),
        decreases to - i,
    {
        s.push(v[i]);
        proof {
            assert(v@.subrange(from as int, i + 1) =~= v@.subrange(from as int, i as int).push(
                v@[i as int],
            ));
        }
        i += 1;
    }
    s
}

/// The byte offset at which the scalar with index `k` starts.
pub fn offset_of(v: &Vec<char>, k: usize) -> (n: usize)
    requires
        k <= v.len(),
        utf8_len(v@) <= usize::MAX,
    ensures
        n == byte_offset(v@, k as int),
{
    let mut n: usize = 0;
    let mut i: usize = 0;
    while i < k
        invariant
            i <= k <= v.len(),
            n == byte_offset(v@, i as int),
            utf8_len(v@) <= usize::MAX,
        decreases k - i,
    {
        proof {
            lemma_byte_offset_step(v@, i as int);
            lemma_byte_offset_monotonic(v@, i + 1, v@.len() as int);
        }
        n = n + char_len(v[i]);
        i += 1;
    }
    n
}

/// Whether `c` occurs in `set`.
pub fn contains_char(set: &str, c: char) -> (b: bool)
    ensures
        b == set@.contains(c),
{
    let mut found = false;
    for x in it: set.chars()
        invariant
            it.seq() == set@,
            found == it.seq().take(it.index() as int).contains(c),
    {
        proof {
            assert(it.seq().take(it.index() + 1) =~= it.seq().take(it.index() as int).push(x));
            let before = it.seq().take(it.index() as int);
            if before.contains(c) {
                let j = choose|j: int| 0 <= j < before.len() && before[j] == c;
                assert(before.push(x)[j] == c);
            }
            if x == c {
                assert(before.push(x)[before.len() as int] == c);
            }
        }
        if x == c {
            found = true;
        }
    }
    proof {
        assert(set@.take(set@.len() as int) =~= set@);
    }
    found
}

/// Whether the scalars of `v` are those of `text`.
pub fn same_text(v: &Vec<char>, text: &str) -> (b: bool)
    ensures
        b == (v@ == text@),
{
    let w = chars_of(text);
    if v.len() != w.len() {
        return false;
    }
    let mut i: usize = 0;
    while i < v.len()
        invariant
            i <= v.len(),
            v.len() == w.len(),
            w@ == text@,
            v@.take(i as int) == w@.take(i as int),
        decreases v.len() - i,
    {
        if v[i] != w[i] {
            assert(v@[i as int] != w@[i as int]);
            return false;
        }
        proof {
            assert(v@.take(i + 1) =~= v@.take(i as int).push(v@[i as int]));
            assert(w@.take(i + 1) =~= w@.take(i as int).push(w@[i as int]));
        }
        i += 1;
    }
    proof {
        assert(v@.take(v@.len() as int) =~= v@);
        assert(w@.take(w@.len() as int) =~= w@);
    }
    true
}

} // verus!
