//! Character-level helpers: UTF-8 byte lengths and character classes.

use vstd::prelude::*;
use vstd::utf8::*;

verus! {

/// Number of bytes that the UTF-8 encoding of `s` occupies.
pub open spec fn byte_len(s: Seq<char>) -> nat {
    encode_utf8(s).len()
}

/// The length in bytes of the encoding of a concatenation is the sum of the parts.
pub proof fn lemma_byte_len_concat(a: Seq<char>, b: Seq<char>)
    ensures
        byte_len(a + b) == byte_len(a) + byte_len(b),
    decreases a.len(),
{
    if a.len() == 0 {
        assert(a + b =~= b);
    } else {
        assert((a + b).drop_first() =~= a.drop_first() + b);
        lemma_byte_len_concat(a.drop_first(), b);
    }
}

/// The encoding of a single character.
pub proof fn lemma_byte_len_single(c: char)
    ensures
        byte_len(seq![c]) == encode_scalar(c as u32).len(),
        1 <= byte_len(seq![c]) <= 4,
{
    reveal_with_fuel(encode_utf8, 2);
    char_is_scalar(c);
    assert(seq![c].drop_first() =~= Seq::<char>::empty());
    assert(seq![c][0] == c);
    let e = encode_scalar(c as u32);
    assert(e + Seq::<u8>::empty() =~= e);
}

/// Number of bytes of the UTF-8 encoding of `c`.
pub fn char_utf8_len(c: char) -> (w: usize)
    ensures
        w == byte_len(seq![c]),
{
    proof {
        lemma_byte_len_single(c);
        char_is_scalar(c);
    }
    let u = c as u32;
    if u <= 0x7F {
        1
    } else if u <= 0x7FF {
        2
    } else if u <= 0xFFFF {
        3
    } else {
        4
    }
}

/// Splitting a sequence at `i` splits its encoding.
pub proof fn lemma_byte_len_split(s: Seq<char>, i: int, m: int)
    requires
        0 <= i,
        0 <= m,
        i + m <= s.len(),
    ensures
        byte_len(s.take(i + m)) == byte_len(s.take(i)) + byte_len(s.subrange(i, i + m)),
        byte_len(s.skip(i).take(m)) == byte_len(s.subrange(i, i + m)),
        byte_len(s.take(i + m)) <= byte_len(s),
{
    assert(s.take(i + m) =~= s.take(i) + s.subrange(i, i + m));
    assert(s.skip(i).take(m) =~= s.subrange(i, i + m));
    assert(s =~= s.take(i + m) + s.skip(i + m));
    lemma_byte_len_concat(s.take(i), s.subrange(i, i + m));
    lemma_byte_len_concat(s.take(i + m), s.skip(i + m));
}

/// The encoding of a range grows by the width of the next character.
pub proof fn lemma_byte_len_extend(s: Seq<char>, a: int, b: int)
    requires
        0 <= a <= b < s.len(),
    ensures
        byte_len(s.subrange(a, b + 1)) == byte_len(s.subrange(a, b)) + byte_len(seq![s[b]]),
        byte_len(s.subrange(a, b + 1)) <= byte_len(s),
{
    assert(s.subrange(a, b + 1) =~= s.subrange(a, b) + seq![s[b]]);
    lemma_byte_len_concat(s.subrange(a, b), seq![s[b]]);
    assert(s =~= s.take(a) + s.subrange(a, b + 1) + s.skip(b + 1));
    lemma_byte_len_concat(s.take(a) + s.subrange(a, b + 1), s.skip(b + 1));
    lemma_byte_len_concat(s.take(a), s.subrange(a, b + 1));
}

/// The characters of `s`, in order.
pub fn chars_of(s: &str) -> (v: Vec<char>)
    ensures
        v@ == s@,
{
    broadcast use vstd::string::group_string_axioms;

    let mut v: Vec<char> = Vec::new();
    for c in it: s.chars()
        invariant
            it.seq() == s@,
            v@ == it.seq().take(it.index()),
    {
        v.push(c);
        assert(it.seq().take(it.index() + 1) =~= it.seq().take(it.index()).push(c));
    }
    assert(s@.take(s@.len() as int) =~= s@);
    v
}

/// Number of bytes that the characters `cs[a..b]` take in UTF-8.
pub fn byte_len_of_range(cs: &Vec<char>, a: usize, b: usize) -> (r: usize)
    requires
        a <= b <= cs.len(),
        byte_len(cs@) <= usize::MAX,
    ensures
        r == byte_len(cs@.subrange(a as int, b as int)),
{
    let mut k = a;
    let mut r: usize = 0;
    assert(cs@.subrange(a as int, a as int) =~= Seq::<char>::empty());
    while k < b
        invariant
            a <= k <= b <= cs.len(),
            byte_len(cs@) <= usize::MAX,
            r == byte_len(cs@.subrange(a as int, k as int)),
        decreases b - k,
    {
        proof {
            lemma_byte_len_extend(cs@, a as int, k as int);
        }
        r = r + char_utf8_len(cs[k]);
        k = k + 1;
    }
    r
}

} // verus!
