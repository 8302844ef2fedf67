//! Lengths in bytes: how long a text is in UTF-8, and how much of it fits a number of bytes.

use vstd::prelude::*;
use vstd::utf8::encode_scalar;
use vstd::utf8::encode_utf8;

verus! {

/// The number of bytes that a character takes in UTF-8.
pub open spec fn width(c: char) -> nat {
    let n = c as u32;
    if n <= 0x7F {
        1
    } else if n <= 0x7FF {
        2
    } else if n <= 0xFFFF {
        3
    } else {
        4
    }
}

/// The number of bytes that a text takes in UTF-8.
pub open spec fn byte_len(s: Seq<char>) -> nat {
    encode_utf8(s).len()
}

/// The encoding of a character has its width.
proof fn lemma_width(c: char)
    ensures
        encode_scalar(c as u32).len() == width(c),
{
}

/// The length in bytes is the sum of the characters' widths.
pub proof fn lemma_byte_len_first(s: Seq<char>)
    requires
        s.len() > 0,
    ensures
        byte_len(s) == width(s[0]) + byte_len(s.skip(1)),
{
    assert(s.skip(1) =~= s.drop_first());
    lemma_width(s[0]);
}

/// The lengths of two texts add up.
pub proof fn lemma_byte_len_concat(a: Seq<char>, b: Seq<char>)
    ensures
        byte_len(a + b) == byte_len(a) + byte_len(b),
    decreases a.len(),
{
    if a.len() == 0 {
        assert(a + b =~= b);
    } else {
        lemma_byte_len_first(a);
        lemma_byte_len_first(a + b);
        assert((a + b).skip(1) =~= a.skip(1) + b);
        lemma_byte_len_concat(a.skip(1), b);
    }
}

/// A text of ASCII characters takes a byte for each.
pub proof fn lemma_byte_len_ascii(s: Seq<char>)
    requires
        forall|i: int| 0 <= i < s.len() ==> (#[trigger] s[i]) as u32 <= 0x7F,
    ensures
        byte_len(s) == s.len(),
    decreases s.len(),
{
    if s.len() > 0 {
        lemma_byte_len_first(s);
        assert forall|i: int| 0 <= i < s.skip(1).len() implies (#[trigger] s.skip(1)[i]) as u32 <= 0x7F by {
            assert(s.skip(1)[i] == s[i + 1]);
        }
        lemma_byte_len_ascii(s.skip(1));
    } else {
        assert(s =~= Seq::<char>::empty());
    }
}

/// No character takes more than four bytes.
pub proof fn lemma_byte_len_most(s: Seq<char>)
    ensures
        byte_len(s) <= 4 * s.len(),
    decreases s.len(),
{
    if s.len() > 0 {
        lemma_byte_len_first(s);
        lemma_byte_len_most(s.skip(1));
    }
}

/// How many characters at the front of `s` fit `max` bytes.
pub open spec fn fit(s: Seq<char>, max: nat) -> nat
    decreases s.len(),
{
    if s.len() == 0 || width(s[0]) > max {
        0
    } else {
        1 + fit(s.skip(1), (max - width(s[0])) as nat)
    }
}

/// The characters that fit are the longest prefix within the limit.
pub proof fn lemma_fit(s: Seq<char>, max: nat)
    ensures
        fit(s, max) <= s.len(),
        byte_len(s.take(fit(s, max) as int)) <= max,
        fit(s, max) < s.len() ==> byte_len(s.take(fit(s, max) as int + 1)) > max,
        byte_len(s) <= max ==> fit(s, max) == s.len(),
    decreases s.len(),
{
    let k = fit(s, max);
    if s.len() == 0 {
        assert(s.take(0) =~= Seq::<char>::empty());
    } else if width(s[0]) > max {
        assert(s.take(0) =~= Seq::<char>::empty());
        lemma_byte_len_first(s.take(1));
        lemma_byte_len_first(s);
    } else {
        let rest = (max - width(s[0])) as nat;
        lemma_fit(s.skip(1), rest);
        lemma_byte_len_first(s);
        lemma_byte_len_first(s.take(k as int));
        assert(s.take(k as int).skip(1) =~= s.skip(1).take(k - 1));
        if k < s.len() {
            lemma_byte_len_first(s.take(k as int + 1));
            assert(s.take(k as int + 1).skip(1) =~= s.skip(1).take(k as int));
        }
    }
}

/// The number of bytes that a text takes.
pub fn byte_length(s: &str) -> (r: usize)
    ensures
        r == byte_len(s@),
{
    s.as_bytes().len()
}

/// The width of a character.
pub fn char_width(c: char) -> (r: usize)
    ensures
        r == width(c),
{
    let n: u32 = c as u32;
    if n <= 0x7F {
        1
    } else if n <= 0x7FF {
        2
    } else if n <= 0xFFFF {
        3
    } else {
        4
    }
}

/// How many characters at the front of `s` fit `max` bytes.
pub fn fit_chars(s: &[char], max: usize) -> (r: usize)
    ensures
        r == fit(s@, max as nat),
        r <= s@.len(),
{
    let mut i: usize = 0;
    let mut left: usize = max;
    assert(s@.skip(0) =~= s@);
    while i < s.len() && char_width(s[i]) <= left
        invariant
            i <= s@.len(),
            i + fit(s@.skip(i as int), left as nat) == fit(s@, max as nat),
        decreases s@.len() - i,
    {
        assert(s@.skip(i as int).skip(1) =~= s@.skip(i + 1));
        left = left - char_width(s[i]);
        i += 1;
    }
    i
}

} // verus!
