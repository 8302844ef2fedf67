//! Numbers as text.

use crate::text::chars_of;
use vstd::prelude::*;

verus! {

/// The decimal digit of `d`.
pub open spec fn digit(d: nat) -> char {
    (48 + d) as char
}

/// The decimal digits of `n`, without leading zeros.
pub open spec fn dec(n: nat) -> Seq<char>
    decreases n,
{
    if n < 10 {
        seq![digit(n)]
    } else {
        dec(n / 10).push(digit(n % 10))
    }
}

/// The number with a one and `k` zeros.
pub open spec fn pow10(k: nat) -> nat
    decreases k,
{
    if k == 0 {
        1
    } else {
        10 * pow10((k - 1) as nat)
    }
}

/// A number below that with `k` zeros has at most `k` digits.
pub proof fn lemma_dec_digits(n: nat, k: nat)
    requires
        n < pow10(k),
        k > 0,
    ensures
        1 <= dec(n).len() <= k,
        forall|i: int| 0 <= i < dec(n).len() ==> '0' <= #[trigger] dec(n)[i] <= '9',
    decreases k,
{
    if n >= 10 {
        assert(k > 1) by {
            reveal_with_fuel(pow10, 2);
        }
        lemma_dec_digits(n / 10, (k - 1) as nat);
    }
}

/// `s` with copies of `c` before it up to `width` characters.
pub open spec fn pad_left(s: Seq<char>, width: nat, c: char) -> Seq<char> {
    if s.len() >= width {
        s
    } else {
        Seq::new((width - s.len()) as nat, |i: int| c) + s
    }
}

/// Appends the decimal digits of `n`.
pub fn push_dec(out: &mut String, n: u64)
    ensures
        final(out)@ == old(out)@ + dec(n as nat),
    decreases n,
{
    if n >= 10 {
        push_dec(out, n / 10);
        let d: u8 = 48u8 + (n % 10) as u8;
        out.push(d as char);
        assert(out@ =~= old(out)@ + dec(n as nat));
    } else {
        let d: u8 = 48u8 + n as u8;
        out.push(d as char);
        assert(out@ =~= old(out)@ + dec(n as nat));
    }
}

/// The decimal digits of `n`.
pub fn dec_string(n: u64) -> (r: String)
    ensures
        r@ == dec(n as nat),
{
    let mut out = String::new();
    push_dec(&mut out, n);
    assert(out@ =~= dec(n as nat));
    out
}

/// A whole number in decimal.
pub open spec fn int_text(n: int) -> Seq<char> {
    if n < 0 {
        "-"@ + dec((-n) as nat)
    } else {
        dec(n as nat)
    }
}

/// A whole number in decimal.
pub fn int_string(n: i32) -> (r: String)
    ensures
        r@ == int_text(n as int),
{
    if n < 0 {
        let m: u64 = (-(n as i64)) as u64;
        "-".to_owned().concat(dec_string(m).as_str())
    } else {
        dec_string(n as u64)
    }
}

/// The text padded on the left to `width` characters.
pub fn pad_left_str(s: &str, width: usize, c: char) -> (r: String)
    ensures
        r@ == pad_left(s@, width as nat, c),
{
    let n = s.unicode_len();
    if n >= width {
        return s.to_owned();
    }
    let mut out = String::new();
    let mut i: usize = n;
    while i < width
        invariant
            n <= i <= width,
            out@ == Seq::new((i - n) as nat, |j: int| c),
        decreases width - i,
    {
        out.push(c);
        assert(out@ =~= Seq::new((i + 1 - n) as nat, |j: int| c));
        i += 1;
    }
    out.append(s);
    out
}

/// The lower-case hexadecimal digit of `d`.
pub open spec fn hex_digit(d: nat) -> char {
    if d < 10 {
        (48 + d) as char
    } else {
        (87 + d) as char
    }
}

/// The lower-case hexadecimal digits of `n`, without leading zeros.
pub open spec fn hex(n: nat) -> Seq<char>
    decreases n,
{
    if n < 16 {
        seq![hex_digit(n)]
    } else {
        hex(n / 16).push(hex_digit(n % 16))
    }
}

/// The lower-case hexadecimal digit of `d`.
pub fn hex_char(d: u8) -> (r: char)
    requires
        d < 16,
    ensures
        r == hex_digit(d as nat),
{
    if d < 10 {
        (48u8 + d) as char
    } else {
        (87u8 + d) as char
    }
}

/// Appends the hexadecimal digits of `n`.
pub fn push_hex(out: &mut String, n: u64)
    ensures
        final(out)@ == old(out)@ + hex(n as nat),
    decreases n,
{
    if n >= 16 {
        push_hex(out, n / 16);
        out.push(hex_char((n % 16) as u8));
    } else {
        out.push(hex_char(n as u8));
    }
    assert(out@ =~= old(out)@ + hex(n as nat));
}

/// Two hexadecimal digits for each byte.
pub open spec fn hex_bytes(b: Seq<u8>) -> Seq<char>
    decreases b.len(),
{
    if b.len() == 0 {
        Seq::empty()
    } else {
        hex_bytes(b.drop_last()).push(hex_digit((b.last() / 16) as nat)).push(
            hex_digit((b.last() % 16) as nat),
        )
    }
}

/// Two hexadecimal digits for each byte.
pub fn hex_of_bytes(b: &[u8]) -> (r: String)
    ensures
        r@ == hex_bytes(b@),
{
    let mut out = String::new();
    let mut i: usize = 0;
    while i < b.len()
        invariant
            i <= b@.len(),
            out@ == hex_bytes(b@.take(i as int)),
        decreases b@.len() - i,
    {
        assert(b@.take(i + 1).drop_last() =~= b@.take(i as int));
        out.push(hex_char(b[i] / 16));
        out.push(hex_char(b[i] % 16));
        i += 1;
    }
    assert(b@.take(b@.len() as int) =~= b@);
    out
}

/// The text is one or more decimal digits.
pub open spec fn all_digits(s: Seq<char>) -> bool {
    s.len() > 0 && forall|i: int| 0 <= i < s.len() ==> '0' <= #[trigger] s[i] <= '9'
}

/// The number that a row of decimal digits stands for.
pub open spec fn dec_value(s: Seq<char>) -> nat
    decreases s.len(),
{
    if s.len() == 0 {
        0
    } else {
        10 * dec_value(s.drop_last()) + (s.last() as int - 48) as nat
    }
}

/// The digits of a row without a leading plus sign.
pub open spec fn after_plus(s: Seq<char>) -> Seq<char> {
    if s.len() > 1 && s[0] == '+' {
        s.skip(1)
    } else {
        s
    }
}

/// The number that `s` spells in decimal, with an optional plus sign, when it does not exceed
/// `max`.
pub open spec fn parse_dec(s: Seq<char>, max: nat) -> Option<nat> {
    let d = after_plus(s);
    if all_digits(d) && dec_value(d) <= max {
        Some(dec_value(d))
    } else {
        None
    }
}

/// The values of longer rows are not smaller.
proof fn lemma_dec_value_mono(s: Seq<char>, k: int)
    requires
        0 <= k <= s.len(),
    ensures
        dec_value(s.take(k)) <= dec_value(s),
    decreases s.len() - k,
{
    if k == s.len() {
        assert(s.take(k) =~= s);
    } else {
        lemma_dec_value_mono(s, k + 1);
        assert(s.take(k + 1).drop_last() =~= s.take(k));
    }
}

/// The number that `s` spells in decimal, when it fits 64 bits and does not exceed `max`.
pub fn parse_u64_upto(s: &str, max: u64) -> (r: Option<u64>)
    ensures
        match r {
            Some(n) => parse_dec(s@, max as nat) == Some(n as nat),
            None => parse_dec(s@, max as nat) is None,
        },
{
    let a = chars_of(s);
    let mut i: usize = 0;
    if a.len() > 1 && a[0] == '+' {
        i = 1;
    }
    let ghost d = after_plus(s@);
    let ghost start = i as int;
    if a.len() == i {
        return None;
    }
    let mut n: u64 = 0;
    assert(d.take(0) =~= Seq::<char>::empty());
    while i < a.len()
        invariant
            a@ == s@,
            start <= i <= a@.len(),
            start == 0 || start == 1,
            d == s@.skip(start),
            d == after_plus(s@),
            n == dec_value(d.take(i - start)),
            n <= max,
            forall|j: int| 0 <= j < i - start ==> '0' <= #[trigger] d[j] <= '9',
        decreases a@.len() - i,
    {
        let c = a[i];
        assert(c == d[i - start]);
        if c < '0' || c > '9' {
            return None;
        }
        let v: u64 = (c as u32 - 48) as u64;
        assert(d.take(i - start + 1).drop_last() =~= d.take(i - start));
        proof {
            lemma_dec_value_mono(d, i - start + 1);
        }
        if n > max / 10 || 10 * n > max - v.min(max) || v > max {
            assert(dec_value(d.take(i - start + 1)) > max);
            return None;
        }
        n = 10 * n + v;
        i += 1;
    }
    assert(d.take(i - start) =~= d);
    Some(n)
}

/// The decimal digits of a number stand for it, and none of them is an idle zero.
pub proof fn law_dec_stands_for_number(n: nat)
    ensures
        dec_value(dec(n)) == n,
        all_digits(dec(n)),
        dec(n).len() > 1 ==> dec(n)[0] != '0',
        n > 0 ==> dec(n)[0] != '0',
        dec(n).last() as int == 48 + n % 10,
    decreases n,
{
    if n >= 10 {
        law_dec_stands_for_number(n / 10);
        assert(dec(n).drop_last() =~= dec(n / 10));
        assert(dec(n)[0] == dec(n / 10)[0]);
    } else {
        assert(dec(n).drop_last() =~= Seq::<char>::empty());
        assert(dec_value(dec(n).drop_last()) == 0);
    }
}

/// The value of digits is ten times that of all but the last, and the last.
pub proof fn law_dec_value(s: Seq<char>, c: char)
    requires
        '0' <= c <= '9',
    ensures
        dec_value(s.push(c)) == 10 * dec_value(s) + (c as int - 48),
        dec_value(Seq::empty()) == 0,
{
    assert(s.push(c).drop_last() =~= s);
}

/// A number is read from its digits, perhaps behind a plus sign, where it is not beyond the limit; from nothing
/// else.
pub proof fn law_number_read(n: nat, max: nat, s: Seq<char>)
    ensures
        n <= max ==> parse_dec(dec(n), max) == Some(n) && parse_dec(seq!['+'] + dec(n), max) == Some(n),
        n > max ==> parse_dec(dec(n), max) is None,
        parse_dec(s, max) matches Some(k) ==> k <= max && s.len() > 0 && s.last() >= '0' && s.last() <= '9'
            && forall|i: int| 1 <= i < s.len() ==> '0' <= #[trigger] s[i] <= '9',
        parse_dec(s, max) matches Some(k) ==> k == dec_value(s) || (s[0] == '+' && k == dec_value(s.skip(1))),
{
    law_dec_stands_for_number(n);
    assert((seq!['+'] + dec(n)).skip(1) =~= dec(n));
    assert('0' <= dec(n)[0] <= '9');
    assert(after_plus(dec(n)) == dec(n));
    if let Some(k) = parse_dec(s, max) {
        let d = after_plus(s);
        assert forall|i: int| 1 <= i < s.len() implies '0' <= #[trigger] s[i] <= '9' by {
            if d != s {
                assert(d[i - 1] == s[i]);
            }
        }
        if d != s {
            assert(s.last() == d.last());
        }
        assert('0' <= d[d.len() - 1] <= '9');
    }
}

/// A text is padded on the left only, with as many characters as it lacks.
pub proof fn law_padded_left(s: Seq<char>, width: nat, c: char)
    ensures
        ({
            let p = pad_left(s, width, c);
            &&& p.len() == if s.len() < width {
                width
            } else {
                s.len()
            }
            &&& p.skip(p.len() - s.len()) == s
            &&& forall|i: int| 0 <= i < p.len() - s.len() ==> (#[trigger] p[i]) == c
        }),
{
    let p = pad_left(s, width, c);
    assert(p.skip(p.len() - s.len()) =~= s);
}

/// A negative number has a minus sign before the digits of its size.
pub proof fn law_signed_text(n: nat)
    ensures
        int_text(n as int) == dec(n),
        n > 0 ==> int_text(-n) == "-"@ + dec(n),
{
}

/// Every byte is two hexadecimal digits, the higher half first, the digits from ten on small letters.
pub proof fn law_hex_of_bytes(b: Seq<u8>, i: int)
    requires
        0 <= i < b.len(),
    ensures
        hex_bytes(b).len() == 2 * b.len(),
        hex_bytes(b)[2 * i] as int == (if b[i] / 16 < 10 {
            48 + b[i] / 16
        } else {
            87 + b[i] / 16
        }),
        hex_bytes(b)[2 * i + 1] as int == (if b[i] % 16 < 10 {
            48 + b[i] % 16
        } else {
            87 + b[i] % 16
        }),
    decreases b.len(),
{
    let init = b.drop_last();
    if i < b.len() - 1 {
        law_hex_of_bytes(init, i);
        assert(init[i] == b[i]);
    } else if b.len() > 1 {
        law_hex_of_bytes(init, 0);
    } else {
        assert(hex_bytes(init).len() == 0);
    }
}

} // verus!
