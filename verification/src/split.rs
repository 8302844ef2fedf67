//! Trimming, splitting, joining and replacing.

use crate::text::{
    chars_of, contains, find, find_at, lemma_find_from, occurs_at, push_chars, string_of, texts, texts_push,
};
use vstd::prelude::*;
use vstd::slice::slice_subrange;

verus! {

broadcast use texts_push;

/// The characters with the Unicode `White_Space` property.
pub open spec fn is_space(c: char) -> bool {
    let n = c as int;
    ||| 9 <= n <= 13
    ||| n == 0x20
    ||| n == 0x85
    ||| n == 0xA0
    ||| n == 0x1680
    ||| 0x2000 <= n <= 0x200A
    ||| n == 0x2028
    ||| n == 0x2029
    ||| n == 0x202F
    ||| n == 0x205F
    ||| n == 0x3000
}

/// Whether the character is white space.
pub fn space(c: char) -> (r: bool)
    ensures
        r == is_space(c),
{
    let n: u32 = c as u32;
    (9 <= n && n <= 13) || n == 0x20 || n == 0x85 || n == 0xA0 || n == 0x1680
        || (0x2000 <= n && n <= 0x200A) || n == 0x2028 || n == 0x2029 || n == 0x202F
        || n == 0x205F || n == 0x3000
}

/// `s` without leading white space.
pub open spec fn trim_start(s: Seq<char>) -> Seq<char>
    decreases s.len(),
{
    if s.len() > 0 && is_space(s[0]) {
        trim_start(s.skip(1))
    } else {
        s
    }
}

/// `s` without trailing white space.
pub open spec fn trim_end(s: Seq<char>) -> Seq<char>
    decreases s.len(),
{
    if s.len() > 0 && is_space(s.last()) {
        trim_end(s.drop_last())
    } else {
        s
    }
}

/// `s` without white space at either end.
pub open spec fn trim(s: Seq<char>) -> Seq<char> {
    trim_end(trim_start(s))
}

/// `s` without leading white space.
pub fn trim_start_chars(s: &[char]) -> (r: &[char])
    ensures
        r@ == trim_start(s@),
{
    let mut i: usize = 0;
    assert(s@.skip(0) =~= s@);
    while i < s.len() && space(s[i])
        invariant
            i <= s@.len(),
            trim_start(s@) == trim_start(s@.skip(i as int)),
        decreases s@.len() - i,
    {
        assert(s@.skip(i as int).skip(1) =~= s@.skip(i + 1));
        i += 1;
    }
    let r = slice_subrange(s, i, s.len());
    assert(r@ =~= s@.skip(i as int));
    r
}

/// `s` without trailing white space.
pub fn trim_end_chars(s: &[char]) -> (r: &[char])
    ensures
        r@ == trim_end(s@),
{
    let mut n: usize = s.len();
    assert(s@.take(n as int) =~= s@);
    while n > 0 && space(s[n - 1])
        invariant
            n <= s@.len(),
            trim_end(s@) == trim_end(s@.take(n as int)),
        decreases n,
    {
        assert(s@.take(n as int).drop_last() =~= s@.take(n - 1));
        n -= 1;
    }
    let r = slice_subrange(s, 0, n);
    assert(r@ =~= s@.take(n as int));
    r
}

/// `s` without white space at either end.
pub fn trim_chars(s: &[char]) -> (r: &[char])
    ensures
        r@ == trim(s@),
{
    trim_end_chars(trim_start_chars(s))
}

/// `s` without white space at either end.
pub fn trim_str(s: &str) -> (r: String)
    ensures
        r@ == trim(s@),
{
    let a = chars_of(s);
    string_of(trim_chars(a.as_slice()))
}

/// `s` without trailing white space.
pub fn trim_end_str(s: &str) -> (r: String)
    ensures
        r@ == trim_end(s@),
{
    let a = chars_of(s);
    string_of(trim_end_chars(a.as_slice()))
}

/// The text is empty or white space throughout exactly when nothing is left after trimming.
pub open spec fn is_blank(s: Seq<char>) -> bool {
    trim(s).len() == 0
}

/// Whether the text is empty or white space throughout.
pub fn blank(s: &str) -> (r: bool)
    ensures
        r == is_blank(s@),
{
    let a = chars_of(s);
    trim_chars(a.as_slice()).len() == 0
}

// ---------------------------------------------------------------------------------------------
// Positions of a character
// ---------------------------------------------------------------------------------------------

/// The first position at or after `from` that holds `c`, or the length of `s`.
pub open spec fn pos_from(s: Seq<char>, c: char, from: int) -> int
    decreases s.len() - from,
{
    if from < 0 || from >= s.len() {
        s.len() as int
    } else if s[from] == c {
        from
    } else {
        pos_from(s, c, from + 1)
    }
}

/// The first position that holds `c`, or the length of `s`.
pub open spec fn pos(s: Seq<char>, c: char) -> int {
    pos_from(s, c, 0)
}

/// What `pos_from` says of the text.
pub proof fn lemma_pos_from(s: Seq<char>, c: char, from: int)
    requires
        0 <= from <= s.len(),
    ensures
        from <= pos_from(s, c, from) <= s.len(),
        forall|j: int| from <= j < pos_from(s, c, from) ==> s[j] != c,
        pos_from(s, c, from) < s.len() ==> s[pos_from(s, c, from)] == c,
    decreases s.len() - from,
{
    if from < s.len() && s[from] != c {
        lemma_pos_from(s, c, from + 1);
    }
}

/// The first position at or after `from` that holds `c`, or the length of `s`.
pub fn pos_at(s: &[char], c: char, from: usize) -> (r: usize)
    requires
        from <= s@.len(),
    ensures
        r == pos_from(s@, c, from as int),
        from <= r <= s@.len(),
{
    let mut i: usize = from;
    while i < s.len() && s[i] != c
        invariant
            from <= i <= s@.len(),
            pos_from(s@, c, from as int) == pos_from(s@, c, i as int),
        decreases s@.len() - i,
    {
        i += 1;
    }
    i
}

/// The last position before `upto` that holds `c`, or -1.
pub open spec fn last_pos_before(s: Seq<char>, c: char, upto: int) -> int
    decreases upto,
{
    if upto <= 0 || upto > s.len() {
        -1
    } else if s[upto - 1] == c {
        upto - 1
    } else {
        last_pos_before(s, c, upto - 1)
    }
}

/// The last position that holds `c`, or -1.
pub open spec fn last_pos(s: Seq<char>, c: char) -> int {
    last_pos_before(s, c, s.len() as int)
}

/// The last position that holds `c`.
pub fn last_pos_of(s: &[char], c: char) -> (r: Option<usize>)
    ensures
        match r {
            Some(k) => k < s@.len() && last_pos(s@, c) == k,
            None => last_pos(s@, c) == -1,
        },
{
    let mut n: usize = s.len();
    while n > 0
        invariant
            n <= s@.len(),
            last_pos(s@, c) == last_pos_before(s@, c, n as int),
        decreases n,
    {
        if s[n - 1] == c {
            return Some(n - 1);
        }
        n -= 1;
    }
    None
}

// ---------------------------------------------------------------------------------------------
// Splitting
// ---------------------------------------------------------------------------------------------

/// The pieces of `s` between the occurrences of `c`; a text without `c` is one piece.
pub open spec fn split_on(s: Seq<char>, c: char) -> Seq<Seq<char>>
    decreases s.len(),
{
    let k = pos(s, c);
    if k < 0 || k >= s.len() {
        seq![s]
    } else {
        seq![s.take(k)] + split_on(s.skip(k + 1), c)
    }
}

/// A line without the carriage return that ends it.
pub open spec fn strip_cr(s: Seq<char>) -> Seq<char> {
    if s.len() > 0 && s.last() == '\r' {
        s.drop_last()
    } else {
        s
    }
}

/// The lines of `s`: each ends at a line feed, which is dropped together with a carriage return
/// before it; what follows the last line feed is a line unless it is empty.
pub open spec fn lines(s: Seq<char>) -> Seq<Seq<char>>
    decreases s.len(),
{
    if s.len() == 0 {
        Seq::empty()
    } else {
        let k = pos(s, '\n');
        if k < 0 || k >= s.len() {
            seq![s]
        } else {
            seq![strip_cr(s.take(k))] + lines(s.skip(k + 1))
        }
    }
}

/// The first position that holds `c` stands, whatever is added to the text.
proof fn lemma_pos_added(a: Seq<char>, b: Seq<char>, c: char, from: int)
    requires
        0 <= from <= a.len(),
        pos_from(a, c, from) < a.len(),
    ensures
        pos_from(a + b, c, from) == pos_from(a, c, from),
    decreases a.len() - from,
{
    if from < a.len() && a[from] != c {
        lemma_pos_added(a, b, c, from + 1);
    }
}

/// The lines of a text whose last line is ended, and of what is added to it.
pub proof fn lemma_lines_added(a: Seq<char>, b: Seq<char>)
    requires
        a.len() == 0 || a.last() == '\n',
    ensures
        lines(a + b) == lines(a) + lines(b),
    decreases a.len(),
{
    if a.len() == 0 {
        assert(a + b =~= b);
        assert(lines(a) + lines(b) =~= lines(b));
    } else {
        let k = pos(a, '\n');
        lemma_pos_from(a, '\n', 0);
        assert(k < a.len());
        lemma_pos_added(a, b, '\n', 0);
        assert((a + b).take(k) =~= a.take(k));
        assert((a + b).skip(k + 1) =~= a.skip(k + 1) + b);
        lemma_lines_added(a.skip(k + 1), b);
        assert(lines(a + b) =~= lines(a) + lines(b));
    }
}

/// A line that is ended is one line.
pub proof fn lemma_one_line(s: Seq<char>)
    requires
        forall|i: int| 0 <= i < s.len() ==> (#[trigger] s[i]) != '\n' && s[i] != '\r',
    ensures
        lines(s.push('\n')) == seq![s],
{
    let t = s.push('\n');
    lemma_pos_from(t, '\n', 0);
    assert(t[s.len() as int] == '\n');
    let k = pos(t, '\n');
    if k < s.len() {
        assert(t[k] == s[k]);
    }
    assert(t.take(k) =~= s);
    assert(strip_cr(s) == s);
    assert(t.skip(k + 1) =~= Seq::<char>::empty());
    assert(lines(t.skip(k + 1)) =~= Seq::<Seq<char>>::empty());
    assert(lines(t) =~= seq![s]);
}

/// A text that begins with something else than white space is not blank.
pub proof fn lemma_not_blank(s: Seq<char>)
    requires
        s.len() > 0,
        !is_space(s[0]),
    ensures
        !is_blank(s),
{
    assert(trim_start(s) == s);
    lemma_trim_end_keeps_first(s);
}

proof fn lemma_trim_end_keeps_first(s: Seq<char>)
    requires
        s.len() > 0,
        !is_space(s[0]),
    ensures
        trim_end(s).len() > 0,
    decreases s.len(),
{
    if is_space(s.last()) {
        assert(s.len() > 1);
        assert(s.drop_last()[0] == s[0]);
        lemma_trim_end_keeps_first(s.drop_last());
    }
}

/// The first position at or after `from` that holds white space, or the length of `s`.
pub open spec fn space_from(s: Seq<char>, from: int) -> int
    decreases s.len() - from,
{
    if from < 0 || from >= s.len() {
        s.len() as int
    } else if is_space(s[from]) {
        from
    } else {
        space_from(s, from + 1)
    }
}

/// The length of a text from which leading white space is cut is not larger.
pub proof fn lemma_trim_start_len(s: Seq<char>)
    ensures
        trim_start(s).len() <= s.len(),
        trim_start(s).len() > 0 ==> !is_space(trim_start(s)[0]),
    decreases s.len(),
{
    if s.len() > 0 && is_space(s[0]) {
        lemma_trim_start_len(s.skip(1));
    }
}

/// The position of white space lies in the text or at its end.
pub proof fn lemma_space_from(s: Seq<char>, from: int)
    requires
        0 <= from <= s.len(),
    ensures
        from <= space_from(s, from) <= s.len(),
        from < s.len() && !is_space(s[from]) ==> space_from(s, from) > from,
        forall|j: int| from <= j < space_from(s, from) ==> !is_space(s[j]),
    decreases s.len() - from,
{
    if from < s.len() && !is_space(s[from]) {
        lemma_space_from(s, from + 1);
    }
}

/// The words of `s`: its longest runs without white space.
pub open spec fn words(s: Seq<char>) -> Seq<Seq<char>>
    decreases s.len(),
{
    let t = trim_start(s);
    if t.len() == 0 {
        Seq::empty()
    } else {
        let k = space_from(t, 0);
        proof {
            lemma_trim_start_len(s);
            lemma_space_from(t, 0);
        }
        if k <= 0 || t.skip(k).len() >= s.len() {
            Seq::empty()
        } else {
            seq![t.take(k)] + words(t.skip(k))
        }
    }
}

/// Splitting at the character `c`.
pub fn split_chars(s: &[char], c: char) -> (r: Vec<String>)
    ensures
        texts(r@) == split_on(s@, c),
        r@.len() >= 1,
{
    let mut out: Vec<String> = Vec::new();
    let mut i: usize = 0;
    assert(s@.skip(0) =~= s@);
    assert(texts(out@) + split_on(s@.skip(0), c) =~= split_on(s@, c));
    loop
        invariant
            i <= s@.len(),
            texts(out@) + split_on(s@.skip(i as int), c) == split_on(s@, c),
        decreases s@.len() - i,
    {
        let rest = slice_subrange(s, i, s.len());
        assert(rest@ =~= s@.skip(i as int));
        let k = pos_at(rest, c, 0);
        let piece = string_of(slice_subrange(rest, 0, k));
        let ghost before = texts(out@);
        out.push(piece);
        if k == rest.len() {
            assert(piece@ =~= rest@);
            assert(texts(out@) =~= before + seq![rest@]);
            return out;
        }
        assert(piece@ =~= rest@.take(k as int));
        assert(rest@.skip(k + 1) =~= s@.skip(i + k + 1));
        assert(texts(out@) + split_on(s@.skip(i + k + 1), c) =~= before + (seq![piece@] + split_on(
            rest@.skip(k + 1),
            c,
        )));
        i = i + k + 1;
    }
}

/// Splitting at the character `c`.
pub fn split_str(s: &str, c: char) -> (r: Vec<String>)
    ensures
        texts(r@) == split_on(s@, c),
        r@.len() >= 1,
{
    let a = chars_of(s);
    split_chars(a.as_slice(), c)
}

/// The lines of `s`.
pub fn split_lines(s: &str) -> (r: Vec<String>)
    ensures
        texts(r@) == lines(s@),
{
    let a = chars_of(s);
    let s_chars = a.as_slice();
    let mut out: Vec<String> = Vec::new();
    let mut i: usize = 0;
    assert(s@.skip(0) =~= s@);
    assert(texts(out@) + lines(s@.skip(0)) =~= lines(s@));
    while i < s_chars.len()
        invariant
            s_chars@ == s@,
            i <= s@.len(),
            texts(out@) + lines(s@.skip(i as int)) == lines(s@),
        decreases s@.len() - i,
    {
        let rest = slice_subrange(s_chars, i, s_chars.len());
        assert(rest@ =~= s@.skip(i as int));
        let k = pos_at(rest, '\n', 0);
        let ghost before = texts(out@);
        if k == rest.len() {
            let piece = string_of(rest);
            out.push(piece);
            assert(texts(out@) =~= before + seq![rest@]);
            return out;
        }
        let mut n: usize = k;
        if n > 0 && rest[n - 1] == '\r' {
            n -= 1;
        }
        let piece = string_of(slice_subrange(rest, 0, n));
        assert(piece@ =~= strip_cr(rest@.take(k as int)));
        out.push(piece);
        assert(rest@.skip(k + 1) =~= s@.skip(i + k + 1));
        assert(texts(out@) + lines(s@.skip(i + k + 1)) =~= before + (seq![piece@] + lines(
            rest@.skip(k + 1),
        )));
        i = i + k + 1;
    }
    assert(texts(out@) + lines(s@.skip(i as int)) =~= texts(out@));
    out
}

/// The words of `s`.
pub fn split_words(s: &str) -> (r: Vec<String>)
    ensures
        texts(r@) == words(s@),
{
    let a = chars_of(s);
    let mut rest = a.as_slice();
    let mut out: Vec<String> = Vec::new();
    assert(texts(out@) + words(s@) =~= words(s@));
    loop
        invariant
            texts(out@) + words(rest@) == words(s@),
        decreases rest@.len(),
    {
        let t = trim_start_chars(rest);
        if t.len() == 0 {
            assert(texts(out@) + words(rest@) =~= texts(out@));
            return out;
        }
        proof {
            lemma_trim_start_len(rest@);
            lemma_space_from(t@, 0);
        }
        let mut k: usize = 0;
        while k < t.len() && !space(t[k])
            invariant
                k <= t@.len(),
                space_from(t@, 0) == space_from(t@, k as int),
            decreases t@.len() - k,
        {
            k += 1;
        }
        let ghost before = texts(out@);
        let piece = string_of(slice_subrange(t, 0, k));
        assert(piece@ =~= t@.take(k as int));
        out.push(piece);
        let next = slice_subrange(t, k, t.len());
        assert(next@ =~= t@.skip(k as int));
        assert(texts(out@) + words(next@) =~= before + (seq![piece@] + words(next@)));
        rest = next;
    }
}

// ---------------------------------------------------------------------------------------------
// Joining and replacing
// ---------------------------------------------------------------------------------------------

/// The pieces with `sep` between them.
pub open spec fn join(parts: Seq<Seq<char>>, sep: Seq<char>) -> Seq<char>
    decreases parts.len(),
{
    if parts.len() == 0 {
        Seq::empty()
    } else if parts.len() == 1 {
        parts[0]
    } else {
        join(parts.drop_last(), sep) + sep + parts.last()
    }
}

/// The pieces with `sep` between them.
pub fn join_strings(parts: &Vec<String>, sep: &str) -> (r: String)
    ensures
        r@ == join(texts(parts@), sep@),
{
    let mut out = String::new();
    let mut i: usize = 0;
    while i < parts.len()
        invariant
            i <= parts@.len(),
            out@ == join(texts(parts@).take(i as int), sep@),
        decreases parts@.len() - i,
    {
        let ghost seen = texts(parts@).take(i + 1);
        assert(seen.drop_last() =~= texts(parts@).take(i as int));
        assert(seen.last() == parts@[i as int]@);
        if i > 0 {
            out.append(sep);
        }
        out.append(parts[i].as_str());
        if i == 0 {
            assert(out@ =~= seen[0]);
        }
        i += 1;
    }
    assert(texts(parts@).take(i as int) =~= texts(parts@));
    out
}

/// `s` with every occurrence of `from`, taken from the left without overlap, replaced by `to`.
pub open spec fn replace_all(s: Seq<char>, from: Seq<char>, to: Seq<char>) -> Seq<char>
    decreases s.len(),
{
    match find(s, from) {
        Some(k) => if from.len() == 0 || k < 0 || k + from.len() > s.len() {
            s
        } else {
            s.take(k) + to + replace_all(s.skip(k + from.len()), from, to)
        },
        None => s,
    }
}

/// The number of occurrences of `pat` in `s`, taken from the left without overlap.
pub open spec fn count_of(s: Seq<char>, pat: Seq<char>) -> nat
    decreases s.len(),
{
    match find(s, pat) {
        Some(k) => if pat.len() == 0 || k < 0 || k + pat.len() > s.len() {
            0
        } else {
            1 + count_of(s.skip(k + pat.len()), pat)
        },
        None => 0,
    }
}

/// `s` with every occurrence of `from` replaced by `to`.
pub fn replace_chars(s: &[char], from: &[char], to: &[char]) -> (r: Vec<char>)
    requires
        from@.len() > 0,
    ensures
        r@ == replace_all(s@, from@, to@),
{
    let mut out: Vec<char> = Vec::new();
    let mut i: usize = 0;
    assert(s@.skip(0) =~= s@);
    assert(out@ + replace_all(s@.skip(0), from@, to@) =~= replace_all(s@, from@, to@));
    loop
        invariant
            from@.len() > 0,
            i <= s@.len(),
            out@ + replace_all(s@.skip(i as int), from@, to@) == replace_all(s@, from@, to@),
        decreases s@.len() - i,
    {
        let rest = slice_subrange(s, i, s.len());
        assert(rest@ =~= s@.skip(i as int));
        let ghost before = out@;
        match find_at(rest, from, 0) {
            None => {
                push_chars(&mut out, rest);
                return out;
            },
            Some(k) => {
                push_chars(&mut out, slice_subrange(rest, 0, k));
                push_chars(&mut out, to);
                assert(rest@.skip(k + from@.len()) =~= s@.skip(i + k + from@.len()));
                assert(rest@.subrange(0, k as int) =~= rest@.take(k as int));
                assert(out@ + replace_all(rest@.skip(k + from@.len()), from@, to@) =~= before + (
                rest@.take(k as int) + to@ + replace_all(rest@.skip(k + from@.len()), from@, to@)));
                i = i + k + from.len();
            },
        }
    }
}

/// The number of occurrences of `pat` in `s`.
pub fn count_chars(s: &[char], pat: &[char]) -> (r: usize)
    requires
        pat@.len() > 0,
    ensures
        r == count_of(s@, pat@),
{
    let mut n: usize = 0;
    let mut i: usize = 0;
    assert(s@.skip(0) =~= s@);
    loop
        invariant
            pat@.len() > 0,
            i <= s@.len(),
            n <= i,
            n + count_of(s@.skip(i as int), pat@) == count_of(s@, pat@),
        decreases s@.len() - i,
    {
        let rest = slice_subrange(s, i, s.len());
        assert(rest@ =~= s@.skip(i as int));
        match find_at(rest, pat, 0) {
            None => {
                return n;
            },
            Some(k) => {
                assert(rest@.skip(k + pat@.len()) =~= s@.skip(i + k + pat@.len()));
                n += 1;
                i = i + k + pat.len();
            },
        }
    }
}

/// White space is the tab and the other controls up to the carriage return, the space, and the other characters
/// that Unicode says are white space.
pub proof fn law_white_space(c: char)
    ensures
        is_space(' ') && is_space('\t') && is_space('\n') && is_space('\r'),
        is_space(c) && (c as int) < 128 ==> c == ' ' || 9 <= (c as int) <= 13,
        is_space(c) && (c as int) >= 128 ==> c as int == 0x85 || c as int == 0xA0 || c as int == 0x1680
            || 0x2000 <= c as int <= 0x200A || c as int == 0x2028 || c as int == 0x2029 || c as int == 0x202F
            || c as int == 0x205F || c as int == 0x3000,
        c as int == 0x85 || c as int == 0xA0 || c as int == 0x1680 || 0x2000 <= c as int <= 0x200A || c
            as int == 0x2028 || c as int == 0x2029 || c as int == 0x202F || c as int == 0x205F || c as int
            == 0x3000 ==> is_space(c),
        !is_space('a') && !is_space('0') && !is_space('-'),
{
}

/// Trimming takes the white space off the ends and nothing else.
pub proof fn law_trimmed(s: Seq<char>)
    ensures
        exists|i: int, j: int|
            0 <= i <= j <= s.len() && trim(s) == #[trigger] s.subrange(i, j) && (forall|k: int|
                0 <= k < s.len() && !(i <= k < j) ==> is_space(#[trigger] s[k])),
        trim(s).len() > 0 ==> !is_space(trim(s)[0]) && !is_space(trim(s).last()),
        is_blank(s) <==> forall|k: int| 0 <= k < s.len() ==> is_space(#[trigger] s[k]),
{
    let i = lemma_trim_start_at(s);
    let r = s.skip(i);
    let j = lemma_trim_end_at(r);
    assert(r.take(j) =~= s.subrange(i, i + j));
    assert forall|k: int| 0 <= k < s.len() && !(i <= k < i + j) implies is_space(#[trigger] s[k]) by {
        if k >= i + j {
            assert(is_space(r[k - i]));
        }
    }
    if j > 0 {
        assert(s[i] == r[0]);
        assert(!is_space(s[i]));
    }
}

/// Trimming the end takes the white space off the end and nothing else.
pub proof fn law_end_trimmed(s: Seq<char>)
    ensures
        exists|j: int|
            0 <= j <= s.len() && trim_end(s) == #[trigger] s.take(j) && (forall|k: int|
                j <= k < s.len() ==> is_space(#[trigger] s[k])),
        trim_end(s).len() > 0 ==> !is_space(trim_end(s).last()),
{
    let j = lemma_trim_end_at(s);
    assert(trim_end(s) == s.take(j));
}

proof fn lemma_trim_start_at(s: Seq<char>) -> (i: int)
    ensures
        0 <= i <= s.len(),
        trim_start(s) == s.skip(i),
        forall|k: int| 0 <= k < i ==> is_space(#[trigger] s[k]),
        i < s.len() ==> !is_space(s[i]),
    decreases s.len(),
{
    if s.len() > 0 && is_space(s[0]) {
        let t = s.skip(1);
        let i = lemma_trim_start_at(t);
        assert(t.skip(i) =~= s.skip(i + 1));
        assert forall|k: int| 0 <= k < i + 1 implies is_space(#[trigger] s[k]) by {
            if k > 0 {
                assert(is_space(t[k - 1]));
            }
        }
        i + 1
    } else {
        assert(s.skip(0) =~= s);
        0
    }
}

proof fn lemma_trim_end_at(s: Seq<char>) -> (j: int)
    ensures
        0 <= j <= s.len(),
        trim_end(s) == s.take(j),
        forall|k: int| j <= k < s.len() ==> is_space(#[trigger] s[k]),
        j > 0 ==> !is_space(s[j - 1]),
    decreases s.len(),
{
    if s.len() > 0 && is_space(s.last()) {
        let t = s.drop_last();
        let j = lemma_trim_end_at(t);
        assert(t.take(j) =~= s.take(j));
        assert forall|k: int| j <= k < s.len() implies is_space(#[trigger] s[k]) by {
            if k < t.len() {
                assert(is_space(t[k]));
            }
        }
        j
    } else {
        assert(s.take(s.len() as int) =~= s);
        s.len() as int
    }
}

/// The pieces of a text between a character are joined by it again, and none of them holds it.
pub proof fn law_split_and_joined(s: Seq<char>, c: char)
    ensures
        split_on(s, c).len() > 0,
        join(split_on(s, c), seq![c]) == s,
        forall|i: int| 0 <= i < split_on(s, c).len() ==> !(#[trigger] split_on(s, c)[i]).contains(c),
    decreases s.len(),
{
    lemma_pos_from(s, c, 0);
    let k = pos(s, c);
    if k < s.len() {
        let rest = s.skip(k + 1);
        law_split_and_joined(rest, c);
        lemma_join_first(s.take(k), split_on(rest, c), seq![c]);
        assert(s =~= s.take(k) + seq![c] + rest);
        assert forall|i: int| 0 <= i < split_on(s, c).len() implies !(#[trigger] split_on(
            s,
            c,
        )[i]).contains(c) by {
            if i > 0 {
                assert(split_on(s, c)[i] == split_on(rest, c)[i - 1]);
            }
        }
    } else {
        assert(!s.contains(c));
    }
}

/// What is joined stands in its order, with the separator between two parts and nowhere else.
pub proof fn law_joined(parts: Seq<Seq<char>>, last: Seq<char>, sep: Seq<char>)
    ensures
        join(Seq::empty(), sep).len() == 0,
        join(seq![last], sep) == last,
        parts.len() > 0 ==> join(parts.push(last), sep) == join(parts, sep) + sep + last,
{
    assert(parts.push(last).drop_last() =~= parts);
}

proof fn lemma_join_first(first: Seq<char>, rest: Seq<Seq<char>>, sep: Seq<char>)
    requires
        rest.len() > 0,
    ensures
        join(seq![first] + rest, sep) == first + sep + join(rest, sep),
    decreases rest.len(),
{
    let all = seq![first] + rest;
    assert(all.drop_last() =~= seq![first] + rest.drop_last());
    if rest.len() == 1 {
        assert(all.drop_last() =~= seq![first]);
        assert(join(all.drop_last(), sep) == first);
    } else {
        lemma_join_first(first, rest.drop_last(), sep);
        assert(join(all, sep) =~= first + sep + join(rest, sep));
    }
}

/// The lines of a text are its pieces between line feeds, each without a carriage return before the line feed;
/// a last piece that is empty is no line, and one that is not ended is one as it stands.
pub proof fn law_lines_of_text(s: Seq<char>)
    ensures
        ({
            let p = split_on(s, '\n');
            let n = p.len() - 1;
            &&& lines(s).len() == if p[n].len() == 0 {
                n
            } else {
                n + 1
            }
            &&& forall|i: int|
                0 <= i < n ==> (#[trigger] lines(s)[i]) == (if p[i].len() > 0 && p[i].last() == '\r' {
                    p[i].take(p[i].len() - 1)
                } else {
                    p[i]
                })
            &&& p[n].len() > 0 ==> lines(s)[n] == p[n]
        }),
    decreases s.len(),
{
    lemma_pos_from(s, '\n', 0);
    let k = pos(s, '\n');
    let p = split_on(s, '\n');
    let n = p.len() - 1;
    if k < s.len() {
        let rest = s.skip(k + 1);
        let q = split_on(rest, '\n');
        law_split_and_joined(rest, '\n');
        law_lines_of_text(rest);
        assert(p[n] == q[n - 1]);
        assert forall|i: int| 0 <= i < n implies (#[trigger] lines(s)[i]) == (if p[i].len() > 0
            && p[i].last() == '\r' {
            p[i].take(p[i].len() - 1)
        } else {
            p[i]
        }) by {
            if i == 0 {
                assert(p[0] == s.take(k));
                assert(lines(s)[0] == strip_cr(s.take(k)));
                if p[0].len() > 0 {
                    assert(p[0].drop_last() =~= p[0].take(p[0].len() - 1));
                }
            } else {
                assert(p[i] == q[i - 1]);
                assert(lines(s)[i] == lines(rest)[i - 1]);
            }
        }
        if p[n].len() > 0 {
            assert(lines(s)[n] == lines(rest)[n - 1]);
        }
    }
}

/// Replacing cuts a text at the occurrences of `from`, taken from the left without overlap, and puts the same
/// pieces together with `to` in between: no piece holds `from`, none is longer than up to the first
/// occurrence behind it, and there are as many cuts as occurrences are counted. The pieces are returned.
pub proof fn law_replaced_everywhere(s: Seq<char>, from: Seq<char>, to: Seq<char>) -> (pieces: Seq<Seq<char>>)
    requires
        from.len() > 0,
    ensures
        pieces.len() == count_of(s, from) + 1,
        join(pieces, from) == s,
        join(pieces, to) == replace_all(s, from, to),
        forall|i: int| 0 <= i < pieces.len() ==> !contains(#[trigger] pieces[i], from),
        forall|i: int|
            0 <= i < pieces.len() - 1 ==> find((#[trigger] pieces[i]) + from, from) == Some(
                pieces[i].len() as int,
            ),
        replace_all(s, from, to).len() == s.len() + count_of(s, from) * (to.len() - from.len()),
        count_of(s, from) == 0 <==> !contains(s, from),
    decreases s.len(),
{
    lemma_find_from(s, from, 0);
    match find(s, from) {
        Some(k) => {
            let rest = s.skip(k + from.len());
            let tail = law_replaced_everywhere(rest, from, to);
            let a = s.take(k);
            let pieces = seq![a] + tail;
            lemma_join_first(a, tail, from);
            lemma_join_first(a, tail, to);
            assert(s =~= a + s.subrange(k, k + from.len()) + rest);
            let b = a + from;
            assert forall|j: int| occurs_at(b, from, j) implies j == k by {
                if j < k {
                    assert(b.subrange(j, j + from.len()) =~= s.subrange(j, j + from.len()));
                    assert(occurs_at(s, from, j));
                }
            }
            assert(b.subrange(k, k + from.len()) =~= from);
            assert(occurs_at(b, from, k));
            lemma_find_from(b, from, 0);
            assert(find(b, from) == Some(k));
            assert(!contains(a, from)) by {
                if contains(a, from) {
                    let j = choose|j: int| occurs_at(a, from, j);
                    assert(b.subrange(j, j + from.len()) =~= a.subrange(j, j + from.len()));
                    assert(occurs_at(b, from, j));
                }
            }
            assert forall|i: int| 0 <= i < pieces.len() implies !contains(#[trigger] pieces[i], from) by {
                if i > 0 {
                    assert(pieces[i] == tail[i - 1]);
                }
            }
            assert forall|i: int| 0 <= i < pieces.len() - 1 implies find((#[trigger] pieces[i]) + from, from)
                == Some(pieces[i].len() as int) by {
                if i > 0 {
                    assert(pieces[i] == tail[i - 1]);
                }
            }
            assert(replace_all(s, from, to) =~= a + to + replace_all(rest, from, to));
            assert(count_of(s, from) == 1 + count_of(rest, from));
            let d = to.len() - from.len();
            assert((1 + count_of(rest, from)) * d == d + count_of(rest, from) * d) by (nonlinear_arith);
            assert(contains(s, from));
            pieces
        },
        None => {
            assert(!contains(s, from));
            assert(0 * (to.len() - from.len()) == 0);
            seq![s]
        },
    }
}

/// Words are what stands between white space: a text without any is one word, and white space parts the words
/// before it from those behind it.
pub proof fn law_words(a: Seq<char>, sp: char, b: Seq<char>)
    requires
        is_space(sp),
    ensures
        words(Seq::empty()).len() == 0,
        a.len() > 0 && (forall|i: int| 0 <= i < a.len() ==> !is_space(#[trigger] a[i])) ==> words(a) == seq![a],
        words(a + seq![sp] + b) == words(a) + words(b),
{
    lemma_no_words();
    lemma_one_word(a);
    lemma_words_parted(a, sp, b);
}

proof fn lemma_no_words()
    ensures
        words(Seq::empty()) == Seq::<Seq<char>>::empty(),
{
    assert(trim_start(Seq::<char>::empty()) =~= Seq::<char>::empty());
}

proof fn lemma_one_word(a: Seq<char>)
    ensures
        a.len() > 0 && (forall|i: int| 0 <= i < a.len() ==> !is_space(#[trigger] a[i])) ==> words(a) == seq![a],
{
    if a.len() > 0 && (forall|j: int| 0 <= j < a.len() ==> !is_space(#[trigger] a[j])) {
        assert(!is_space(a[0]));
        lemma_space_at(a, 0);
        lemma_words_head(a);
        lemma_no_words();
        assert(a.take(a.len() as int) =~= a);
        assert(a.skip(a.len() as int) =~= Seq::<char>::empty());
        assert(words(a) =~= seq![a]);
    }
}

#[verifier::spinoff_prover]
proof fn lemma_words_parted(a: Seq<char>, sp: char, b: Seq<char>)
    requires
        is_space(sp),
    ensures
        words(a + seq![sp] + b) == words(a) + words(b),
    decreases a.len(),
{
    let s = a + seq![sp] + b;
    let i = lemma_trim_start_at(a);
    lemma_words_skip(a, i);
    if i == a.len() {
        lemma_no_words();
        assert(a.skip(i) =~= Seq::<char>::empty());
        lemma_words_skip(s, i + 1);
        assert(s.skip(i + 1) =~= b);
        assert(words(a) + words(b) =~= words(b));
    } else {
        lemma_words_skip(s, i);
        let t = a.skip(i);
        assert(s.skip(i) =~= t + seq![sp] + b);
        lemma_first_word(t, sp, b);
        let k = space_from(t, 0);
        lemma_space_at(t, 0);
        if k < t.len() {
            lemma_words_parted(t.skip(k), sp, b);
            assert(words(s) =~= words(a) + words(b));
        } else {
            assert(words(s) =~= words(a) + words(b));
        }
    }
}

#[verifier::spinoff_prover]
proof fn lemma_first_word(t: Seq<char>, sp: char, b: Seq<char>)
    requires
        is_space(sp),
        t.len() > 0,
        !is_space(t[0]),
    ensures
        ({
            let u = t + seq![sp] + b;
            let k = space_from(t, 0);
            &&& 0 < k
            &&& words(t) == seq![t.take(k)] + words(t.skip(k))
            &&& k < t.len() ==> words(u) == seq![t.take(k)] + words(t.skip(k) + seq![sp] + b)
            &&& k == t.len() ==> words(u) == seq![t] + words(b) && words(t) == seq![t]
        }),
{
    let u = t + seq![sp] + b;
    lemma_space_at(t, 0);
    let k = space_from(t, 0);
    if k == 0 {
        assert(is_space(t[0]));
    }
    lemma_words_head(t);
    lemma_words_head(u);
    if k < t.len() {
        lemma_space_same(t, u, k, 0);
        assert(u.skip(k) =~= t.skip(k) + seq![sp] + b);
        assert(u.take(k) =~= t.take(k));
    } else {
        let v = t + seq![sp];
        assert forall|j: int| 0 <= j < k implies !is_space(#[trigger] v[j]) by {
            assert(v[j] == t[j]);
        }
        lemma_space_same(v, u, k, 0);
        assert(u.take(k) =~= t);
        lemma_no_words();
        assert(t.take(k) =~= t);
        assert(t.skip(k) =~= Seq::<char>::empty());
        assert(u.skip(k)[0] == sp);
        lemma_words_skip(u.skip(k), 1);
        assert(u.skip(k).skip(1) =~= b);
        assert(words(t) =~= seq![t]);
    }
}

proof fn lemma_space_at(s: Seq<char>, from: int)
    requires
        0 <= from <= s.len(),
    ensures
        from <= space_from(s, from) <= s.len(),
        forall|j: int| from <= j < space_from(s, from) ==> !is_space(#[trigger] s[j]),
        space_from(s, from) < s.len() ==> is_space(s[space_from(s, from)]),
    decreases s.len() - from,
{
    if from < s.len() && !is_space(s[from]) {
        lemma_space_at(s, from + 1);
    }
}

proof fn lemma_space_same(a: Seq<char>, s: Seq<char>, k: int, from: int)
    requires
        0 <= from <= k < a.len() <= s.len(),
        is_space(a[k]),
        forall|j: int| from <= j < k ==> !is_space(#[trigger] a[j]),
        forall|j: int| from <= j <= k ==> #[trigger] a[j] == s[j],
    ensures
        space_from(s, from) == k,
    decreases k - from,
{
    assert(a[from] == s[from]);
    if from < k {
        assert(!is_space(a[from]));
        lemma_space_same(a, s, k, from + 1);
    }
}

proof fn lemma_words_skip(s: Seq<char>, i: int)
    requires
        0 <= i <= s.len(),
        forall|k: int| 0 <= k < i ==> is_space(#[trigger] s[k]),
    ensures
        words(s) == words(s.skip(i)),
{
    let a = lemma_trim_start_at(s);
    let r = s.skip(i);
    let b = lemma_trim_start_at(r);
    assert(a == i + b) by {
        if a < i {
            assert(is_space(s[a]));
        } else if a < i + b {
            assert(is_space(r[a - i]));
        } else if a > i + b {
            assert(is_space(s[i + b]));
            assert(r[b] == s[i + b]);
        }
    }
    assert(r.skip(b) =~= s.skip(a));
    let t = trim_start(s);
    if t.len() > 0 {
        lemma_space_from(t, 0);
        assert(!is_space(t[0]));
    }
}

proof fn lemma_words_head(t: Seq<char>)
    requires
        t.len() > 0,
        !is_space(t[0]),
    ensures
        words(t) == seq![t.take(space_from(t, 0))] + words(t.skip(space_from(t, 0))),
{
    assert(trim_start(t) == t);
    lemma_space_from(t, 0);
}

/// A character splits a text at every place where it stands: the pieces of what is before one of them come
/// first, then those of what is behind it.
pub proof fn law_split_at(a: Seq<char>, c: char, b: Seq<char>)
    ensures
        split_on(a + seq![c] + b, c) == split_on(a, c) + split_on(b, c),
        !a.contains(c) ==> split_on(a, c) == seq![a],
    decreases a.len(),
{
    let s = a + seq![c] + b;
    lemma_pos_from(a, c, 0);
    lemma_pos_from(s, c, 0);
    let k = pos(a, c);
    if k < a.len() {
        assert(a.contains(c));
        assert(s =~= a + (seq![c] + b));
        lemma_pos_added(a, seq![c] + b, c, 0);
        let r = a.skip(k + 1);
        law_split_at(r, c, b);
        assert(s.skip(k + 1) =~= r + seq![c] + b);
        assert(s.take(k) =~= a.take(k));
        assert(split_on(s, c) =~= split_on(a, c) + split_on(b, c));
    } else {
        assert(s[a.len() as int] == c);
        let m = pos(s, c);
        if m < a.len() {
            assert(s[m] == a[m]);
        }
        assert(m == a.len());
        assert(s.take(m) =~= a);
        assert(s.skip(m + 1) =~= b);
        assert(split_on(s, c) =~= split_on(a, c) + split_on(b, c));
    }
}

} // verus!
