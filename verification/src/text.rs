//! Text as sequences of characters: searching, splitting, trimming, replacing and number printing.
//!
//! A string's view is its sequence of characters, so every operation here is stated over
//! `Seq<char>`. The executable forms work on slices of characters.

use vstd::prelude::*;
use vstd::slice::slice_subrange;

verus! {

/// `String::push` appends the character to the end of the string.
pub assume_specification[ String::push ](s: &mut String, c: char)
    ensures
        final(s)@ == old(s)@.push(c),
;

// ---------------------------------------------------------------------------------------------
// Conversions
// ---------------------------------------------------------------------------------------------

/// The characters of `s`, in order.
pub fn chars_of(s: &str) -> (r: Vec<char>)
    ensures
        r@ == s@,
{
    let mut r: Vec<char> = Vec::new();
    for c in it: s.chars()
        invariant
            it.seq() == s@,
            r@ == s@.take(it.index()),
    {
        assert(s@.take(it.index() + 1) =~= s@.take(it.index()).push(c));
        r.push(c);
    }
    assert(s@.take(s@.len() as int) =~= s@);
    r
}

/// The string made of the characters `cs`.
pub fn string_of(cs: &[char]) -> (r: String)
    ensures
        r@ == cs@,
{
    let mut r = String::new();
    let mut i: usize = 0;
    while i < cs.len()
        invariant
            i <= cs@.len(),
            r@ == cs@.take(i as int),
        decreases cs@.len() - i,
    {
        assert(cs@.take(i + 1) =~= cs@.take(i as int).push(cs@[i as int]));
        r.push(cs[i]);
        i += 1;
    }
    assert(cs@.take(cs@.len() as int) =~= cs@);
    r
}

/// Appends the characters `cs` to `out`.
pub fn push_chars(out: &mut Vec<char>, cs: &[char])
    ensures
        final(out)@ == old(out)@ + cs@,
{
    let mut i: usize = 0;
    while i < cs.len()
        invariant
            i <= cs@.len(),
            out@ == old(out)@ + cs@.take(i as int),
        decreases cs@.len() - i,
    {
        assert(cs@.take(i + 1) =~= cs@.take(i as int).push(cs@[i as int]));
        out.push(cs[i]);
        i += 1;
    }
    assert(cs@.take(cs@.len() as int) =~= cs@);
}

/// The views of a list of strings.
pub open spec fn texts(v: Seq<String>) -> Seq<Seq<char>> {
    v.map_values(|s: String| s@)
}

/// The views of a list of strings, with one string added at the end.
pub broadcast proof fn texts_push(v: Seq<String>, s: String)
    ensures
        #[trigger] texts(v.push(s)) == texts(v).push(s@),
{
    assert(texts(v.push(s)) =~= texts(v).push(s@));
}

/// A copy of a list of strings.
pub fn copy_strings(v: &Vec<String>) -> (r: Vec<String>)
    ensures
        r@ == v@,
{
    let mut r: Vec<String> = Vec::new();
    let mut i: usize = 0;
    while i < v.len()
        invariant
            i <= v@.len(),
            r@ == v@.take(i as int),
        decreases v@.len() - i,
    {
        assert(v@.take(i + 1) =~= v@.take(i as int).push(v@[i as int]));
        r.push(v[i].clone());
        i += 1;
    }
    assert(v@.take(v@.len() as int) =~= v@);
    r
}

/// The view of an optional string.
pub open spec fn opt_text(s: Option<String>) -> Option<Seq<char>> {
    match s {
        Some(s) => Some(s@),
        None => None,
    }
}

// ---------------------------------------------------------------------------------------------
// Comparison and search
// ---------------------------------------------------------------------------------------------

/// `pat` stands in `s` at position `i`.
pub open spec fn occurs_at(s: Seq<char>, pat: Seq<char>, i: int) -> bool {
    0 <= i && i + pat.len() <= s.len() && s.subrange(i, i + pat.len()) == pat
}

/// `s` begins with `pat`.
pub open spec fn starts_with(s: Seq<char>, pat: Seq<char>) -> bool {
    occurs_at(s, pat, 0)
}

/// `s` ends with `pat`.
pub open spec fn ends_with(s: Seq<char>, pat: Seq<char>) -> bool {
    occurs_at(s, pat, s.len() - pat.len())
}

/// `pat` stands somewhere in `s`.
pub open spec fn contains(s: Seq<char>, pat: Seq<char>) -> bool {
    exists|i: int| occurs_at(s, pat, i)
}

/// The first position at or after `from` at which `pat` stands in `s`.
pub open spec fn find_from(s: Seq<char>, pat: Seq<char>, from: int) -> Option<int>
    decreases s.len() + 1 - from,
{
    if from < 0 || from + pat.len() > s.len() {
        None
    } else if occurs_at(s, pat, from) {
        Some(from)
    } else {
        find_from(s, pat, from + 1)
    }
}

/// The first position at which `pat` stands in `s`.
pub open spec fn find(s: Seq<char>, pat: Seq<char>) -> Option<int> {
    find_from(s, pat, 0)
}

/// What `find_from` says of the text: the position is the first one, and none is missed.
pub proof fn lemma_find_from(s: Seq<char>, pat: Seq<char>, from: int)
    requires
        0 <= from,
    ensures
        match find_from(s, pat, from) {
            Some(k) => {
                &&& from <= k
                &&& occurs_at(s, pat, k)
                &&& forall|j: int| from <= j < k ==> !occurs_at(s, pat, j)
            },
            None => forall|j: int| from <= j ==> !occurs_at(s, pat, j),
        },
    decreases s.len() + 1 - from,
{
    if from + pat.len() > s.len() {
    } else if occurs_at(s, pat, from) {
    } else {
        lemma_find_from(s, pat, from + 1);
    }
}

/// Whether two character slices are equal.
pub fn eq_chars(a: &[char], b: &[char]) -> (r: bool)
    ensures
        r == (a@ == b@),
{
    if a.len() != b.len() {
        return false;
    }
    let mut i: usize = 0;
    while i < a.len()
        invariant
            a@.len() == b@.len(),
            i <= a@.len(),
            a@.take(i as int) == b@.take(i as int),
        decreases a@.len() - i,
    {
        if a[i] != b[i] {
            assert(a@[i as int] != b@[i as int]);
            return false;
        }
        assert(a@.take(i + 1) =~= a@.take(i as int).push(a@[i as int]));
        assert(b@.take(i + 1) =~= b@.take(i as int).push(b@[i as int]));
        i += 1;
    }
    assert(a@.take(a@.len() as int) =~= a@);
    assert(b@.take(b@.len() as int) =~= b@);
    true
}

/// Whether two strings are equal.
pub fn str_eq(a: &str, b: &str) -> (r: bool)
    ensures
        r == (a@ == b@),
{
    let x = chars_of(a);
    let y = chars_of(b);
    eq_chars(x.as_slice(), y.as_slice())
}

/// Whether `pat` stands in `s` at position `i`.
pub fn occurs(s: &[char], pat: &[char], i: usize) -> (r: bool)
    ensures
        r == occurs_at(s@, pat@, i as int),
{
    if i > s.len() || pat.len() > s.len() - i {
        return false;
    }
    eq_chars(slice_subrange(s, i, i + pat.len()), pat)
}

/// The first position at or after `from` at which `pat` stands in `s`.
pub fn find_at(s: &[char], pat: &[char], from: usize) -> (r: Option<usize>)
    requires
        from <= s@.len(),
    ensures
        match r {
            Some(k) => find_from(s@, pat@, from as int) == Some(k as int) && k + pat@.len() <= s@.len(),
            None => find_from(s@, pat@, from as int) is None,
        },
{
    let mut i: usize = from;
    while i <= s.len() && pat.len() <= s.len() - i
        invariant
            from <= i <= s@.len() + 1,
            find_from(s@, pat@, from as int) == find_from(s@, pat@, i as int),
        decreases s@.len() + 1 - i,
    {
        if occurs(s, pat, i) {
            return Some(i);
        }
        if i == s.len() {
            assert(s@.subrange(i as int, i as int) =~= pat@);
            return None;
        }
        i += 1;
    }
    None
}

/// Whether `pat` stands somewhere in `s`.
pub fn has_chars(s: &[char], pat: &[char]) -> (r: bool)
    ensures
        r == contains(s@, pat@),
{
    proof {
        lemma_find_from(s@, pat@, 0);
    }
    find_at(s, pat, 0).is_some()
}

/// Whether `pat` stands somewhere in `s`.
pub fn has_text(s: &str, pat: &str) -> (r: bool)
    ensures
        r == contains(s@, pat@),
{
    let a = chars_of(s);
    let b = chars_of(pat);
    has_chars(a.as_slice(), b.as_slice())
}

/// Whether `s` begins with `pat`.
pub fn has_prefix(s: &str, pat: &str) -> (r: bool)
    ensures
        r == starts_with(s@, pat@),
{
    let a = chars_of(s);
    let b = chars_of(pat);
    occurs(a.as_slice(), b.as_slice(), 0)
}

/// Whether `s` ends with `pat`.
pub fn has_suffix(s: &str, pat: &str) -> (r: bool)
    ensures
        r == ends_with(s@, pat@),
{
    let a = chars_of(s);
    let b = chars_of(pat);
    if b.len() > a.len() {
        return false;
    }
    occurs(a.as_slice(), b.as_slice(), a.len() - b.len())
}

/// `s` without the prefix `pat`, when it begins with it.
pub open spec fn without_prefix(s: Seq<char>, pat: Seq<char>) -> Option<Seq<char>> {
    if starts_with(s, pat) {
        Some(s.skip(pat.len() as int))
    } else {
        None
    }
}

/// `s` without the prefix `pat`, when it begins with it.
pub fn strip_prefix(s: &str, pat: &str) -> (r: Option<String>)
    ensures
        opt_text(r) == without_prefix(s@, pat@),
{
    let a = chars_of(s);
    let b = chars_of(pat);
    if occurs(a.as_slice(), b.as_slice(), 0) {
        let rest = string_of(slice_subrange(a.as_slice(), b.len(), a.len()));
        assert(rest@ =~= s@.skip(pat@.len() as int));
        Some(rest)
    } else {
        None
    }
}

// ---------------------------------------------------------------------------------------------
// Lower case, and how a string is shown in messages
// ---------------------------------------------------------------------------------------------

/// The character with an ASCII letter in lower case.
pub open spec fn lower(c: char) -> char {
    if 'A' <= c <= 'Z' {
        (c as u32 + 32) as char
    } else {
        c
    }
}

/// The text with its ASCII letters in lower case.
pub open spec fn lower_text(s: Seq<char>) -> Seq<char> {
    s.map_values(|c: char| lower(c))
}

/// The text with its ASCII letters in lower case.
pub fn lower_str(s: &str) -> (r: String)
    ensures
        r@ == lower_text(s@),
{
    let cs = chars_of(s);
    let mut out = String::new();
    let mut i: usize = 0;
    assert(out@ =~= lower_text(s@.take(0)));
    while i < cs.len()
        invariant
            i <= cs@.len(),
            cs@ == s@,
            out@ == lower_text(s@.take(i as int)),
        decreases cs@.len() - i,
    {
        let c = cs[i];
        if 'A' <= c && c <= 'Z' {
            let n: u8 = c as u8;
            out.push((n + 32) as char);
        } else {
            out.push(c);
        }
        assert(out@ =~= lower_text(s@.take(i + 1)));
        i += 1;
    }
    assert(s@.take(i as int) =~= s@);
    out
}

/// How `str` prints under `{:?}`: in quotation marks, with escapes.
pub uninterp spec fn debug_text(s: Seq<char>) -> Seq<char>;

/// `format!("{:?}", s)` of a string: the result depends on the string alone.
#[verifier::external_body]
pub(crate) fn debug_string(s: &str) -> (r: String)
    ensures
        r@ == debug_text(s@),
{
    format!("{:?}", s)
}

/// A text begins with another exactly where it is that one with something behind it, ends with it where
/// something stands before it, and holds it where both may.
pub proof fn law_affixes(a: Seq<char>, p: Seq<char>, b: Seq<char>, s: Seq<char>)
    ensures
        starts_with(p + b, p),
        ends_with(a + p, p),
        contains(a + p + b, p),
        starts_with(s, p) ==> s == p + s.skip(p.len() as int) && p.len() <= s.len(),
        ends_with(s, p) ==> p.len() <= s.len() && s == s.take(s.len() - p.len()) + p,
        contains(s, p) ==> exists|i: int|
            0 <= i <= s.len() - p.len() && s == #[trigger] s.take(i) + p + s.skip(i + p.len()),
        without_prefix(p + b, p) == Some(b),
        without_prefix(s, p) is Some <==> starts_with(s, p),
        without_prefix(s, p) matches Some(r) ==> s == p + r,
{
    assert((p + b).subrange(0, p.len() as int) =~= p);
    assert((a + p).subrange(a.len() as int, (a.len() + p.len()) as int) =~= p);
    assert((a + p).len() - p.len() == a.len());
    assert((a + p + b).subrange(a.len() as int, (a.len() + p.len()) as int) =~= p);
    assert(occurs_at(a + p + b, p, a.len() as int));
    assert((p + b).skip(p.len() as int) =~= b);
    if starts_with(s, p) {
        assert(s =~= s.subrange(0, p.len() as int) + s.skip(p.len() as int));
    }
    if ends_with(s, p) {
        let k = s.len() - p.len();
        assert(s =~= s.take(k) + s.subrange(k, k + p.len()));
    }
    if contains(s, p) {
        let i = choose|i: int| occurs_at(s, p, i);
        assert(s =~= s.take(i) + s.subrange(i, i + p.len()) + s.skip(i + p.len()));
    }
}

/// The first occurrence of a text is found where it is: what stands before it holds none that begins earlier,
/// and none is missed.
pub proof fn law_found_first(s: Seq<char>, p: Seq<char>)
    ensures
        find(s, p) is None <==> !contains(s, p),
        find(s, p) matches Some(k) ==> 0 <= k <= s.len() - p.len() && s == s.take(k) + p + s.skip(
            k + p.len(),
        ) && forall|j: int| 0 <= j < k ==> (#[trigger] s.subrange(j, j + p.len())) != p,
{
    lemma_find_from(s, p, 0);
    if let Some(k) = find(s, p) {
        assert(s =~= s.take(k) + s.subrange(k, k + p.len()) + s.skip(k + p.len()));
        assert forall|j: int| 0 <= j < k implies (#[trigger] s.subrange(j, j + p.len())) != p by {
            assert(!occurs_at(s, p, j));
        }
    }
}

/// Capital letters of ASCII become small ones, and every other character stays.
pub proof fn law_lower_case(s: Seq<char>)
    ensures
        lower_text(s).len() == s.len(),
        forall|i: int|
            0 <= i < s.len() ==> (65 <= s[i] as int <= 90 ==> (#[trigger] lower_text(s)[i]) as int == s[i]
                as int + 32) && (!(65 <= s[i] as int <= 90) ==> lower_text(s)[i] == s[i]),
        lower_text(lower_text(s)) == lower_text(s),
{
    assert(lower_text(lower_text(s)) =~= lower_text(s));
}

/// The first occurrence of a text is also the first one in what ends with it.
pub proof fn lemma_found_in_front(s: Seq<char>, p: Seq<char>, k: int)
    requires
        find(s, p) == Some(k),
    ensures
        0 <= k <= s.len() - p.len(),
        s.subrange(k, k + p.len()) == p,
        find(s.take(k) + p, p) == Some(k),
{
    lemma_find_from(s, p, 0);
    let b = s.take(k) + p;
    assert(b =~= s.take(k + p.len()));
    assert forall|j: int| 0 <= j < k implies !occurs_at(b, p, j) by {
        assert(b.subrange(j, j + p.len()) =~= s.subrange(j, j + p.len()));
        assert(!occurs_at(s, p, j));
    }
    assert(b.subrange(k, k + p.len()) =~= p);
    assert(occurs_at(b, p, k));
    lemma_find_from(b, p, 0);
}

} // verus!
