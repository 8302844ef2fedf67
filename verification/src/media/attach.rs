//! `@path` in what the user types: paths of images become references.

use crate::commands::expand::woven;
use crate::config::paths::{join_path, joined};
use crate::media::store::{image_path, is_image_path};
use crate::split::{is_space, lemma_pos_from, lemma_space_from, pos, pos_at, space, space_from};
use crate::text::{chars_of, opt_text, push_chars, string_of, texts, texts_push};
use vstd::prelude::*;
use vstd::slice::slice_subrange;

verus! {

/// The first `@` of a text stands at the beginning of a word. `fresh` says that the text itself begins
/// one.
pub open spec fn begins_word(s: Seq<char>, k: int, fresh: bool) -> bool {
    if k <= 0 {
        fresh
    } else {
        is_space(s[k - 1])
    }
}

/// The paths of images that a text attaches, in their order.
pub open spec fn attached(s: Seq<char>, fresh: bool) -> Seq<Seq<char>>
    decreases s.len(),
{
    let k = pos(s, '@');
    if k < 0 || k >= s.len() {
        Seq::empty()
    } else if !begins_word(s, k, fresh) {
        attached(s.skip(k + 1), false)
    } else {
        let end = space_from(s, k + 1);
        proof {
            lemma_space_from(s, k + 1);
        }
        let path = s.subrange(k + 1, end);
        let rest = attached(s.skip(end), false);
        if image_path(path) {
            seq![path] + rest
        } else {
            rest
        }
    }
}

/// The tokens after the first.
pub open spec fn after_first(tokens: Seq<Option<Seq<char>>>) -> Seq<Option<Seq<char>>> {
    if tokens.len() == 0 {
        tokens
    } else {
        tokens.skip(1)
    }
}

/// The text with each attached image replaced by its token, where it has one: `tokens` are those of the
/// paths in their order.
pub open spec fn inlined(s: Seq<char>, fresh: bool, tokens: Seq<Option<Seq<char>>>) -> Seq<char>
    decreases s.len(),
{
    let k = pos(s, '@');
    if k < 0 || k >= s.len() {
        s
    } else if !begins_word(s, k, fresh) {
        s.take(k + 1) + inlined(s.skip(k + 1), false, tokens)
    } else {
        let end = space_from(s, k + 1);
        proof {
            lemma_space_from(s, k + 1);
        }
        let path = s.subrange(k + 1, end);
        if image_path(path) {
            let shown = if tokens.len() > 0 {
                tokens[0]
            } else {
                None
            };
            (match shown {
                Some(t) => s.take(k) + t,
                None => s.take(end),
            }) + inlined(s.skip(end), false, after_first(tokens))
        } else {
            s.take(end) + inlined(s.skip(end), false, tokens)
        }
    }
}

/// The end of the word at `from`.
fn word_end(s: &[char], from: usize) -> (r: usize)
    requires
        from <= s@.len(),
    ensures
        r == space_from(s@, from as int),
        from <= r <= s@.len(),
{
    let mut i: usize = from;
    while i < s.len() && !space(s[i])
        invariant
            from <= i <= s@.len(),
            space_from(s@, from as int) == space_from(s@, i as int),
        decreases s@.len() - i,
    {
        i += 1;
    }
    i
}

/// The paths of images that a text attaches, seen from `cwd`.
pub fn attachment_paths(text: &str, cwd: &str) -> (r: Vec<String>)
    ensures
        texts(r@) == attached(text@, true).map_values(|p: Seq<char>| joined(cwd@, p)),
{
    let a = chars_of(text);
    let s = a.as_slice();
    let n: usize = s.len();
    let mut out: Vec<String> = Vec::new();
    let mut i: usize = 0;
    let mut fresh = true;
    let ghost f = |p: Seq<char>| joined(cwd@, p);
    assert(s@.skip(0) =~= text@);
    assert(texts(out@) + attached(text@, true).map_values(f) =~= attached(text@, true).map_values(f));
    while i < n
        invariant
            i <= n,
            n == s@.len(),
            s@ == text@,
            f == |p: Seq<char>| joined(cwd@, p),
            texts(out@) + attached(text@.skip(i as int), fresh).map_values(f) == attached(
                text@,
                true,
            ).map_values(f),
        decreases n - i,
    {
        broadcast use texts_push;

        let rest = slice_subrange(s, i, n);
        let ghost rv = text@.skip(i as int);
        assert(rest@ =~= rv);
        let m: usize = rest.len();
        let k: usize = pos_at(rest, '@', 0);
        if k >= m {
            assert(texts(out@) + Seq::<Seq<char>>::empty() =~= texts(out@));
            assert(attached(rv, fresh).map_values(f) =~= Seq::<Seq<char>>::empty());
            return out;
        }
        let word = if k == 0 {
            fresh
        } else {
            space(rest[k - 1])
        };
        if !word {
            assert(rv.skip(k + 1) =~= text@.skip(i + k + 1));
            i = i + k + 1;
            fresh = false;
        } else {
            let end: usize = word_end(rest, k + 1);
            let p = string_of(slice_subrange(rest, k + 1, end));
            assert(p@ =~= rv.subrange(k + 1, end as int));
            assert(rv.skip(end as int) =~= text@.skip(i + end));
            let ghost tail = attached(rv.skip(end as int), false);
            if is_image_path(p.as_str()) {
                let ghost before = texts(out@);
                out.push(join_path(cwd, p.as_str()));
                assert((seq![p@] + tail).map_values(f) =~= seq![joined(cwd@, p@)] + tail.map_values(
                    f,
                ));
                assert(texts(out@) + tail.map_values(f) =~= before + (seq![joined(cwd@, p@)]
                    + tail.map_values(f)));
            }
            i = i + end;
            fresh = false;
        }
    }
    assert(text@.skip(i as int) =~= Seq::<char>::empty());
    assert(attached(text@.skip(i as int), fresh).map_values(f) =~= Seq::<Seq<char>>::empty());
    assert(texts(out@) + Seq::<Seq<char>>::empty() =~= texts(out@));
    out
}

/// The views of a list of texts that may be missing.
pub open spec fn opt_texts(v: Seq<Option<String>>) -> Seq<Option<Seq<char>>> {
    v.map_values(|t: Option<String>| opt_text(t))
}

/// The text with each attached image replaced by its token: `tokens` are those of `attachment_paths`, in
/// their order, none for an image that could not be stored.
pub fn inline_user_attachments(text: &str, tokens: &Vec<Option<String>>) -> (r: String)
    ensures
        r@ == inlined(text@, true, opt_texts(tokens@)),
{
    let a = chars_of(text);
    let s = a.as_slice();
    let n: usize = s.len();
    let mut out: Vec<char> = Vec::new();
    let mut i: usize = 0;
    let mut used: usize = 0;
    let mut fresh = true;
    let ghost tv = opt_texts(tokens@);
    assert(tv.skip(0) =~= tv);
    assert(s@.skip(0) =~= text@);
    assert(out@ + inlined(text@, true, tv) =~= inlined(text@, true, tv));
    while i < n
        invariant
            i <= n,
            n == s@.len(),
            s@ == text@,
            tv == opt_texts(tokens@),
            used <= tokens@.len(),
            out@ + inlined(text@.skip(i as int), fresh, tv.skip(used as int)) == inlined(
                text@,
                true,
                tv,
            ),
        decreases n - i,
    {
        let rest = slice_subrange(s, i, n);
        let ghost rv = text@.skip(i as int);
        assert(rest@ =~= rv);
        let m: usize = rest.len();
        let ghost before = out@;
        let ghost left = tv.skip(used as int);
        assert(left.len() == tokens@.len() - used);
        let k: usize = pos_at(rest, '@', 0);
        if k >= m {
            push_chars(&mut out, rest);
            return string_of(out.as_slice());
        }
        let word = if k == 0 {
            fresh
        } else {
            space(rest[k - 1])
        };
        if !word {
            let head = slice_subrange(rest, 0, k + 1);
            assert(head@ =~= rv.take(k + 1));
            push_chars(&mut out, head);
            assert(rv.skip(k + 1) =~= text@.skip(i + k + 1));
            let ghost tail = inlined(rv.skip(k + 1), false, left);
            assert(out@ + tail =~= before + (rv.take(k + 1) + tail));
            i = i + k + 1;
            fresh = false;
        } else {
            let end: usize = word_end(rest, k + 1);
            let p = string_of(slice_subrange(rest, k + 1, end));
            assert(p@ =~= rv.subrange(k + 1, end as int));
            assert(rv.skip(end as int) =~= text@.skip(i + end));
            let plain = slice_subrange(rest, 0, end);
            assert(plain@ =~= rv.take(end as int));
            if is_image_path(p.as_str()) {
                let ghost tail = inlined(rv.skip(end as int), false, after_first(left));
                if used < tokens.len() {
                    assert(left[0] == opt_text(tokens@[used as int]));
                    assert(left.skip(1) =~= tv.skip(used + 1));
                    match &tokens[used] {
                        Some(t) => {
                            let head = slice_subrange(rest, 0, k);
                            assert(head@ =~= rv.take(k as int));
                            push_chars(&mut out, head);
                            let tc = chars_of(t.as_str());
                            push_chars(&mut out, tc.as_slice());
                            assert(out@ + tail =~= before + (rv.take(k as int) + t@ + tail));
                        },
                        None => {
                            push_chars(&mut out, plain);
                            assert(out@ + tail =~= before + (rv.take(end as int) + tail));
                        },
                    }
                    used += 1;
                } else {
                    push_chars(&mut out, plain);
                    assert(after_first(left) == left);
                    assert(out@ + tail =~= before + (rv.take(end as int) + tail));
                }
            } else {
                push_chars(&mut out, plain);
                let ghost tail = inlined(rv.skip(end as int), false, left);
                assert(out@ + tail =~= before + (rv.take(end as int) + tail));
            }
            i = i + end;
            fresh = false;
        }
    }
    assert(text@.skip(i as int) =~= Seq::<char>::empty());
    assert(out@ + inlined(text@.skip(i as int), fresh, tv.skip(used as int)) =~= out@);
    string_of(out.as_slice())
}

/// A text that attaches no image stays as it is, whatever else stands behind an `@` in it.
pub proof fn law_no_image_unchanged(s: Seq<char>, fresh: bool, tokens: Seq<Option<Seq<char>>>)
    requires
        attached(s, fresh).len() == 0,
    ensures
        inlined(s, fresh, tokens) == s,
    decreases s.len(),
{
    let k = pos(s, '@');
    lemma_pos_from(s, '@', 0);
    if k < s.len() {
        if !begins_word(s, k, fresh) {
            law_no_image_unchanged(s.skip(k + 1), false, tokens);
            assert(s =~= s.take(k + 1) + s.skip(k + 1));
        } else {
            let end = space_from(s, k + 1);
            lemma_space_from(s, k + 1);
            law_no_image_unchanged(s.skip(end), false, tokens);
            assert(s =~= s.take(end) + s.skip(end));
        }
    }
}

/// Where no image could be stored, the text stays as it is.
pub proof fn law_nothing_stored_unchanged(s: Seq<char>, fresh: bool, tokens: Seq<Option<Seq<char>>>)
    requires
        forall|i: int| 0 <= i < tokens.len() ==> (#[trigger] tokens[i]) is None,
    ensures
        inlined(s, fresh, tokens) == s,
    decreases s.len(),
{
    let k = pos(s, '@');
    lemma_pos_from(s, '@', 0);
    if k < s.len() {
        if !begins_word(s, k, fresh) {
            law_nothing_stored_unchanged(s.skip(k + 1), false, tokens);
            assert(s =~= s.take(k + 1) + s.skip(k + 1));
        } else {
            let end = space_from(s, k + 1);
            lemma_space_from(s, k + 1);
            law_nothing_stored_unchanged(s.skip(end), false, tokens);
            law_nothing_stored_unchanged(s.skip(end), false, after_first(tokens));
            assert(s =~= s.take(end) + s.skip(end));
        }
    }
}

/// The images that a text attaches are its words that begin with `@` and go on with the path of an image: a word
/// alone attaches what follows its `@`, and of two texts with white space between them each attaches its own, those
/// of the first before those of the second.
pub proof fn law_images_are_words(a: Seq<char>, sp: char, b: Seq<char>)
    requires
        is_space(sp),
    ensures
        attached(a + seq![sp] + b, true) == attached(a, true) + attached(b, true),
        (forall|i: int| 0 <= i < a.len() ==> !is_space(#[trigger] a[i])) ==> attached(a, true) == (if a.len() > 0
            && a[0] == '@' && image_path(a.skip(1)) {
            seq![a.skip(1)]
        } else {
            Seq::empty()
        }),
{
    lemma_attached_parted(a, sp, b, true);
    if forall|i: int| 0 <= i < a.len() ==> !is_space(#[trigger] a[i]) {
        lemma_pos_from(a, '@', 0);
        lemma_none_inside(Seq::empty());
        let k = pos(a, '@');
        if k == 0 && a.len() > 0 {
            lemma_space_here(a, 1);
            assert(a.subrange(1, a.len() as int) =~= a.skip(1));
            assert(a.skip(a.len() as int) =~= Seq::<char>::empty());
            assert(seq![a.skip(1)] + Seq::<Seq<char>>::empty() =~= seq![a.skip(1)]);
        } else if k < a.len() {
            let v = a.skip(k + 1);
            assert forall|i: int| 0 <= i < v.len() implies !is_space(#[trigger] v[i]) by {
                assert(v[i] == a[i + k + 1]);
            }
            lemma_none_inside(v);
        }
    }
}

proof fn lemma_none_inside(v: Seq<char>)
    requires
        forall|i: int| 0 <= i < v.len() ==> !is_space(#[trigger] v[i]),
    ensures
        attached(v, false) == Seq::<Seq<char>>::empty(),
    decreases v.len(),
{
    lemma_pos_from(v, '@', 0);
    let k = pos(v, '@');
    if k < v.len() {
        let u = v.skip(k + 1);
        assert forall|i: int| 0 <= i < u.len() implies !is_space(#[trigger] u[i]) by {
            assert(u[i] == v[i + k + 1]);
        }
        lemma_none_inside(u);
    }
}

proof fn lemma_space_here(s: Seq<char>, from: int)
    requires
        0 <= from <= s.len(),
    ensures
        from <= space_from(s, from) <= s.len(),
        forall|j: int| from <= j < space_from(s, from) ==> !is_space(#[trigger] s[j]),
        space_from(s, from) < s.len() ==> is_space(s[space_from(s, from)]),
    decreases s.len() - from,
{
    if from < s.len() && !is_space(s[from]) {
        lemma_space_here(s, from + 1);
    }
}

proof fn lemma_attached_parted(a: Seq<char>, sp: char, b: Seq<char>, fresh: bool)
    requires
        is_space(sp),
    ensures
        attached(a + seq![sp] + b, fresh) == attached(a, fresh) + attached(b, true),
    decreases a.len(),
{
    let s = a + seq![sp] + b;
    let n = a.len() as int;
    lemma_pos_from(a, '@', 0);
    lemma_pos_from(s, '@', 0);
    let k = pos(a, '@');
    let q = pos(s, '@');
    assert(s[n] == sp);
    assert(sp != '@');
    if k < n {
        assert(s[k] == '@');
        if q < k {
            assert(a[q] == s[q]);
        }
        assert(q == k);
        assert(begins_word(s, k, fresh) == begins_word(a, k, fresh));
        if !begins_word(a, k, fresh) {
            assert(s.skip(k + 1) =~= a.skip(k + 1) + seq![sp] + b);
            lemma_attached_parted(a.skip(k + 1), sp, b, false);
        } else {
            lemma_space_here(a, k + 1);
            lemma_space_here(s, k + 1);
            let e = space_from(a, k + 1);
            let f = space_from(s, k + 1);
            assert(f == e) by {
                if f < e {
                    assert(a[f] == s[f]);
                } else if f > e {
                    if e < n {
                        assert(a[e] == s[e]);
                    }
                    assert(is_space(s[e]));
                }
            }
            assert(s.subrange(k + 1, e) =~= a.subrange(k + 1, e));
            assert(s.skip(e) =~= a.skip(e) + seq![sp] + b);
            lemma_attached_parted(a.skip(e), sp, b, false);
            let path = a.subrange(k + 1, e);
            assert(seq![path] + (attached(a.skip(e), false) + attached(b, true)) =~= seq![path] + attached(
                a.skip(e),
                false,
            ) + attached(b, true));
        }
    } else {
        lemma_pos_from(b, '@', 0);
        let kb = pos(b, '@');
        assert(attached(a, fresh) =~= Seq::<Seq<char>>::empty());
        assert forall|j: int| 0 <= j <= n implies s[j] != '@' by {
            if j < n {
                assert(s[j] == a[j]);
            }
        }
        if kb < b.len() {
            assert(s[n + 1 + kb] == '@');
            assert(q == n + 1 + kb) by {
                if q < n + 1 + kb {
                    assert(s[q] == b[q - n - 1]);
                }
            }
            assert(begins_word(s, q, fresh) == begins_word(b, kb, true)) by {
                if kb > 0 {
                    assert(s[q - 1] == b[kb - 1]);
                }
            }
            assert(s.skip(q + 1) =~= b.skip(kb + 1));
            lemma_space_here(b, kb + 1);
            lemma_space_here(s, q + 1);
            let e = space_from(b, kb + 1);
            let f = space_from(s, q + 1);
            assert(f == n + 1 + e) by {
                if f < n + 1 + e {
                    assert(b[f - n - 1] == s[f]);
                } else if f > n + 1 + e {
                    assert(b[e] == s[n + 1 + e]);
                }
            }
            assert(s.subrange(q + 1, f) =~= b.subrange(kb + 1, e));
            assert(s.skip(f) =~= b.skip(e));
        } else {
            assert(q == s.len()) by {
                if q < s.len() {
                    assert(s[q] == b[q - n - 1]);
                }
            }
        }
        assert(Seq::<Seq<char>>::empty() + attached(b, true) =~= attached(b, true));
    }
}

/// Every path of an image gives way to its own token, the first to the first, the second to the second, and so on;
/// a path without a token stays as it is, and so does all the text between the paths. The pieces of text between
/// them are returned.
pub proof fn law_tokens_in_their_places(s: Seq<char>, tokens: Seq<Option<Seq<char>>>) -> (pieces: Seq<
    Seq<char>,
>)
    ensures
        ({
            let paths = attached(s, true);
            &&& pieces.len() == paths.len() + 1
            &&& woven(pieces, paths.map_values(|p: Seq<char>| seq!['@'] + p)) == s
            &&& woven(
                pieces,
                Seq::new(
                    paths.len(),
                    |j: int|
                        if j < tokens.len() && tokens[j] is Some {
                            tokens[j]->0
                        } else {
                            seq!['@'] + paths[j]
                        },
                ),
            ) == inlined(s, true, tokens)
        }),
{
    let pieces = lemma_tokens_at(s, true, tokens);
    let paths = attached(s, true);
    assert(paths.map_values(|p: Seq<char>| seq!['@'] + p) =~= marks_of(paths));
    assert(Seq::new(
        paths.len(),
        |j: int|
            if j < tokens.len() && tokens[j] is Some {
                tokens[j]->0
            } else {
                seq!['@'] + paths[j]
            },
    ) =~= shown_of(paths, tokens));
    pieces
}

spec fn marks_of(paths: Seq<Seq<char>>) -> Seq<Seq<char>> {
    Seq::new(paths.len(), |j: int| seq!['@'] + paths[j])
}

spec fn shown_of(paths: Seq<Seq<char>>, tokens: Seq<Option<Seq<char>>>) -> Seq<Seq<char>> {
    Seq::new(
        paths.len(),
        |j: int|
            if 0 <= j < tokens.len() && tokens[j] is Some {
                tokens[j]->0
            } else {
                seq!['@'] + paths[j]
            },
    )
}

proof fn lemma_woven_front(front: Seq<char>, pieces: Seq<Seq<char>>, between: Seq<Seq<char>>)
    requires
        pieces.len() > 0,
    ensures
        woven(pieces.update(0, front + pieces[0]), between) == front + woven(pieces, between),
{
    let q = pieces.update(0, front + pieces[0]);
    assert(q.skip(1) =~= pieces.skip(1));
    assert(woven(q, between) =~= front + woven(pieces, between));
}

proof fn lemma_tokens_at(s: Seq<char>, fresh: bool, tokens: Seq<Option<Seq<char>>>) -> (pieces: Seq<
    Seq<char>,
>)
    ensures
        pieces.len() == attached(s, fresh).len() + 1,
        woven(pieces, marks_of(attached(s, fresh))) == s,
        woven(pieces, shown_of(attached(s, fresh), tokens)) == inlined(s, fresh, tokens),
    decreases s.len(),
{
    lemma_pos_from(s, '@', 0);
    let k = pos(s, '@');
    let paths = attached(s, fresh);
    if k >= s.len() {
        assert(marks_of(paths).len() == 0);
        seq![s]
    } else if !begins_word(s, k, fresh) {
        let tail = lemma_tokens_at(s.skip(k + 1), false, tokens);
        let front = s.take(k + 1);
        lemma_woven_front(front, tail, marks_of(paths));
        lemma_woven_front(front, tail, shown_of(paths, tokens));
        assert(front + s.skip(k + 1) =~= s);
        tail.update(0, front + tail[0])
    } else {
        lemma_space_from(s, k + 1);
        let e = space_from(s, k + 1);
        let path = s.subrange(k + 1, e);
        let rest = attached(s.skip(e), false);
        if image_path(path) {
            let tail = lemma_tokens_at(s.skip(e), false, after_first(tokens));
            let pieces = seq![s.take(k)] + tail;
            assert(paths.skip(1) =~= rest);
            assert(pieces.skip(1) =~= tail);
            assert(marks_of(paths).skip(1) =~= marks_of(rest));
            assert(shown_of(paths, tokens).skip(1) =~= shown_of(rest, after_first(tokens)));
            assert(s.take(k) + (seq!['@'] + path) =~= s.take(e));
            assert(s.take(e) + s.skip(e) =~= s);
            assert(woven(pieces, marks_of(paths)) =~= s);
            assert(woven(pieces, shown_of(paths, tokens)) =~= inlined(s, fresh, tokens));
            pieces
        } else {
            let tail = lemma_tokens_at(s.skip(e), false, tokens);
            let front = s.take(e);
            lemma_woven_front(front, tail, marks_of(paths));
            lemma_woven_front(front, tail, shown_of(paths, tokens));
            assert(front + s.skip(e) =~= s);
            tail.update(0, front + tail[0])
        }
    }
}

} // verus!
