//! `${NAME}` placeholders in the configuration.

use crate::table::{entry, find_entry};
use crate::split::{lemma_pos_from, pos, pos_at};
use crate::text::{chars_of, find, find_at, lemma_find_from, occurs_at, push_chars, string_of};
use vstd::prelude::*;
use vstd::slice::slice_subrange;

verus! {

/// What a placeholder becomes: the variable's value, or the placeholder itself where the
/// environment does not define it.
pub open spec fn filled(env: Seq<(String, String)>, var: Seq<char>) -> Seq<char> {
    match entry(env, var) {
        Some(v) => v@,
        None => "${"@ + var + "}"@,
    }
}

/// `s` with every `${NAME}` filled in. A `${` that is never closed is kept.
pub open spec fn interpolated(env: Seq<(String, String)>, s: Seq<char>) -> Seq<char>
    decreases s.len(),
{
    match find(s, seq!['$', '{']) {
        None => s,
        Some(k) => if k < 0 || k + 2 > s.len() {
            s
        } else {
            let after = s.skip(k + 2);
            let end = pos(after, '}');
            if 0 <= end < after.len() {
                s.take(k) + filled(env, after.take(end)) + interpolated(env, after.skip(end + 1))
            } else {
                s.take(k) + seq!['$', '{'] + interpolated(env, after)
            }
        },
    }
}

/// Fills in every `${NAME}` of the environment `env`.
pub fn interpolate(input: &str, env: &Vec<(String, String)>) -> (r: String)
    ensures
        r@ == interpolated(env@, input@),
{
    let all = chars_of(input);
    let mark: Vec<char> = vec!['$', '{'];
    let open = mark.as_slice();
    assert(open@ =~= seq!['$', '{']);
    let mut out: Vec<char> = Vec::new();
    let mut rest = all.as_slice();
    assert(out@ + interpolated(env@, rest@) =~= interpolated(env@, input@));
    loop
        invariant
            open@ == seq!['$', '{'],
            out@ + interpolated(env@, rest@) == interpolated(env@, input@),
        decreases rest@.len(),
    {
        let ghost before = out@;
        assert(open@.len() == 2);
        let n: usize = rest.len();
        match find_at(rest, open, 0) {
            None => {
                push_chars(&mut out, rest);
                return string_of(out.as_slice());
            },
            Some(k) => {
                push_chars(&mut out, slice_subrange(rest, 0, k));
                assert(rest@.subrange(0, k as int) =~= rest@.take(k as int));
                let after = slice_subrange(rest, k + 2, n);
                assert(after@ =~= rest@.skip(k + 2));
                let end = pos_at(after, '}', 0);
                if end < after.len() {
                    let var = string_of(slice_subrange(after, 0, end));
                    assert(var@ =~= after@.take(end as int));
                    let value: String = match find_entry(env, var.as_str()) {
                        Some(v) => v.clone(),
                        None => {
                            let mut s = "${".to_owned();
                            s.append(var.as_str());
                            s.append("}");
                            s
                        },
                    };
                    assert(value@ == filled(env@, var@));
                    let vc = chars_of(value.as_str());
                    push_chars(&mut out, vc.as_slice());
                    let next = slice_subrange(after, end + 1, after.len());
                    assert(next@ =~= after@.skip(end + 1));
                    assert(out@ + interpolated(env@, next@) =~= before + (rest@.take(k as int)
                        + value@ + interpolated(env@, next@)));
                    rest = next;
                } else {
                    push_chars(&mut out, open);
                    assert(out@ + interpolated(env@, after@) =~= before + (rest@.take(k as int)
                        + seq!['$', '{'] + interpolated(env@, after@)));
                    rest = after;
                }
            },
        }
    }
}

/// A text without `${` is left as it is.
pub proof fn law_no_placeholder(env: Seq<(String, String)>, s: Seq<char>)
    requires
        !crate::text::contains(s, seq!['$', '{']),
    ensures
        interpolated(env, s) == s,
{
    crate::text::lemma_find_from(s, seq!['$', '{'], 0);
}

/// A placeholder gives way to the value of its variable, or stays as it is where the variable is not set; the
/// text before it stays, and the text behind it goes on in the same way.
pub proof fn law_placeholder_filled(
    env: Seq<(String, String)>,
    a: Seq<char>,
    var: Seq<char>,
    b: Seq<char>,
)
    requires
        find(a + seq!['$', '{'], seq!['$', '{']) == Some(a.len() as int),
        !var.contains('}'),
    ensures
        interpolated(env, a + seq!['$', '{'] + var + seq!['}'] + b) == a + (match entry(env, var) {
            Some(v) => v@,
            None => seq!['$', '{'] + var + seq!['}'],
        }) + interpolated(env, b),
{
    let open = seq!['$', '{'];
    let s = a + open + var + seq!['}'] + b;
    let k = a.len() as int;
    lemma_front_found(a, open, var + seq!['}'] + b);
    assert(s =~= a + open + (var + seq!['}'] + b));
    let after = s.skip(k + 2);
    assert(after =~= var + seq!['}'] + b);
    lemma_pos_from(after, '}', 0);
    assert(after[var.len() as int] == '}');
    let end = pos(after, '}');
    if end < var.len() {
        assert(after[end] == var[end]);
    }
    assert(end == var.len());
    assert(after.take(end) =~= var);
    assert(after.skip(end + 1) =~= b);
    assert(s.take(k) =~= a);
    reveal_strlit("${");
    reveal_strlit("}");
    assert("${"@ + var + "}"@ =~= seq!['$', '{'] + var + seq!['}']);
}

/// A placeholder that is not closed is none: its beginning stays.
pub proof fn law_open_placeholder_kept(env: Seq<(String, String)>, a: Seq<char>, b: Seq<char>)
    requires
        find(a + seq!['$', '{'], seq!['$', '{']) == Some(a.len() as int),
        !b.contains('}'),
    ensures
        interpolated(env, a + seq!['$', '{'] + b) == a + seq!['$', '{'] + interpolated(env, b),
{
    let open = seq!['$', '{'];
    let s = a + open + b;
    let k = a.len() as int;
    lemma_front_found(a, open, b);
    assert(s.skip(k + 2) =~= b);
    assert(s.take(k) =~= a);
    lemma_pos_from(b, '}', 0);
}

proof fn lemma_front_found(a: Seq<char>, p: Seq<char>, b: Seq<char>)
    requires
        p.len() > 0,
        find(a + p, p) == Some(a.len() as int),
    ensures
        find(a + p + b, p) == Some(a.len() as int),
{
    let s = a + p + b;
    let k = a.len() as int;
    lemma_find_from(a + p, p, 0);
    lemma_find_from(s, p, 0);
    assert(s.subrange(k, k + p.len()) =~= p);
    assert(occurs_at(s, p, k));
    assert forall|j: int| 0 <= j < k implies !occurs_at(s, p, j) by {
        assert(s.subrange(j, j + p.len()) =~= (a + p).subrange(j, j + p.len()));
        assert(!occurs_at(a + p, p, j));
    }
}

} // verus!
