//! JSON text as it is written: a document keeps one entry for each key of an object, its text may give a
//! key more than once.

use crate::json::{
    entry_views, json_parse, json_view_arr, json_view_obj, json_views, opt_view, Json, JsonView,
};
use crate::number::{dec, push_dec};
use crate::text::{chars_of, opt_text, str_eq, string_of};
use vstd::prelude::*;
use vstd::slice::slice_subrange;

verus! {

// ---------------------------------------------------------------------------------------------
// Scanning
// ---------------------------------------------------------------------------------------------

/// Where a scan of a JSON text stands: between strings, in a string, or in a string behind a backslash.
#[derive(Clone, Copy, Debug, PartialEq, Eq, Structural)]
pub enum Scan {
    Between,
    Inside,
    Escaped,
}

/// One character more.
pub open spec fn scan_step(q: Scan, c: char) -> Scan {
    match q {
        Scan::Between => if c == '"' {
            Scan::Inside
        } else {
            Scan::Between
        },
        Scan::Inside => if c == '"' {
            Scan::Between
        } else if c == '\\' {
            Scan::Escaped
        } else {
            Scan::Inside
        },
        Scan::Escaped => Scan::Inside,
    }
}

/// Where the scan stands after the text.
pub open spec fn scanned(s: Seq<char>) -> Scan
    decreases s.len(),
{
    if s.len() == 0 {
        Scan::Between
    } else {
        scan_step(scanned(s.drop_last()), s.last())
    }
}

/// The number of colons that stand between the strings of a text: one for each entry of an object that the
/// text gives.
pub open spec fn colons(s: Seq<char>) -> nat
    decreases s.len(),
{
    if s.len() == 0 {
        0
    } else {
        colons(s.drop_last()) + if scanned(s.drop_last()) is Between && s.last() == ':' {
            1nat
        } else {
            0nat
        }
    }
}

/// The text with a mark at the beginning of each of its strings: the place at which the string stands, and
/// a slash. No two keys are then the same.
pub open spec fn marked(s: Seq<char>) -> Seq<char>
    decreases s.len(),
{
    if s.len() == 0 {
        s
    } else {
        marked(s.drop_last()).push(s.last()) + if scanned(s.drop_last()) is Between && s.last() == '"' {
            dec((s.len() - 1) as nat).push('/')
        } else {
            Seq::empty()
        }
    }
}

/// A string without its mark.
pub open spec fn unmarked(s: Seq<char>) -> Seq<char>
    decreases s.len(),
{
    if s.len() == 0 {
        s
    } else if s[0] == '/' {
        s.skip(1)
    } else {
        unmarked(s.skip(1))
    }
}

fn step(q: Scan, c: char) -> (r: Scan)
    ensures
        r == scan_step(q, c),
{
    match q {
        Scan::Between => if c == '"' {
            Scan::Inside
        } else {
            Scan::Between
        },
        Scan::Inside => if c == '"' {
            Scan::Between
        } else if c == '\\' {
            Scan::Escaped
        } else {
            Scan::Inside
        },
        Scan::Escaped => Scan::Inside,
    }
}

fn count_colons(s: &str) -> (r: usize)
    ensures
        r == colons(s@),
{
    let a = chars_of(s);
    let mut q = Scan::Between;
    let mut n: usize = 0;
    let mut i: usize = 0;
    assert(s@.take(0).len() == 0);
    while i < a.len()
        invariant
            i <= a@.len(),
            a@ == s@,
            n <= i,
            n == colons(s@.take(i as int)),
            q == scanned(s@.take(i as int)),
        decreases a@.len() - i,
    {
        assert(s@.take(i + 1).drop_last() =~= s@.take(i as int));
        let c = a[i];
        if q == Scan::Between && c == ':' {
            n += 1;
        }
        q = step(q, c);
        i += 1;
    }
    assert(s@.take(i as int) =~= s@);
    n
}

/// The text with a mark at the beginning of each of its strings.
pub fn mark_strings(s: &str) -> (r: String)
    ensures
        r@ == marked(s@),
{
    let a = chars_of(s);
    let mut q = Scan::Between;
    let mut out = String::new();
    let mut i: usize = 0;
    assert(s@.take(0).len() == 0);
    assert(out@ =~= marked(s@.take(0)));
    while i < a.len()
        invariant
            i <= a@.len(),
            a@ == s@,
            out@ == marked(s@.take(i as int)),
            q == scanned(s@.take(i as int)),
        decreases a@.len() - i,
    {
        assert(s@.take(i + 1).drop_last() =~= s@.take(i as int));
        let c = a[i];
        let ghost before = out@;
        out.push(c);
        if q == Scan::Between && c == '"' {
            push_dec(&mut out, i as u64);
            out.push('/');
            assert(out@ =~= before.push(c) + dec(i as nat).push('/'));
        } else {
            assert(out@ =~= before.push(c) + Seq::<char>::empty());
        }
        q = step(q, c);
        i += 1;
    }
    assert(s@.take(i as int) =~= s@);
    out
}

/// A string without its mark.
pub fn unmark(s: &str) -> (r: String)
    ensures
        r@ == unmarked(s@),
{
    let a = chars_of(s);
    let mut i: usize = 0;
    assert(s@.skip(0) =~= s@);
    while i < a.len()
        invariant
            i <= a@.len(),
            a@ == s@,
            unmarked(s@) == unmarked(s@.skip(i as int)),
        decreases a@.len() - i,
    {
        assert(s@.skip(i as int).skip(1) =~= s@.skip(i + 1));
        if a[i] == '/' {
            let r = string_of(slice_subrange(a.as_slice(), i + 1, a.len()));
            assert(r@ =~= s@.skip(i + 1));
            return r;
        }
        i += 1;
    }
    String::new()
}

// ---------------------------------------------------------------------------------------------
// Counting
// ---------------------------------------------------------------------------------------------

/// The number of entries of all the objects in a value.
pub open spec fn entries(j: JsonView) -> nat
    decreases j,
{
    match j {
        JsonView::Arr(v) => entries_of_all(v),
        JsonView::Obj(e) => entries_of_each(e),
        _ => 0,
    }
}

/// The number of entries of all the objects in the values.
pub open spec fn entries_of_all(v: Seq<JsonView>) -> nat
    decreases v,
{
    if v.len() == 0 {
        0
    } else {
        entries_of_all(v.drop_last()) + entries(v.last())
    }
}

/// The number of the entries, with those of all the objects in their values.
pub open spec fn entries_of_each(e: Seq<(Seq<char>, JsonView)>) -> nat
    decreases e,
{
    if e.len() == 0 {
        0
    } else {
        entries_of_each(e.drop_last()) + 1 + entries(e.last().1)
    }
}

/// The text gives a document, and every key that it gives is an entry of the document: no object gives a
/// key twice.
pub open spec fn written_once(s: Seq<char>) -> bool {
    json_parse(s) matches Some(j) && colons(s) == entries(j)
}

proof fn lemma_entries_part(v: Seq<JsonView>, i: int)
    requires
        0 <= i <= v.len(),
    ensures
        entries_of_all(v.take(i)) <= entries_of_all(v),
    decreases v.len() - i,
{
    if i < v.len() {
        assert(v.take(i + 1).drop_last() =~= v.take(i));
        lemma_entries_part(v, i + 1);
    } else {
        assert(v.take(i) =~= v);
    }
}

proof fn lemma_each_part(e: Seq<(Seq<char>, JsonView)>, i: int)
    requires
        0 <= i <= e.len(),
    ensures
        entries_of_each(e.take(i)) <= entries_of_each(e),
    decreases e.len() - i,
{
    if i < e.len() {
        assert(e.take(i + 1).drop_last() =~= e.take(i));
        lemma_each_part(e, i + 1);
    } else {
        assert(e.take(i) =~= e);
    }
}

/// What is left of `budget` after one for each entry; nothing where it is not enough.
fn spend(j: &Json, budget: usize) -> (r: Option<usize>)
    ensures
        match r {
            Some(left) => left + entries(j@) == budget,
            None => entries(j@) > budget,
        },
    decreases j,
{
    match j {
        Json::Arr(v) => {
            proof {
                json_view_arr(*v);
            }
            let ghost vv = json_views(v@);
            let mut left: usize = budget;
            let mut i: usize = 0;
            assert(vv.take(0).len() == 0);
            while i < v.len()
                invariant
                    i <= v@.len(),
                    *j == Json::Arr(*v),
                    vv == json_views(v@),
                    j@ == JsonView::Arr(vv),
                    left + entries_of_all(vv.take(i as int)) == budget,
                decreases v@.len() - i,
            {
                assert(decreases_to!(*j => j->Arr_0));
                assert(decreases_to!(*v => v@[i as int]));
                assert(vv.take(i + 1).drop_last() =~= vv.take(i as int));
                assert(vv.take(i + 1).last() == v@[i as int]@);
                match spend(&v[i], left) {
                    Some(n) => {
                        left = n;
                    },
                    None => {
                        proof {
                            lemma_entries_part(vv, i + 1);
                        }
                        return None;
                    },
                }
                i += 1;
            }
            assert(vv.take(i as int) =~= vv);
            Some(left)
        },
        Json::Obj(v) => {
            proof {
                json_view_obj(*v);
            }
            let ghost ev = entry_views(v@);
            let mut left: usize = budget;
            let mut i: usize = 0;
            assert(ev.take(0).len() == 0);
            while i < v.len()
                invariant
                    i <= v@.len(),
                    *j == Json::Obj(*v),
                    ev == entry_views(v@),
                    j@ == JsonView::Obj(ev),
                    left + entries_of_each(ev.take(i as int)) == budget,
                decreases v@.len() - i,
            {
                assert(decreases_to!(*j => j->Obj_0));
                assert(decreases_to!(*v => v@[i as int]));
                assert(decreases_to!(v@[i as int] => v@[i as int].1));
                assert(ev.take(i + 1).drop_last() =~= ev.take(i as int));
                assert(ev.take(i + 1).last() == (v@[i as int].0@, v@[i as int].1@));
                proof {
                    lemma_each_part(ev, i + 1);
                }
                if left == 0 {
                    return None;
                }
                match spend(&v[i].1, left - 1) {
                    Some(n) => {
                        left = n;
                    },
                    None => {
                        return None;
                    },
                }
                i += 1;
            }
            assert(ev.take(i as int) =~= ev);
            Some(left)
        },
        _ => Some(budget),
    }
}

/// Whether the text of a document gives no key of an object twice.
pub fn is_written_once(s: &str, j: &Json) -> (r: bool)
    ensures
        r == (colons(s@) == entries(j@)),
{
    spend(j, count_colons(s)) == Some(0usize)
}

// ---------------------------------------------------------------------------------------------
// Reading a marked document
// ---------------------------------------------------------------------------------------------

/// How many of the entries of a marked object have the key.
pub open spec fn times(e: Seq<(Seq<char>, JsonView)>, key: Seq<char>) -> nat
    decreases e.len(),
{
    if e.len() == 0 {
        0
    } else {
        times(e.drop_last(), key) + if unmarked(e.last().0) == key {
            1nat
        } else {
            0nat
        }
    }
}

/// A marked value gives the key at most once.
pub open spec fn once(j: JsonView, key: Seq<char>) -> bool {
    match j {
        JsonView::Obj(e) => times(e, key) <= 1,
        _ => true,
    }
}

/// The first entry of a marked object with the key, at or after `i`.
pub open spec fn marked_from(e: Seq<(Seq<char>, JsonView)>, key: Seq<char>, i: int) -> Option<JsonView>
    decreases e.len() - i,
{
    if i < 0 || i >= e.len() {
        None
    } else if unmarked(e[i].0) == key {
        Some(e[i].1)
    } else {
        marked_from(e, key, i + 1)
    }
}

/// The field with the name `key` and the place `idx` of a marked record.
pub open spec fn marked_field(j: JsonView, key: Seq<char>, idx: int) -> Option<JsonView> {
    match j {
        JsonView::Arr(v) => if 0 <= idx < v.len() {
            Some(v[idx])
        } else {
            None
        },
        JsonView::Obj(e) => marked_from(e, key, 0),
        _ => None,
    }
}

/// The word that a marked value is: a string, or the key of the only entry of an object.
pub open spec fn marked_word(j: JsonView) -> Option<Seq<char>> {
    match j {
        JsonView::Str(s) => Some(unmarked(s)),
        JsonView::Obj(e) => if e.len() == 1 {
            Some(unmarked(e[0].0))
        } else {
            None
        },
        _ => None,
    }
}

/// Whether a marked value gives the key at most once.
pub fn gives_once(j: &Json, key: &str) -> (r: bool)
    ensures
        r == once(j@, key@),
{
    match j {
        Json::Obj(v) => {
            proof {
                json_view_obj(*v);
            }
            let ghost ev = entry_views(v@);
            let mut seen = false;
            let mut i: usize = 0;
            assert(ev.take(0).len() == 0);
            while i < v.len()
                invariant
                    i <= v@.len(),
                    ev == entry_views(v@),
                    j@ == JsonView::Obj(ev),
                    times(ev.take(i as int), key@) == if seen {
                        1nat
                    } else {
                        0nat
                    },
                decreases v@.len() - i,
            {
                assert(ev.take(i + 1).drop_last() =~= ev.take(i as int));
                assert(ev.take(i + 1).last() == (v@[i as int].0@, v@[i as int].1@));
                if str_eq(unmark(v[i].0.as_str()).as_str(), key) {
                    if seen {
                        proof {
                            lemma_times_part(ev, key@, i + 1);
                        }
                        return false;
                    }
                    seen = true;
                }
                i += 1;
            }
            assert(ev.take(i as int) =~= ev);
            true
        },
        _ => true,
    }
}

proof fn lemma_times_part(e: Seq<(Seq<char>, JsonView)>, key: Seq<char>, i: int)
    requires
        0 <= i <= e.len(),
    ensures
        times(e.take(i), key) <= times(e, key),
    decreases e.len() - i,
{
    if i < e.len() {
        assert(e.take(i + 1).drop_last() =~= e.take(i));
        lemma_times_part(e, key, i + 1);
    } else {
        assert(e.take(i) =~= e);
    }
}

/// The field with the name `key` and the place `idx` of a marked record.
pub fn get_marked<'a>(j: &'a Json, key: &str, idx: usize) -> (r: Option<&'a Json>)
    ensures
        opt_view(r) == marked_field(j@, key@, idx as int),
{
    match j {
        Json::Arr(v) => {
            proof {
                json_view_arr(*v);
            }
            if idx < v.len() {
                assert(json_views(v@)[idx as int] == v@[idx as int]@);
                Some(&v[idx])
            } else {
                None
            }
        },
        Json::Obj(v) => {
            proof {
                json_view_obj(*v);
            }
            let ghost ev = entry_views(v@);
            let mut i: usize = 0;
            while i < v.len()
                invariant
                    i <= v@.len(),
                    ev == entry_views(v@),
                    j@ == JsonView::Obj(ev),
                    marked_from(ev, key@, 0) == marked_from(ev, key@, i as int),
                decreases v@.len() - i,
            {
                assert(ev[i as int] == (v@[i as int].0@, v@[i as int].1@));
                if str_eq(unmark(v[i].0.as_str()).as_str(), key) {
                    return Some(&v[i].1);
                }
                i += 1;
            }
            None
        },
        _ => None,
    }
}

/// The word that a marked value is.
pub fn get_word(j: &Json) -> (r: Option<String>)
    ensures
        opt_text(r) == marked_word(j@),
{
    match j {
        Json::Str(s) => Some(unmark(s.as_str())),
        Json::Obj(v) => {
            proof {
                json_view_obj(*v);
            }
            assert(entry_views(v@).len() == v@.len());
            if v.len() == 1 {
                assert(entry_views(v@)[0].0 == v@[0].0@);
                Some(unmark(v[0].0.as_str()))
            } else {
                None
            }
        },
        _ => None,
    }
}

/// A string begins at a quotation mark and ends at the next one that no backslash stands before; what stands behind
/// a backslash is part of the string.
pub proof fn law_strings_told(s: Seq<char>, c: char)
    ensures
        scanned(Seq::empty()) == Scan::Between,
        scanned(s) is Between ==> scanned(s.push('"')) is Inside,
        scanned(s) is Between && c != '"' ==> scanned(s.push(c)) is Between,
        scanned(s) is Inside ==> scanned(s.push('"')) is Between && scanned(s.push('\\')) is Escaped,
        scanned(s) is Inside && c != '"' && c != '\\' ==> scanned(s.push(c)) is Inside,
        scanned(s) is Escaped ==> scanned(s.push(c)) is Inside,
{
    assert(s.push(c).drop_last() =~= s);
    assert(s.push('"').drop_last() =~= s);
    assert(s.push('\\').drop_last() =~= s);
}

/// The colons between strings are counted, and no others; every string is marked with the place at which it begins
/// and a slash, and the rest of the text stays.
pub proof fn law_strings_marked(s: Seq<char>, c: char)
    ensures
        colons(Seq::empty()) == 0,
        scanned(s) is Between ==> colons(s.push(':')) == colons(s) + 1,
        scanned(s) is Inside || scanned(s) is Escaped || c != ':' ==> colons(s.push(c)) == colons(s),
        marked(Seq::empty()).len() == 0,
        scanned(s) is Between ==> marked(s.push('"')) == marked(s) + seq!['"'] + dec(s.len()) + seq!['/'],
        scanned(s) is Inside || scanned(s) is Escaped || c != '"' ==> marked(s.push(c)) == marked(s) + seq![c],
{
    assert(s.push(c).drop_last() =~= s);
    assert(s.push('"').drop_last() =~= s);
    assert(s.push(':').drop_last() =~= s);
    assert(marked(s).push('"') + dec(s.len()).push('/') =~= marked(s) + seq!['"'] + dec(s.len()) + seq!['/']);
    assert(marked(s).push(c) + Seq::<char>::empty() =~= marked(s) + seq![c]);
}

/// The mark of a string is what stands before its first slash, and comes off with it.
pub proof fn law_mark_taken_off(n: Seq<char>, s: Seq<char>)
    requires
        !n.contains('/'),
    ensures
        unmarked(n + seq!['/'] + s) == s,
    decreases n.len(),
{
    let t = n + seq!['/'] + s;
    if n.len() == 0 {
        assert(t.skip(1) =~= s);
    } else {
        assert(t[0] == n[0]);
        assert(n.contains(n[0]));
        let m = n.skip(1);
        assert(!m.contains('/')) by {
            if m.contains('/') {
                let i = choose|i: int| 0 <= i < m.len() && m[i] == '/';
                assert(n[i + 1] == '/');
            }
        }
        law_mark_taken_off(m, s);
        assert(t.skip(1) =~= m + seq!['/'] + s);
    }
}

/// The entries of a document are those of its objects, at whatever depth.
pub proof fn law_entries_counted(
    v: Seq<JsonView>,
    e: Seq<(Seq<char>, JsonView)>,
    key: Seq<char>,
    j: JsonView,
)
    ensures
        entries(JsonView::Arr(Seq::empty())) == 0,
        entries(JsonView::Obj(Seq::empty())) == 0,
        entries(JsonView::Arr(v.push(j))) == entries(JsonView::Arr(v)) + entries(j),
        entries(JsonView::Obj(e.push((key, j)))) == entries(JsonView::Obj(e)) + 1 + entries(j),
        !(j is Arr) && !(j is Obj) ==> entries(j) == 0,
{
    assert(v.push(j).drop_last() =~= v);
    assert(e.push((key, j)).drop_last() =~= e);
}

/// A document gives a name once where at most one entry of the object has it, behind its mark.
pub proof fn law_given_once(e: Seq<(Seq<char>, JsonView)>, name: Seq<char>, key: Seq<char>, j: JsonView)
    ensures
        times(Seq::empty(), key) == 0,
        unmarked(name) == key ==> times(e.push((name, j)), key) == times(e, key) + 1,
        unmarked(name) != key ==> times(e.push((name, j)), key) == times(e, key),
        once(JsonView::Obj(e), key) <==> times(e, key) <= 1,
        !(j is Obj) ==> once(j, key),
{
    assert(e.push((name, j)).drop_last() =~= e);
}

/// A marked field is the first entry with its name behind the mark, or stands at its place in an array; a marked
/// word is a string, or the only name of an object.
pub proof fn law_marked_fields(
    e: Seq<(Seq<char>, JsonView)>,
    name: Seq<char>,
    key: Seq<char>,
    v: JsonView,
    a: Seq<JsonView>,
    b: Seq<JsonView>,
)
    ensures
        unmarked(name) == key ==> marked_field(JsonView::Obj(seq![(name, v)] + e), key, 0) == Some(v),
        (forall|i: int| 0 <= i < e.len() ==> unmarked((#[trigger] e[i]).0) != key) ==> marked_field(
            JsonView::Obj(e),
            key,
            0,
        ) is None,
        marked_field(JsonView::Arr(a + seq![v] + b), key, a.len() as int) == Some(v),
        marked_field(JsonView::Arr(a), key, a.len() as int) is None,
        marked_word(JsonView::Str(name)) == Some(unmarked(name)),
        marked_word(JsonView::Obj(seq![(name, v)])) == Some(unmarked(name)),
        e.len() != 1 ==> marked_word(JsonView::Obj(e)) is None,
{
    let x = seq![(name, v)] + e;
    assert(x[0] == (name, v));
    assert(seq![(name, v)][0] == (name, v));
    if forall|i: int| 0 <= i < e.len() ==> unmarked((#[trigger] e[i]).0) != key {
        lemma_not_marked(e, key, 0);
    }
}

proof fn lemma_not_marked(e: Seq<(Seq<char>, JsonView)>, key: Seq<char>, i: int)
    requires
        0 <= i <= e.len(),
        forall|k: int| 0 <= k < e.len() ==> unmarked((#[trigger] e[k]).0) != key,
    ensures
        marked_from(e, key, i) is None,
    decreases e.len() - i,
{
    if i < e.len() {
        lemma_not_marked(e, key, i + 1);
    }
}

} // verus!
