//! Keeping earlier versions of the memory files.

use crate::config::paths::{file_name, file_name_of};
use crate::number::{dec, push_dec};
use crate::text::{ends_with, has_prefix, has_suffix, starts_with, texts, texts_push};
use vstd::prelude::*;

verus! {

/// How many earlier versions of a file are kept.
pub const REVISION_KEEP: usize = 10;

/// The file that is written first and then takes the place of `path`: it lies beside it.
pub open spec fn temp_of(path: Seq<char>) -> Seq<char> {
    path + ".tmp"@
}

/// The file that is written first and then takes the place of `path`.
pub fn temp_path(path: &str) -> (r: String)
    ensures
        r@ == temp_of(path@),
{
    path.to_owned().concat(".tmp")
}

/// The name under which an earlier version is kept.
pub open spec fn revision_of(path: Seq<char>, stamp: u64) -> Seq<char> {
    (match file_name(path) {
        Some(n) => n,
        None => "unknown"@,
    }) + "."@ + dec(stamp as nat) + ".bak"@
}

/// The name under which the version of this moment is kept.
pub fn revision_name(path: &str, stamp: u64) -> (r: String)
    ensures
        r@ == revision_of(path@, stamp),
{
    let mut s = match file_name_of(path) {
        Some(n) => n,
        None => "unknown".to_owned(),
    };
    s.append(".");
    push_dec(&mut s, stamp);
    s.append(".bak");
    s
}

/// A file is an earlier version of `filename`.
pub open spec fn is_revision(name: Seq<char>, filename: Seq<char>) -> bool {
    starts_with(name, filename + "."@) && ends_with(name, ".bak"@)
}

/// Files with the times of their last change.
pub open spec fn stamped_names(v: Seq<(String, u64)>) -> Seq<(Seq<char>, u64)> {
    v.map_values(|e: (String, u64)| (e.0@, e.1))
}

/// The earlier versions of a file among files.
pub open spec fn revisions(v: Seq<(Seq<char>, u64)>, filename: Seq<char>) -> Seq<(Seq<char>, u64)>
    decreases v.len(),
{
    if v.len() == 0 {
        Seq::empty()
    } else if is_revision(v.last().0, filename) {
        revisions(v.drop_last(), filename).push(v.last())
    } else {
        revisions(v.drop_last(), filename)
    }
}

/// The first place at or after `i` whose file is older than `t`.
pub open spec fn slot(v: Seq<(Seq<char>, u64)>, t: u64, i: int) -> int
    decreases v.len() - i,
{
    if i < 0 || i >= v.len() {
        v.len() as int
    } else if v[i].1 < t {
        i
    } else {
        slot(v, t, i + 1)
    }
}

/// The files with the newest first; of two of one time, the one that came first stays first.
pub open spec fn by_age(v: Seq<(Seq<char>, u64)>) -> Seq<(Seq<char>, u64)>
    decreases v.len(),
{
    if v.len() == 0 {
        v
    } else {
        let s = by_age(v.drop_last());
        s.insert(slot(s, v.last().1, 0), v.last())
    }
}

/// The names of files.
pub open spec fn only_names(v: Seq<(Seq<char>, u64)>) -> Seq<Seq<char>> {
    v.map_values(|e: (Seq<char>, u64)| e.0)
}

/// The earlier versions that are removed: all but the newest.
pub open spec fn pruned(v: Seq<(Seq<char>, u64)>, filename: Seq<char>) -> Seq<Seq<char>> {
    let s = by_age(revisions(v, filename));
    if s.len() <= REVISION_KEEP {
        Seq::empty()
    } else {
        only_names(s.skip(REVISION_KEEP as int))
    }
}

proof fn lemma_slot(v: Seq<(Seq<char>, u64)>, t: u64, i: int)
    requires
        0 <= i <= v.len(),
    ensures
        i <= slot(v, t, i) <= v.len(),
        forall|j: int| i <= j < slot(v, t, i) ==> (#[trigger] v[j]).1 >= t,
        slot(v, t, i) < v.len() ==> v[slot(v, t, i)].1 < t,
    decreases v.len() - i,
{
    if i < v.len() && v[i].1 >= t {
        lemma_slot(v, t, i + 1);
    }
}

proof fn lemma_by_age(v: Seq<(Seq<char>, u64)>)
    ensures
        by_age(v).len() == v.len(),
        forall|i: int, j: int|
            0 <= i <= j < by_age(v).len() ==> (#[trigger] by_age(v)[i]).1 >= (#[trigger] by_age(
                v,
            )[j]).1,
    decreases v.len(),
{
    if v.len() > 0 {
        let s = by_age(v.drop_last());
        lemma_by_age(v.drop_last());
        lemma_slot(s, v.last().1, 0);
    }
}

/// The earlier versions of `filename` that are to be removed, of the files of a directory.
pub fn to_prune(entries: &Vec<(String, u64)>, filename: &str) -> (r: Vec<String>)
    ensures
        texts(r@) == pruned(stamped_names(entries@), filename@),
{
    let prefix = filename.to_owned().concat(".");
    let ghost ev = stamped_names(entries@);
    let mut sorted: Vec<(String, u64)> = Vec::new();
    let mut i: usize = 0;
    assert(ev.take(0) =~= Seq::<(Seq<char>, u64)>::empty());
    assert(stamped_names(sorted@) =~= Seq::<(Seq<char>, u64)>::empty());
    while i < entries.len()
        invariant
            i <= entries@.len(),
            ev == stamped_names(entries@),
            prefix@ == filename@ + "."@,
            stamped_names(sorted@) == by_age(revisions(ev.take(i as int), filename@)),
        decreases entries@.len() - i,
    {
        let e = &entries[i];
        assert(ev.take(i + 1).drop_last() =~= ev.take(i as int));
        assert(ev.take(i + 1).last() == (e.0@, e.1));
        let ghost seen = revisions(ev.take(i as int), filename@);
        if has_prefix(e.0.as_str(), prefix.as_str()) && has_suffix(e.0.as_str(), ".bak") {
            let ghost sv = stamped_names(sorted@);
            assert(sv.len() == sorted@.len());
            let mut k: usize = 0;
            while k < sorted.len() && sorted[k].1 >= e.1
                invariant
                    k <= sorted@.len(),
                    sv == stamped_names(sorted@),
                    sv.len() == sorted@.len(),
                    slot(sv, e.1, 0) == slot(sv, e.1, k as int),
                decreases sorted@.len() - k,
            {
                assert(sv[k as int].1 == sorted@[k as int].1);
                k += 1;
            }
            if k < sorted.len() {
                assert(sv[k as int].1 == sorted@[k as int].1);
            }
            let ghost added = (e.0@, e.1);
            sorted.insert(k, (e.0.clone(), e.1));
            assert(stamped_names(sorted@) =~= sv.insert(k as int, added));
            assert(seen.push(added).drop_last() =~= seen);
        }
        i += 1;
    }
    assert(ev.take(i as int) =~= ev);
    let ghost sv = stamped_names(sorted@);
    let mut out: Vec<String> = Vec::new();
    assert(sv.len() == sorted@.len());
    if sorted.len() <= REVISION_KEEP {
        assert(texts(out@) =~= Seq::<Seq<char>>::empty());
        return out;
    }
    let mut k: usize = REVISION_KEEP;
    let ghost rest = only_names(sv.skip(REVISION_KEEP as int));
    assert(texts(out@) =~= rest.take(0));
    while k < sorted.len()
        invariant
            REVISION_KEEP <= k <= sorted@.len(),
            sv == stamped_names(sorted@),
            sv.len() == sorted@.len(),
            rest == only_names(sv.skip(REVISION_KEEP as int)),
            texts(out@) == rest.take(k - REVISION_KEEP),
        decreases sorted@.len() - k,
    {
        broadcast use texts_push;

        assert(rest.take(k - REVISION_KEEP + 1) =~= rest.take(k - REVISION_KEEP).push(
            sorted@[k as int].0@,
        ));
        out.push(sorted[k].0.clone());
        k += 1;
    }
    assert(rest.take(k - REVISION_KEEP) =~= rest);
    out
}

/// As many earlier versions stay as are to be kept, and none that goes is newer than one that stays.
pub proof fn law_newest_revisions_stay(v: Seq<(Seq<char>, u64)>, filename: Seq<char>)
    ensures
        ({
            let s = by_age(revisions(v, filename));
            &&& s.len() == revisions(v, filename).len()
            &&& pruned(v, filename).len() == if s.len() <= REVISION_KEEP {
                0
            } else {
                (s.len() - REVISION_KEEP) as nat
            }
            &&& forall|i: int, j: int|
                0 <= i < REVISION_KEEP <= j < s.len() ==> (#[trigger] s[i]).1 >= (#[trigger] s[j]).1
        }),
{
    lemma_by_age(revisions(v, filename));
}

/// The file that is written first lies beside the one that it replaces; an earlier version is kept under the
/// name of the file with its moment.
pub proof fn law_names_beside(path: Seq<char>, stamp: u64)
    ensures
        temp_of(path) == path + ".tmp"@,
        file_name(path) matches Some(n) ==> revision_of(path, stamp) == n + "."@ + dec(stamp as nat) + ".bak"@,
        file_name(path) matches Some(n) ==> is_revision(revision_of(path, stamp), n),
{
    if let Some(n) = file_name(path) {
        let r = revision_of(path, stamp);
        let d = dec(stamp as nat);
        reveal_strlit(".");
        reveal_strlit(".bak");
        assert(r.subrange(0, (n.len() + 1) as int) =~= n + "."@);
        assert(r.subrange(r.len() - 4, r.len() as int) =~= ".bak"@);
    }
}

/// The versions of a file are those entries whose names are its own with something and the ending behind it.
pub proof fn law_versions_of_a_file(v: Seq<(Seq<char>, u64)>, e: (Seq<char>, u64), filename: Seq<char>)
    ensures
        revisions(v.push(e), filename) == (if starts_with(e.0, filename + "."@) && ends_with(e.0, ".bak"@) {
            revisions(v, filename).push(e)
        } else {
            revisions(v, filename)
        }),
        revisions(Seq::empty(), filename).len() == 0,
{
    assert(v.push(e).drop_last() =~= v);
}

/// What is deleted are versions of the file, and none while there are ten or fewer; every deleted one is at
/// least as old as every one of the ten that stay.
pub proof fn law_old_versions_deleted(v: Seq<(Seq<char>, u64)>, filename: Seq<char>)
    ensures
        ({
            let all = revisions(v, filename);
            let s = by_age(all);
            let gone = pruned(v, filename);
            &&& s.to_multiset() == all.to_multiset()
            &&& forall|i: int, j: int|
                0 <= i <= j < s.len() ==> (#[trigger] s[i]).1 >= (#[trigger] s[j]).1
            &&& gone.len() == if all.len() <= 10 {
                0int
            } else {
                all.len() - 10
            }
            &&& forall|i: int| 0 <= i < gone.len() ==> (#[trigger] gone[i]) == s[i + 10].0
        }),
{
    lemma_by_age(revisions(v, filename));
    lemma_same_entries(revisions(v, filename));
}

proof fn lemma_same_entries(v: Seq<(Seq<char>, u64)>)
    ensures
        by_age(v).to_multiset() == v.to_multiset(),
    decreases v.len(),
{
    broadcast use vstd::seq_lib::group_to_multiset_ensures;

    if v.len() > 0 {
        let x = v.last();
        let s = by_age(v.drop_last());
        lemma_same_entries(v.drop_last());
        lemma_slot(s, x.1, 0);
        let k = slot(s, x.1, 0);
        vstd::seq_lib::to_multiset_insert(s, k, x);
        assert(v =~= v.drop_last().push(x));
        assert(v.to_multiset() =~= v.drop_last().to_multiset().insert(x));
    }
}

} // verus!
