//! The order in which MCP servers are started.

use crate::config::settings::McpServerConfig;
use crate::order::{before, comes_before, lemma_before_total, lemma_before_trans};
use crate::text::{texts, texts_push};
use vstd::prelude::*;
use vstd::seq_lib::{group_to_multiset_ensures, to_multiset_insert};

verus! {

/// How many seconds a server may take to be connected to and to list its tools.
pub const PER_SERVER_TIMEOUT_SECS: u64 = 15;

/// The first place at or after `i` whose name comes after `name`.
pub open spec fn name_slot(v: Seq<Seq<char>>, name: Seq<char>, i: int) -> int
    decreases v.len() - i,
{
    if i < 0 || i >= v.len() {
        v.len() as int
    } else if before(name, v[i]) {
        i
    } else {
        name_slot(v, name, i + 1)
    }
}

/// The names in order.
pub open spec fn in_order(v: Seq<Seq<char>>) -> Seq<Seq<char>>
    decreases v.len(),
{
    if v.len() == 0 {
        v
    } else {
        let s = in_order(v.drop_last());
        s.insert(name_slot(s, v.last(), 0), v.last())
    }
}

/// The names in order.
pub fn sorted_names(names: &Vec<String>) -> (r: Vec<String>)
    ensures
        texts(r@) == in_order(texts(names@)),
{
    let ghost nv = texts(names@);
    let mut out: Vec<String> = Vec::new();
    let mut i: usize = 0;
    assert(nv.take(0) =~= Seq::<Seq<char>>::empty());
    assert(texts(out@) =~= Seq::<Seq<char>>::empty());
    while i < names.len()
        invariant
            i <= names@.len(),
            nv == texts(names@),
            texts(out@) == in_order(nv.take(i as int)),
        decreases names@.len() - i,
    {
        let n = &names[i];
        assert(nv.take(i + 1).drop_last() =~= nv.take(i as int));
        assert(nv.take(i + 1).last() == n@);
        let ghost ov = texts(out@);
        assert(ov.len() == out@.len());
        let mut k: usize = 0;
        while k < out.len() && !comes_before(n.as_str(), out[k].as_str())
            invariant
                k <= out@.len(),
                ov == texts(out@),
                ov.len() == out@.len(),
                name_slot(ov, n@, 0) == name_slot(ov, n@, k as int),
            decreases out@.len() - k,
        {
            assert(ov[k as int] == out@[k as int]@);
            k += 1;
        }
        if k < out.len() {
            assert(ov[k as int] == out@[k as int]@);
        }
        out.insert(k, n.clone());
        assert(texts(out@) =~= ov.insert(k as int, n@));
        i += 1;
    }
    assert(nv.take(i as int) =~= nv);
    out
}

/// The names of servers.
pub open spec fn server_names(v: Seq<(String, McpServerConfig)>) -> Seq<Seq<char>> {
    v.map_values(|s: (String, McpServerConfig)| s.0@)
}

/// The names of the servers in the order in which they are started.
pub fn start_order(servers: &Vec<(String, McpServerConfig)>) -> (r: Vec<String>)
    ensures
        texts(r@) == in_order(server_names(servers@)),
{
    let ghost sv = server_names(servers@);
    let mut names: Vec<String> = Vec::new();
    let mut i: usize = 0;
    assert(texts(names@) =~= sv.take(0));
    while i < servers.len()
        invariant
            i <= servers@.len(),
            sv == server_names(servers@),
            texts(names@) == sv.take(i as int),
        decreases servers@.len() - i,
    {
        broadcast use texts_push;

        assert(sv.take(i + 1) =~= sv.take(i as int).push(servers@[i as int].0@));
        names.push(servers[i].0.clone());
        i += 1;
    }
    assert(sv.take(i as int) =~= sv);
    sorted_names(&names)
}

proof fn lemma_slot(v: Seq<Seq<char>>, name: Seq<char>, i: int)
    requires
        0 <= i <= v.len(),
    ensures
        i <= name_slot(v, name, i) <= v.len(),
        forall|j: int| i <= j < name_slot(v, name, i) ==> !before(name, #[trigger] v[j]),
        name_slot(v, name, i) < v.len() ==> before(name, v[name_slot(v, name, i)]),
    decreases v.len() - i,
{
    if i < v.len() && !before(name, v[i]) {
        lemma_slot(v, name, i + 1);
    }
}

/// Every server is started as often as it is configured, and none whose name comes before an earlier one.
pub proof fn law_start_order_sorted(v: Seq<Seq<char>>)
    ensures
        in_order(v).to_multiset() == v.to_multiset(),
        forall|i: int, j: int|
            0 <= i < j < in_order(v).len() ==> !before(
                #[trigger] in_order(v)[j],
                #[trigger] in_order(v)[i],
            ),
    decreases v.len(),
{
    if v.len() > 0 {
        let s = in_order(v.drop_last());
        let x = v.last();
        law_start_order_sorted(v.drop_last());
        lemma_slot(s, x, 0);
        let k = name_slot(s, x, 0);
        let t = s.insert(k, x);
        assert(t.to_multiset() =~= v.to_multiset()) by {
            broadcast use group_to_multiset_ensures;

            to_multiset_insert(s, k, x);
            assert(v =~= v.drop_last().push(x));
        }
        assert forall|i: int, j: int| 0 <= i < j < t.len() implies !before(
            #[trigger] t[j],
            #[trigger] t[i],
        ) by {
            if j < k {
                assert(t[i] == s[i] && t[j] == s[j]);
            } else if j == k {
                assert(t[j] == x && t[i] == s[i]);
            } else if i == k {
                assert(t[i] == x && t[j] == s[j - 1]);
                assert(before(x, s[k]));
                if before(s[j - 1], x) {
                    lemma_before_trans(s[j - 1], x, s[k]);
                    if j - 1 > k {
                    } else {
                        lemma_before_total(x, s[k]);
                    }
                }
            } else {
                let a = if i < k {
                    i
                } else {
                    i - 1
                };
                assert(t[i] == s[a] && t[j] == s[j - 1]);
            }
        }
    }
}

} // verus!
