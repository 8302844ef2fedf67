//! Where the agent keeps its files: everything stands under one root directory.

use crate::split::{law_split_and_joined, law_split_at, split_on, split_str};
use crate::text::{has_prefix, has_suffix, starts_with, ends_with, str_eq, texts};
use vstd::prelude::*;

verus! {

/// The path `child` seen from the directory `base`: an absolute path stands for itself.
pub open spec fn joined(base: Seq<char>, child: Seq<char>) -> Seq<char> {
    if starts_with(child, "/"@) || base.len() == 0 {
        child
    } else if ends_with(base, "/"@) {
        base + child
    } else {
        base + "/"@ + child
    }
}

/// The path `child` seen from the directory `base`.
pub fn join_path(base: &str, child: &str) -> (r: String)
    ensures
        r@ == joined(base@, child@),
{
    if has_prefix(child, "/") || base.is_empty() {
        return child.to_owned();
    }
    let mut out = base.to_owned();
    if !has_suffix(base, "/") {
        out.append("/");
    }
    out.append(child);
    out
}

/// The root directory: `CARTER_HOME` where it is set, else `.carter` in the user's home
/// directory, which is the current directory where the system names none.
pub open spec fn home_of(explicit: Option<String>, home: Option<String>) -> Seq<char> {
    match explicit {
        Some(e) => e@,
        None => match home {
            Some(h) => joined(h@, ".carter"@),
            None => joined("."@, ".carter"@),
        },
    }
}

/// The root directory, from what the environment says of `CARTER_HOME` and of the user's home.
pub fn carter_home(explicit: Option<String>, home: Option<String>) -> (r: String)
    ensures
        r@ == home_of(explicit, home),
{
    match explicit {
        Some(e) => e,
        None => match home {
            Some(h) => join_path(h.as_str(), ".carter"),
            None => join_path(".", ".carter"),
        },
    }
}

/// The configuration file.
pub fn config_path(root: &str) -> (r: String)
    ensures
        r@ == joined(root@, "config.toml"@),
{
    join_path(root, "config.toml")
}

/// The cached catalogue.
pub fn models_cache_path(root: &str) -> (r: String)
    ensures
        r@ == joined(root@, "models.json"@),
{
    join_path(root, "models.json")
}

/// The directory of the skills.
pub fn skills_dir(root: &str) -> (r: String)
    ensures
        r@ == joined(root@, "skills"@),
{
    join_path(root, "skills")
}

/// The file that replaces the built-in persona where it exists.
pub fn system_prompt_path(root: &str) -> (r: String)
    ensures
        r@ == joined(root@, "system.md"@),
{
    join_path(root, "system.md")
}

/// The global memory file.
pub fn global_memory_path(root: &str) -> (r: String)
    ensures
        r@ == joined(root@, "CARTER.md"@),
{
    join_path(root, "CARTER.md")
}

/// The global facts.
pub fn global_facts_path(root: &str) -> (r: String)
    ensures
        r@ == joined(root@, "facts.md"@),
{
    join_path(root, "facts.md")
}

/// The user's profile.
pub fn global_profile_path(root: &str) -> (r: String)
    ensures
        r@ == joined(root@, "profile.md"@),
{
    join_path(root, "profile.md")
}

/// The file of the skill `slug`.
pub fn skill_memory_path(root: &str, slug: &str) -> (r: String)
    ensures
        r@ == joined(joined(root@, "skills"@), slug@ + ".md"@),
{
    let dir = skills_dir(root);
    let name = slug.to_owned().concat(".md");
    join_path(dir.as_str(), name.as_str())
}

/// The directory of earlier versions of memory files.
pub fn memory_revisions_dir(root: &str) -> (r: String)
    ensures
        r@ == joined(root@, "memory_revisions"@),
{
    join_path(root, "memory_revisions")
}

/// The log file.
pub fn log_path(root: &str) -> (r: String)
    ensures
        r@ == joined(root@, "carter.log"@),
{
    join_path(root, "carter.log")
}

/// The directory of the request logs.
pub fn llm_log_dir(root: &str) -> (r: String)
    ensures
        r@ == joined(joined(root@, "debug"@), "llm_log"@),
{
    let d = join_path(root, "debug");
    join_path(d.as_str(), "llm_log")
}

/// The last of `parts[..n]` that is neither empty nor `.`.
pub open spec fn last_part(parts: Seq<Seq<char>>, n: int) -> Option<Seq<char>>
    decreases n,
{
    if n <= 0 || n > parts.len() {
        None
    } else if parts[n - 1].len() == 0 || parts[n - 1] == "."@ {
        last_part(parts, n - 1)
    } else {
        Some(parts[n - 1])
    }
}

/// The last name of a path; none where the path ends in `..` or names nothing.
pub open spec fn file_name(path: Seq<char>) -> Option<Seq<char>> {
    let parts = split_on(path, '/');
    match last_part(parts, parts.len() as int) {
        Some(p) => if p == ".."@ {
            None
        } else {
            Some(p)
        },
        None => None,
    }
}

/// The last name of a path.
pub fn file_name_of(path: &str) -> (r: Option<String>)
    ensures
        crate::text::opt_text(r) == file_name(path@),
{
    let parts = split_str(path, '/');
    let ghost ps = texts(parts@);
    let mut n: usize = parts.len();
    while n > 0
        invariant
            n <= parts@.len(),
            ps == texts(parts@),
            ps == split_on(path@, '/'),
            last_part(ps, ps.len() as int) == last_part(ps, n as int),
        decreases n,
    {
        assert(ps[n - 1] == parts@[n - 1]@);
        let p = &parts[n - 1];
        if !p.as_str().is_empty() && !str_eq(p.as_str(), ".") {
            if str_eq(p.as_str(), "..") {
                return None;
            }
            return Some(p.clone());
        }
        n -= 1;
    }
    None
}

/// `s` without the slashes at its end.
pub open spec fn unslashed(s: Seq<char>) -> Seq<char>
    decreases s.len(),
{
    if s.len() > 0 && s.last() == '/' {
        unslashed(s.drop_last())
    } else {
        s
    }
}

/// Where the slashes at the end of `s` begin.
pub fn unslashed_len(s: &[char]) -> (r: usize)
    ensures
        r <= s@.len(),
        s@.take(r as int) == unslashed(s@),
{
    let mut n: usize = s.len();
    assert(s@.take(n as int) =~= s@);
    while n > 0 && s[n - 1] == '/'
        invariant
            n <= s@.len(),
            unslashed(s@) == unslashed(s@.take(n as int)),
        decreases n,
    {
        assert(s@.take(n as int).drop_last() =~= s@.take(n - 1));
        n -= 1;
    }
    n
}

/// `s` without the slashes and the `.` names at its end. A path that is nothing but `.` is kept.
pub open spec fn bare(s: Seq<char>) -> Seq<char>
    decreases s.len(),
{
    let n = s.len() as int;
    if n > 0 && s[n - 1] == '/' {
        bare(s.take(n - 1))
    } else if n > 1 && s[n - 1] == '.' && s[n - 2] == '/' {
        bare(s.take(n - 2))
    } else {
        s
    }
}

/// Where the slashes and the `.` names at the end of `s` begin.
pub fn bare_len(s: &[char]) -> (r: usize)
    ensures
        r <= s@.len(),
        s@.take(r as int) == bare(s@),
{
    let mut n: usize = s.len();
    assert(s@.take(n as int) =~= s@);
    loop
        invariant
            n <= s@.len(),
            bare(s@) == bare(s@.take(n as int)),
        decreases n,
    {
        if n > 0 && s[n - 1] == '/' {
            assert(s@.take(n as int).take(n - 1) =~= s@.take(n - 1));
            n -= 1;
        } else if n > 1 && s[n - 1] == '.' && s[n - 2] == '/' {
            assert(s@.take(n as int).take(n - 2) =~= s@.take(n - 2));
            n -= 2;
        } else {
            return n;
        }
    }
}

/// A path below a directory: an absolute one stands for itself, and else exactly one slash parts the two.
pub proof fn law_joined_paths(base: Seq<char>, child: Seq<char>)
    ensures
        child.len() > 0 && child[0] == '/' ==> joined(base, child) == child,
        base.len() == 0 ==> joined(base, child) == child,
        base.len() > 0 && base.last() != '/' && !(child.len() > 0 && child[0] == '/') ==> joined(base, child)
            == base + seq!['/'] + child,
        base.len() > 0 && base.last() == '/' && !(child.len() > 0 && child[0] == '/') ==> joined(base, child)
            == base + child,
{
    reveal_strlit("/");
    assert("/"@ =~= seq!['/']);
    if child.len() > 0 {
        assert(child.subrange(0, 1) =~= seq![child[0]]);
        if child[0] == '/' {
            assert(starts_with(child, "/"@));
        } else {
            assert(seq![child[0]][0] != "/"@[0]);
        }
    }
    if base.len() > 0 {
        let n = base.len() as int;
        assert(base.subrange(n - 1, n) =~= seq![base.last()]);
        if base.last() == '/' {
            assert(ends_with(base, "/"@));
        } else {
            assert(seq![base.last()][0] != "/"@[0]);
        }
    }
}

/// The name of a file is what stands behind the last slash, whatever the directory; slashes and dots at the end
/// do not count, and two dots are no name.
pub proof fn law_file_name(dir: Seq<char>, name: Seq<char>)
    requires
        !name.contains('/'),
    ensures
        name.len() > 0 && name != "."@ && name != ".."@ ==> file_name(dir + seq!['/'] + name) == Some(name)
            && file_name(name) == Some(name),
        name == ".."@ ==> file_name(dir + seq!['/'] + name) is None,
        file_name(dir + seq!['/']) == file_name(dir),
        file_name(dir + seq!['/', '.']) == file_name(dir),
{
    law_split_at(dir, '/', name);
    law_split_at(name, '/', name);
    law_split_at(dir, '/', Seq::empty());
    law_split_at(Seq::empty(), '/', Seq::empty());
    law_split_at(dir, '/', seq!['.']);
    law_split_at(seq!['.'], '/', Seq::empty());
    reveal_strlit(".");
    reveal_strlit("..");
    let d = split_on(dir, '/');
    law_split_and_joined(dir, '/');
    let a = split_on(dir + seq!['/'] + name, '/');
    assert(a =~= d.push(name));
    assert(dir + seq!['/'] + Seq::<char>::empty() =~= dir + seq!['/']);
    let b = split_on(dir + seq!['/'], '/');
    assert(b =~= d.push(Seq::<char>::empty()));
    assert(dir + seq!['/'] + seq!['.'] =~= dir + seq!['/', '.']);
    assert(!seq!['.'].contains('/'));
    let c = split_on(dir + seq!['/', '.'], '/');
    assert(c =~= d.push(seq!['.']));
    assert(seq!['.'] =~= "."@);
    lemma_last_part(d, Seq::empty(), d.len() as int);
    lemma_last_part(d, seq!['.'], d.len() as int);
}

proof fn lemma_last_part(parts: Seq<Seq<char>>, x: Seq<char>, n: int)
    requires
        0 <= n <= parts.len(),
    ensures
        last_part(parts.push(x), n) == last_part(parts, n),
    decreases n,
{
    if n > 0 {
        lemma_last_part(parts, x, n - 1);
    }
}

/// The slashes at the end of a path are taken off, and nothing else.
pub proof fn law_unslashed(s: Seq<char>)
    ensures
        unslashed(s).len() > 0 ==> unslashed(s).last() != '/',
        unslashed(s).is_prefix_of(s),
        forall|k: int| unslashed(s).len() <= k < s.len() ==> (#[trigger] s[k]) == '/',
    decreases s.len(),
{
    if s.len() > 0 && s.last() == '/' {
        law_unslashed(s.drop_last());
        assert forall|k: int| unslashed(s).len() <= k < s.len() implies (#[trigger] s[k]) == '/' by {
            if k < s.len() - 1 {
                assert(s.drop_last()[k] == '/');
            }
        }
    }
}

/// The home of the program is the directory that is set for it, or else its own one in the user's home, or
/// where there is none in the current directory.
pub proof fn law_home(explicit: Option<String>, home: Option<String>)
    ensures
        explicit matches Some(e) ==> home_of(explicit, home) == e@,
        explicit is None ==> (home matches Some(h) ==> home_of(explicit, home) == joined(h@, ".carter"@)),
        explicit is None && home is None ==> home_of(explicit, home) == joined("."@, ".carter"@),
{
}

} // verus!
