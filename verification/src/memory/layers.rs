//! Finding and showing the layers of memory, from the outermost to the nearest.

use crate::bytes::{byte_len, byte_length, fit, fit_chars, lemma_byte_len_most, lemma_fit};
use crate::config::paths::{bare, bare_len, join_path, joined};
use crate::split::{last_pos, last_pos_of, trim, trim_end, trim_end_str, trim_str};
use crate::text::{chars_of, opt_text, string_of, texts, texts_push};
use vstd::prelude::*;
use vstd::slice::slice_subrange;

verus! {

/// How many directories are looked at, the current one included.
pub const MAX_DEPTH: usize = 8;

/// How many bytes of a memory file are kept.
pub const MAX_FILE_BYTES: usize = 32768;

/// One layer of memory.
#[derive(Debug)]
pub struct Layer {
    /// Where it comes from.
    pub label: String,
    pub content: String,
}

/// What a layer holds.
pub struct LayerView {
    pub label: Seq<char>,
    pub content: Seq<char>,
}

impl View for Layer {
    type V = LayerView;

    open spec fn view(&self) -> LayerView {
        LayerView { label: self.label@, content: self.content@ }
    }
}

/// What a list of layers holds.
pub open spec fn layer_views(v: Seq<Layer>) -> Seq<LayerView> {
    v.map_values(|l: Layer| l@)
}

/// What is kept of the text of a file: nothing of a blank file, and only the beginning of a long one.
pub open spec fn kept_text(raw: Seq<char>) -> Option<Seq<char>> {
    let t = trim(raw);
    if t.len() == 0 {
        None
    } else if byte_len(t) <= MAX_FILE_BYTES {
        Some(t)
    } else {
        Some(t.take(fit(t, MAX_FILE_BYTES as nat) as int) + "\n…（已截断）"@)
    }
}

/// What is kept of a file that may not be there.
pub open spec fn kept_file(raw: Option<String>) -> Option<Seq<char>> {
    match raw {
        Some(t) => kept_text(t@),
        None => None,
    }
}

/// What is kept of a file that may not be there.
pub fn read_capped(raw: &Option<String>) -> (r: Option<String>)
    ensures
        opt_text(r) == kept_file(*raw),
{
    match raw {
        None => None,
        Some(s) => {
            let t = trim_str(s.as_str());
            if t.as_str().is_empty() {
                return None;
            }
            if byte_length(t.as_str()) <= MAX_FILE_BYTES {
                return Some(t);
            }
            let a = chars_of(t.as_str());
            let k: usize = fit_chars(a.as_slice(), MAX_FILE_BYTES);
            let mut kept = string_of(slice_subrange(a.as_slice(), 0, k));
            assert(kept@ =~= t@.take(k as int));
            kept.append("\n…（已截断）");
            Some(kept)
        },
    }
}

/// The directory that holds a path; none of the root.
pub open spec fn parent_of(path: Seq<char>) -> Option<Seq<char>> {
    let p = bare(path);
    let k = last_pos(p, '/');
    if p.len() == 0 {
        None
    } else if k < 0 {
        Some(Seq::empty())
    } else {
        let up = bare(p.take(k));
        Some(
            if up.len() == 0 {
                "/"@
            } else {
                up
            },
        )
    }
}

/// The directory that holds a path.
pub fn parent_path(path: &str) -> (r: Option<String>)
    ensures
        opt_text(r) == parent_of(path@),
{
    let a = chars_of(path);
    let n: usize = bare_len(a.as_slice());
    let p = slice_subrange(a.as_slice(), 0, n);
    assert(p@ =~= path@.take(n as int));
    match last_pos_of(p, '/') {
        None => if n == 0 {
            None
        } else {
            let r = String::new();
            assert(r@ =~= Seq::<char>::empty());
            Some(r)
        },
        Some(k) => {
            let up = slice_subrange(p, 0, k);
            assert(up@ =~= p@.take(k as int));
            let m: usize = bare_len(up);
            if m == 0 {
                return Some("/".to_owned());
            }
            let q = slice_subrange(up, 0, m);
            assert(q@ =~= up@.take(m as int));
            Some(string_of(q))
        },
    }
}

/// The next directory to look at above `dirs`, which begins with the current one: none above the root
/// of a repository, and none once enough have been looked at.
pub fn next_dir(dirs: &Vec<String>, has_git: bool) -> (r: Option<String>)
    requires
        dirs@.len() > 0,
    ensures
        opt_text(r) == if dirs@.len() >= MAX_DEPTH || has_git {
            None
        } else {
            parent_of(dirs@.last()@)
        },
{
    if dirs.len() >= MAX_DEPTH || has_git {
        None
    } else {
        parent_path(dirs[dirs.len() - 1].as_str())
    }
}

/// The memory files of directories that begin with the current one: the outermost come first.
pub open spec fn memory_list(dirs: Seq<Seq<char>>) -> Seq<Seq<char>>
    decreases dirs.len(),
{
    if dirs.len() == 0 {
        Seq::empty()
    } else {
        seq![joined(dirs.last(), "CARTER.md"@), joined(dirs.last(), "AGENTS.md"@)] + memory_list(
            dirs.drop_last(),
        )
    }
}

/// The memory files of directories that begin with the current one.
pub fn memory_files(dirs: &Vec<String>) -> (r: Vec<String>)
    ensures
        texts(r@) == memory_list(texts(dirs@)),
{
    let mut out: Vec<String> = Vec::new();
    let ghost dv = texts(dirs@);
    let mut n: usize = dirs.len();
    assert(dv.take(n as int) =~= dv);
    assert(texts(out@) + memory_list(dv.take(n as int)) =~= memory_list(dv));
    while n > 0
        invariant
            n <= dirs@.len(),
            dv == texts(dirs@),
            texts(out@) + memory_list(dv.take(n as int)) == memory_list(dv),
        decreases n,
    {
        broadcast use texts_push;

        let d = &dirs[n - 1];
        let ghost before = texts(out@);
        let ghost rest = dv.take(n - 1);
        assert(dv.take(n as int).drop_last() =~= rest);
        assert(dv.take(n as int).last() == d@);
        let c = join_path(d.as_str(), "CARTER.md");
        let a = join_path(d.as_str(), "AGENTS.md");
        let ghost two = seq![c@, a@];
        out.push(c);
        out.push(a);
        assert(texts(out@) =~= before + two);
        assert(before + (two + memory_list(rest)) =~= texts(out@) + memory_list(rest));
        n -= 1;
    }
    assert(texts(out@) + memory_list(dv.take(0)) =~= texts(out@));
    out
}

/// The layers that files give: those that hold something, in their order.
pub open spec fn file_layers(files: Seq<(String, Option<String>)>) -> Seq<LayerView>
    decreases files.len(),
{
    if files.len() == 0 {
        Seq::empty()
    } else {
        let rest = file_layers(files.drop_last());
        match kept_file(files.last().1) {
            Some(t) => rest.push(LayerView { label: files.last().0@, content: t }),
            None => rest,
        }
    }
}

/// The layers: that of the user first, then those of the files.
pub open spec fn all_layers(global: Option<String>, files: Seq<(String, Option<String>)>) -> Seq<
    LayerView,
> {
    match kept_file(global) {
        Some(t) => seq![LayerView { label: "global"@, content: t }] + file_layers(files),
        None => file_layers(files),
    }
}

/// The layers: that of the user first, then those of the files, each given with its path.
pub fn discover(global: &Option<String>, files: &Vec<(String, Option<String>)>) -> (r: Vec<Layer>)
    ensures
        layer_views(r@) == all_layers(*global, files@),
{
    let mut out: Vec<Layer> = Vec::new();
    assert(layer_views(out@) =~= Seq::<LayerView>::empty());
    match read_capped(global) {
        Some(content) => {
            out.push(Layer { label: "global".to_owned(), content });
            assert(layer_views(out@) =~= seq![LayerView { label: "global"@, content: content@ }]);
        },
        None => {},
    }
    let ghost head = layer_views(out@);
    let mut i: usize = 0;
    assert(head + file_layers(files@.take(0)) =~= head);
    while i < files.len()
        invariant
            i <= files@.len(),
            layer_views(out@) == head + file_layers(files@.take(i as int)),
        decreases files@.len() - i,
    {
        let f = &files[i];
        assert(files@.take(i + 1).drop_last() =~= files@.take(i as int));
        assert(files@.take(i + 1).last() == files@[i as int]);
        let ghost before = layer_views(out@);
        match read_capped(&f.1) {
            Some(content) => {
                let l = Layer { label: f.0.clone(), content };
                let ghost lv = l@;
                out.push(l);
                assert(layer_views(out@) =~= before.push(lv));
                assert(before.push(lv) =~= head + file_layers(files@.take(i as int)).push(lv));
            },
            None => {},
        }
        i += 1;
    }
    assert(files@.take(i as int) =~= files@);
    assert(head + file_layers(files@) =~= all_layers(*global, files@));
    out
}

/// What is said before the layers.
pub const MEMORY_HEAD: &'static str =
    "# 记忆（分层）\n以下是全局与项目的持久记忆，视为背景与偏好；就近层级优先，但永不覆盖安全红线。\n";

/// The layers one after the other, each under its label.
pub open spec fn layers_text(ls: Seq<LayerView>) -> Seq<char>
    decreases ls.len(),
{
    if ls.len() == 0 {
        MEMORY_HEAD@
    } else {
        layers_text(ls.drop_last()) + "\n## ["@ + ls.last().label + "]\n"@ + ls.last().content + "\n"@
    }
}

/// What the model is shown of the layers; nothing where there are none.
pub open spec fn rendered(ls: Seq<LayerView>) -> Seq<char> {
    if ls.len() == 0 {
        Seq::empty()
    } else {
        trim_end(layers_text(ls))
    }
}

/// What the model is shown of the layers.
pub fn render(layers: &Vec<Layer>) -> (r: String)
    ensures
        r@ == rendered(layer_views(layers@)),
{
    let ghost lv = layer_views(layers@);
    assert(lv.len() == layers@.len());
    if layers.len() == 0 {
        let r = String::new();
        assert(r@ =~= Seq::<char>::empty());
        return r;
    }
    let mut out = MEMORY_HEAD.to_owned();
    let mut i: usize = 0;
    assert(lv.take(0) =~= Seq::<LayerView>::empty());
    while i < layers.len()
        invariant
            i <= layers@.len(),
            lv == layer_views(layers@),
            out@ == layers_text(lv.take(i as int)),
        decreases layers@.len() - i,
    {
        assert(lv.take(i + 1).drop_last() =~= lv.take(i as int));
        assert(lv.take(i + 1).last() == layers@[i as int]@);
        out.append("\n## [");
        out.append(layers[i].label.as_str());
        out.append("]\n");
        out.append(layers[i].content.as_str());
        out.append("\n");
        i += 1;
    }
    assert(lv.take(i as int) =~= lv);
    trim_end_str(out.as_str())
}

/// What the model is shown of the memory.
pub fn load(global: &Option<String>, files: &Vec<(String, Option<String>)>) -> (r: String)
    ensures
        r@ == rendered(all_layers(*global, files@)),
{
    let layers = discover(global, files);
    render(&layers)
}

/// The nearer a directory, the later its files come: `dirs[i]` is nearer than `dirs[j]` where `i < j`.
pub proof fn law_nearest_last(dirs: Seq<Seq<char>>, i: int)
    requires
        0 <= i < dirs.len(),
    ensures
        memory_list(dirs).len() == 2 * dirs.len(),
        memory_list(dirs)[2 * (dirs.len() - 1 - i)] == joined(dirs[i], "CARTER.md"@),
        memory_list(dirs)[2 * (dirs.len() - 1 - i) + 1] == joined(dirs[i], "AGENTS.md"@),
    decreases dirs.len(),
{
    let rest = dirs.drop_last();
    if rest.len() > 0 {
        let k = if i < rest.len() {
            i
        } else {
            0
        };
        law_nearest_last(rest, k);
    } else {
        assert(memory_list(rest) =~= Seq::<Seq<char>>::empty());
    }
}

/// No layer holds more than the limit and the note that the rest is left out.
pub proof fn law_layers_bounded(raw: Seq<char>)
    ensures
        kept_text(raw) matches Some(t) ==> byte_len(t) <= MAX_FILE_BYTES + byte_len("\n…（已截断）"@),
{
    let t = trim(raw);
    crate::bytes::lemma_fit(t, MAX_FILE_BYTES as nat);
    crate::bytes::lemma_byte_len_concat(
        t.take(fit(t, MAX_FILE_BYTES as nat) as int),
        "\n…（已截断）"@,
    );
}

/// What is kept of a memory file: nothing where it is blank, else its text without the white space around it,
/// cut to the characters that fit 32 KiB and marked where it is longer.
pub proof fn law_memory_file_kept(raw: Seq<char>)
    ensures
        kept_text(raw) is None <==> trim(raw).len() == 0,
        0 < byte_len(trim(raw)) <= 32768 ==> kept_text(raw) == Some(trim(raw)),
        byte_len(trim(raw)) > 32768 ==> exists|k: int|
            0 <= k < trim(raw).len() && #[trigger] byte_len(trim(raw).take(k)) <= 32768 && byte_len(
                trim(raw).take(k + 1),
            ) > 32768 && kept_text(raw) == Some(trim(raw).take(k) + "\n…（已截断）"@),
{
    let t = trim(raw);
    if byte_len(t) > 32768 {
        lemma_fit(t, 32768);
        let k = fit(t, 32768) as int;
        assert(t.take(t.len() as int) =~= t);
        assert(byte_len(t.take(k)) <= 32768);
        assert(t.len() > 0) by {
            if t.len() == 0 {
                assert(t =~= Seq::<char>::empty());
                lemma_byte_len_most(t);
            }
        }
    }
    if t.len() == 0 {
        lemma_byte_len_most(t);
    }
}

/// The memory of all projects comes first, then that of each file in its order; files that are missing or blank
/// leave no trace.
pub proof fn law_layers_in_order(
    global: Option<String>,
    files: Seq<(String, Option<String>)>,
    f: (String, Option<String>),
)
    ensures
        kept_file(global) is None ==> all_layers(global, files) == file_layers(files),
        kept_file(global) matches Some(t) ==> all_layers(global, files) == seq![
            LayerView { label: "global"@, content: t },
        ] + file_layers(files),
        kept_file(f.1) is None ==> file_layers(files.push(f)) == file_layers(files),
        kept_file(f.1) matches Some(t) ==> file_layers(files.push(f)) == file_layers(files).push(
            LayerView { label: f.0@, content: t },
        ),
        file_layers(Seq::empty()).len() == 0,
        f.1 is None ==> kept_file(f.1) is None,
        f.1 matches Some(t) ==> kept_file(f.1) == kept_text(t@),
{
    assert(files.push(f).drop_last() =~= files);
}

/// Every layer is shown under its label, behind those before it; without layers nothing is shown.
pub proof fn law_layers_shown(ls: Seq<LayerView>, l: LayerView)
    ensures
        rendered(Seq::empty()).len() == 0,
        layers_text(ls.push(l)) == layers_text(ls) + "\n## ["@ + l.label + "]\n"@ + l.content + "\n"@,
        rendered(ls.push(l)) == trim_end(layers_text(ls.push(l))),
        layers_text(Seq::empty()) == MEMORY_HEAD@,
{
    assert(ls.push(l).drop_last() =~= ls);
}

} // verus!
