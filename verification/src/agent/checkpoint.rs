//! Checkpoints: files as they were before a tool changed them, and how to go back.

use crate::json::{text_member, Json, JsonView};
use crate::number::{dec, push_dec};
use crate::session::record::{dup_opt, snap_views, FileSnapshotRecord, SnapView};
use crate::text::{opt_text, str_eq, texts};
use crate::tools::save_memory::{arg_or, get_or, target_for, target_of};
use vstd::prelude::*;

verus! {

/// A file before a change; no content where it did not exist.
#[derive(Debug)]
pub struct FileSnapshot {
    pub path: String,
    pub prior: Option<String>,
}

impl View for FileSnapshot {
    type V = SnapView;

    open spec fn view(&self) -> SnapView {
        SnapView { path: self.path@, prior: opt_text(self.prior) }
    }
}

/// The views of a list of snapshots.
pub open spec fn file_views(v: Seq<FileSnapshot>) -> Seq<SnapView> {
    v.map_values(|s: FileSnapshot| s@)
}

/// The files that one tool call was about to change.
#[derive(Debug)]
pub struct Checkpoint {
    pub label: String,
    pub snapshots: Vec<FileSnapshot>,
}

/// What a checkpoint holds.
pub struct CheckpointView {
    pub label: Seq<char>,
    pub snapshots: Seq<SnapView>,
}

impl View for Checkpoint {
    type V = CheckpointView;

    open spec fn view(&self) -> CheckpointView {
        CheckpointView { label: self.label@, snapshots: file_views(self.snapshots@) }
    }
}

/// The checkpoints of a session, oldest first.
#[derive(Debug)]
pub struct CheckpointStore {
    pub entries: Vec<Checkpoint>,
}

impl View for CheckpointStore {
    type V = Seq<CheckpointView>;

    open spec fn view(&self) -> Seq<CheckpointView> {
        self.entries@.map_values(|c: Checkpoint| c@)
    }
}

/// The snapshots of the checkpoints in the order in which they are restored: the newest
/// checkpoint first.
pub open spec fn undo_list(cps: Seq<CheckpointView>) -> Seq<SnapView>
    decreases cps.len(),
{
    if cps.len() == 0 {
        Seq::empty()
    } else {
        cps.last().snapshots + undo_list(cps.drop_last())
    }
}

/// What is said of a checkpoint that does not exist.
pub open spec fn out_of_range(index: nat, len: nat) -> Seq<char> {
    "检查点序号 "@ + dec(index) + " 越界（当前 1..="@ + dec(len) + "）"@
}

/// The snapshots as records.
pub fn to_records(v: &Vec<FileSnapshot>) -> (r: Vec<FileSnapshotRecord>)
    ensures
        snap_views(r@) == file_views(v@),
{
    let mut out: Vec<FileSnapshotRecord> = Vec::new();
    let mut i: usize = 0;
    while i < v.len()
        invariant
            i <= v@.len(),
            snap_views(out@) == file_views(v@).take(i as int),
        decreases v@.len() - i,
    {
        let s = FileSnapshotRecord { path: v[i].path.clone(), prior: dup_opt(&v[i].prior) };
        let ghost before = snap_views(out@);
        out.push(s);
        assert(snap_views(out@) =~= before.push(s@));
        assert(file_views(v@).take(i + 1) =~= file_views(v@).take(i as int).push(v@[i as int]@));
        i += 1;
    }
    assert(file_views(v@).take(i as int) =~= file_views(v@));
    out
}

/// The snapshots of records.
pub fn from_records(v: &Vec<FileSnapshotRecord>) -> (r: Vec<FileSnapshot>)
    ensures
        file_views(r@) == snap_views(v@),
{
    let mut out: Vec<FileSnapshot> = Vec::new();
    let mut i: usize = 0;
    while i < v.len()
        invariant
            i <= v@.len(),
            file_views(out@) == snap_views(v@).take(i as int),
        decreases v@.len() - i,
    {
        let s = FileSnapshot { path: v[i].path.clone(), prior: dup_opt(&v[i].prior) };
        let ghost before = file_views(out@);
        out.push(s);
        assert(file_views(out@) =~= before.push(s@));
        assert(snap_views(v@).take(i + 1) =~= snap_views(v@).take(i as int).push(v@[i as int]@));
        i += 1;
    }
    assert(snap_views(v@).take(i as int) =~= snap_views(v@));
    out
}

impl CheckpointStore {
    /// A store without checkpoints.
    pub fn new() -> (r: CheckpointStore)
        ensures
            r@ == Seq::<CheckpointView>::empty(),
    {
        let r = CheckpointStore { entries: Vec::new() };
        assert(r@ =~= Seq::<CheckpointView>::empty());
        r
    }

    /// Adds a checkpoint, unless it holds no file.
    pub fn snapshot(&mut self, label: String, snapshots: Vec<FileSnapshot>)
        ensures
            final(self)@ == if snapshots@.len() == 0 {
                old(self)@
            } else {
                old(self)@.push(
                    CheckpointView { label: label@, snapshots: file_views(snapshots@) },
                )
            },
    {
        if snapshots.len() == 0 {
            return;
        }
        let ghost before = self@;
        let c = Checkpoint { label, snapshots };
        self.entries.push(c);
        assert(self@ =~= before.push(c@));
    }

    /// The checkpoints, oldest first.
    pub fn list(&self) -> (r: &Vec<Checkpoint>)
        ensures
            r@.map_values(|c: Checkpoint| c@) == self@,
    {
        &self.entries
    }

    /// How many checkpoints there are.
    pub fn len(&self) -> (r: usize)
        ensures
            r == self@.len(),
    {
        self.entries.len()
    }

    /// Whether there is no checkpoint.
    pub fn is_empty(&self) -> (r: bool)
        ensures
            r == (self@.len() == 0),
    {
        self.entries.len() == 0
    }

    /// Goes back to before the checkpoint `index`, counted from 1: hands out the files to restore,
    /// in order, and forgets that checkpoint and all later ones.
    pub fn rewind_to(&mut self, index: usize) -> (r: Result<Vec<FileSnapshot>, String>)
        ensures
            match r {
                Ok(files) => {
                    &&& 1 <= index <= old(self)@.len()
                    &&& file_views(files@) == undo_list(old(self)@.skip(index - 1))
                    &&& final(self)@ == old(self)@.take(index - 1)
                },
                Err(e) => {
                    &&& index < 1 || index > old(self)@.len()
                    &&& e@ == out_of_range(index as nat, old(self)@.len())
                    &&& final(self)@ == old(self)@
                },
            },
    {
        if index < 1 || index > self.entries.len() {
            let mut e = "检查点序号 ".to_owned();
            push_dec(&mut e, index as u64);
            e.append(" 越界（当前 1..=");
            push_dec(&mut e, self.entries.len() as u64);
            e.append("）");
            return Err(e);
        }
        let ghost all = self@;
        let ghost tail = self@.skip(index - 1);
        let mut out: Vec<FileSnapshot> = Vec::new();
        let mut n: usize = self.entries.len();
        assert(tail.skip(n - (index - 1)) =~= Seq::<CheckpointView>::empty());
        assert(tail.take(n - (index - 1)) =~= tail);
        assert(file_views(out@) + undo_list(tail) =~= undo_list(tail));
        while n >= index
            invariant
                1 <= index,
                index - 1 <= n <= all.len(),
                all == old(self)@,
                self@ == all.take(n as int),
                tail == all.skip(index - 1),
                file_views(out@) + undo_list(tail.take(n - (index - 1))) == undo_list(tail),
            decreases n,
        {
            let ghost part = tail.take(n - (index - 1));
            assert(part.last() == all[n - 1]);
            assert(self@.len() == self.entries@.len());
            let mut c = self.entries.pop().unwrap();
            assert(c@ == all[n - 1]) by {
                assert(all.take(n as int)[n - 1] == all[n - 1]);
            }
            assert(self@ =~= all.take(n - 1));
            let ghost before = file_views(out@);
            let ghost cv = file_views(c.snapshots@);
            out.append(&mut c.snapshots);
            assert(file_views(out@) =~= before + cv);
            assert(part.drop_last() =~= tail.take(n - 1 - (index - 1)));
            assert(file_views(out@) + undo_list(part.drop_last()) =~= before + (cv + undo_list(
                part.drop_last(),
            )));
            n -= 1;
        }
        assert(tail.take(0) =~= Seq::<CheckpointView>::empty());
        assert(file_views(out@) + undo_list(tail.take(0)) =~= file_views(out@));
        Ok(out)
    }
}

// ---------------------------------------------------------------------------------------------
// What going back means for the files
// ---------------------------------------------------------------------------------------------

/// The files after one of them is restored.
pub open spec fn restore_one(
    fs: Map<Seq<char>, Seq<char>>,
    s: SnapView,
) -> Map<Seq<char>, Seq<char>> {
    match s.prior {
        Some(c) => fs.insert(s.path, c),
        None => fs.remove(s.path),
    }
}

/// The files after all of the snapshots are restored, in order.
pub open spec fn restore_all(
    fs: Map<Seq<char>, Seq<char>>,
    snaps: Seq<SnapView>,
) -> Map<Seq<char>, Seq<char>>
    decreases snaps.len(),
{
    if snaps.len() == 0 {
        fs
    } else {
        restore_one(restore_all(fs, snaps.drop_last()), snaps.last())
    }
}

/// The snapshot says what the file holds.
pub open spec fn snap_of(fs: Map<Seq<char>, Seq<char>>, s: SnapView) -> bool {
    match s.prior {
        Some(c) => fs.contains_key(s.path) && fs[s.path] == c,
        None => !fs.contains_key(s.path),
    }
}

/// The two states of the files differ at most in the files of the snapshots.
pub open spec fn same_but_for(
    a: Map<Seq<char>, Seq<char>>,
    b: Map<Seq<char>, Seq<char>>,
    snaps: Seq<SnapView>,
) -> bool {
    forall|p: Seq<char>|
        (forall|i: int| 0 <= i < snaps.len() ==> #[trigger] snaps[i].path != p) ==> {
            &&& #[trigger] a.contains_key(p) == b.contains_key(p)
            &&& a.contains_key(p) ==> a[p] == b[p]
        }
}

/// `states` are the files at each checkpoint and at the end: each checkpoint was taken of the
/// files as they were, and what followed it changed only the files that it holds.
pub open spec fn history_of(
    cps: Seq<CheckpointView>,
    states: Seq<Map<Seq<char>, Seq<char>>>,
) -> bool {
    &&& states.len() == cps.len() + 1
    &&& forall|k: int|
        0 <= k < cps.len() ==> {
            &&& forall|i: int|
                0 <= i < cps[k].snapshots.len() ==> snap_of(
                    #[trigger] states[k],
                    #[trigger] cps[k].snapshots[i],
                )
            &&& same_but_for(#[trigger] states[k], states[k + 1], cps[k].snapshots)
        }
}

/// Restoring snapshots of a state, in a state that differs from it in their files only, gives the
/// state back.
proof fn lemma_restore_all(
    a: Map<Seq<char>, Seq<char>>,
    b: Map<Seq<char>, Seq<char>>,
    snaps: Seq<SnapView>,
    n: int,
)
    requires
        0 <= n <= snaps.len(),
        forall|i: int| 0 <= i < snaps.len() ==> snap_of(a, #[trigger] snaps[i]),
        same_but_for(a, b, snaps),
    ensures
        same_but_for(a, restore_all(b, snaps.take(n)), snaps),
        forall|i: int|
            0 <= i < n ==> snap_of(restore_all(b, snaps.take(n)), #[trigger] snaps[i]),
    decreases n,
{
    if n == 0 {
        assert(snaps.take(0) =~= Seq::<SnapView>::empty());
    } else {
        lemma_restore_all(a, b, snaps, n - 1);
        assert(snaps.take(n).drop_last() =~= snaps.take(n - 1));
        let before = restore_all(b, snaps.take(n - 1));
        let s = snaps[n - 1];
        let after = restore_one(before, s);
        assert(snaps.take(n).last() == s);
        assert(restore_all(b, snaps.take(n)) == after);
        assert forall|i: int| 0 <= i < n implies snap_of(after, #[trigger] snaps[i]) by {
            if snaps[i].path == s.path {
                assert(snap_of(a, snaps[i]));
                assert(snap_of(a, s));
            } else {
                assert(snap_of(before, snaps[i]));
            }
        }
        assert forall|p: Seq<char>|
            (forall|i: int| 0 <= i < snaps.len() ==> #[trigger] snaps[i].path != p) implies {
            &&& #[trigger] a.contains_key(p) == after.contains_key(p)
            &&& a.contains_key(p) ==> a[p] == after[p]
        } by {
            assert(snaps[n - 1].path != p);
            assert(before.contains_key(p) == after.contains_key(p));
        }
    }
}

/// Restoring one list and then another is restoring both.
proof fn lemma_restore_concat(
    fs: Map<Seq<char>, Seq<char>>,
    x: Seq<SnapView>,
    y: Seq<SnapView>,
)
    ensures
        restore_all(fs, x + y) == restore_all(restore_all(fs, x), y),
    decreases y.len(),
{
    if y.len() == 0 {
        assert(x + y =~= x);
    } else {
        assert((x + y).drop_last() =~= x + y.drop_last());
        lemma_restore_concat(fs, x, y.drop_last());
    }
}

/// Going back to before a checkpoint gives the files back as they were when it was taken.
pub proof fn law_rewind_restores(
    cps: Seq<CheckpointView>,
    states: Seq<Map<Seq<char>, Seq<char>>>,
    index: int,
)
    requires
        history_of(cps, states),
        1 <= index <= cps.len(),
    ensures
        restore_all(states.last(), undo_list(cps.skip(index - 1))) == states[index - 1],
{
    assert(cps.skip(index - 1).take(cps.len() - (index - 1)) =~= cps.skip(index - 1));
    lemma_undo_upto(cps, states, index - 1, cps.len() as int);
}

/// Undoing the checkpoints from `from` up to `upto` leads from the one state to the other.
proof fn lemma_undo_upto(
    cps: Seq<CheckpointView>,
    states: Seq<Map<Seq<char>, Seq<char>>>,
    from: int,
    upto: int,
)
    requires
        history_of(cps, states),
        0 <= from <= upto <= cps.len(),
    ensures
        restore_all(states[upto], undo_list(cps.skip(from).take(upto - from))) == states[from],
    decreases upto - from,
{
    let part = cps.skip(from).take(upto - from);
    if from == upto {
        assert(part =~= Seq::<CheckpointView>::empty());
    } else {
        let c = cps[upto - 1];
        assert(part.last() == c);
        assert(part.drop_last() =~= cps.skip(from).take(upto - 1 - from));
        let a = states[upto - 1];
        let b = states[upto];
        assert(same_but_for(a, b, c.snapshots)) by {
            assert(same_but_for(states[upto - 1], states[upto - 1 + 1], cps[upto - 1].snapshots));
        }
        assert forall|i: int| 0 <= i < c.snapshots.len() implies snap_of(
            a,
            #[trigger] c.snapshots[i],
        ) by {
            assert(snap_of(states[upto - 1], cps[upto - 1].snapshots[i]));
        }
        let n = c.snapshots.len() as int;
        lemma_restore_all(a, b, c.snapshots, n);
        assert(c.snapshots.take(n) =~= c.snapshots);
        let restored = restore_all(b, c.snapshots);
        assert forall|p: Seq<char>| #[trigger] a.contains_key(p) == restored.contains_key(p) by {
            if forall|i: int| 0 <= i < c.snapshots.len() ==> #[trigger] c.snapshots[i].path != p {
            } else {
                let i = choose|i: int|
                    0 <= i < c.snapshots.len() && #[trigger] c.snapshots[i].path == p;
                assert(snap_of(a, c.snapshots[i]));
                assert(snap_of(restored, c.snapshots[i]));
            }
        }
        assert forall|p: Seq<char>| #[trigger] a.contains_key(p) implies a[p] == restored[p] by {
            if forall|i: int| 0 <= i < c.snapshots.len() ==> #[trigger] c.snapshots[i].path != p {
            } else {
                let i = choose|i: int|
                    0 <= i < c.snapshots.len() && #[trigger] c.snapshots[i].path == p;
                assert(snap_of(a, c.snapshots[i]));
                assert(snap_of(restored, c.snapshots[i]));
            }
        }
        assert(a =~= restored);
        lemma_restore_concat(b, c.snapshots, undo_list(part.drop_last()));
        lemma_undo_upto(cps, states, from, upto - 1);
    }
}

// ---------------------------------------------------------------------------------------------
// Which files a tool call changes
// ---------------------------------------------------------------------------------------------

/// The files that a call is about to change, as far as its arguments tell: the file that is
/// written or edited, or the memory file in which something is kept.
pub open spec fn paths_changed(root: Seq<char>, name: Seq<char>, args: JsonView) -> Seq<Seq<char>> {
    if name == "write_file"@ || name == "edit_file"@ {
        match text_member(args, "path"@) {
            Some(p) => seq![p],
            None => Seq::empty(),
        }
    } else if name == "save_memory"@ {
        match target_of(
            root,
            arg_or(args, "kind"@, "facts"@),
            arg_or(args, "scope"@, "project"@),
            text_member(args, "slug"@),
        ) {
            Ok((path, _)) => seq![path],
            Err(_) => Seq::empty(),
        }
    } else {
        Seq::empty()
    }
}

/// The files that a call is about to change.
pub fn mutating_paths(root: &str, name: &str, args: &Json) -> (r: Vec<String>)
    ensures
        texts(r@) == paths_changed(root@, name@, args@),
{
    let mut out: Vec<String> = Vec::new();
    if str_eq(name, "write_file") || str_eq(name, "edit_file") {
        match args.get_str("path") {
            Some(p) => {
                out.push(p);
            },
            None => {},
        }
    } else if str_eq(name, "save_memory") {
        let kind = get_or(args, "kind", "facts");
        let scope = get_or(args, "scope", "project");
        match target_for(root, kind.as_str(), scope.as_str(), args.get_str("slug")) {
            Ok((path, _)) => {
                out.push(path);
            },
            Err(_) => {},
        }
    }
    assert(texts(out@) =~= paths_changed(root@, name@, args@));
    out
}

/// What is undone is the newest checkpoint first, and of each the files in their order.
pub proof fn law_newest_undone_first(cps: Seq<CheckpointView>, c: CheckpointView)
    ensures
        undo_list(cps.push(c)) == c.snapshots + undo_list(cps),
        undo_list(Seq::empty()).len() == 0,
{
    assert(cps.push(c).drop_last() =~= cps);
}

/// Files are restored one after the other: each gets back the content that it had, or goes where it was not
/// there, and no other file is touched.
pub proof fn law_restored_in_order(
    fs: Map<Seq<char>, Seq<char>>,
    a: Seq<SnapView>,
    b: Seq<SnapView>,
    s: SnapView,
)
    ensures
        restore_all(fs, a + b) == restore_all(restore_all(fs, a), b),
        s.prior matches Some(c) ==> restore_all(fs, seq![s]) == fs.insert(s.path, c),
        s.prior is None ==> restore_all(fs, seq![s]) == fs.remove(s.path),
        restore_all(fs, Seq::empty()) == fs,
    decreases b.len(),
{
    assert(seq![s].drop_last() =~= Seq::<SnapView>::empty());
    assert(restore_all(fs, seq![s].drop_last()) == fs);
    if b.len() == 0 {
        assert(a + b =~= a);
    } else {
        assert((a + b).drop_last() =~= a + b.drop_last());
        law_restored_in_order(fs, a, b.drop_last(), s);
    }
}

/// The files that a call changes: the one that is written or edited, and the memory file that is saved; other
/// tools change none that are kept.
pub proof fn law_files_kept_before_changes(root: Seq<char>, name: Seq<char>, args: JsonView)
    ensures
        name == "write_file"@ || name == "edit_file"@ ==> (text_member(args, "path"@) matches Some(p) ==> paths_changed(
            root,
            name,
            args,
        ) == seq![p]),
        name != "write_file"@ && name != "edit_file"@ && name != "save_memory"@ ==> paths_changed(
            root,
            name,
            args,
        ).len() == 0,
        paths_changed(root, name, args).len() <= 1,
{
}

/// The file that a note goes to is kept before the note is written, and a place in the list that is not there is
/// named together with those that are.
pub proof fn law_note_kept_before_change(root: Seq<char>, args: JsonView, path: Seq<char>, index: nat, len: nat)
    ensures
        ({
            let to = target_of(
                root,
                arg_or(args, "kind"@, "facts"@),
                arg_or(args, "scope"@, "project"@),
                text_member(args, "slug"@),
            );
            &&& to is Ok ==> paths_changed(root, "save_memory"@, args) == seq![to->Ok_0.0]
            &&& to is Err ==> paths_changed(root, "save_memory"@, args).len() == 0
        }),
        out_of_range(index, len) == "检查点序号 "@ + dec(index) + " 越界（当前 1..="@ + dec(len) + "）"@,
        text_member(args, "path"@) is None ==> paths_changed(root, "write_file"@, args).len() == 0
            && paths_changed(root, "edit_file"@, args).len() == 0,
{
    reveal_strlit("save_memory");
    reveal_strlit("write_file");
    reveal_strlit("edit_file");
    assert("save_memory"@.len() == 11 && "write_file"@.len() == 10 && "edit_file"@.len() == 9);
}

} // verus!
