//! Session files: names, folding, forking, compaction.

use super::record::{
    cap_for_persist, capped, kind_views, kind_views_push, GitInfo, git_view, KindView, MetaView, Record,
    RecordKind, RecordView, SessionMeta,
};
use super::recorder::{Recorder, RecorderView};
use crate::agent::checkpoint::{from_records, to_records, Checkpoint, CheckpointStore, CheckpointView};
use crate::agent::thread::{empty_thread, Thread, ThreadView};
use crate::config::paths::{file_name, file_name_of, join_path, joined};
use crate::error::{CarterError, ErrorView};
use crate::number::{dec, dec_string, hex, pad_left, pad_left_str, push_hex};
use crate::provider::request::{message_views, message_views_push, Message, MessageView};
use crate::split::{blank, is_blank, lines, split_lines};
use crate::text::{chars_of, opt_text, texts, texts_push};
use crate::tools::todo_write::{dup_todos, todo_views, TodoItem, TodoView};
use std::collections::hash_map::DefaultHasher;
use std::hash::Hasher;
use vstd::prelude::*;
use vstd::std_specs::hash::DefaultHasherAdditionalSpecFns;
use vstd::utf8::encode_utf8;

verus! {

/// How a new session is to be made.
#[derive(Debug)]
pub struct SessionOpts {
    /// The session's id; a random one where this is missing.
    pub session_id: Option<String>,
}

/// A session in a list: its metadata and its file.
#[derive(Debug)]
pub struct SessionEntry {
    pub meta: SessionMeta,
    pub path: String,
}

/// What a `SessionEntry` holds.
pub struct EntryView {
    pub meta: MetaView,
    pub path: Seq<char>,
}

impl View for SessionEntry {
    type V = EntryView;

    open spec fn view(&self) -> EntryView {
        EntryView { meta: self.meta@, path: self.path@ }
    }
}

// ---------------------------------------------------------------------------------------------
// Where a session's file stands
// ---------------------------------------------------------------------------------------------

/// Whether `char::is_alphanumeric` holds of a character.
pub uninterp spec fn alphanumeric(c: char) -> bool;

/// `char::is_alphanumeric`: it depends on the character alone, and among the ASCII characters it
/// holds of the letters and digits.
pub assume_specification[ char::is_alphanumeric ](c: char) -> (r: bool)
    ensures
        r == alphanumeric(c),
        c as u32 <= 0x7F ==> r == ('0' <= c <= '9' || 'A' <= c <= 'Z' || 'a' <= c <= 'z'),
;

/// The hash of a path: what the default hasher makes of the path's bytes and the byte that ends a
/// string.
pub open spec fn path_hash(cwd: Seq<char>) -> u64 {
    DefaultHasher::spec_finish(seq![encode_utf8(cwd), seq![0xFFu8]])
}

/// A name with every character that is neither a letter nor a digit replaced by a hyphen.
pub open spec fn sanitized(s: Seq<char>) -> Seq<char> {
    s.map_values(
        |c: char|
            if alphanumeric(c) {
                c
            } else {
                '-'
            },
    )
}

/// The key of a project: the readable name of its directory and the hash of its path.
pub open spec fn key_of(cwd: Seq<char>) -> Seq<char> {
    let base = match file_name(cwd) {
        Some(b) => b,
        None => "root"@,
    };
    sanitized(base) + "-"@ + pad_left(hex(path_hash(cwd) as nat), 16, '0')
}

fn hash_path(cwd: &str) -> (r: u64)
    ensures
        r == path_hash(cwd@),
{
    let mut h = DefaultHasher::new();
    h.write(cwd.as_bytes());
    let end: [u8; 1] = [0xFF];
    h.write(&end);
    assert(end@ =~= seq![0xFFu8]);
    assert(h@ =~= seq![encode_utf8(cwd@), seq![0xFFu8]]);
    h.finish()
}

/// The key of the project in the directory `cwd`.
pub fn project_key(cwd: &str) -> (r: String)
    ensures
        r@ == key_of(cwd@),
{
    let base = match file_name_of(cwd) {
        Some(b) => b,
        None => "root".to_owned(),
    };
    let cs = chars_of(base.as_str());
    let mut out = String::new();
    let mut i: usize = 0;
    while i < cs.len()
        invariant
            i <= cs@.len(),
            cs@ == base@,
            out@ == sanitized(base@.take(i as int)),
        decreases cs@.len() - i,
    {
        let c = cs[i];
        if c.is_alphanumeric() {
            out.push(c);
        } else {
            out.push('-');
        }
        assert(out@ =~= sanitized(base@.take(i + 1)));
        i += 1;
    }
    assert(base@.take(i as int) =~= base@);
    let mut h = String::new();
    push_hex(&mut h, hash_path(cwd));
    assert(h@ =~= hex(path_hash(cwd@) as nat));
    out.append("-");
    out.append(pad_left_str(h.as_str(), 16, '0').as_str());
    out
}

/// The directory of the sessions of the project in `cwd`.
pub open spec fn dir_of(root: Seq<char>, cwd: Seq<char>) -> Seq<char> {
    joined(joined(root, "projects"@), key_of(cwd))
}

/// The directory of the sessions of the project in `cwd`.
pub fn project_dir(root: &str, cwd: &str) -> (r: String)
    ensures
        r@ == dir_of(root@, cwd@),
{
    let p = join_path(root, "projects");
    join_path(p.as_str(), project_key(cwd).as_str())
}

/// The name of a session's file.
pub open spec fn filename_of(created_at: u64, id: Seq<char>) -> Seq<char> {
    pad_left(dec(created_at as nat), 13, '0') + "-"@ + id + ".jsonl"@
}

/// The name of a session's file: it sorts by the time the session began.
pub fn session_filename(created_at: u64, id: &str) -> (r: String)
    ensures
        r@ == filename_of(created_at, id@),
{
    let mut s = pad_left_str(dec_string(created_at).as_str(), 13, '0');
    s.append("-");
    s.append(id);
    s.append(".jsonl");
    s
}

// ---------------------------------------------------------------------------------------------
// Beginning a session
// ---------------------------------------------------------------------------------------------

/// A lower-case hexadecimal digit.
pub open spec fn is_hex(c: char) -> bool {
    '0' <= c <= '9' || 'a' <= c <= 'f'
}

/// The text of a random UUID: five groups of lower-case hexadecimal digits with hyphens between
/// them, the third group beginning with 4 and the fourth with 8, 9, a or b.
pub open spec fn is_uuid4(s: Seq<char>) -> bool {
    &&& s.len() == 36
    &&& forall|i: int|
        0 <= i < 36 ==> if i == 8 || i == 13 || i == 18 || i == 23 {
            #[trigger] s[i] == '-'
        } else {
            is_hex(s[i])
        }
    &&& s[14] == '4'
    &&& (s[19] == '8' || s[19] == '9' || s[19] == 'a' || s[19] == 'b')
}

/// `uuid::Uuid::new_v4` printed by `to_string`: a random UUID in its hyphenated lower-case form.
/// Which one is left open. It ends the program where the system has no random bytes.
#[verifier::external_body]
fn random_id() -> (r: String)
    ensures
        is_uuid4(r@),
{
    uuid::Uuid::new_v4().to_string()
}

/// The metadata of a session that begins.
pub open spec fn new_meta(
    id: Seq<char>,
    forked_from: Option<Seq<char>>,
    cwd: Seq<char>,
    git: Option<(Seq<char>, Seq<char>)>,
    title: Option<Seq<char>>,
    version: Seq<char>,
    model: Seq<char>,
    now: u64,
) -> MetaView {
    MetaView {
        id,
        parent_id: None,
        forked_from,
        cwd,
        git,
        title,
        carter_version: version,
        model,
        created_at: now,
    }
}

/// A session that begins: an empty conversation whose file is opened with its first record.
pub open spec fn started(root: Seq<char>, meta: MetaView) -> ThreadView {
    ThreadView {
        recorder: Some(
            RecorderView {
                path: joined(dir_of(root, meta.cwd), filename_of(meta.created_at, meta.id)),
                created: false,
                header: Some(
                    RecordView { ts: meta.created_at, kind: KindView::SessionMeta(meta) },
                ),
                queue: Seq::empty(),
            },
        ),
        ..empty_thread()
    }
}

/// Begins a session with the given id.
pub fn start_with_id(
    root: &str,
    cwd: &str,
    model: &str,
    id: String,
    git: Option<GitInfo>,
    version: &str,
    now: u64,
) -> (r: (Thread, SessionMeta))
    ensures
        r.1@ == new_meta(id@, None, cwd@, git_view(git), None, version@, model@, now),
        r.0@ == started(root@, r.1@),
{
    let path = join_path(project_dir(root, cwd).as_str(), session_filename(now, id.as_str()).as_str());
    let meta = SessionMeta {
        id,
        parent_id: None,
        forked_from: None,
        cwd: cwd.to_owned(),
        git,
        title: None,
        carter_version: version.to_owned(),
        model: model.to_owned(),
        created_at: now,
    };
    let header = Record::new(RecordKind::SessionMeta(meta.dup()), now);
    let mut thread = Thread::new_empty();
    thread.set_recorder(Recorder::deferred(path, header));
    (thread, meta)
}

/// Begins a session with the id that the options name, or with a random one.
pub fn start_new(
    root: &str,
    cwd: &str,
    model: &str,
    opts: &SessionOpts,
    git: Option<GitInfo>,
    version: &str,
    now: u64,
) -> (r: (Thread, SessionMeta))
    ensures
        match opts.session_id {
            Some(id) => r.1@.id == id@,
            None => is_uuid4(r.1@.id),
        },
        r.1@ == new_meta(r.1@.id, None, cwd@, git_view(git), None, version@, model@, now),
        r.0@ == started(root@, r.1@),
{
    let id = match &opts.session_id {
        Some(id) => id.clone(),
        None => random_id(),
    };
    start_with_id(root, cwd, model, id, git, version, now)
}

// ---------------------------------------------------------------------------------------------
// Folding
// ---------------------------------------------------------------------------------------------

/// The lines of a session file that are not blank.
pub open spec fn nonblank(ls: Seq<Seq<char>>) -> Seq<Seq<char>>
    decreases ls.len(),
{
    if ls.len() == 0 {
        Seq::empty()
    } else if is_blank(ls.last()) {
        nonblank(ls.drop_last())
    } else {
        nonblank(ls.drop_last()).push(ls.last())
    }
}

/// Of two runs of lines, one after the other.
pub proof fn lemma_nonblank_added(a: Seq<Seq<char>>, b: Seq<Seq<char>>)
    ensures
        nonblank(a + b) == nonblank(a) + nonblank(b),
    decreases b.len(),
{
    if b.len() == 0 {
        assert(a + b =~= a);
        assert(nonblank(a) + nonblank(b) =~= nonblank(a));
    } else {
        assert((a + b).drop_last() =~= a + b.drop_last());
        lemma_nonblank_added(a, b.drop_last());
        assert(nonblank(a + b) =~= nonblank(a) + nonblank(b));
    }
}

/// The lines of a file that are not blank, in order.
pub fn record_lines(raw: &str) -> (r: Vec<String>)
    ensures
        texts(r@) == nonblank(lines(raw@)),
{
    let all = split_lines(raw);
    let ghost ls = texts(all@);
    let mut out: Vec<String> = Vec::new();
    assert(texts(out@) =~= Seq::<Seq<char>>::empty());
    assert(ls.take(0) =~= Seq::<Seq<char>>::empty());
    let mut i: usize = 0;
    while i < all.len()
        invariant
            i <= all@.len(),
            ls == texts(all@),
            texts(out@) == nonblank(ls.take(i as int)),
        decreases all@.len() - i,
    {
        broadcast use texts_push;

        assert(ls.take(i + 1).drop_last() =~= ls.take(i as int));
        assert(ls.take(i + 1).last() == all@[i as int]@);
        if !blank(all[i].as_str()) {
            out.push(all[i].clone());
        }
        i += 1;
    }
    assert(ls.take(i as int) =~= ls);
    out
}

/// What the records of a session add up to.
pub struct FoldView {
    pub messages: Seq<MessageView>,
    pub todos: Seq<TodoView>,
    pub checkpoints: Seq<CheckpointView>,
    pub meta: Option<MetaView>,
    pub title: Option<Seq<char>>,
}

/// What no records add up to.
pub open spec fn fold_start() -> FoldView {
    FoldView {
        messages: Seq::empty(),
        todos: Seq::empty(),
        checkpoints: Seq::empty(),
        meta: None,
        title: None,
    }
}

/// One record more: a message is added, a snapshot of a compaction replaces the messages, the last
/// metadata, title and task list hold.
pub open spec fn fold_step(f: FoldView, k: KindView) -> FoldView {
    match k {
        KindView::SessionMeta(m) => FoldView { meta: Some(m), ..f },
        KindView::Title(t) => FoldView { title: Some(t), ..f },
        KindView::Message(m) => FoldView { messages: f.messages.push(m), ..f },
        KindView::Todo(t) => FoldView { todos: t, ..f },
        KindView::Compacted { tier, messages } => FoldView { messages, ..f },
        KindView::Checkpoint { label, snapshots } => FoldView {
            checkpoints: f.checkpoints.push(CheckpointView { label, snapshots }),
            ..f
        },
    }
}

/// What the records add up to.
pub open spec fn folded(ks: Seq<KindView>) -> FoldView
    decreases ks.len(),
{
    if ks.len() == 0 {
        fold_start()
    } else {
        fold_step(folded(ks.drop_last()), ks.last())
    }
}

/// The metadata of folded records, with the title that came later.
pub open spec fn meta_of(f: FoldView) -> Option<MetaView> {
    match f.meta {
        Some(m) => Some(
            if f.title is Some {
                MetaView { title: f.title, ..m }
            } else {
                m
            },
        ),
        None => None,
    }
}

/// A session as its file tells it.
#[derive(Debug)]
pub struct Folded {
    pub messages: Vec<Message>,
    pub todos: Vec<TodoItem>,
    pub checkpoints: CheckpointStore,
    pub meta: SessionMeta,
}

/// What is said of a file without metadata.
pub open spec fn no_meta_text(path: Seq<char>) -> Seq<char> {
    "session file missing meta: "@ + path
}

/// The session that the records of a file tell of; an error where none of them is its metadata.
pub fn fold_records(kinds: Vec<RecordKind>, path: &str) -> (r: Result<Folded, CarterError>)
    ensures
        match r {
            Ok(s) => {
                let f = folded(kind_views(kinds@));
                &&& meta_of(f) == Some(s.meta@)
                &&& message_views(s.messages@) == f.messages
                &&& todo_views(s.todos@) == f.todos
                &&& s.checkpoints@ == f.checkpoints
            },
            Err(e) => folded(kind_views(kinds@)).meta is None && e@ == ErrorView::Config(
                no_meta_text(path@),
            ),
        },
{
    let ghost ks = kind_views(kinds@);
    let mut messages: Vec<Message> = Vec::new();
    let mut todos: Vec<TodoItem> = Vec::new();
    let mut checkpoints = CheckpointStore::new();
    let mut meta: Option<SessionMeta> = None;
    let mut title: Option<String> = None;
    assert(message_views(messages@) =~= Seq::<MessageView>::empty());
    assert(todo_views(todos@) =~= Seq::<TodoView>::empty());
    assert(ks.take(0) =~= Seq::<KindView>::empty());
    for k in it: kinds
        invariant
            ks == kind_views(it.seq()),
            folded(ks.take(it.index())) == (FoldView {
                messages: message_views(messages@),
                todos: todo_views(todos@),
                checkpoints: checkpoints@,
                meta: match meta {
                    Some(m) => Some(m@),
                    None => None,
                },
                title: opt_text(title),
            }),
    {
        broadcast use message_views_push;

        let ghost i = it.index();
        assert(ks.take(i + 1).drop_last() =~= ks.take(i));
        assert(ks.take(i + 1).last() == k@);
        match k {
            RecordKind::SessionMeta(m) => {
                meta = Some(m);
            },
            RecordKind::Title { title: t } => {
                title = Some(t);
            },
            RecordKind::Message(m) => {
                messages.push(m);
            },
            RecordKind::Todo(t) => {
                todos = t;
            },
            RecordKind::Compacted { tier: _, messages: snap } => {
                messages = snap;
            },
            RecordKind::Checkpoint { label, snapshots } => {
                let ghost before = checkpoints@;
                let files = from_records(&snapshots);
                let c = Checkpoint { label, snapshots: files };
                checkpoints.entries.push(c);
                assert(checkpoints@ =~= before.push(c@));
            },
        }
    }
    assert(ks.take(ks.len() as int) =~= ks);
    match meta {
        Some(mut m) => {
            if title.is_some() {
                m.title = title;
            }
            Ok(Folded { messages, todos, checkpoints, meta: m })
        },
        None => Err(
            CarterError::Config("session file missing meta: ".to_owned().concat(path)),
        ),
    }
}

/// The conversation that goes on from folded records, in the same file.
pub open spec fn resumed(f: FoldView, path: Seq<char>) -> ThreadView {
    ThreadView {
        messages: f.messages,
        turns: 0,
        todos: f.todos,
        checkpoints: f.checkpoints,
        recorder: Some(RecorderView { path, created: true, header: None, queue: Seq::empty() }),
    }
}

/// Takes up a session from its records and goes on recording in the same file.
pub fn load_records(kinds: Vec<RecordKind>, path: &str) -> (r: Result<
    (Thread, SessionMeta),
    CarterError,
>)
    ensures
        match r {
            Ok((t, m)) => {
                let f = folded(kind_views(kinds@));
                &&& meta_of(f) == Some(m@)
                &&& t@ == resumed(f, path@)
            },
            Err(e) => folded(kind_views(kinds@)).meta is None && e@ == ErrorView::Config(
                no_meta_text(path@),
            ),
        },
{
    match fold_records(kinds, path) {
        Ok(s) => {
            let rec = Recorder::open(path.to_owned());
            Ok((Thread::from_parts(s.messages, s.todos, s.checkpoints, rec), s.meta))
        },
        Err(e) => Err(e),
    }
}

// ---------------------------------------------------------------------------------------------
// Forking
// ---------------------------------------------------------------------------------------------

/// The messages as they are recorded.
pub open spec fn message_kinds(ms: Seq<MessageView>) -> Seq<KindView> {
    ms.map_values(|m: MessageView| KindView::Message(capped(m)))
}

/// One record, where the condition holds.
pub open spec fn kind_if(b: bool, k: KindView) -> Seq<KindView> {
    if b {
        seq![k]
    } else {
        Seq::empty()
    }
}

/// The records that a fork begins with: its own metadata, its title, the messages and the tasks of
/// the session it comes from.
pub open spec fn fork_kinds(
    meta: MetaView,
    messages: Seq<MessageView>,
    todos: Seq<TodoView>,
) -> Seq<KindView> {
    seq![KindView::SessionMeta(meta)] + kind_if(
        meta.title is Some,
        KindView::Title(meta.title->0),
    ) + message_kinds(messages) + kind_if(todos.len() > 0, KindView::Todo(todos))
}

/// The records, all taken down at `now`.
pub open spec fn stamped(ks: Seq<KindView>, now: u64) -> Seq<RecordView> {
    ks.map_values(|k: KindView| RecordView { ts: now, kind: k })
}

/// Forks a session: a new session that begins with the messages and tasks of `parent` and records
/// all of them in its own file.
pub fn fork_with_id(
    root: &str,
    parent: Folded,
    id: String,
    git: Option<GitInfo>,
    version: &str,
    now: u64,
) -> (r: (Thread, SessionMeta))
    ensures
        r.1@ == new_meta(
            id@,
            Some(parent.meta@.id),
            parent.meta@.cwd,
            git_view(git),
            parent.meta@.title,
            version@,
            parent.meta@.model,
            now,
        ),
        r.0@ == (ThreadView {
            messages: message_views(parent.messages@),
            turns: 0,
            todos: todo_views(parent.todos@),
            checkpoints: Seq::empty(),
            recorder: Some(
                RecorderView {
                    path: joined(
                        dir_of(root@, parent.meta@.cwd),
                        filename_of(now, id@),
                    ),
                    created: true,
                    header: None,
                    queue: stamped(
                        fork_kinds(r.1@, message_views(parent.messages@), todo_views(parent.todos@)),
                        now,
                    ),
                },
            ),
        }),
{
    let ghost mv = message_views(parent.messages@);
    let ghost tv = todo_views(parent.todos@);
    let path = join_path(
        project_dir(root, parent.meta.cwd.as_str()).as_str(),
        session_filename(now, id.as_str()).as_str(),
    );
    let meta = SessionMeta {
        id,
        parent_id: None,
        forked_from: Some(parent.meta.id.clone()),
        cwd: parent.meta.cwd.clone(),
        git,
        title: super::record::dup_opt(&parent.meta.title),
        carter_version: version.to_owned(),
        model: parent.meta.model.clone(),
        created_at: now,
    };
    let mut rec = Recorder::open(path);
    let ghost mut done: Seq<KindView> = Seq::empty();
    assert(rec@.queue =~= stamped(done, now));
    rec.record(RecordKind::SessionMeta(meta.dup()), now);
    proof {
        done = done.push(KindView::SessionMeta(meta@));
        assert(rec@.queue =~= stamped(done, now));
    }
    match &meta.title {
        Some(t) => {
            rec.record(RecordKind::Title { title: t.clone() }, now);
            proof {
                done = done.push(KindView::Title(t@));
                assert(rec@.queue =~= stamped(done, now));
            }
        },
        None => {},
    }
    let ghost head = done;
    assert(head =~= seq![KindView::SessionMeta(meta@)] + kind_if(
        meta@.title is Some,
        KindView::Title(meta@.title->0),
    ));
    let mut i: usize = 0;
    assert(head + message_kinds(mv.take(0)) =~= head);
    while i < parent.messages.len()
        invariant
            i <= parent.messages@.len(),
            mv == message_views(parent.messages@),
            rec@.queue == stamped(head + message_kinds(mv.take(i as int)), now),
            rec@.path == path@,
            rec@.created,
            rec@.header is None,
        decreases parent.messages@.len() - i,
    {
        let m = cap_for_persist(&parent.messages[i]);
        let ghost before = rec@.queue;
        rec.record(RecordKind::Message(m), now);
        assert(mv[i as int] == parent.messages@[i as int]@);
        assert(head + message_kinds(mv.take(i + 1)) =~= (head + message_kinds(
            mv.take(i as int),
        )).push(KindView::Message(capped(mv[i as int]))));
        assert(rec@.queue =~= stamped(head + message_kinds(mv.take(i + 1)), now));
        i += 1;
    }
    assert(mv.take(i as int) =~= mv);
    let ghost body = head + message_kinds(mv);
    if parent.todos.len() > 0 {
        rec.record(RecordKind::Todo(dup_todos(&parent.todos)), now);
        assert(body + kind_if(tv.len() > 0, KindView::Todo(tv)) =~= body.push(KindView::Todo(tv)));
        assert(rec@.queue =~= stamped(body.push(KindView::Todo(tv)), now));
    } else {
        assert(body + kind_if(tv.len() > 0, KindView::Todo(tv)) =~= body);
    }
    assert(rec@.queue == stamped(fork_kinds(meta@, mv, tv), now));
    (
        Thread::from_parts(parent.messages, parent.todos, CheckpointStore::new(), rec),
        meta,
    )
}

/// Forks a session under a random id.
pub fn fork(
    root: &str,
    parent: Folded,
    git: Option<GitInfo>,
    version: &str,
    now: u64,
) -> (r: (Thread, SessionMeta))
    ensures
        is_uuid4(r.1@.id),
        r.1@ == new_meta(
            r.1@.id,
            Some(parent.meta@.id),
            parent.meta@.cwd,
            git_view(git),
            parent.meta@.title,
            version@,
            parent.meta@.model,
            now,
        ),
        r.0@ == (ThreadView {
            messages: message_views(parent.messages@),
            turns: 0,
            todos: todo_views(parent.todos@),
            checkpoints: Seq::empty(),
            recorder: Some(
                RecorderView {
                    path: joined(
                        dir_of(root@, parent.meta@.cwd),
                        filename_of(now, r.1@.id),
                    ),
                    created: true,
                    header: None,
                    queue: stamped(
                        fork_kinds(r.1@, message_views(parent.messages@), todo_views(parent.todos@)),
                        now,
                    ),
                },
            ),
        }),
{
    fork_with_id(root, parent, random_id(), git, version, now)
}

// ---------------------------------------------------------------------------------------------
// Compaction of a file
// ---------------------------------------------------------------------------------------------

/// Checkpoints as they are recorded.
pub open spec fn checkpoint_kinds(cs: Seq<CheckpointView>) -> Seq<KindView> {
    cs.map_values(
        |c: CheckpointView| KindView::Checkpoint { label: c.label, snapshots: c.snapshots },
    )
}

/// The records that stand for a whole session: its metadata, its messages in one snapshot, its tasks,
/// and its checkpoints.
pub open spec fn gc_kinds(
    meta: MetaView,
    messages: Seq<MessageView>,
    todos: Seq<TodoView>,
    checkpoints: Seq<CheckpointView>,
) -> Seq<KindView> {
    seq![KindView::SessionMeta(meta)] + kind_if(
        messages.len() > 0,
        KindView::Compacted { tier: "gc"@, messages },
    ) + kind_if(todos.len() > 0, KindView::Todo(todos)) + checkpoint_kinds(checkpoints)
}

/// The records to rewrite a session's file with.
pub fn gc(s: Folded) -> (r: Vec<RecordKind>)
    ensures
        kind_views(r@) == gc_kinds(
            s.meta@,
            message_views(s.messages@),
            todo_views(s.todos@),
            s.checkpoints@,
        ),
{
    broadcast use kind_views_push;

    let ghost mv = message_views(s.messages@);
    let ghost tv = todo_views(s.todos@);
    let ghost meta = s.meta@;
    let mut out: Vec<RecordKind> = Vec::new();
    out.push(RecordKind::SessionMeta(s.meta));
    if s.messages.len() > 0 {
        out.push(RecordKind::Compacted { tier: "gc".to_owned(), messages: s.messages });
    }
    if s.todos.len() > 0 {
        out.push(RecordKind::Todo(s.todos));
    }
    let ghost head = kind_views(out@);
    let ghost cv = s.checkpoints@;
    let entries = &s.checkpoints.entries;
    let mut i: usize = 0;
    assert(head + checkpoint_kinds(cv.take(0)) =~= head);
    while i < entries.len()
        invariant
            i <= entries@.len(),
            cv == entries@.map_values(|c: Checkpoint| c@),
            kind_views(out@) == head + checkpoint_kinds(cv.take(i as int)),
        decreases entries@.len() - i,
    {
        broadcast use kind_views_push;

        let c = &entries[i];
        assert(cv[i as int] == c@);
        out.push(
            RecordKind::Checkpoint { label: c.label.clone(), snapshots: to_records(&c.snapshots) },
        );
        assert(head + checkpoint_kinds(cv.take(i + 1)) =~= (head + checkpoint_kinds(
            cv.take(i as int),
        )).push(KindView::Checkpoint { label: cv[i as int].label, snapshots: cv[i as int].snapshots }));
        i += 1;
    }
    assert(cv.take(i as int) =~= cv);
    assert(head =~= gc_kinds(meta, mv, tv, Seq::empty()));
    assert(kind_views(out@) =~= gc_kinds(meta, mv, tv, cv));
    out
}

// ---------------------------------------------------------------------------------------------
// Laws
// ---------------------------------------------------------------------------------------------

/// Folding goes on where it stopped: records added later are folded on top.
pub proof fn law_fold_concat(a: Seq<KindView>, b: Seq<KindView>)
    ensures
        folded(a + b) == fold_on(folded(a), b),
    decreases b.len(),
{
    if b.len() == 0 {
        assert(a + b =~= a);
    } else {
        assert((a + b).drop_last() =~= a + b.drop_last());
        law_fold_concat(a, b.drop_last());
    }
}

/// What the records `ks` make of `f`.
pub open spec fn fold_on(f: FoldView, ks: Seq<KindView>) -> FoldView
    decreases ks.len(),
{
    if ks.len() == 0 {
        f
    } else {
        fold_step(fold_on(f, ks.drop_last()), ks.last())
    }
}

/// Folding recorded checkpoints adds them.
proof fn lemma_fold_checkpoints(f: FoldView, cs: Seq<CheckpointView>)
    ensures
        fold_on(f, checkpoint_kinds(cs)) == (FoldView { checkpoints: f.checkpoints + cs, ..f }),
    decreases cs.len(),
{
    if cs.len() == 0 {
        assert(checkpoint_kinds(cs) =~= Seq::<KindView>::empty());
        assert(f.checkpoints + cs =~= f.checkpoints);
    } else {
        assert(checkpoint_kinds(cs).drop_last() =~= checkpoint_kinds(cs.drop_last()));
        lemma_fold_checkpoints(f, cs.drop_last());
        assert(f.checkpoints + cs =~= (f.checkpoints + cs.drop_last()).push(cs.last()));
    }
}

/// Rewriting a session's file keeps what taking it up again gives: the messages, the tasks, the
/// checkpoints, and the metadata with its title.
pub proof fn law_gc_keeps_replay(ks: Seq<KindView>)
    requires
        folded(ks).meta is Some,
    ensures
        ({
            let f = folded(ks);
            let g = folded(gc_kinds(meta_of(f)->0, f.messages, f.todos, f.checkpoints));
            &&& g.messages == f.messages
            &&& g.todos == f.todos
            &&& g.checkpoints == f.checkpoints
            &&& meta_of(g) == meta_of(f)
        }),
{
    let f = folded(ks);
    let m = meta_of(f)->0;
    let k0 = seq![KindView::SessionMeta(m)];
    let k1 = kind_if(
        f.messages.len() > 0,
        KindView::Compacted { tier: "gc"@, messages: f.messages },
    );
    let k2 = kind_if(f.todos.len() > 0, KindView::Todo(f.todos));
    assert(k0.drop_last() =~= Seq::<KindView>::empty());
    assert(folded(k0.drop_last()) == fold_start());
    assert(folded(k0) == fold_step(fold_start(), KindView::SessionMeta(m)));
    if f.messages.len() > 0 {
        assert((k0 + k1).drop_last() =~= k0);
        assert((k0 + k1).last() == k1[0]);
    } else {
        assert(k0 + k1 =~= k0);
        assert(f.messages =~= Seq::<MessageView>::empty());
    }
    let h = folded(k0 + k1);
    assert(h.messages == f.messages && h.meta == Some(m) && h.title is None && h.todos.len() == 0);
    if f.todos.len() > 0 {
        assert((k0 + k1 + k2).drop_last() =~= k0 + k1);
        assert((k0 + k1 + k2).last() == k2[0]);
    } else {
        assert(k0 + k1 + k2 =~= k0 + k1);
        assert(f.todos =~= h.todos);
    }
    let g = folded(k0 + k1 + k2);
    assert(g.messages == f.messages && g.todos == f.todos && g.meta == Some(m) && g.title is None);
    law_fold_concat(k0 + k1 + k2, checkpoint_kinds(f.checkpoints));
    lemma_fold_checkpoints(g, f.checkpoints);
    assert(g.checkpoints + f.checkpoints =~= f.checkpoints);
}

/// Rewriting a file that was rewritten changes nothing more.
pub proof fn law_gc_idempotent(ks: Seq<KindView>)
    requires
        folded(ks).meta is Some,
    ensures
        ({
            let f = folded(ks);
            let once = gc_kinds(meta_of(f)->0, f.messages, f.todos, f.checkpoints);
            let g = folded(once);
            gc_kinds(meta_of(g)->0, g.messages, g.todos, g.checkpoints) == once
        }),
{
    law_gc_keeps_replay(ks);
}

/// Folding recorded messages adds them.
proof fn lemma_fold_messages(f: FoldView, ms: Seq<MessageView>)
    ensures
        fold_on(f, message_kinds(ms)) == (FoldView {
            messages: f.messages + ms.map_values(|m: MessageView| capped(m)),
            ..f
        }),
    decreases ms.len(),
{
    if ms.len() == 0 {
        assert(message_kinds(ms) =~= Seq::<KindView>::empty());
        assert(f.messages + ms.map_values(|m: MessageView| capped(m)) =~= f.messages);
    } else {
        assert(message_kinds(ms).drop_last() =~= message_kinds(ms.drop_last()));
        lemma_fold_messages(f, ms.drop_last());
        assert(message_kinds(ms).last() == KindView::Message(capped(ms.last())));
        assert(f.messages + ms.map_values(|m: MessageView| capped(m)) =~= (f.messages
            + ms.drop_last().map_values(|m: MessageView| capped(m))).push(capped(ms.last())));
    }
}

/// The file of a fork stands for itself: taking the fork up again gives its own metadata, the
/// messages as they are recorded, and the tasks.
pub proof fn law_fork_self_contained(
    meta: MetaView,
    messages: Seq<MessageView>,
    todos: Seq<TodoView>,
)
    ensures
        ({
            let f = folded(fork_kinds(meta, messages, todos));
            &&& meta_of(f) == Some(meta)
            &&& f.messages == messages.map_values(|m: MessageView| capped(m))
            &&& f.todos == todos
        }),
{
    let k0 = seq![KindView::SessionMeta(meta)];
    let k1 = kind_if(meta.title is Some, KindView::Title(meta.title->0));
    let k2 = message_kinds(messages);
    let k3 = kind_if(todos.len() > 0, KindView::Todo(todos));
    assert(k0.drop_last() =~= Seq::<KindView>::empty());
    assert(folded(k0.drop_last()) == fold_start());
    assert(folded(k0) == fold_step(fold_start(), KindView::SessionMeta(meta)));
    if meta.title is Some {
        assert((k0 + k1).drop_last() =~= k0);
    } else {
        assert(k0 + k1 =~= k0);
    }
    law_fold_concat(k0 + k1, k2);
    lemma_fold_messages(folded(k0 + k1), messages);
    assert(Seq::<MessageView>::empty() + messages.map_values(|m: MessageView| capped(m))
        =~= messages.map_values(|m: MessageView| capped(m)));
    if todos.len() > 0 {
        assert((k0 + k1 + k2 + k3).drop_last() =~= k0 + k1 + k2);
    } else {
        assert(k0 + k1 + k2 + k3 =~= k0 + k1 + k2);
        assert(todos =~= Seq::<TodoView>::empty());
    }
}

/// What a session file gives back of what was written to it: the messages appended since the file
/// was last folded follow those that it held, each as it is recorded.
pub proof fn law_appends_are_read_back(ks: Seq<KindView>, ms: Seq<MessageView>)
    ensures
        folded(ks + message_kinds(ms)) == (FoldView {
            messages: folded(ks).messages + ms.map_values(|m: MessageView| capped(m)),
            ..folded(ks)
        }),
{
    law_fold_concat(ks, message_kinds(ms));
    lemma_fold_messages(folded(ks), ms);
}

/// A snapshot of a compaction stands for all the messages before it.
pub proof fn law_compacted_replaces(ks: Seq<KindView>, tier: Seq<char>, ms: Seq<MessageView>)
    ensures
        folded(ks.push(KindView::Compacted { tier, messages: ms })).messages == ms,
{
    let all = ks.push(KindView::Compacted { tier, messages: ms });
    assert(all.drop_last() =~= ks);
}

/// A message is recorded as it is, unless it is a tool output that is too long.
pub proof fn law_short_messages_kept(m: MessageView)
    requires
        m matches MessageView::Tool { call_id, content } ==> crate::bytes::byte_len(content)
            <= super::record::TOOL_OUTPUT_PERSIST_CAP,
    ensures
        capped(m) == m,
{
}

// ---------------------------------------------------------------------------------------------
// Listing
// ---------------------------------------------------------------------------------------------

/// The views of a list of sessions.
pub open spec fn entry_list(v: Seq<SessionEntry>) -> Seq<EntryView> {
    v.map_values(|e: SessionEntry| e@)
}

/// The first position at or after `i` whose session began before `t`.
pub open spec fn slot_from(s: Seq<EntryView>, t: u64, i: int) -> int
    decreases s.len() - i,
{
    if i < 0 || i >= s.len() {
        s.len() as int
    } else if s[i].meta.created_at < t {
        i
    } else {
        slot_from(s, t, i + 1)
    }
}

/// The sessions, newest first; sessions that began at the same time keep their order.
pub open spec fn newest_first(s: Seq<EntryView>) -> Seq<EntryView>
    decreases s.len(),
{
    if s.len() == 0 {
        Seq::empty()
    } else {
        let done = newest_first(s.drop_last());
        done.insert(slot_from(done, s.last().meta.created_at, 0), s.last())
    }
}

proof fn lemma_slot(s: Seq<EntryView>, t: u64, i: int)
    requires
        0 <= i <= s.len(),
    ensures
        i <= slot_from(s, t, i) <= s.len(),
        forall|j: int| i <= j < slot_from(s, t, i) ==> (#[trigger] s[j]).meta.created_at >= t,
        slot_from(s, t, i) < s.len() ==> s[slot_from(s, t, i)].meta.created_at < t,
    decreases s.len() - i,
{
    if i < s.len() && s[i].meta.created_at >= t {
        lemma_slot(s, t, i + 1);
    }
}

/// Sorts the sessions, newest first.
pub fn sort_entries(entries: Vec<SessionEntry>) -> (r: Vec<SessionEntry>)
    ensures
        entry_list(r@) == newest_first(entry_list(entries@)),
{
    let ghost all = entry_list(entries@);
    let mut out: Vec<SessionEntry> = Vec::new();
    assert(entry_list(out@) =~= Seq::<EntryView>::empty());
    assert(all.take(0) =~= Seq::<EntryView>::empty());
    for e in it: entries
        invariant
            all == entry_list(it.seq()),
            entry_list(out@) == newest_first(all.take(it.index())),
    {
        let ghost i = it.index();
        let ghost done = entry_list(out@);
        let t = e.meta.created_at;
        let mut k: usize = 0;
        while k < out.len() && out[k].meta.created_at >= t
            invariant
                k <= out@.len(),
                done == entry_list(out@),
                slot_from(done, t, 0) == slot_from(done, t, k as int),
            decreases out@.len() - k,
        {
            assert(done[k as int] == out@[k as int]@);
            k += 1;
        }
        assert(k < out@.len() ==> done[k as int] == out@[k as int]@);
        let ghost ev = e@;
        out.insert(k, e);
        assert(entry_list(out@) =~= done.insert(k as int, ev));
        assert(all.take(i + 1).drop_last() =~= all.take(i));
        assert(all.take(i + 1).last() == ev);
    }
    assert(all.take(all.len() as int) =~= all);
    out
}

/// The newest session of a list.
pub fn latest(entries: Vec<SessionEntry>) -> (r: Option<SessionEntry>)
    ensures
        match r {
            Some(e) => entries@.len() > 0 && e@ == newest_first(entry_list(entries@))[0],
            None => entries@.len() == 0,
        },
{
    let ghost n = entries@.len();
    proof {
        lemma_newest_first(entry_list(entries@));
    }
    let mut sorted = sort_entries(entries);
    assert(entry_list(sorted@).len() == n);
    if sorted.len() == 0 {
        None
    } else {
        assert(entry_list(sorted@)[0] == sorted@[0]@);
        Some(sorted.swap_remove(0))
    }
}

proof fn lemma_newest_first(s: Seq<EntryView>)
    ensures
        newest_first(s).len() == s.len(),
        newest_first(s).to_multiset() == s.to_multiset(),
        forall|i: int, j: int|
            0 <= i < j < s.len() ==> (#[trigger] newest_first(s)[i]).meta.created_at >= (
            #[trigger] newest_first(s)[j]).meta.created_at,
    decreases s.len(),
{
    broadcast use vstd::seq_lib::group_to_multiset_ensures;

    if s.len() > 0 {
        let done = newest_first(s.drop_last());
        let x = s.last();
        let k = slot_from(done, x.meta.created_at, 0);
        lemma_newest_first(s.drop_last());
        lemma_slot(done, x.meta.created_at, 0);
        let r = done.insert(k, x);
        assert(s =~= s.drop_last().push(x));
        assert(r.to_multiset() =~= done.to_multiset().insert(x));
        assert forall|i: int, j: int| 0 <= i < j < s.len() implies (#[trigger] r[i]).meta.created_at
            >= (#[trigger] r[j]).meta.created_at by {
            let di = if i < k {
                i
            } else {
                i - 1
            };
            let dj = if j < k {
                j
            } else {
                j - 1
            };
            if i != k && j != k {
                assert(r[i] == done[di]);
                assert(r[j] == done[dj]);
            } else if i == k {
                assert(r[j] == done[j - 1]);
                assert(done[k].meta.created_at < x.meta.created_at);
                if j - 1 > k {
                    assert(done[k].meta.created_at >= done[j - 1].meta.created_at);
                }
            } else {
                assert(r[i] == done[i]);
            }
        }
    }
}

/// Sorting loses no session and invents none, and puts none before a newer one.
pub proof fn law_sorted_newest_first(s: Seq<EntryView>)
    ensures
        newest_first(s).to_multiset() == s.to_multiset(),
        forall|i: int, j: int|
            0 <= i < j < newest_first(s).len() ==> (#[trigger] newest_first(s)[i]).meta.created_at
                >= (#[trigger] newest_first(s)[j]).meta.created_at,
{
    lemma_newest_first(s);
}

/// What each kind of record does to a session that is taken up again: the last metadata, the last title and
/// the last task list hold, a message comes after those before it, a snapshot stands for all of them, and a
/// checkpoint is the newest. No record touches anything else, and without records there is nothing.
pub proof fn law_last_record_holds(
    ks: Seq<KindView>,
    meta: MetaView,
    title: Seq<char>,
    m: MessageView,
    todos: Seq<TodoView>,
    tier: Seq<char>,
    snapshot: Seq<MessageView>,
    c: CheckpointView,
)
    ensures
        ({
            let f = folded(ks);
            &&& folded(ks.push(KindView::Todo(todos))) == (FoldView { todos, ..f })
            &&& folded(ks.push(KindView::SessionMeta(meta))) == (FoldView { meta: Some(meta), ..f })
            &&& folded(ks.push(KindView::Title(title))) == (FoldView { title: Some(title), ..f })
            &&& folded(ks.push(KindView::Message(m))) == (FoldView { messages: f.messages.push(m), ..f })
            &&& folded(ks.push(KindView::Compacted { tier, messages: snapshot })) == (FoldView {
                messages: snapshot,
                ..f
            })
            &&& folded(
                ks.push(KindView::Checkpoint { label: c.label, snapshots: c.snapshots }),
            ) == (FoldView { checkpoints: f.checkpoints.push(c), ..f })
        }),
        folded(Seq::empty()) == (FoldView {
            messages: Seq::empty(),
            todos: Seq::empty(),
            checkpoints: Seq::empty(),
            meta: None,
            title: None,
        }),
{
    assert(ks.push(KindView::Todo(todos)).drop_last() =~= ks);
    assert(ks.push(KindView::SessionMeta(meta)).drop_last() =~= ks);
    assert(ks.push(KindView::Title(title)).drop_last() =~= ks);
    assert(ks.push(KindView::Message(m)).drop_last() =~= ks);
    assert(ks.push(KindView::Compacted { tier, messages: snapshot }).drop_last() =~= ks);
    assert(ks.push(
        KindView::Checkpoint { label: c.label, snapshots: c.snapshots },
    ).drop_last() =~= ks);
}

/// A title that was recorded is the title of the session; the rest of the metadata is as it was recorded, and
/// so is the title where none was recorded apart.
pub proof fn law_recorded_title_holds(f: FoldView)
    ensures
        meta_of(f) is None <==> f.meta is None,
        f.meta matches Some(m) ==> meta_of(f) == Some(
            MetaView {
                id: m.id,
                parent_id: m.parent_id,
                forked_from: m.forked_from,
                cwd: m.cwd,
                git: m.git,
                title: if f.title is None {
                    m.title
                } else {
                    f.title
                },
                carter_version: m.carter_version,
                model: m.model,
                created_at: m.created_at,
            },
        ),
{
}

/// A session that is taken up again goes on with what its records tell, from its first round, and records to
/// its own file, to which nothing is added by taking it up.
pub proof fn law_resumed_goes_on(f: FoldView, path: Seq<char>)
    ensures
        resumed(f, path).messages == f.messages,
        resumed(f, path).todos == f.todos,
        resumed(f, path).checkpoints == f.checkpoints,
        resumed(f, path).turns == 0,
        resumed(f, path).recorder matches Some(r) && r.path == path && r.created && r.header is None
            && r.queue.len() == 0,
{
}

/// The file of a fork holds its metadata, its title, every message as it is recorded, and its tasks, in this
/// order and nothing else, all of the same moment.
pub proof fn law_fork_written(
    meta: MetaView,
    messages: Seq<MessageView>,
    todos: Seq<TodoView>,
    now: u64,
)
    ensures
        ({
            let rs = stamped(fork_kinds(meta, messages, todos), now);
            let a: int = if meta.title is Some {
                2
            } else {
                1
            };
            let n = messages.len();
            &&& rs.len() == a + n + if todos.len() > 0 {
                1int
            } else {
                0int
            }
            &&& rs[0] == (RecordView { ts: now, kind: KindView::SessionMeta(meta) })
            &&& meta.title matches Some(t) ==> rs[1] == (RecordView { ts: now, kind: KindView::Title(t) })
            &&& forall|i: int|
                0 <= i < n ==> rs[a + i] == (RecordView {
                    ts: now,
                    kind: KindView::Message(capped(#[trigger] messages[i])),
                })
            &&& todos.len() > 0 ==> rs[a + n] == (RecordView { ts: now, kind: KindView::Todo(todos) })
        }),
{
}

/// A rewritten file holds the metadata, the messages in one snapshot, the tasks, and each checkpoint, as far as
/// there are any, in this order and nothing else.
pub proof fn law_gc_layout(
    meta: MetaView,
    messages: Seq<MessageView>,
    todos: Seq<TodoView>,
    checkpoints: Seq<CheckpointView>,
)
    ensures
        ({
            let ks = gc_kinds(meta, messages, todos, checkpoints);
            let a: int = if messages.len() > 0 {
                2
            } else {
                1
            };
            let b: int = if todos.len() > 0 {
                a + 1
            } else {
                a
            };
            &&& ks.len() == b + checkpoints.len()
            &&& ks[0] == KindView::SessionMeta(meta)
            &&& messages.len() > 0 ==> ks[1] == (KindView::Compacted { tier: "gc"@, messages })
            &&& todos.len() > 0 ==> ks[a] == KindView::Todo(todos)
            &&& forall|i: int|
                0 <= i < checkpoints.len() ==> ks[b + i] == (KindView::Checkpoint {
                    label: (#[trigger] checkpoints[i]).label,
                    snapshots: checkpoints[i].snapshots,
                })
        }),
{
}

/// A new session begins with nothing but its metadata, which wait as the first record of a file that is not
/// made yet, in the directory of its working directory.
pub proof fn law_session_begins_empty(root: Seq<char>, meta: MetaView)
    ensures
        ({
            let t = started(root, meta);
            &&& t.messages.len() == 0 && t.todos.len() == 0 && t.checkpoints.len() == 0 && t.turns == 0
            &&& t.recorder matches Some(r) && !r.created && r.queue.len() == 0 && r.header == Some(
                RecordView { ts: meta.created_at, kind: KindView::SessionMeta(meta) },
            ) && r.path == joined(
                joined(joined(root, "projects"@), key_of(meta.cwd)),
                filename_of(meta.created_at, meta.id),
            )
        }),
{
}

/// The name of a session's file is its moment in at least thirteen digits, its id, and the ending; files of
/// moments with as many digits sort as their moments do.
pub proof fn law_filename(created_at: u64, id: Seq<char>)
    ensures
        ({
            let n = filename_of(created_at, id);
            let d = dec(created_at as nat);
            let w: int = if d.len() < 13 {
                13
            } else {
                d.len() as int
            };
            &&& n.len() == w + 1 + id.len() + 6
            &&& forall|i: int| 0 <= i < w - d.len() ==> (#[trigger] n[i]) == '0'
            &&& n.subrange(w - d.len(), w) == d
            &&& n[w] == '-'
            &&& n.subrange(w + 1, w + 1 + id.len()) == id
            &&& n.skip(w + 1 + id.len()) == ".jsonl"@
        }),
{
    let n = filename_of(created_at, id);
    let d = dec(created_at as nat);
    reveal_strlit(".jsonl");
    reveal_strlit("-");
    let w: int = if d.len() < 13 {
        13
    } else {
        d.len() as int
    };
    assert(pad_left(d, 13, '0').len() == w);
    assert(n.subrange(w - d.len(), w) =~= d);
    assert(n.subrange(w + 1, w + 1 + id.len()) =~= id);
    assert(n.skip(w + 1 + id.len()) =~= ".jsonl"@);
}

/// The key of a directory is its name with every character that is no letter and no digit replaced by a dash,
/// a dash, and the hash of the path in sixteen digits.
pub proof fn law_project_key(cwd: Seq<char>)
    ensures
        ({
            let base = match file_name(cwd) {
                Some(b) => b,
                None => "root"@,
            };
            let k = key_of(cwd);
            &&& k.len() >= base.len() + 17
            &&& forall|i: int|
                0 <= i < base.len() ==> (#[trigger] k[i]) == (if alphanumeric(base[i]) {
                    base[i]
                } else {
                    '-'
                })
            &&& k[base.len() as int] == '-'
            &&& forall|i: int|
                base.len() < i < k.len() - hex(path_hash(cwd) as nat).len() ==> (#[trigger] k[i]) == '0'
            &&& k.skip(k.len() - hex(path_hash(cwd) as nat).len()) == hex(path_hash(cwd) as nat)
        }),
{
    reveal_strlit("-");
    let k = key_of(cwd);
    assert(k.skip(k.len() - hex(path_hash(cwd) as nat).len()) =~= hex(path_hash(cwd) as nat));
}

/// The lines that are read are those that are not blank, in their order.
pub proof fn law_blank_lines_passed_over(ls: Seq<Seq<char>>)
    ensures
        nonblank(ls) == ls.filter(|l: Seq<char>| !is_blank(l)),
    decreases ls.len(),
{
    reveal(Seq::filter);
    if ls.len() > 0 {
        law_blank_lines_passed_over(ls.drop_last());
    }
}

/// Sessions of the same moment stay in the order in which they were found.
pub proof fn law_sorting_is_stable(s: Seq<EntryView>, t: u64)
    ensures
        newest_first(s).filter(|e: EntryView| e.meta.created_at == t) == s.filter(
            |e: EntryView| e.meta.created_at == t,
        ),
    decreases s.len(),
{
    let p = |e: EntryView| e.meta.created_at == t;
    reveal(Seq::filter);
    if s.len() > 0 {
        let x = s.last();
        let done = newest_first(s.drop_last());
        law_sorting_is_stable(s.drop_last(), t);
        law_sorted_newest_first(s.drop_last());
        lemma_slot(done, x.meta.created_at, 0);
        let k = slot_from(done, x.meta.created_at, 0);
        let a = done.take(k);
        let b = done.skip(k);
        assert(done =~= a + b);
        assert(done.insert(k, x) =~= a.push(x) + b);
        Seq::filter_distributes_over_add(a, b, p);
        Seq::filter_distributes_over_add(a.push(x), b, p);
        assert(a.push(x).drop_last() =~= a);
        if p(x) {
            assert(b.filter(p).len() == 0) by {
                if b.filter(p).len() > 0 {
                    let e = b.filter(p)[0];
                    assert(b.filter(p).contains(e));
                    b.lemma_filter_contains_rev(p, e);
                    assert(false);
                }
            }
        }
    }
}

/// What is told of a session that begins.
pub proof fn law_session_told(
    id: Seq<char>,
    forked_from: Option<Seq<char>>,
    cwd: Seq<char>,
    git: Option<(Seq<char>, Seq<char>)>,
    title: Option<Seq<char>>,
    version: Seq<char>,
    model: Seq<char>,
    now: u64,
    path: Seq<char>,
)
    ensures
        ({
            let m = new_meta(id, forked_from, cwd, git, title, version, model, now);
            &&& m.id == id && m.forked_from == forked_from && m.cwd == cwd && m.git == git && m.title == title
            &&& m.carter_version == version && m.model == model && m.created_at == now && m.parent_id is None
        }),
        no_meta_text(path) == "session file missing meta: "@ + path,
{
}

} // verus!
