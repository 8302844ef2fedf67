//! The records of a session file.

use crate::bytes::{
    byte_len, byte_length, fit, fit_chars, lemma_byte_len_ascii, lemma_byte_len_concat, lemma_fit,
};
use crate::number::{dec, lemma_dec_digits, pow10, push_dec};
use crate::provider::request::{message_views, Message, MessageView};
use crate::text::{chars_of, opt_text, string_of};
use crate::tools::todo_write::{todo_views, TodoItem, TodoView};
use vstd::prelude::*;
use vstd::slice::slice_subrange;

verus! {

/// The state of the repository when a session began.
#[derive(Debug)]
pub struct GitInfo {
    pub commit: String,
    pub branch: String,
}

/// What is known of a session as a whole.
#[derive(Debug)]
pub struct SessionMeta {
    pub id: String,
    pub parent_id: Option<String>,
    /// The session that this one was forked from.
    pub forked_from: Option<String>,
    pub cwd: String,
    pub git: Option<GitInfo>,
    pub title: Option<String>,
    pub carter_version: String,
    pub model: String,
    /// When the session began, in milliseconds since 1970.
    pub created_at: u64,
}

/// What a `SessionMeta` holds.
pub struct MetaView {
    pub id: Seq<char>,
    pub parent_id: Option<Seq<char>>,
    pub forked_from: Option<Seq<char>>,
    pub cwd: Seq<char>,
    pub git: Option<(Seq<char>, Seq<char>)>,
    pub title: Option<Seq<char>>,
    pub carter_version: Seq<char>,
    pub model: Seq<char>,
    pub created_at: u64,
}

/// What an optional `GitInfo` holds.
pub open spec fn git_view(g: Option<GitInfo>) -> Option<(Seq<char>, Seq<char>)> {
    match g {
        Some(g) => Some((g.commit@, g.branch@)),
        None => None,
    }
}

impl View for SessionMeta {
    type V = MetaView;

    open spec fn view(&self) -> MetaView {
        MetaView {
            id: self.id@,
            parent_id: opt_text(self.parent_id),
            forked_from: opt_text(self.forked_from),
            cwd: self.cwd@,
            git: git_view(self.git),
            title: opt_text(self.title),
            carter_version: self.carter_version@,
            model: self.model@,
            created_at: self.created_at,
        }
    }
}

/// A copy of an optional string.
pub fn dup_opt(s: &Option<String>) -> (r: Option<String>)
    ensures
        opt_text(r) == opt_text(*s),
{
    match s {
        Some(s) => Some(s.clone()),
        None => None,
    }
}

impl SessionMeta {
    /// A copy of the metadata.
    pub fn dup(&self) -> (r: SessionMeta)
        ensures
            r@ == self@,
    {
        SessionMeta {
            id: self.id.clone(),
            parent_id: dup_opt(&self.parent_id),
            forked_from: dup_opt(&self.forked_from),
            cwd: self.cwd.clone(),
            git: match &self.git {
                Some(g) => Some(GitInfo { commit: g.commit.clone(), branch: g.branch.clone() }),
                None => None,
            },
            title: dup_opt(&self.title),
            carter_version: self.carter_version.clone(),
            model: self.model.clone(),
            created_at: self.created_at,
        }
    }
}

/// A file as it was before a change; no content where it did not exist.
#[derive(Debug)]
pub struct FileSnapshotRecord {
    pub path: String,
    pub prior: Option<String>,
}

/// What a snapshot holds.
pub struct SnapView {
    pub path: Seq<char>,
    pub prior: Option<Seq<char>>,
}

impl View for FileSnapshotRecord {
    type V = SnapView;

    open spec fn view(&self) -> SnapView {
        SnapView { path: self.path@, prior: opt_text(self.prior) }
    }
}

/// The views of a list of snapshots.
pub open spec fn snap_views(v: Seq<FileSnapshotRecord>) -> Seq<SnapView> {
    v.map_values(|s: FileSnapshotRecord| s@)
}

/// What one line of a session file says.
#[derive(Debug)]
pub enum RecordKind {
    SessionMeta(SessionMeta),
    Title { title: String },
    Message(Message),
    Todo(Vec<TodoItem>),
    /// The whole history after a compaction; it replaces what came before.
    Compacted { tier: String, messages: Vec<Message> },
    /// The files that a tool call was about to change.
    Checkpoint { label: String, snapshots: Vec<FileSnapshotRecord> },
}

/// What a record says.
pub enum KindView {
    SessionMeta(MetaView),
    Title(Seq<char>),
    Message(MessageView),
    Todo(Seq<TodoView>),
    Compacted { tier: Seq<char>, messages: Seq<MessageView> },
    Checkpoint { label: Seq<char>, snapshots: Seq<SnapView> },
}

impl View for RecordKind {
    type V = KindView;

    open spec fn view(&self) -> KindView {
        match *self {
            RecordKind::SessionMeta(m) => KindView::SessionMeta(m@),
            RecordKind::Title { title } => KindView::Title(title@),
            RecordKind::Message(m) => KindView::Message(m@),
            RecordKind::Todo(t) => KindView::Todo(todo_views(t@)),
            RecordKind::Compacted { tier, messages } => KindView::Compacted {
                tier: tier@,
                messages: message_views(messages@),
            },
            RecordKind::Checkpoint { label, snapshots } => KindView::Checkpoint {
                label: label@,
                snapshots: snap_views(snapshots@),
            },
        }
    }
}

/// The views of a list of records.
pub open spec fn kind_views(v: Seq<RecordKind>) -> Seq<KindView> {
    v.map_values(|k: RecordKind| k@)
}

/// The views of a list of records with one record added at the end.
pub broadcast proof fn kind_views_push(v: Seq<RecordKind>, k: RecordKind)
    ensures
        #[trigger] kind_views(v.push(k)) == kind_views(v).push(k@),
{
    assert(kind_views(v.push(k)) =~= kind_views(v).push(k@));
}

/// One line of a session file: what it says and when it was written.
#[derive(Debug)]
pub struct Record {
    pub ts: u64,
    pub kind: RecordKind,
}

/// What a line holds.
pub struct RecordView {
    pub ts: u64,
    pub kind: KindView,
}

impl View for Record {
    type V = RecordView;

    open spec fn view(&self) -> RecordView {
        RecordView { ts: self.ts, kind: self.kind@ }
    }
}

impl Record {
    /// A line written at `ts`.
    pub fn new(kind: RecordKind, ts: u64) -> (r: Record)
        ensures
            r@ == (RecordView { ts, kind: kind@ }),
    {
        Record { ts, kind }
    }
}

/// The views of a list of lines.
pub open spec fn record_views(v: Seq<Record>) -> Seq<RecordView> {
    v.map_values(|r: Record| r@)
}

/// How many bytes of a tool's output are kept in a session file without being cut.
pub const TOOL_OUTPUT_PERSIST_CAP: usize = 32768;

/// The first `n` characters of `s`.
pub open spec fn first_chars(s: Seq<char>, n: nat) -> Seq<char> {
    if s.len() <= n {
        s
    } else {
        s.take(n as int)
    }
}

/// A message as it is recorded: a tool's output that is too long is cut to the characters that fit and
/// marked, everything else is kept.
pub open spec fn capped(m: MessageView) -> MessageView {
    match m {
        MessageView::Tool { call_id, content } => if byte_len(content) > TOOL_OUTPUT_PERSIST_CAP {
            MessageView::Tool {
                call_id,
                content: content.take(fit(content, TOOL_OUTPUT_PERSIST_CAP as nat) as int)
                    + "\n[tool result truncated for session log: "@ + dec(byte_len(content))
                    + " bytes total]"@,
            }
        } else {
            m
        },
        _ => m,
    }
}

/// The first `n` characters of `s`.
pub fn take_chars(s: &str, n: usize) -> (r: String)
    ensures
        r@ == first_chars(s@, n as nat),
{
    let a = chars_of(s);
    if a.len() <= n {
        return s.to_owned();
    }
    let r = string_of(slice_subrange(a.as_slice(), 0, n));
    assert(r@ =~= s@.take(n as int));
    r
}

/// What is recorded of a tool's output stays near the cap, whatever its length in bytes.
proof fn lemma_capped_bytes(content: Seq<char>)
    requires
        TOOL_OUTPUT_PERSIST_CAP < byte_len(content) <= u64::MAX,
    ensures
        ({
            let kept = content.take(fit(content, TOOL_OUTPUT_PERSIST_CAP as nat) as int);
            byte_len(
                kept + "\n[tool result truncated for session log: "@ + dec(byte_len(content))
                    + " bytes total]"@,
            ) < TOOL_OUTPUT_PERSIST_CAP + 200
        }),
{
    let kept = content.take(fit(content, TOOL_OUTPUT_PERSIST_CAP as nat) as int);
    let head = "\n[tool result truncated for session log: "@;
    let tail = " bytes total]"@;
    let count = dec(byte_len(content));
    lemma_fit(content, TOOL_OUTPUT_PERSIST_CAP as nat);
    reveal_strlit("\n[tool result truncated for session log: ");
    reveal_strlit(" bytes total]");
    lemma_byte_len_ascii(head);
    lemma_byte_len_ascii(tail);
    assert(pow10(20) == 100_000_000_000_000_000_000) by {
        reveal_with_fuel(pow10, 21);
    }
    lemma_dec_digits(byte_len(content), 20);
    lemma_byte_len_ascii(count);
    lemma_byte_len_concat(kept, head);
    lemma_byte_len_concat(kept + head, count);
    lemma_byte_len_concat(kept + head + count, tail);
}

/// A message as it is recorded. A tool's output takes fewer bytes than the cap and the mark.
pub fn cap_for_persist(msg: &Message) -> (r: Message)
    ensures
        r@ == capped(msg@),
        r@ matches MessageView::Tool { content, .. } ==> byte_len(content) < TOOL_OUTPUT_PERSIST_CAP
            + 200,
{
    match msg {
        Message::Tool { call_id, content } => {
            let n = byte_length(content.as_str());
            if n > TOOL_OUTPUT_PERSIST_CAP {
                proof {
                    lemma_capped_bytes(content@);
                }
                let a = chars_of(content.as_str());
                let k: usize = fit_chars(a.as_slice(), TOOL_OUTPUT_PERSIST_CAP);
                let mut s = string_of(slice_subrange(a.as_slice(), 0, k));
                assert(s@ =~= content@.take(k as int));
                s.append("\n[tool result truncated for session log: ");
                push_dec(&mut s, n as u64);
                s.append(" bytes total]");
                Message::Tool { call_id: call_id.clone(), content: s }
            } else {
                msg.dup()
            }
        },
        _ => msg.dup(),
    }
}

/// Only the outputs of tools are cut, and only beyond 32 KiB: of a longer one as many characters are kept as
/// fit, and a note with its whole length follows them. The call that it answers stays named.
pub proof fn law_only_long_outputs_cut(m: MessageView)
    ensures
        !(m is Tool) ==> capped(m) == m,
        m matches MessageView::Tool { call_id, content } ==> (byte_len(content) <= 32768 ==> capped(m) == m),
        m matches MessageView::Tool { call_id, content } ==> (byte_len(content) > 32768 ==> exists|k: int|
            0 <= k < content.len() && #[trigger] byte_len(content.take(k)) <= 32768 && byte_len(
                content.take(k + 1),
            ) > 32768 && capped(m) == (MessageView::Tool {
                call_id,
                content: content.take(k) + "\n[tool result truncated for session log: "@ + dec(
                    byte_len(content),
                ) + " bytes total]"@,
            })),
{
    if let MessageView::Tool { call_id, content } = m {
        if byte_len(content) > 32768 {
            let k = fit(content, 32768) as int;
            lemma_fit(content, 32768);
            assert(content.take(content.len() as int) =~= content);
            assert(byte_len(content.take(k)) <= 32768);
        }
    }
}

/// The first characters of a text are what it begins with, as many as there are up to the limit.
pub proof fn law_first_chars(s: Seq<char>, n: nat)
    ensures
        first_chars(s, n).is_prefix_of(s),
        first_chars(s, n).len() == if s.len() < n {
            s.len()
        } else {
            n
        },
{
}

} // verus!
