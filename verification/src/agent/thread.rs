//! The conversation: its messages, its tasks, its checkpoints, and what of it is recorded.

use super::checkpoint::{file_views, to_records, Checkpoint, CheckpointStore, CheckpointView, FileSnapshot};
use crate::provider::request::{message_views, message_views_push, Message, MessageView};
use crate::session::record::{cap_for_persist, capped, KindView, RecordKind, RecordView};
use crate::session::recorder::{with_record, Recorder, RecorderView};
use crate::tools::todo_write::{dup_todos, todo_views, TodoItem, TodoView};
use vstd::prelude::*;

verus! {

/// A conversation.
#[derive(Debug)]
pub struct Thread {
    pub messages: Vec<Message>,
    pub turns: u32,
    /// The task list as `todo_write` last set it.
    pub todos: Vec<TodoItem>,
    pub checkpoints: CheckpointStore,
    /// Where the conversation is recorded; nowhere where this is missing.
    pub recorder: Option<Recorder>,
}

/// What a conversation holds.
pub struct ThreadView {
    pub messages: Seq<MessageView>,
    pub turns: u32,
    pub todos: Seq<TodoView>,
    pub checkpoints: Seq<CheckpointView>,
    pub recorder: Option<RecorderView>,
}

/// The view of an optional recorder.
pub open spec fn opt_recorder(r: Option<Recorder>) -> Option<RecorderView> {
    match r {
        Some(r) => Some(r@),
        None => None,
    }
}

impl View for Thread {
    type V = ThreadView;

    open spec fn view(&self) -> ThreadView {
        ThreadView {
            messages: message_views(self.messages@),
            turns: self.turns,
            todos: todo_views(self.todos@),
            checkpoints: self.checkpoints@,
            recorder: opt_recorder(self.recorder),
        }
    }
}

/// A conversation without anything in it.
pub open spec fn empty_thread() -> ThreadView {
    ThreadView {
        messages: Seq::empty(),
        turns: 0,
        todos: Seq::empty(),
        checkpoints: Seq::empty(),
        recorder: None,
    }
}

/// A recorder, where there is one, with one line more.
pub open spec fn recorded(r: Option<RecorderView>, ts: u64, kind: KindView) -> Option<RecorderView> {
    match r {
        Some(r) => Some(with_record(r, RecordView { ts, kind })),
        None => None,
    }
}

/// The conversation with one message more, which is recorded.
pub open spec fn appended(t: ThreadView, m: MessageView, ts: u64) -> ThreadView {
    ThreadView {
        messages: t.messages.push(m),
        recorder: recorded(t.recorder, ts, KindView::Message(capped(m))),
        ..t
    }
}

/// The conversation with another task list, which is recorded.
pub open spec fn with_todos(t: ThreadView, todos: Seq<TodoView>, ts: u64) -> ThreadView {
    ThreadView { todos, recorder: recorded(t.recorder, ts, KindView::Todo(todos)), ..t }
}

/// The conversation with one checkpoint more, which is recorded; the conversation itself where the
/// checkpoint holds no file.
pub open spec fn checkpointed(t: ThreadView, c: CheckpointView, ts: u64) -> ThreadView {
    if c.snapshots.len() == 0 {
        t
    } else {
        ThreadView {
            checkpoints: t.checkpoints.push(c),
            recorder: recorded(
                t.recorder,
                ts,
                KindView::Checkpoint { label: c.label, snapshots: c.snapshots },
            ),
            ..t
        }
    }
}

impl Thread {
    /// A conversation that begins with a user message and is not recorded.
    pub fn new(user_prompt: String) -> (r: Thread)
        ensures
            r@ == (ThreadView {
                messages: seq![MessageView::User(user_prompt@)],
                ..empty_thread()
            }),
    {
        let mut messages: Vec<Message> = Vec::new();
        messages.push(Message::User(user_prompt));
        assert(message_views(messages@) =~= seq![MessageView::User(user_prompt@)]);
        let r = Thread {
            messages,
            turns: 0,
            todos: Vec::new(),
            checkpoints: CheckpointStore::new(),
            recorder: None,
        };
        assert(todo_views(r.todos@) =~= Seq::<TodoView>::empty());
        r
    }

    /// A conversation without anything in it.
    pub fn new_empty() -> (r: Thread)
        ensures
            r@ == empty_thread(),
    {
        let r = Thread {
            messages: Vec::new(),
            turns: 0,
            todos: Vec::new(),
            checkpoints: CheckpointStore::new(),
            recorder: None,
        };
        assert(message_views(r.messages@) =~= Seq::<MessageView>::empty());
        assert(todo_views(r.todos@) =~= Seq::<TodoView>::empty());
        r
    }

    /// A conversation taken up again; what it already holds is not recorded once more.
    pub fn from_parts(
        messages: Vec<Message>,
        todos: Vec<TodoItem>,
        checkpoints: CheckpointStore,
        recorder: Recorder,
    ) -> (r: Thread)
        ensures
            r@ == (ThreadView {
                messages: message_views(messages@),
                turns: 0,
                todos: todo_views(todos@),
                checkpoints: checkpoints@,
                recorder: Some(recorder@),
            }),
    {
        Thread { messages, turns: 0, todos, checkpoints, recorder: Some(recorder) }
    }

    /// Has the conversation recorded from now on.
    pub fn set_recorder(&mut self, recorder: Recorder)
        ensures
            final(self)@ == (ThreadView { recorder: Some(recorder@), ..old(self)@ }),
    {
        self.recorder = Some(recorder);
    }

    /// The conversation's recorder.
    pub fn recorder(&self) -> (r: &Option<Recorder>)
        ensures
            opt_recorder(*r) == self@.recorder,
    {
        &self.recorder
    }

    /// Takes down a record, where the conversation is recorded.
    pub fn note(&mut self, kind: RecordKind, ts: u64)
        ensures
            final(self)@ == (ThreadView {
                recorder: recorded(old(self)@.recorder, ts, kind@),
                ..old(self)@
            }),
    {
        let mut slot: Option<Recorder> = None;
        std::mem::swap(&mut slot, &mut self.recorder);
        match slot {
            Some(mut r) => {
                r.record(kind, ts);
                self.recorder = Some(r);
            },
            None => {},
        }
    }

    /// Adds a user message.
    pub fn append_user(&mut self, prompt: String, ts: u64)
        ensures
            final(self)@ == appended(old(self)@, MessageView::User(prompt@), ts),
    {
        self.append(Message::User(prompt), ts);
    }

    /// Adds a message and records it.
    pub fn append(&mut self, msg: Message, ts: u64)
        ensures
            final(self)@ == appended(old(self)@, msg@, ts),
    {
        broadcast use message_views_push;

        let kept = cap_for_persist(&msg);
        self.note(RecordKind::Message(kept), ts);
        self.messages.push(msg);
    }

    /// Replaces the task list and records it.
    pub fn set_todos(&mut self, todos: Vec<TodoItem>, ts: u64)
        ensures
            final(self)@ == with_todos(old(self)@, todo_views(todos@), ts),
    {
        let kept = dup_todos(&todos);
        self.note(RecordKind::Todo(kept), ts);
        self.todos = todos;
    }

    /// Adds a checkpoint and records it, unless it holds no file.
    pub fn snapshot_with_recorder(&mut self, label: String, snapshots: Vec<FileSnapshot>, ts: u64)
        ensures
            final(self)@ == checkpointed(
                old(self)@,
                CheckpointView { label: label@, snapshots: file_views(snapshots@) },
                ts,
            ),
    {
        if snapshots.len() == 0 {
            return;
        }
        let kept = to_records(&snapshots);
        self.note(RecordKind::Checkpoint { label: label.clone(), snapshots: kept }, ts);
        self.checkpoints.snapshot(label, snapshots);
    }
}

/// A message that is appended is the last of the conversation and the last of what waits to be recorded, in the
/// form in which it is recorded; everything else stays.
pub proof fn law_append_is_last(t: ThreadView, m: MessageView, ts: u64)
    ensures
        ({
            let u = appended(t, m, ts);
            &&& u.messages == t.messages + seq![m]
            &&& u.turns == t.turns && u.todos == t.todos && u.checkpoints == t.checkpoints
            &&& t.recorder is None ==> u.recorder is None
            &&& t.recorder matches Some(r) ==> u.recorder == Some(
                RecorderView {
                    path: r.path,
                    created: r.created,
                    header: r.header,
                    queue: r.queue + seq![RecordView { ts, kind: KindView::Message(capped(m)) }],
                },
            )
        }),
{
    let u = appended(t, m, ts);
    assert(u.messages =~= t.messages + seq![m]);
    if let Some(r) = t.recorder {
        let line = RecordView { ts, kind: KindView::Message(capped(m)) };
        assert(u.recorder->0.queue =~= r.queue + seq![line]);
    }
}

/// A new task list takes the place of the old one and is recorded whole; the messages stay.
pub proof fn law_todos_replaced(t: ThreadView, todos: Seq<TodoView>, ts: u64)
    ensures
        ({
            let u = with_todos(t, todos, ts);
            &&& u.todos == todos
            &&& u.messages == t.messages && u.turns == t.turns && u.checkpoints == t.checkpoints
            &&& t.recorder is None ==> u.recorder is None
            &&& t.recorder matches Some(r) ==> u.recorder == Some(
                RecorderView {
                    path: r.path,
                    created: r.created,
                    header: r.header,
                    queue: r.queue + seq![RecordView { ts, kind: KindView::Todo(todos) }],
                },
            )
        }),
{
    if let Some(r) = t.recorder {
        let line = RecordView { ts, kind: KindView::Todo(todos) };
        assert(with_todos(t, todos, ts).recorder->0.queue =~= r.queue + seq![line]);
    }
}

/// A checkpoint with files is the newest one and is recorded with them; one without files is none.
pub proof fn law_checkpoint_is_newest(t: ThreadView, c: CheckpointView, ts: u64)
    ensures
        ({
            let u = checkpointed(t, c, ts);
            &&& c.snapshots.len() == 0 ==> u == t
            &&& c.snapshots.len() > 0 ==> {
                &&& u.checkpoints == t.checkpoints + seq![c]
                &&& u.messages == t.messages && u.turns == t.turns && u.todos == t.todos
                &&& t.recorder is None ==> u.recorder is None
                &&& t.recorder matches Some(r) ==> u.recorder == Some(
                    RecorderView {
                        path: r.path,
                        created: r.created,
                        header: r.header,
                        queue: r.queue + seq![
                            RecordView {
                                ts,
                                kind: KindView::Checkpoint { label: c.label, snapshots: c.snapshots },
                            },
                        ],
                    },
                )
            }
        }),
{
    let u = checkpointed(t, c, ts);
    if c.snapshots.len() > 0 {
        assert(u.checkpoints =~= t.checkpoints + seq![c]);
        if let Some(r) = t.recorder {
            let line = RecordView {
                ts,
                kind: KindView::Checkpoint { label: c.label, snapshots: c.snapshots },
            };
            assert(u.recorder->0.queue =~= r.queue + seq![line]);
        }
    }
}

} // verus!
