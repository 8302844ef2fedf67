//! The recorder of a session: which lines go to its file.
//!
//! A new session writes nothing until its first record: its header line waits until then, so that a
//! session that is opened and closed again leaves no file.

use super::record::{record_views, Record, RecordKind, RecordView};
use vstd::prelude::*;

verus! {

/// The lines of one session on their way to its file.
#[derive(Debug)]
pub struct Recorder {
    pub path: String,
    /// Whether the file has been opened.
    pub created: bool,
    /// The first line, while it waits.
    pub header: Option<Record>,
    /// The lines that are still to be written.
    pub queue: Vec<Record>,
}

/// The view of an optional line.
pub open spec fn opt_record(r: Option<Record>) -> Option<RecordView> {
    match r {
        Some(r) => Some(r@),
        None => None,
    }
}

/// What a recorder holds.
pub struct RecorderView {
    pub path: Seq<char>,
    pub created: bool,
    pub header: Option<RecordView>,
    pub queue: Seq<RecordView>,
}

impl View for Recorder {
    type V = RecorderView;

    open spec fn view(&self) -> RecorderView {
        RecorderView {
            path: self.path@,
            created: self.created,
            header: opt_record(self.header),
            queue: record_views(self.queue@),
        }
    }
}

/// A recorder with one line more to write.
pub open spec fn with_record(r: RecorderView, line: RecordView) -> RecorderView {
    RecorderView { queue: r.queue.push(line), ..r }
}

/// The lines that a flush writes: the waiting header first, where the file is new.
pub open spec fn flush_lines(r: RecorderView, opened: bool) -> Seq<RecordView> {
    if r.queue.len() == 0 {
        Seq::empty()
    } else if r.created {
        r.queue
    } else if !opened {
        Seq::empty()
    } else {
        match r.header {
            Some(h) => seq![h] + r.queue,
            None => r.queue,
        }
    }
}

/// The recorder after a flush. Where the file could not be opened, the lines are given up and the
/// header goes on waiting.
pub open spec fn flushed(r: RecorderView, opened: bool) -> RecorderView {
    if r.queue.len() == 0 {
        r
    } else if r.created || !opened {
        RecorderView { queue: Seq::empty(), ..r }
    } else {
        RecorderView { queue: Seq::empty(), created: true, header: None, ..r }
    }
}

impl Recorder {
    /// A recorder whose file is open.
    pub fn open(path: String) -> (r: Recorder)
        ensures
            r@ == (RecorderView {
                path: path@,
                created: true,
                header: None,
                queue: Seq::empty(),
            }),
    {
        let r = Recorder { path, created: true, header: None, queue: Vec::new() };
        assert(record_views(r.queue@) =~= Seq::<RecordView>::empty());
        r
    }

    /// A recorder that opens its file with its first line.
    pub fn deferred(path: String, header: Record) -> (r: Recorder)
        ensures
            r@ == (RecorderView {
                path: path@,
                created: false,
                header: Some(header@),
                queue: Seq::empty(),
            }),
    {
        let r = Recorder { path, created: false, header: Some(header), queue: Vec::new() };
        assert(record_views(r.queue@) =~= Seq::<RecordView>::empty());
        r
    }

    /// Where the session's file is.
    pub fn path(&self) -> (r: &String)
        ensures
            r@ == self@.path,
    {
        &self.path
    }

    /// Takes down one line, written at `ts`.
    pub fn record(&mut self, kind: RecordKind, ts: u64)
        ensures
            final(self)@ == with_record(old(self)@, RecordView { ts, kind: kind@ }),
    {
        let r = Record::new(kind, ts);
        let ghost before = record_views(self.queue@);
        self.queue.push(r);
        assert(record_views(self.queue@) =~= before.push(r@));
    }

    /// Whether a flush has to open the file first.
    pub fn needs_file(&self) -> (r: bool)
        ensures
            r == (!self@.created && self@.queue.len() > 0),
    {
        !self.created && self.queue.len() > 0
    }

    /// Hands out the lines to write. `opened` says whether the file could be opened, where
    /// `needs_file` asked for it.
    pub fn flush(&mut self, opened: bool) -> (r: Vec<Record>)
        ensures
            record_views(r@) == flush_lines(old(self)@, opened),
            final(self)@ == flushed(old(self)@, opened),
    {
        let mut lines: Vec<Record> = Vec::new();
        assert(record_views(lines@) =~= Seq::<RecordView>::empty());
        if self.queue.len() == 0 {
            return lines;
        }
        let mut queue: Vec<Record> = Vec::new();
        assert(record_views(queue@) =~= Seq::<RecordView>::empty());
        std::mem::swap(&mut queue, &mut self.queue);
        if self.created {
            return queue;
        }
        if !opened {
            return lines;
        }
        self.created = true;
        let mut header: Option<Record> = None;
        std::mem::swap(&mut header, &mut self.header);
        match header {
            Some(h) => {
                let ghost hv = h@;
                let ghost qv = record_views(queue@);
                lines.push(h);
                lines.append(&mut queue);
                assert(record_views(lines@) =~= seq![hv] + qv);
                lines
            },
            None => queue,
        }
    }
}

/// What the lines written by two flushes of a new session are, when its file can be opened: the
/// header, once and first, then every line taken down, in order.
pub proof fn law_header_once_and_first(
    path: Seq<char>,
    header: RecordView,
    first: Seq<RecordView>,
    second: Seq<RecordView>,
)
    requires
        first.len() > 0,
    ensures
        ({
            let r0 = RecorderView { path, created: false, header: Some(header), queue: first };
            let r1 = flushed(r0, true);
            let r2 = RecorderView { queue: second, ..r1 };
            flush_lines(r0, true) + flush_lines(r2, true) == seq![header] + first + second
        }),
{
    let r0 = RecorderView { path, created: false, header: Some(header), queue: first };
    let r1 = flushed(r0, true);
    let r2 = RecorderView { queue: second, ..r1 };
    assert(flush_lines(r0, true) + flush_lines(r2, true) =~= seq![header] + first + second);
}

/// A session that takes down nothing writes nothing.
pub proof fn law_empty_session_writes_nothing(path: Seq<char>, header: RecordView, opened: bool)
    ensures
        flush_lines(
            RecorderView { path, created: false, header: Some(header), queue: Seq::empty() },
            opened,
        ) == Seq::<RecordView>::empty(),
{
}

/// A record is queued behind those that wait already, and nothing else changes.
pub proof fn law_records_queued_in_order(r: RecorderView, a: RecordView, b: RecordView)
    ensures
        with_record(with_record(r, a), b) == (RecorderView {
            path: r.path,
            created: r.created,
            header: r.header,
            queue: r.queue + seq![a, b],
        }),
{
    assert(with_record(with_record(r, a), b).queue =~= r.queue + seq![a, b]);
}

/// What waits is written to a file that is there, once and in order; into a file that is made for it goes
/// the header first; nothing is written where the file cannot be made or nothing waits.
pub proof fn law_queue_written_once(r: RecorderView, opened: bool)
    ensures
        r.created ==> flush_lines(r, opened) == r.queue,
        !r.created && opened && r.queue.len() > 0 ==> flush_lines(r, opened) == (match r.header {
            Some(h) => seq![h],
            None => Seq::empty(),
        }) + r.queue,
        !r.created && !opened ==> flush_lines(r, opened).len() == 0,
        r.queue.len() == 0 ==> flush_lines(r, opened).len() == 0 && flushed(r, opened) == r,
        flushed(r, opened).queue.len() == 0,
        flushed(r, opened).path == r.path,
        flushed(r, opened).created == (r.created || (opened && r.queue.len() > 0)),
        flush_lines(flushed(r, opened), opened).len() == 0,
        !r.created && !opened ==> flushed(r, opened).header == r.header,
{
    if r.queue.len() == 0 {
        assert(r.queue =~= Seq::<RecordView>::empty());
    }
    if !r.created && opened && r.queue.len() > 0 && r.header is None {
        assert(Seq::<RecordView>::empty() + r.queue =~= r.queue);
    }
}

} // verus!
