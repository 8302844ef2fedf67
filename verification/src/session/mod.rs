//! Sessions: what is recorded of a conversation, and how it is taken up again.

pub mod codec;
pub mod dates;
pub mod history;
pub mod record;
pub mod recorder;
pub mod store;
pub mod tidy;

pub use dates::{civil_from_days, date_utc};
pub use record::{
    cap_for_persist, FileSnapshotRecord, GitInfo, Record, RecordKind, SessionMeta,
    TOOL_OUTPUT_PERSIST_CAP,
};
pub use recorder::Recorder;
pub use store::{SessionEntry, SessionOpts};
