//! The beginning of a session that another program drives.

use super::protocol::Event;
use crate::session::record::SessionMeta;
use vstd::prelude::*;

verus! {

/// What is told first: the session is ready. It is a session taken up again where it has a title.
pub fn ready_event(meta: &SessionMeta, model_label: &str, cwd: &str) -> (r: Event)
    ensures
        r matches Event::Ready { session_id, model, cwd: c, resumed } && session_id@ == meta.id@
            && model@ == model_label@ && c@ == cwd@ && resumed == (meta.title is Some),
{
    Event::Ready {
        session_id: meta.id.clone(),
        model: model_label.to_owned(),
        cwd: cwd.to_owned(),
        resumed: meta.title.is_some(),
    }
}

} // verus!
