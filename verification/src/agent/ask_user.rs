//! The tool with which the model asks the user.

use super::ui::{UiEvent, UiView};
use crate::json::{json_view_arr, json_views, member, text_member, Json, JsonView};
use crate::text::{texts, texts_push};
use crate::tools::args::ToolResult;
use vstd::prelude::*;

verus! {

/// The strings among the values, in order.
pub open spec fn strings_in(v: Seq<JsonView>) -> Seq<Seq<char>>
    decreases v.len(),
{
    if v.len() == 0 {
        Seq::empty()
    } else {
        match v.last() {
            JsonView::Str(s) => strings_in(v.drop_last()).push(s),
            _ => strings_in(v.drop_last()),
        }
    }
}

/// The strings of the array member `key`; nothing where there is no such array.
pub open spec fn string_list(j: JsonView, key: Seq<char>) -> Option<Seq<Seq<char>>> {
    match member(j, key) {
        Some(JsonView::Arr(v)) => Some(strings_in(v)),
        _ => None,
    }
}

/// The strings of the array member `key`.
pub fn get_string_list(j: &Json, key: &str) -> (r: Option<Vec<String>>)
    ensures
        match r {
            Some(v) => string_list(j@, key@) == Some(texts(v@)),
            None => string_list(j@, key@) is None,
        },
{
    match j.get(key) {
        Some(Json::Arr(v)) => {
            proof {
                json_view_arr(*v);
            }
            let ghost js = json_views(v@);
            let mut out: Vec<String> = Vec::new();
            assert(texts(out@) =~= Seq::<Seq<char>>::empty());
            assert(js.take(0) =~= Seq::<JsonView>::empty());
            let mut i: usize = 0;
            while i < v.len()
                invariant
                    i <= v@.len(),
                    js == json_views(v@),
                    texts(out@) == strings_in(js.take(i as int)),
                decreases v@.len() - i,
            {
                broadcast use texts_push;

                assert(js.take(i + 1).drop_last() =~= js.take(i as int));
                assert(js.take(i + 1).last() == v@[i as int]@);
                match &v[i] {
                    Json::Str(s) => {
                        out.push(s.clone());
                    },
                    _ => {
                        assert(!(v@[i as int]@ is Str));
                    },
                }
                i += 1;
            }
            assert(js.take(i as int) =~= js);
            Some(out)
        },
        _ => None,
    }
}

/// The tool with which the model asks the user.
#[derive(Debug)]
pub struct AskUserQuestionTool {
    /// The number of the next question.
    pub next_id: u64,
}

/// How a question was answered.
#[derive(Debug)]
pub enum AskReply {
    /// With this text.
    Answer(String),
    /// The question could not be put.
    Closed,
    /// Nobody is there any more.
    Gone,
}

/// What the model is told of the answer.
pub open spec fn reply_answer(a: AskReply) -> (bool, Seq<char>) {
    match a {
        AskReply::Answer(s) => if s@.len() == 0 {
            (true, "(no answer)"@)
        } else {
            (true, s@)
        },
        AskReply::Closed => (false, "ask_user_question: UI channel closed"@),
        AskReply::Gone => (false, "ask_user_question: oneshot dropped (UI gone?)"@),
    }
}

impl AskUserQuestionTool {
    /// The tool before its first question.
    pub fn new() -> (r: AskUserQuestionTool)
        ensures
            r.next_id == 1,
    {
        AskUserQuestionTool { next_id: 1 }
    }

    /// The question that a call puts, under a number of its own, or the answer where it puts none.
    pub fn ask(&mut self, args: &Json) -> (r: Result<UiEvent, ToolResult>)
        requires
            old(self).next_id < u64::MAX,
        ensures
            match text_member(args@, "question"@) {
                Some(q) => if q.len() > 0 {
                    &&& r is Ok
                    &&& r->Ok_0@ == (UiView::AskUser {
                        id: old(self).next_id,
                        question: q,
                        options: match string_list(args@, "options"@) {
                            Some(o) => o,
                            None => Seq::empty(),
                        },
                    })
                    &&& final(self).next_id == old(self).next_id + 1
                } else {
                    &&& r is Err
                    &&& !r->Err_0.ok
                    &&& r->Err_0.content@ == "missing argument: question"@
                    &&& final(self).next_id == old(self).next_id
                },
                None => {
                    &&& r is Err
                    &&& !r->Err_0.ok
                    &&& r->Err_0.content@ == "missing argument: question"@
                    &&& final(self).next_id == old(self).next_id
                },
            },
    {
        let question = match args.get_str("question") {
            Some(q) => q,
            None => String::new(),
        };
        if question.as_str().is_empty() {
            return Err(ToolResult::err("missing argument: question".to_owned()));
        }
        let options = match get_string_list(args, "options") {
            Some(o) => o,
            None => Vec::new(),
        };
        proof {
            if string_list(args@, "options"@) is None {
                assert(texts(options@) =~= Seq::<Seq<char>>::empty());
            }
        }
        let id = self.next_id;
        self.next_id = id + 1;
        Ok(UiEvent::AskUser { id, question, options })
    }

    /// What the model is told of the answer.
    pub fn answer(&self, reply: AskReply) -> (r: ToolResult)
        ensures
            (r.ok, r.content@) == reply_answer(reply),
    {
        match reply {
            AskReply::Answer(s) => if s.as_str().is_empty() {
                ToolResult::ok("(no answer)".to_owned())
            } else {
                ToolResult::ok(s)
            },
            AskReply::Closed => ToolResult::err("ask_user_question: UI channel closed".to_owned()),
            AskReply::Gone => ToolResult::err(
                "ask_user_question: oneshot dropped (UI gone?)".to_owned(),
            ),
        }
    }
}

/// The options of a question are the texts of the list, in their order; what is no text is passed over.
pub proof fn law_options_taken(v: Seq<JsonView>, j: JsonView, s: Seq<char>)
    ensures
        strings_in(v.push(JsonView::Str(s))) == strings_in(v) + seq![s],
        !(j is Str) ==> strings_in(v.push(j)) == strings_in(v),
        strings_in(Seq::empty()).len() == 0,
{
    assert(v.push(JsonView::Str(s)).drop_last() =~= v);
    assert(v.push(j).drop_last() =~= v);
}

/// The answer to a question is what the user typed, and says so where that is nothing; no answer is a failure.
pub proof fn law_question_answered(s: String)
    ensures
        s@.len() > 0 ==> reply_answer(AskReply::Answer(s)) == (true, s@),
        s@.len() == 0 ==> reply_answer(AskReply::Answer(s)) == (true, "(no answer)"@),
        reply_answer(AskReply::Closed) == (false, "ask_user_question: UI channel closed"@),
        reply_answer(AskReply::Gone) == (false, "ask_user_question: oneshot dropped (UI gone?)"@),
{
}

/// A list of texts is read where there is an array under the name, and nowhere else.
pub proof fn law_list_read(j: JsonView, key: Seq<char>, v: Seq<JsonView>)
    ensures
        member(j, key) == Some(JsonView::Arr(v)) ==> string_list(j, key) == Some(strings_in(v)),
        !(member(j, key) is Some && member(j, key)->0 is Arr) ==> string_list(j, key) is None,
{
}

} // verus!
