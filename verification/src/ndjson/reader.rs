//! What comes of the lines that the other program writes.

use super::protocol::{line_command, parse_line, Command, CommandView, Event};
use super::sink::PendingAsks;
use crate::split::{blank, is_blank, trim};
use crate::text::opt_text;
use vstd::prelude::*;

verus! {

/// What is done about a command.
pub enum Action<T> {
    /// Put this to the model.
    Submit(String),
    /// Break off what is going on.
    Cancel,
    /// Tell this.
    Tell(Event),
    /// Hand the answer to the one who waits for it.
    Reply { to: T, answer: String },
    /// Nobody waits for this answer.
    NobodyWaits { id: u64 },
    /// End.
    Stop,
}

/// What is said of a command to change the model.
pub open spec fn no_switch(model: Seq<char>) -> Seq<char> {
    "[ndjson] set_model 暂不支持热切换；请用 --model "@ + model + " 重启 carter"@
}

/// `a` is what is done about the command `c`, where these questions wait.
pub open spec fn done_about<T>(a: Action<T>, c: CommandView, asks: Map<u64, T>) -> bool {
    match c {
        CommandView::UserPrompt { text } => a matches Action::Submit(t) && t@ == text,
        CommandView::Cancel => a is Cancel,
        CommandView::SetModel { model } => a matches Action::Tell(Event::Notice { message }) && message@
            == no_switch(model),
        CommandView::AskResponse { id, answer } => if asks.contains_key(id) {
            a matches Action::Reply { to, answer: s } && to == asks[id] && s@ == answer
        } else {
            a matches Action::NobodyWaits { id: i } && i == id
        },
        CommandView::Stop => a is Stop,
    }
}

/// The questions that wait after a command.
pub open spec fn asks_after<T>(c: CommandView, asks: Map<u64, T>) -> Map<u64, T> {
    match c {
        CommandView::AskResponse { id, answer } => asks.remove(id),
        _ => asks,
    }
}

/// What is done about a command.
pub fn dispatch<T>(cmd: Command, asks: &mut PendingAsks<T>) -> (r: Action<T>)
    ensures
        done_about(r, cmd@, old(asks)@),
        final(asks)@ == asks_after(cmd@, old(asks)@),
{
    match cmd {
        Command::UserPrompt { text } => Action::Submit(text),
        Command::Cancel => Action::Cancel,
        Command::SetModel { model } => {
            let mut s = "[ndjson] set_model 暂不支持热切换；请用 --model ".to_owned();
            s.append(model.as_str());
            s.append(" 重启 carter");
            Action::Tell(Event::Notice { message: s })
        },
        Command::AskResponse { id, answer } => match asks.take(id) {
            Some(to) => Action::Reply { to, answer },
            None => Action::NobodyWaits { id },
        },
        Command::Stop => Action::Stop,
    }
}

/// What comes of a line.
#[derive(Debug)]
pub enum LineStep {
    /// Nothing: the line is blank.
    Skip,
    Obey(Command),
    /// The line is no command; this is told.
    Malformed(Event),
}

/// The command on a line, or what is wrong with it: what the reader of the wire format says where it refuses
/// the line, and what is missing in it otherwise.
pub open spec fn wire_command(line: Seq<char>, refusal: Option<Seq<char>>) -> Result<
    CommandView,
    Seq<char>,
> {
    match refusal {
        Some(e) => Err(e),
        None => line_command(trim(line)),
    }
}

/// What comes of a line; `refusal` is the error of the reader of the wire format, where it refuses the line.
pub fn read_line(line: &str, refusal: Option<String>) -> (r: LineStep)
    ensures
        match r {
            LineStep::Skip => is_blank(line@),
            LineStep::Obey(c) => !is_blank(line@) && wire_command(line@, opt_text(refusal)) == Ok::<
                CommandView,
                Seq<char>,
            >(c@),
            LineStep::Malformed(e) => {
                &&& !is_blank(line@)
                &&& wire_command(line@, opt_text(refusal)) is Err
                &&& e matches Event::Notice { message } && message@
                    == "[ndjson] malformed command: "@ + wire_command(
                    line@,
                    opt_text(refusal),
                )->Err_0
            },
        },
{
    if blank(line) {
        return LineStep::Skip;
    }
    let found = match refusal {
        Some(e) => Err(e),
        None => parse_line(line),
    };
    match found {
        Ok(c) => LineStep::Obey(c),
        Err(e) => LineStep::Malformed(
            Event::Notice {
                message: "[ndjson] malformed command: ".to_owned().concat(e.as_str()),
            },
        ),
    }
}

/// A question is answered once: the first answer reaches the one who waits, a second one nobody.
pub proof fn law_answered_once<T>(asks: Map<u64, T>, id: u64, first: Seq<char>, second: Seq<char>, a: Action<T>, b: Action<T>)
    requires
        asks.contains_key(id),
        done_about(a, (CommandView::AskResponse { id, answer: first }), asks),
        done_about(
            b,
            (CommandView::AskResponse { id, answer: second }),
            asks_after((CommandView::AskResponse { id, answer: first }), asks),
        ),
    ensures
        a matches Action::Reply { to, answer } && to == asks[id] && answer@ == first,
        b is NobodyWaits,
{
}

/// An answer to one question leaves every other question waiting.
pub proof fn law_other_questions_wait<T>(asks: Map<u64, T>, id: u64, other: u64, answer: Seq<char>)
    requires
        other != id,
    ensures
        asks_after((CommandView::AskResponse { id, answer }), asks).contains_key(other)
            == asks.contains_key(other),
        asks.contains_key(other) ==> asks_after(
            (CommandView::AskResponse { id, answer }),
            asks,
        )[other] == asks[other],
{
}

/// A prompt is handed on as it is, a cancellation cancels, a stop stops, and the model is not changed: the answer
/// says how to start anew with it. None of these answers a question.
pub proof fn law_commands_done<T>(a: Action<T>, text: Seq<char>, asks: Map<u64, T>)
    ensures
        done_about(a, (CommandView::UserPrompt { text }), asks) ==> (a matches Action::Submit(t) && t@ == text),
        done_about(a, CommandView::Cancel, asks) ==> a is Cancel,
        done_about(a, CommandView::Stop, asks) ==> a is Stop,
        done_about(a, (CommandView::SetModel { model: text }), asks) ==> (a matches Action::Tell(
            Event::Notice { message },
        ) && message@ == "[ndjson] set_model 暂不支持热切换；请用 --model "@ + text + " 重启 carter"@),
        asks_after((CommandView::UserPrompt { text }), asks) == asks,
        asks_after(CommandView::Cancel, asks) == asks,
        asks_after(CommandView::Stop, asks) == asks,
        asks_after((CommandView::SetModel { model: text }), asks) == asks,
{
}

/// A line is read without the white space around it, and one that could not be read at all says why.
pub proof fn law_line_trimmed(line: Seq<char>, e: Seq<char>)
    ensures
        wire_command(line, None) == line_command(trim(line)),
        wire_command(line, Some(e)) == Err::<CommandView, Seq<char>>(e),
{
}

} // verus!
