//! `todo_write`: the task list that the model keeps.

use super::args::ToolResult;
use crate::json::{json_view_arr, json_views, member, text_member, Json, JsonView};
use crate::number::{dec, push_dec};
use crate::text::str_eq;
use vstd::prelude::*;

verus! {

/// How far a task is.
#[derive(Clone, Copy, Debug, PartialEq, Eq, Structural)]
pub enum TodoStatus {
    Pending,
    InProgress,
    Completed,
}

/// The status that a word stands for.
pub open spec fn status_of(s: Seq<char>) -> Option<TodoStatus> {
    if s == "pending"@ {
        Some(TodoStatus::Pending)
    } else if s == "in_progress"@ {
        Some(TodoStatus::InProgress)
    } else if s == "completed"@ {
        Some(TodoStatus::Completed)
    } else {
        None
    }
}

impl TodoStatus {
    /// The status that a word stands for.
    pub fn from_word(s: &str) -> (r: Option<TodoStatus>)
        ensures
            r == status_of(s@),
    {
        if str_eq(s, "pending") {
            Some(TodoStatus::Pending)
        } else if str_eq(s, "in_progress") {
            Some(TodoStatus::InProgress)
        } else if str_eq(s, "completed") {
            Some(TodoStatus::Completed)
        } else {
            None
        }
    }
}

/// One task.
#[derive(Debug)]
pub struct TodoItem {
    /// What is to be done.
    pub content: String,
    pub status: TodoStatus,
    /// How the task is shown while it is worked on.
    pub active_form: String,
}

/// What a task holds.
pub struct TodoView {
    pub content: Seq<char>,
    pub status: TodoStatus,
    pub active_form: Seq<char>,
}

impl View for TodoItem {
    type V = TodoView;

    open spec fn view(&self) -> TodoView {
        TodoView { content: self.content@, status: self.status, active_form: self.active_form@ }
    }
}

/// The views of a list of tasks.
pub open spec fn todo_views(v: Seq<TodoItem>) -> Seq<TodoView> {
    v.map_values(|t: TodoItem| t@)
}

/// A copy of a list of tasks.
pub fn dup_todos(v: &Vec<TodoItem>) -> (r: Vec<TodoItem>)
    ensures
        todo_views(r@) == todo_views(v@),
        r@.len() == v@.len(),
{
    let mut out: Vec<TodoItem> = Vec::new();
    let mut i: usize = 0;
    while i < v.len()
        invariant
            i <= v@.len(),
            todo_views(out@) == todo_views(v@).take(i as int),
        decreases v@.len() - i,
    {
        let t = TodoItem {
            content: v[i].content.clone(),
            status: v[i].status,
            active_form: v[i].active_form.clone(),
        };
        let ghost before = todo_views(out@);
        out.push(t);
        assert(todo_views(out@) =~= before.push(t@));
        assert(todo_views(v@).take(i + 1) =~= todo_views(v@).take(i as int).push(v@[i as int]@));
        i += 1;
    }
    assert(todo_views(v@).take(i as int) =~= todo_views(v@));
    assert(todo_views(out@).len() == out@.len());
    out
}

/// What is said of a task's missing field.
pub open spec fn no_field(i: nat, field: Seq<char>) -> Seq<char> {
    "todos["@ + dec(i) + "]: missing or non-string `"@ + field + "`"@
}

/// What is said of an unknown status.
pub open spec fn bad_status(i: nat, s: Seq<char>) -> Seq<char> {
    "todos["@ + dec(i) + "]: invalid status `"@ + s
        + "` (expected pending/in_progress/completed)"@
}

/// The task that the `i`-th item of the argument describes, or what is wrong with it.
pub open spec fn parsed_item(j: JsonView, i: nat) -> Result<TodoView, Seq<char>> {
    match text_member(j, "content"@) {
        None => Err(no_field(i, "content"@)),
        Some(content) => match text_member(j, "status"@) {
            None => Err(no_field(i, "status"@)),
            Some(word) => match status_of(word) {
                None => Err(bad_status(i, word)),
                Some(status) => Ok(
                    TodoView {
                        content,
                        status,
                        active_form: match text_member(j, "active_form"@) {
                            Some(a) => a,
                            None => content,
                        },
                    },
                ),
            },
        },
    }
}

/// The tasks that the first `n` items describe, or what is wrong with the first bad one.
pub open spec fn parsed_items(items: Seq<JsonView>, n: int) -> Result<Seq<TodoView>, Seq<char>>
    decreases n,
{
    if n <= 0 || n > items.len() {
        Ok(Seq::empty())
    } else {
        match parsed_items(items, n - 1) {
            Err(e) => Err(e),
            Ok(done) => match parsed_item(items[n - 1], (n - 1) as nat) {
                Err(e) => Err(e),
                Ok(t) => Ok(done.push(t)),
            },
        }
    }
}

/// The tasks that the arguments of a `todo_write` call list, or what is wrong with them.
pub open spec fn parsed_todos(args: JsonView) -> Result<Seq<TodoView>, Seq<char>> {
    match member(args, "todos"@) {
        Some(JsonView::Arr(items)) => parsed_items(items, items.len() as int),
        _ => Err("missing or non-array argument: todos"@),
    }
}

/// The view of a parsed list.
pub open spec fn todos_result(r: Result<Vec<TodoItem>, String>) -> Result<
    Seq<TodoView>,
    Seq<char>,
> {
    match r {
        Ok(v) => Ok(todo_views(v@)),
        Err(e) => Err(e@),
    }
}

/// A bad item makes the whole list bad.
proof fn lemma_parsed_items_err(items: Seq<JsonView>, k: int, n: int)
    requires
        0 <= k <= n <= items.len(),
        parsed_items(items, k) is Err,
    ensures
        parsed_items(items, n) == parsed_items(items, k),
    decreases n - k,
{
    if k < n {
        lemma_parsed_items_err(items, k, n - 1);
    }
}

fn parse_item(j: &Json, i: usize) -> (r: Result<TodoItem, String>)
    ensures
        match r {
            Ok(t) => parsed_item(j@, i as nat) == Ok::<TodoView, Seq<char>>(t@),
            Err(e) => parsed_item(j@, i as nat) == Err::<TodoView, Seq<char>>(e@),
        },
{
    let content = match j.get_str("content") {
        Some(s) => s,
        None => {
            let mut e = "todos[".to_owned();
            push_dec(&mut e, i as u64);
            e.append("]: missing or non-string `");
            e.append("content");
            e.append("`");
            return Err(e);
        },
    };
    let word = match j.get_str("status") {
        Some(s) => s,
        None => {
            let mut e = "todos[".to_owned();
            push_dec(&mut e, i as u64);
            e.append("]: missing or non-string `");
            e.append("status");
            e.append("`");
            return Err(e);
        },
    };
    let status = match TodoStatus::from_word(word.as_str()) {
        Some(s) => s,
        None => {
            let mut e = "todos[".to_owned();
            push_dec(&mut e, i as u64);
            e.append("]: invalid status `");
            e.append(word.as_str());
            e.append("` (expected pending/in_progress/completed)");
            return Err(e);
        },
    };
    let active_form = match j.get_str("active_form") {
        Some(s) => s,
        None => content.clone(),
    };
    Ok(TodoItem { content, status, active_form })
}

/// The tasks that the arguments of a `todo_write` call list.
pub fn parse_todos(args: &Json) -> (r: Result<Vec<TodoItem>, String>)
    ensures
        todos_result(r) == parsed_todos(args@),
{
    match args.get("todos") {
        Some(Json::Arr(v)) => {
            proof {
                json_view_arr(*v);
            }
            let ghost items = json_views(v@);
            let mut out: Vec<TodoItem> = Vec::new();
            assert(todo_views(out@) =~= Seq::<TodoView>::empty());
            let mut i: usize = 0;
            while i < v.len()
                invariant
                    i <= v@.len(),
                    items == json_views(v@),
                    parsed_todos(args@) == parsed_items(items, items.len() as int),
                    parsed_items(items, i as int) == Ok::<Seq<TodoView>, Seq<char>>(
                        todo_views(out@),
                    ),
                decreases v@.len() - i,
            {
                assert(items[i as int] == v@[i as int]@);
                match parse_item(&v[i], i) {
                    Ok(t) => {
                        let ghost before = todo_views(out@);
                        out.push(t);
                        assert(todo_views(out@) =~= before.push(t@));
                    },
                    Err(e) => {
                        proof {
                            lemma_parsed_items_err(items, i + 1, items.len() as int);
                        }
                        return Err(e);
                    },
                }
                i += 1;
            }
            Ok(out)
        },
        _ => Err("missing or non-array argument: todos".to_owned()),
    }
}

/// How many of the tasks have the status.
pub open spec fn count_status(v: Seq<TodoView>, s: TodoStatus) -> nat
    decreases v.len(),
{
    if v.len() == 0 {
        0
    } else {
        count_status(v.drop_last(), s) + if v.last().status == s {
            1nat
        } else {
            0nat
        }
    }
}

fn count_with(v: &Vec<TodoItem>, s: TodoStatus) -> (r: usize)
    ensures
        r == count_status(todo_views(v@), s),
{
    let mut n: usize = 0;
    let mut i: usize = 0;
    let ghost tv = todo_views(v@);
    assert(tv.take(0) =~= Seq::<TodoView>::empty());
    while i < v.len()
        invariant
            i <= v@.len(),
            n <= i,
            tv == todo_views(v@),
            n == count_status(tv.take(i as int), s),
        decreases v@.len() - i,
    {
        assert(tv.take(i + 1).drop_last() =~= tv.take(i as int));
        assert(tv.take(i + 1).last() == v@[i as int]@);
        if v[i].status == s {
            n += 1;
        }
        i += 1;
    }
    assert(tv.take(i as int) =~= tv);
    n
}

/// What `todo_write` answers: a summary of the list, or what is wrong with it.
pub open spec fn todo_answer(args: JsonView) -> (bool, Seq<char>) {
    match parsed_todos(args) {
        Ok(v) => (
            true,
            "todos updated: "@ + dec(v.len()) + " total ("@ + dec(
                count_status(v, TodoStatus::Completed),
            ) + " completed, "@ + dec(count_status(v, TodoStatus::InProgress)) + " in progress)"@,
        ),
        Err(e) => (false, e),
    }
}

/// The tool that keeps the task list.
#[derive(Debug)]
pub struct TodoWrite;

impl TodoWrite {
    /// The `todo_write` tool: checks the list and says what it holds.
    pub fn execute(args: &Json) -> (r: ToolResult)
        ensures
            (r.ok, r.content@) == todo_answer(args@),
    {
        match parse_todos(args) {
            Ok(todos) => {
                let done = count_with(&todos, TodoStatus::Completed);
                let in_prog = count_with(&todos, TodoStatus::InProgress);
                let mut s = "todos updated: ".to_owned();
                push_dec(&mut s, todos.len() as u64);
                s.append(" total (");
                push_dec(&mut s, done as u64);
                s.append(" completed, ");
                push_dec(&mut s, in_prog as u64);
                s.append(" in progress)");
                ToolResult::ok(s)
            },
            Err(e) => ToolResult::err(e),
        }
    }
}

/// Every status has its word, and no other word is one.
pub proof fn law_status_words(s: Seq<char>)
    ensures
        status_of(s) == Some(TodoStatus::Pending) <==> s == "pending"@,
        status_of(s) == Some(TodoStatus::InProgress) <==> s == "in_progress"@,
        status_of(s) == Some(TodoStatus::Completed) <==> s == "completed"@,
        status_of(s) is None <==> s != "pending"@ && s != "in_progress"@ && s != "completed"@,
{
    reveal_strlit("pending");
    reveal_strlit("in_progress");
    reveal_strlit("completed");
    assert("pending"@.len() == 7 && "in_progress"@.len() == 11 && "completed"@.len() == 9);
}

/// A list is taken over where every item has a content and a status that is known: each task with its own
/// content and status, under its active form or, without one, its content, and all in their order. Otherwise
/// nothing is taken over.
pub proof fn law_list_taken_over(items: Seq<JsonView>, n: int)
    requires
        0 <= n <= items.len(),
    ensures
        parsed_items(items, n) is Ok <==> forall|i: int|
            0 <= i < n ==> text_member(#[trigger] items[i], "content"@) is Some && (text_member(
                items[i],
                "status"@,
            ) matches Some(w) && status_of(w) is Some),
        parsed_items(items, n) matches Ok(ts) ==> ts.len() == n && forall|i: int|
            0 <= i < n ==> {
                &&& Some((#[trigger] ts[i]).content) == text_member(items[i], "content"@)
                &&& text_member(items[i], "status"@) matches Some(w) && status_of(w) == Some(ts[i].status)
                &&& ts[i].active_form == match text_member(items[i], "active_form"@) {
                    Some(a) => a,
                    None => ts[i].content,
                }
            },
    decreases n,
{
    if n > 0 {
        law_list_taken_over(items, n - 1);
        let it = items[n - 1];
        assert(parsed_item(it, (n - 1) as nat) is Ok <==> text_member(it, "content"@) is Some && (text_member(
            it,
            "status"@,
        ) matches Some(w) && status_of(w) is Some));
        if parsed_items(items, n - 1) is Ok && parsed_item(it, (n - 1) as nat) is Ok {
            let ts = parsed_items(items, n)->Ok_0;
            let before = parsed_items(items, n - 1)->Ok_0;
            assert forall|i: int| 0 <= i < n implies {
                &&& Some((#[trigger] ts[i]).content) == text_member(items[i], "content"@)
                &&& text_member(items[i], "status"@) matches Some(w) && status_of(w) == Some(ts[i].status)
                &&& ts[i].active_form == match text_member(items[i], "active_form"@) {
                    Some(a) => a,
                    None => ts[i].content,
                }
            } by {
                if i < n - 1 {
                    assert(ts[i] == before[i]);
                }
            }
        }
    }
}

/// What is wrong with a list is said of its first bad item, by its place and its field.
pub proof fn law_list_refused(items: Seq<JsonView>, n: int, args: JsonView)
    requires
        0 < n <= items.len(),
        parsed_items(items, n - 1) is Ok,
    ensures
        text_member(items[n - 1], "content"@) is None ==> parsed_items(items, n) == Err::<
            Seq<TodoView>,
            Seq<char>,
        >("todos["@ + dec((n - 1) as nat) + "]: missing or non-string `"@ + "content"@ + "`"@),
        text_member(items[n - 1], "content"@) is Some && text_member(items[n - 1], "status"@) is None
            ==> parsed_items(items, n) == Err::<Seq<TodoView>, Seq<char>>(
            "todos["@ + dec((n - 1) as nat) + "]: missing or non-string `"@ + "status"@ + "`"@,
        ),
        text_member(items[n - 1], "content"@) is Some ==> (text_member(items[n - 1], "status"@) matches Some(
            w,
        ) ==> (status_of(w) is None ==> parsed_items(items, n) == Err::<Seq<TodoView>, Seq<char>>(
            "todos["@ + dec((n - 1) as nat) + "]: invalid status `"@ + w
                + "` (expected pending/in_progress/completed)"@,
        ))),
        member(args, "todos"@) == Some(JsonView::Arr(items)) ==> parsed_todos(args) == parsed_items(
            items,
            items.len() as int,
        ),
        !(member(args, "todos"@) matches Some(JsonView::Arr(_))) ==> parsed_todos(args) == Err::<
            Seq<TodoView>,
            Seq<char>,
        >("missing or non-array argument: todos"@),
{
}

/// What is said of a list that was taken over: how many tasks there are, how many are done, and how many are
/// begun.
pub proof fn law_list_counted(args: JsonView, v: Seq<TodoView>, t: TodoView, s: TodoStatus)
    ensures
        parsed_todos(args) matches Ok(ts) ==> todo_answer(args) == (
            true,
            "todos updated: "@ + dec(ts.len()) + " total ("@ + dec(count_status(ts, TodoStatus::Completed))
                + " completed, "@ + dec(count_status(ts, TodoStatus::InProgress)) + " in progress)"@,
        ),
        parsed_todos(args) matches Err(e) ==> todo_answer(args) == (false, e),
        count_status(v.push(t), s) == count_status(v, s) + if t.status == s {
            1nat
        } else {
            0nat
        },
        count_status(Seq::empty(), s) == 0,
{
    assert(v.push(t).drop_last() =~= v);
}

} // verus!
