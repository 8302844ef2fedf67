//! The tools on offer, by name.

use super::args::ToolResult;
use super::bash::Bash;
use super::edit_file::EditFile;
use super::glob_tool::Glob;
use super::grep::Grep;
use super::read_file::ReadFile;
use super::save_memory::SaveMemory;
use super::specs::{
    ask_spec, bash_spec, edit_spec, glob_spec, grep_spec, memory_spec, read_spec, skill_spec, task_spec,
    todo_spec, write_spec,
};
use super::todo_write::TodoWrite;
use super::write_file::WriteFile;
use crate::agent::ask_user::AskUserQuestionTool;
use crate::agent::subagent::TaskTool;
use crate::provider::request::{dup_specs, spec_views, ToolSpec, ToolSpecView};
use crate::skills::skill::SkillTool;
use crate::text::str_eq;
use vstd::prelude::*;

verus! {

/// The tools on offer.
#[derive(Debug)]
pub struct ToolRegistry {
    pub tools: Vec<ToolSpec>,
}

impl View for ToolRegistry {
    type V = Seq<ToolSpecView>;

    open spec fn view(&self) -> Seq<ToolSpecView> {
        spec_views(self.tools@)
    }
}

/// The first tool at or after `i` with that name, or the number of tools.
pub open spec fn tool_from(tools: Seq<ToolSpecView>, name: Seq<char>, i: int) -> int
    decreases tools.len() - i,
{
    if i < 0 || i >= tools.len() {
        tools.len() as int
    } else if tools[i].name == name {
        i
    } else {
        tool_from(tools, name, i + 1)
    }
}

/// The tools that are always there.
pub open spec fn builtin_tools() -> Seq<ToolSpecView> {
    seq![
        read_spec(),
        write_spec(),
        edit_spec(),
        bash_spec(),
        glob_spec(),
        grep_spec(),
        todo_spec(),
        memory_spec(),
    ]
}

impl ToolRegistry {
    /// No tools.
    pub fn empty() -> (r: ToolRegistry)
        ensures
            r@ == Seq::<ToolSpecView>::empty(),
    {
        let r = ToolRegistry { tools: Vec::new() };
        assert(r@ =~= Seq::<ToolSpecView>::empty());
        r
    }

    /// The tools that are always there.
    pub fn builtin() -> (r: ToolRegistry)
        ensures
            r@ == builtin_tools(),
    {
        let mut r = ToolRegistry::empty();
        r.push(ReadFile::spec());
        r.push(WriteFile::spec());
        r.push(EditFile::spec());
        r.push(Bash::spec());
        r.push(Glob::spec());
        r.push(Grep::spec());
        r.push(TodoWrite::spec());
        r.push(SaveMemory::spec());
        assert(r@ =~= builtin_tools());
        r
    }

    /// One tool more.
    pub fn push(&mut self, tool: ToolSpec)
        ensures
            final(self)@ == old(self)@.push(tool@),
    {
        self.tools.push(tool);
        assert(self@ =~= old(self)@.push(tool@));
    }

    /// The tools.
    pub fn tools(&self) -> (r: &Vec<ToolSpec>)
        ensures
            spec_views(r@) == self@,
    {
        &self.tools
    }

    /// What the model is told of the tools.
    pub fn specs(&self) -> (r: Vec<ToolSpec>)
        ensures
            spec_views(r@) == self@,
    {
        dup_specs(&self.tools)
    }

    /// Which tool a call is for: the first with that name, or the answer to a call of a tool that is not
    /// there.
    pub fn dispatch(&self, name: &str) -> (r: Result<usize, ToolResult>)
        ensures
            match r {
                Ok(i) => i < self@.len() && i == tool_from(self@, name@, 0),
                Err(e) => tool_from(self@, name@, 0) == self@.len() && !e.ok && e.content@
                    == "unknown tool: "@ + name@,
            },
    {
        let mut i: usize = 0;
        assert(self@.len() == self.tools@.len());
        while i < self.tools.len()
            invariant
                i <= self.tools@.len(),
                self@.len() == self.tools@.len(),
                tool_from(self@, name@, 0) == tool_from(self@, name@, i as int),
            decreases self.tools@.len() - i,
        {
            assert(self@[i as int] == self.tools@[i as int]@);
            if str_eq(self.tools[i].name.as_str(), name) {
                return Ok(i);
            }
            i += 1;
        }
        Err(ToolResult::err("unknown tool: ".to_owned().concat(name)))
    }
}

/// The tools of a run: the builtin ones, `skill` where skills are enabled, `ask_user_question` where
/// somebody can answer, and those of the MCP servers.
pub open spec fn shared_tools(skills: bool, ask: bool, mcp: Seq<ToolSpecView>) -> Seq<ToolSpecView> {
    let a = if skills {
        builtin_tools().push(skill_spec())
    } else {
        builtin_tools()
    };
    let b = if ask {
        a.push(ask_spec())
    } else {
        a
    };
    b + mcp
}

/// The tools of a run, and those of the agents that it starts: all of them but `task`.
pub fn build_tools(skills_enabled: bool, ask: bool, mcp_tools: &Vec<ToolSpec>) -> (r: (
    ToolRegistry,
    ToolRegistry,
))
    ensures
        r.1@ == shared_tools(skills_enabled, ask, spec_views(mcp_tools@)),
        r.0@ == r.1@.push(task_spec()),
{
    let mut tools = ToolRegistry::builtin();
    if skills_enabled {
        tools.push(SkillTool::spec());
    }
    if ask {
        tools.push(AskUserQuestionTool::spec());
    }
    let ghost own = tools@;
    let mut mcp = dup_specs(mcp_tools);
    let ghost mv = spec_views(mcp@);
    tools.tools.append(&mut mcp);
    assert(tools@ =~= own + mv);
    let child = ToolRegistry { tools: tools.specs() };
    tools.push(TaskTool::spec());
    (tools, child)
}

/// No agent that a run starts can start agents itself: `task` is not among its tools, unless an MCP
/// server offers a tool of that name.
pub proof fn law_child_agents_start_none(skills: bool, ask: bool, mcp: Seq<ToolSpecView>)
    requires
        forall|i: int| 0 <= i < mcp.len() ==> (#[trigger] mcp[i]).name != "task"@,
    ensures
        tool_from(shared_tools(skills, ask, mcp), "task"@, 0) == shared_tools(skills, ask, mcp).len(),
        tool_from(shared_tools(skills, ask, mcp).push(task_spec()), "task"@, 0) == shared_tools(
            skills,
            ask,
            mcp,
        ).len(),
{
    let t = shared_tools(skills, ask, mcp);
    reveal_strlit("task");
    reveal_strlit("read_file");
    reveal_strlit("write_file");
    reveal_strlit("edit_file");
    reveal_strlit("bash");
    reveal_strlit("glob");
    reveal_strlit("grep");
    reveal_strlit("todo_write");
    reveal_strlit("save_memory");
    reveal_strlit("skill");
    reveal_strlit("ask_user_question");
    assert("bash"@[0] != "task"@[0]);
    assert("glob"@[0] != "task"@[0]);
    assert("grep"@[0] != "task"@[0]);
    let b = builtin_tools();
    assert(b.len() == 8);
    assert(b[0].name.len() == 9 && b[1].name.len() == 10 && b[2].name.len() == 9);
    assert(b[3].name == "bash"@ && b[4].name == "glob"@ && b[5].name == "grep"@);
    assert(b[6].name.len() == 10 && b[7].name.len() == 11);
    assert("skill"@.len() == 5 && "ask_user_question"@.len() == 17);
    assert forall|i: int| 0 <= i < t.len() implies (#[trigger] t[i]).name != "task"@ by {
        let own = t.len() - mcp.len();
        if i >= own {
            assert(t[i] == mcp[i - own]);
        } else if i < 8 {
            assert(t[i] == b[i]);
        } else {
            assert(t[i] == skill_spec() || t[i] == ask_spec());
        }
    }
    lemma_no_tool(t, "task"@, 0);
    lemma_tool_last(t, task_spec(), 0);
}

proof fn lemma_no_tool(t: Seq<ToolSpecView>, name: Seq<char>, i: int)
    requires
        forall|j: int| 0 <= j < t.len() ==> (#[trigger] t[j]).name != name,
    ensures
        tool_from(t, name, i) == t.len(),
    decreases t.len() - i,
{
    if 0 <= i < t.len() {
        lemma_no_tool(t, name, i + 1);
    }
}

proof fn lemma_tool_last(t: Seq<ToolSpecView>, s: ToolSpecView, i: int)
    requires
        0 <= i <= t.len(),
        forall|j: int| 0 <= j < t.len() ==> (#[trigger] t[j]).name != s.name,
    ensures
        tool_from(t.push(s), s.name, i) == t.len(),
    decreases t.len() - i,
{
    if i < t.len() {
        assert(t.push(s)[i] == t[i]);
        lemma_tool_last(t, s, i + 1);
    }
}

/// A tool is found where its name is, the first of that name, and not found where there is none.
pub proof fn law_tool_found(tools: Seq<ToolSpecView>, name: Seq<char>, i: int)
    requires
        0 <= i <= tools.len(),
    ensures
        i <= tool_from(tools, name, i) <= tools.len(),
        tool_from(tools, name, i) < tools.len() ==> tools[tool_from(tools, name, i)].name == name,
        forall|k: int| i <= k < tool_from(tools, name, i) ==> (#[trigger] tools[k]).name != name,
    decreases tools.len() - i,
{
    if i < tools.len() && tools[i].name != name {
        law_tool_found(tools, name, i + 1);
    }
}

/// The tools are the built-in ones, then the one for skills and the one for questions where they are wanted,
/// then those of other servers, all of them.
pub proof fn law_tools_offered(skills: bool, ask: bool, mcp: Seq<ToolSpecView>)
    ensures
        ({
            let s = shared_tools(skills, ask, mcp);
            let b = builtin_tools();
            let k: int = if skills {
                1
            } else {
                0
            };
            let q: int = if ask {
                1
            } else {
                0
            };
            &&& s.len() == 8 + k + q + mcp.len()
            &&& s.take(8) == b
            &&& skills ==> s[8] == skill_spec()
            &&& ask ==> s[8 + k] == ask_spec()
            &&& s.skip(8 + k + q) == mcp
        }),
        builtin_tools().len() == 8,
        builtin_tools()[0] == read_spec() && builtin_tools()[1] == write_spec() && builtin_tools()[2]
            == edit_spec() && builtin_tools()[3] == bash_spec() && builtin_tools()[4] == glob_spec()
            && builtin_tools()[5] == grep_spec() && builtin_tools()[6] == todo_spec() && builtin_tools()[7]
            == memory_spec(),
{
    let s = shared_tools(skills, ask, mcp);
    let k: int = if skills {
        1
    } else {
        0
    };
    let q: int = if ask {
        1
    } else {
        0
    };
    assert(s.take(8) =~= builtin_tools());
    assert(s.skip(8 + k + q) =~= mcp);
}

} // verus!
