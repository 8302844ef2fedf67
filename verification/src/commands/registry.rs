//! What a command is, and which are built in.

use crate::text::{opt_text, str_eq, texts};
use vstd::prelude::*;

verus! {

/// Where a command comes from. A project's command replaces the user's of the same name.
#[derive(Clone, Copy, Debug, PartialEq, Eq, Structural)]
pub enum Scope {
    Project,
    User,
}

/// A command that the user wrote.
#[derive(Debug)]
pub struct SlashCommand {
    /// The name by which it is called, such as `git:commit`.
    pub name: String,
    pub description: Option<String>,
    pub argument_hint: Option<String>,
    pub allowed_tools: Vec<String>,
    pub model: Option<String>,
    /// The prompt that it stands for.
    pub body: String,
    pub scope: Scope,
}

/// What a command holds.
pub struct CommandView {
    pub name: Seq<char>,
    pub description: Option<Seq<char>>,
    pub argument_hint: Option<Seq<char>>,
    pub allowed_tools: Seq<Seq<char>>,
    pub model: Option<Seq<char>>,
    pub body: Seq<char>,
    pub scope: Scope,
}

impl View for SlashCommand {
    type V = CommandView;

    open spec fn view(&self) -> CommandView {
        CommandView {
            name: self.name@,
            description: opt_text(self.description),
            argument_hint: opt_text(self.argument_hint),
            allowed_tools: texts(self.allowed_tools@),
            model: opt_text(self.model),
            body: self.body@,
            scope: self.scope,
        }
    }
}

/// The views of a list of commands.
pub open spec fn command_views(v: Seq<SlashCommand>) -> Seq<CommandView> {
    v.map_values(|c: SlashCommand| c@)
}

/// A built-in command.
#[derive(Clone, Copy)]
pub struct Builtin {
    pub name: &'static str,
    pub description: &'static str,
}

/// The names of the built-in commands, in the order of the menu.
pub open spec fn builtin_names() -> Seq<Seq<char>> {
    seq![
        "help"@,
        "clear"@,
        "compact"@,
        "context"@,
        "cost"@,
        "model"@,
        "new"@,
        "resume"@,
        "fork"@,
        "rewind"@,
        "skills"@,
        "mcp"@,
        "quit"@,
        "exit"@,
    ]
}

/// What is said of the built-in commands, in the same order.
pub open spec fn builtin_descriptions() -> Seq<Seq<char>> {
    seq![
        "显示可用命令"@,
        "清空当前上下文（磁盘原文留存）"@,
        "压缩对话历史"@,
        "查看上下文占用"@,
        "查看本会话用量与成本"@,
        "切换模型"@,
        "开启新会话"@,
        "恢复历史会话"@,
        "从当前会话派生新会话"@,
        "撤销文件改动（回滚到某检查点之前）"@,
        "列出可用 skills"@,
        "查看 MCP server 状态"@,
        "退出"@,
        "退出"@,
    ]
}

/// The built-in commands, in the order of the menu.
pub fn builtins() -> (r: Vec<Builtin>)
    ensures
        r@.map_values(|b: Builtin| b.name@) == builtin_names(),
        r@.map_values(|b: Builtin| b.description@) == builtin_descriptions(),
{
    let r: Vec<Builtin> = vec![
        Builtin { name: "help", description: "显示可用命令" },
        Builtin { name: "clear", description: "清空当前上下文（磁盘原文留存）" },
        Builtin { name: "compact", description: "压缩对话历史" },
        Builtin { name: "context", description: "查看上下文占用" },
        Builtin { name: "cost", description: "查看本会话用量与成本" },
        Builtin { name: "model", description: "切换模型" },
        Builtin { name: "new", description: "开启新会话" },
        Builtin { name: "resume", description: "恢复历史会话" },
        Builtin { name: "fork", description: "从当前会话派生新会话" },
        Builtin { name: "rewind", description: "撤销文件改动（回滚到某检查点之前）" },
        Builtin { name: "skills", description: "列出可用 skills" },
        Builtin { name: "mcp", description: "查看 MCP server 状态" },
        Builtin { name: "quit", description: "退出" },
        Builtin { name: "exit", description: "退出" },
    ];
    assert(r@.map_values(|b: Builtin| b.name@) =~= builtin_names());
    assert(r@.map_values(|b: Builtin| b.description@) =~= builtin_descriptions());
    r
}

/// Whether the command is built in.
pub fn is_builtin(name: &str) -> (r: bool)
    ensures
        r == builtin_names().contains(name@),
{
    let all = builtins();
    let ghost names = all@.map_values(|b: Builtin| b.name@);
    let mut i: usize = 0;
    while i < all.len()
        invariant
            i <= all@.len(),
            names == all@.map_values(|b: Builtin| b.name@),
            names == builtin_names(),
            forall|j: int| 0 <= j < i ==> names[j] != name@,
        decreases all@.len() - i,
    {
        assert(names[i as int] == all@[i as int].name@);
        if str_eq(all[i].name, name) {
            assert(names.contains(names[i as int]));
            return true;
        }
        i += 1;
    }
    assert(names.len() == all@.len());
    false
}

/// The commands that are built in, each with what it does.
pub proof fn law_builtin_commands()
    ensures
        builtin_names().len() == 14,
        builtin_descriptions().len() == 14,
        builtin_names()[0] == "help"@ && builtin_descriptions()[0] == "显示可用命令"@,
        builtin_names()[1] == "clear"@ && builtin_descriptions()[1] == "清空当前上下文（磁盘原文留存）"@,
        builtin_names()[2] == "compact"@ && builtin_descriptions()[2] == "压缩对话历史"@,
        builtin_names()[3] == "context"@ && builtin_descriptions()[3] == "查看上下文占用"@,
        builtin_names()[4] == "cost"@ && builtin_descriptions()[4] == "查看本会话用量与成本"@,
        builtin_names()[5] == "model"@ && builtin_descriptions()[5] == "切换模型"@,
        builtin_names()[6] == "new"@ && builtin_descriptions()[6] == "开启新会话"@,
        builtin_names()[7] == "resume"@ && builtin_descriptions()[7] == "恢复历史会话"@,
        builtin_names()[8] == "fork"@ && builtin_descriptions()[8] == "从当前会话派生新会话"@,
        builtin_names()[9] == "rewind"@ && builtin_descriptions()[9] == "撤销文件改动（回滚到某检查点之前）"@,
        builtin_names()[10] == "skills"@ && builtin_descriptions()[10] == "列出可用 skills"@,
        builtin_names()[11] == "mcp"@ && builtin_descriptions()[11] == "查看 MCP server 状态"@,
        builtin_names()[12] == "quit"@ && builtin_descriptions()[12] == "退出"@,
        builtin_names()[13] == "exit"@ && builtin_descriptions()[13] == "退出"@,
{
}

} // verus!
