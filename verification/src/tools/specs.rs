//! What the model is told of each tool.

use super::bash::Bash;
use super::edit_file::EditFile;
use super::glob_tool::Glob;
use super::grep::Grep;
use super::read_file::ReadFile;
use super::save_memory::SaveMemory;
use super::todo_write::TodoWrite;
use super::write_file::WriteFile;
use crate::agent::ask_user::AskUserQuestionTool;
use crate::agent::subagent::TaskTool;
use crate::json::{
    entry_views, jobj, jobj1, jobj2, jobj3, json_view_arr, json_views, jstr, with_entry, Json, JsonView,
};
use crate::provider::request::{ToolSpec, ToolSpecView};
use crate::skills::skill::SkillTool;
use crate::text::{texts, texts_push};
use vstd::prelude::*;

verus! {

/// A list of strings.
pub open spec fn strs(v: Seq<Seq<char>>) -> JsonView {
    JsonView::Arr(v.map_values(|s: Seq<char>| JsonView::Str(s)))
}

/// The schema of a value of type `kind`.
pub open spec fn field(kind: Seq<char>, description: Seq<char>) -> JsonView {
    JsonView::Obj(
        seq![("type"@, JsonView::Str(kind)), ("description"@, JsonView::Str(description))],
    )
}

/// The schema of a string that is one of some.
pub open spec fn choice(of: Seq<Seq<char>>, description: Seq<char>) -> JsonView {
    JsonView::Obj(
        seq![
            ("type"@, JsonView::Str("string"@)),
            ("enum"@, strs(of)),
            ("description"@, JsonView::Str(description)),
        ],
    )
}

/// The schema of a list of strings.
pub open spec fn string_array(description: Seq<char>) -> JsonView {
    JsonView::Obj(
        seq![
            ("type"@, JsonView::Str("array"@)),
            ("items"@, JsonView::Obj(seq![("type"@, JsonView::Str("string"@))])),
            ("description"@, JsonView::Str(description)),
        ],
    )
}

/// The schema of an object.
pub open spec fn object_of(
    properties: Seq<(Seq<char>, JsonView)>,
    required: Seq<Seq<char>>,
) -> JsonView {
    JsonView::Obj(
        seq![
            ("type"@, JsonView::Str("object"@)),
            ("properties"@, JsonView::Obj(properties)),
            ("required"@, strs(required)),
        ],
    )
}

fn jstrs(v: &Vec<String>) -> (r: Json)
    ensures
        r@ == strs(texts(v@)),
{
    let mut out: Vec<Json> = Vec::new();
    let ghost want = strs(texts(v@))->Arr_0;
    let mut i: usize = 0;
    while i < v.len()
        invariant
            i <= v@.len(),
            want == strs(texts(v@))->Arr_0,
            json_views(out@) == want.take(i as int),
        decreases v@.len() - i,
    {
        let ghost before = json_views(out@);
        let j = jstr(v[i].as_str());
        let ghost jv = j@;
        out.push(j);
        assert(json_views(out@) =~= before.push(jv));
        assert(want.take(i + 1) =~= want.take(i as int).push(jv));
        i += 1;
    }
    assert(want.take(i as int) =~= want);
    proof {
        json_view_arr(out);
    }
    Json::Arr(out)
}

fn jfield(kind: &str, description: &str) -> (r: Json)
    ensures
        r@ == field(kind@, description@),
{
    jobj2("type", jstr(kind), "description", jstr(description))
}

fn jchoice(of: &Vec<String>, description: &str) -> (r: Json)
    ensures
        r@ == choice(texts(of@), description@),
{
    jobj3("type", jstr("string"), "enum", jstrs(of), "description", jstr(description))
}

fn jstring_array(description: &str) -> (r: Json)
    ensures
        r@ == string_array(description@),
{
    jobj3(
        "type",
        jstr("array"),
        "items",
        jobj1("type", jstr("string")),
        "description",
        jstr(description),
    )
}

fn jobject(properties: Vec<(String, Json)>, required: &Vec<String>) -> (r: Json)
    ensures
        r@ == object_of(entry_views(properties@), texts(required@)),
{
    jobj3("type", jstr("object"), "properties", jobj(properties), "required", jstrs(required))
}

fn names1(a: &str) -> (r: Vec<String>)
    ensures
        texts(r@) == seq![a@],
{
    broadcast use texts_push;

    let mut v: Vec<String> = Vec::new();
    v.push(a.to_owned());
    assert(texts(v@) =~= seq![a@]);
    v
}

fn names2(a: &str, b: &str) -> (r: Vec<String>)
    ensures
        texts(r@) == seq![a@, b@],
{
    broadcast use texts_push;

    let mut v = names1(a);
    v.push(b.to_owned());
    assert(texts(v@) =~= seq![a@, b@]);
    v
}

fn names3(a: &str, b: &str, c: &str) -> (r: Vec<String>)
    ensures
        texts(r@) == seq![a@, b@, c@],
{
    broadcast use texts_push;

    let mut v = names2(a, b);
    v.push(c.to_owned());
    assert(texts(v@) =~= seq![a@, b@, c@]);
    v
}

/// The schema of one task.
pub open spec fn todo_schema() -> JsonView {
    object_of(
        seq![
            ("content"@, field("string"@, "待办内容（祈使形）"@)),
            ("status"@, choice(seq!["pending"@, "in_progress"@, "completed"@], "状态"@)),
            ("active_form"@, field("string"@, "进行中展示文案（present-continuous）"@)),
        ],
        seq!["content"@, "status"@],
    )
}

/// The schema of the task list.
pub open spec fn todos_schema() -> JsonView {
    JsonView::Obj(
        seq![
            ("type"@, JsonView::Str("array"@)),
            ("description"@, JsonView::Str("完整待办列表（覆盖旧表）"@)),
            ("items"@, todo_schema()),
        ],
    )
}

fn jtodos() -> (r: Json)
    ensures
        r@ == todos_schema(),
{
    let p: Vec<(String, Json)> = Vec::new();
    let p = with_entry(p, "content", jfield("string", "待办内容（祈使形）"));
    let p = with_entry(
        p,
        "status",
        jchoice(&names3("pending", "in_progress", "completed"), "状态"),
    );
    let p = with_entry(
        p,
        "active_form",
        jfield("string", "进行中展示文案（present-continuous）"),
    );
    assert(entry_views(p@) =~= seq![
        ("content"@, field("string"@, "待办内容（祈使形）"@)),
        ("status"@, choice(seq!["pending"@, "in_progress"@, "completed"@], "状态"@)),
        ("active_form"@, field("string"@, "进行中展示文案（present-continuous）"@)),
    ]);
    jobj3(
        "type",
        jstr("array"),
        "description",
        jstr("完整待办列表（覆盖旧表）"),
        "items",
        jobject(p, &names2("content", "status")),
    )
}

/// What `bash` is for.
pub const BASH_ABOUT: &'static str = "执行 shell 命令（sh -c）。返回 stdout/stderr 与退出码。带超时、大输出截断、进程组超时清理、危险命令软警告。";

/// What the model is told of `bash`.
pub open spec fn bash_spec() -> ToolSpecView {
    ToolSpecView {
        name: "bash"@,
        description: BASH_ABOUT@,
        parameters: object_of(
            seq![
                    ("command"@, field("string"@, "要执行的命令"@)),
                    ("timeout_secs"@, field("integer"@, "超时秒数（缺省 120）"@)),
            ],
            seq!["command"@],
        ),
    }
}

impl Bash {
    /// What the model is told of the tool.
    pub fn spec() -> (r: ToolSpec)
        ensures
            r@ == bash_spec(),
    {
        let p: Vec<(String, Json)> = Vec::new();
        let p = with_entry(p, "command", jfield("string", "要执行的命令"));
        let p = with_entry(p, "timeout_secs", jfield("integer", "超时秒数（缺省 120）"));
        assert(entry_views(p@) =~= seq![
                    ("command"@, field("string"@, "要执行的命令"@)),
                    ("timeout_secs"@, field("integer"@, "超时秒数（缺省 120）"@)),
        ]);
        ToolSpec {
            name: "bash".to_owned(),
            description: BASH_ABOUT.to_owned(),
            parameters: jobject(p, &names1("command")),
        }
    }
}

/// What `edit_file` is for.
pub const EDIT_ABOUT: &'static str = "精确字符串替换。默认要求 old_string 在文件中唯一出现；replace_all=true 则替换所有出现。";

/// What the model is told of `edit_file`.
pub open spec fn edit_spec() -> ToolSpecView {
    ToolSpecView {
        name: "edit_file"@,
        description: EDIT_ABOUT@,
        parameters: object_of(
            seq![
                    ("path"@, field("string"@, "文件路径"@)),
                    ("old_string"@, field("string"@, "要替换的原文（需唯一，除非 replace_all）"@)),
                    ("new_string"@, field("string"@, "替换后的新文本"@)),
                    ("replace_all"@, field("boolean"@, "替换所有出现（缺省 false）"@)),
            ],
            seq!["path"@, "old_string"@, "new_string"@],
        ),
    }
}

impl EditFile {
    /// What the model is told of the tool.
    pub fn spec() -> (r: ToolSpec)
        ensures
            r@ == edit_spec(),
    {
        let p: Vec<(String, Json)> = Vec::new();
        let p = with_entry(p, "path", jfield("string", "文件路径"));
        let p = with_entry(p, "old_string", jfield("string", "要替换的原文（需唯一，除非 replace_all）"));
        let p = with_entry(p, "new_string", jfield("string", "替换后的新文本"));
        let p = with_entry(p, "replace_all", jfield("boolean", "替换所有出现（缺省 false）"));
        assert(entry_views(p@) =~= seq![
                    ("path"@, field("string"@, "文件路径"@)),
                    ("old_string"@, field("string"@, "要替换的原文（需唯一，除非 replace_all）"@)),
                    ("new_string"@, field("string"@, "替换后的新文本"@)),
                    ("replace_all"@, field("boolean"@, "替换所有出现（缺省 false）"@)),
        ]);
        ToolSpec {
            name: "edit_file".to_owned(),
            description: EDIT_ABOUT.to_owned(),
            parameters: jobject(p, &names3("path", "old_string", "new_string")),
        }
    }
}

/// What `glob` is for.
pub const GLOB_ABOUT: &'static str = "按 glob 模式匹配文件路径（如 src/**/*.rs）。默认排除常见构建/缓存目录（.git/node_modules/target/dist/build/.venv/__pycache__/.next/.cache）。结果有上限。";

/// What the model is told of `glob`.
pub open spec fn glob_spec() -> ToolSpecView {
    ToolSpecView {
        name: "glob"@,
        description: GLOB_ABOUT@,
        parameters: object_of(
            seq![
                    ("pattern"@, field("string"@, "glob 模式，如 **/*.rs"@)),
                    ("path"@, field("string"@, "搜索根目录（缺省当前目录）"@)),
                    ("include_noise"@, field("boolean"@, "包含构建/缓存目录（缺省 false）"@)),
            ],
            seq!["pattern"@],
        ),
    }
}

impl Glob {
    /// What the model is told of the tool.
    pub fn spec() -> (r: ToolSpec)
        ensures
            r@ == glob_spec(),
    {
        let p: Vec<(String, Json)> = Vec::new();
        let p = with_entry(p, "pattern", jfield("string", "glob 模式，如 **/*.rs"));
        let p = with_entry(p, "path", jfield("string", "搜索根目录（缺省当前目录）"));
        let p = with_entry(p, "include_noise", jfield("boolean", "包含构建/缓存目录（缺省 false）"));
        assert(entry_views(p@) =~= seq![
                    ("pattern"@, field("string"@, "glob 模式，如 **/*.rs"@)),
                    ("path"@, field("string"@, "搜索根目录（缺省当前目录）"@)),
                    ("include_noise"@, field("boolean"@, "包含构建/缓存目录（缺省 false）"@)),
        ]);
        ToolSpec {
            name: "glob".to_owned(),
            description: GLOB_ABOUT.to_owned(),
            parameters: jobject(p, &names1("pattern")),
        }
    }
}

/// What `grep` is for.
pub const GREP_ABOUT: &'static str = "用 ripgrep 搜索文件内容。支持正则、按 glob 过滤、限定目录。需系统已安装 rg。";

/// What the model is told of `grep`.
pub open spec fn grep_spec() -> ToolSpecView {
    ToolSpecView {
        name: "grep"@,
        description: GREP_ABOUT@,
        parameters: object_of(
            seq![
                    ("pattern"@, field("string"@, "正则表达式"@)),
                    ("path"@, field("string"@, "搜索目录或文件（缺省当前目录）"@)),
                    ("glob"@, field("string"@, "文件过滤 glob，如 *.rs"@)),
            ],
            seq!["pattern"@],
        ),
    }
}

impl Grep {
    /// What the model is told of the tool.
    pub fn spec() -> (r: ToolSpec)
        ensures
            r@ == grep_spec(),
    {
        let p: Vec<(String, Json)> = Vec::new();
        let p = with_entry(p, "pattern", jfield("string", "正则表达式"));
        let p = with_entry(p, "path", jfield("string", "搜索目录或文件（缺省当前目录）"));
        let p = with_entry(p, "glob", jfield("string", "文件过滤 glob，如 *.rs"));
        assert(entry_views(p@) =~= seq![
                    ("pattern"@, field("string"@, "正则表达式"@)),
                    ("path"@, field("string"@, "搜索目录或文件（缺省当前目录）"@)),
                    ("glob"@, field("string"@, "文件过滤 glob，如 *.rs"@)),
        ]);
        ToolSpec {
            name: "grep".to_owned(),
            description: GREP_ABOUT.to_owned(),
            parameters: jobject(p, &names1("pattern")),
        }
    }
}

/// What `read_file` is for.
pub const READ_ABOUT: &'static str = "读取文件内容。文本文件以带行号（cat -n 风格）输出，支持 offset/limit 按行范围读取；图片文件（png/jpg/gif/webp/bmp）被存入多模态资源并返回 `[img:<hash>.<ext>]` 引用 token，可直接嵌入回答或后续消息中——模型在后续轮会看到真实图像内容。";

/// What the model is told of `read_file`.
pub open spec fn read_spec() -> ToolSpecView {
    ToolSpecView {
        name: "read_file"@,
        description: READ_ABOUT@,
        parameters: object_of(
            seq![
                    ("path"@, field("string"@, "文件路径（相对或绝对）"@)),
                    ("offset"@, field("integer"@, "起始行号（1-based，缺省 1，仅文本文件）"@)),
                    ("limit"@, field("integer"@, "读取行数（缺省 2000，仅文本文件）"@)),
            ],
            seq!["path"@],
        ),
    }
}

impl ReadFile {
    /// What the model is told of the tool.
    pub fn spec() -> (r: ToolSpec)
        ensures
            r@ == read_spec(),
    {
        let p: Vec<(String, Json)> = Vec::new();
        let p = with_entry(p, "path", jfield("string", "文件路径（相对或绝对）"));
        let p = with_entry(p, "offset", jfield("integer", "起始行号（1-based，缺省 1，仅文本文件）"));
        let p = with_entry(p, "limit", jfield("integer", "读取行数（缺省 2000，仅文本文件）"));
        assert(entry_views(p@) =~= seq![
                    ("path"@, field("string"@, "文件路径（相对或绝对）"@)),
                    ("offset"@, field("integer"@, "起始行号（1-based，缺省 1，仅文本文件）"@)),
                    ("limit"@, field("integer"@, "读取行数（缺省 2000，仅文本文件）"@)),
        ]);
        ToolSpec {
            name: "read_file".to_owned(),
            description: READ_ABOUT.to_owned(),
            parameters: jobject(p, &names1("path")),
        }
    }
}

/// What `write_file` is for.
pub const WRITE_ABOUT: &'static str = "新建文件或整体覆盖写入。父目录不存在会自动创建。";

/// What the model is told of `write_file`.
pub open spec fn write_spec() -> ToolSpecView {
    ToolSpecView {
        name: "write_file"@,
        description: WRITE_ABOUT@,
        parameters: object_of(
            seq![
                    ("path"@, field("string"@, "文件路径"@)),
                    ("content"@, field("string"@, "完整文件内容（覆盖写）"@)),
            ],
            seq!["path"@, "content"@],
        ),
    }
}

impl WriteFile {
    /// What the model is told of the tool.
    pub fn spec() -> (r: ToolSpec)
        ensures
            r@ == write_spec(),
    {
        let p: Vec<(String, Json)> = Vec::new();
        let p = with_entry(p, "path", jfield("string", "文件路径"));
        let p = with_entry(p, "content", jfield("string", "完整文件内容（覆盖写）"));
        assert(entry_views(p@) =~= seq![
                    ("path"@, field("string"@, "文件路径"@)),
                    ("content"@, field("string"@, "完整文件内容（覆盖写）"@)),
        ]);
        ToolSpec {
            name: "write_file".to_owned(),
            description: WRITE_ABOUT.to_owned(),
            parameters: jobject(p, &names2("path", "content")),
        }
    }
}

/// What `save_memory` is for.
pub const MEMORY_ABOUT: &'static str = "把跨会话持久信息写入记忆文件。三种 kind：\n- facts (默认)：项目/环境事实（测试命令、约定）；scope=project 写 CARTER.md，global 写 ~/.carter/facts.md\n- profile：用户画像、偏好；仅 global\n- skill：可复用工作流；写 ~/.carter/skills/<slug>.md（slug 必填）\n\n写入原子（tmp+rename），自动备份上一版到 ~/.carter/memory_revisions/。只在确属持久、可复用的信息时使用；一次只记一条精炼的内容。";

/// What the model is told of `save_memory`.
pub open spec fn memory_spec() -> ToolSpecView {
    ToolSpecView {
        name: "save_memory"@,
        description: MEMORY_ABOUT@,
        parameters: object_of(
            seq![
                    ("content"@, field("string"@, "要记住的内容（facts/profile 一句话；skill 多段说明）"@)),
                    ("fact"@, field("string"@, "（兼容旧版别名）等同于 content"@)),
                    ("kind"@, choice(seq!["facts"@, "profile"@, "skill"@], "facts (默认) / profile / skill"@)),
                    ("scope"@, choice(seq!["project"@, "global"@], "仅 kind=facts 时生效：project=当前项目 CARTER.md（默认）；global=~/.carter/facts.md"@)),
                    ("slug"@, field("string"@, "仅 kind=skill 时生效：唯一 id，文件名 ~/.carter/skills/<slug>.md（只能 [A-Za-z0-9_-]）"@)),
            ],
            seq!["content"@],
        ),
    }
}

impl SaveMemory {
    /// What the model is told of the tool.
    pub fn spec() -> (r: ToolSpec)
        ensures
            r@ == memory_spec(),
    {
        let p: Vec<(String, Json)> = Vec::new();
        let p = with_entry(p, "content", jfield("string", "要记住的内容（facts/profile 一句话；skill 多段说明）"));
        let p = with_entry(p, "fact", jfield("string", "（兼容旧版别名）等同于 content"));
        let p = with_entry(p, "kind", jchoice(&names3("facts", "profile", "skill"), "facts (默认) / profile / skill"));
        let p = with_entry(p, "scope", jchoice(&names2("project", "global"), "仅 kind=facts 时生效：project=当前项目 CARTER.md（默认）；global=~/.carter/facts.md"));
        let p = with_entry(p, "slug", jfield("string", "仅 kind=skill 时生效：唯一 id，文件名 ~/.carter/skills/<slug>.md（只能 [A-Za-z0-9_-]）"));
        assert(entry_views(p@) =~= seq![
                    ("content"@, field("string"@, "要记住的内容（facts/profile 一句话；skill 多段说明）"@)),
                    ("fact"@, field("string"@, "（兼容旧版别名）等同于 content"@)),
                    ("kind"@, choice(seq!["facts"@, "profile"@, "skill"@], "facts (默认) / profile / skill"@)),
                    ("scope"@, choice(seq!["project"@, "global"@], "仅 kind=facts 时生效：project=当前项目 CARTER.md（默认）；global=~/.carter/facts.md"@)),
                    ("slug"@, field("string"@, "仅 kind=skill 时生效：唯一 id，文件名 ~/.carter/skills/<slug>.md（只能 [A-Za-z0-9_-]）"@)),
        ]);
        ToolSpec {
            name: "save_memory".to_owned(),
            description: MEMORY_ABOUT.to_owned(),
            parameters: jobject(p, &names1("content")),
        }
    }
}

/// What `todo_write` is for.
pub const TODO_ABOUT: &'static str = "维护任务待办列表（整表覆盖）。用于多步任务规划与进度追踪。每次传完整列表，status 取 pending/in_progress/completed；建议同一时刻仅一项 in_progress。";

/// What the model is told of `todo_write`.
pub open spec fn todo_spec() -> ToolSpecView {
    ToolSpecView {
        name: "todo_write"@,
        description: TODO_ABOUT@,
        parameters: object_of(
            seq![
                    ("todos"@, todos_schema()),
            ],
            seq!["todos"@],
        ),
    }
}

impl TodoWrite {
    /// What the model is told of the tool.
    pub fn spec() -> (r: ToolSpec)
        ensures
            r@ == todo_spec(),
    {
        let p: Vec<(String, Json)> = Vec::new();
        let p = with_entry(p, "todos", jtodos());
        assert(entry_views(p@) =~= seq![
                    ("todos"@, todos_schema()),
        ]);
        ToolSpec {
            name: "todo_write".to_owned(),
            description: TODO_ABOUT.to_owned(),
            parameters: jobject(p, &names1("todos")),
        }
    }
}

/// What `skill` is for.
pub const SKILL_ABOUT: &'static str = "按名加载一个 Skill 的完整说明（SKILL.md 正文）。返回的正文即该能力的执行指引，加载后据此完成任务。";

/// What the model is told of `skill`.
pub open spec fn skill_spec() -> ToolSpecView {
    ToolSpecView {
        name: "skill"@,
        description: SKILL_ABOUT@,
        parameters: object_of(
            seq![
                    ("name"@, field("string"@, "Skill 名（见系统提示里的 Skills 目录）"@)),
            ],
            seq!["name"@],
        ),
    }
}

impl SkillTool {
    /// What the model is told of the tool.
    pub fn spec() -> (r: ToolSpec)
        ensures
            r@ == skill_spec(),
    {
        let p: Vec<(String, Json)> = Vec::new();
        let p = with_entry(p, "name", jfield("string", "Skill 名（见系统提示里的 Skills 目录）"));
        assert(entry_views(p@) =~= seq![
                    ("name"@, field("string"@, "Skill 名（见系统提示里的 Skills 目录）"@)),
        ]);
        ToolSpec {
            name: "skill".to_owned(),
            description: SKILL_ABOUT.to_owned(),
            parameters: jobject(p, &names1("name")),
        }
    }
}

/// What `ask_user_question` is for.
pub const ASK_ABOUT: &'static str = "向用户弹出一个多选/自由文本问题，等用户选择或输入后把答案返回。适合：需求歧义、需要用户决策、敏感操作前确认。\n用户可按数字键直接选 options，或键入自由答案后回车，或 Esc 跳过 = 选第一项。";

/// What the model is told of `ask_user_question`.
pub open spec fn ask_spec() -> ToolSpecView {
    ToolSpecView {
        name: "ask_user_question"@,
        description: ASK_ABOUT@,
        parameters: object_of(
            seq![
                    ("question"@, field("string"@, "要问的问题（自然语言、明确具体）"@)),
                    ("options"@, string_array("候选答案数组（缺省也可让用户自由输入）"@)),
            ],
            seq!["question"@],
        ),
    }
}

impl AskUserQuestionTool {
    /// What the model is told of the tool.
    pub fn spec() -> (r: ToolSpec)
        ensures
            r@ == ask_spec(),
    {
        let p: Vec<(String, Json)> = Vec::new();
        let p = with_entry(p, "question", jfield("string", "要问的问题（自然语言、明确具体）"));
        let p = with_entry(p, "options", jstring_array("候选答案数组（缺省也可让用户自由输入）"));
        assert(entry_views(p@) =~= seq![
                    ("question"@, field("string"@, "要问的问题（自然语言、明确具体）"@)),
                    ("options"@, string_array("候选答案数组（缺省也可让用户自由输入）"@)),
        ]);
        ToolSpec {
            name: "ask_user_question".to_owned(),
            description: ASK_ABOUT.to_owned(),
            parameters: jobject(p, &names1("question")),
        }
    }
}

/// What `task` is for.
pub const TASK_ABOUT: &'static str = "派生隔离子 agent 执行定义明确的子任务。子 agent 有独立上下文、独立工具池，完成后返回最终结论。\n\n参数：\n- prompt：单个任务字符串\n- prompts：任务字符串数组（并发派生 N 个子 agent，返回各自结果汇总）\n- tools：子 agent 可用工具白名单（如 [\"read_file\",\"grep\"]）；缺省=全开\n- fork_messages：复制父上下文最近 N 条消息给子 agent\n\n适合：大范围搜索/调研、独立可并行的探索性工作、避免污染主上下文的长链路任务。";

/// What the model is told of `task`.
pub open spec fn task_spec() -> ToolSpecView {
    ToolSpecView {
        name: "task"@,
        description: TASK_ABOUT@,
        parameters: object_of(
            seq![
                    ("description"@, field("string"@, "子任务的简短描述（3-5 词）"@)),
                    ("prompt"@, field("string"@, "单个子任务的完整自包含指令（与 prompts 二选一）"@)),
                    ("prompts"@, string_array("多个子任务的并发数组形式（与 prompt 二选一）。每个子 agent 独立运行，结果按数组顺序合并返回。"@)),
                    ("tools"@, string_array("子 agent 可用工具白名单。缺省继承全部内置 + MCP 工具（task 自身不会被传入，防递归）。"@)),
                    ("fork_messages"@, field("integer"@, "复制父上下文最近 N 条消息给子 agent 作为开局上下文（缺省 0=纯净起步）。"@)),
            ],
            seq!["description"@],
        ),
    }
}

impl TaskTool {
    /// What the model is told of the tool.
    pub fn spec() -> (r: ToolSpec)
        ensures
            r@ == task_spec(),
    {
        let p: Vec<(String, Json)> = Vec::new();
        let p = with_entry(p, "description", jfield("string", "子任务的简短描述（3-5 词）"));
        let p = with_entry(p, "prompt", jfield("string", "单个子任务的完整自包含指令（与 prompts 二选一）"));
        let p = with_entry(p, "prompts", jstring_array("多个子任务的并发数组形式（与 prompt 二选一）。每个子 agent 独立运行，结果按数组顺序合并返回。"));
        let p = with_entry(p, "tools", jstring_array("子 agent 可用工具白名单。缺省继承全部内置 + MCP 工具（task 自身不会被传入，防递归）。"));
        let p = with_entry(p, "fork_messages", jfield("integer", "复制父上下文最近 N 条消息给子 agent 作为开局上下文（缺省 0=纯净起步）。"));
        assert(entry_views(p@) =~= seq![
                    ("description"@, field("string"@, "子任务的简短描述（3-5 词）"@)),
                    ("prompt"@, field("string"@, "单个子任务的完整自包含指令（与 prompts 二选一）"@)),
                    ("prompts"@, string_array("多个子任务的并发数组形式（与 prompt 二选一）。每个子 agent 独立运行，结果按数组顺序合并返回。"@)),
                    ("tools"@, string_array("子 agent 可用工具白名单。缺省继承全部内置 + MCP 工具（task 自身不会被传入，防递归）。"@)),
                    ("fork_messages"@, field("integer"@, "复制父上下文最近 N 条消息给子 agent 作为开局上下文（缺省 0=纯净起步）。"@)),
        ]);
        ToolSpec {
            name: "task".to_owned(),
            description: TASK_ABOUT.to_owned(),
            parameters: jobject(p, &names1("description")),
        }
    }
}

/// How the arguments of a tool are described: an object with the properties, and the names of those that must be
/// there; each property with its kind and what it is for.
pub proof fn law_schema_written(
    properties: Seq<(Seq<char>, JsonView)>,
    required: Seq<Seq<char>>,
    kind: Seq<char>,
    about: Seq<char>,
    i: int,
)
    ensures
        object_of(properties, required) matches JsonView::Obj(e) && e.len() == 3 && e[0] == (
            "type"@,
            JsonView::Str("object"@),
        ) && e[1] == ("properties"@, JsonView::Obj(properties)) && e[2].0 == "required"@ && e[2].1 is Arr
            && e[2].1->Arr_0.len() == required.len() && (0 <= i < required.len() ==> e[2].1->Arr_0[i]
            == JsonView::Str(required[i])),
        field(kind, about) == JsonView::Obj(
            seq![("type"@, JsonView::Str(kind)), ("description"@, JsonView::Str(about))],
        ),
        string_array(about) == JsonView::Obj(
            seq![
                ("type"@, JsonView::Str("array"@)),
                ("items"@, JsonView::Obj(seq![("type"@, JsonView::Str("string"@))])),
                ("description"@, JsonView::Str(about)),
            ],
        ),
        choice(required, about) matches JsonView::Obj(e) && e.len() == 3 && e[0] == (
            "type"@,
            JsonView::Str("string"@),
        ) && e[1].0 == "enum"@ && e[1].1 is Arr && e[1].1->Arr_0.len() == required.len() && (0 <= i
            < required.len() ==> e[1].1->Arr_0[i] == JsonView::Str(required[i])) && e[2] == (
            "description"@,
            JsonView::Str(about),
        ),
{
}

} // verus!
