//! A tool of an MCP server, as the agent sees it.

use crate::json::{entry_views, json_text, json_view_obj, Json, JsonView};
use crate::provider::request::{ToolSpec, ToolSpecView};
use crate::split::{trim_end, trim_end_str};
use crate::tools::args::{truncate, truncated, ToolResult};
use vstd::prelude::*;

verus! {

/// How many bytes of a tool's output are kept.
pub const MAX_OUTPUT_BYTES: usize = 32768;

/// The name under which a server's tool is offered.
pub open spec fn offered_name(server: Seq<char>, tool: Seq<char>) -> Seq<char> {
    "mcp__"@ + server + "__"@ + tool
}

/// A tool of an MCP server.
#[derive(Debug)]
pub struct McpTool {
    /// The name under which it is offered.
    pub full_name: String,
    /// Its name at the server.
    pub remote_name: String,
    pub description: String,
    pub schema: Json,
}

/// The arguments that go to the server, or the answer where they cannot.
#[derive(Debug)]
pub enum CallArguments {
    /// No arguments.
    Absent,
    /// These arguments.
    Object(Vec<(String, Json)>),
    Refused(ToolResult),
}

/// A part of a tool's output.
#[derive(Debug)]
pub enum ContentBlock {
    Text(String),
    Image,
    Audio,
    Resource,
    ResourceLink,
}

/// A part of a tool's output as it is shown.
pub open spec fn block_text(b: ContentBlock) -> Seq<char> {
    match b {
        ContentBlock::Text(t) => t@,
        ContentBlock::Image => "[image content omitted]"@,
        ContentBlock::Audio => "[audio content omitted]"@,
        ContentBlock::Resource => "[resource content omitted]"@,
        ContentBlock::ResourceLink => "[resource link omitted]"@,
    }
}

/// The parts one after the other, each on a line.
pub open spec fn blocks_text(bs: Seq<ContentBlock>) -> Seq<char>
    decreases bs.len(),
{
    if bs.len() == 0 {
        Seq::empty()
    } else {
        blocks_text(bs.drop_last()) + block_text(bs.last()) + "\n"@
    }
}

/// The output as a text.
pub fn flatten_content(blocks: &Vec<ContentBlock>) -> (r: String)
    ensures
        r@ == trim_end(blocks_text(blocks@)),
{
    let mut out = String::new();
    let mut i: usize = 0;
    assert(blocks@.take(0) =~= Seq::<ContentBlock>::empty());
    assert(out@ =~= Seq::<char>::empty());
    while i < blocks.len()
        invariant
            i <= blocks@.len(),
            out@ == blocks_text(blocks@.take(i as int)),
        decreases blocks@.len() - i,
    {
        assert(blocks@.take(i + 1).drop_last() =~= blocks@.take(i as int));
        assert(blocks@.take(i + 1).last() == blocks@[i as int]);
        match &blocks[i] {
            ContentBlock::Text(t) => out.append(t.as_str()),
            ContentBlock::Image => out.append("[image content omitted]"),
            ContentBlock::Audio => out.append("[audio content omitted]"),
            ContentBlock::Resource => out.append("[resource content omitted]"),
            ContentBlock::ResourceLink => out.append("[resource link omitted]"),
        }
        out.append("\n");
        i += 1;
    }
    assert(blocks@.take(i as int) =~= blocks@);
    trim_end_str(out.as_str())
}

/// How a call of a tool ended.
#[derive(Debug)]
pub enum McpReply {
    /// The server answered.
    Content { blocks: Vec<ContentBlock>, is_error: bool },
    /// The call failed on the way.
    Failed { error: String },
}

/// What the agent answers the model. An error is not cut short.
pub open spec fn reply_answer(r: McpReply) -> (bool, Seq<char>) {
    match r {
        McpReply::Failed { error } => (false, "mcp call failed: "@ + error@),
        McpReply::Content { blocks, is_error } => {
            let text = trim_end(blocks_text(blocks@));
            if is_error {
                (false, text)
            } else {
                (true, truncated(text, MAX_OUTPUT_BYTES as nat))
            }
        },
    }
}

impl McpTool {
    /// A tool of a server.
    pub fn new(server: &str, remote_name: String, description: String, schema: Json) -> (r: McpTool)
        ensures
            r.full_name@ == offered_name(server@, remote_name@),
            r.remote_name == remote_name,
            r.description == description,
            r.schema == schema,
    {
        let mut full_name = "mcp__".to_owned();
        full_name.append(server);
        full_name.append("__");
        full_name.append(remote_name.as_str());
        McpTool { full_name, remote_name, description, schema }
    }

    /// What the model is told of the tool.
    pub fn spec(&self) -> (r: ToolSpec)
        ensures
            r@ == (ToolSpecView {
                name: self.full_name@,
                description: self.description@,
                parameters: self.schema@,
            }),
    {
        ToolSpec {
            name: self.full_name.clone(),
            description: self.description.clone(),
            parameters: self.schema.dup(),
        }
    }

    /// The arguments that go to the server: an object, or none for `null`.
    pub fn arguments(args: &Json) -> (r: CallArguments)
        ensures
            match r {
                CallArguments::Absent => args@ is Null,
                CallArguments::Object(v) => args@ == JsonView::Obj(entry_views(v@)),
                CallArguments::Refused(e) => !(args@ is Null) && !(args@ is Obj) && !e.ok
                    && e.content@ == "tool arguments must be a JSON object, got: "@ + json_text(
                    args@,
                ),
            },
    {
        match args {
            Json::Null => CallArguments::Absent,
            Json::Obj(_) => match args.dup() {
                Json::Obj(v) => {
                    proof {
                        json_view_obj(v);
                    }
                    CallArguments::Object(v)
                },
                _ => CallArguments::Absent,
            },
            _ => CallArguments::Refused(
                ToolResult::err(
                    "tool arguments must be a JSON object, got: ".to_owned().concat(
                        args.to_text().as_str(),
                    ),
                ),
            ),
        }
    }

    /// What the agent answers the model.
    pub fn answer(reply: &McpReply) -> (r: ToolResult)
        ensures
            (r.ok, r.content@) == reply_answer(*reply),
    {
        match reply {
            McpReply::Failed { error } => ToolResult::err(
                "mcp call failed: ".to_owned().concat(error.as_str()),
            ),
            McpReply::Content { blocks, is_error } => {
                let text = flatten_content(blocks);
                if *is_error {
                    ToolResult::err(text)
                } else {
                    ToolResult::ok(truncate(text.as_str(), MAX_OUTPUT_BYTES))
                }
            },
        }
    }
}

/// A tool of a server is offered under a name that holds the server's and its own.
pub proof fn law_offered_name(server: Seq<char>, tool: Seq<char>)
    ensures
        offered_name(server, tool) == "mcp__"@ + server + "__"@ + tool,
{
}

/// Each block of an answer stands on lines of its own, in its order: a text as it is, and for anything else a note
/// that says what was left out.
pub proof fn law_blocks_in_order(bs: Seq<ContentBlock>, t: String)
    ensures
        blocks_text(bs.push(ContentBlock::Text(t))) == blocks_text(bs) + t@ + "\n"@,
        blocks_text(bs.push(ContentBlock::Image)) == blocks_text(bs) + "[image content omitted]"@ + "\n"@,
        blocks_text(bs.push(ContentBlock::Audio)) == blocks_text(bs) + "[audio content omitted]"@ + "\n"@,
        blocks_text(bs.push(ContentBlock::Resource)) == blocks_text(bs) + "[resource content omitted]"@ + "\n"@,
        blocks_text(bs.push(ContentBlock::ResourceLink)) == blocks_text(bs) + "[resource link omitted]"@
            + "\n"@,
        blocks_text(Seq::empty()).len() == 0,
{
    assert(bs.push(ContentBlock::Text(t)).drop_last() =~= bs);
    assert(bs.push(ContentBlock::Image).drop_last() =~= bs);
    assert(bs.push(ContentBlock::Audio).drop_last() =~= bs);
    assert(bs.push(ContentBlock::Resource).drop_last() =~= bs);
    assert(bs.push(ContentBlock::ResourceLink).drop_last() =~= bs);
}

/// The answer of a server is its blocks without white space at their end; one that is an error fails and is told
/// whole, another is cut at the limit. A call that did not come through fails and says why.
pub proof fn law_server_answers(blocks: Vec<ContentBlock>, error: String)
    ensures
        reply_answer(McpReply::Content { blocks, is_error: false }) == (
            true,
            truncated(trim_end(blocks_text(blocks@)), 32768),
        ),
        reply_answer(McpReply::Content { blocks, is_error: true }) == (
            false,
            trim_end(blocks_text(blocks@)),
        ),
        reply_answer(McpReply::Failed { error }) == (false, "mcp call failed: "@ + error@),
{
}

} // verus!
