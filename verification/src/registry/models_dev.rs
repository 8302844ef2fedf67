//! Reading a model out of the models.dev catalogue.

use super::model::{Capability, ModelInfo, ModelView, Pricing, Rate, ReasoningEffort};
use crate::json::{
    field, json_parse, json_views, member, opt_view, parse_json, Json, JsonNumber, JsonView, NumberView,
};
use crate::text::{str_eq, texts, texts_push};
use vstd::prelude::*;

verus! {

/// The prices that a catalogue entry states.
#[derive(Debug)]
pub struct DevCost {
    pub input: Rate,
    pub output: Rate,
    pub cache_read: Option<Rate>,
    pub cache_write: Option<Rate>,
}

/// What is read of a catalogue entry.
#[derive(Debug)]
pub struct DevModel {
    pub id: String,
    pub attachment: bool,
    pub reasoning: bool,
    pub tool_call: bool,
    /// How many reasoning options the entry lists.
    pub reasoning_options: usize,
    /// The kinds of input that the model takes.
    pub input: Vec<String>,
    pub context: u32,
    pub output: u32,
    pub cost: Option<DevCost>,
}

/// What a `DevModel` holds.
pub struct DevView {
    pub id: Seq<char>,
    pub attachment: bool,
    pub reasoning: bool,
    pub tool_call: bool,
    pub reasoning_options: nat,
    pub input: Seq<Seq<char>>,
    pub context: u32,
    pub output: u32,
    pub cost: Option<DevCost>,
}

impl View for DevModel {
    type V = DevView;

    open spec fn view(&self) -> DevView {
        DevView {
            id: self.id@,
            attachment: self.attachment,
            reasoning: self.reasoning,
            tool_call: self.tool_call,
            reasoning_options: self.reasoning_options as nat,
            input: texts(self.input@),
            context: self.context,
            output: self.output,
            cost: self.cost,
        }
    }
}

// ---------------------------------------------------------------------------------------------
// Decoding
// ---------------------------------------------------------------------------------------------

/// The value can be read as a record with `n` fields: an object, or an array that lists the
/// fields in their order and no more of them.
pub open spec fn record_like(j: JsonView, n: nat) -> bool {
    match j {
        JsonView::Obj(_) => true,
        JsonView::Arr(v) => v.len() <= n,
        _ => false,
    }
}

/// A string field; the empty string where it is missing.
pub open spec fn field_text(f: Option<JsonView>) -> Option<Seq<char>> {
    match f {
        None => Some(Seq::empty()),
        Some(JsonView::Str(s)) => Some(s),
        Some(_) => None,
    }
}

/// A boolean field; false where it is missing.
pub open spec fn field_bool(f: Option<JsonView>) -> Option<bool> {
    match f {
        None => Some(false),
        Some(JsonView::Bool(b)) => Some(b),
        Some(_) => None,
    }
}

/// A 32-bit field; 0 where it is missing.
pub open spec fn field_u32(f: Option<JsonView>) -> Option<u32> {
    match f {
        None => Some(0),
        Some(JsonView::Num(NumberView::Uint(n))) => if n <= u32::MAX {
            Some(n as u32)
        } else {
            None
        },
        Some(_) => None,
    }
}

/// The number of elements of an array field; 0 where it is missing.
pub open spec fn field_len(f: Option<JsonView>) -> Option<nat> {
    match f {
        None => Some(0),
        Some(JsonView::Arr(v)) => Some(v.len()),
        Some(_) => None,
    }
}

/// Every element is a string.
pub open spec fn all_strings(v: Seq<JsonView>) -> bool {
    forall|i: int| 0 <= i < v.len() ==> #[trigger] v[i] is Str
}

/// The strings of an array field; none where it is missing.
pub open spec fn field_strings(f: Option<JsonView>) -> Option<Seq<Seq<char>>> {
    match f {
        None => Some(Seq::empty()),
        Some(JsonView::Arr(v)) => if all_strings(v) {
            Some(v.map_values(|j: JsonView| j->Str_0))
        } else {
            None
        },
        Some(_) => None,
    }
}

/// The price that a number states.
pub open spec fn rate_of(n: NumberView) -> Rate {
    match n {
        NumberView::Uint(u) => Rate::Uint(u),
        NumberView::Int(i) => Rate::Int(i),
        NumberView::Float { bits, text } => Rate::Bits(bits),
    }
}

/// A price field; 0 where it is missing.
pub open spec fn field_rate(f: Option<JsonView>) -> Option<Rate> {
    match f {
        None => Some(Rate::Uint(0)),
        Some(JsonView::Num(n)) => Some(rate_of(n)),
        Some(_) => None,
    }
}

/// An optional price field: none where it is missing or null.
pub open spec fn field_opt_rate(f: Option<JsonView>) -> Option<Option<Rate>> {
    match f {
        None => Some(None),
        Some(JsonView::Null) => Some(None),
        Some(JsonView::Num(n)) => Some(Some(rate_of(n))),
        Some(_) => None,
    }
}

/// The strings under `input` of a modalities record; none where the record is missing.
pub open spec fn decode_modalities(f: Option<JsonView>) -> Option<Seq<Seq<char>>> {
    match f {
        None => Some(Seq::empty()),
        Some(j) => if record_like(j, 1) {
            field_strings(field(j, "input"@, 0))
        } else {
            None
        },
    }
}

/// The two limits of a limit record; both 0 where the record is missing.
pub open spec fn decode_limit(f: Option<JsonView>) -> Option<(u32, u32)> {
    match f {
        None => Some((0, 0)),
        Some(j) => if record_like(j, 2) {
            match (field_u32(field(j, "context"@, 0)), field_u32(field(j, "output"@, 1))) {
                (Some(a), Some(b)) => Some((a, b)),
                _ => None,
            }
        } else {
            None
        },
    }
}

/// The prices of a cost record; none where it is missing or null.
pub open spec fn decode_cost(f: Option<JsonView>) -> Option<Option<DevCost>> {
    match f {
        None => Some(None),
        Some(JsonView::Null) => Some(None),
        Some(j) => if record_like(j, 4) {
            match (
                field_rate(field(j, "input"@, 0)),
                field_rate(field(j, "output"@, 1)),
                field_opt_rate(field(j, "cache_read"@, 2)),
                field_opt_rate(field(j, "cache_write"@, 3)),
            ) {
                (Some(input), Some(output), Some(cache_read), Some(cache_write)) => Some(
                    Some(DevCost { input, output, cache_read, cache_write }),
                ),
                _ => None,
            }
        } else {
            None
        },
    }
}

/// What is read of a catalogue entry; nothing where a field has the wrong type.
pub open spec fn decode_model(j: JsonView) -> Option<DevView> {
    if !record_like(j, 8) {
        None
    } else {
        match (
            field_text(field(j, "id"@, 0)),
            field_bool(field(j, "attachment"@, 1)),
            field_bool(field(j, "reasoning"@, 2)),
            field_bool(field(j, "tool_call"@, 3)),
            field_len(field(j, "reasoning_options"@, 4)),
            decode_modalities(field(j, "modalities"@, 5)),
            decode_limit(field(j, "limit"@, 6)),
            decode_cost(field(j, "cost"@, 7)),
        ) {
            (
                Some(id),
                Some(attachment),
                Some(reasoning),
                Some(tool_call),
                Some(reasoning_options),
                Some(input),
                Some(limit),
                Some(cost),
            ) => Some(
                DevView {
                    id,
                    attachment,
                    reasoning,
                    tool_call,
                    reasoning_options,
                    input,
                    context: limit.0,
                    output: limit.1,
                    cost,
                },
            ),
            _ => None,
        }
    }
}

/// Whether the value can be read as a record with `n` fields.
fn is_record(j: &Json, n: usize) -> (r: bool)
    ensures
        r == record_like(j@, n as nat),
{
    broadcast use crate::json::json_view_arr, crate::json::json_view_obj;

    match j {
        Json::Obj(_) => true,
        Json::Arr(v) => v.len() <= n,
        _ => false,
    }
}

fn get_text(f: Option<&Json>) -> (r: Option<String>)
    ensures
        crate::text::opt_text(r) == field_text(opt_view(f)),
{
    match f {
        None => Some(String::new()),
        Some(Json::Str(s)) => Some(s.clone()),
        Some(_) => None,
    }
}

fn get_bool(f: Option<&Json>) -> (r: Option<bool>)
    ensures
        r == field_bool(opt_view(f)),
{
    match f {
        None => Some(false),
        Some(Json::Bool(b)) => Some(*b),
        Some(_) => None,
    }
}

fn get_u32(f: Option<&Json>) -> (r: Option<u32>)
    ensures
        r == field_u32(opt_view(f)),
{
    match f {
        None => Some(0),
        Some(Json::Num(JsonNumber::Uint(n))) => if *n <= u32::MAX as u64 {
            Some(*n as u32)
        } else {
            None
        },
        Some(_) => None,
    }
}

fn get_len(f: Option<&Json>) -> (r: Option<usize>)
    ensures
        match r {
            Some(n) => field_len(opt_view(f)) == Some(n as nat),
            None => field_len(opt_view(f)) is None,
        },
{
    broadcast use crate::json::json_view_arr;

    match f {
        None => Some(0),
        Some(Json::Arr(v)) => Some(v.len()),
        Some(_) => None,
    }
}

fn get_strings(f: Option<&Json>) -> (r: Option<Vec<String>>)
    ensures
        match r {
            Some(v) => field_strings(opt_view(f)) == Some(texts(v@)),
            None => field_strings(opt_view(f)) is None,
        },
{
    match f {
        None => {
            let v: Vec<String> = Vec::new();
            assert(texts(v@) =~= Seq::<Seq<char>>::empty());
            Some(v)
        },
        Some(Json::Arr(v)) => {
            proof {
                crate::json::json_view_arr(*v);
            }
            let ghost js = json_views(v@);
            let mut out: Vec<String> = Vec::new();
            let mut i: usize = 0;
            while i < v.len()
                invariant
                    i <= v@.len(),
                    js == json_views(v@),
                    opt_view(f) == Some(JsonView::Arr(js)),
                    forall|k: int| 0 <= k < i ==> #[trigger] js[k] is Str,
                    texts(out@) == js.take(i as int).map_values(|j: JsonView| j->Str_0),
                decreases v@.len() - i,
            {
                broadcast use texts_push;

                assert(js[i as int] == v@[i as int]@);
                match &v[i] {
                    Json::Str(s) => {
                        out.push(s.clone());
                        assert(js.take(i + 1).map_values(|j: JsonView| j->Str_0) =~= js.take(
                            i as int,
                        ).map_values(|j: JsonView| j->Str_0).push(s@));
                    },
                    _ => {
                        assert(!(js[i as int] is Str));
                        return None;
                    },
                }
                i += 1;
            }
            assert(js.take(i as int) =~= js);
            Some(out)
        },
        Some(_) => None,
    }
}

fn to_rate(n: &JsonNumber) -> (r: Rate)
    ensures
        r == rate_of(n@),
{
    match n {
        JsonNumber::Uint(u) => Rate::Uint(*u),
        JsonNumber::Int(i) => Rate::Int(*i),
        JsonNumber::Float { bits, .. } => Rate::Bits(*bits),
    }
}

fn get_rate(f: Option<&Json>) -> (r: Option<Rate>)
    ensures
        r == field_rate(opt_view(f)),
{
    match f {
        None => Some(Rate::Uint(0)),
        Some(Json::Num(n)) => Some(to_rate(n)),
        Some(_) => None,
    }
}

fn get_opt_rate(f: Option<&Json>) -> (r: Option<Option<Rate>>)
    ensures
        r == field_opt_rate(opt_view(f)),
{
    match f {
        None => Some(None),
        Some(Json::Null) => Some(None),
        Some(Json::Num(n)) => Some(Some(to_rate(n))),
        Some(_) => None,
    }
}

fn get_modalities(f: Option<&Json>) -> (r: Option<Vec<String>>)
    ensures
        match r {
            Some(v) => decode_modalities(opt_view(f)) == Some(texts(v@)),
            None => decode_modalities(opt_view(f)) is None,
        },
{
    match f {
        None => {
            let v: Vec<String> = Vec::new();
            assert(texts(v@) =~= Seq::<Seq<char>>::empty());
            Some(v)
        },
        Some(j) => if is_record(j, 1) {
            get_strings(j.get_field("input", 0))
        } else {
            None
        },
    }
}

fn get_limit(f: Option<&Json>) -> (r: Option<(u32, u32)>)
    ensures
        r == decode_limit(opt_view(f)),
{
    match f {
        None => Some((0, 0)),
        Some(j) => if is_record(j, 2) {
            match (get_u32(j.get_field("context", 0)), get_u32(j.get_field("output", 1))) {
                (Some(a), Some(b)) => Some((a, b)),
                _ => None,
            }
        } else {
            None
        },
    }
}

fn get_cost(f: Option<&Json>) -> (r: Option<Option<DevCost>>)
    ensures
        r == decode_cost(opt_view(f)),
{
    match f {
        None => Some(None),
        Some(Json::Null) => Some(None),
        Some(j) => if is_record(j, 4) {
            match (
                get_rate(j.get_field("input", 0)),
                get_rate(j.get_field("output", 1)),
                get_opt_rate(j.get_field("cache_read", 2)),
                get_opt_rate(j.get_field("cache_write", 3)),
            ) {
                (Some(input), Some(output), Some(cache_read), Some(cache_write)) => Some(
                    Some(DevCost { input, output, cache_read, cache_write }),
                ),
                _ => None,
            }
        } else {
            None
        },
    }
}

/// Reads a catalogue entry.
pub fn read_model(j: &Json) -> (r: Option<DevModel>)
    ensures
        match r {
            Some(m) => decode_model(j@) == Some(m@),
            None => decode_model(j@) is None,
        },
{
    if !is_record(j, 8) {
        return None;
    }
    match (
        get_text(j.get_field("id", 0)),
        get_bool(j.get_field("attachment", 1)),
        get_bool(j.get_field("reasoning", 2)),
        get_bool(j.get_field("tool_call", 3)),
        get_len(j.get_field("reasoning_options", 4)),
        get_modalities(j.get_field("modalities", 5)),
        get_limit(j.get_field("limit", 6)),
        get_cost(j.get_field("cost", 7)),
    ) {
        (
            Some(id),
            Some(attachment),
            Some(reasoning),
            Some(tool_call),
            Some(reasoning_options),
            Some(input),
            Some(limit),
            Some(cost),
        ) => Some(
            DevModel {
                id,
                attachment,
                reasoning,
                tool_call,
                reasoning_options,
                input,
                context: limit.0,
                output: limit.1,
                cost,
            },
        ),
        _ => None,
    }
}

// ---------------------------------------------------------------------------------------------
// From an entry to a model
// ---------------------------------------------------------------------------------------------

/// The prices of an entry; all 0 where it states none.
pub open spec fn pricing_of(c: Option<DevCost>) -> Pricing {
    match c {
        Some(c) => Pricing {
            input: c.input,
            output: c.output,
            cache_write: c.cache_write,
            cache_read: c.cache_read,
        },
        None => Pricing {
            input: Rate::Uint(0),
            output: Rate::Uint(0),
            cache_write: None,
            cache_read: None,
        },
    }
}

/// One capability, where the condition holds.
pub open spec fn cap_if(b: bool, c: Capability) -> Seq<Capability> {
    if b {
        seq![c]
    } else {
        Seq::empty()
    }
}

/// The capabilities that an entry stands for: every model streams; a model sees images when it
/// takes attachments and images; its prompts are cached when it has a price for cache reads.
pub open spec fn capabilities_of(d: DevView) -> Seq<Capability> {
    cap_if(d.tool_call, Capability::Tools) + cap_if(
        d.attachment && d.input.contains("image"@),
        Capability::Vision,
    ) + cap_if(d.reasoning, Capability::Thinking) + cap_if(
        d.input.contains("pdf"@),
        Capability::Pdf,
    ) + seq![Capability::Streaming] + cap_if(
        pricing_of(d.cost).cache_read is Some,
        Capability::PromptCache,
    )
}

/// The model that an entry of the provider describes.
pub open spec fn model_of(provider_id: Seq<char>, d: DevView) -> ModelView {
    ModelView {
        key: provider_id + "/"@ + d.id,
        provider: provider_id,
        api_name: d.id,
        context_window: d.context,
        max_output_tokens: d.output,
        tokenizer: provider_id,
        capabilities: capabilities_of(d),
        pricing: pricing_of(d.cost),
        default_reasoning: if d.reasoning_options == 0 {
            None
        } else {
            Some(ReasoningEffort::Medium)
        },
    }
}

/// Whether the list holds the string.
fn lists(v: &Vec<String>, s: &str) -> (r: bool)
    ensures
        r == texts(v@).contains(s@),
{
    let mut i: usize = 0;
    while i < v.len()
        invariant
            i <= v@.len(),
            forall|j: int| 0 <= j < i ==> texts(v@)[j] != s@,
        decreases v@.len() - i,
    {
        assert(texts(v@)[i as int] == v@[i as int]@);
        if str_eq(v[i].as_str(), s) {
            assert(texts(v@).contains(texts(v@)[i as int]));
            return true;
        }
        i += 1;
    }
    false
}

/// The model that an entry of the provider describes.
pub fn to_model_info(provider_id: &str, dev: DevModel) -> (r: ModelInfo)
    ensures
        r@ == model_of(provider_id@, dev@),
{
    let ghost d = dev@;
    let pricing = match dev.cost {
        Some(c) => Pricing {
            input: c.input,
            output: c.output,
            cache_write: c.cache_write,
            cache_read: c.cache_read,
        },
        None => Pricing {
            input: Rate::Uint(0),
            output: Rate::Uint(0),
            cache_write: None,
            cache_read: None,
        },
    };
    assert(pricing == pricing_of(d.cost));
    let mut capabilities: Vec<Capability> = Vec::new();
    if dev.tool_call {
        capabilities.push(Capability::Tools);
    }
    let has_image = lists(&dev.input, "image");
    if dev.attachment && has_image {
        capabilities.push(Capability::Vision);
    }
    if dev.reasoning {
        capabilities.push(Capability::Thinking);
    }
    if lists(&dev.input, "pdf") {
        capabilities.push(Capability::Pdf);
    }
    capabilities.push(Capability::Streaming);
    if pricing.cache_read.is_some() {
        capabilities.push(Capability::PromptCache);
    }
    assert(capabilities@ =~= capabilities_of(d));
    let default_reasoning = if dev.reasoning_options == 0 {
        None
    } else {
        Some(ReasoningEffort::Medium)
    };
    let mut key = provider_id.to_owned();
    key.append("/");
    key.append(dev.id.as_str());
    ModelInfo {
        key,
        provider: provider_id.to_owned(),
        api_name: dev.id,
        context_window: dev.context,
        max_output_tokens: dev.output,
        tokenizer: provider_id.to_owned(),
        capabilities,
        pricing,
        default_reasoning,
    }
}

/// The model `model_id` of the provider `provider_id` in a catalogue.
pub open spec fn model_in(root: JsonView, provider_id: Seq<char>, model_id: Seq<char>) -> Option<
    ModelView,
> {
    match member(root, provider_id) {
        Some(p) => match member(p, "models"@) {
            Some(ms) => match member(ms, model_id) {
                Some(node) => match decode_model(node) {
                    Some(d) => Some(model_of(provider_id, d)),
                    None => None,
                },
                None => None,
            },
            None => None,
        },
        None => None,
    }
}

/// The view of an optional model.
pub open spec fn opt_model(m: Option<ModelInfo>) -> Option<ModelView> {
    match m {
        Some(m) => Some(m@),
        None => None,
    }
}

/// The model `model_id` of the provider `provider_id` in a parsed catalogue.
pub fn lookup_in(root: &Json, provider_id: &str, model_id: &str) -> (r: Option<ModelInfo>)
    ensures
        opt_model(r) == model_in(root@, provider_id@, model_id@),
{
    match root.get(provider_id) {
        Some(p) => match p.get("models") {
            Some(ms) => match ms.get(model_id) {
                Some(node) => match read_model(node) {
                    Some(d) => Some(to_model_info(provider_id, d)),
                    None => None,
                },
                None => None,
            },
            None => None,
        },
        None => None,
    }
}

/// The model that a catalogue's text gives.
pub open spec fn lookup_text(cache_json: Seq<char>, provider_id: Seq<char>, model_id: Seq<char>) -> Option<
    ModelView,
> {
    match json_parse(cache_json) {
        Some(root) => model_in(root, provider_id, model_id),
        None => None,
    }
}

/// The model `model_id` of the provider `provider_id` in the text of a catalogue.
pub fn lookup(cache_json: &str, provider_id: &str, model_id: &str) -> (r: Option<ModelInfo>)
    ensures
        opt_model(r) == lookup_text(cache_json@, provider_id@, model_id@),
{
    match parse_json(cache_json) {
        Some(root) => lookup_in(&root, provider_id, model_id),
        None => None,
    }
}

/// A model is found under its provider and its name, and nowhere else.
pub proof fn law_model_found(root: JsonView, p: Seq<char>, m: Seq<char>, a: JsonView, b: JsonView, c: JsonView)
    ensures
        member(root, p) == Some(a) && member(a, "models"@) == Some(b) && member(b, m) == Some(c) ==> {
            &&& decode_model(c) matches Some(d) ==> model_in(root, p, m) == Some(model_of(p, d))
            &&& decode_model(c) is None ==> model_in(root, p, m) is None
        },
        member(root, p) is None ==> model_in(root, p, m) is None,
        member(root, p) == Some(a) && member(a, "models"@) is None ==> model_in(root, p, m) is None,
        member(root, p) == Some(a) && member(a, "models"@) == Some(b) && member(b, m) is None ==> model_in(
            root,
            p,
            m,
        ) is None,
{
}

/// What the catalogue says of a model is taken over: its name, its limits, its prices, and thought of a middle
/// measure where there is a choice of it.
pub proof fn law_model_taken(p: Seq<char>, d: DevView, c: DevCost)
    ensures
        model_of(p, d).key == p + "/"@ + d.id,
        model_of(p, d).provider == p,
        model_of(p, d).api_name == d.id,
        model_of(p, d).tokenizer == p,
        model_of(p, d).context_window == d.context,
        model_of(p, d).max_output_tokens == d.output,
        d.reasoning_options == 0 ==> model_of(p, d).default_reasoning is None,
        d.reasoning_options > 0 ==> model_of(p, d).default_reasoning == Some(ReasoningEffort::Medium),
        d.cost == Some(c) ==> model_of(p, d).pricing == (Pricing {
            input: c.input,
            output: c.output,
            cache_write: c.cache_write,
            cache_read: c.cache_read,
        }),
        d.cost is None ==> model_of(p, d).pricing == (Pricing {
            input: Rate::Uint(0),
            output: Rate::Uint(0),
            cache_write: None,
            cache_read: None,
        }),
{
}

/// What a model can do: it has tools, sight, thought and documents where the catalogue says so, it always streams,
/// and it keeps prompts where reading them again has a price.
pub proof fn law_capabilities(p: Seq<char>, d: DevView)
    ensures
        model_of(p, d).capabilities.contains(Capability::Tools) <==> d.tool_call,
        model_of(p, d).capabilities.contains(Capability::Vision) <==> d.attachment && d.input.contains("image"@),
        model_of(p, d).capabilities.contains(Capability::Thinking) <==> d.reasoning,
        model_of(p, d).capabilities.contains(Capability::Pdf) <==> d.input.contains("pdf"@),
        model_of(p, d).capabilities.contains(Capability::Streaming),
        model_of(p, d).capabilities.contains(Capability::PromptCache) <==> d.cost is Some && d.cost->0.cache_read
            is Some,
{
    let a = cap_if(d.tool_call, Capability::Tools);
    let b = cap_if(d.attachment && d.input.contains("image"@), Capability::Vision);
    let c = cap_if(d.reasoning, Capability::Thinking);
    let e = cap_if(d.input.contains("pdf"@), Capability::Pdf);
    let s = seq![Capability::Streaming];
    let k = cap_if(pricing_of(d.cost).cache_read is Some, Capability::PromptCache);
    let all = capabilities_of(d);
    assert(all == a + b + c + e + s + k);
    let nb = a.len() as int;
    let nc = nb + b.len();
    let ne = nc + c.len();
    let ns = ne + e.len();
    let nk = ns + 1;
    if d.tool_call {
        assert(all[0] == Capability::Tools);
    }
    if b.len() > 0 {
        assert(all[nb] == Capability::Vision);
    }
    if c.len() > 0 {
        assert(all[nc] == Capability::Thinking);
    }
    if e.len() > 0 {
        assert(all[ne] == Capability::Pdf);
    }
    assert(all[ns] == Capability::Streaming);
    if k.len() > 0 {
        assert(all[nk] == Capability::PromptCache);
    }
    assert forall|i: int| 0 <= i < all.len() implies {
        ||| (#[trigger] all[i] == Capability::Tools && d.tool_call)
        ||| (all[i] == Capability::Vision && b.len() > 0)
        ||| (all[i] == Capability::Thinking && c.len() > 0)
        ||| (all[i] == Capability::Pdf && e.len() > 0)
        ||| all[i] == Capability::Streaming
        ||| (all[i] == Capability::PromptCache && k.len() > 0)
    } by {
        if i < nb {
            assert(all[i] == a[i]);
        } else if i < nc {
            assert(all[i] == b[i - nb]);
        } else if i < ne {
            assert(all[i] == c[i - nc]);
        } else if i < ns {
            assert(all[i] == e[i - ne]);
        } else if i < nk {
            assert(all[i] == s[i - ns]);
        } else {
            assert(all[i] == k[i - nk]);
        }
    }
}

/// A model of the catalogue is an object, or the array of its fields; each field that is missing is empty, none or
/// zero, and one of another kind spoils the model.
pub proof fn law_model_decoded(j: JsonView, d: DevView)
    requires
        decode_model(j) == Some(d),
    ensures
        field(j, "id"@, 0) == Some(JsonView::Str(d.id)) || (field(j, "id"@, 0) is None && d.id.len() == 0),
        field(j, "attachment"@, 1) == Some(JsonView::Bool(d.attachment)) || (field(j, "attachment"@, 1) is None
            && !d.attachment),
        field(j, "reasoning"@, 2) == Some(JsonView::Bool(d.reasoning)) || (field(j, "reasoning"@, 2) is None
            && !d.reasoning),
        field(j, "tool_call"@, 3) == Some(JsonView::Bool(d.tool_call)) || (field(j, "tool_call"@, 3) is None
            && !d.tool_call),
        (field(j, "reasoning_options"@, 4) is Some && field(j, "reasoning_options"@, 4)->0 is Arr && field(
            j,
            "reasoning_options"@,
            4,
        )->0->Arr_0.len() == d.reasoning_options) || (field(j, "reasoning_options"@, 4) is None
            && d.reasoning_options == 0),
        field(j, "limit"@, 6) is None ==> d.context == 0 && d.output == 0,
        field(j, "limit"@, 6) matches Some(l) ==> {
            &&& field(l, "context"@, 0) == Some(JsonView::Num(NumberView::Uint(d.context as u64))) || (field(
                l,
                "context"@,
                0,
            ) is None && d.context == 0)
            &&& field(l, "output"@, 1) == Some(JsonView::Num(NumberView::Uint(d.output as u64))) || (field(
                l,
                "output"@,
                1,
            ) is None && d.output == 0)
        },
        field(j, "modalities"@, 5) is None ==> d.input.len() == 0,
        field(j, "modalities"@, 5) matches Some(m) ==> {
            &&& field(m, "input"@, 0) is None ==> d.input.len() == 0
            &&& field(m, "input"@, 0) matches Some(v) ==> v is Arr && v->Arr_0.len() == d.input.len() && forall|
                i: int,
            |
                0 <= i < d.input.len() ==> v->Arr_0[i] == JsonView::Str(#[trigger] d.input[i])
        },
{
}

/// The prices are read each under its name; a price that must be there is zero where it is missing, and one that
/// need not be is none.
pub proof fn law_prices_decoded(j: JsonView, c: DevCost, n: NumberView)
    ensures
        decode_cost(None) == Some(None::<DevCost>),
        decode_cost(Some(JsonView::Null)) == Some(None::<DevCost>),
        !(j is Null) && decode_cost(Some(j)) == Some(Some(c)) ==> {
            &&& field_rate(field(j, "input"@, 0)) == Some(c.input)
            &&& field_rate(field(j, "output"@, 1)) == Some(c.output)
            &&& field_opt_rate(field(j, "cache_read"@, 2)) == Some(c.cache_read)
            &&& field_opt_rate(field(j, "cache_write"@, 3)) == Some(c.cache_write)
        },
        !(j is Null) ==> decode_cost(Some(j)) != Some(None::<DevCost>),
        field_rate(None) == Some(Rate::Uint(0)),
        field_rate(Some(JsonView::Num(n))) == Some(rate_of(n)),
        !(j is Num) ==> field_rate(Some(j)) is None,
        field_opt_rate(None) == Some(None::<Rate>),
        field_opt_rate(Some(JsonView::Num(n))) == Some(Some(rate_of(n))),
        !(j is Num) && !(j is Null) ==> field_opt_rate(Some(j)) is None,
        n matches NumberView::Uint(u) ==> rate_of(n) == Rate::Uint(u),
        n matches NumberView::Int(i) ==> rate_of(n) == Rate::Int(i),
        n matches NumberView::Float { bits, text } ==> rate_of(n) == Rate::Bits(bits),
{
}

} // verus!
