//! What is known of a model.

use vstd::prelude::*;

verus! {

/// What a model can do.
#[derive(Clone, Copy, Debug, PartialEq, Eq, Structural)]
pub enum Capability {
    Tools,
    Vision,
    Thinking,
    Pdf,
    Streaming,
    PromptCache,
}

/// How hard a model is asked to reason.
#[derive(Clone, Copy, Debug, PartialEq, Eq, Structural)]
pub enum ReasoningEffort {
    /// No reasoning.
    Off,
    Low,
    Medium,
    High,
    XHigh,
    Max,
    Budget(u32),
}

/// A price in dollars for a million tokens, as its source wrote it: a whole number, or the bits of
/// a double.
#[derive(Clone, Copy, Debug, PartialEq, Eq, Structural)]
pub enum Rate {
    Uint(u64),
    Int(i64),
    Bits(u64),
}

/// The prices of a model.
#[derive(Clone, Copy, Debug, PartialEq, Eq, Structural)]
pub struct Pricing {
    pub input: Rate,
    pub output: Rate,
    pub cache_write: Option<Rate>,
    pub cache_read: Option<Rate>,
}

/// Everything known of a model.
#[derive(Debug)]
pub struct ModelInfo {
    pub key: String,
    pub provider: String,
    pub api_name: String,
    pub context_window: u32,
    pub max_output_tokens: u32,
    pub tokenizer: String,
    pub capabilities: Vec<Capability>,
    pub pricing: Pricing,
    pub default_reasoning: Option<ReasoningEffort>,
}

/// What a `ModelInfo` holds.
pub struct ModelView {
    pub key: Seq<char>,
    pub provider: Seq<char>,
    pub api_name: Seq<char>,
    pub context_window: u32,
    pub max_output_tokens: u32,
    pub tokenizer: Seq<char>,
    pub capabilities: Seq<Capability>,
    pub pricing: Pricing,
    pub default_reasoning: Option<ReasoningEffort>,
}

impl View for ModelInfo {
    type V = ModelView;

    open spec fn view(&self) -> ModelView {
        ModelView {
            key: self.key@,
            provider: self.provider@,
            api_name: self.api_name@,
            context_window: self.context_window,
            max_output_tokens: self.max_output_tokens,
            tokenizer: self.tokenizer@,
            capabilities: self.capabilities@,
            pricing: self.pricing,
            default_reasoning: self.default_reasoning,
        }
    }
}

impl ModelInfo {
    /// Whether the model has the capability.
    pub fn supports(&self, cap: &Capability) -> (r: bool)
        ensures
            r == self@.capabilities.contains(*cap),
    {
        let mut i: usize = 0;
        while i < self.capabilities.len()
            invariant
                i <= self.capabilities@.len(),
                forall|j: int| 0 <= j < i ==> self.capabilities@[j] != *cap,
            decreases self.capabilities@.len() - i,
        {
            if self.capabilities[i] == *cap {
                assert(self.capabilities@.contains(self.capabilities@[i as int]));
                return true;
            }
            i += 1;
        }
        false
    }
}

} // verus!
