//! What the agent knows of models, and how a model reference is resolved.

pub mod fetch;
pub mod model;
pub mod models_dev;
pub mod resolve;

pub use model::{Capability, ModelInfo, Pricing, Rate, ReasoningEffort};
pub use resolve::resolve_model;
