//! Skills: instructions that the model loads by name when it needs them.

pub mod skill;

pub use skill::{parse_skill_md, render_catalog, Skill, SkillMeta, SkillTool};
