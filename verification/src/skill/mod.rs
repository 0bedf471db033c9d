//! Skills: frontmatter surgery, scanning rules, the source registry, update
//! planning, import planning, and the shared-resource layout.
pub mod frontmatter;
pub mod import;
pub mod manage;
pub mod scan;
pub mod sharing;
pub mod source;
pub mod update;
