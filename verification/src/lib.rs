//! Mete: structural metrics for source code quality analysis.
pub mod text;
pub mod lang;
pub mod data;
pub mod walk;
pub mod syntax;
pub mod metrics;
pub mod dup;
pub mod domain;
pub mod infrastructure;
pub mod application;
pub mod collect;
pub mod report;

pub use collect::{build_duplicate_index, collect_results, is_skippable};
pub use data::{FileResults, FunctionData, FunctionResults, SingleFileResult, StringInterner};
pub use dup::{DuplicateGroup, DuplicateIndex, FunctionLocation};
pub use lang::{BranchKind, Language, LanguageSpec};
pub use metrics::{CcLevel, CognitiveLevel, DepthLevel, MiLevel};
pub use walk::{WalkError, Walker};
