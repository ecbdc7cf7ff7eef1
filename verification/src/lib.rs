//! A personal knowledge-management library: ideas, projects, tasks and tags,
//! persisted as flat JSON documents, with a relevance-ranked text search
//! across the stored collections.

mod clock;
mod ids;
pub mod codec;
pub mod config;
pub mod dates;
pub mod edit;
pub mod errors;
pub mod idea;
pub mod ops;
pub mod project;
pub mod search;
pub mod tag;
pub mod task;
pub mod text;

pub use config::{BackupConfig, Config, OutputFormat};
pub use ids::id_string;
pub use search::{EntityType, SearchEngine, SearchFilters, SearchResult};
pub use errors::VaultError;
pub use idea::{Idea, IdeaStatus};
pub use project::{Project, ProjectStatus};
pub use tag::Tag;
pub use task::{Task, TaskPriority, TaskStatus};
