//! A small-footprint command line agent: planning, tool policy, bounded
//! memory, prompt rules, channel admission and training decisions, each with a
//! machine-checked contract.
pub mod adjustments;
pub mod advisor;
pub mod agent;
pub mod channels;
pub mod chars;
pub mod cli;
pub mod config;
pub mod foreign;
pub mod frontmatter;
pub mod http;
pub mod json;
pub mod laws;
pub mod llm;
pub mod log;
pub mod machine;
pub mod memory;
pub mod minicore;
pub mod numbers;
pub mod orchestration;
pub mod order;
pub mod planner;
pub mod prompt_texts;
pub mod prompts;
pub mod readback;
pub mod rubric;
pub mod session;
pub mod skills;
pub mod sql;
pub mod table;
pub mod text;
pub mod tools;
pub mod train;
pub mod training;
pub mod types;

pub use config::AgentConfig;
pub use memory::{InMemoryStore, MemoryStore};
pub use minicore::{IncomingMessage, MiniCore, SessionReport};
pub use tools::{ToolPolicy, ToolRunner};
