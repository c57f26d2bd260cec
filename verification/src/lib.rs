//! A staged coding agent's decision logic: configuration rules, prompt
//! templates, tool assembly, the agent loop and its replay, provider wire
//! formats, file edits, and the stores that carry lessons between sessions.
//!
//! Every function here computes on plain values. Reading files, talking to
//! model endpoints and running processes is done by the program around the
//! library, which hands in what it read and carries out what it is told.

pub mod agent_loop;
pub mod anthropic;
pub mod anthropic_laws;
pub mod approval;
pub mod block;
pub mod brain;
pub mod catalog;
pub mod chain;
pub mod change_laws;
pub mod client;
pub mod client_laws;
pub mod clock;
pub mod config;
pub mod config_laws;
pub mod diff;
pub mod dispatch;
pub mod edit_laws;
pub mod effects;
pub mod evals;
pub mod evolve;
pub mod file_edit;
pub mod files;
pub mod find;
pub mod gate_laws;
pub mod git;
pub mod git_laws;
pub mod hooks;
pub mod insights;
pub mod json;
pub mod listing;
pub mod loading;
pub mod loop_laws;
pub mod loop_rules;
pub mod mcp;
pub mod memory_laws;
pub mod mentions;
pub mod model;
pub mod named;
pub mod note_laws;
pub mod numbers;
pub mod openai;
pub mod paths;
pub mod pipeline;
pub mod provider;
pub mod reflect;
pub mod replay_laws;
pub mod reprompt;
pub mod request;
pub mod runs;
pub mod same;
pub mod schema;
pub mod scores;
pub mod search;
pub mod search_laws;
pub mod session;
pub mod setup;
pub mod signal_laws;
pub mod skills;
pub mod slug;
pub mod sort;
pub mod splitting_laws;
pub mod sse;
pub mod stage_laws;
pub mod stream;
pub mod table;
pub mod template;
pub mod terminal;
pub mod text;
pub mod text_laws;
pub mod tools;
pub mod toolset;
pub mod turn_laws;
pub mod usage;
pub mod usage_stats;
pub mod validate;
pub mod wide;
pub mod wire_laws;
pub mod workflow;
