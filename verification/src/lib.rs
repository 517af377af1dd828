//! Typed building blocks for language model programs: signatures, prompt
//! adapters, caches, agents and the rules that tie them together.

pub mod adapter;
pub mod adapter_types;
pub mod agents;
pub mod aggregation;
pub mod best_of_n;
pub mod bootstrap_trace;
pub mod cache;
pub mod callback;
pub mod chain_of_thought;
pub mod claude_lm;
pub mod cli;
pub mod code_act;
pub mod codex_lm;
pub mod dataset;
pub mod embedder;
pub mod error;
pub mod evaluate;
pub mod example;
pub mod finetune_types;
pub mod formats;
pub mod generated_code;
pub mod identifier;
pub mod interpreter;
pub mod json;
pub mod json_adapter;
pub mod knn;
pub mod listener;
pub mod lm;
pub mod message;
pub mod mock_interpreter;
pub mod module_trait;
pub mod multi_chain_comparison;
pub mod parallel;
pub mod parallelizer;
pub mod predict;
pub mod prediction;
pub mod program_of_thought;
pub mod prompt;
pub mod provider;
pub mod react;
pub mod records;
pub mod repl_types;
pub mod replies;
pub mod retrieve;
pub mod rlm;
pub mod runs;
pub mod sandboxed_interpreter;
pub mod settings;
pub mod shorthand;
pub mod signature;
pub mod streaming;
pub mod strmap;
pub mod text;
pub mod text_set;
pub mod tool;
pub mod trajectory;
pub mod two_step_adapter;
pub mod unicode;
pub mod usage_tracker;
pub mod value;
pub mod wording;
pub mod xml_adapter;
