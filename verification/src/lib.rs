pub mod text;
pub mod app_launch;
pub mod lexer;
pub mod parser;
pub mod windows_path;
pub mod pattern_engine;
pub mod grep_pattern;
pub mod find_pattern;
pub mod interpreter;
pub mod catalog;
pub mod submission;
pub mod text_stream;
pub mod bridge;
pub mod transport;
pub mod handoff;
pub mod sort_support;
pub mod runner_cancel;
pub mod ordered_pipeline;
pub mod ordered_stage;
pub mod runner_ordered_fault;
pub mod terminal_session;
pub mod shell_adapter;
pub mod session_runtime;
pub mod pipeline;
pub mod runner;
pub mod runner_readonly;
pub mod runner_io;
pub mod runner_ls;
pub mod runner_which;
pub mod runner_mutation;
pub mod runner_search;
pub mod runner_follow;
pub mod runner_mkdir;
pub mod runner_touch;
pub mod runner_walk;
pub mod runner_copy;
