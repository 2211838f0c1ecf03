//! A small library for building agent workflows.
//!
//! Agents are registered into a [`Workflow`] by name, wired together with
//! default edges, and executed by a [`Runner`] that interprets the
//! [`Outcome`] each agent returns: proceed along the default edge, jump to
//! a named step, retry, wait and retry, finish, or fail.

mod agent;
mod ctx;
mod json;
mod parse;
mod runner;
mod text;
mod workflow;

pub use agent::Agent;
pub use agent::Outcome;
pub use agent::OutcomeView;
pub use agent::RetryHint;
pub use agent::StepError;
pub use agent::StepErrorView;
pub use agent::StepResult;
pub use agent::error_text;
pub use ctx::Ctx;
pub use ctx::CtxView;
pub use ctx::LlmConfig;
pub use ctx::LlmConfigView;
pub use ctx::LlmRequestBuilder;
pub use ctx::LlmRequestView;
pub use ctx::Provider;
pub use ctx::content_or_missing;
pub use ctx::response_content;
pub use json::anthropic_content_of;
pub use json::first_json_rendering;
pub use json::ollama_content_of;
pub use json::openai_content_of;
pub use parse::cleaned_line;
pub use parse::extract_json;
pub use parse::first_opener;
pub use parse::has_json_opener;
pub use parse::json_candidate;
pub use parse::parse_lines;
pub use parse::parsed_lines;
pub use parse::rendered_or_invalid;
pub use parse::split_lines;
pub use parse::strip_code_fences;
pub use parse::stripped_fences;
pub use parse::trimmed;
pub use runner::ErrorEvent;
pub use runner::ErrorEventView;
pub use runner::ErrorHook;
pub use runner::ReplyView;
pub use runner::RunLog;
pub use runner::RunState;
pub use runner::Runner;
pub use runner::Sleeper;
pub use runner::StepEvent;
pub use runner::StepEventView;
pub use runner::StepHook;
pub use runner::is_retry_reply;
pub use runner::lemma_jump_resets_retries;
pub use runner::lemma_proceed_resets_retries;
pub use runner::lemma_proceed_without_edge_fails;
pub use runner::lemma_retry_budget_exhausted;
pub use runner::lemma_retry_retry_finish;
pub use runner::no_default_msg;
pub use runner::reply_of;
pub use runner::result_view;
pub use runner::retry_exceeded_msg;
pub use runner::run_from;
pub use runner::run_model;
pub use runner::step_budget_msg;
pub use runner::unknown_step_msg;
pub use runner::wait_exceeded_msg;
pub use text::ends_with_seq;
pub use text::matches_suffix;
pub use text::str_eq;
pub use text::strip_stars;
pub use text::to_decimal;
pub use workflow::Workflow;
pub use workflow::WorkflowBuilder;
pub use workflow::WorkflowBuilderView;
pub use workflow::WorkflowError;
pub use workflow::WorkflowErrorView;
pub use workflow::WorkflowView;
pub use workflow::drop_source;
pub use workflow::edge_target;
pub use workflow::empty_builder;
pub use workflow::first_src_match;
pub use workflow::first_unknown_target;
pub use workflow::fold_register;
pub use workflow::lemma_duplicate_always_rejected;
pub use workflow::lemma_first_registered_is_start;
pub use workflow::spec_build;
pub use workflow::spec_register;
pub use workflow::spec_start_at;
pub use workflow::spec_then;
pub use workflow::workflow_error_text;
