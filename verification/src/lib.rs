//! Thock: a notes vault that keeps a daily plan in step with calendars, mail
//! and agents.

pub mod agent;
pub mod agent_laws;
pub mod agent_panel;
pub mod apply_laws;
pub mod backlog_laws;
pub mod backlog_panel;
pub mod calendar;
pub mod calendar_laws;
pub mod calendar_service;
pub mod chat_flow;
pub mod chat_laws;
pub mod chat_panel;
pub mod clean;
pub mod context_laws;
pub mod day_plan;
pub mod day_planner_panel;
pub mod digest;
pub mod digest_laws;
pub mod edit_laws;
pub mod elicitation;
pub mod format;
pub mod getting_started;
pub mod gmail;
pub mod gmail_google;
pub mod gmail_service;
pub mod grammar_laws;
pub mod header_laws;
pub mod hosted_agent;
pub mod html;
pub mod html_laws;
pub mod inbox;
pub mod inbox_laws;
pub mod inbox_service;
pub mod json;
pub mod line_laws;
pub mod lines;
pub mod mail_fetch;
pub mod mail_laws;
pub mod marker_laws;
pub mod mime;
pub mod moments;
pub mod naming_laws;
pub mod note_laws;
pub mod order_laws;
pub mod panel_laws;
pub mod path_laws;
pub mod paths;
pub mod plan_laws;
pub mod reconcile;
pub mod service_laws;
pub mod settle;
pub mod sort;
pub mod status_row;
pub mod sync;
pub mod sync_laws;
pub mod synced_line;
pub mod text;
pub mod text_laws;
pub mod thread_laws;
pub mod title_laws;
pub mod toml_file;
pub mod transcript;
pub mod update_laws;
pub mod words;
