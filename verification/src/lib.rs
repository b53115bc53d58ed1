pub mod text;
pub mod sorting;
pub mod assoc;
pub mod domains;
pub mod seqs;
pub mod runtime_core;
pub mod static_routes;
pub mod state_layout;
pub mod provider_health;
pub mod discovery;
pub mod doctor;
pub mod messaging_app;
pub mod cli_args;
pub mod host;
pub mod runtime_store;
pub mod bundle_setup;
pub mod messaging_dto;
pub mod runtime_reports;
pub mod outcomes;
pub mod hooks;
pub mod operations;
pub mod egress;
pub mod qa_form;
pub mod subscriptions;
pub mod keyed_index;
pub mod session_index;
pub mod store_updates;
pub mod runtime_status;
pub mod logs;
pub mod provider_select;
pub mod state_promotion;
pub mod health_payloads;
