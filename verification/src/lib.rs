//! The decision logic of a Lambda cold/warm start benchmark: which functions make
//! up the matrix, how they are named, how often each is invoked, how a measurement
//! is accepted or retried, what is read out of a report, and what is provisioned
//! and torn down around it.
pub mod archive;
pub mod artifact;
pub mod build_rules;
pub mod cell;
pub mod clock;
pub mod codec;
pub mod config;
pub mod count_laws;
pub mod decision_rules;
pub mod deploy;
pub mod deploy_rules;
pub mod json;
pub mod lambda;
pub mod laws;
pub mod matrix;
pub mod matrix_rules;
pub mod payload;
pub mod plan;
pub mod platform;
pub mod provision;
pub mod rate_limiter;
pub mod record;
pub mod reply_rules;
pub mod report;
pub mod report_laws;
pub mod report_rules;
pub mod run;
pub mod run_laws;
pub mod run_rules;
pub mod sample;
pub mod sample_rules;
pub mod scenario;
pub mod select;
pub mod selection_rules;
pub mod synthetic;
pub mod target_rules;
pub mod targets;
pub mod teardown;
pub mod text;
pub mod text_lemmas;
pub mod text_rules;
pub mod view_rules;
pub mod wiring_rules;
pub mod workload_rules;
