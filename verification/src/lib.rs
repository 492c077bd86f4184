//! The query, time, rendering and digest logic of a filesystem SIEM's control
//! program, with its behaviour stated in contracts.
pub mod text;
pub mod number;
pub mod order;
pub mod collections;
pub mod db;
pub mod query_lexer;
pub mod paths;
pub mod calendar;
pub mod time;
pub mod window;
pub mod raw_files;
pub mod query;
pub mod query_parser;
pub mod json;
pub mod render;
pub mod query_eval;
pub mod groups;
pub mod alerts;
pub mod normconfig;
pub mod sources;
pub mod flags;
pub mod options;
pub mod figures;
pub mod status;
pub mod tail;
pub mod trend;
pub mod digest_query;
pub mod digest;
pub mod digest_auth;
pub mod digest_alerts;
pub mod digest_notable;
pub mod digest_render;
pub mod digest_config;
pub mod stats;
pub mod buckets;
pub mod retention;
pub mod dry_run;
pub mod validate;
pub mod sql;
pub mod text_laws;
pub mod order_laws;
pub mod query_laws;
pub mod sql_laws;
pub mod search_laws;
pub mod render_laws;
pub mod alerts_laws;
pub mod config_laws;
pub mod option_laws;
pub mod time_laws;
pub mod report_laws;
pub mod digest_query_laws;
pub mod digest_laws;
pub mod digest_event_laws;
pub mod digest_render_laws;
pub mod upkeep_laws;
pub mod validate_laws;
