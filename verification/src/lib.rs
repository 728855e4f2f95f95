//! Verified core of the sign-in helper's data store: the records kept in its
//! tables, the table operations, the text formats of import and export, and the
//! decisions that the command line front end takes on them.
pub mod account;
pub mod account_cmd;
pub mod activity;
pub mod app_info;
pub mod app_trait;
pub mod bin_code;
pub mod cli;
pub mod collect;
pub mod config;
pub mod course;
pub mod course_order;
pub mod course_ranking;
pub mod courses_cmd;
pub mod error;
pub mod exclude;
pub mod global_multimap;
pub mod location;
pub mod location_cmd;
pub mod location_info;
pub mod location_text;
pub mod locations_cmd;
pub mod model;
pub mod seqs;
pub mod sign_select;
pub mod store;
pub mod table_map;
pub mod text;
