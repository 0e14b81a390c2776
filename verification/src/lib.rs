//! Verified core of an investment-wallet web application: the Brazilian
//! number formats shown on the dashboard, the error catalogue with its HTTP
//! statuses and public messages, the validation of configuration secrets and
//! the post-action notices.

pub mod text;
pub mod format;
pub mod error;
pub mod config;
pub mod models;
pub mod routes;
