//! TSUNORU: the scheduling-coordination rules of the TSUNORU service, with their contracts.

pub mod text;
pub mod domain;
pub mod storage;
pub mod cloud;
pub mod calendar;
pub mod auth;
pub mod ui;
pub mod worker;
pub mod history;
pub mod series_store;
pub mod server_rules;
pub mod core_bridge;
pub mod browser;
pub mod cloud_flow;
