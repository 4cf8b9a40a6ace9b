pub mod analytics;
pub mod api;
pub mod auth;
pub mod clock;
pub mod config;
pub mod draft;
pub mod error;
pub mod ids;
pub mod inbox;
pub mod json;
pub mod ledger;
pub mod lists;
pub mod mailbox;
pub mod platform;
pub mod providers;
pub mod publish;
pub mod queue;
pub mod rank;
pub mod records;
pub mod runner;
pub mod scheduler;
pub mod settings;
pub mod status;
pub mod template;
pub mod text;
