//! How platforms are reached: the terms every integration speaks, which one serves
//! an account, and what each of them sends and reads.
pub mod bluesky;
pub mod composio;
pub mod encoding;
pub mod fake;
pub mod registry;
pub mod treg;
pub mod types;
