//! Watch-update pipeline for marketplace search alerts: URL classification,
//! per-site query translation and listing selection, the item history that
//! suppresses repeated notifications, and the grouping and routing of results.

pub mod command;
pub mod error;
pub mod huutonet;
pub mod itemhistory;
pub mod models;
pub mod pipeline;
pub mod render;
pub mod scheduler;
pub mod text;
pub mod tori;
pub mod tori_models;
pub mod vahti;
