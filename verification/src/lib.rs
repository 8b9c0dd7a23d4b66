//! Build-status bars for CI pipelines: the polling scheduler, the bar
//! animation model, the GitHub-workflow / CodePipeline linkage, the
//! configuration rules and the pure parts of the pollers and the UI.
pub mod clock;
pub mod text;
pub mod model;
pub mod poll_scheduler;
pub mod linkage;
pub mod config;
pub mod poller;
pub mod app;
pub mod orchestrator;
pub mod ui;
