//! Persisted entity graph of typed property bags, kept in step with a live
//! runtime through an ordered queue of deferred commands.

pub mod error;
pub mod util;
pub mod property;
pub mod registry;
pub mod entity;
pub mod tables;
pub mod identity;
pub mod scene;
pub mod commands;
pub mod library;
pub mod display;
pub mod editor;
pub mod mode;
pub mod ui;
pub mod assets;
