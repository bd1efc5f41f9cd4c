//! Renders a tree of application folders into Argo CD projects and applications.

pub mod app_project;
pub mod asked;
pub mod config;
pub mod convert;
pub mod error;
pub mod filters;
pub mod folder;
pub mod gathered;
pub mod held;
pub mod json;
pub mod laws;
pub mod names;
pub mod order;
pub mod path;
pub mod processor;
pub mod runs;
pub mod sorted_map;
pub mod steps;
pub mod targets;
pub mod template;
pub mod text;
pub mod unique;
pub mod written;
