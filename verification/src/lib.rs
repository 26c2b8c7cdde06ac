//! The verified core of a read-only Git review pane.
#![allow(unused_imports)]

pub mod app;
pub mod base64;
pub mod behavior;
pub mod cache;
pub mod changes;
pub mod clipboard;
pub mod command;
pub mod context;
pub mod diff;
pub mod diff_view;
pub mod event_loop;
pub mod geometry;
pub mod git;
pub mod herdr;
pub mod highlight;
pub mod input;
pub mod json;
pub mod laws;
pub mod lines;
pub mod model;
pub mod navigation;
pub mod numbers;
pub mod path;
pub mod picker;
pub mod program;
pub mod project;
pub mod scrollbar;
pub mod session;
pub mod source;
pub mod state;
pub mod style;
pub mod tasks;
pub mod text;
pub mod view;
pub mod watch;
pub mod width;
pub mod worker;
pub mod workspace;
