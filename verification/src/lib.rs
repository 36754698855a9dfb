//! A personal day planner: dated events, to-do tasks, and the keyboard-driven
//! state machine that browses and edits them.

pub mod app;
pub mod calendar;
pub mod date_order;
pub mod form;
pub mod invariants;
pub mod keys;
pub mod planner;
pub mod screen;
pub mod sorting;
pub mod storage;
pub mod text;
