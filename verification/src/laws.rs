//! What the operations of the library are for, said of their inputs and results
//! alone.

pub mod texts;

pub mod values;

pub mod commands;

pub mod projects;

pub mod outputs;

pub mod messages;

pub mod headers;

pub mod steps;

pub mod runs;

pub mod views;

pub mod trees;
