//! The code generator that stands between a compiler of specs and the builders
//! of languages: it finds the builders that a project has configured, passes the
//! compiled schema on to each unread, and signs and writes what they return.
//!
//! A run is a sequence of steps ([`session`]). Each says what to print and what
//! to do outside; the program around the library does it and hands back what
//! came of it ([`mod@run`], [`keep`]). What the steps are made of stands in the
//! other modules, from texts and JSON values up to plans. What holds of runs as
//! a whole stands in [`upkeep`] (one directory), [`tree`] (several, one perhaps
//! within another), [`layout`] (how a project's directories lie), [`course`] and
//! [`rerun`] (what the steps do to them) and [`conduct`] (whatever is answered).
//! What each operation is for stands in [`laws`], said of its inputs and results.
//!
//! Paths are texts, in the manner of Unix: `/` separates components, and a path
//! that begins with it is absolute.

pub mod text;

pub mod json;

pub mod codec;

pub mod signature;

pub mod files;

pub mod protocol;

pub mod request;

pub mod config;

pub mod options;

pub mod plan;

pub mod response;

pub mod session;

pub mod run;

pub mod keep;

pub mod upkeep;

pub mod tree;

pub mod layout;

pub mod course;

pub mod rerun;

pub mod conduct;

pub mod laws;
