//! A line-oriented command interpreter core: a parser that turns a line into
//! pipeline stages, and a step machine that decides how the stages are run.
pub mod directive;
pub mod line;
pub mod render;
pub mod built_ins;
pub mod execution;
pub mod prompt;
