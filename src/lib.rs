//! A shell-completion engine: given a declarative description of a command
//! line interface and a partially typed invocation, it computes the ranked
//! candidates that the user could type next.
pub mod text;
pub mod rank;
pub mod model;
pub mod suggest;
pub mod engine;
pub mod cursor;
pub mod request;
