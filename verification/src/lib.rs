//! A small calculator library: tokens, expression trees, two parsers,
//! evaluator front ends, a command processor with undo and redo, a mediator
//! that routes calculator events, and configuration values.
pub mod token;
pub mod numeral;
pub mod variables;
pub mod expression;
pub mod parser;
pub mod template;
pub mod command;
pub mod config;
pub mod mediator;
