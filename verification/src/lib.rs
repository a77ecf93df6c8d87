use vstd::prelude::*;

pub mod analysis;
pub mod binding;
pub mod combinator;
pub mod converter;
pub mod domain;
pub mod expr_parser;
pub mod expression;
pub mod graph;
pub mod integer;
pub mod matching;
pub mod module;
pub mod module_parser;
pub mod names;
pub mod parser;
pub mod program;
pub mod replacement;
pub mod rule;
pub mod rule_parser;
pub mod sort_resolution;
pub mod term;
pub mod term_order;
pub mod term_store;
pub mod text;
pub mod type_behavior;
pub mod type_def;
pub mod type_system;
