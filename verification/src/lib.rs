//! Rewrites an already-tokenized Japanese sentence so its final predicates
//! switch register between plain (dictionary/"da") style and polite
//! ("desu"/"masu") style.
//!
//! The morphological tokenizer and the inflection-table engine are external
//! collaborators behind the traits of [`ports`]; the core only orchestrates
//! them. [`splitter`] groups tokens into clauses at register-sensitive
//! boundaries, [`polite`] and [`plain`] rewrite one clause's final predicate
//! each way, and [`sentence`] runs the whole pipeline clause by clause.
//! [`rules`] supplies an inflection adapter backed by plain rule data.

pub mod peel;
pub mod plain;
pub mod polite;
pub mod ports;
pub mod rules;
pub mod sentence;
pub mod splitter;
pub mod token;
