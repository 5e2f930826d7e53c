//! A small relational-algebra engine: query plans, a rule-based optimizer
//! pipeline and an evaluator that runs plans against in-memory relations.
//!
//! Every executable function carries a contract over the mathematical
//! models of [`model`] and [`rewrite`], and the laws that relate operators
//! and passes are proved over the same models.
//!
//! Executable code:
//! - [`types`], [`equality`], [`error`]: values, conditions, plans, their
//!   equality, and what can go wrong;
//! - [`table`]: schemas, tables and the catalog of named relations;
//! - [`eval`], [`join`]: the evaluator and its hash join;
//! - [`optimize`]: the pass abstraction, the chain and the five passes;
//! - [`parser`], [`text`], [`source`], [`output`]: plans as parsed, cells as
//!   text, relations from and to delimited text.
//!
//! Models and laws:
//! - [`model`]: what the operators and the evaluation of a plan mean;
//! - [`rewrite`]: what each pass makes of a plan;
//! - [`typing`]: legal plans and their schemas;
//! - [`laws`], [`rename_laws`], [`join_laws`]: laws of the operators;
//! - [`pass_laws`], [`selection_laws`], [`projection_laws`],
//!   [`fusion_laws`], [`pipeline_laws`]: soundness of the passes;
//! - [`lemmas`], [`bags`], [`congruence`], [`views`]: what these proofs share.

pub mod error;
pub mod types;
pub mod equality;
pub mod table;
pub mod eval;
pub mod join;
pub mod optimize;
pub mod parser;
pub mod text;
pub mod source;
pub mod output;
pub mod model;
pub mod rewrite;
pub mod typing;
pub mod laws;
pub mod rename_laws;
pub mod join_laws;
pub mod pass_laws;
pub mod selection_laws;
pub mod projection_laws;
pub mod fusion_laws;
pub mod pipeline_laws;
pub mod lemmas;
pub mod bags;
pub mod congruence;
pub mod views;
