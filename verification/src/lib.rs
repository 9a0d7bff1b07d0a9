//! Intraprocedural integer constant propagation over a low-level
//! three-address intermediate representation.
//!
//! For one function of a program the analysis computes, for every basic
//! block that control reaches, an abstract store: for each name a known
//! constant, `Top` for an unknown value, or `Bottom` for none at all.
//!
//! - [`lir`] is the program model, [`stats`] and [`stats_text`] count its
//!   parts and read such counts from text.
//! - [`lattice`] holds the abstract values, [`store`] the abstract stores,
//!   [`namemap`] and [`text`] the sorted maps and the order of names beneath
//!   them.
//! - [`context`] collects what the analysis of a function knows about the
//!   program, [`transfer`] applies one instruction or call to a store.
//! - [`flow`] states the dataflow equations and their least solution,
//!   [`solver`] computes it by worklist iteration; [`fixpoint`] and
//!   [`progress`] hold the proofs that the iteration ends and what it ends
//!   in.
//! - [`report`] renders the result as text.

pub mod context;
pub mod fixpoint;
pub mod flow;
pub mod lattice;
pub mod lir;
pub mod namemap;
pub mod progress;
pub mod report;
pub mod solver;
pub mod stats;
pub mod stats_text;
pub mod store;
pub mod text;
pub mod transfer;
pub mod variable_order;
