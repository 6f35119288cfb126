//! Heuristic query-plan rewriting kernel.
//!
//! A logical query plan is held as a mutable plan graph ([`graph::HepGraph`]).
//! Declarative patterns ([`pattern::Pattern`]) describe shapes of sub-plans;
//! the matcher ([`matcher::HepMatcher`]) decides whether a pattern matches at
//! a given node, and the batch scheduler ([`batch`]) repeatedly applies
//! rewrite rules over the graph until a fixed point is reached or an
//! iteration cap is exhausted.

pub mod batch;
pub mod graph;
pub mod matcher;
pub mod operator;
pub mod pattern;
pub mod plan;
