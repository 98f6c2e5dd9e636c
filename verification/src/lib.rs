//! Type-checking core of a compiler front end for a circuit language.
//!
//! Every value carries a visibility (private witness, public input, or
//! compile-time constant) besides its data type.  The checker assigns a
//! fully resolved type to every expression node held by a [`node_interner::NodeInterner`],
//! resolves overloaded integer literals by unification, desugars method
//! calls into plain function calls, and collects structured diagnostics
//! without stopping at the first error.

pub mod check;
pub mod errors;
pub mod expr;
pub mod hir;
pub mod merkle_membership;
pub mod node_interner;
pub mod span;
pub mod stmt;
pub mod types;
