//! Compiles a per-node recomputation rule, declared by the types it reads from
//! its node, its parent and its children, into an access plan over a component
//! store, and runs the rule at one node of a tree against that plan.
//!
//! - `decl`: reading a rule declaration into its three role lists.
//! - `plan`: the combined dependency set, access modes and role indices.
//! - `step`: gathering a node's inputs and dispatching to create or update.

pub mod decl;
pub mod plan;
pub mod step;
