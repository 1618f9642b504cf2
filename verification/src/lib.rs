//! A local type-inference engine for a block-structured intermediate
//! representation: a function body is a graph of basic blocks whose
//! operations produce values, each value carrying a possibly still-unknown
//! type. The engine propagates constraints, by pairwise unification of
//! types, until every value's type is resolved as far as the constraints
//! permit, or reports that the program is ill-typed.

pub mod driver;
pub mod err;
pub mod fixpoint;
pub mod ir;
pub mod passes;
pub mod ty;
