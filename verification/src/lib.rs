//! Linear static analysis of skeletal structures: trusses and beams joined at nodes.
//!
//! The crate assembles the global stiffness matrix of a model from the stiffness terms of
//! its elements, strikes the prescribed degrees of freedom out of the system, hands the
//! remaining system to a linear solver of the caller's choice, and rebuilds the full
//! displacement and force vectors from the answer.
//!
//! Numbers are doubles held by the vectors and matrices of the `sparse_matrix` crate. The
//! crate never computes with a double itself: it decides where each one goes, and leaves
//! sums and products to `sparse_matrix`. A caller hands a single double over as a vector of
//! one entry, and the stiffness terms of an element as a vector laid out as the element
//! documents. In contracts a double is spoken of by its bit pattern.
//!
//! - [`linalg`]: the vectors and matrices of `sparse_matrix`, with the contracts that the
//!   rest is proved against.
//! - [`elements`]: the truss and the beam, and where each puts its terms.
//! - [`reduction`]: the free and the prescribed degrees of freedom, and the proof that
//!   expanding undoes reducing.
//! - [`model`]: the model, its assembly and its solution.
//! - [`symmetry`]: symmetry of the matrices, from the elements to the reduced system.

pub mod elements;
pub mod linalg;
pub mod model;
pub mod reduction;
pub mod symmetry;
