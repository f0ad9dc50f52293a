//! The elements of a structure and the stiffness that each brings to the global matrix.

pub mod beam;
pub mod truss;

use crate::elements::beam::Beam;
use crate::elements::truss::Truss;
use crate::linalg::{coo_entries, coo_in_bounds, coo_shape};
use sparse_matrix::matrix::coo_mat::CooMat;
use vstd::prelude::*;

verus! {

/// An element of a structure.
#[derive(Debug, PartialEq)]
pub enum Element {
    Truss(Truss),
    Beam(Beam),
}

/// The kinds of element.
pub enum ElementType {
    Truss,
    Beam,
}

/// What every element gives to the assembly of a structure.
pub trait ElementTrait {
    /// Whether the element can be placed between the nodes that `nodes` begins with, in a
    /// matrix of `mat_size` rows and columns, for a structure of the given dimension.
    spec fn fits(&self, dimension: u8, mat_size: usize, nodes: Seq<usize>) -> bool;

    /// The stiffness matrix of the element placed there.
    spec fn stiffness(&self, dimension: u8, mat_size: usize, nodes: Seq<usize>) -> Map<
        (int, int),
        u64,
    >;

    /// The stiffness that the element brings to the global matrix.
    fn get_matrix(&self, dimension: u8, mat_size: usize, nodes: &Vec<usize>) -> (k: CooMat)
        requires
            self.fits(dimension, mat_size, nodes@),
        ensures
            coo_shape(k) == (mat_size, mat_size),
            coo_entries(k) == self.stiffness(dimension, mat_size, nodes@),
            coo_in_bounds(k),
    ;
}

impl ElementTrait for Element {
    /// An element takes the first two of `nodes` as its ends and must fit between them.
    open spec fn fits(&self, dimension: u8, mat_size: usize, nodes: Seq<usize>) -> bool {
        nodes.len() >= 2 && match self {
            Element::Truss(truss) => truss.fits(dimension, mat_size, nodes[0], nodes[1]),
            Element::Beam(beam) => beam.fits(dimension, mat_size, nodes[0], nodes[1]),
        }
    }

    open spec fn stiffness(&self, dimension: u8, mat_size: usize, nodes: Seq<usize>) -> Map<
        (int, int),
        u64,
    > {
        match self {
            Element::Truss(truss) => truss.stiffness(dimension, nodes[0], nodes[1]),
            Element::Beam(beam) => beam.stiffness(mat_size, nodes[0], nodes[1]),
        }
    }

    fn get_matrix(&self, dimension: u8, mat_size: usize, nodes: &Vec<usize>) -> (k: CooMat) {
        match self {
            Element::Truss(truss) => truss.get_matrix(dimension, mat_size, nodes[0], nodes[1]),
            Element::Beam(beam) => beam.get_matrix(dimension, mat_size, nodes[0], nodes[1]),
        }
    }
}

} // verus!
