//! Symmetry of stiffness matrices.
//!
//! A matrix is symmetric here when mirrored slots hold the same bit pattern. The sum of two
//! doubles is the same whichever way mirrored slots are added, so symmetry passes from the
//! elements to the global matrix and on to the reduced one. It starts with the terms: those
//! of a beam along its own axis are symmetric as they are laid out; those of a truss are
//! where the caller made `k * c[i] * c[j]` and `k * c[j] * c[i]` the same double. Nothing is
//! said of a beam after its rotation, which is a product of doubles.

use crate::elements::beam::{local, pattern, pattern_entries, stiffness_pattern};
use crate::elements::truss::{
    axis_of, in_block, truss_entries, truss_offset, truss_slot, truss_term,
};
use crate::elements::{Element, ElementTrait};
use crate::linalg::{accumulated, vector_entries};
use crate::model::{assembled, Member, Model};
use crate::reduction::{free_indices, reduced_entries};
use vstd::prelude::*;

verus! {

/// Mirrored slots are occupied together and hold the same.
pub open spec fn symmetric(e: Map<(int, int), u64>) -> bool {
    forall|k: (int, int)| #[trigger]
        e.contains_key(k) ==> e.contains_key((k.1, k.0)) && e[(k.1, k.0)] == e[k]
}

/// The term of a truss for the pair of axes `(i, j)`: the positive one, or the negative one.
pub open spec fn pair_term(axes: int, terms: Seq<u64>, negative: bool, i: int, j: int) -> u64 {
    if negative {
        terms[axes * axes + i * axes + j]
    } else {
        terms[i * axes + j]
    }
}

/// The terms of a truss are the same for `(i, j)` and `(j, i)`.
pub open spec fn symmetric_terms(axes: int, terms: Seq<u64>) -> bool {
    forall|negative: bool, i: int, j: int|
        0 <= i < axes && 0 <= j < axes ==> #[trigger] pair_term(axes, terms, negative, i, j)
            == pair_term(axes, terms, negative, j, i)
}

/// The stiffness matrix of a truss with symmetric terms is symmetric.
pub proof fn truss_stiffness_symmetric(axes: int, ox: int, oy: int, terms: Seq<u64>)
    requires
        1 <= axes,
        ox + axes <= oy || oy + axes <= ox,
        symmetric_terms(axes, terms),
    ensures
        symmetric(truss_entries(axes, ox, oy, terms)),
{
    let e = truss_entries(axes, ox, oy, terms);
    assert forall|k: (int, int)| #[trigger] e.contains_key(k) implies e.contains_key((k.1, k.0))
        && e[(k.1, k.0)] == e[k] by {
        let i = axis_of(axes, ox, oy, k.0);
        let j = axis_of(axes, ox, oy, k.1);
        let negative = in_block(ox, axes, k.0) != in_block(ox, axes, k.1);
        assert(truss_slot(axes, ox, oy, (k.1, k.0)));
        assert(terms[truss_term(axes, ox, oy, k)] == pair_term(axes, terms, negative, i, j));
        assert(terms[truss_term(axes, ox, oy, (k.1, k.0))] == pair_term(
            axes,
            terms,
            negative,
            j,
            i,
        ));
    }
}

/// The stiffness of a beam along its own axis is symmetric, whatever its terms.
pub proof fn beam_local_stiffness_symmetric(ox: int, oy: int, terms: Seq<u64>)
    requires
        ox + 3 <= oy || oy + 3 <= ox,
    ensures
        symmetric(pattern_entries(false, ox, oy, terms)),
{
    reveal(stiffness_pattern);
    let e = pattern_entries(false, ox, oy, terms);
    assert forall|k: (int, int)| #[trigger] e.contains_key(k) implies e.contains_key((k.1, k.0))
        && e[(k.1, k.0)] == e[k] by {
        let p = local(ox, oy, k.0);
        let q = local(ox, oy, k.1);
        assert(0 <= p < 6 && 0 <= q < 6);
        assert(pattern(false, p, q) == pattern(false, q, p));
    }
}

/// Adding a symmetric matrix to a symmetric matrix gives a symmetric matrix.
pub proof fn sum_symmetric(a: Map<(int, int), u64>, b: Map<(int, int), u64>)
    requires
        symmetric(a),
        symmetric(b),
    ensures
        symmetric(accumulated(a, b)),
{
    let e = accumulated(a, b);
    assert forall|k: (int, int)| #[trigger] e.contains_key(k) implies e.contains_key((k.1, k.0))
        && e[(k.1, k.0)] == e[k] by {
        if a.contains_key(k) {
            assert(a.contains_key((k.1, k.0)));
        }
        if b.contains_key(k) {
            assert(b.contains_key((k.1, k.0)));
        }
        if a.contains_key((k.1, k.0)) {
            assert(a.contains_key(((k.1, k.0).1, (k.1, k.0).0)));
        }
        if b.contains_key((k.1, k.0)) {
            assert(b.contains_key(((k.1, k.0).1, (k.1, k.0).0)));
        }
    }
}

/// The global stiffness matrix of elements whose stiffness matrices are symmetric is
/// symmetric.
pub proof fn assembled_symmetric(members: Seq<Member>, dimension: u8, size: usize)
    requires
        forall|i: int|
            0 <= i < members.len() ==> symmetric(
                (#[trigger] members[i]).element.stiffness(dimension, size, members[i].nodes@),
            ),
    ensures
        symmetric(assembled(members, dimension, size)),
    decreases members.len(),
{
    if members.len() > 0 {
        let rest = members.drop_last();
        assert forall|i: int| 0 <= i < rest.len() implies symmetric(
            (#[trigger] rest[i]).element.stiffness(dimension, size, rest[i].nodes@),
        ) by {
            assert(rest[i] == members[i]);
        }
        assembled_symmetric(rest, dimension, size);
        let last = members.last();
        assert(last == members[members.len() - 1]);
        sum_symmetric(
            assembled(rest, dimension, size),
            last.element.stiffness(dimension, size, last.nodes@),
        );
    }
}

/// The reduced matrix of a symmetric matrix is symmetric.
pub proof fn reduced_symmetric(fixed: Seq<bool>, e: Map<(int, int), u64>)
    requires
        symmetric(e),
    ensures
        symmetric(reduced_entries(fixed, e)),
{
    let r = reduced_entries(fixed, e);
    let free = free_indices(fixed);
    assert forall|k: (int, int)| #[trigger] r.contains_key(k) implies r.contains_key((k.1, k.0))
        && r[(k.1, k.0)] == r[k] by {
        assert(e.contains_key((free[k.0], free[k.1])));
    }
}

/// The global stiffness matrix of a structure of trusses with symmetric terms is symmetric,
/// and so is its reduced matrix, along one axis, in the plane and in space.
pub proof fn truss_structure_symmetric(model: Model)
    requires
        model.well_formed(),
        forall|i: int|
            0 <= i < model.elements@.len() ==> (
            #[trigger] model.elements@[i].element matches Element::Truss(truss)
                && symmetric_terms(model.dimension as int, vector_entries(truss.terms))),
    ensures
        symmetric(assembled(model.elements@, model.dimension, model.size() as usize)),
        symmetric(
            reduced_entries(
                model.fixed(),
                assembled(model.elements@, model.dimension, model.size() as usize),
            ),
        ),
{
    let members = model.elements@;
    let dimension = model.dimension;
    let size = model.size() as usize;
    assert forall|i: int| 0 <= i < members.len() implies symmetric(
        (#[trigger] members[i]).element.stiffness(dimension, size, members[i].nodes@),
    ) by {
        let member = members[i];
        assert(member.valid(dimension, model.nodes));
        assert(members[i].element is Truss);
        match member.element {
            Element::Truss(truss) => {
                truss_stiffness_symmetric(
                    dimension as int,
                    truss_offset(dimension as int, member.nodes@[0] as int),
                    truss_offset(dimension as int, member.nodes@[1] as int),
                    vector_entries(truss.terms),
                );
            },
            Element::Beam(beam) => {},
        }
    }
    assembled_symmetric(members, dimension, size);
    reduced_symmetric(model.fixed(), assembled(members, dimension, size));
}

} // verus!
