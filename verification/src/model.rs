//! The model of a structure: its degrees of freedom, elements, loads and boundary conditions,
//! and the solution of its equilibrium.

use crate::elements::beam::{Beam, BEAM_TERMS};
use crate::elements::truss::Truss;
use crate::elements::{Element, ElementTrait, ElementType};
use crate::linalg::{
    accumulated, coo_add_assign, coo_applied, coo_apply, coo_clone, coo_columns, coo_dimensions,
    coo_drop_col, coo_drop_row, coo_entries, coo_in_bounds, coo_new, coo_resize, coo_rows,
    coo_shape, no_entries, vector_entries, vector_len, vector_push, vector_set, vector_zeros,
    within,
};
use crate::reduction::{
    expanded, fixed_of, free_count, lemma_free_indices, lemma_free_prefix, lemma_struck,
    lemma_struck_all, lemma_take_step, reduced, reduced_entries, size_after, struck,
};
use sparse_matrix::matrix::coo_mat::CooMat;
use sparse_matrix::vector::Vector;
use vstd::prelude::*;

verus! {

/// Degrees of freedom of a node: one translation along a line; two translations and a
/// rotation in the plane; three translations and three rotations in space.
pub open spec fn degrees_of_freedom_per_node(dimension: u8) -> u8 {
    if dimension == 1 {
        1
    } else if dimension == 2 {
        3
    } else {
        6
    }
}

/// The double that a vector of one entry stands for, by its bit pattern.
pub open spec fn scalar(value: Vector) -> u64 {
    vector_entries(value)[0]
}

/// The boundary conditions by their values: for each degree of freedom the prescribed
/// displacement, if one is prescribed.
pub open spec fn prescribed(conditions: Seq<Option<Vector>>) -> Seq<Option<u64>> {
    Seq::new(
        conditions.len(),
        |i: int|
            match conditions[i] {
                Some(value) => Some(scalar(value)),
                None => None,
            },
    )
}

/// An element as the model keeps it, under the list of nodes that it was registered with.
#[derive(Debug, PartialEq)]
pub struct Member {
    pub nodes: Vec<usize>,
    pub element: Element,
}

impl Member {
    /// Whether the member can stand in a structure of the given dimension with `node_count`
    /// nodes: it joins two different nodes of the structure, and has the terms of its kind.
    /// A beam needs the plane.
    pub open spec fn valid(&self, dimension: u8, node_count: usize) -> bool {
        &&& self.nodes@.len() >= 2
        &&& self.nodes@[0] < node_count
        &&& self.nodes@[1] < node_count
        &&& self.nodes@[0] != self.nodes@[1]
        &&& match self.element {
            Element::Truss(truss) => vector_entries(truss.terms).len() == 2 * dimension
                * dimension,
            Element::Beam(beam) => dimension == 2 && vector_entries(beam.terms).len()
                == BEAM_TERMS,
        }
    }
}

/// The element of the given kind with the given terms.
pub open spec fn element_of(kind: ElementType, terms: Vector) -> Element {
    match kind {
        ElementType::Truss => Element::Truss(Truss { terms }),
        ElementType::Beam => Element::Beam(Beam { terms }),
    }
}

/// Whether some member is registered under `key`.
pub open spec fn is_registered(members: Seq<Member>, key: Seq<usize>) -> bool {
    exists|i: int| 0 <= i < members.len() && #[trigger] members[i].nodes@ == key
}

/// The members after `member` is registered: it takes the place of the member with the same
/// list of nodes, if there is one, and else comes last.
pub open spec fn with_member(members: Seq<Member>, member: Member) -> Seq<Member> {
    if is_registered(members, member.nodes@) {
        members.update(
            choose|i: int| 0 <= i < members.len() && #[trigger] members[i].nodes@ == member.nodes@,
            member,
        )
    } else {
        members.push(member)
    }
}

/// No two members are registered under the same list of nodes.
pub open spec fn distinct_keys(members: Seq<Member>) -> bool {
    forall|i: int, j: int|
        0 <= i < j < members.len() ==> (#[trigger] members[i]).nodes@ != (
        #[trigger] members[j]).nodes@
}

/// The global stiffness matrix: the stiffness of every member, added up in the order of the
/// members, from an empty matrix.
pub open spec fn assembled(members: Seq<Member>, dimension: u8, size: usize) -> Map<
    (int, int),
    u64,
>
    decreases members.len(),
{
    if members.len() == 0 {
        no_entries()
    } else {
        accumulated(
            assembled(members.drop_last(), dimension, size),
            members.last().element.stiffness(dimension, size, members.last().nodes@),
        )
    }
}

/// Why a solve failed.
#[derive(Debug, PartialEq)]
pub enum SolveError<E> {
    /// The solver gave no answer; its own error is kept.
    Solver(E),
    /// The solver gave an answer that has not one entry per free degree of freedom.
    Shape,
}

/// A structure and the state of its solution.
#[derive(Debug, PartialEq)]
pub struct Model {
    /// Number of axes: 1, 2 or 3.
    pub dimension: u8,
    /// Degrees of freedom of each node.
    pub degrees_of_freedom: u8,
    /// Forces, one per degree of freedom: the applied ones before a solve, all of them,
    /// reactions too, after it.
    pub f: Vector,
    /// Displacements, one per degree of freedom.
    pub u: Vector,
    /// The global stiffness matrix.
    pub m: CooMat,
    /// The forces at the free degrees of freedom.
    pub f_r: Vector,
    /// The displacements at the free degrees of freedom.
    pub u_r: Vector,
    /// The stiffness matrix of the free degrees of freedom.
    pub m_r: CooMat,
    /// For each degree of freedom the displacement prescribed for it, as a vector of one
    /// entry, or `None` where it is free.
    pub u_boundary_conditions: Vec<Option<Vector>>,
    /// The elements, each under its list of nodes.
    pub elements: Vec<Member>,
    /// Number of nodes.
    pub nodes: usize,
}

/// The terms of a member fit the matrix of a structure in which the member is valid.
pub proof fn lemma_valid_fits(member: Member, dimension: u8, node_count: usize, size: usize)
    requires
        1 <= dimension <= 3,
        member.valid(dimension, node_count),
        size == node_count * degrees_of_freedom_per_node(dimension),
    ensures
        member.element.fits(dimension, size, member.nodes@),
{
    let x = member.nodes@[0];
    let y = member.nodes@[1];
    if dimension == 1 {
        assert(size == node_count);
    } else if dimension == 2 {
        assert(size == 3 * node_count);
    } else {
        assert(size == 6 * node_count);
    }
    match member.element {
        Element::Truss(truss) => {
            assert(truss.fits(dimension, size, x, y));
        },
        Element::Beam(beam) => {
            assert(beam.fits(dimension, size, x, y));
        },
    }
}

/// A degree of freedom of a node of the structure has its place within the system.
pub proof fn lemma_slot(per_node: int, nodes: int, node: int, field: int)
    requires
        0 <= node < nodes,
        0 <= field < per_node,
    ensures
        0 <= per_node * node + field < per_node * nodes,
        per_node * nodes == nodes * per_node,
{
    assert(per_node * node + per_node <= per_node * nodes) by (nonlinear_arith)
        requires
            0 <= node < nodes,
            0 < per_node,
    ;
    assert(0 <= per_node * node) by (nonlinear_arith)
        requires
            0 <= node,
            0 < per_node,
    ;
    assert(per_node * nodes == nodes * per_node) by (nonlinear_arith);
}

impl Model {
    /// Number of degrees of freedom of the whole structure.
    pub open spec fn size(&self) -> int {
        self.nodes * self.degrees_of_freedom
    }

    /// Which degrees of freedom are prescribed.
    pub open spec fn fixed(&self) -> Seq<bool> {
        fixed_of(prescribed(self.u_boundary_conditions@))
    }

    /// The place in the system of degree of freedom `field` of node `node`.
    pub open spec fn slot(&self, node: usize, field: u8) -> int {
        self.degrees_of_freedom * node + field
    }

    /// What holds of every model between two calls: forces, displacements and boundary
    /// conditions have one entry per degree of freedom, the global matrix is square of that
    /// size and holds nothing outside it, every prescribed displacement is one double, and
    /// the elements are valid and registered under different lists of nodes.
    pub open spec fn well_formed(&self) -> bool {
        &&& 1 <= self.dimension <= 3
        &&& self.degrees_of_freedom == degrees_of_freedom_per_node(self.dimension)
        &&& self.size() <= usize::MAX
        &&& self.u_boundary_conditions@.len() == self.size()
        &&& vector_entries(self.f).len() == self.size()
        &&& vector_entries(self.u).len() == self.size()
        &&& coo_rows(self.m) == self.size()
        &&& coo_columns(self.m) == self.size()
        &&& coo_in_bounds(self.m)
        &&& forall|i: int|
            0 <= i < self.u_boundary_conditions@.len() ==> (
            #[trigger] self.u_boundary_conditions@[i] matches Some(value) ==> vector_entries(
                value,
            ).len() == 1)
        &&& forall|i: int|
            0 <= i < self.elements@.len() ==> (#[trigger] self.elements@[i]).valid(
                self.dimension,
                self.nodes,
            )
        &&& distinct_keys(self.elements@)
    }

    /// An empty structure of the given dimension.
    pub fn new(dim: u8) -> (model: Model)
        requires
            1 <= dim <= 3,
        ensures
            model.well_formed(),
            model.dimension == dim,
            model.nodes == 0,
            model.elements@.len() == 0,
            vector_entries(model.f_r).len() == 0,
            vector_entries(model.u_r).len() == 0,
            coo_shape(model.m_r) == (0usize, 0usize),
            coo_entries(model.m) == no_entries(),
            coo_entries(model.m_r) == no_entries(),
    {
        let dof: u8 = if dim == 1 {
            1
        } else if dim == 2 {
            3
        } else {
            6
        };
        Model {
            dimension: dim,
            degrees_of_freedom: dof,
            f: vector_zeros(0),
            u: vector_zeros(0),
            m: coo_new(0, 0),
            f_r: vector_zeros(0),
            u_r: vector_zeros(0),
            m_r: coo_new(0, 0),
            u_boundary_conditions: Vec::new(),
            elements: Vec::new(),
            nodes: 0,
        }
    }

    /// Adds a node: the system grows by the degrees of freedom of one node, each with no
    /// force, no displacement and no boundary condition. The global matrix grows with it and
    /// keeps its slots.
    pub fn add_node(&mut self) -> (ret: &mut Self)
        requires
            old(self).well_formed(),
            (old(self).nodes + 1) * old(self).degrees_of_freedom <= usize::MAX,
        ensures
            *final(self) == *final(ret),
            ret.well_formed(),
            *ret == (Model {
                nodes: ret.nodes,
                f: ret.f,
                u: ret.u,
                m: ret.m,
                u_boundary_conditions: ret.u_boundary_conditions,
                ..*old(self)
            }),
            ret.nodes == old(self).nodes + 1,
            vector_entries(ret.f) == vector_entries(old(self).f) + Seq::new(
                old(self).degrees_of_freedom as nat,
                |i: int| 0u64,
            ),
            vector_entries(ret.u) == vector_entries(old(self).u) + Seq::new(
                old(self).degrees_of_freedom as nat,
                |i: int| 0u64,
            ),
            ret.u_boundary_conditions@ == old(self).u_boundary_conditions@ + Seq::new(
                old(self).degrees_of_freedom as nat,
                |i: int| None::<Vector>,
            ),
            coo_entries(ret.m) == coo_entries(old(self).m),
    {
        let dof: u8 = self.degrees_of_freedom;
        let ghost before = *self;
        assert((before.nodes + 1) * dof == before.size() + dof) by (nonlinear_arith)
            requires
                before.size() == before.nodes * dof,
        ;
        let zeros = vector_zeros(dof);
        let (rows, columns) = coo_dimensions(&self.m);
        coo_resize(&mut self.m, rows + dof as usize, columns + dof as usize);
        self.nodes = self.nodes + 1;
        let mut k: u8 = 0;
        while k < dof
            invariant
                k <= dof,
                vector_entries(zeros) == Seq::new(dof as nat, |i: int| 0u64),
                vector_entries(self.f) == vector_entries(before.f) + Seq::new(
                    k as nat,
                    |i: int| 0u64,
                ),
                vector_entries(self.u) == vector_entries(before.u) + Seq::new(
                    k as nat,
                    |i: int| 0u64,
                ),
                self.u_boundary_conditions@ == before.u_boundary_conditions@ + Seq::new(
                    k as nat,
                    |i: int| None::<Vector>,
                ),
                *self == (Model {
                    f: self.f,
                    u: self.u,
                    u_boundary_conditions: self.u_boundary_conditions,
                    nodes: self.nodes,
                    m: self.m,
                    ..before
                }),
                self.nodes == before.nodes + 1,
                coo_entries(self.m) == coo_entries(before.m),
                coo_shape(self.m) == ((before.size() + dof) as usize, (before.size() + dof) as usize),
            decreases dof - k,
        {
            vector_push(&mut self.f, &zeros, k as usize);
            vector_push(&mut self.u, &zeros, k as usize);
            self.u_boundary_conditions.push(None);
            k = k + 1;
            assert(vector_entries(self.f) =~= vector_entries(before.f) + Seq::new(
                k as nat,
                |i: int| 0u64,
            ));
            assert(vector_entries(self.u) =~= vector_entries(before.u) + Seq::new(
                k as nat,
                |i: int| 0u64,
            ));
            assert(self.u_boundary_conditions@ =~= before.u_boundary_conditions@ + Seq::new(
                k as nat,
                |i: int| None::<Vector>,
            ));
        }
        self
    }

    /// Prescribes the displacement of degree of freedom `field` of node `node`: the double
    /// that `value` holds.
    pub fn add_u_boundary_condition(&mut self, node: usize, field: u8, value: Vector) -> (ret:
        &mut Self)
        requires
            old(self).well_formed(),
            node < old(self).nodes,
            field < old(self).degrees_of_freedom,
            vector_entries(value).len() == 1,
        ensures
            *final(self) == *final(ret),
            ret.well_formed(),
            *ret == (Model { u_boundary_conditions: ret.u_boundary_conditions, ..*old(self) }),
            ret.u_boundary_conditions@ == old(self).u_boundary_conditions@.update(
                old(self).slot(node, field),
                Some(value),
            ),
    {
        proof {
            lemma_slot(self.degrees_of_freedom as int, self.nodes as int, node as int, field as int);
        }
        let at: usize = self.degrees_of_freedom as usize * node + field as usize;
        self.u_boundary_conditions.set(at, Some(value));
        self
    }

    /// Frees degree of freedom `field` of node `node`.
    pub fn remove_u_boundary_condition(&mut self, node: usize, field: u8) -> (ret: &mut Self)
        requires
            old(self).well_formed(),
            node < old(self).nodes,
            field < old(self).degrees_of_freedom,
        ensures
            *final(self) == *final(ret),
            ret.well_formed(),
            *ret == (Model { u_boundary_conditions: ret.u_boundary_conditions, ..*old(self) }),
            ret.u_boundary_conditions@ == old(self).u_boundary_conditions@.update(
                old(self).slot(node, field),
                None,
            ),
    {
        proof {
            lemma_slot(self.degrees_of_freedom as int, self.nodes as int, node as int, field as int);
        }
        let at: usize = self.degrees_of_freedom as usize * node + field as usize;
        self.u_boundary_conditions.set(at, None);
        self
    }

    /// Sets the force applied at degree of freedom `field` of node `node` to the double that
    /// `value` holds, in place of what was there.
    pub fn set_force(&mut self, node: usize, field: u8, value: Vector) -> (ret: &mut Self)
        requires
            old(self).well_formed(),
            node < old(self).nodes,
            field < old(self).degrees_of_freedom,
            vector_entries(value).len() == 1,
        ensures
            *final(self) == *final(ret),
            ret.well_formed(),
            *ret == (Model { f: ret.f, ..*old(self) }),
            vector_entries(ret.f) == vector_entries(old(self).f).update(
                old(self).slot(node, field),
                scalar(value),
            ),
    {
        proof {
            lemma_slot(self.degrees_of_freedom as int, self.nodes as int, node as int, field as int);
        }
        let at: usize = self.degrees_of_freedom as usize * node + field as usize;
        vector_set(&mut self.f, at, &value, 0);
        self
    }

    /// Registers an element of the given kind between the nodes that `nodes` begins with,
    /// with the given terms. An element already registered under the same list of nodes
    /// gives way to it.
    pub fn add_element(&mut self, element: ElementType, nodes: Vec<usize>, terms: Vector) -> (ret:
        &mut Self)
        requires
            old(self).well_formed(),
            (Member { nodes, element: element_of(element, terms) }).valid(
                old(self).dimension,
                old(self).nodes,
            ),
        ensures
            *final(self) == *final(ret),
            ret.well_formed(),
            *ret == (Model { elements: ret.elements, ..*old(self) }),
            ret.elements@ == with_member(
                old(self).elements@,
                Member { nodes, element: element_of(element, terms) },
            ),
    {
        let made = match element {
            ElementType::Truss => Element::Truss(Truss { terms }),
            ElementType::Beam => Element::Beam(Beam { terms }),
        };
        let member = Member { nodes, element: made };
        let ghost model = *self;
        let ghost before = self.elements@;
        let mut i: usize = 0;
        while i < self.elements.len()
            invariant
                i <= self.elements@.len(),
                *self == model,
                model == *old(self),
                model.well_formed(),
                before == model.elements@,
                member == (Member { nodes, element: element_of(element, terms) }),
                member.valid(model.dimension, model.nodes),
                forall|j: int| 0 <= j < i ==> (#[trigger] before[j]).nodes@ != member.nodes@,
            decreases self.elements@.len() - i,
        {
            if same_nodes(&self.elements[i].nodes, &member.nodes) {
                proof {
                    assert(before[i as int].nodes@ == member.nodes@);
                    assert(is_registered(before, member.nodes@));
                    let found = choose|k: int|
                        0 <= k < before.len() && #[trigger] before[k].nodes@ == member.nodes@;
                    assert(found == i) by {
                        if found < i {
                            assert(before[found].nodes@ != before[i as int].nodes@);
                        } else if i < found {
                            assert(before[i as int].nodes@ != before[found].nodes@);
                        }
                    }
                }
                self.elements.set(i, member);
                proof {
                    let after = self.elements@;
                    assert forall|a: int, b: int| 0 <= a < b < after.len() implies (
                    #[trigger] after[a]).nodes@ != (#[trigger] after[b]).nodes@ by {
                        assert(before[a].nodes@ != before[b].nodes@);
                    }
                }
                return self;
            }
            i = i + 1;
        }
        proof {
            assert(!is_registered(before, member.nodes@));
        }
        self.elements.push(member);
        proof {
            let after = self.elements@;
            assert forall|a: int, b: int| 0 <= a < b < after.len() implies (
            #[trigger] after[a]).nodes@ != (#[trigger] after[b]).nodes@ by {
                if b < before.len() {
                    assert(before[a].nodes@ != before[b].nodes@);
                } else {
                    assert(before[a].nodes@ != member.nodes@);
                }
            }
        }
        self
    }

    /// Strikes the prescribed degrees of freedom out of the system: the reduced matrix keeps
    /// the slots of the global matrix that lie in a free row and a free column, and the
    /// reduced forces keep the forces at the free degrees of freedom, both in ascending order
    /// of the degrees of freedom.
    pub fn reduce(&mut self) -> (ret: &mut Self)
        requires
            old(self).well_formed(),
        ensures
            *final(self) == *final(ret),
            ret.well_formed(),
            *ret == (Model { m_r: ret.m_r, f_r: ret.f_r, ..*old(self) }),
            coo_rows(ret.m_r) == free_count(old(self).fixed()),
            coo_columns(ret.m_r) == free_count(old(self).fixed()),
            coo_entries(ret.m_r) == reduced_entries(old(self).fixed(), coo_entries(old(self).m)),
            coo_in_bounds(ret.m_r),
            vector_entries(ret.f_r) == reduced(old(self).fixed(), vector_entries(old(self).f)),
    {
        let ghost fixed = self.fixed();
        let ghost e = coo_entries(self.m);
        let ghost forces = vector_entries(self.f);
        let n: usize = self.u_boundary_conditions.len();
        let mut m_r = coo_clone(&self.m);
        let mut f_r = vector_zeros(0);
        let mut j: usize = 0;
        let mut i: usize = 0;
        proof {
            assert(fixed.take(0) =~= Seq::<bool>::empty());
            assert(vector_entries(f_r) =~= reduced(fixed.take(0), forces));
        }
        while i < n
            invariant
                i <= n,
                n == fixed.len(),
                n == self.u_boundary_conditions@.len(),
                fixed == self.fixed(),
                forces == vector_entries(self.f),
                forces.len() == n,
                within(e, n as int, n as int),
                j == free_count(fixed.take(i as int)),
                coo_rows(m_r) == size_after(fixed, i as int),
                coo_columns(m_r) == size_after(fixed, i as int),
                coo_entries(m_r) == struck(fixed, e, i as nat),
                vector_entries(f_r) == reduced(fixed.take(i as int), forces),
            decreases n - i,
        {
            proof {
                lemma_struck(fixed, e, i as nat);
                lemma_take_step(fixed, i as int);
                lemma_free_indices(fixed.take(i as int));
                lemma_free_indices(fixed.take(i + 1));
            }
            if self.u_boundary_conditions[i].is_some() {
                let (rows, columns) = coo_dimensions(&m_r);
                coo_drop_row(&mut m_r, j);
                coo_drop_col(&mut m_r, j);
                coo_resize(&mut m_r, rows - 1, columns - 1);
                proof {
                    assert(vector_entries(f_r) =~= reduced(fixed.take(i + 1), forces));
                }
            } else {
                vector_push(&mut f_r, &self.f, i);
                j = j + 1;
                proof {
                    assert(vector_entries(f_r) =~= reduced(fixed.take(i + 1), forces));
                }
            }
            i = i + 1;
        }
        proof {
            assert(fixed.take(n as int) =~= fixed);
            lemma_struck_all(fixed, e);
        }
        self.m_r = m_r;
        self.f_r = f_r;
        self
    }

    /// Rebuilds the full displacements from the reduced ones: each prescribed degree of
    /// freedom gets its prescribed displacement, and the free ones get the reduced
    /// displacements in order.
    pub fn developp(&mut self) -> (ret: &mut Self)
        requires
            old(self).well_formed(),
            free_count(old(self).fixed()) <= vector_entries(old(self).u_r).len(),
        ensures
            *final(self) == *final(ret),
            ret.well_formed(),
            *ret == (Model { u: ret.u, ..*old(self) }),
            vector_entries(ret.u) == expanded(
                prescribed(old(self).u_boundary_conditions@),
                vector_entries(old(self).u_r),
            ),
    {
        let ghost fixed = self.fixed();
        let ghost conditions = prescribed(self.u_boundary_conditions@);
        let ghost answer = vector_entries(self.u_r);
        let ghost before = *self;
        let n: usize = self.u_boundary_conditions.len();
        let mut j: usize = 0;
        let mut i: usize = 0;
        while i < n
            invariant
                i <= n,
                n == fixed.len(),
                before.well_formed(),
                *self == (Model { u: self.u, ..before }),
                fixed == before.fixed(),
                conditions == prescribed(before.u_boundary_conditions@),
                answer == vector_entries(before.u_r),
                free_count(fixed) <= answer.len(),
                j == free_count(fixed.take(i as int)),
                vector_entries(self.u).len() == n,
                forall|k: int|
                    0 <= k < i ==> vector_entries(self.u)[k] == expanded(conditions, answer)[k],
            decreases n - i,
        {
            proof {
                lemma_take_step(fixed, i as int);
                lemma_free_indices(fixed.take(i as int));
                lemma_free_prefix(fixed, i + 1);
            }
            match &self.u_boundary_conditions[i] {
                Some(value) => {
                    vector_set(&mut self.u, i, value, 0);
                },
                None => {
                    vector_set(&mut self.u, i, &self.u_r, j);
                    j = j + 1;
                },
            }
            i = i + 1;
        }
        assert(vector_entries(self.u) =~= expanded(conditions, answer));
        self
    }

    /// Assembles the global stiffness matrix anew: into an empty matrix of the size of the
    /// system, the stiffness of every element, in the order of the elements.
    pub fn assemble(&mut self) -> (ret: &mut Self)
        requires
            old(self).well_formed(),
        ensures
            *final(self) == *final(ret),
            ret.well_formed(),
            *ret == (Model { m: ret.m, ..*old(self) }),
            coo_entries(ret.m) == assembled(
                old(self).elements@,
                old(self).dimension,
                old(self).size() as usize,
            ),
    {
        let ghost before = *self;
        let (size, _) = coo_dimensions(&self.m);
        let mut m = coo_new(size, size);
        let mut i: usize = 0;
        proof {
            assert(before.elements@.take(0) =~= Seq::<Member>::empty());
        }
        while i < self.elements.len()
            invariant
                i <= self.elements@.len(),
                *self == before,
                before.well_formed(),
                size == before.size(),
                coo_shape(m) == (size, size),
                coo_in_bounds(m),
                coo_entries(m) == assembled(before.elements@.take(i as int), before.dimension, size),
            decreases self.elements@.len() - i,
        {
            proof {
                lemma_valid_fits(before.elements@[i as int], before.dimension, before.nodes, size);
                assert(before.elements@.take(i + 1).drop_last() =~= before.elements@.take(
                    i as int,
                ));
            }
            let k = self.elements[i].element.get_matrix(
                self.dimension,
                size,
                &self.elements[i].nodes,
            );
            coo_add_assign(&mut m, k);
            i = i + 1;
        }
        proof {
            assert(before.elements@.take(i as int) =~= before.elements@);
        }
        self.m = m;
        self
    }

    /// What `finish` makes of the answer of a solver. Without an answer, or with an answer
    /// that has not one entry per free degree of freedom, the model stays as it was and the
    /// failure is reported. Else the answer becomes the reduced displacements, the full
    /// displacements are rebuilt from it and the boundary conditions, and the forces become
    /// the product of the global matrix with the full displacements.
    pub open spec fn finished<E>(
        before: Model,
        answer: Result<Vector, E>,
        after: Model,
        result: Result<(), SolveError<E>>,
    ) -> bool {
        match answer {
            Err(e) => after == before && result == Err::<(), SolveError<E>>(SolveError::Solver(e)),
            Ok(reduced_u) => if vector_entries(reduced_u).len() != free_count(before.fixed()) {
                after == before && result == Err::<(), SolveError<E>>(SolveError::Shape)
            } else {
                &&& result == Ok::<(), SolveError<E>>(())
                &&& after == (Model { u_r: reduced_u, u: after.u, f: after.f, ..before })
                &&& vector_entries(after.u) == expanded(
                    prescribed(before.u_boundary_conditions@),
                    vector_entries(reduced_u),
                )
                &&& vector_entries(after.f) == coo_applied(
                    before.size() as usize,
                    coo_entries(before.m),
                    vector_entries(after.u),
                )
            },
        }
    }

    /// Takes the answer of the solver for the reduced system and completes the solution.
    pub fn finish<E>(&mut self, answer: Result<Vector, E>) -> (result: Result<(), SolveError<E>>)
        requires
            old(self).well_formed(),
        ensures
            final(self).well_formed(),
            Self::finished(*old(self), answer, *final(self), result),
    {
        match answer {
            Err(e) => Err(SolveError::Solver(e)),
            Ok(reduced_u) => {
                let mut free: usize = 0;
                let mut i: usize = 0;
                let n: usize = self.u_boundary_conditions.len();
                let ghost fixed = self.fixed();
                proof {
                    assert(fixed.take(0) =~= Seq::<bool>::empty());
                }
                while i < n
                    invariant
                        i <= n,
                        n == fixed.len(),
                        n == self.u_boundary_conditions@.len(),
                        fixed == self.fixed(),
                        free == free_count(fixed.take(i as int)),
                    decreases n - i,
                {
                    proof {
                        lemma_take_step(fixed, i as int);
                        lemma_free_indices(fixed.take(i as int));
                    }
                    if self.u_boundary_conditions[i].is_none() {
                        free = free + 1;
                    }
                    i = i + 1;
                }
                proof {
                    assert(fixed.take(n as int) =~= fixed);
                }
                if vector_len(&reduced_u) != free {
                    return Err(SolveError::Shape);
                }
                self.u_r = reduced_u;
                self.developp();
                match coo_apply(&self.m, &self.u) {
                    Some(forces) => {
                        self.f = forces;
                        Ok(())
                    },
                    None => Err(SolveError::Shape),
                }
            },
        }
    }

    /// Solves the equilibrium of the structure with the given solver.
    ///
    /// The global matrix is assembled anew and the system is reduced to its free degrees of
    /// freedom. The solver gets the reduced matrix and the reduced forces, and what it
    /// answers goes to `finish`.
    pub fn solve<S, E>(&mut self, solver: S) -> (result: Result<(), SolveError<E>>) where
        S: FnOnce(&CooMat, &Vector) -> Result<Vector, E>,

        requires
            old(self).well_formed(),
            forall|a: &CooMat, b: &Vector| solver.requires((a, b)),
        ensures
            final(self).well_formed(),
            coo_entries(final(self).m) == assembled(
                old(self).elements@,
                old(self).dimension,
                old(self).size() as usize,
            ),
            coo_rows(final(self).m_r) == free_count(old(self).fixed()),
            coo_columns(final(self).m_r) == free_count(old(self).fixed()),
            coo_entries(final(self).m_r) == reduced_entries(
                old(self).fixed(),
                coo_entries(final(self).m),
            ),
            vector_entries(final(self).f_r) == reduced(
                old(self).fixed(),
                vector_entries(old(self).f),
            ),
            exists|answer: Result<Vector, E>|
                solver.ensures((&final(self).m_r, &final(self).f_r), answer) && Self::finished(
                    Model {
                        m: final(self).m,
                        m_r: final(self).m_r,
                        f_r: final(self).f_r,
                        ..*old(self)
                    },
                    answer,
                    *final(self),
                    result,
                ),
    {
        self.assemble();
        self.reduce();
        let ghost staged = *self;
        let answer = solver(&self.m_r, &self.f_r);
        let result = self.finish(answer);
        proof {
            assert(solver.ensures((&self.m_r, &self.f_r), answer) && Self::finished(
                staged,
                answer,
                *self,
                result,
            ));
        }
        result
    }
}

/// After a solve that succeeded, every prescribed degree of freedom has exactly the
/// displacement prescribed for it.
pub proof fn solved_keeps_prescribed<E>(before: Model, answer: Result<Vector, E>, after: Model)
    requires
        Model::finished(before, answer, after, Ok::<(), SolveError<E>>(())),
    ensures
        vector_entries(after.u).len() == before.u_boundary_conditions@.len(),
        forall|k: int|
            0 <= k < before.u_boundary_conditions@.len() ==> (
            #[trigger] before.u_boundary_conditions@[k] matches Some(value) ==> vector_entries(
                after.u,
            )[k] == scalar(value)),
{
    let conditions = prescribed(before.u_boundary_conditions@);
    assert forall|k: int| 0 <= k < before.u_boundary_conditions@.len() implies (
    #[trigger] before.u_boundary_conditions@[k] matches Some(value) ==> vector_entries(after.u)[k]
        == scalar(value)) by {
        assert(conditions[k] == match before.u_boundary_conditions@[k] {
            Some(value) => Some(scalar(value)),
            None => None,
        });
    }
}

/// Whether two lists of nodes are the same.
fn same_nodes(a: &Vec<usize>, b: &Vec<usize>) -> (same: bool)
    ensures
        same == (a@ == b@),
{
    if a.len() != b.len() {
        return false;
    }
    let mut i: usize = 0;
    while i < a.len()
        invariant
            i <= a@.len(),
            a@.len() == b@.len(),
            forall|k: int| 0 <= k < i ==> a@[k] == b@[k],
        decreases a@.len() - i,
    {
        if a[i] != b[i] {
            return false;
        }
        i = i + 1;
    }
    assert(a@ =~= b@);
    true
}

} // verus!
