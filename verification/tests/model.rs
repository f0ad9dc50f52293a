use skeletal::elements::{Element, ElementType};
use skeletal::model::Model;
use sparse_matrix::matrix::coo_mat::CooMat;
use sparse_matrix::vector::Vector;

fn scalar(x: f64) -> Vector {
    Vector { values: vec![x] }
}

fn terms(values: &[f64]) -> Vector {
    Vector { values: values.to_vec() }
}

fn prescribed(model: &Model) -> Vec<Option<f64>> {
    model.u_boundary_conditions.iter().map(|c| c.as_ref().map(|v| v.values[0])).collect()
}

#[test]
fn new_model_is_empty() {
    for (dim, dof) in [(1u8, 1u8), (2, 3), (3, 6)] {
        let model = Model::new(dim);
        assert_eq!(model.dimension, dim);
        assert_eq!(model.degrees_of_freedom, dof);
        assert_eq!(model.nodes, 0);
        assert_eq!(model.f, Vector::null(0));
        assert_eq!(model.u, Vector::null(0));
        assert_eq!(model.m, CooMat::new(0, 0));
        assert_eq!(model.m_r, CooMat::new(0, 0));
        assert!(model.u_boundary_conditions.is_empty());
        assert!(model.elements.is_empty());
    }
}

#[test]
fn add_node_grows_the_system_by_one_node() {
    for (dim, dof) in [(1u8, 1usize), (2, 3), (3, 6)] {
        let mut model = Model::new(dim);
        model.add_node();
        assert_eq!(model.nodes, 1);
        assert_eq!(model.f, Vector::null(dof));
        assert_eq!(model.u, Vector::null(dof));
        assert_eq!((model.m.rows, model.m.columns), (dof, dof));
        assert_eq!(prescribed(&model), vec![None; dof]);
        model.add_node().add_node();
        assert_eq!(model.nodes, 3);
        assert_eq!(model.f.len(), 3 * dof);
        assert_eq!(model.u.len(), 3 * dof);
        assert_eq!((model.m.rows, model.m.columns), (3 * dof, 3 * dof));
        assert_eq!(model.u_boundary_conditions.len(), 3 * dof);
    }
}

#[test]
fn add_node_keeps_what_was_set() {
    let mut model = Model::new(2);
    model.add_node().set_force(0, 2, scalar(4.)).add_u_boundary_condition(0, 1, scalar(-2.));
    model.add_node();
    assert_eq!(model.f, Vector { values: vec![0., 0., 4., 0., 0., 0.] });
    assert_eq!(prescribed(&model), vec![None, Some(-2.), None, None, None, None]);
}

#[test]
fn set_force_overwrites_one_slot() {
    let mut model = Model::new(2);
    model.add_node().add_node();
    model.set_force(1, 1, scalar(2.5));
    assert_eq!(model.f, Vector { values: vec![0., 0., 0., 0., 2.5, 0.] });
    model.set_force(1, 1, scalar(-1.)).set_force(0, 2, scalar(7.));
    assert_eq!(model.f, Vector { values: vec![0., 0., 7., 0., -1., 0.] });
    assert_eq!(model.u, Vector::null(6));
}

#[test]
fn boundary_conditions_are_set_and_cleared_by_node_and_field() {
    let mut model = Model::new(3);
    model.add_node().add_node();
    model.add_u_boundary_condition(1, 5, scalar(0.25)).add_u_boundary_condition(0, 0, scalar(0.));
    let mut expected = vec![None; 12];
    expected[11] = Some(0.25);
    expected[0] = Some(0.);
    assert_eq!(prescribed(&model), expected);
    model.add_u_boundary_condition(1, 5, scalar(3.));
    expected[11] = Some(3.);
    assert_eq!(prescribed(&model), expected);
    model.remove_u_boundary_condition(1, 5);
    expected[11] = None;
    assert_eq!(prescribed(&model), expected);
    model.remove_u_boundary_condition(1, 4);
    assert_eq!(prescribed(&model), expected);
}

#[test]
fn add_element_registers_under_the_list_of_nodes() {
    let mut model = Model::new(1);
    model.add_node().add_node().add_node();
    model
        .add_element(ElementType::Truss, vec![0, 1], terms(&[1., -1.]))
        .add_element(ElementType::Truss, vec![1, 2], terms(&[2., -2.]))
        .add_element(ElementType::Truss, vec![1, 0], terms(&[3., -3.]));
    assert_eq!(model.elements.len(), 3);
    assert_eq!(model.elements[0].nodes, vec![0, 1]);
    assert_eq!(model.elements[1].nodes, vec![1, 2]);
    assert_eq!(model.elements[2].nodes, vec![1, 0]);
    assert!(matches!(&model.elements[1].element, Element::Truss(t) if t.terms == terms(&[2., -2.])));
}

#[test]
fn add_element_replaces_the_element_with_the_same_nodes() {
    let mut model = Model::new(2);
    model.add_node().add_node().add_node();
    let beam = terms(&[1., -1., 12., -12., 6., -6., 4., 2., 1., 0., -0., 1.]);
    model
        .add_element(ElementType::Truss, vec![0, 1], terms(&[1., 0., 0., 0., -1., 0., 0., 0.]))
        .add_element(ElementType::Truss, vec![1, 2], terms(&[2., 0., 0., 0., -2., 0., 0., 0.]))
        .add_element(ElementType::Beam, vec![0, 1], beam.clone());
    assert_eq!(model.elements.len(), 2);
    assert_eq!(model.elements[0].nodes, vec![0, 1]);
    assert!(matches!(&model.elements[0].element, Element::Beam(b) if b.terms == beam));
    assert!(matches!(&model.elements[1].element, Element::Truss(_)));
}

#[test]
fn assemble_adds_up_the_elements_that_share_a_node() {
    let mut model = Model::new(1);
    model.add_node().add_node().add_node();
    model
        .add_element(ElementType::Truss, vec![0, 1], terms(&[1., -1.]))
        .add_element(ElementType::Truss, vec![1, 2], terms(&[2., -2.]));
    model.assemble();
    let mut expected = CooMat::new(3, 3);
    expected.add_value(0, 0, 1.);
    expected.add_value(0, 1, -1.);
    expected.add_value(1, 0, -1.);
    expected.add_value(1, 1, 3.);
    expected.add_value(1, 2, -2.);
    expected.add_value(2, 1, -2.);
    expected.add_value(2, 2, 2.);
    assert_eq!(model.m, expected);
    model.assemble();
    assert_eq!(model.m, expected);
}

#[test]
fn assembled_matrix_is_symmetric() {
    let mut model = Model::new(2);
    model.add_node().add_node().add_node();
    let diagonal = 1. / 2f64.sqrt();
    let half = diagonal * 0.5;
    model
        .add_element(ElementType::Truss, vec![0, 1], terms(&[1., 0., 0., 0., -1., 0., 0., 0.]))
        .add_element(
            ElementType::Truss,
            vec![1, 2],
            terms(&[half, -half, -half, half, -half, half, half, -half]),
        );
    model.assemble();
    assert!(!model.m.values.is_empty());
    for (&(r, c), v) in &model.m.values {
        assert_eq!(model.m.values.get(&(c, r)), Some(v));
    }
    model.add_u_boundary_condition(0, 0, scalar(0.)).add_u_boundary_condition(2, 1, scalar(0.));
    model.reduce();
    assert!(!model.m_r.values.is_empty());
    for (&(r, c), v) in &model.m_r.values {
        assert_eq!(model.m_r.values.get(&(c, r)), Some(v));
    }
}
