use skeletal::elements::ElementType;
use skeletal::model::{Model, SolveError};
use sparse_matrix::matrix::coo_mat::CooMat;
use sparse_matrix::vector::Vector;

fn scalar(x: f64) -> Vector {
    Vector { values: vec![x] }
}

fn filled(model: &mut Model) {
    let n = model.m.rows;
    for r in 0..n {
        for c in 0..n {
            model.m.add_value(r, c, (10 * (r + 1) + c + 1) as f64);
        }
    }
}

#[test]
fn reduce_keeps_the_free_rows_and_columns_in_order() {
    let mut model = Model::new(2);
    model.add_node().add_node();
    filled(&mut model);
    for (k, force) in [1., 2., 3., 4., 5., 6.].into_iter().enumerate() {
        model.set_force(k / 3, (k % 3) as u8, scalar(force));
    }
    model
        .add_u_boundary_condition(0, 1, scalar(0.))
        .add_u_boundary_condition(1, 0, scalar(0.))
        .add_u_boundary_condition(1, 1, scalar(0.));
    let global = model.m.clone();
    model.reduce();
    assert_eq!(model.m, global);
    assert_eq!(model.f_r, Vector { values: vec![1., 3., 6.] });
    let free = [0usize, 2, 5];
    let mut expected = CooMat::new(3, 3);
    for i in 0..3 {
        for j in 0..3 {
            expected.add_value(i, j, (10 * (free[i] + 1) + free[j] + 1) as f64);
        }
    }
    assert_eq!(model.m_r, expected);
}

#[test]
fn reduce_with_no_condition_copies_the_system() {
    let mut model = Model::new(1);
    model.add_node().add_node().add_node();
    filled(&mut model);
    model.set_force(1, 0, scalar(9.));
    model.reduce();
    assert_eq!(model.m_r, model.m);
    assert_eq!(model.f_r, model.f);
}

#[test]
fn reduce_with_every_slot_prescribed_leaves_nothing() {
    let mut model = Model::new(1);
    model.add_node().add_node();
    filled(&mut model);
    model.add_u_boundary_condition(0, 0, scalar(1.)).add_u_boundary_condition(1, 0, scalar(2.));
    model.reduce();
    assert_eq!(model.m_r, CooMat::new(0, 0));
    assert_eq!(model.f_r, Vector::null(0));
}

#[test]
fn reduce_strikes_the_first_and_the_last_slot() {
    let mut model = Model::new(1);
    model.add_node().add_node().add_node().add_node();
    filled(&mut model);
    model.add_u_boundary_condition(0, 0, scalar(0.)).add_u_boundary_condition(3, 0, scalar(0.));
    model.reduce();
    let mut expected = CooMat::new(2, 2);
    expected.add_value(0, 0, 22.);
    expected.add_value(0, 1, 23.);
    expected.add_value(1, 0, 32.);
    expected.add_value(1, 1, 33.);
    assert_eq!(model.m_r, expected);
}

#[test]
fn developp_merges_prescribed_and_reduced_displacements() {
    let mut model = Model::new(2);
    model.add_node().add_node();
    model
        .add_u_boundary_condition(0, 0, scalar(0.5))
        .add_u_boundary_condition(0, 2, scalar(-1.5))
        .add_u_boundary_condition(1, 1, scalar(0.));
    model.u_r = Vector { values: vec![7., 8., 9.] };
    model.developp();
    assert_eq!(model.u, Vector { values: vec![0.5, 7., -1.5, 8., 0., 9.] });
    assert_eq!(model.u_r, Vector { values: vec![7., 8., 9.] });
}

#[test]
fn expand_inverts_reduce() {
    let full = [0.5, 7., -1.5, 8., 0., 9., 3., 2., 1.];
    let fixed = [0usize, 2, 4, 8];
    let mut model = Model::new(2);
    model.add_node().add_node().add_node();
    for (k, value) in full.into_iter().enumerate() {
        model.set_force(k / 3, (k % 3) as u8, scalar(value));
    }
    for k in fixed {
        model.add_u_boundary_condition(k / 3, (k % 3) as u8, scalar(full[k]));
    }
    model.reduce();
    assert_eq!(model.f_r, Vector { values: vec![7., 8., 9., 3., 2.] });
    model.u_r = model.f_r.clone();
    model.developp();
    assert_eq!(model.u, Vector { values: full.to_vec() });
}

#[test]
fn reduce_inverts_expand() {
    let mut model = Model::new(1);
    model.add_node().add_node().add_node().add_node();
    model.add_u_boundary_condition(1, 0, scalar(4.)).add_u_boundary_condition(2, 0, scalar(5.));
    model.u_r = Vector { values: vec![-1., -2.] };
    model.developp();
    assert_eq!(model.u, Vector { values: vec![-1., 4., 5., -2.] });
    model.f = model.u.clone();
    model.reduce();
    assert_eq!(model.f_r, model.u_r);
}

#[test]
fn finish_rejects_an_answer_of_the_wrong_length() {
    let mut model = Model::new(1);
    model.add_node().add_node().add_node();
    model
        .add_element(ElementType::Truss, vec![0, 1], Vector { values: vec![1., -1.] })
        .add_u_boundary_condition(0, 0, scalar(0.))
        .set_force(1, 0, scalar(1.));
    let short = model.finish(Ok::<Vector, &'static str>(Vector { values: vec![1.] }));
    assert!(matches!(short, Err(SolveError::Shape)));
    let long = model.finish(Ok::<Vector, &'static str>(Vector { values: vec![1., 2., 3.] }));
    assert!(matches!(long, Err(SolveError::Shape)));
    assert_eq!(model.u, Vector::null(3));
    assert_eq!(model.u_r, Vector::null(0));
    assert_eq!(model.f, Vector { values: vec![0., 1., 0.] });
}

#[test]
fn finish_passes_the_error_of_the_solver_on() {
    let mut model = Model::new(1);
    model.add_node();
    let result = model.finish(Err::<Vector, u32>(17));
    assert!(matches!(result, Err(SolveError::Solver(17))));
    assert_eq!(model.u, Vector::null(1));
}

#[test]
fn finish_rebuilds_displacements_and_forces() {
    let mut model = Model::new(1);
    model.add_node().add_node().add_node();
    model
        .add_element(ElementType::Truss, vec![0, 1], Vector { values: vec![2., -2.] })
        .add_element(ElementType::Truss, vec![1, 2], Vector { values: vec![4., -4.] })
        .add_u_boundary_condition(0, 0, scalar(1.));
    model.assemble();
    let result = model.finish(Ok::<Vector, &'static str>(Vector { values: vec![2., 4.] }));
    assert!(result.is_ok());
    assert_eq!(model.u_r, Vector { values: vec![2., 4.] });
    assert_eq!(model.u, Vector { values: vec![1., 2., 4.] });
    assert_eq!(model.f, Vector { values: vec![-2., -6., 8.] });
}
