use skeletal::elements::beam::Beam;
use skeletal::elements::truss::Truss;
use skeletal::elements::{Element, ElementTrait};
use sparse_matrix::matrix::coo_mat::CooMat;
use sparse_matrix::vector::Vector;

fn length(a: [f64; 3], b: [f64; 3]) -> f64 {
    ((a[0] - b[0]) * (a[0] - b[0]) + (a[1] - b[1]) * (a[1] - b[1]) + (a[2] - b[2]) * (a[2] - b[2]))
        .sqrt()
}

fn truss_terms(a: [f64; 3], b: [f64; 3], e: f64, s: f64, axes: usize) -> Vector {
    let l = length(a, b);
    let stiffness = e * s / l;
    if axes == 1 {
        return Vector { values: vec![stiffness, -1. * stiffness] };
    }
    let c = [(a[0] - b[0]) / l, (a[1] - b[1]) / l, (a[2] - b[2]) / l];
    let mut values = vec![];
    for i in 0..axes {
        for j in 0..axes {
            values.push(stiffness * c[i] * c[j]);
        }
    }
    for i in 0..axes {
        for j in 0..axes {
            values.push(-1. * stiffness * c[i] * c[j]);
        }
    }
    Vector { values }
}

fn beam_terms(a: [f64; 3], b: [f64; 3], e: f64, s: f64, i: f64) -> Vector {
    let l = length(a, b);
    let truss_stiffness = e * s / l;
    let beam_stiffness = e * i / l / l / l;
    let c = (a[0] - b[0]).abs() / l;
    let sn = (a[1] - b[1]).abs() / l;
    Vector {
        values: vec![
            truss_stiffness,
            -1. * truss_stiffness,
            12. * beam_stiffness,
            -12. * beam_stiffness,
            6. * l * beam_stiffness,
            -6. * l * beam_stiffness,
            4. * l * l * beam_stiffness,
            2. * l * l * beam_stiffness,
            c,
            sn,
            -sn,
            1.,
        ],
    }
}

fn expected_truss(a: [f64; 3], b: [f64; 3], e: f64, s: f64, axes: usize, size: usize, x: usize, y: usize) -> CooMat {
    let l = length(a, b);
    let stiffness = e * s / l;
    let c = [(a[0] - b[0]) / l, (a[1] - b[1]) / l, (a[2] - b[2]) / l];
    let mut matrix = CooMat::new(size, size);
    for i in 0..axes {
        for j in 0..axes {
            matrix.add_value(3 * x + i, 3 * x + j, stiffness * c[i] * c[j]);
            matrix.add_value(i + 3 * y, 3 * x + j, -1. * stiffness * c[i] * c[j]);
            matrix.add_value(3 * x + i, j + 3 * y, -1. * stiffness * c[i] * c[j]);
            matrix.add_value(i + 3 * y, j + 3 * y, stiffness * c[i] * c[j]);
        }
    }
    matrix
}

fn expected_beam(a: [f64; 3], b: [f64; 3], e: f64, s: f64, i: f64, size: usize, x: usize, y: usize) -> CooMat {
    let l = length(a, b);
    let ka = e * s / l;
    let kb = e * i / l / l / l;
    let mut matrix = CooMat::new(size, size);
    matrix.add_value(3 * x, 3 * x, ka);
    matrix.add_value(3 * y, 3 * x, -1. * ka);
    matrix.add_value(3 * x, 3 * y, -1. * ka);
    matrix.add_value(3 * y, 3 * y, ka);
    matrix.add_value(3 * x + 1, 3 * x + 1, 12. * kb);
    matrix.add_value(3 * x + 2, 3 * x + 1, 6. * l * kb);
    matrix.add_value(3 * x + 1, 3 * x + 2, 6. * l * kb);
    matrix.add_value(3 * x + 2, 3 * x + 2, 4. * l * l * kb);
    matrix.add_value(3 * y + 1, 3 * x + 1, -12. * kb);
    matrix.add_value(3 * y + 2, 3 * x + 1, 6. * l * kb);
    matrix.add_value(3 * y + 1, 3 * x + 2, -6. * l * kb);
    matrix.add_value(3 * y + 2, 3 * x + 2, 2. * l * l * kb);
    matrix.add_value(3 * x + 1, 3 * y + 1, -12. * kb);
    matrix.add_value(3 * x + 2, 3 * y + 1, -6. * l * kb);
    matrix.add_value(3 * x + 1, 3 * y + 2, 6. * l * kb);
    matrix.add_value(3 * x + 2, 3 * y + 2, 2. * l * l * kb);
    matrix.add_value(3 * y + 1, 3 * y + 1, 12. * kb);
    matrix.add_value(3 * y + 2, 3 * y + 1, -6. * l * kb);
    matrix.add_value(3 * y + 1, 3 * y + 2, -6. * l * kb);
    matrix.add_value(3 * y + 2, 3 * y + 2, 4. * l * l * kb);
    let mut rotation = CooMat::new(size, size);
    let c = (a[0] - b[0]).abs() / l;
    let sn = (a[1] - b[1]).abs() / l;
    rotation.add_value(3 * x, 3 * x, c);
    rotation.add_value(3 * x + 1, 3 * x, -sn);
    rotation.add_value(3 * x, 3 * x + 1, sn);
    rotation.add_value(3 * x + 1, 3 * x + 1, c);
    rotation.add_value(3 * x + 2, 3 * x + 2, 1.);
    rotation.add_value(3 * y, 3 * y, c);
    rotation.add_value(3 * y + 1, 3 * y, -sn);
    rotation.add_value(3 * y, 3 * y + 1, sn);
    rotation.add_value(3 * y + 1, 3 * y + 1, c);
    rotation.add_value(3 * y + 2, 3 * y + 2, 1.);
    &(rotation.transposed()) * &(&matrix * &rotation)
}

#[test]
fn truss_along_one_axis() {
    let truss = Truss { terms: truss_terms([0., 0., 0.], [4., 0., 0.], 6., 2., 1) };
    let k = truss.get_1_d_matrix(3, 0, 2);
    assert_eq!((k.rows, k.columns), (3, 3));
    assert_eq!(k.values.len(), 4);
    assert_eq!(k.values[&(0, 0)], 3.);
    assert_eq!(k.values[&(2, 0)], -3.);
    assert_eq!(k.values[&(0, 2)], -3.);
    assert_eq!(k.values[&(2, 2)], 3.);
    assert_eq!(truss.get_matrix(1, 3, 0, 2), k);
}

#[test]
fn truss_in_the_plane_matches_the_formula() {
    let a = [0., 0., 0.];
    let b = [3., 4., 0.];
    let truss = Truss { terms: truss_terms(a, b, 10., 2., 2) };
    let k = truss.get_2_d_matrix(9, 2, 0);
    assert_eq!(k, expected_truss(a, b, 10., 2., 2, 9, 2, 0));
    assert_eq!(k.values.len(), 16);
    assert_eq!(k.values[&(6, 6)], 10. * 2. / 5. * (-3. / 5.) * (-3. / 5.));
    assert_eq!(k.values[&(0, 7)], -1. * (10. * 2. / 5.) * (-3. / 5.) * (-4. / 5.));
    assert!(!k.values.contains_key(&(8, 8)));
    assert!(!k.values.contains_key(&(2, 2)));
    assert_eq!(truss.get_matrix(2, 9, 2, 0), k);
}

#[test]
fn truss_along_an_axis_leaves_the_other_axis_empty() {
    let a = [0., 0., 0.];
    let b = [2., 0., 0.];
    let truss = Truss { terms: truss_terms(a, b, 1., 1., 2) };
    let k = truss.get_2_d_matrix(6, 0, 1);
    assert_eq!(k.values.len(), 4);
    assert_eq!(k.values[&(0, 0)], 0.5);
    assert_eq!(k.values[&(3, 0)], -0.5);
    assert_eq!(k.values[&(0, 3)], -0.5);
    assert_eq!(k.values[&(3, 3)], 0.5);
}

#[test]
fn truss_in_space_matches_the_formula() {
    let a = [1., 2., 3.];
    let b = [3., 5., 9.];
    let truss = Truss { terms: truss_terms(a, b, 7., 3., 3) };
    let k = truss.get_3_d_matrix(12, 0, 1);
    assert_eq!(k, expected_truss(a, b, 7., 3., 3, 12, 0, 1));
    assert_eq!(k.values.len(), 36);
    assert_eq!(k.values[&(2, 5)], -1. * (7. * 3. / 7.) * (-6. / 7.) * (-6. / 7.));
    assert_eq!(truss.get_matrix(3, 12, 0, 1), k);
}

#[test]
fn beam_along_the_first_axis() {
    let a = [0., 0., 0.];
    let b = [2., 0., 0.];
    let beam = Beam { terms: beam_terms(a, b, 3., 4., 5.) };
    let k = beam.get_2_d_matrix(6, 0, 1);
    assert_eq!(k, expected_beam(a, b, 3., 4., 5., 6, 0, 1));
    let kb = 3. * 5. / 8.;
    assert_eq!(k.values[&(0, 0)], 6.);
    assert_eq!(k.values[&(3, 0)], -6.);
    assert_eq!(k.values[&(1, 1)], 12. * kb);
    assert_eq!(k.values[&(2, 1)], 6. * 2. * kb);
    assert_eq!(k.values[&(2, 2)], 4. * 4. * kb);
    assert_eq!(k.values[&(5, 2)], 2. * 4. * kb);
    assert_eq!(k.values[&(4, 2)], -6. * 2. * kb);
    assert_eq!(k.values[&(1, 5)], 6. * 2. * kb);
    assert_eq!(k.values[&(5, 4)], -6. * 2. * kb);
    assert_eq!(k.values.len(), 20);
    assert_eq!(beam.get_matrix(2, 6, 0, 1), k);
}

#[test]
fn beam_at_an_angle_is_rotated() {
    let a = [0., 0., 0.];
    let b = [3., 4., 0.];
    let beam = Beam { terms: beam_terms(a, b, 2., 3., 7.) };
    let k = beam.get_2_d_matrix(9, 1, 2);
    let expected = expected_beam(a, b, 2., 3., 7., 9, 1, 2);
    assert_eq!(k, expected);
    let along = Beam { terms: beam_terms(a, [5., 0., 0.], 2., 3., 7.) };
    assert_ne!(k, along.get_2_d_matrix(9, 1, 2));
    for (&(r, c), _) in &k.values {
        assert!(r >= 3 && c >= 3);
    }
}

#[test]
fn element_takes_its_ends_from_the_list_of_nodes() {
    let a = [0., 0., 0.];
    let b = [0., 2., 0.];
    let truss = Element::Truss(Truss { terms: truss_terms(a, b, 1., 1., 2) });
    assert_eq!(truss.get_matrix(2, 9, &vec![2, 1]), expected_truss(a, b, 1., 1., 2, 9, 2, 1));
    let beam = Element::Beam(Beam { terms: beam_terms(a, b, 1., 2., 3.) });
    assert_eq!(beam.get_matrix(2, 9, &vec![0, 2]), expected_beam(a, b, 1., 2., 3., 9, 0, 2));
}
