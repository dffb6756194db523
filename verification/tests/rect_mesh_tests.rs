use wgfem::common::{Dim, R};
use wgfem::mesh::{FENum, Mesh, NBSideNum, OShape, SideFace};
use wgfem::rect_mesh::{
    greater_side_face_perp_to_axis, lesser_side_face_perp_to_axis, new_impl,
    side_face_is_lesser_on_perp_axis, side_face_perp_axis, MeshCoord, MeshError, RectMesh,
    DEFAULT_INTEGRATION_ABS_ERR, DEFAULT_INTEGRATION_REL_ERR,
};

fn reals(values: &[f64]) -> Vec<R> {
    values.iter().map(|x| R(x.to_bits())).collect()
}

fn coords(values: &[usize]) -> Vec<MeshCoord> {
    values.iter().map(|&k| MeshCoord(k)).collect()
}

fn unit_mesh(ldims: &[usize]) -> RectMesh {
    let d = ldims.len();
    RectMesh::new(Dim(d), reals(&vec![0.0; d]), reals(&vec![1.0; d]), coords(ldims)).unwrap()
}

fn sample_meshes() -> Vec<RectMesh> {
    vec![
        unit_mesh(&[1]),
        unit_mesh(&[5]),
        unit_mesh(&[2, 3]),
        unit_mesh(&[3, 2]),
        unit_mesh(&[1, 3]),
        unit_mesh(&[4, 1]),
        unit_mesh(&[1, 1]),
        unit_mesh(&[2, 3, 4]),
        unit_mesh(&[3, 1, 2]),
        unit_mesh(&[2, 2, 2, 2]),
    ]
}

#[test]
fn boundary_sides_of_2_by_3_grid() {
    let mesh = unit_mesh(&[2, 3]);
    assert_eq!(mesh.num_boundary_sides(), 10);
}

#[test]
fn boundary_sides_sum_two_caps_per_axis() {
    assert_eq!(unit_mesh(&[5]).num_boundary_sides(), 2);
    assert_eq!(unit_mesh(&[1, 1]).num_boundary_sides(), 4);
    assert_eq!(unit_mesh(&[2, 3, 4]).num_boundary_sides(), 2 * 12 + 2 * 8 + 2 * 6);
}

#[test]
fn counts_of_2_by_3_grid() {
    let mesh = unit_mesh(&[2, 3]);
    assert_eq!(mesh.space_dim(), Dim(2));
    assert_eq!(mesh.num_fes(), 6);
    // One side between the two columns of each row, two between the three rows of each column.
    assert_eq!(mesh.num_nb_sides(), 3 + 4);
    assert_eq!(mesh.num_oriented_element_shapes(), 1);
    assert_eq!(mesh.oriented_shape_for_fe(FENum(4)), OShape(0));
    assert_eq!(mesh.num_side_faces_for_fe(FENum(0)), 4);
    assert_eq!(mesh.num_side_faces_for_shape(OShape(0)), 4);
    assert_eq!(mesh.max_num_shape_sides(), 4);
}

#[test]
fn counts_of_2_by_3_by_4_grid() {
    let mesh = unit_mesh(&[2, 3, 4]);
    assert_eq!(mesh.num_fes(), 24);
    assert_eq!(mesh.num_nb_sides(), 1 * 3 * 4 + 2 * 2 * 4 + 2 * 3 * 3);
    assert_eq!(mesh.num_side_faces_for_shape(OShape(0)), 6);
}

#[test]
fn side_faces_are_accounted_for() {
    for mesh in sample_meshes() {
        assert_eq!(
            2 * mesh.num_nb_sides() + mesh.num_boundary_sides(),
            mesh.max_num_shape_sides() * mesh.num_fes()
        );
    }
}

#[test]
fn fe_coords_have_axis_0_least_significant() {
    let mesh = unit_mesh(&[2, 3]);
    assert_eq!(mesh.fe_mesh_coords(FENum(0)), coords(&[0, 0]));
    assert_eq!(mesh.fe_mesh_coords(FENum(1)), coords(&[1, 0]));
    assert_eq!(mesh.fe_mesh_coords(FENum(2)), coords(&[0, 1]));
    assert_eq!(mesh.fe_mesh_coords(FENum(5)), coords(&[1, 2]));
    assert_eq!(mesh.fe_mesh_coord(Dim(0), FENum(3)), MeshCoord(1));
    assert_eq!(mesh.fe_mesh_coord(Dim(1), FENum(3)), MeshCoord(1));
    assert_eq!(mesh.fe_with_mesh_coords(&coords(&[1, 2])), FENum(5));
    assert_eq!(mesh.fe_with_mesh_coords(&coords(&[0, 1])), FENum(2));
}

#[test]
fn fe_coords_in_three_dimensions() {
    let mesh = unit_mesh(&[2, 3, 4]);
    // 1 + 2 * 2 + 3 * 6
    assert_eq!(mesh.fe_with_mesh_coords(&coords(&[1, 2, 3])), FENum(23));
    assert_eq!(mesh.fe_mesh_coords(FENum(17)), coords(&[1, 2, 2]));
}

#[test]
fn fe_round_trip() {
    for mesh in sample_meshes() {
        for fe in 0..mesh.num_fes() {
            let c = mesh.fe_mesh_coords(FENum(fe));
            for r in 0..c.len() {
                assert!(c[r].0 < mesh.mesh_ldims()[r].0);
                assert_eq!(mesh.fe_mesh_coord(Dim(r), FENum(fe)), c[r]);
            }
            assert_eq!(mesh.fe_with_mesh_coords(&c), FENum(fe));
        }
    }
}

#[test]
fn fe_round_trip_from_coords() {
    let mesh = unit_mesh(&[2, 3, 4]);
    let mut seen = vec![false; 24];
    for c0 in 0..2 {
        for c1 in 0..3 {
            for c2 in 0..4 {
                let c = coords(&[c0, c1, c2]);
                let fe = mesh.fe_with_mesh_coords(&c);
                assert!(fe.0 < 24);
                assert!(!seen[fe.0]);
                seen[fe.0] = true;
                assert_eq!(mesh.fe_mesh_coords(fe), c);
            }
        }
    }
}

#[test]
fn nb_sides_are_grouped_by_axis() {
    let mesh = unit_mesh(&[2, 3]);
    for n in 0..3 {
        assert_eq!(mesh.perp_axis_for_nb_side(NBSideNum(n)), Dim(0));
    }
    for n in 3..7 {
        assert_eq!(mesh.perp_axis_for_nb_side(NBSideNum(n)), Dim(1));
    }
}

#[test]
fn nb_side_geometry_of_2_by_3_grid() {
    let mesh = unit_mesh(&[2, 3]);
    // The sides perpendicular to axis 0 form a 1 by 3 mesh.
    let g = mesh.nb_side_geom(NBSideNum(2));
    assert_eq!(g.perp_axis, Dim(0));
    assert_eq!(g.mesh_coords, coords(&[0, 2]));
    // Those perpendicular to axis 1 form a 2 by 2 mesh and start at number 3.
    let g = mesh.nb_side_geom(NBSideNum(4));
    assert_eq!(g.perp_axis, Dim(1));
    assert_eq!(g.mesh_coords, coords(&[1, 0]));
    let g = mesh.nb_side_geom(NBSideNum(6));
    assert_eq!(g.perp_axis, Dim(1));
    assert_eq!(g.mesh_coords, coords(&[1, 1]));
    assert_eq!(mesh.nb_side_with_mesh_coords(&coords(&[0, 1]), Dim(0)), NBSideNum(1));
    assert_eq!(mesh.nb_side_with_mesh_coords(&coords(&[0, 1]), Dim(1)), NBSideNum(5));
}

#[test]
fn axes_without_sides_are_passed_over() {
    // A single column: no side is perpendicular to axis 0.
    let mesh = unit_mesh(&[1, 3]);
    assert_eq!(mesh.num_nb_sides(), 2);
    assert_eq!(mesh.perp_axis_for_nb_side(NBSideNum(0)), Dim(1));
    assert_eq!(mesh.perp_axis_for_nb_side(NBSideNum(1)), Dim(1));
    assert_eq!(mesh.nb_side_geom(NBSideNum(1)).mesh_coords, coords(&[0, 1]));
    // A single row: no side is perpendicular to axis 1.
    let mesh = unit_mesh(&[4, 1]);
    assert_eq!(mesh.num_nb_sides(), 3);
    assert_eq!(mesh.perp_axis_for_nb_side(NBSideNum(2)), Dim(0));
    assert_eq!(unit_mesh(&[1, 1]).num_nb_sides(), 0);
}

#[test]
fn nb_side_round_trip() {
    for mesh in sample_meshes() {
        for n in 0..mesh.num_nb_sides() {
            let g = mesh.nb_side_geom(NBSideNum(n));
            assert_eq!(g.perp_axis, mesh.perp_axis_for_nb_side(NBSideNum(n)));
            for r in 0..g.mesh_coords.len() {
                let extent = mesh.mesh_ldims()[r].0 - if r == g.perp_axis.0 { 1 } else { 0 };
                assert!(g.mesh_coords[r].0 < extent);
            }
            assert_eq!(mesh.nb_side_with_mesh_coords(&g.mesh_coords, g.perp_axis), NBSideNum(n));
        }
    }
}

#[test]
fn nb_side_round_trip_from_coords() {
    let mesh = unit_mesh(&[2, 3, 4]);
    let ldims = [2usize, 3, 4];
    let mut seen = vec![false; mesh.num_nb_sides()];
    for a in 0..3 {
        let mut sd = ldims;
        sd[a] -= 1;
        for c0 in 0..sd[0] {
            for c1 in 0..sd[1] {
                for c2 in 0..sd[2] {
                    let c = coords(&[c0, c1, c2]);
                    let n = mesh.nb_side_with_mesh_coords(&c, Dim(a));
                    assert!(!seen[n.0]);
                    seen[n.0] = true;
                    let g = mesh.nb_side_geom(n);
                    assert_eq!(g.perp_axis, Dim(a));
                    assert_eq!(g.mesh_coords, c);
                }
            }
        }
    }
    assert!(seen.iter().all(|&s| s));
}

#[test]
fn inclusions_of_a_side_of_2_by_3_grid() {
    let mesh = unit_mesh(&[2, 3]);
    // Side 4 lies above element (1, 0) and below element (1, 1).
    let incls = mesh.fe_inclusions_of_nb_side(NBSideNum(4));
    assert_eq!(incls.nb_side_num, NBSideNum(4));
    assert_eq!(incls.fe1, FENum(1));
    assert_eq!(incls.sideface_in_fe1, SideFace(3));
    assert_eq!(incls.fe2, FENum(3));
    assert_eq!(incls.sideface_in_fe2, SideFace(2));
    // Side 1 lies between elements (0, 1) and (1, 1).
    let incls = mesh.fe_inclusions_of_nb_side(NBSideNum(1));
    assert_eq!(incls.fe1, FENum(2));
    assert_eq!(incls.sideface_in_fe1, SideFace(1));
    assert_eq!(incls.fe2, FENum(3));
    assert_eq!(incls.sideface_in_fe2, SideFace(0));
}

#[test]
fn sides_of_an_element_of_2_by_3_grid() {
    let mesh = unit_mesh(&[2, 3]);
    // Element 3 is (1, 1): it has a neighbor to the left, below and above.
    assert_eq!(mesh.nb_side_num_for_fe_side(FENum(3), SideFace(0)), NBSideNum(1));
    assert!(mesh.is_boundary_side(FENum(3), SideFace(1)));
    assert_eq!(mesh.nb_side_num_for_fe_side(FENum(3), SideFace(2)), NBSideNum(4));
    assert_eq!(mesh.nb_side_num_for_fe_side(FENum(3), SideFace(3)), NBSideNum(6));
}

#[test]
fn neighbors_are_consistent_from_each_side() {
    for mesh in sample_meshes() {
        for n in 0..mesh.num_nb_sides() {
            let sn = NBSideNum(n);
            let incls = mesh.fe_inclusions_of_nb_side(sn);
            assert_eq!(incls.nb_side_num, sn);
            assert!(incls.fe1.0 < incls.fe2.0);
            assert!(incls.fe2.0 < mesh.num_fes());
            assert!(!mesh.is_boundary_side(incls.fe1, incls.sideface_in_fe1));
            assert!(!mesh.is_boundary_side(incls.fe2, incls.sideface_in_fe2));
            assert_eq!(mesh.nb_side_num_for_fe_side(incls.fe1, incls.sideface_in_fe1), sn);
            assert_eq!(mesh.nb_side_num_for_fe_side(incls.fe2, incls.sideface_in_fe2), sn);
            let a = mesh.perp_axis_for_nb_side(sn);
            assert_eq!(incls.sideface_in_fe1, greater_side_face_perp_to_axis(a));
            assert_eq!(incls.sideface_in_fe2, lesser_side_face_perp_to_axis(a));
        }
    }
}

#[test]
fn neighbors_are_consistent_from_each_element() {
    for mesh in sample_meshes() {
        for fe in 0..mesh.num_fes() {
            let fe = FENum(fe);
            for sf in 0..mesh.num_side_faces_for_fe(fe) {
                let sf = SideFace(sf as u8);
                if mesh.is_boundary_side(fe, sf) {
                    continue;
                }
                let sn = mesh.nb_side_num_for_fe_side(fe, sf);
                assert!(sn.0 < mesh.num_nb_sides());
                let incls = mesh.fe_inclusions_of_nb_side(sn);
                if side_face_is_lesser_on_perp_axis(sf) {
                    assert_eq!((incls.fe2, incls.sideface_in_fe2), (fe, sf));
                } else {
                    assert_eq!((incls.fe1, incls.sideface_in_fe1), (fe, sf));
                }
            }
        }
    }
}

#[test]
fn boundary_faces_sit_at_the_edges() {
    let mesh = unit_mesh(&[2, 3]);
    // Element 0 is the corner (0, 0).
    assert!(mesh.is_boundary_side(FENum(0), SideFace(0)));
    assert!(!mesh.is_boundary_side(FENum(0), SideFace(1)));
    assert!(mesh.is_boundary_side(FENum(0), SideFace(2)));
    assert!(!mesh.is_boundary_side(FENum(0), SideFace(3)));
    // Element 5 is the corner (1, 2).
    assert!(!mesh.is_boundary_side(FENum(5), SideFace(0)));
    assert!(mesh.is_boundary_side(FENum(5), SideFace(1)));
    assert!(!mesh.is_boundary_side(FENum(5), SideFace(2)));
    assert!(mesh.is_boundary_side(FENum(5), SideFace(3)));
    // In a mesh of one element every face is on the boundary.
    let single = unit_mesh(&[1, 1]);
    for sf in 0..4 {
        assert!(single.is_boundary_side(FENum(0), SideFace(sf)));
    }
}

#[test]
fn boundary_faces_are_as_many_as_boundary_sides() {
    for mesh in sample_meshes() {
        let mut boundary = 0;
        let mut non_boundary = 0;
        for fe in 0..mesh.num_fes() {
            let fe = FENum(fe);
            let mut fe_non_boundary = 0;
            for sf in 0..mesh.num_side_faces_for_fe(fe) {
                if mesh.is_boundary_side(fe, SideFace(sf as u8)) {
                    boundary += 1;
                } else {
                    fe_non_boundary += 1;
                }
            }
            assert_eq!(mesh.num_non_boundary_sides_for_fe(fe), fe_non_boundary);
            non_boundary += fe_non_boundary;
        }
        assert_eq!(boundary, mesh.num_boundary_sides());
        assert_eq!(non_boundary, 2 * mesh.num_nb_sides());
    }
}

#[test]
fn non_boundary_sides_of_elements_of_2_by_3_grid() {
    let mesh = unit_mesh(&[2, 3]);
    assert_eq!(mesh.num_non_boundary_sides_for_fe(FENum(0)), 2);
    assert_eq!(mesh.num_non_boundary_sides_for_fe(FENum(2)), 3);
    assert_eq!(mesh.num_non_boundary_sides_for_fe(FENum(3)), 3);
    assert_eq!(mesh.num_non_boundary_sides_for_fe(FENum(5)), 2);
    assert_eq!(unit_mesh(&[1, 1]).num_non_boundary_sides_for_fe(FENum(0)), 0);
    assert_eq!(unit_mesh(&[3, 3, 3]).num_non_boundary_sides_for_fe(FENum(13)), 6);
}

#[test]
fn side_faces_come_in_pairs_per_axis() {
    for sf in 0..=254u8 {
        let a = side_face_perp_axis(SideFace(sf));
        assert_eq!(a, Dim(sf as usize / 2));
        assert_eq!(side_face_is_lesser_on_perp_axis(SideFace(sf)), sf % 2 == 0);
        if sf % 2 == 0 {
            assert_eq!(lesser_side_face_perp_to_axis(a), SideFace(sf));
        } else {
            assert_eq!(greater_side_face_perp_to_axis(a), SideFace(sf));
        }
    }
    assert_eq!(lesser_side_face_perp_to_axis(Dim(3)), SideFace(6));
    assert_eq!(greater_side_face_perp_to_axis(Dim(3)), SideFace(7));
}

#[test]
fn dependent_dim_of_a_side_is_its_perpendicular_axis() {
    let mesh = unit_mesh(&[2, 3, 4]);
    for sf in 0..6u8 {
        assert_eq!(
            mesh.dependent_dim_for_oshape_side(OShape(0), SideFace(sf)),
            Dim(sf as usize / 2)
        );
    }
}

#[test]
fn mesh_keeps_its_configuration() {
    let mesh = RectMesh::new_with_err_tols(
        Dim(2),
        reals(&[-1.0, 0.5]),
        reals(&[1.0, 2.5]),
        coords(&[4, 8]),
        R(1e-6f64.to_bits()),
        R(1e-9f64.to_bits()),
    )
    .unwrap();
    assert_eq!(*mesh.min_bounds(), reals(&[-1.0, 0.5]));
    assert_eq!(*mesh.max_bounds(), reals(&[1.0, 2.5]));
    assert_eq!(*mesh.mesh_ldims(), coords(&[4, 8]));
    assert_eq!(f64::from_bits(mesh.integration_rel_err().0), 1e-6);
    assert_eq!(f64::from_bits(mesh.integration_abs_err().0), 1e-9);
}

#[test]
fn default_tolerances_are_1e_minus_12() {
    assert_eq!(f64::from_bits(DEFAULT_INTEGRATION_REL_ERR), 1e-12);
    assert_eq!(f64::from_bits(DEFAULT_INTEGRATION_ABS_ERR), 1e-12);
    let mesh = unit_mesh(&[2, 2]);
    assert_eq!(f64::from_bits(mesh.integration_rel_err().0), 1e-12);
    assert_eq!(f64::from_bits(mesh.integration_abs_err().0), 1e-12);
}

#[test]
fn rejects_unsupported_space_dim() {
    let res = RectMesh::new(Dim(0), vec![], vec![], vec![]);
    assert_eq!(res.err(), Some(MeshError::SpaceDimUnsupported));
    let res = RectMesh::new(Dim(128), reals(&[0.0; 128]), reals(&[1.0; 128]), coords(&[1; 128]));
    assert_eq!(res.err(), Some(MeshError::SpaceDimUnsupported));
    let res = RectMesh::new(Dim(127), reals(&[0.0; 127]), reals(&[1.0; 127]), coords(&[1; 127]));
    assert_eq!(res.unwrap().num_boundary_sides(), 254);
}

#[test]
fn rejects_length_mismatch() {
    let res = RectMesh::new(Dim(2), reals(&[0.0]), reals(&[1.0, 1.0]), coords(&[2, 2]));
    assert_eq!(res.err(), Some(MeshError::BoundsLengthMismatch));
    let res = RectMesh::new(Dim(2), reals(&[0.0, 0.0]), reals(&[1.0, 1.0, 1.0]), coords(&[2, 2]));
    assert_eq!(res.err(), Some(MeshError::BoundsLengthMismatch));
    let res = RectMesh::new(Dim(2), reals(&[0.0, 0.0]), reals(&[1.0, 1.0]), coords(&[2]));
    assert_eq!(res.err(), Some(MeshError::BoundsLengthMismatch));
    let res = RectMesh::new(Dim(3), reals(&[0.0, 0.0]), reals(&[1.0, 1.0]), coords(&[2, 2]));
    assert_eq!(res.err(), Some(MeshError::BoundsLengthMismatch));
}

#[test]
fn rejects_non_positive_bound_span() {
    let res = RectMesh::new(Dim(2), reals(&[0.0, 1.0]), reals(&[1.0, 1.0]), coords(&[2, 2]));
    assert_eq!(res.err(), Some(MeshError::NonPositiveBoundSpan(Dim(1))));
    let res = RectMesh::new(Dim(2), reals(&[0.0, 0.0]), reals(&[-1.0, 1.0]), coords(&[2, 2]));
    assert_eq!(res.err(), Some(MeshError::NonPositiveBoundSpan(Dim(0))));
    let res = RectMesh::new(Dim(1), reals(&[f64::NAN]), reals(&[1.0]), coords(&[2]));
    assert_eq!(res.err(), Some(MeshError::NonPositiveBoundSpan(Dim(0))));
    let res = RectMesh::new(Dim(1), reals(&[-0.0]), reals(&[0.0]), coords(&[2]));
    assert_eq!(res.err(), Some(MeshError::NonPositiveBoundSpan(Dim(0))));
}

#[test]
fn rejects_zero_logical_dim() {
    let res = new_impl(
        Dim(2),
        reals(&[0.0, 0.0]),
        reals(&[1.0, 1.0]),
        coords(&[2, 0]),
        R(0),
        R(0),
    );
    assert_eq!(res.err(), Some(MeshError::NonPositiveLogicalDim(Dim(1))));
}

#[test]
fn reports_the_first_fault_in_axis_order() {
    // Axis 0 has no element, axis 1 has no span: axis 0 is reported.
    let res = RectMesh::new(Dim(2), reals(&[0.0, 0.0]), reals(&[1.0, 0.0]), coords(&[0, 2]));
    assert_eq!(res.err(), Some(MeshError::NonPositiveLogicalDim(Dim(0))));
    // On one axis the span is looked at before the logical dimension.
    let res = RectMesh::new(Dim(2), reals(&[0.0, 0.0]), reals(&[1.0, 0.0]), coords(&[2, 0]));
    assert_eq!(res.err(), Some(MeshError::NonPositiveBoundSpan(Dim(1))));
}

#[test]
fn rejects_meshes_beyond_counting() {
    let (min, max) = (reals(&[0.0, 0.0]), reals(&[1.0, 1.0]));
    let res = RectMesh::new(Dim(2), min.clone(), max.clone(), coords(&[usize::MAX, 2]));
    assert_eq!(res.err(), Some(MeshError::TooLarge));
    // The elements can be counted, the boundary sides cannot.
    let res = RectMesh::new(Dim(2), min.clone(), max.clone(), coords(&[1, usize::MAX]));
    assert_eq!(res.err(), Some(MeshError::TooLarge));
    // The elements can be counted, the non-boundary sides cannot.
    let half = usize::MAX / 2;
    let res = RectMesh::new(Dim(2), reals(&[0.0, 0.0]), reals(&[1.0, 1.0]), coords(&[2, half]));
    assert_eq!(res.err(), Some(MeshError::TooLarge));
    let mesh = RectMesh::new(Dim(1), reals(&[0.0]), reals(&[1.0]), coords(&[usize::MAX])).unwrap();
    assert_eq!(mesh.num_fes(), usize::MAX);
    assert_eq!(mesh.num_nb_sides(), usize::MAX - 1);
    assert_eq!(mesh.num_boundary_sides(), 2);
    assert_eq!(mesh.fe_mesh_coords(FENum(usize::MAX - 1)), coords(&[usize::MAX - 1]));
}
