use wgfem::common::{Deg, Dim, R};
use wgfem::mesh::{FENum, Mesh, NBSideNum, OShape, SideFace};
use wgfem::monomial::{DegLim, Monomial};
use wgfem::monomial_seqs::{mons_constant_on_axis, mons_with_deg_lim_asc};
use wgfem::rect_mesh::{MeshCoord, RectMesh};
use wgfem::wg_basis::{BasisElNum, BasisError, FaceMonNum, WgBasis, WgradsError};

fn unit_mesh(ldims: &[usize]) -> RectMesh {
    let d = ldims.len();
    RectMesh::new(
        Dim(d),
        vec![R(0.0f64.to_bits()); d],
        vec![R(1.0f64.to_bits()); d],
        ldims.iter().map(|&k| MeshCoord(k)).collect(),
    )
    .unwrap()
}

fn mon(exps: &[u8]) -> Monomial {
    Monomial { exps: exps.iter().map(|&e| Deg(e)).collect() }
}

fn mons(list: &[&[u8]]) -> Vec<Monomial> {
    list.iter().map(|e| mon(e)).collect()
}

fn exps_of(mons: &[Monomial]) -> Vec<Vec<u8>> {
    mons.iter().map(|m| m.exps.iter().map(|e| e.0).collect()).collect()
}

// The monomials in x, y of total degree at most 2, ascending.
fn deg_2_mons() -> Vec<Monomial> {
    mons(&[&[0, 0], &[0, 1], &[0, 2], &[1, 0], &[1, 1], &[2, 0]])
}

// The monomials in x, y of total degree at most 1, ascending.
fn deg_1_mons() -> Vec<Monomial> {
    mons(&[&[0, 0], &[0, 1], &[1, 0]])
}

fn basis_2x3() -> WgBasis<RectMesh, f64> {
    WgBasis::new(unit_mesh(&[2, 3]), DegLim::MaxMonDeg(Deg(2)), DegLim::MaxMonDeg(Deg(1))).unwrap()
}

fn basis_over(ldims: &[usize], int_deg: u8, side_deg: u8) -> WgBasis<RectMesh, ()> {
    WgBasis::new(
        unit_mesh(ldims),
        DegLim::MaxMonDeg(Deg(int_deg)),
        DegLim::MaxMonDeg(Deg(side_deg)),
    )
    .unwrap()
}

#[test]
fn basis_counts_of_2_by_3_grid() {
    let basis = basis_2x3();
    assert_eq!(basis.mons_per_fe_int(), 6);
    assert_eq!(basis.mons_per_fe_side(), 2);
    assert_eq!(basis.num_int_els(), 6 * 6);
    assert_eq!(basis.total_els(), 6 * 6 + 7 * 2);
    assert_eq!(basis.mesh().num_fes(), 6);
}

#[test]
fn total_is_interiors_plus_sides() {
    for ldims in [&[1usize][..], &[4], &[2, 3], &[1, 1], &[3, 1], &[2, 2, 2]] {
        for (int_deg, side_deg) in [(0, 0), (1, 0), (2, 1), (3, 3)] {
            let basis = basis_over(ldims, int_deg, side_deg);
            let mesh = basis.mesh();
            assert_eq!(
                basis.total_els(),
                mesh.num_fes() * basis.mons_per_fe_int()
                    + mesh.num_nb_sides() * basis.mons_per_fe_side()
            );
            assert_eq!(basis.num_int_els(), mesh.num_fes() * basis.mons_per_fe_int());
        }
    }
}

#[test]
fn every_element_is_of_exactly_one_kind() {
    let basis = basis_2x3();
    for i in 0..basis.total_els() {
        let i = BasisElNum(i);
        assert!(basis.is_int_supported(i) != basis.is_side_supported(i));
        assert_eq!(basis.is_int_supported(i), i.0 < 36);
    }
    assert!(!basis.is_int_supported(BasisElNum(50)));
    assert!(!basis.is_side_supported(BasisElNum(50)));
    assert!(!basis.is_side_supported(BasisElNum(usize::MAX)));
}

#[test]
fn interior_elements_by_formula() {
    let basis = basis_2x3();
    assert_eq!(basis.support_int_fe_num(BasisElNum(0)), FENum(0));
    assert_eq!(basis.support_int_fe_num(BasisElNum(5)), FENum(0));
    assert_eq!(basis.support_int_fe_num(BasisElNum(6)), FENum(1));
    assert_eq!(basis.support_int_fe_num(BasisElNum(35)), FENum(5));
    assert_eq!(basis.int_rel_mon_num(BasisElNum(17)), FaceMonNum(5));
    assert_eq!(basis.int_rel_mon_num(BasisElNum(18)), FaceMonNum(0));
    assert_eq!(basis.int_mon_el_num(FENum(2), FaceMonNum(4)), BasisElNum(16));
    assert_eq!(basis.int_mon(BasisElNum(16)).exps, mon(&[1, 1]).exps);
    assert_eq!(basis.int_mon(BasisElNum(2)).exps, mon(&[0, 2]).exps);
}

#[test]
fn side_elements_by_formula() {
    let basis = basis_2x3();
    assert_eq!(basis.support_nb_side_num(BasisElNum(36)), NBSideNum(0));
    assert_eq!(basis.support_nb_side_num(BasisElNum(37)), NBSideNum(0));
    assert_eq!(basis.support_nb_side_num(BasisElNum(38)), NBSideNum(1));
    assert_eq!(basis.support_nb_side_num(BasisElNum(49)), NBSideNum(6));
    assert_eq!(basis.side_rel_mon_num(BasisElNum(36)), FaceMonNum(0));
    assert_eq!(basis.side_rel_mon_num(BasisElNum(45)), FaceMonNum(1));
    // The upper face of element 3 is side 6.
    assert_eq!(basis.side_mon_el_num(FENum(3), SideFace(3), FaceMonNum(1)), BasisElNum(49));
    // The left face of element 3 is side 1.
    assert_eq!(basis.side_mon_el_num(FENum(3), SideFace(0), FaceMonNum(0)), BasisElNum(38));
}

#[test]
fn interior_numbering_round_trips() {
    let basis = basis_2x3();
    for i in 0..basis.num_int_els() {
        let i = BasisElNum(i);
        let fe = basis.support_int_fe_num(i);
        let monn = basis.int_rel_mon_num(i);
        assert!(fe.0 < 6 && monn.0 < 6);
        assert_eq!(basis.int_mon_el_num(fe, monn), i);
    }
    let mut last = None;
    for fe in 0..6 {
        for monn in 0..6 {
            let i = basis.int_mon_el_num(FENum(fe), FaceMonNum(monn));
            assert!(basis.is_int_supported(i));
            assert_eq!(basis.support_int_fe_num(i), FENum(fe));
            assert_eq!(basis.int_rel_mon_num(i), FaceMonNum(monn));
            assert!(last < Some(i));
            last = Some(i);
        }
    }
}

#[test]
fn side_numbering_round_trips() {
    let basis = basis_2x3();
    let mesh = basis.mesh();
    for i in basis.num_int_els()..basis.total_els() {
        let i = BasisElNum(i);
        let sn = basis.support_nb_side_num(i);
        let monn = basis.side_rel_mon_num(i);
        assert!(sn.0 < 7 && monn.0 < 2);
        let incls = basis.fe_inclusions_of_side_support(i);
        assert_eq!(incls, mesh.fe_inclusions_of_nb_side(sn));
        assert_eq!(basis.side_mon_el_num(incls.fe1, incls.sideface_in_fe1, monn), i);
        assert_eq!(basis.side_mon_el_num(incls.fe2, incls.sideface_in_fe2, monn), i);
    }
}

#[test]
fn interior_elements_come_before_side_elements() {
    let basis = basis_2x3();
    let last_int = basis.int_mon_el_num(FENum(5), FaceMonNum(5));
    let first_side = basis.side_mon_el_num(FENum(0), SideFace(1), FaceMonNum(0));
    assert_eq!(last_int, BasisElNum(35));
    assert_eq!(first_side, BasisElNum(36));
}

#[test]
fn side_monomials_are_constant_in_the_dependent_dimension() {
    let basis = basis_2x3();
    assert_eq!(exps_of(basis.ref_int_mons()), exps_of(&deg_2_mons()));
    // Faces 0 and 1 are perpendicular to x: their monomials are in y alone.
    for sf in 0..2 {
        let side_mons = basis.side_mons_for_oshape_side(OShape(0), SideFace(sf));
        assert_eq!(exps_of(side_mons), vec![vec![0, 0], vec![0, 1]]);
    }
    // Faces 2 and 3 are perpendicular to y: their monomials are in x alone.
    for sf in 2..4 {
        let side_mons = basis.side_mons_for_fe_side(FENum(3), SideFace(sf));
        assert_eq!(exps_of(side_mons), vec![vec![0, 0], vec![1, 0]]);
    }
    let by_side = basis.side_mons_by_side_for_oshape(OShape(0));
    assert_eq!(by_side.len(), 4);
    assert_eq!(exps_of(by_side[1]), vec![vec![0, 0], vec![0, 1]]);
    assert_eq!(exps_of(by_side[2]), vec![vec![0, 0], vec![1, 0]]);
}

#[test]
fn filter_keeps_the_order_of_the_monomials() {
    let all = mons(&[&[0, 0, 0], &[0, 0, 1], &[0, 1, 0], &[1, 0, 0], &[1, 0, 1]]);
    assert_eq!(
        exps_of(&mons_constant_on_axis(&all, Dim(0))),
        vec![vec![0, 0, 0], vec![0, 0, 1], vec![0, 1, 0]]
    );
    assert_eq!(
        exps_of(&mons_constant_on_axis(&all, Dim(1))),
        vec![vec![0, 0, 0], vec![0, 0, 1], vec![1, 0, 0], vec![1, 0, 1]]
    );
    assert_eq!(
        exps_of(&mons_constant_on_axis(&all, Dim(2))),
        vec![vec![0, 0, 0], vec![0, 1, 0], vec![1, 0, 0]]
    );
    assert!(mons_constant_on_axis(&Vec::new(), Dim(5)).is_empty());
}

#[test]
fn monomial_accessors() {
    let m = mon(&[3, 0, 1]);
    assert_eq!(m.domain_dim(), Dim(3));
    assert_eq!(m.exp(Dim(0)), Deg(3));
    assert_eq!(m.exp(Dim(1)), Deg(0));
    assert_eq!(m.exp(Dim(2)), Deg(1));
    assert_eq!(m.clone().exps, m.exps);
    assert_eq!(Monomial::with_first_exp(Deg(4), &m).exps, mon(&[4, 3, 0, 1]).exps);
    assert_eq!(Monomial::with_first_exp(Deg(0), &mon(&[])).exps, mon(&[0]).exps);
    assert_eq!(DegLim::MaxMonDeg(Deg(3)).deg(), Deg(3));
    assert_eq!(DegLim::MaxMonFactorDeg(Deg(7)).deg(), Deg(7));
}

#[test]
fn rejects_a_basis_beyond_counting() {
    let too_large = |ldims: &[usize], int_deg: u8, side_deg: u8| {
        WgBasis::<RectMesh, ()>::new(
            unit_mesh(ldims),
            DegLim::MaxMonDeg(Deg(int_deg)),
            DegLim::MaxMonDeg(Deg(side_deg)),
        )
        .err()
    };
    // Two monomials on each of the elements.
    assert_eq!(too_large(&[usize::MAX], 1, 0), Some(BasisError::TooLarge));
    // One monomial on each element and side; there is one side less than there are elements.
    assert_eq!(too_large(&[usize::MAX / 2 + 2], 0, 0), Some(BasisError::TooLarge));
    assert_eq!(too_large(&[usize::MAX / 2 + 1], 0, 0), None);
}

#[test]
fn a_basis_of_constants() {
    // One constant on each of the 6 elements and of the 7 sides.
    let basis = basis_over(&[2, 3], 0, 0);
    assert_eq!(basis.mons_per_fe_int(), 1);
    assert_eq!(basis.mons_per_fe_side(), 1);
    assert_eq!(basis.total_els(), 13);
    assert_eq!(basis.int_mon(BasisElNum(5)).exps, mon(&[0, 0]).exps);
    assert_eq!(basis.weak_grad_deg_lim(), None);
}

#[test]
fn upper_bound_on_interacting_pairs_of_2_by_3_grid() {
    let basis = basis_2x3();
    // Interiors: 6 elements with 6 * 6 pairs each.
    // The four corner elements have 2 non-boundary sides: 2 * 6 * 2 * 2 + (2 * 2)^2 = 64.
    // The two others have 3: 2 * 6 * 3 * 2 + (3 * 2)^2 = 108.
    assert_eq!(
        basis.ub_estimate_num_bel_bel_common_support_fe_triplets(),
        Some(216 + 4 * 64 + 2 * 108)
    );
}

#[test]
fn upper_bound_of_a_single_element() {
    let basis = basis_over(&[1, 1], 2, 1);
    assert_eq!(basis.ub_estimate_num_bel_bel_common_support_fe_triplets(), Some(36));
}

#[test]
fn upper_bound_in_one_dimension() {
    // Three elements in a row with the monomials 1, x; a side hosts the constant alone.
    let basis = basis_over(&[3], 1, 1);
    assert_eq!(basis.mons_per_fe_int(), 2);
    assert_eq!(basis.mons_per_fe_side(), 1);
    // Interiors: 3 * 2 * 2. The ends have one side: 2 * 2 * 1 + 1. The middle has two:
    // 2 * 2 * 2 + 4.
    assert_eq!(
        basis.ub_estimate_num_bel_bel_common_support_fe_triplets(),
        Some(12 + 2 * 5 + 12)
    );
}

#[test]
fn upper_bound_beyond_counting() {
    // A quarter of a machine word of elements with two monomials each: the basis can be
    // counted, the pairs on the interiors cannot.
    let quarter = usize::MAX / 4 + 1;
    let basis = basis_over(&[quarter], 1, 0);
    assert_eq!(basis.total_els(), 2 * quarter + (quarter - 1));
    assert_eq!(basis.ub_estimate_num_bel_bel_common_support_fe_triplets(), None);
}

#[test]
fn restriction_to_an_interior() {
    let basis = basis_2x3();
    let coefs: Vec<f64> = (0..50).map(|i| i as f64).collect();
    let poly = basis.fe_int_poly(FENum(2), &coefs);
    assert_eq!(poly.coefs, &[12.0, 13.0, 14.0, 15.0, 16.0, 17.0]);
    assert_eq!(exps_of(poly.mons), exps_of(&deg_2_mons()));
    let poly = basis.fe_int_poly(FENum(5), &coefs[..36]);
    assert_eq!(poly.coefs, &[30.0, 31.0, 32.0, 33.0, 34.0, 35.0]);
}

#[test]
fn restriction_to_a_side() {
    let basis = basis_2x3();
    let coefs: Vec<f64> = (0..50).map(|i| i as f64).collect();
    // The upper face of element 3 is side 6, the last one.
    let poly = basis.fe_side_poly(FENum(3), SideFace(3), &coefs);
    assert_eq!(poly.coefs, &[48.0, 49.0]);
    assert_eq!(exps_of(poly.mons), vec![vec![0, 0], vec![1, 0]]);
    // The right face of element 0 is side 0.
    let poly = basis.fe_side_poly(FENum(0), SideFace(1), &coefs);
    assert_eq!(poly.coefs, &[36.0, 37.0]);
    assert_eq!(exps_of(poly.mons), vec![vec![0, 0], vec![0, 1]]);
}

#[test]
fn weak_gradient_degree_limit_is_one_below() {
    let basis = basis_2x3();
    assert_eq!(basis.weak_grad_deg_lim(), Some(DegLim::MaxMonDeg(Deg(1))));
    let basis: WgBasis<RectMesh, ()> = WgBasis::new(
        unit_mesh(&[2, 3]),
        DegLim::MaxMonFactorDeg(Deg(3)),
        DegLim::MaxMonDeg(Deg(1)),
    )
    .unwrap();
    assert_eq!(basis.weak_grad_deg_lim(), Some(DegLim::MaxMonDeg(Deg(2))));
    assert_eq!(basis_over(&[2, 3], 0, 0).weak_grad_deg_lim(), None);
}

fn int_wgrads() -> Vec<f64> {
    (0..6).map(|m| 100.0 + m as f64).collect()
}

fn side_wgrads() -> Vec<Vec<f64>> {
    (0..4).map(|sf| (0..2).map(|m| 10.0 * sf as f64 + m as f64).collect()).collect()
}

#[test]
fn weak_gradients_are_held_by_shape_face_and_monomial() {
    let mut basis = basis_2x3();
    assert_eq!(basis.next_oshape_without_wgrads(), Some(OShape(0)));
    assert_eq!(basis.cache_wgrads_on_oshape(int_wgrads(), side_wgrads()), Ok(()));
    assert_eq!(basis.next_oshape_without_wgrads(), None);
    assert_eq!(*basis.wgrad_int_mon(FaceMonNum(0), OShape(0)), 100.0);
    assert_eq!(*basis.wgrad_int_mon(FaceMonNum(5), OShape(0)), 105.0);
    assert_eq!(*basis.wgrad_side_mon(FaceMonNum(1), OShape(0), SideFace(0)), 1.0);
    assert_eq!(*basis.wgrad_side_mon(FaceMonNum(0), OShape(0), SideFace(3)), 30.0);
    assert_eq!(*basis.wgrad_side_mon(FaceMonNum(1), OShape(0), SideFace(2)), 21.0);
    // The numbering is untouched.
    assert_eq!(basis.total_els(), 50);
}

#[test]
fn weak_gradients_are_taken_once_per_shape() {
    let mut basis = basis_2x3();
    assert_eq!(basis.cache_wgrads_on_oshape(int_wgrads(), side_wgrads()), Ok(()));
    assert_eq!(
        basis.cache_wgrads_on_oshape(int_wgrads(), side_wgrads()),
        Err(WgradsError::AllWgradsCached)
    );
    assert_eq!(*basis.wgrad_int_mon(FaceMonNum(2), OShape(0)), 102.0);
}

#[test]
fn weak_gradients_must_be_one_per_monomial() {
    let mut basis = basis_2x3();
    assert_eq!(
        basis.cache_wgrads_on_oshape(vec![0.0; 5], side_wgrads()),
        Err(WgradsError::WgradsShapeMismatch)
    );
    assert_eq!(
        basis.cache_wgrads_on_oshape(int_wgrads(), vec![vec![0.0; 2]; 3]),
        Err(WgradsError::WgradsShapeMismatch)
    );
    let mut ragged = side_wgrads();
    ragged[2].push(0.0);
    assert_eq!(
        basis.cache_wgrads_on_oshape(int_wgrads(), ragged),
        Err(WgradsError::WgradsShapeMismatch)
    );
    // A refusal leaves the basis waiting for the same shape.
    assert_eq!(basis.next_oshape_without_wgrads(), Some(OShape(0)));
    assert_eq!(basis.cache_wgrads_on_oshape(int_wgrads(), side_wgrads()), Ok(()));
}

#[test]
fn basis_numbers_are_ordered_as_integers() {
    assert!(BasisElNum(3) < BasisElNum(4));
    assert!(FaceMonNum(0) < FaceMonNum(1));
    assert_eq!(BasisElNum(7).max(BasisElNum(2)), BasisElNum(7));
}

fn generated(d: usize, lim: DegLim) -> Vec<Vec<u8>> {
    exps_of(&mons_with_deg_lim_asc(Dim(d), lim))
}

#[test]
fn monomials_up_to_a_total_degree() {
    assert_eq!(generated(2, DegLim::MaxMonDeg(Deg(2))), exps_of(&deg_2_mons()));
    assert_eq!(generated(2, DegLim::MaxMonDeg(Deg(1))), exps_of(&deg_1_mons()));
    assert_eq!(generated(1, DegLim::MaxMonDeg(Deg(3))), vec![vec![0], vec![1], vec![2], vec![3]]);
    assert_eq!(generated(3, DegLim::MaxMonDeg(Deg(0))), vec![vec![0, 0, 0]]);
    assert_eq!(
        generated(3, DegLim::MaxMonDeg(Deg(1))),
        vec![vec![0, 0, 0], vec![0, 0, 1], vec![0, 1, 0], vec![1, 0, 0]]
    );
}

#[test]
fn monomials_up_to_a_factor_degree() {
    assert_eq!(
        generated(2, DegLim::MaxMonFactorDeg(Deg(1))),
        vec![vec![0, 0], vec![0, 1], vec![1, 0], vec![1, 1]]
    );
    assert_eq!(
        generated(2, DegLim::MaxMonFactorDeg(Deg(2))),
        vec![
            vec![0, 0],
            vec![0, 1],
            vec![0, 2],
            vec![1, 0],
            vec![1, 1],
            vec![1, 2],
            vec![2, 0],
            vec![2, 1],
            vec![2, 2]
        ]
    );
    assert_eq!(generated(1, DegLim::MaxMonFactorDeg(Deg(0))), vec![vec![0]]);
}

#[test]
fn the_constant_is_the_monomial_in_no_coordinate() {
    assert_eq!(generated(0, DegLim::MaxMonDeg(Deg(5))), vec![Vec::<u8>::new()]);
    assert_eq!(generated(0, DegLim::MaxMonFactorDeg(Deg(0))), vec![Vec::<u8>::new()]);
}

#[test]
fn monomials_reach_the_greatest_degree() {
    let all = generated(1, DegLim::MaxMonDeg(Deg(255)));
    assert_eq!(all.len(), 256);
    assert_eq!(all[255], vec![255]);
    let all = generated(2, DegLim::MaxMonDeg(Deg(255)));
    assert_eq!(all.len(), 256 * 257 / 2);
    assert_eq!(all[all.len() - 1], vec![255, 0]);
}

fn binomial(n: usize, k: usize) -> usize {
    (0..k).fold(1, |b, i| b * (n - i) / (i + 1))
}

#[test]
fn generated_monomials_are_all_and_ascending() {
    for d in 0..5usize {
        for k in 0..5u8 {
            let total = generated(d, DegLim::MaxMonDeg(Deg(k)));
            assert_eq!(total.len(), binomial(k as usize + d, d));
            assert!(total.iter().all(|v| v.len() == d));
            let deg = |v: &Vec<u8>| v.iter().map(|&e| e as usize).sum::<usize>();
            assert!(total.iter().all(|v| deg(v) <= k as usize));
            // Exponent vectors compare as the canonical order does.
            assert!(total.windows(2).all(|w| w[0] < w[1]));
            let factor = generated(d, DegLim::MaxMonFactorDeg(Deg(k)));
            assert_eq!(factor.len(), (k as usize + 1).pow(d as u32));
            assert!(factor.iter().all(|v| v.len() == d && v.iter().all(|&e| e <= k)));
            assert!(factor.windows(2).all(|w| w[0] < w[1]));
        }
    }
}

#[test]
fn as_many_monomials_are_constant_in_one_coordinate_as_in_another() {
    for d in 1..5usize {
        for lim in [DegLim::MaxMonDeg(Deg(3)), DegLim::MaxMonFactorDeg(Deg(2))] {
            let all = mons_with_deg_lim_asc(Dim(d), lim);
            let in_first = mons_constant_on_axis(&all, Dim(0)).len();
            for r in 0..d {
                let constant = mons_constant_on_axis(&all, Dim(r));
                assert_eq!(constant.len(), in_first);
                assert!(constant.iter().all(|m| m.exps[r] == Deg(0)));
                let expected: Vec<Vec<u8>> =
                    exps_of(&all).into_iter().filter(|v| v[r] == 0).collect();
                assert_eq!(exps_of(&constant), expected);
            }
        }
    }
}

#[test]
fn monomials_of_a_face_ascend_with_the_basis_number() {
    let basis = basis_2x3();
    for i in 1..basis.num_int_els() {
        if basis.support_int_fe_num(BasisElNum(i - 1)) == basis.support_int_fe_num(BasisElNum(i)) {
            let before = exps_of(&[basis.int_mon(BasisElNum(i - 1))]);
            let after = exps_of(&[basis.int_mon(BasisElNum(i))]);
            assert!(before < after);
        }
    }
}
