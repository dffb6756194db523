//! The numbering of a rectangular mesh, as mathematics on its logical dimensions.
//!
//! A mesh with logical dimensions `ld` has one element per point of the box `ld`. The sides
//! that two elements share fall into one group per axis: those perpendicular to axis `a` form
//! a box of their own, the side mesh of `a`, which is `ld` with the extent of `a` reduced by
//! one. The groups are numbered one after the other, by ascending axis.

use vstd::prelude::*;
use crate::mixed_radix::{
    digit, digits, encode, in_box, lemma_digits_encode_id, lemma_encode_digits_id,
    lemma_encode_step, lemma_prod_le, lemma_prod_positive,
    lemma_prod_update, positive_upto, prod_upto, volume,
};

verus! {

/// Logical dimensions of the mesh of sides perpendicular to axis `a`.
pub open spec fn side_ldims(ld: Seq<nat>, a: nat) -> Seq<nat> {
    ld.update(a as int, (ld[a as int] - 1) as nat)
}

/// Number of non-boundary sides perpendicular to axis `a`.
pub open spec fn nb_side_count(ld: Seq<nat>, a: nat) -> nat {
    volume(side_ldims(ld, a))
}

/// Number of non-boundary sides perpendicular to an axis before `a`: the number of the first
/// side perpendicular to `a`.
pub open spec fn nb_sides_before(ld: Seq<nat>, a: nat) -> nat
    decreases a,
{
    if a == 0 {
        0
    } else {
        nb_sides_before(ld, (a - 1) as nat) + nb_side_count(ld, (a - 1) as nat)
    }
}

/// Number of non-boundary sides of the mesh.
pub open spec fn total_nb_sides(ld: Seq<nat>) -> nat {
    nb_sides_before(ld, ld.len())
}

/// The highest axis at or below `r` whose first side number is at most `n`.
pub open spec fn perp_axis_scan(ld: Seq<nat>, n: nat, r: nat) -> nat
    decreases r,
{
    if r == 0 || nb_sides_before(ld, r) <= n {
        r
    } else {
        perp_axis_scan(ld, n, (r - 1) as nat)
    }
}

/// The axis to which side `n` is perpendicular.
pub open spec fn perp_axis(ld: Seq<nat>, n: nat) -> nat {
    perp_axis_scan(ld, n, (ld.len() - 1) as nat)
}

/// Coordinates of side `n` in the side mesh of its perpendicular axis.
pub open spec fn nb_side_coords(ld: Seq<nat>, n: nat) -> Seq<nat> {
    let a = perp_axis(ld, n);
    digits(side_ldims(ld, a), (n - nb_sides_before(ld, a)) as nat)
}

/// Number of the side perpendicular to `a` with the given coordinates in the side mesh of `a`.
pub open spec fn nb_side_number(ld: Seq<nat>, coords: Seq<nat>, a: nat) -> nat {
    nb_sides_before(ld, a) + encode(side_ldims(ld, a), coords)
}

/// Axis to which a face slot is perpendicular.
pub open spec fn face_axis(side_face: nat) -> nat {
    side_face / 2
}

/// The face slot is the one of lesser coordinate along its axis.
pub open spec fn face_is_lesser(side_face: nat) -> bool {
    side_face % 2 == 0
}

/// The face lies on the boundary of the mesh.
pub open spec fn on_boundary(ld: Seq<nat>, fe: nat, side_face: nat) -> bool {
    let a = face_axis(side_face);
    let c = digit(ld, fe, a);
    if face_is_lesser(side_face) {
        c == 0
    } else {
        c == ld[a as int] - 1
    }
}

/// Coordinates, in the side mesh of the face's axis, of the side in a face slot of element `fe`:
/// those of the element, stepped back along the axis for a lesser face.
pub open spec fn fe_face_side_coords(ld: Seq<nat>, fe: nat, side_face: nat) -> Seq<nat> {
    let a = face_axis(side_face) as int;
    let c = digits(ld, fe);
    if face_is_lesser(side_face) {
        c.update(a, (c[a] - 1) as nat)
    } else {
        c
    }
}

/// Number of the side in a face slot of element `fe`.
pub open spec fn fe_face_side(ld: Seq<nat>, fe: nat, side_face: nat) -> nat {
    nb_side_number(ld, fe_face_side_coords(ld, fe, side_face), face_axis(side_face))
}

/// The element on the lesser side of side `n`.
pub open spec fn lesser_fe(ld: Seq<nat>, n: nat) -> nat {
    encode(ld, nb_side_coords(ld, n))
}

/// The element on the greater side of side `n`.
pub open spec fn greater_fe(ld: Seq<nat>, n: nat) -> nat {
    lesser_fe(ld, n) + prod_upto(ld, perp_axis(ld, n))
}

/// Number of elements in a layer of the mesh perpendicular to axis `a`.
pub open spec fn cross_section(ld: Seq<nat>, a: nat) -> nat {
    volume(ld.update(a as int, 1))
}

/// Number of boundary sides perpendicular to an axis before `k`: two caps per axis.
pub open spec fn boundary_sides_before(ld: Seq<nat>, k: nat) -> nat
    decreases k,
{
    if k == 0 {
        0
    } else {
        boundary_sides_before(ld, (k - 1) as nat) + 2 * cross_section(ld, (k - 1) as nat)
    }
}

/// Number of boundary sides of the mesh.
pub open spec fn total_boundary_sides(ld: Seq<nat>) -> nat {
    boundary_sides_before(ld, ld.len())
}

/// Largest number of axes for which every face slot has a number.
pub const MAX_SPACE_DIM: usize = 127;

/// The logical dimensions describe a mesh whose counts fit the machine: between one and
/// `MAX_SPACE_DIM` axes, at least one element along each.
pub open spec fn valid_ldims(ld: Seq<nat>) -> bool {
    &&& 1 <= ld.len() <= MAX_SPACE_DIM
    &&& positive_upto(ld, ld.len())
    &&& volume(ld) <= usize::MAX
    &&& total_nb_sides(ld) <= usize::MAX
    &&& total_boundary_sides(ld) <= usize::MAX
}

/// A side mesh is nowhere larger than the mesh.
pub proof fn lemma_side_prod_le(ld: Seq<nat>, a: nat, k: nat)
    requires
        a < ld.len(),
        k <= ld.len(),
        ld[a as int] > 0,
    ensures
        prod_upto(side_ldims(ld, a), k) <= prod_upto(ld, k),
{
    assert forall|r: int| 0 <= r < k implies #[trigger] side_ldims(ld, a)[r] <= ld[r] by {}
    lemma_prod_le(side_ldims(ld, a), ld, k);
}

/// The first side numbers ascend with the axis.
pub proof fn lemma_nb_sides_before_monotone(ld: Seq<nat>, a: nat, b: nat)
    requires
        a <= b,
    ensures
        nb_sides_before(ld, a) <= nb_sides_before(ld, b),
    decreases b,
{
    if a < b {
        lemma_nb_sides_before_monotone(ld, a, (b - 1) as nat);
    }
}

/// The scan for the perpendicular axis ends at an axis whose range of side numbers holds `n`.
pub proof fn lemma_perp_axis_scan(ld: Seq<nat>, n: nat, r: nat)
    requires
        r < ld.len(),
        n < nb_sides_before(ld, r + 1),
    ensures
        perp_axis_scan(ld, n, r) <= r,
        nb_sides_before(ld, perp_axis_scan(ld, n, r)) <= n,
        n < nb_sides_before(ld, perp_axis_scan(ld, n, r) + 1),
    decreases r,
{
    if !(r == 0 || nb_sides_before(ld, r) <= n) {
        lemma_perp_axis_scan(ld, n, (r - 1) as nat);
    }
}

/// Each side number lies in the range of its perpendicular axis.
pub proof fn lemma_perp_axis_range(ld: Seq<nat>, n: nat)
    requires
        ld.len() >= 1,
        n < total_nb_sides(ld),
    ensures
        perp_axis(ld, n) < ld.len(),
        nb_sides_before(ld, perp_axis(ld, n)) <= n,
        n < nb_sides_before(ld, perp_axis(ld, n)) + nb_side_count(ld, perp_axis(ld, n)),
        nb_side_count(ld, perp_axis(ld, n)) > 0,
{
    lemma_perp_axis_scan(ld, n, (ld.len() - 1) as nat);
}

/// Only one axis has a range of side numbers that holds `n`.
pub proof fn lemma_perp_axis_unique(ld: Seq<nat>, n: nat, a: nat)
    requires
        a < ld.len(),
        nb_sides_before(ld, a) <= n < nb_sides_before(ld, a + 1),
    ensures
        perp_axis(ld, n) == a,
{
    lemma_nb_sides_before_monotone(ld, a + 1, ld.len());
    lemma_perp_axis_range(ld, n);
    let b = perp_axis(ld, n);
    if b < a {
        lemma_nb_sides_before_monotone(ld, b + 1, a);
    } else if a < b {
        lemma_nb_sides_before_monotone(ld, a + 1, b);
    }
}

/// The range of side numbers of an axis lies within the side numbers of the mesh.
pub proof fn lemma_axis_range_in_total(ld: Seq<nat>, a: nat)
    requires
        a < ld.len(),
    ensures
        nb_sides_before(ld, a) + nb_side_count(ld, a) <= total_nb_sides(ld),
{
    lemma_nb_sides_before_monotone(ld, a + 1, ld.len());
}

/// Round trip from a side number: a side number is the number of its own axis and
/// coordinates, and these lie in the side mesh of that axis.
pub proof fn lemma_nb_side_round_trip(ld: Seq<nat>, n: nat)
    requires
        ld.len() >= 1,
        n < total_nb_sides(ld),
    ensures
        perp_axis(ld, n) < ld.len(),
        in_box(side_ldims(ld, perp_axis(ld, n)), nb_side_coords(ld, n)),
        nb_side_number(ld, nb_side_coords(ld, n), perp_axis(ld, n)) == n,
{
    lemma_perp_axis_range(ld, n);
    let a = perp_axis(ld, n);
    lemma_encode_digits_id(side_ldims(ld, a), (n - nb_sides_before(ld, a)) as nat);
}

/// Round trip from coordinates: the side numbered for an axis and coordinates in the side
/// mesh of that axis has that axis and those coordinates.
pub proof fn lemma_nb_side_coords_round_trip(ld: Seq<nat>, coords: Seq<nat>, a: nat)
    requires
        a < ld.len(),
        in_box(side_ldims(ld, a), coords),
    ensures
        nb_side_number(ld, coords, a) < total_nb_sides(ld),
        perp_axis(ld, nb_side_number(ld, coords, a)) == a,
        nb_side_coords(ld, nb_side_number(ld, coords, a)) == coords,
{
    let n = nb_side_number(ld, coords, a);
    lemma_digits_encode_id(side_ldims(ld, a), coords);
    lemma_axis_range_in_total(ld, a);
    lemma_perp_axis_unique(ld, n, a);
}

/// The coordinates of a side, read as element coordinates, are those of an element that has
/// a neighbor one step up the perpendicular axis.
pub proof fn lemma_side_box_in_mesh(ld: Seq<nat>, coords: Seq<nat>, a: nat)
    requires
        a < ld.len(),
        ld[a as int] > 0,
        in_box(side_ldims(ld, a), coords),
    ensures
        in_box(ld, coords),
        in_box(ld, coords.update(a as int, coords[a as int] + 1)),
{
    let sd = side_ldims(ld, a);
    let up = coords.update(a as int, coords[a as int] + 1);
    assert forall|r: int| 0 <= r < ld.len() implies #[trigger] coords[r] < ld[r] by {
        assert(coords[r] < sd[r]);
    }
    assert forall|r: int| 0 <= r < ld.len() implies #[trigger] up[r] < ld[r] by {
        assert(coords[r] < sd[r]);
    }
}

/// Neighbor consistency, seen from a side: the elements below and above a side are two
/// elements of the mesh, the side is no boundary side of either, and each finds the side in
/// the face slot that looks at the other.
pub proof fn lemma_side_neighbors(ld: Seq<nat>, n: nat)
    requires
        valid_ldims(ld),
        n < total_nb_sides(ld),
    ensures
        perp_axis(ld, n) < ld.len(),
        lesser_fe(ld, n) < greater_fe(ld, n) < volume(ld),
        !on_boundary(ld, lesser_fe(ld, n), 2 * perp_axis(ld, n) + 1),
        !on_boundary(ld, greater_fe(ld, n), 2 * perp_axis(ld, n)),
        fe_face_side(ld, lesser_fe(ld, n), 2 * perp_axis(ld, n) + 1) == n,
        fe_face_side(ld, greater_fe(ld, n), 2 * perp_axis(ld, n)) == n,
{
    lemma_nb_side_round_trip(ld, n);
    let a = perp_axis(ld, n);
    let c = nb_side_coords(ld, n);
    let up = c.update(a as int, c[a as int] + 1);
    let lo = lesser_fe(ld, n);
    let hi = greater_fe(ld, n);
    lemma_side_box_in_mesh(ld, c, a);
    lemma_digits_encode_id(ld, c);
    lemma_digits_encode_id(ld, up);
    lemma_encode_step(ld, c, a, ld.len());
    lemma_prod_positive(ld, a);
    assert(hi == encode(ld, up));
    assert(c[a as int] < side_ldims(ld, a)[a as int]);
    // Seen from below, the side is in the greater face slot.
    assert(face_axis(2 * a + 1) == a && !face_is_lesser(2 * a + 1));
    assert(digit(ld, lo, a) == digits(ld, lo)[a as int]);
    assert(fe_face_side_coords(ld, lo, 2 * a + 1) == c);
    // Seen from above, it is in the lesser face slot, one step back along the axis.
    assert(face_axis(2 * a) == a && face_is_lesser(2 * a));
    assert(digit(ld, hi, a) == digits(ld, hi)[a as int]);
    assert(fe_face_side_coords(ld, hi, 2 * a) =~= c);
}

/// Neighbor consistency, seen from an element: the side in a face slot that is not on the
/// boundary is a side of the mesh, perpendicular to the axis of the slot, and the element is
/// the one above it for a lesser slot, the one below it for a greater slot.
pub proof fn lemma_face_side(ld: Seq<nat>, fe: nat, side_face: nat)
    requires
        valid_ldims(ld),
        fe < volume(ld),
        side_face < 2 * ld.len(),
        !on_boundary(ld, fe, side_face),
    ensures
        in_box(side_ldims(ld, face_axis(side_face)), fe_face_side_coords(ld, fe, side_face)),
        fe_face_side(ld, fe, side_face) < total_nb_sides(ld),
        perp_axis(ld, fe_face_side(ld, fe, side_face)) == face_axis(side_face),
        nb_side_coords(ld, fe_face_side(ld, fe, side_face)) == fe_face_side_coords(
            ld,
            fe,
            side_face,
        ),
        face_is_lesser(side_face) ==> greater_fe(ld, fe_face_side(ld, fe, side_face)) == fe,
        !face_is_lesser(side_face) ==> lesser_fe(ld, fe_face_side(ld, fe, side_face)) == fe,
{
    let a = face_axis(side_face);
    let sd = side_ldims(ld, a);
    let c = digits(ld, fe);
    let sc = fe_face_side_coords(ld, fe, side_face);
    lemma_encode_digits_id(ld, fe);
    assert(c[a as int] == digit(ld, fe, a));
    assert forall|r: int| 0 <= r < ld.len() implies #[trigger] sc[r] < sd[r] by {
        assert(c[r] < ld[r]);
    }
    lemma_nb_side_coords_round_trip(ld, sc, a);
    if face_is_lesser(side_face) {
        lemma_encode_step(ld, sc, a, ld.len());
        assert(sc.update(a as int, sc[a as int] + 1) =~= c);
    }
}

/// The elements of the mesh are as many as the layers along an axis times the elements of
/// one layer.
pub proof fn lemma_volume_by_layers(ld: Seq<nat>, a: nat)
    requires
        a < ld.len(),
        ld[a as int] > 0,
    ensures
        volume(ld) == ld[a as int] * cross_section(ld, a),
        nb_side_count(ld, a) == (ld[a as int] - 1) * cross_section(ld, a),
{
    let layer = ld.update(a as int, 1);
    lemma_prod_update(layer, a, ld[a as int], ld.len());
    assert(layer.update(a as int, ld[a as int]) =~= ld);
    let v = volume(ld);
    let cs = cross_section(ld, a);
    let l = ld[a as int];
    assert(v == l * cs) by (nonlinear_arith)
        requires
            v * 1 == cs * l,
    ;
    lemma_prod_update(layer, a, (l - 1) as nat, ld.len());
    assert(layer.update(a as int, (l - 1) as nat) =~= side_ldims(ld, a));
    let s = nb_side_count(ld, a);
    assert(s == (l - 1) * cs) by (nonlinear_arith)
        requires
            s * 1 == cs * (l - 1),
    ;
}

/// Every face slot of every element holds a boundary side or one of the two ends of a
/// non-boundary side: counted over the first `k` axes, `2 * nb + boundary == 2 * k * volume`.
pub proof fn lemma_sides_by_axis(ld: Seq<nat>, k: nat)
    requires
        k <= ld.len(),
        positive_upto(ld, ld.len()),
    ensures
        2 * nb_sides_before(ld, k) + boundary_sides_before(ld, k) == 2 * k * volume(ld),
    decreases k,
{
    let v = volume(ld);
    if k == 0 {
        assert(2 * k * v == 0) by (nonlinear_arith)
            requires
                k == 0,
        ;
    } else {
        let a = (k - 1) as nat;
        lemma_sides_by_axis(ld, a);
        lemma_volume_by_layers(ld, a);
        let l = ld[a as int];
        let cs = cross_section(ld, a);
        let nb = nb_side_count(ld, a);
        assert(2 * nb + 2 * cs == 2 * v) by (nonlinear_arith)
            requires
                v == l * cs,
                nb == (l - 1) * cs,
        ;
        assert(2 * k * v == 2 * a * v + 2 * v) by (nonlinear_arith)
            requires
                k == a + 1,
        ;
    }
}

} // verus!
