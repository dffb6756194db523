//! A structured rectangular mesh: the mappings between mesh coordinates and the flat
//! numbers of its elements and of its non-boundary sides.

use vstd::prelude::*;
use crate::common::{Dim, R};
use crate::mesh::{count_false, FENum, Mesh, NBSideInclusions, NBSideNum, OShape, SideFace};
use crate::mixed_radix::{
    digit, digits, encode, encode_upto, in_box, lemma_digit_bound, lemma_digits_encode_id,
    lemma_encode_bound, lemma_encode_digits_id, lemma_positive_prod_factors, lemma_prod_le,
    lemma_prod_monotone, lemma_prod_positive, positive_upto, prod_upto, volume,
};
use crate::rect_topology::{
    boundary_sides_before, cross_section, face_axis, face_is_lesser, fe_face_side,
    fe_face_side_coords, greater_fe, lemma_face_side, lemma_nb_side_coords_round_trip,
    lemma_nb_side_round_trip, lemma_nb_sides_before_monotone, lemma_perp_axis_range,
    lemma_perp_axis_unique, lemma_side_box_in_mesh, lemma_side_neighbors, lemma_side_prod_le,
    lemma_sides_by_axis, lesser_fe, nb_side_coords, nb_side_count, nb_side_number,
    nb_sides_before, on_boundary, perp_axis, perp_axis_scan, side_ldims, total_boundary_sides,
    total_nb_sides, valid_ldims, MAX_SPACE_DIM,
};

verus! {

/// Bits of the relative error asked of integrals when none is given: `1e-12`.
pub const DEFAULT_INTEGRATION_REL_ERR: u64 = 0x3d71_9799_812d_ea11;

/// Bits of the absolute error asked of integrals when none is given: `1e-12`.
pub const DEFAULT_INTEGRATION_ABS_ERR: u64 = 0x3d71_9799_812d_ea11;

/// One integer component of a position in a mesh: a column, a row, a layer.
#[derive(Clone, Copy, PartialEq, Eq, Structural, Debug)]
pub struct MeshCoord(pub usize);

/// Where a non-boundary side lies: the axis it is perpendicular to, and its coordinates in
/// the mesh of the sides perpendicular to that axis.
#[derive(Debug)]
pub struct NBSideGeom {
    pub perp_axis: Dim,
    pub mesh_coords: Vec<MeshCoord>,
}

/// Why a mesh cannot be built from a configuration.
#[derive(Clone, Copy, PartialEq, Eq, Structural, Debug)]
pub enum MeshError {
    /// The space has no axis, or more than `MAX_SPACE_DIM`.
    SpaceDimUnsupported,
    /// The bounds or the logical dimensions do not have one entry per axis.
    BoundsLengthMismatch,
    /// On this axis the upper bound is not above the lower one.
    NonPositiveBoundSpan(Dim),
    /// On this axis the mesh has no element.
    NonPositiveLogicalDim(Dim),
    /// The mesh has more elements or sides than a machine word counts.
    TooLarge,
}

/// The coordinates as mathematical integers.
pub open spec fn coord_values(coords: Seq<MeshCoord>) -> Seq<nat> {
    Seq::new(coords.len(), |i: int| coords[i].0 as nat)
}

/// The mathematical integers as coordinates.
pub open spec fn as_coords(values: Seq<nat>) -> Seq<MeshCoord> {
    Seq::new(values.len(), |i: int| MeshCoord(values[i] as usize))
}

/// On axis `r` the bounds span a positive length and the mesh has an element.
pub open spec fn axis_ok(
    min_bounds: Seq<R>,
    max_bounds: Seq<R>,
    mesh_ldims: Seq<MeshCoord>,
    r: int,
) -> bool {
    &&& max_bounds[r].spec_gt(min_bounds[r])
    &&& mesh_ldims[r].0 > 0
}

/// The element and side counts of a mesh with these logical dimensions fit a machine word.
pub open spec fn counts_fit(ld: Seq<nat>) -> bool {
    &&& volume(ld) <= usize::MAX
    &&& total_nb_sides(ld) <= usize::MAX
    &&& total_boundary_sides(ld) <= usize::MAX
}

/// A rectangular mesh of equal rectangular elements.
pub struct RectMesh {
    space_dim: Dim,
    // Corners of the mesh in space.
    min_bounds: Vec<R>,
    max_bounds: Vec<R>,
    // Number of elements along each axis.
    mesh_ldims: Vec<MeshCoord>,
    // Entry r is the product of the logical dimensions up to and including axis r.
    cumprods_mesh_ldims: Vec<usize>,
    // Row a holds the same for the mesh of sides perpendicular to axis a.
    cumprods_nb_side_mesh_ldims_by_perp_axis: Vec<Vec<usize>>,
    // Entry a is the number of the first non-boundary side perpendicular to axis a.
    first_nb_side_nums_by_perp_axis: Vec<NBSideNum>,
    num_fes: usize,
    num_nb_sides: usize,
    num_side_faces_per_fe: usize,
    integration_rel_err: R,
    integration_abs_err: R,
}

impl RectMesh {
    /// Number of elements along each axis.
    pub closed spec fn ldims(&self) -> Seq<nat> {
        coord_values(self.mesh_ldims@)
    }

    /// Least coordinate of the mesh on each axis.
    pub closed spec fn spec_min_bounds(&self) -> Seq<R> {
        self.min_bounds@
    }

    /// Greatest coordinate of the mesh on each axis.
    pub closed spec fn spec_max_bounds(&self) -> Seq<R> {
        self.max_bounds@
    }

    /// Relative error asked of integrals over parts of the mesh.
    pub closed spec fn spec_integration_rel_err(&self) -> R {
        self.integration_rel_err
    }

    /// Absolute error asked of integrals over parts of the mesh.
    pub closed spec fn spec_integration_abs_err(&self) -> R {
        self.integration_abs_err
    }

    /// The tables that the mesh keeps hold what its logical dimensions give.
    pub closed spec fn tables_agree(&self) -> bool {
        let ld = self.ldims();
        let d = ld.len();
        &&& self.space_dim.0 == d
        &&& self.cumprods_mesh_ldims@.len() == d
        &&& forall|r: int|
            0 <= r < d ==> #[trigger] self.cumprods_mesh_ldims@[r] == prod_upto(ld, (r + 1) as nat)
        &&& self.cumprods_nb_side_mesh_ldims_by_perp_axis@.len() == d
        &&& forall|a: int|
            0 <= a < d ==> (#[trigger] self.cumprods_nb_side_mesh_ldims_by_perp_axis@[a])@.len()
                == d
        &&& forall|a: int, r: int|
            0 <= a < d && 0 <= r < d
                ==> #[trigger] self.cumprods_nb_side_mesh_ldims_by_perp_axis@[a]@[r] == prod_upto(
                side_ldims(ld, a as nat),
                (r + 1) as nat,
            )
        &&& self.first_nb_side_nums_by_perp_axis@.len() == d
        &&& forall|a: int|
            0 <= a < d ==> (#[trigger] self.first_nb_side_nums_by_perp_axis@[a]).0
                == nb_sides_before(ld, a as nat)
        &&& self.num_fes == volume(ld)
        &&& self.num_nb_sides == total_nb_sides(ld)
        &&& self.num_side_faces_per_fe == 2 * d
    }
}

/// `cumprods` holds, at each index `r`, the product of the extents `dims` up to and including
/// axis `r`.
spec fn holds_cumprods(cumprods: Seq<usize>, dims: Seq<nat>) -> bool {
    &&& cumprods.len() == dims.len()
    &&& forall|r: int|
        0 <= r < dims.len() ==> #[trigger] cumprods[r] == prod_upto(dims, (r + 1) as nat)
}

/// Coordinate along axis `r` of point number `n` of the box `dims`.
fn decode_coord(
    cumprods: &Vec<usize>,
    n: usize,
    r: usize,
    Ghost(dims): Ghost<Seq<nat>>,
) -> (c: usize)
    requires
        holds_cumprods(cumprods@, dims),
        positive_upto(dims, dims.len()),
        r < dims.len(),
    ensures
        c == digit(dims, n as nat, r as nat),
        c < dims[r as int],
{
    proof {
        lemma_prod_positive(dims, r as nat);
        lemma_prod_positive(dims, (r + 1) as nat);
        lemma_digit_bound(dims, n as nat, r as nat);
    }
    let preceding: usize = if r == 0 {
        1
    } else {
        cumprods[r - 1]
    };
    (n % cumprods[r]) / preceding
}

/// Number of the point of the box `dims` with the given coordinates.
fn encode_coords(
    cumprods: &Vec<usize>,
    coords: &[MeshCoord],
    Ghost(dims): Ghost<Seq<nat>>,
) -> (n: usize)
    requires
        holds_cumprods(cumprods@, dims),
        dims.len() >= 1,
        in_box(dims, coord_values(coords@)),
    ensures
        n == encode(dims, coord_values(coords@)),
        n < volume(dims),
{
    let ghost cv = coord_values(coords@);
    let d = coords.len();
    let mut sum: usize = coords[0].0;
    let mut i: usize = 1;
    proof {
        assert(encode_upto(dims, cv, 0) == 0);
        assert(prod_upto(dims, 0) == 1);
        assert(cv[0] * 1 == cv[0]) by (nonlinear_arith);
        assert(encode_upto(dims, cv, 1) == cv[0]);
    }
    while i < d
        invariant
            holds_cumprods(cumprods@, dims),
            cv == coord_values(coords@),
            in_box(dims, cv),
            d == coords@.len(),
            1 <= i <= d,
            sum == encode_upto(dims, cv, i as nat),
        decreases d - i,
    {
        proof {
            lemma_encode_bound(dims, cv, (i + 1) as nat);
            assert(prod_upto(dims, (i + 1) as nat) == cumprods@[i as int]);
            assert(cumprods@[i - 1] == prod_upto(dims, i as nat));
        }
        sum = sum + coords[i].0 * cumprods[i - 1];
        i += 1;
    }
    proof {
        lemma_encode_bound(dims, cv, d as nat);
    }
    sum
}

impl RectMesh {
    /// `coords` are the mesh coordinates of an element.
    pub open spec fn is_fe_coords(&self, coords: Seq<MeshCoord>) -> bool {
        in_box(self.ldims(), coord_values(coords))
    }

    /// `coords` are the coordinates of a side in the mesh of the sides perpendicular to
    /// `perp_axis`.
    pub open spec fn is_nb_side_coords(&self, coords: Seq<MeshCoord>, perp_axis: Dim) -> bool {
        &&& perp_axis.0 < self.ldims().len()
        &&& in_box(side_ldims(self.ldims(), perp_axis.0 as nat), coord_values(coords))
    }

    /// Mesh coordinate of element `fe` along axis `r`.
    pub open spec fn spec_fe_mesh_coord(&self, r: Dim, fe: FENum) -> MeshCoord {
        MeshCoord(digit(self.ldims(), fe.0 as nat, r.0 as nat) as usize)
    }

    /// Mesh coordinates of element `fe`.
    pub open spec fn spec_fe_mesh_coords(&self, fe: FENum) -> Seq<MeshCoord> {
        as_coords(digits(self.ldims(), fe.0 as nat))
    }

    /// Number of the element with the given mesh coordinates.
    pub open spec fn spec_fe_with_mesh_coords(&self, coords: Seq<MeshCoord>) -> FENum {
        FENum(encode(self.ldims(), coord_values(coords)) as usize)
    }

    /// Axis to which non-boundary side `n` is perpendicular.
    pub open spec fn spec_perp_axis_for_nb_side(&self, n: NBSideNum) -> Dim {
        Dim(perp_axis(self.ldims(), n.0 as nat) as usize)
    }

    /// Coordinates of non-boundary side `n` in the mesh of the sides with its orientation.
    pub open spec fn spec_nb_side_mesh_coords(&self, n: NBSideNum) -> Seq<MeshCoord> {
        as_coords(nb_side_coords(self.ldims(), n.0 as nat))
    }

    /// Number of the side perpendicular to `perp_axis` with the given coordinates in the mesh
    /// of such sides.
    pub open spec fn spec_nb_side_with_mesh_coords(
        &self,
        coords: Seq<MeshCoord>,
        perp_axis: Dim,
    ) -> NBSideNum {
        NBSideNum(nb_side_number(self.ldims(), coord_values(coords), perp_axis.0 as nat) as usize)
    }

    /// The mesh over the box from `min_bounds` to `max_bounds`, with the default tolerances
    /// for integrals.
    pub fn new(
        space_dim: Dim,
        min_bounds: Vec<R>,
        max_bounds: Vec<R>,
        mesh_ldims: Vec<MeshCoord>,
    ) -> (res: Result<RectMesh, MeshError>)
        ensures
            match res {
                Ok(mesh) => {
                    &&& config_accepted(space_dim, min_bounds@, max_bounds@, mesh_ldims@)
                    &&& mesh.wf()
                    &&& mesh.ldims() == coord_values(mesh_ldims@)
                    &&& mesh.spec_min_bounds() == min_bounds@
                    &&& mesh.spec_max_bounds() == max_bounds@
                    &&& mesh.spec_integration_rel_err() == R(DEFAULT_INTEGRATION_REL_ERR)
                    &&& mesh.spec_integration_abs_err() == R(DEFAULT_INTEGRATION_ABS_ERR)
                },
                Err(e) => config_rejected(space_dim, min_bounds@, max_bounds@, mesh_ldims@, e),
            },
    {
        new_impl(
            space_dim,
            min_bounds,
            max_bounds,
            mesh_ldims,
            R(DEFAULT_INTEGRATION_REL_ERR),
            R(DEFAULT_INTEGRATION_ABS_ERR),
        )
    }

    /// The mesh over the box from `min_bounds` to `max_bounds`, with the given tolerances for
    /// integrals.
    pub fn new_with_err_tols(
        space_dim: Dim,
        min_bounds: Vec<R>,
        max_bounds: Vec<R>,
        mesh_ldims: Vec<MeshCoord>,
        integration_rel_err: R,
        integration_abs_err: R,
    ) -> (res: Result<RectMesh, MeshError>)
        ensures
            match res {
                Ok(mesh) => {
                    &&& config_accepted(space_dim, min_bounds@, max_bounds@, mesh_ldims@)
                    &&& mesh.wf()
                    &&& mesh.ldims() == coord_values(mesh_ldims@)
                    &&& mesh.spec_min_bounds() == min_bounds@
                    &&& mesh.spec_max_bounds() == max_bounds@
                    &&& mesh.spec_integration_rel_err() == integration_rel_err
                    &&& mesh.spec_integration_abs_err() == integration_abs_err
                },
                Err(e) => config_rejected(space_dim, min_bounds@, max_bounds@, mesh_ldims@, e),
            },
    {
        new_impl(
            space_dim,
            min_bounds,
            max_bounds,
            mesh_ldims,
            integration_rel_err,
            integration_abs_err,
        )
    }

    /// Number of elements along each axis.
    pub fn mesh_ldims(&self) -> (ldims: &Vec<MeshCoord>)
        ensures
            coord_values(ldims@) == self.ldims(),
    {
        &self.mesh_ldims
    }

    /// Least coordinate of the mesh on each axis.
    pub fn min_bounds(&self) -> (bounds: &Vec<R>)
        ensures
            bounds@ == self.spec_min_bounds(),
    {
        &self.min_bounds
    }

    /// Greatest coordinate of the mesh on each axis.
    pub fn max_bounds(&self) -> (bounds: &Vec<R>)
        ensures
            bounds@ == self.spec_max_bounds(),
    {
        &self.max_bounds
    }

    /// Relative error asked of integrals over parts of the mesh.
    pub fn integration_rel_err(&self) -> (err: R)
        ensures
            err == self.spec_integration_rel_err(),
    {
        self.integration_rel_err
    }

    /// Absolute error asked of integrals over parts of the mesh.
    pub fn integration_abs_err(&self) -> (err: R)
        ensures
            err == self.spec_integration_abs_err(),
    {
        self.integration_abs_err
    }

    /// Finds the axis to which a non-boundary side is perpendicular: the highest axis whose
    /// first side number is not above `n`.
    pub fn perp_axis_for_nb_side(&self, n: NBSideNum) -> (a: Dim)
        requires
            self.wf(),
            n.0 < total_nb_sides(self.ldims()),
        ensures
            a == self.spec_perp_axis_for_nb_side(n),
            a.0 == perp_axis(self.ldims(), n.0 as nat),
            a.0 < self.ldims().len(),
            nb_sides_before(self.ldims(), a.0 as nat) <= n.0,
            n.0 < nb_sides_before(self.ldims(), a.0 as nat) + nb_side_count(
                self.ldims(),
                a.0 as nat,
            ),
    {
        let ghost ld = self.ldims();
        let mut r: usize = self.space_dim.0 - 1;
        while r > 0 && self.first_nb_side_nums_by_perp_axis[r].0 > n.0
            invariant
                self.wf(),
                ld == self.ldims(),
                r < ld.len(),
                perp_axis_scan(ld, n.0 as nat, r as nat) == perp_axis(ld, n.0 as nat),
            decreases r,
        {
            r -= 1;
        }
        proof {
            lemma_perp_axis_range(ld, n.0 as nat);
        }
        Dim(r)
    }

    /// Finds where a non-boundary side lies: its perpendicular axis and its coordinates in
    /// the mesh of the sides perpendicular to that axis.
    pub fn nb_side_geom(&self, n: NBSideNum) -> (geom: NBSideGeom)
        requires
            self.wf(),
            n.0 < total_nb_sides(self.ldims()),
        ensures
            geom.perp_axis == self.spec_perp_axis_for_nb_side(n),
            geom.mesh_coords@ == self.spec_nb_side_mesh_coords(n),
            coord_values(geom.mesh_coords@) == nb_side_coords(self.ldims(), n.0 as nat),
            self.is_nb_side_coords(geom.mesh_coords@, geom.perp_axis),
    {
        let ghost ld = self.ldims();
        let a = self.perp_axis_for_nb_side(n);
        let ghost sd = side_ldims(ld, a.0 as nat);
        let orientation_rel_side_num = n.0 - self.first_nb_side_nums_by_perp_axis[a.0].0;
        let cumprods_ldims_up_to = &self.cumprods_nb_side_mesh_ldims_by_perp_axis[a.0];
        proof {
            lemma_positive_prod_factors(sd, sd.len());
        }
        let d = self.space_dim.0;
        let mut side_mesh_coords: Vec<MeshCoord> = Vec::new();
        let mut r: usize = 0;
        while r < d
            invariant
                d == sd.len(),
                sd == side_ldims(self.ldims(), a.0 as nat),
                holds_cumprods(cumprods_ldims_up_to@, sd),
                positive_upto(sd, sd.len()),
                r <= d,
                side_mesh_coords@.len() == r,
                forall|j: int|
                    0 <= j < r ==> (#[trigger] side_mesh_coords@[j]).0 == digit(
                        sd,
                        orientation_rel_side_num as nat,
                        j as nat,
                    ),
            decreases d - r,
        {
            let c = decode_coord(cumprods_ldims_up_to, orientation_rel_side_num, r, Ghost(sd));
            side_mesh_coords.push(MeshCoord(c));
            r += 1;
        }
        proof {
            let cs = nb_side_coords(ld, n.0 as nat);
            assert(cs == digits(sd, orientation_rel_side_num as nat));
            assert forall|j: int| 0 <= j < d implies #[trigger] cs[j] < sd[j] by {
                lemma_prod_positive(sd, (j + 1) as nat);
                lemma_digit_bound(sd, orientation_rel_side_num as nat, j as nat);
            }
            assert(side_mesh_coords@ =~= as_coords(cs));
            assert(coord_values(side_mesh_coords@) =~= cs);
        }
        NBSideGeom { perp_axis: a, mesh_coords: side_mesh_coords }
    }

    /// Finds the number of the side perpendicular to `perp_axis` with the given coordinates
    /// in the mesh of such sides.
    pub fn nb_side_with_mesh_coords(&self, coords: &[MeshCoord], perp_axis: Dim) -> (n: NBSideNum)
        requires
            self.wf(),
            self.is_nb_side_coords(coords@, perp_axis),
        ensures
            n == self.spec_nb_side_with_mesh_coords(coords@, perp_axis),
            n.0 == nb_side_number(self.ldims(), coord_values(coords@), perp_axis.0 as nat),
            n.0 < total_nb_sides(self.ldims()),
            self.spec_perp_axis_for_nb_side(n) == perp_axis,
    {
        let ghost ld = self.ldims();
        let ghost sd = side_ldims(ld, perp_axis.0 as nat);
        let s_a0 = self.first_nb_side_nums_by_perp_axis[perp_axis.0].0;
        let rel = encode_coords(
            &self.cumprods_nb_side_mesh_ldims_by_perp_axis[perp_axis.0],
            coords,
            Ghost(sd),
        );
        proof {
            lemma_nb_sides_before_monotone(ld, (perp_axis.0 + 1) as nat, ld.len());
            lemma_perp_axis_unique(
                ld,
                (s_a0 + rel) as nat,
                perp_axis.0 as nat,
            );
        }
        NBSideNum(s_a0 + rel)
    }

    /// Finds the number of the element with the given mesh coordinates.
    pub fn fe_with_mesh_coords(&self, coords: &[MeshCoord]) -> (fe: FENum)
        requires
            self.wf(),
            self.is_fe_coords(coords@),
        ensures
            fe == self.spec_fe_with_mesh_coords(coords@),
            fe.0 == encode(self.ldims(), coord_values(coords@)),
            fe.0 < volume(self.ldims()),
    {
        FENum(encode_coords(&self.cumprods_mesh_ldims, coords, Ghost(self.ldims())))
    }

    /// Finds the mesh coordinates of an element.
    pub fn fe_mesh_coords(&self, fe: FENum) -> (coords: Vec<MeshCoord>)
        requires
            self.wf(),
            fe.0 < volume(self.ldims()),
        ensures
            coords@ == self.spec_fe_mesh_coords(fe),
            coord_values(coords@) == digits(self.ldims(), fe.0 as nat),
            self.is_fe_coords(coords@),
    {
        let d = self.space_dim.0;
        let mut coords: Vec<MeshCoord> = Vec::new();
        let mut r: usize = 0;
        while r < d
            invariant
                self.wf(),
                fe.0 < volume(self.ldims()),
                d == self.ldims().len(),
                r <= d,
                coords@.len() == r,
                forall|j: int|
                    0 <= j < r ==> #[trigger] coords@[j] == self.spec_fe_mesh_coord(
                        Dim(j as usize),
                        fe,
                    ),
                forall|j: int|
                    0 <= j < r ==> (#[trigger] coords@[j]).0 == digit(
                        self.ldims(),
                        fe.0 as nat,
                        j as nat,
                    ),
                forall|j: int| 0 <= j < r ==> (#[trigger] coords@[j]).0 < self.ldims()[j],
            decreases d - r,
        {
            let c = self.fe_mesh_coord(Dim(r), fe);
            coords.push(c);
            r += 1;
        }
        proof {
            assert(coords@ =~= self.spec_fe_mesh_coords(fe));
            assert(coord_values(coords@) =~= digits(self.ldims(), fe.0 as nat));
        }
        coords
    }

    /// Finds the mesh coordinate of an element along one axis.
    pub fn fe_mesh_coord(&self, r: Dim, fe: FENum) -> (c: MeshCoord)
        requires
            self.wf(),
            r.0 < self.ldims().len(),
            fe.0 < volume(self.ldims()),
        ensures
            c == self.spec_fe_mesh_coord(r, fe),
            c.0 == digit(self.ldims(), fe.0 as nat, r.0 as nat),
            c.0 < self.ldims()[r.0 as int],
    {
        MeshCoord(decode_coord(&self.cumprods_mesh_ldims, fe.0, r.0, Ghost(self.ldims())))
    }
}

impl Mesh for RectMesh {
    /// The mesh described by a valid configuration, with its tables in agreement.
    open spec fn wf(&self) -> bool {
        let d = self.ldims().len();
        &&& valid_ldims(self.ldims())
        &&& self.spec_min_bounds().len() == d
        &&& self.spec_max_bounds().len() == d
        &&& forall|r: int|
            0 <= r < d ==> (#[trigger] self.spec_max_bounds()[r]).spec_gt(
                self.spec_min_bounds()[r],
            )
        &&& self.tables_agree()
    }

    open spec fn spec_space_dim(&self) -> nat {
        self.ldims().len()
    }

    open spec fn spec_num_fes(&self) -> nat {
        volume(self.ldims())
    }

    open spec fn spec_num_nb_sides(&self) -> nat {
        total_nb_sides(self.ldims())
    }

    /// All elements of a rectangular mesh have the same shape.
    open spec fn spec_num_oriented_element_shapes(&self) -> nat {
        1
    }

    open spec fn spec_oriented_shape_for_fe(&self, fe: FENum) -> OShape {
        OShape(0)
    }

    /// Two face slots for each axis.
    open spec fn spec_num_side_faces_for_shape(&self, oshape: OShape) -> nat {
        2 * self.ldims().len()
    }

    /// On a side, the coordinate along the perpendicular axis is fixed.
    open spec fn spec_dependent_dim_for_oshape_side(
        &self,
        oshape: OShape,
        side_face: SideFace,
    ) -> Dim {
        Dim(face_axis(side_face.0 as nat) as usize)
    }

    open spec fn spec_is_boundary_side(&self, fe: FENum, side_face: SideFace) -> bool {
        on_boundary(self.ldims(), fe.0 as nat, side_face.0 as nat)
    }

    open spec fn spec_nb_side_num_for_fe_side(&self, fe: FENum, side_face: SideFace) -> NBSideNum {
        NBSideNum(fe_face_side(self.ldims(), fe.0 as nat, side_face.0 as nat) as usize)
    }

    /// The element below the side holds it in its greater face slot on the side's axis, the
    /// element above in its lesser one.
    open spec fn spec_fe_inclusions_of_nb_side(&self, sn: NBSideNum) -> NBSideInclusions {
        let a = perp_axis(self.ldims(), sn.0 as nat);
        NBSideInclusions {
            nb_side_num: sn,
            fe1: FENum(lesser_fe(self.ldims(), sn.0 as nat) as usize),
            sideface_in_fe1: SideFace((2 * a + 1) as u8),
            fe2: FENum(greater_fe(self.ldims(), sn.0 as nat) as usize),
            sideface_in_fe2: SideFace((2 * a) as u8),
        }
    }

    open spec fn spec_num_boundary_sides(&self) -> nat {
        total_boundary_sides(self.ldims())
    }

    open spec fn spec_max_num_shape_sides(&self) -> nat {
        2 * self.ldims().len()
    }

    fn space_dim(&self) -> (d: Dim) {
        self.space_dim
    }

    fn num_fes(&self) -> (n: usize) {
        self.num_fes
    }

    fn num_nb_sides(&self) -> (n: usize) {
        self.num_nb_sides
    }

    fn num_oriented_element_shapes(&self) -> (n: usize) {
        1
    }

    fn oriented_shape_for_fe(&self, fe: FENum) -> (oshape: OShape) {
        OShape(0)
    }

    fn num_side_faces_for_fe(&self, fe: FENum) -> (n: usize) {
        self.num_side_faces_per_fe
    }

    fn num_side_faces_for_shape(&self, oshape: OShape) -> (n: usize) {
        self.num_side_faces_per_fe
    }

    fn dependent_dim_for_oshape_side(&self, oshape: OShape, side_face: SideFace) -> (r: Dim)
        ensures
            r.0 == face_axis(side_face.0 as nat),
    {
        side_face_perp_axis(side_face)
    }

    fn fe_inclusions_of_nb_side(&self, sn: NBSideNum) -> (incls: NBSideInclusions)
        ensures
            incls.fe1.0 == lesser_fe(self.ldims(), sn.0 as nat),
            incls.fe2.0 == greater_fe(self.ldims(), sn.0 as nat),
            incls.sideface_in_fe1.0 == 2 * perp_axis(self.ldims(), sn.0 as nat) + 1,
            incls.sideface_in_fe2.0 == 2 * perp_axis(self.ldims(), sn.0 as nat),
    {
        let side_geom = self.nb_side_geom(sn);
        let a = side_geom.perp_axis;
        proof {
            let ld = self.ldims();
            lemma_side_neighbors(ld, sn.0 as nat);
            lemma_nb_side_round_trip(ld, sn.0 as nat);
            lemma_side_box_in_mesh(ld, nb_side_coords(ld, sn.0 as nat), a.0 as nat);
        }
        let lesser_fe = self.fe_with_mesh_coords(side_geom.mesh_coords.as_slice());
        let greater_fe = FENum(
            lesser_fe.0 + (if a.0 == 0 {
                1
            } else {
                self.cumprods_mesh_ldims[a.0 - 1]
            }),
        );
        NBSideInclusions {
            nb_side_num: sn,
            fe1: lesser_fe,
            sideface_in_fe1: greater_side_face_perp_to_axis(a),
            fe2: greater_fe,
            sideface_in_fe2: lesser_side_face_perp_to_axis(a),
        }
    }

    fn nb_side_num_for_fe_side(&self, fe: FENum, side_face: SideFace) -> (sn: NBSideNum)
        ensures
            sn.0 == fe_face_side(self.ldims(), fe.0 as nat, side_face.0 as nat),
    {
        let a = side_face_perp_axis(side_face);
        let mut side_mesh_coords = self.fe_mesh_coords(fe);
        proof {
            let ld = self.ldims();
            lemma_face_side(ld, fe.0 as nat, side_face.0 as nat);
            assert(coord_values(side_mesh_coords@)[a.0 as int] == digit(
                ld,
                fe.0 as nat,
                a.0 as nat,
            ));
        }
        if side_face_is_lesser_on_perp_axis(side_face) {
            // The side below the element lies one step back along the axis.
            let coord_a = side_mesh_coords[a.0];
            side_mesh_coords.set(a.0, MeshCoord(coord_a.0 - 1));
        }
        proof {
            assert(coord_values(side_mesh_coords@) =~= fe_face_side_coords(
                self.ldims(),
                fe.0 as nat,
                side_face.0 as nat,
            ));
        }
        self.nb_side_with_mesh_coords(side_mesh_coords.as_slice(), a)
    }

    fn is_boundary_side(&self, fe: FENum, side_face: SideFace) -> (b: bool) {
        let a = side_face_perp_axis(side_face);
        let coord_a = self.fe_mesh_coord(a, fe);
        let is_lesser_side = side_face_is_lesser_on_perp_axis(side_face);
        assert(self.ldims()[a.0 as int] == self.mesh_ldims@[a.0 as int].0);
        coord_a.0 == 0 && is_lesser_side || !is_lesser_side && coord_a.0 == self.mesh_ldims[a.0].0
            - 1
    }

    fn num_boundary_sides(&self) -> (n: usize) {
        boundary_side_count(&self.mesh_ldims).unwrap()
    }

    fn num_non_boundary_sides_for_fe(&self, fe: FENum) -> (n: usize) {
        let num_side_faces = self.num_side_faces_per_fe;
        let ghost flags = Seq::new(
            self.spec_num_side_faces_for_shape(self.spec_oriented_shape_for_fe(fe)),
            |k: int| self.spec_is_boundary_side(fe, SideFace(k as u8)),
        );
        let mut count: usize = 0;
        let mut sf: u8 = 0;
        while (sf as usize) < num_side_faces
            invariant
                self.wf(),
                fe.0 < self.spec_num_fes(),
                num_side_faces == 2 * self.ldims().len(),
                flags == Seq::new(
                    self.spec_num_side_faces_for_shape(self.spec_oriented_shape_for_fe(fe)),
                    |k: int| self.spec_is_boundary_side(fe, SideFace(k as u8)),
                ),
                sf <= num_side_faces,
                count == count_false(flags.subrange(0, sf as int)),
                count <= sf,
            decreases num_side_faces - sf,
        {
            proof {
                assert(flags.subrange(0, sf + 1).drop_last() =~= flags.subrange(0, sf as int));
            }
            if !self.is_boundary_side(fe, SideFace(sf)) {
                count += 1;
            }
            sf += 1;
        }
        proof {
            assert(flags.subrange(0, sf as int) =~= flags);
        }
        count
    }

    fn max_num_shape_sides(&self) -> (n: usize) {
        self.num_side_faces_per_fe
    }

    proof fn lemma_nb_side_is_side_of_its_fes(&self, sn: NBSideNum) {
        lemma_side_neighbors(self.ldims(), sn.0 as nat);
    }

    proof fn lemma_fe_is_included_by_its_nb_sides(&self, fe: FENum, side_face: SideFace) {
        lemma_face_side(self.ldims(), fe.0 as nat, side_face.0 as nat);
    }
}

/// Coordinates within a box of machine-word extents survive the passage through `MeshCoord`.
proof fn lemma_coords_in_box(dims: Seq<nat>, values: Seq<nat>)
    requires
        in_box(dims, values),
        forall|r: int| 0 <= r < dims.len() ==> #[trigger] dims[r] <= usize::MAX,
    ensures
        coord_values(as_coords(values)) == values,
{
    assert forall|r: int| 0 <= r < values.len() implies #[trigger] coord_values(
        as_coords(values),
    )[r] == values[r] by {
        assert(values[r] < dims[r]);
    }
    assert(coord_values(as_coords(values)) =~= values);
}

impl RectMesh {
    /// Element round trip: the mesh coordinates of an element lie in the mesh, and they
    /// encode to the element's number.
    pub proof fn lemma_fe_round_trip(&self, fe: FENum)
        requires
            self.wf(),
            fe.0 < self.spec_num_fes(),
        ensures
            self.is_fe_coords(self.spec_fe_mesh_coords(fe)),
            self.spec_fe_with_mesh_coords(self.spec_fe_mesh_coords(fe)) == fe,
    {
        let ld = self.ldims();
        lemma_encode_digits_id(ld, fe.0 as nat);
        lemma_coords_in_box(ld, digits(ld, fe.0 as nat));
    }

    /// Element round trip from coordinates: mesh coordinates that lie in the mesh encode to
    /// the number of an element, and that number decodes to them.
    pub proof fn lemma_fe_coords_round_trip(&self, coords: Seq<MeshCoord>)
        requires
            self.wf(),
            self.is_fe_coords(coords),
        ensures
            self.spec_fe_with_mesh_coords(coords).0 < self.spec_num_fes(),
            self.spec_fe_mesh_coords(self.spec_fe_with_mesh_coords(coords)) == coords,
    {
        let ld = self.ldims();
        lemma_digits_encode_id(ld, coord_values(coords));
        assert(as_coords(coord_values(coords)) =~= coords);
    }

    /// Side round trip: the perpendicular axis and the coordinates of a non-boundary side
    /// lie in the side mesh of that axis, and they encode to the side's number.
    pub proof fn lemma_nb_side_round_trip(&self, n: NBSideNum)
        requires
            self.wf(),
            n.0 < self.spec_num_nb_sides(),
        ensures
            self.is_nb_side_coords(
                self.spec_nb_side_mesh_coords(n),
                self.spec_perp_axis_for_nb_side(n),
            ),
            self.spec_nb_side_with_mesh_coords(
                self.spec_nb_side_mesh_coords(n),
                self.spec_perp_axis_for_nb_side(n),
            ) == n,
    {
        let ld = self.ldims();
        lemma_nb_side_round_trip(ld, n.0 as nat);
        let a = perp_axis(ld, n.0 as nat);
        lemma_coords_in_box(side_ldims(ld, a), nb_side_coords(ld, n.0 as nat));
    }

    /// Side round trip from coordinates: an axis and coordinates in its side mesh encode to
    /// the number of a non-boundary side, and that number decodes to them.
    pub proof fn lemma_nb_side_coords_round_trip(&self, coords: Seq<MeshCoord>, perp_axis: Dim)
        requires
            self.wf(),
            self.is_nb_side_coords(coords, perp_axis),
        ensures
            self.spec_nb_side_with_mesh_coords(coords, perp_axis).0 < self.spec_num_nb_sides(),
            self.spec_perp_axis_for_nb_side(self.spec_nb_side_with_mesh_coords(coords, perp_axis))
                == perp_axis,
            self.spec_nb_side_mesh_coords(self.spec_nb_side_with_mesh_coords(coords, perp_axis))
                == coords,
    {
        let ld = self.ldims();
        lemma_nb_side_coords_round_trip(ld, coord_values(coords), perp_axis.0 as nat);
        assert(as_coords(coord_values(coords)) =~= coords);
    }

    /// Each of the face slots of the elements holds a boundary side or one end of a
    /// non-boundary side, and each non-boundary side has two ends.
    pub proof fn lemma_side_faces_accounted(&self)
        requires
            self.wf(),
        ensures
            2 * self.spec_num_nb_sides() + self.spec_num_boundary_sides()
                == self.spec_max_num_shape_sides() * self.spec_num_fes(),
    {
        lemma_sides_by_axis(self.ldims(), self.ldims().len());
    }
}

/// Finds the axis to which a face slot is perpendicular.
pub fn side_face_perp_axis(side_face: SideFace) -> (a: Dim)
    ensures
        a.0 == face_axis(side_face.0 as nat),
{
    Dim(side_face.0 as usize / 2)
}

/// Whether a face slot is the one of lesser coordinate along its perpendicular axis.
pub fn side_face_is_lesser_on_perp_axis(side_face: SideFace) -> (b: bool)
    ensures
        b == face_is_lesser(side_face.0 as nat),
{
    side_face.0 % 2 == 0
}

/// The face slot of lesser coordinate along axis `a`.
pub fn lesser_side_face_perp_to_axis(a: Dim) -> (side_face: SideFace)
    requires
        a.0 <= MAX_SPACE_DIM,
    ensures
        side_face.0 == 2 * a.0,
{
    SideFace((2 * a.0) as u8)
}

/// The face slot of greater coordinate along axis `a`.
pub fn greater_side_face_perp_to_axis(a: Dim) -> (side_face: SideFace)
    requires
        a.0 <= MAX_SPACE_DIM,
    ensures
        side_face.0 == 2 * a.0 + 1,
{
    SideFace((2 * a.0 + 1) as u8)
}

/// The configuration describes a mesh that can be built.
pub open spec fn config_accepted(
    space_dim: Dim,
    min_bounds: Seq<R>,
    max_bounds: Seq<R>,
    mesh_ldims: Seq<MeshCoord>,
) -> bool {
    &&& 1 <= space_dim.0 <= MAX_SPACE_DIM
    &&& min_bounds.len() == space_dim.0
    &&& max_bounds.len() == space_dim.0
    &&& mesh_ldims.len() == space_dim.0
    &&& forall|r: int| 0 <= r < space_dim.0 ==> axis_ok(min_bounds, max_bounds, mesh_ldims, r)
    &&& counts_fit(coord_values(mesh_ldims))
}

/// The configuration is refused, and `e` is the first reason why: the space dimension is
/// looked at first, then the lengths, then the axes in ascending order and on each the bounds
/// before the logical dimension, last the size.
pub open spec fn config_rejected(
    space_dim: Dim,
    min_bounds: Seq<R>,
    max_bounds: Seq<R>,
    mesh_ldims: Seq<MeshCoord>,
    e: MeshError,
) -> bool {
    let dim_ok = 1 <= space_dim.0 <= MAX_SPACE_DIM;
    let lens_ok = min_bounds.len() == space_dim.0 && max_bounds.len() == space_dim.0
        && mesh_ldims.len() == space_dim.0;
    match e {
        MeshError::SpaceDimUnsupported => !dim_ok,
        MeshError::BoundsLengthMismatch => dim_ok && !lens_ok,
        MeshError::NonPositiveBoundSpan(a) => {
            &&& dim_ok
            &&& lens_ok
            &&& a.0 < space_dim.0
            &&& forall|r: int| 0 <= r < a.0 ==> axis_ok(min_bounds, max_bounds, mesh_ldims, r)
            &&& !max_bounds[a.0 as int].spec_gt(min_bounds[a.0 as int])
        },
        MeshError::NonPositiveLogicalDim(a) => {
            &&& dim_ok
            &&& lens_ok
            &&& a.0 < space_dim.0
            &&& forall|r: int| 0 <= r < a.0 ==> axis_ok(min_bounds, max_bounds, mesh_ldims, r)
            &&& max_bounds[a.0 as int].spec_gt(min_bounds[a.0 as int])
            &&& mesh_ldims[a.0 as int].0 == 0
        },
        MeshError::TooLarge => {
            &&& dim_ok
            &&& lens_ok
            &&& forall|r: int|
                0 <= r < space_dim.0 ==> axis_ok(min_bounds, max_bounds, mesh_ldims, r)
            &&& !counts_fit(coord_values(mesh_ldims))
        },
    }
}

/// Builds the mesh that spans the box from `min_bounds` to `max_bounds` in a space of
/// `space_dim` axes, with `mesh_ldims[r]` elements along axis `r`, or says why there is none.
pub fn new_impl(
    space_dim: Dim,
    min_bounds: Vec<R>,
    max_bounds: Vec<R>,
    mesh_ldims: Vec<MeshCoord>,
    integration_rel_err: R,
    integration_abs_err: R,
) -> (res: Result<RectMesh, MeshError>)
    ensures
        match res {
            Ok(mesh) => {
                &&& config_accepted(space_dim, min_bounds@, max_bounds@, mesh_ldims@)
                &&& mesh.wf()
                &&& mesh.ldims() == coord_values(mesh_ldims@)
                &&& mesh.spec_min_bounds() == min_bounds@
                &&& mesh.spec_max_bounds() == max_bounds@
                &&& mesh.spec_integration_rel_err() == integration_rel_err
                &&& mesh.spec_integration_abs_err() == integration_abs_err
            },
            Err(e) => config_rejected(space_dim, min_bounds@, max_bounds@, mesh_ldims@, e),
        },
{
    let d = space_dim.0;
    if d == 0 || d > MAX_SPACE_DIM {
        return Err(MeshError::SpaceDimUnsupported);
    }
    if min_bounds.len() != d || max_bounds.len() != d || mesh_ldims.len() != d {
        return Err(MeshError::BoundsLengthMismatch);
    }
    let ghost ld = coord_values(mesh_ldims@);
    let mut r: usize = 0;
    while r < d
        invariant
            d == space_dim.0,
            1 <= d <= MAX_SPACE_DIM,
            r <= d,
            min_bounds@.len() == d,
            max_bounds@.len() == d,
            mesh_ldims@.len() == d,
            forall|j: int| 0 <= j < r ==> axis_ok(min_bounds@, max_bounds@, mesh_ldims@, j),
        decreases d - r,
    {
        if !max_bounds[r].gt(min_bounds[r]) {
            return Err(MeshError::NonPositiveBoundSpan(Dim(r)));
        }
        if mesh_ldims[r].0 == 0 {
            return Err(MeshError::NonPositiveLogicalDim(Dim(r)));
        }
        r += 1;
    }
    assert(positive_upto(ld, d as nat)) by {
        assert forall|j: int| 0 <= j < d implies #[trigger] ld[j] > 0 by {
            assert(axis_ok(min_bounds@, max_bounds@, mesh_ldims@, j));
        }
    }

    let cumprods_mesh_ldims = match cumulative_products(&mesh_ldims) {
        Some(v) => v,
        None => {
            return Err(MeshError::TooLarge);
        },
    };
    let num_fes = cumprods_mesh_ldims[d - 1];

    let mut side_cumprods: Vec<Vec<usize>> = Vec::new();
    let mut first_nb_side_nums: Vec<NBSideNum> = Vec::new();
    let mut num_nb_sides: usize = 0;
    let mut perp_axis: usize = 0;
    while perp_axis < d
        invariant
            ld == coord_values(mesh_ldims@),
            d == space_dim.0,
            1 <= d <= MAX_SPACE_DIM,
            min_bounds@.len() == d,
            max_bounds@.len() == d,
            mesh_ldims@.len() == d,
            positive_upto(ld, d as nat),
            volume(ld) <= usize::MAX,
            forall|j: int| 0 <= j < d ==> axis_ok(min_bounds@, max_bounds@, mesh_ldims@, j),
            perp_axis <= d,
            side_cumprods@.len() == perp_axis,
            forall|a: int| 0 <= a < perp_axis ==> (#[trigger] side_cumprods@[a])@.len() == d,
            forall|a: int, r: int|
                0 <= a < perp_axis && 0 <= r < d ==> #[trigger] side_cumprods@[a]@[r] == prod_upto(
                    side_ldims(ld, a as nat),
                    (r + 1) as nat,
                ),
            first_nb_side_nums@.len() == perp_axis,
            forall|a: int|
                0 <= a < perp_axis ==> (#[trigger] first_nb_side_nums@[a]).0 == nb_sides_before(
                    ld,
                    a as nat,
                ),
            num_nb_sides == nb_sides_before(ld, perp_axis as nat),
        decreases d - perp_axis,
    {
        let row = side_cumulative_products(&mesh_ldims, perp_axis);
        let axis_nb_sides = row[d - 1];
        assert(axis_nb_sides == nb_side_count(ld, perp_axis as nat));
        first_nb_side_nums.push(NBSideNum(num_nb_sides));
        side_cumprods.push(row);
        num_nb_sides = match num_nb_sides.checked_add(axis_nb_sides) {
            Some(sum) => sum,
            None => {
                proof {
                    lemma_nb_sides_before_monotone(ld, (perp_axis + 1) as nat, d as nat);
                }
                return Err(MeshError::TooLarge);
            },
        };
        perp_axis += 1;
    }

    if boundary_side_count(&mesh_ldims).is_none() {
        return Err(MeshError::TooLarge);
    }
    let mesh = RectMesh {
        space_dim,
        min_bounds,
        max_bounds,
        mesh_ldims,
        cumprods_mesh_ldims,
        cumprods_nb_side_mesh_ldims_by_perp_axis: side_cumprods,
        first_nb_side_nums_by_perp_axis: first_nb_side_nums,
        num_fes,
        num_nb_sides,
        num_side_faces_per_fe: 2 * d,
        integration_rel_err,
        integration_abs_err,
    };
    proof {
        assert(mesh.ldims() == ld);
        assert(counts_fit(ld));
        assert(mesh.tables_agree());
        assert forall|r: int| 0 <= r < d implies (#[trigger] mesh.spec_max_bounds()[r]).spec_gt(
            mesh.spec_min_bounds()[r],
        ) by {
            assert(axis_ok(mesh.min_bounds@, mesh.max_bounds@, mesh.mesh_ldims@, r));
        }
        assert(mesh.wf());
    }
    Ok(mesh)
}

/// Cumulative products of the extents, or `None` when their product exceeds a machine word.
fn cumulative_products(dims: &Vec<MeshCoord>) -> (res: Option<Vec<usize>>)
    requires
        positive_upto(coord_values(dims@), dims@.len() as nat),
    ensures
        match res {
            Some(v) => {
                &&& volume(coord_values(dims@)) <= usize::MAX
                &&& v@.len() == dims@.len()
                &&& forall|i: int|
                    0 <= i < v@.len() ==> #[trigger] v@[i] == prod_upto(
                        coord_values(dims@),
                        (i + 1) as nat,
                    )
            },
            None => volume(coord_values(dims@)) > usize::MAX,
        },
{
    let ghost ld = coord_values(dims@);
    let mut v: Vec<usize> = Vec::new();
    let mut prod: usize = 1;
    let mut i: usize = 0;
    while i < dims.len()
        invariant
            ld == coord_values(dims@),
            positive_upto(ld, dims@.len() as nat),
            i <= dims@.len(),
            v@.len() == i,
            prod == prod_upto(ld, i as nat),
            forall|j: int| 0 <= j < i ==> #[trigger] v@[j] == prod_upto(ld, (j + 1) as nat),
        decreases dims@.len() - i,
    {
        assert(prod_upto(ld, (i + 1) as nat) == prod * dims@[i as int].0);
        match prod.checked_mul(dims[i].0) {
            None => {
                proof {
                    lemma_prod_monotone(ld, (i + 1) as nat, ld.len());
                }
                return None;
            },
            Some(p) => {
                prod = p;
                v.push(p);
            },
        }
        i += 1;
    }
    Some(v)
}

/// Cumulative products of the logical dimensions of the mesh of sides perpendicular to
/// `perp_axis`.
fn side_cumulative_products(dims: &Vec<MeshCoord>, perp_axis: usize) -> (v: Vec<usize>)
    requires
        perp_axis < dims@.len(),
        positive_upto(coord_values(dims@), dims@.len() as nat),
        volume(coord_values(dims@)) <= usize::MAX,
    ensures
        v@.len() == dims@.len(),
        forall|i: int|
            0 <= i < v@.len() ==> #[trigger] v@[i] == prod_upto(
                side_ldims(coord_values(dims@), perp_axis as nat),
                (i + 1) as nat,
            ),
{
    let ghost ld = coord_values(dims@);
    let ghost sd = side_ldims(ld, perp_axis as nat);
    let mut v: Vec<usize> = Vec::new();
    let mut prod: usize = 1;
    let mut r: usize = 0;
    while r < dims.len()
        invariant
            ld == coord_values(dims@),
            sd == side_ldims(ld, perp_axis as nat),
            perp_axis < dims@.len(),
            positive_upto(ld, dims@.len() as nat),
            volume(ld) <= usize::MAX,
            r <= dims@.len(),
            v@.len() == r,
            prod == prod_upto(sd, r as nat),
            forall|j: int| 0 <= j < r ==> #[trigger] v@[j] == prod_upto(sd, (j + 1) as nat),
        decreases dims@.len() - r,
    {
        assert(ld[perp_axis as int] > 0);
        let factor: usize = if r != perp_axis {
            dims[r].0
        } else {
            dims[r].0 - 1
        };
        assert(factor == sd[r as int]);
        proof {
            lemma_side_prod_le(ld, perp_axis as nat, (r + 1) as nat);
            lemma_prod_monotone(ld, (r + 1) as nat, ld.len());
        }
        prod = prod * factor;
        v.push(prod);
        r += 1;
    }
    v
}

/// Twice the number of elements in each layer, summed over the axes, or `None` when that
/// exceeds a machine word.
fn boundary_side_count(dims: &Vec<MeshCoord>) -> (res: Option<usize>)
    requires
        positive_upto(coord_values(dims@), dims@.len() as nat),
        volume(coord_values(dims@)) <= usize::MAX,
    ensures
        match res {
            Some(n) => n == total_boundary_sides(coord_values(dims@)),
            None => total_boundary_sides(coord_values(dims@)) > usize::MAX,
        },
{
    let ghost ld = coord_values(dims@);
    let d = dims.len();
    let mut bsides: usize = 0;
    let mut perp_axis: usize = 0;
    while perp_axis < d
        invariant
            ld == coord_values(dims@),
            d == dims@.len(),
            positive_upto(ld, d as nat),
            volume(ld) <= usize::MAX,
            perp_axis <= d,
            bsides == boundary_sides_before(ld, perp_axis as nat),
        decreases d - perp_axis,
    {
        // The elements of one layer, counted with the axis itself left out.
        let ghost layer = ld.update(perp_axis as int, 1);
        let mut prod: usize = 1;
        let mut r: usize = 0;
        while r < d
            invariant
                ld == coord_values(dims@),
                layer == ld.update(perp_axis as int, 1),
                d == dims@.len(),
                positive_upto(ld, d as nat),
                volume(ld) <= usize::MAX,
                perp_axis < d,
                r <= d,
                prod == prod_upto(layer, r as nat),
            decreases d - r,
        {
            let factor: usize = if r == perp_axis {
                1
            } else {
                dims[r].0
            };
            assert(factor == layer[r as int]);
            proof {
                lemma_prod_le(layer, ld, (r + 1) as nat);
                lemma_prod_monotone(ld, (r + 1) as nat, ld.len());
            }
            prod = prod * factor;
            r += 1;
        }
        assert(prod == cross_section(ld, perp_axis as nat));
        let caps = match prod.checked_mul(2) {
            Some(c) => c,
            None => {
                proof {
                    lemma_boundary_sides_monotone(ld, (perp_axis + 1) as nat, d as nat);
                }
                return None;
            },
        };
        bsides = match bsides.checked_add(caps) {
            Some(s) => s,
            None => {
                proof {
                    lemma_boundary_sides_monotone(ld, (perp_axis + 1) as nat, d as nat);
                }
                return None;
            },
        };
        perp_axis += 1;
    }
    Some(bsides)
}

/// The count of boundary sides grows with the number of axes counted.
proof fn lemma_boundary_sides_monotone(ld: Seq<nat>, a: nat, b: nat)
    requires
        a <= b,
    ensures
        boundary_sides_before(ld, a) <= boundary_sides_before(ld, b),
    decreases b,
{
    if a < b {
        lemma_boundary_sides_monotone(ld, a, (b - 1) as nat);
    }
}

} // verus!
