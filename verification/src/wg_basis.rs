//! The basis of a Weak Galerkin approximation space over a mesh, and its numbering.
//!
//! The elements of the basis are functions that are a monomial on one interior or one
//! non-boundary side of the mesh and zero elsewhere. They are numbered in this order:
//!   - the elements supported on interiors come before those supported on sides;
//!   - within each group, the elements come by ascending number of the interior or side
//!     that supports them;
//!   - on one interior or side, the elements come by ascending monomial in the canonical
//!     order.
//!
//! A side hosts only monomials that are constant in its dependent dimension, the coordinate
//! that the others determine on the side: with the others they would not be independent.

use vstd::prelude::*;
use vstd::slice::slice_subrange;
use crate::common::{Deg, Dim};
use crate::mesh::{
    boundary_flags, is_fe, is_fe_side, is_nb_side, is_oshape, spec_num_non_boundary_sides_for_fe,
    FENum, Mesh, NBSideInclusions, NBSideNum, OShape, SideFace,
};
use crate::monomial::{precedes, within_deg_lim, DegLim, Monomial};
use crate::monomial_seqs::{
    constant_on_axis, is_mons_with_deg_lim_asc, lemma_constant_counts_equal,
    lemma_constant_on_axis, lemma_same_mons, mons_constant_on_axis, mons_view,
    mons_with_deg_lim_asc, sorted,
};

verus! {

/// Number of an element of the basis.
#[derive(Clone, Copy, PartialEq, Eq, PartialOrd, Ord, Structural, Debug)]
pub struct BasisElNum(pub usize);

/// Number of a monomial in the monomial sequence of a face.
#[derive(Clone, Copy, PartialEq, Eq, PartialOrd, Ord, Structural, Debug)]
pub struct FaceMonNum(pub usize);

/// Why a basis cannot be built.
#[derive(Clone, Copy, PartialEq, Eq, Structural, Debug)]
pub enum BasisError {
    /// The basis has more elements than a machine word counts.
    TooLarge,
}

/// Why a basis does not take the weak gradients offered.
#[derive(Clone, Copy, PartialEq, Eq, Structural, Debug)]
pub enum WgradsError {
    /// The weak gradients of every oriented shape are already held.
    AllWgradsCached,
    /// The weak gradients offered are not one per monomial of the shape's faces.
    WgradsShapeMismatch,
}

/// A polynomial on a face of the mesh: the coefficients that a solution gives to the basis
/// elements of the face, beside the monomials of those elements.
pub struct PolyBorrowing<'a, C> {
    pub coefs: &'a [C],
    pub mons: &'a [Monomial],
}

/// A basis for Weak Galerkin approximating polynomials on a mesh, with the weak gradients
/// of type `G` of its shape functions.
pub struct WgBasis<MeshT: Mesh, G> {
    mesh: MeshT,
    int_polys_deg_lim: DegLim,
    side_polys_deg_lim: DegLim,
    // Monomials that define the shape functions on any one interior.
    int_mons: Vec<Monomial>,
    // At position r, the monomials that define the shape functions on any one side of
    // dependent dimension r.
    side_mons_by_dep_dim: Vec<Vec<Monomial>>,
    mons_per_fe_int: usize,
    mons_per_fe_side: usize,
    total_els: usize,
    num_int_els: usize,
    // The first element supported on a side; all elements before it are supported on
    // interiors.
    first_nb_side_beln: BasisElNum,
    // Weak gradients by oriented shape, then by interior monomial number.
    int_mon_wgrads: Vec<Vec<G>>,
    // Weak gradients by oriented shape, then by side face, then by side monomial number.
    side_mon_wgrads: Vec<Vec<Vec<G>>>,
}

/// `mons` holds the monomials in `d` coordinates of the polynomial space that `lim` bounds
/// which are constant in coordinate `r`: each of them, once, in ascending canonical order.
pub open spec fn is_side_mons(mons: Seq<Seq<Deg>>, d: nat, lim: DegLim, r: int) -> bool {
    &&& sorted(mons)
    &&& forall|v: Seq<Deg>| #[trigger]
        mons.contains(v) <==> v.len() == d && within_deg_lim(v, lim) && v[r] == Deg(0)
}

/// Number of basis elements over `mesh` where `int_mons` are the monomials of the
/// polynomials on interiors and `side_mons` those of the polynomials on sides.
pub open spec fn basis_size<MeshT: Mesh>(
    mesh: MeshT,
    int_mons: Seq<Seq<Deg>>,
    side_mons: Seq<Seq<Deg>>,
) -> nat {
    mesh.spec_num_fes() * int_mons.len() + mesh.spec_num_nb_sides() * constant_on_axis(
        side_mons,
        0,
    ).len()
}

/// The basis over `mesh` for the degree limits has `size` elements.
pub open spec fn basis_has_size<MeshT: Mesh>(
    mesh: MeshT,
    int_polys_deg_lim: DegLim,
    side_polys_deg_lim: DegLim,
    size: nat,
) -> bool {
    exists|int_mons: Seq<Seq<Deg>>, side_mons: Seq<Seq<Deg>>|
        {
            &&& is_mons_with_deg_lim_asc(int_mons, mesh.spec_space_dim(), int_polys_deg_lim)
            &&& is_mons_with_deg_lim_asc(side_mons, mesh.spec_space_dim(), side_polys_deg_lim)
            &&& #[trigger] basis_size(mesh, int_mons, side_mons) == size
        }
}

/// A mesh and two degree limits give a basis of one size only.
pub proof fn lemma_basis_size_unique<MeshT: Mesh>(
    mesh: MeshT,
    int_polys_deg_lim: DegLim,
    side_polys_deg_lim: DegLim,
    size1: nat,
    size2: nat,
)
    requires
        basis_has_size(mesh, int_polys_deg_lim, side_polys_deg_lim, size1),
        basis_has_size(mesh, int_polys_deg_lim, side_polys_deg_lim, size2),
    ensures
        size1 == size2,
{
    let d = mesh.spec_space_dim();
    let (i1, s1) = choose|i: Seq<Seq<Deg>>, s: Seq<Seq<Deg>>|
        {
            &&& is_mons_with_deg_lim_asc(i, d, int_polys_deg_lim)
            &&& is_mons_with_deg_lim_asc(s, d, side_polys_deg_lim)
            &&& #[trigger] basis_size(mesh, i, s) == size1
        };
    let (i2, s2) = choose|i: Seq<Seq<Deg>>, s: Seq<Seq<Deg>>|
        {
            &&& is_mons_with_deg_lim_asc(i, d, int_polys_deg_lim)
            &&& is_mons_with_deg_lim_asc(s, d, side_polys_deg_lim)
            &&& #[trigger] basis_size(mesh, i, s) == size2
        };
    lemma_same_mons(i1, i2, d, int_polys_deg_lim);
    lemma_same_mons(s1, s2, d, side_polys_deg_lim);
}

impl<MeshT: Mesh, G> WgBasis<MeshT, G> {
    /// The mesh over which the basis is formed.
    pub closed spec fn spec_mesh(&self) -> MeshT {
        self.mesh
    }

    /// Degree limit of the polynomials on interiors.
    pub closed spec fn spec_int_polys_deg_lim(&self) -> DegLim {
        self.int_polys_deg_lim
    }

    /// Degree limit of the polynomials on sides.
    pub closed spec fn spec_side_polys_deg_lim(&self) -> DegLim {
        self.side_polys_deg_lim
    }

    /// The monomials of the basis elements of any one interior.
    pub closed spec fn spec_int_mons(&self) -> Seq<Seq<Deg>> {
        mons_view(self.int_mons@)
    }

    /// At position `r`, the monomials of the basis elements of any one side of dependent
    /// dimension `r`.
    pub closed spec fn spec_side_mons_by_dep_dim(&self) -> Seq<Seq<Seq<Deg>>> {
        Seq::new(
            self.side_mons_by_dep_dim@.len(),
            |r: int| mons_view(self.side_mons_by_dep_dim@[r]@),
        )
    }

    /// The weak gradients held, by oriented shape and interior monomial number.
    pub closed spec fn spec_int_mon_wgrads(&self) -> Seq<Seq<G>> {
        Seq::new(self.int_mon_wgrads@.len(), |os: int| self.int_mon_wgrads@[os]@)
    }

    /// The weak gradients held, by oriented shape, side face and side monomial number.
    pub closed spec fn spec_side_mon_wgrads(&self) -> Seq<Seq<Seq<G>>> {
        Seq::new(
            self.side_mon_wgrads@.len(),
            |os: int|
                Seq::new(
                    self.side_mon_wgrads@[os]@.len(),
                    |sf: int| self.side_mon_wgrads@[os]@[sf]@,
                ),
        )
    }

    /// Number of basis elements supported on any one interior.
    pub open spec fn spec_mons_per_fe_int(&self) -> nat {
        self.spec_int_mons().len()
    }

    /// Number of basis elements supported on any one side.
    pub open spec fn spec_mons_per_fe_side(&self) -> nat {
        self.spec_side_mons_by_dep_dim()[0].len()
    }

    /// Number of basis elements supported on interiors.
    pub open spec fn spec_num_int_els(&self) -> nat {
        self.spec_mesh().spec_num_fes() * self.spec_mons_per_fe_int()
    }

    /// Number of basis elements.
    pub open spec fn spec_total_els(&self) -> nat {
        self.spec_num_int_els() + self.spec_mesh().spec_num_nb_sides()
            * self.spec_mons_per_fe_side()
    }

    /// The counts that the basis keeps are those that its mesh and monomials give.
    pub closed spec fn counts_agree(&self) -> bool {
        &&& self.mons_per_fe_int == self.spec_mons_per_fe_int()
        &&& self.mons_per_fe_side == self.spec_mons_per_fe_side()
        &&& self.num_int_els == self.spec_num_int_els()
        &&& self.total_els == self.spec_total_els()
        &&& self.first_nb_side_beln.0 == self.spec_num_int_els()
    }

    /// The weak gradients held for oriented shape `os` are one per monomial of each face.
    pub open spec fn wgrads_fit_oshape(&self, os: int) -> bool {
        &&& self.spec_int_mon_wgrads()[os].len() == self.spec_mons_per_fe_int()
        &&& self.spec_side_mon_wgrads()[os].len()
            == self.spec_mesh().spec_num_side_faces_for_shape(OShape(os as usize))
        &&& forall|sf: int|
            0 <= sf < self.spec_side_mon_wgrads()[os].len() ==> (
            #[trigger] self.spec_side_mon_wgrads()[os][sf]).len() == self.spec_mons_per_fe_side()
    }

    /// The basis stands on a valid mesh; its monomials are, on interiors, those of the
    /// polynomial space of the interiors and, on sides of dependent dimension `r`, those of
    /// the polynomial space of the sides that are constant in `r`, as many for one `r` as
    /// for another; its elements can be counted; and the weak gradients it holds fit their
    /// shapes.
    pub open spec fn wf(&self) -> bool {
        let d = self.spec_mesh().spec_space_dim();
        &&& self.spec_mesh().wf()
        &&& d >= 1
        &&& is_mons_with_deg_lim_asc(self.spec_int_mons(), d, self.spec_int_polys_deg_lim())
        &&& self.spec_side_mons_by_dep_dim().len() == d
        &&& forall|r: int|
            0 <= r < d ==> is_side_mons(
                #[trigger] self.spec_side_mons_by_dep_dim()[r],
                d,
                self.spec_side_polys_deg_lim(),
                r,
            )
        &&& forall|r: int|
            0 <= r < d ==> (#[trigger] self.spec_side_mons_by_dep_dim()[r]).len()
                == self.spec_mons_per_fe_side()
        &&& self.spec_total_els() <= usize::MAX
        &&& self.counts_agree()
        &&& self.spec_int_mon_wgrads().len() == self.spec_side_mon_wgrads().len()
        &&& self.spec_int_mon_wgrads().len() <= self.spec_mesh().spec_num_oriented_element_shapes()
        &&& forall|os: int|
            0 <= os < self.spec_int_mon_wgrads().len() ==> #[trigger] self.wgrads_fit_oshape(os)
    }

    /// Builds the basis over `mesh` whose elements are, on each interior, the monomials
    /// within `int_polys_deg_lim` and, on each side, the monomials within
    /// `side_polys_deg_lim` that are constant in the side's dependent dimension. There is
    /// none where the elements cannot be counted. The basis holds no weak gradients yet.
    pub fn new(
        mesh: MeshT,
        int_polys_deg_lim: DegLim,
        side_polys_deg_lim: DegLim,
    ) -> (res: Result<WgBasis<MeshT, G>, BasisError>)
        requires
            mesh.wf(),
        ensures
            match res {
                Ok(basis) => {
                    &&& basis.wf()
                    &&& basis.spec_mesh() == mesh
                    &&& basis.spec_int_polys_deg_lim() == int_polys_deg_lim
                    &&& basis.spec_side_polys_deg_lim() == side_polys_deg_lim
                    &&& basis.spec_int_mon_wgrads().len() == 0
                    &&& basis_has_size(
                        mesh,
                        int_polys_deg_lim,
                        side_polys_deg_lim,
                        basis.spec_total_els(),
                    )
                },
                Err(BasisError::TooLarge) => exists|size: nat|
                    size > usize::MAX && #[trigger] basis_has_size(
                        mesh,
                        int_polys_deg_lim,
                        side_polys_deg_lim,
                        size,
                    ),
            },
    {
        let space_dim = mesh.space_dim();
        let d = space_dim.0;
        let int_mons = mons_with_deg_lim_asc(space_dim, int_polys_deg_lim);
        let side_mons = mons_with_deg_lim_asc(space_dim, side_polys_deg_lim);
        let ghost int_all = mons_view(int_mons@);
        let ghost side_all = mons_view(side_mons@);
        let mut side_mons_by_dep_dim: Vec<Vec<Monomial>> = Vec::new();
        let mut r: usize = 0;
        while r < d
            invariant
                side_all == mons_view(side_mons@),
                is_mons_with_deg_lim_asc(side_all, d as nat, side_polys_deg_lim),
                d == mesh.spec_space_dim(),
                r <= d,
                side_mons_by_dep_dim@.len() == r,
                forall|j: int|
                    0 <= j < r ==> mons_view((#[trigger] side_mons_by_dep_dim@[j])@)
                        == constant_on_axis(side_all, j),
            decreases d - r,
        {
            proof {
                assert forall|i: int| 0 <= i < side_mons@.len() implies r < (
                #[trigger] side_mons@[i])@.len() by {
                    assert(side_all.contains(side_all[i]));
                }
            }
            let dep_dim_mons = mons_constant_on_axis(&side_mons, Dim(r));
            side_mons_by_dep_dim.push(dep_dim_mons);
            r += 1;
        }
        let mons_per_fe_int = int_mons.len();
        let mons_per_fe_side = side_mons_by_dep_dim[0].len();
        let num_fes = mesh.num_fes();
        let num_nb_sides = mesh.num_nb_sides();
        let ghost size = basis_size(mesh, int_all, side_all);
        proof {
            assert(mons_per_fe_side == constant_on_axis(side_all, 0).len());
            assert(num_fes * mons_per_fe_int >= 0 && num_nb_sides * mons_per_fe_side >= 0)
                by (nonlinear_arith);
            assert(basis_has_size(mesh, int_polys_deg_lim, side_polys_deg_lim, size));
        }
        let num_int_els = match num_fes.checked_mul(mons_per_fe_int) {
            Some(n) => n,
            None => {
                return Err(BasisError::TooLarge);
            },
        };
        let num_side_els = match num_nb_sides.checked_mul(mons_per_fe_side) {
            Some(n) => n,
            None => {
                return Err(BasisError::TooLarge);
            },
        };
        let total_els = match num_int_els.checked_add(num_side_els) {
            Some(n) => n,
            None => {
                return Err(BasisError::TooLarge);
            },
        };
        let basis = WgBasis {
            mesh,
            int_polys_deg_lim,
            side_polys_deg_lim,
            int_mons,
            side_mons_by_dep_dim,
            mons_per_fe_int,
            mons_per_fe_side,
            total_els,
            num_int_els,
            first_nb_side_beln: BasisElNum(num_int_els),
            int_mon_wgrads: Vec::new(),
            side_mon_wgrads: Vec::new(),
        };
        proof {
            assert forall|r: int| 0 <= r < d implies is_side_mons(
                #[trigger] basis.spec_side_mons_by_dep_dim()[r],
                d as nat,
                side_polys_deg_lim,
                r,
            ) && basis.spec_side_mons_by_dep_dim()[r].len() == basis.spec_mons_per_fe_side() by {
                assert(basis.spec_side_mons_by_dep_dim()[r] == constant_on_axis(side_all, r));
                lemma_constant_on_axis(side_all, r);
                lemma_constant_counts_equal(side_all, d as nat, side_polys_deg_lim, r);
            }
            assert(basis.spec_int_mons() == int_all);
            assert(basis.spec_total_els() == size);
            assert(basis.wf());
        }
        Ok(basis)
    }
}

/// The position `i` in a row of `count` blocks of `m` entries lies in block `i / m`, at
/// place `i % m` of it.
proof fn lemma_block_of_index(count: nat, m: nat, i: nat)
    by (nonlinear_arith)
    requires
        i < count * m,
    ensures
        m > 0,
        i / m < count,
        i % m < m,
        (i / m) * m + i % m == i,
{
}

/// Place `j` of block `k`, in a row of `count` blocks of `m` entries, is position
/// `k * m + j`.
proof fn lemma_index_in_block(count: nat, m: nat, k: nat, j: nat)
    by (nonlinear_arith)
    requires
        k < count,
        j < m,
    ensures
        k * m + j < count * m,
        (k * m + j) / m == k,
        (k * m + j) % m == j,
{
}

/// A whole block of a row of `count` blocks of `m` entries lies within the row.
proof fn lemma_block_in_row(count: nat, m: nat, k: nat)
    by (nonlinear_arith)
    requires
        k < count,
    ensures
        k * m + m <= count * m,
{
}

impl<MeshT: Mesh, G> WgBasis<MeshT, G> {
    /// The basis element is supported on an interior.
    pub open spec fn spec_is_int_supported(&self, i: BasisElNum) -> bool {
        i.0 < self.spec_num_int_els()
    }

    /// The basis element is supported on a non-boundary side.
    pub open spec fn spec_is_side_supported(&self, i: BasisElNum) -> bool {
        self.spec_num_int_els() <= i.0 < self.spec_total_els()
    }

    /// The element whose interior supports basis element `i`.
    pub open spec fn spec_support_int_fe_num(&self, i: BasisElNum) -> FENum {
        FENum((i.0 as nat / self.spec_mons_per_fe_int()) as usize)
    }

    /// The non-boundary side that supports basis element `i`.
    pub open spec fn spec_support_nb_side_num(&self, i: BasisElNum) -> NBSideNum {
        NBSideNum(
            ((i.0 - self.spec_num_int_els()) as nat / self.spec_mons_per_fe_side()) as usize,
        )
    }

    /// Number, on its interior, of the monomial of basis element `i`.
    pub open spec fn spec_int_rel_mon_num(&self, i: BasisElNum) -> FaceMonNum {
        FaceMonNum((i.0 as nat % self.spec_mons_per_fe_int()) as usize)
    }

    /// Number, on its side, of the monomial of basis element `i`.
    pub open spec fn spec_side_rel_mon_num(&self, i: BasisElNum) -> FaceMonNum {
        FaceMonNum(
            ((i.0 - self.spec_num_int_els()) as nat % self.spec_mons_per_fe_side()) as usize,
        )
    }

    /// Number of the first basis element on the interior of element `fe`.
    pub open spec fn spec_first_int_el(&self, fe: FENum) -> nat {
        fe.0 as nat * self.spec_mons_per_fe_int()
    }

    /// Number of the first basis element on non-boundary side `sn`.
    pub open spec fn spec_first_side_el(&self, sn: NBSideNum) -> nat {
        self.spec_num_int_els() + sn.0 as nat * self.spec_mons_per_fe_side()
    }

    /// The basis element of monomial `monn` on the interior of element `fe`.
    pub open spec fn spec_int_mon_el_num(&self, fe: FENum, monn: FaceMonNum) -> BasisElNum {
        BasisElNum((self.spec_first_int_el(fe) + monn.0) as usize)
    }

    /// The basis element of monomial `monn` on non-boundary side `sn`.
    pub open spec fn spec_nb_side_mon_el_num(&self, sn: NBSideNum, monn: FaceMonNum) -> BasisElNum {
        BasisElNum((self.spec_first_side_el(sn) + monn.0) as usize)
    }

    /// The basis element of monomial `monn` on the side in a face slot of element `fe`.
    pub open spec fn spec_side_mon_el_num(
        &self,
        fe: FENum,
        side_face: SideFace,
        monn: FaceMonNum,
    ) -> BasisElNum {
        self.spec_nb_side_mon_el_num(
            self.spec_mesh().spec_nb_side_num_for_fe_side(fe, side_face),
            monn,
        )
    }

    /// The monomials of the basis elements of the side in a face slot of an oriented shape:
    /// those for the dependent dimension of the slot.
    pub open spec fn spec_side_mons_for_oshape_side(
        &self,
        oshape: OShape,
        side_face: SideFace,
    ) -> Seq<Seq<Deg>> {
        self.spec_side_mons_by_dep_dim()[self.spec_mesh().spec_dependent_dim_for_oshape_side(
            oshape,
            side_face,
        ).0 as int]
    }

    /// The monomials of the basis elements of the side in a face slot of element `fe`.
    pub open spec fn spec_side_mons_for_fe_side(
        &self,
        fe: FENum,
        side_face: SideFace,
    ) -> Seq<Seq<Deg>> {
        self.spec_side_mons_for_oshape_side(
            self.spec_mesh().spec_oriented_shape_for_fe(fe),
            side_face,
        )
    }

    /// The mesh over which the basis is formed.
    pub fn mesh(&self) -> (mesh: &MeshT)
        ensures
            *mesh == self.spec_mesh(),
    {
        &self.mesh
    }

    /// Whether a basis element is supported on an interior.
    pub fn is_int_supported(&self, i: BasisElNum) -> (b: bool)
        requires
            self.wf(),
        ensures
            b == self.spec_is_int_supported(i),
    {
        i.0 < self.num_int_els
    }

    /// Whether a basis element is supported on a non-boundary side.
    pub fn is_side_supported(&self, i: BasisElNum) -> (b: bool)
        requires
            self.wf(),
        ensures
            b == self.spec_is_side_supported(i),
    {
        self.num_int_els <= i.0 && i.0 < self.total_els
    }

    /// Finds the element whose interior supports an interior-supported basis element.
    pub fn support_int_fe_num(&self, i: BasisElNum) -> (fe: FENum)
        requires
            self.wf(),
            self.spec_is_int_supported(i),
        ensures
            fe == self.spec_support_int_fe_num(i),
            fe.0 == i.0 as nat / self.spec_mons_per_fe_int(),
            is_fe(&self.spec_mesh(), fe),
    {
        proof {
            lemma_block_of_index(
                self.spec_mesh().spec_num_fes(),
                self.spec_mons_per_fe_int(),
                i.0 as nat,
            );
        }
        FENum(i.0 / self.mons_per_fe_int)
    }

    /// Finds the non-boundary side that supports a side-supported basis element.
    pub fn support_nb_side_num(&self, i: BasisElNum) -> (sn: NBSideNum)
        requires
            self.wf(),
            self.spec_is_side_supported(i),
        ensures
            sn == self.spec_support_nb_side_num(i),
            sn.0 == (i.0 - self.spec_num_int_els()) as nat / self.spec_mons_per_fe_side(),
            is_nb_side(&self.spec_mesh(), sn),
    {
        let sides_rel_ix = i.0 - self.first_nb_side_beln.0;
        proof {
            lemma_block_of_index(
                self.spec_mesh().spec_num_nb_sides(),
                self.spec_mons_per_fe_side(),
                sides_rel_ix as nat,
            );
        }
        NBSideNum(sides_rel_ix / self.mons_per_fe_side)
    }

    /// Finds the two elements that include the support of a side-supported basis element.
    pub fn fe_inclusions_of_side_support(&self, i: BasisElNum) -> (incls: NBSideInclusions)
        requires
            self.wf(),
            self.spec_is_side_supported(i),
        ensures
            incls == self.spec_mesh().spec_fe_inclusions_of_nb_side(
                self.spec_support_nb_side_num(i),
            ),
    {
        let supp_nb_side_num = self.support_nb_side_num(i);
        self.mesh.fe_inclusions_of_nb_side(supp_nb_side_num)
    }

    /// The monomials that define the basis elements of any one interior.
    pub fn ref_int_mons(&self) -> (mons: &[Monomial])
        ensures
            mons_view(mons@) == self.spec_int_mons(),
    {
        self.int_mons.as_slice()
    }

    /// The monomials that define the basis elements of a side of an element.
    pub fn side_mons_for_fe_side(&self, fe: FENum, side_face: SideFace) -> (mons: &[Monomial])
        requires
            self.wf(),
            is_fe_side(&self.spec_mesh(), fe, side_face),
        ensures
            mons_view(mons@) == self.spec_side_mons_for_fe_side(fe, side_face),
            mons@.len() == self.spec_mons_per_fe_side(),
    {
        let fe_oshape = self.mesh.oriented_shape_for_fe(fe);
        self.side_mons_for_oshape_side(fe_oshape, side_face)
    }

    /// The monomials that define the basis elements of a side of an oriented shape.
    pub fn side_mons_for_oshape_side(
        &self,
        oshape: OShape,
        side_face: SideFace,
    ) -> (mons: &[Monomial])
        requires
            self.wf(),
            is_oshape(&self.spec_mesh(), oshape),
            side_face.0 < self.spec_mesh().spec_num_side_faces_for_shape(oshape),
        ensures
            mons_view(mons@) == self.spec_side_mons_for_oshape_side(oshape, side_face),
            mons@.len() == self.spec_mons_per_fe_side(),
    {
        let side_dep_dim = self.mesh.dependent_dim_for_oshape_side(oshape, side_face);
        proof {
            assert(self.spec_side_mons_by_dep_dim()[side_dep_dim.0 as int].len()
                == self.spec_mons_per_fe_side());
        }
        self.side_mons_by_dep_dim[side_dep_dim.0].as_slice()
    }

    /// Number of basis elements supported on any one interior.
    pub fn mons_per_fe_int(&self) -> (n: usize)
        requires
            self.wf(),
        ensures
            n == self.spec_mons_per_fe_int(),
    {
        self.mons_per_fe_int
    }

    /// Number of basis elements supported on any one side.
    pub fn mons_per_fe_side(&self) -> (n: usize)
        requires
            self.wf(),
        ensures
            n == self.spec_mons_per_fe_side(),
    {
        self.mons_per_fe_side
    }

    /// Number of basis elements supported on interiors; also the number of the first basis
    /// element supported on a side.
    pub fn num_int_els(&self) -> (n: usize)
        requires
            self.wf(),
        ensures
            n == self.spec_mesh().spec_num_fes() * self.spec_mons_per_fe_int(),
    {
        self.num_int_els
    }

    /// Number of basis elements.
    pub fn total_els(&self) -> (n: usize)
        requires
            self.wf(),
        ensures
            n == self.spec_mesh().spec_num_fes() * self.spec_mons_per_fe_int()
                + self.spec_mesh().spec_num_nb_sides() * self.spec_mons_per_fe_side(),
    {
        self.total_els
    }

    /// Finds the number, on its interior, of the monomial of an interior-supported basis
    /// element.
    pub fn int_rel_mon_num(&self, i: BasisElNum) -> (monn: FaceMonNum)
        requires
            self.wf(),
            self.spec_is_int_supported(i),
        ensures
            monn == self.spec_int_rel_mon_num(i),
            monn.0 == i.0 as nat % self.spec_mons_per_fe_int(),
            monn.0 < self.spec_mons_per_fe_int(),
    {
        proof {
            lemma_block_of_index(
                self.spec_mesh().spec_num_fes(),
                self.spec_mons_per_fe_int(),
                i.0 as nat,
            );
        }
        FaceMonNum(i.0 % self.mons_per_fe_int)
    }

    /// The monomial of an interior-supported basis element.
    pub fn int_mon(&self, i: BasisElNum) -> (mon: Monomial)
        requires
            self.wf(),
            self.spec_is_int_supported(i),
        ensures
            mon@ == self.spec_int_mons()[self.spec_int_rel_mon_num(i).0 as int],
    {
        let rel_monn = self.int_rel_mon_num(i);
        self.int_mons[rel_monn.0].clone()
    }

    /// Finds the number, on its side, of the monomial of a side-supported basis element.
    pub fn side_rel_mon_num(&self, i: BasisElNum) -> (monn: FaceMonNum)
        requires
            self.wf(),
            self.spec_is_side_supported(i),
        ensures
            monn == self.spec_side_rel_mon_num(i),
            monn.0 == (i.0 - self.spec_num_int_els()) as nat % self.spec_mons_per_fe_side(),
            monn.0 < self.spec_mons_per_fe_side(),
    {
        let nbsides_rel_ix = i.0 - self.first_nb_side_beln.0;
        proof {
            lemma_block_of_index(
                self.spec_mesh().spec_num_nb_sides(),
                self.spec_mons_per_fe_side(),
                nbsides_rel_ix as nat,
            );
        }
        FaceMonNum(nbsides_rel_ix % self.mons_per_fe_side)
    }

    /// Finds the basis element of a monomial on the interior of an element.
    pub fn int_mon_el_num(&self, fe: FENum, monn: FaceMonNum) -> (i: BasisElNum)
        requires
            self.wf(),
            is_fe(&self.spec_mesh(), fe),
            monn.0 < self.spec_mons_per_fe_int(),
        ensures
            i == self.spec_int_mon_el_num(fe, monn),
            i.0 == self.spec_first_int_el(fe) + monn.0,
            self.spec_is_int_supported(i),
    {
        proof {
            lemma_index_in_block(
                self.spec_mesh().spec_num_fes(),
                self.spec_mons_per_fe_int(),
                fe.0 as nat,
                monn.0 as nat,
            );
        }
        BasisElNum(fe.0 * self.mons_per_fe_int + monn.0)
    }

    /// Finds the basis element of a monomial on the non-boundary side in a face slot of an
    /// element.
    pub fn side_mon_el_num(
        &self,
        fe: FENum,
        side_face: SideFace,
        monn: FaceMonNum,
    ) -> (i: BasisElNum)
        requires
            self.wf(),
            is_fe_side(&self.spec_mesh(), fe, side_face),
            !self.spec_mesh().spec_is_boundary_side(fe, side_face),
            monn.0 < self.spec_mons_per_fe_side(),
        ensures
            i == self.spec_side_mon_el_num(fe, side_face, monn),
            i.0 == self.spec_first_side_el(
                self.spec_mesh().spec_nb_side_num_for_fe_side(fe, side_face),
            ) + monn.0,
            self.spec_is_side_supported(i),
    {
        let nb_side_num = self.mesh.nb_side_num_for_fe_side(fe, side_face);
        proof {
            lemma_index_in_block(
                self.spec_mesh().spec_num_nb_sides(),
                self.spec_mons_per_fe_side(),
                nb_side_num.0 as nat,
                monn.0 as nat,
            );
        }
        BasisElNum(self.first_nb_side_beln.0 + (nb_side_num.0 * self.mons_per_fe_side) + monn.0)
    }

    /// The polynomial that a solution, given by its coefficients on the basis, is on the
    /// interior of an element.
    pub fn fe_int_poly<'a, C>(
        &'a self,
        fe: FENum,
        sol_basis_coefs: &'a [C],
    ) -> (poly: PolyBorrowing<'a, C>)
        requires
            self.wf(),
            is_fe(&self.spec_mesh(), fe),
            sol_basis_coefs@.len() >= self.spec_num_int_els(),
        ensures
            poly.coefs@ == sol_basis_coefs@.subrange(
                self.spec_first_int_el(fe) as int,
                (self.spec_first_int_el(fe) + self.spec_mons_per_fe_int()) as int,
            ),
            mons_view(poly.mons@) == self.spec_int_mons(),
    {
        proof {
            lemma_block_in_row(
                self.spec_mesh().spec_num_fes(),
                self.spec_mons_per_fe_int(),
                fe.0 as nat,
            );
        }
        let fe_first_int_beln = fe.0 * self.mons_per_fe_int;
        let fe_int_coefs = slice_subrange(
            sol_basis_coefs,
            fe_first_int_beln,
            fe_first_int_beln + self.mons_per_fe_int,
        );
        PolyBorrowing { coefs: fe_int_coefs, mons: self.int_mons.as_slice() }
    }

    /// The polynomial that a solution, given by its coefficients on the basis, is on the
    /// non-boundary side in a face slot of an element.
    pub fn fe_side_poly<'a, C>(
        &'a self,
        fe: FENum,
        side_face: SideFace,
        sol_basis_coefs: &'a [C],
    ) -> (poly: PolyBorrowing<'a, C>)
        requires
            self.wf(),
            is_fe_side(&self.spec_mesh(), fe, side_face),
            !self.spec_mesh().spec_is_boundary_side(fe, side_face),
            sol_basis_coefs@.len() >= self.spec_total_els(),
        ensures
            ({
                let first = self.spec_first_side_el(
                    self.spec_mesh().spec_nb_side_num_for_fe_side(fe, side_face),
                );
                poly.coefs@ == sol_basis_coefs@.subrange(
                    first as int,
                    (first + self.spec_mons_per_fe_side()) as int,
                )
            }),
            mons_view(poly.mons@) == self.spec_side_mons_for_fe_side(fe, side_face),
    {
        let fe_side_mons = self.side_mons_for_fe_side(fe, side_face);
        let nb_side_num = self.mesh.nb_side_num_for_fe_side(fe, side_face);
        proof {
            lemma_block_in_row(
                self.spec_mesh().spec_num_nb_sides(),
                self.spec_mons_per_fe_side(),
                nb_side_num.0 as nat,
            );
        }
        let fe_side_first_beln = self.first_nb_side_beln.0 + nb_side_num.0 * self.mons_per_fe_side;
        let fe_side_coefs = slice_subrange(
            sol_basis_coefs,
            fe_side_first_beln,
            fe_side_first_beln + fe_side_mons.len(),
        );
        PolyBorrowing { coefs: fe_side_coefs, mons: fe_side_mons }
    }
}

/// Number of pairs of basis elements that meet on an element with `nb_sides` non-boundary
/// sides, beyond the pairs of its interior: each pair of an interior and a side element
/// counted in both orders, and the pairs of side elements.
pub open spec fn fe_side_interactions(
    mons_per_fe_int: nat,
    mons_per_fe_side: nat,
    nb_sides: nat,
) -> nat {
    2 * (mons_per_fe_int * (nb_sides * mons_per_fe_side)) + (nb_sides * mons_per_fe_side) * (
    nb_sides * mons_per_fe_side)
}

/// Sum of `fe_side_interactions` over the first `k` elements of the mesh.
pub open spec fn side_interactions_before<MeshT: Mesh>(
    mesh: MeshT,
    mons_per_fe_int: nat,
    mons_per_fe_side: nat,
    k: nat,
) -> nat
    decreases k,
{
    if k == 0 {
        0
    } else {
        side_interactions_before(mesh, mons_per_fe_int, mons_per_fe_side, (k - 1) as nat)
            + fe_side_interactions(
            mons_per_fe_int,
            mons_per_fe_side,
            spec_num_non_boundary_sides_for_fe(&mesh, FENum((k - 1) as usize)),
        )
    }
}

/// The sum over elements grows with the number of elements summed.
proof fn lemma_side_interactions_monotone<MeshT: Mesh>(
    mesh: MeshT,
    mons_per_fe_int: nat,
    mons_per_fe_side: nat,
    j: nat,
    k: nat,
)
    requires
        j <= k,
    ensures
        side_interactions_before(mesh, mons_per_fe_int, mons_per_fe_side, j)
            <= side_interactions_before(mesh, mons_per_fe_int, mons_per_fe_side, k),
    decreases k,
{
    if j < k {
        lemma_side_interactions_monotone(
            mesh,
            mons_per_fe_int,
            mons_per_fe_side,
            j,
            (k - 1) as nat,
        );
    }
}

/// `fe_side_interactions` when it fits a machine word.
fn checked_fe_side_interactions(
    mons_per_fe_int: usize,
    mons_per_fe_side: usize,
    nb_sides: usize,
) -> (res: Option<usize>)
    ensures
        match res {
            Some(n) => n == fe_side_interactions(
                mons_per_fe_int as nat,
                mons_per_fe_side as nat,
                nb_sides as nat,
            ),
            None => fe_side_interactions(
                mons_per_fe_int as nat,
                mons_per_fe_side as nat,
                nb_sides as nat,
            ) > usize::MAX,
        },
{
    let side_sidemon_choices = match nb_sides.checked_mul(mons_per_fe_side) {
        Some(n) => n,
        None => {
            proof {
                let s = nb_sides as nat * mons_per_fe_side as nat;
                let m = mons_per_fe_int as nat;
                assert(2 * (m * s) + s * s >= s) by (nonlinear_arith)
                    requires
                        s >= 1,
                ;
            }
            return None;
        },
    };
    let ghost s = side_sidemon_choices as nat;
    let ghost m = mons_per_fe_int as nat;
    if side_sidemon_choices == 0 {
        proof {
            assert(2 * (m * s) + s * s == 0) by (nonlinear_arith)
                requires
                    s == 0,
            ;
        }
        return Some(0);
    }
    proof {
        assert(m * s >= 0 && s * s >= 0) by (nonlinear_arith);
    }
    let int_side = match mons_per_fe_int.checked_mul(side_sidemon_choices) {
        Some(n) => n,
        None => {
            return None;
        },
    };
    let int_side_and_side_int_interactions = match int_side.checked_mul(2) {
        Some(n) => n,
        None => {
            return None;
        },
    };
    let side_side_interactions = match side_sidemon_choices.checked_mul(side_sidemon_choices) {
        Some(n) => n,
        None => {
            return None;
        },
    };
    int_side_and_side_int_interactions.checked_add(side_side_interactions)
}

impl<MeshT: Mesh, G> WgBasis<MeshT, G> {
    /// The bound that `ub_estimate_num_bel_bel_common_support_fe_triplets` computes: the
    /// pairs of interior elements of each element, and the pairs that involve the elements
    /// of its non-boundary sides. Pairs on a side are counted once for each of the two
    /// elements that share the side.
    pub open spec fn spec_ub_estimate(&self) -> nat {
        self.spec_mesh().spec_num_fes() * self.spec_mons_per_fe_int()
            * self.spec_mons_per_fe_int() + side_interactions_before(
            self.spec_mesh(),
            self.spec_mons_per_fe_int(),
            self.spec_mons_per_fe_side(),
            self.spec_mesh().spec_num_fes(),
        )
    }

    /// An upper bound on the number of triplets of two basis elements and a finite element
    /// on which both are supported, for sizing sparse storage; `None` when the bound exceeds
    /// a machine word.
    pub fn ub_estimate_num_bel_bel_common_support_fe_triplets(&self) -> (res: Option<usize>)
        requires
            self.wf(),
        ensures
            match res {
                Some(n) => n == self.spec_ub_estimate(),
                None => self.spec_ub_estimate() > usize::MAX,
            },
    {
        let num_fes = self.mesh.num_fes();
        let ghost m = self.spec_mons_per_fe_int();
        let ghost ms = self.spec_mons_per_fe_side();
        let ghost total_sides = side_interactions_before(self.spec_mesh(), m, ms, num_fes as nat);
        // This is the number of basis elements on interiors, which is known to fit.
        let fe_int_mons = self.num_int_els;
        proof {
            assert(fe_int_mons * m >= 0) by (nonlinear_arith)
                requires
                    fe_int_mons >= 0,
                    m >= 0,
            ;
        }
        let int_int_interactions = match fe_int_mons.checked_mul(self.mons_per_fe_int) {
            Some(n) => n,
            None => {
                return None;
            },
        };
        let mut tot_interactions = int_int_interactions;
        let mut fe: usize = 0;
        while fe < num_fes
            invariant
                self.wf(),
                num_fes == self.spec_mesh().spec_num_fes(),
                m == self.spec_mons_per_fe_int(),
                ms == self.spec_mons_per_fe_side(),
                total_sides == side_interactions_before(self.spec_mesh(), m, ms, num_fes as nat),
                int_int_interactions == num_fes * m * m,
                fe <= num_fes,
                tot_interactions == int_int_interactions + side_interactions_before(
                    self.spec_mesh(),
                    m,
                    ms,
                    fe as nat,
                ),
            decreases num_fes - fe,
        {
            let nb_sides = self.mesh.num_non_boundary_sides_for_fe(FENum(fe));
            proof {
                lemma_side_interactions_monotone(
                    self.spec_mesh(),
                    m,
                    ms,
                    (fe + 1) as nat,
                    num_fes as nat,
                );
                assert(nb_sides == spec_num_non_boundary_sides_for_fe(
                    &self.spec_mesh(),
                    FENum(fe),
                )) by {
                    assert(boundary_flags(&self.spec_mesh(), FENum(fe)) =~= Seq::new(
                        self.spec_mesh().spec_num_side_faces_for_shape(
                            self.spec_mesh().spec_oriented_shape_for_fe(FENum(fe)),
                        ),
                        |k: int|
                            self.spec_mesh().spec_is_boundary_side(FENum(fe), SideFace(k as u8)),
                    ));
                }
            }
            let fe_interactions = match checked_fe_side_interactions(
                self.mons_per_fe_int,
                self.mons_per_fe_side,
                nb_sides,
            ) {
                Some(n) => n,
                None => {
                    return None;
                },
            };
            tot_interactions = match tot_interactions.checked_add(fe_interactions) {
                Some(n) => n,
                None => {
                    return None;
                },
            };
            fe += 1;
        }
        Some(tot_interactions)
    }
}

/// The weak gradients offered for a shape with `num_side_faces` face slots are one per
/// interior monomial and, for each face slot, one per side monomial.
pub open spec fn wgrads_shaped<G>(
    int_mon_wgrads: Seq<G>,
    side_mon_wgrads: Seq<Vec<G>>,
    mons_per_fe_int: nat,
    mons_per_fe_side: nat,
    num_side_faces: nat,
) -> bool {
    &&& int_mon_wgrads.len() == mons_per_fe_int
    &&& side_mon_wgrads.len() == num_side_faces
    &&& forall|sf: int|
        0 <= sf < side_mon_wgrads.len() ==> (#[trigger] side_mon_wgrads[sf])@.len()
            == mons_per_fe_side
}

/// The sequences that the vectors hold.
pub open spec fn seqs_of<G>(vecs: Seq<Vec<G>>) -> Seq<Seq<G>> {
    Seq::new(vecs.len(), |i: int| vecs[i]@)
}

impl<MeshT: Mesh, G> WgBasis<MeshT, G> {
    /// Number of oriented shapes whose weak gradients the basis holds: those of the first
    /// shapes of the mesh.
    pub open spec fn spec_num_oshapes_with_wgrads(&self) -> nat {
        self.spec_int_mon_wgrads().len()
    }

    /// Degree limit of the polynomial space in which the weak gradients of the shape
    /// functions are sought: total degree one below the limit of the interior polynomials.
    /// There is none where the interior polynomials are constants.
    pub fn weak_grad_deg_lim(&self) -> (lim: Option<DegLim>)
        ensures
            lim == if self.spec_int_polys_deg_lim().spec_deg().0 == 0 {
                None
            } else {
                Some(
                    DegLim::MaxMonDeg(Deg((self.spec_int_polys_deg_lim().spec_deg().0 - 1) as u8)),
                )
            },
    {
        let k = self.int_polys_deg_lim.deg();
        if k.0 == 0 {
            None
        } else {
            Some(DegLim::MaxMonDeg(Deg(k.0 - 1)))
        }
    }

    /// The oriented shape whose weak gradients the basis needs next, if it lacks any.
    pub fn next_oshape_without_wgrads(&self) -> (next: Option<OShape>)
        requires
            self.wf(),
        ensures
            match next {
                Some(oshape) => {
                    &&& oshape.0 == self.spec_num_oshapes_with_wgrads()
                    &&& is_oshape(&self.spec_mesh(), oshape)
                },
                None => self.spec_num_oshapes_with_wgrads()
                    >= self.spec_mesh().spec_num_oriented_element_shapes(),
            },
    {
        let cached = self.int_mon_wgrads.len();
        if cached < self.mesh.num_oriented_element_shapes() {
            Some(OShape(cached))
        } else {
            None
        }
    }

    /// For each face slot of an oriented shape, the monomials that define the basis
    /// elements of the side in that slot.
    pub fn side_mons_by_side_for_oshape<'a>(
        &'a self,
        oshape: OShape,
    ) -> (by_side: Vec<&'a [Monomial]>)
        requires
            self.wf(),
            is_oshape(&self.spec_mesh(), oshape),
        ensures
            by_side@.len() == self.spec_mesh().spec_num_side_faces_for_shape(oshape),
            forall|sf: int|
                0 <= sf < by_side@.len() ==> mons_view((#[trigger] by_side@[sf])@)
                    == self.spec_side_mons_for_oshape_side(oshape, SideFace(sf as u8)),
    {
        let num_side_faces = self.mesh.num_side_faces_for_shape(oshape);
        let mut by_side: Vec<&'a [Monomial]> = Vec::new();
        let mut sf: usize = 0;
        while sf < num_side_faces
            invariant
                self.wf(),
                is_oshape(&self.spec_mesh(), oshape),
                num_side_faces == self.spec_mesh().spec_num_side_faces_for_shape(oshape),
                num_side_faces <= u8::MAX + 1,
                sf <= num_side_faces,
                by_side@.len() == sf,
                forall|j: int|
                    0 <= j < sf ==> mons_view((#[trigger] by_side@[j])@)
                        == self.spec_side_mons_for_oshape_side(oshape, SideFace(j as u8)),
            decreases num_side_faces - sf,
        {
            let side_mons = self.side_mons_for_oshape_side(oshape, SideFace(sf as u8));
            by_side.push(side_mons);
            sf += 1;
        }
        by_side
    }

    /// Takes the weak gradients of the shape functions of the next oriented shape that
    /// lacks them: `int_mon_wgrads` by interior monomial number, `side_mon_wgrads` by face
    /// slot and side monomial number. They are refused, and the basis is left as it was,
    /// where no shape lacks them or they are not one per monomial.
    pub fn cache_wgrads_on_oshape(
        &mut self,
        int_mon_wgrads: Vec<G>,
        side_mon_wgrads: Vec<Vec<G>>,
    ) -> (res: Result<(), WgradsError>)
        requires
            old(self).wf(),
        ensures
            final(self).wf(),
            final(self).spec_mesh() == old(self).spec_mesh(),
            final(self).spec_int_polys_deg_lim() == old(self).spec_int_polys_deg_lim(),
            final(self).spec_side_polys_deg_lim() == old(self).spec_side_polys_deg_lim(),
            final(self).spec_int_mons() == old(self).spec_int_mons(),
            final(self).spec_side_mons_by_dep_dim() == old(self).spec_side_mons_by_dep_dim(),
            match res {
                Ok(()) => {
                    &&& old(self).spec_num_oshapes_with_wgrads() < old(
                        self,
                    ).spec_mesh().spec_num_oriented_element_shapes()
                    &&& wgrads_shaped(
                        int_mon_wgrads@,
                        side_mon_wgrads@,
                        old(self).spec_mons_per_fe_int(),
                        old(self).spec_mons_per_fe_side(),
                        old(self).spec_mesh().spec_num_side_faces_for_shape(
                            OShape(old(self).spec_num_oshapes_with_wgrads() as usize),
                        ),
                    )
                    &&& final(self).spec_int_mon_wgrads() == old(self).spec_int_mon_wgrads().push(
                        int_mon_wgrads@,
                    )
                    &&& final(self).spec_side_mon_wgrads() == old(
                        self,
                    ).spec_side_mon_wgrads().push(seqs_of(side_mon_wgrads@))
                },
                Err(e) => {
                    &&& final(self).spec_int_mon_wgrads() == old(self).spec_int_mon_wgrads()
                    &&& final(self).spec_side_mon_wgrads() == old(self).spec_side_mon_wgrads()
                    &&& if old(self).spec_num_oshapes_with_wgrads() >= old(
                        self,
                    ).spec_mesh().spec_num_oriented_element_shapes() {
                        e == WgradsError::AllWgradsCached
                    } else {
                        &&& e == WgradsError::WgradsShapeMismatch
                        &&& !wgrads_shaped(
                            int_mon_wgrads@,
                            side_mon_wgrads@,
                            old(self).spec_mons_per_fe_int(),
                            old(self).spec_mons_per_fe_side(),
                            old(self).spec_mesh().spec_num_side_faces_for_shape(
                                OShape(old(self).spec_num_oshapes_with_wgrads() as usize),
                            ),
                        )
                    }
                },
            },
    {
        let oshape = match self.next_oshape_without_wgrads() {
            Some(os) => os,
            None => {
                return Err(WgradsError::AllWgradsCached);
            },
        };
        let num_side_faces = self.mesh.num_side_faces_for_shape(oshape);
        if int_mon_wgrads.len() != self.mons_per_fe_int || side_mon_wgrads.len()
            != num_side_faces {
            return Err(WgradsError::WgradsShapeMismatch);
        }
        let mut sf: usize = 0;
        while sf < num_side_faces
            invariant
                self.wf(),
                *self == *old(self),
                num_side_faces == side_mon_wgrads@.len(),
                sf <= num_side_faces,
                oshape.0 == self.spec_num_oshapes_with_wgrads(),
                oshape.0 < self.spec_mesh().spec_num_oriented_element_shapes(),
                forall|j: int|
                    0 <= j < sf ==> (#[trigger] side_mon_wgrads@[j])@.len()
                        == self.spec_mons_per_fe_side(),
            decreases num_side_faces - sf,
        {
            if side_mon_wgrads[sf].len() != self.mons_per_fe_side {
                return Err(WgradsError::WgradsShapeMismatch);
            }
            sf += 1;
        }
        let ghost before_int = self.spec_int_mon_wgrads();
        let ghost before_side = self.spec_side_mon_wgrads();
        self.int_mon_wgrads.push(int_mon_wgrads);
        self.side_mon_wgrads.push(side_mon_wgrads);
        proof {
            assert(self.spec_int_mon_wgrads() =~= before_int.push(int_mon_wgrads@));
            assert(self.spec_side_mon_wgrads() =~= before_side.push(seqs_of(side_mon_wgrads@)))
                by {
                assert(self.spec_side_mon_wgrads()[oshape.0 as int] =~= seqs_of(
                    side_mon_wgrads@,
                ));
                let after_side = self.spec_side_mon_wgrads();
                assert forall|os: int| 0 <= os < before_side.len() implies #[trigger] after_side[os]
                    =~= before_side[os] by {}
            }
            let cached = self.spec_int_mon_wgrads().len();
            assert forall|os: int| 0 <= os < cached implies #[trigger] self.wgrads_fit_oshape(
                os,
            ) by {
                if os < before_int.len() {
                    assert(old(self).wgrads_fit_oshape(os));
                }
            }
        }
        Ok(())
    }

    /// The weak gradient of the shape function that an interior monomial defines on an
    /// oriented shape.
    pub fn wgrad_int_mon(&self, monn: FaceMonNum, oshape: OShape) -> (wgrad: &G)
        requires
            self.wf(),
            oshape.0 < self.spec_num_oshapes_with_wgrads(),
            monn.0 < self.spec_mons_per_fe_int(),
        ensures
            *wgrad == self.spec_int_mon_wgrads()[oshape.0 as int][monn.0 as int],
    {
        proof {
            assert(self.wgrads_fit_oshape(oshape.0 as int));
        }
        &self.int_mon_wgrads[oshape.0][monn.0]
    }

    /// The weak gradient of the shape function that a side monomial defines on the side in
    /// a face slot of an oriented shape.
    pub fn wgrad_side_mon(
        &self,
        monn: FaceMonNum,
        oshape: OShape,
        side_face: SideFace,
    ) -> (wgrad: &G)
        requires
            self.wf(),
            oshape.0 < self.spec_num_oshapes_with_wgrads(),
            side_face.0 < self.spec_mesh().spec_num_side_faces_for_shape(oshape),
            monn.0 < self.spec_mons_per_fe_side(),
        ensures
            *wgrad
                == self.spec_side_mon_wgrads()[oshape.0 as int][side_face.0 as int][monn.0 as int],
    {
        proof {
            assert(self.wgrads_fit_oshape(oshape.0 as int));
            assert(self.spec_side_mon_wgrads()[oshape.0 as int][side_face.0 as int].len()
                == self.spec_mons_per_fe_side());
        }
        &self.side_mon_wgrads[oshape.0][side_face.0 as usize][monn.0]
    }
}

/// In a row of blocks of `m` entries, positions are ordered by block first and by place in
/// the block second.
proof fn lemma_block_order(m: nat, k1: nat, j1: nat, k2: nat, j2: nat)
    by (nonlinear_arith)
    requires
        j1 < m,
        j2 < m,
    ensures
        (k1 * m + j1 < k2 * m + j2) <==> (k1 < k2 || (k1 == k2 && j1 < j2)),
{
}

impl<MeshT: Mesh, G> WgBasis<MeshT, G> {
    /// The basis elements are those supported on interiors followed by those supported on
    /// sides: every number below the number of elements is of exactly one of the two kinds,
    /// and no other number is of either.
    pub proof fn lemma_partition(&self, i: BasisElNum)
        requires
            self.wf(),
        ensures
            self.spec_total_els() == self.spec_mesh().spec_num_fes() * self.spec_mons_per_fe_int()
                + self.spec_mesh().spec_num_nb_sides() * self.spec_mons_per_fe_side(),
            i.0 < self.spec_total_els() ==> (self.spec_is_int_supported(i)
                != self.spec_is_side_supported(i)),
            i.0 >= self.spec_total_els() ==> !self.spec_is_int_supported(i)
                && !self.spec_is_side_supported(i),
    {
        // The elements on sides are no fewer than none.
        let side_els = self.spec_mesh().spec_num_nb_sides() * self.spec_mons_per_fe_side();
        assert(side_els >= 0);
    }

    /// An interior-supported basis element is the element that its interior and its
    /// monomial number give.
    pub proof fn lemma_int_el_round_trip(&self, i: BasisElNum)
        requires
            self.wf(),
            self.spec_is_int_supported(i),
        ensures
            is_fe(&self.spec_mesh(), self.spec_support_int_fe_num(i)),
            self.spec_int_rel_mon_num(i).0 < self.spec_mons_per_fe_int(),
            self.spec_int_mon_el_num(self.spec_support_int_fe_num(i), self.spec_int_rel_mon_num(i))
                == i,
    {
        lemma_block_of_index(
            self.spec_mesh().spec_num_fes(),
            self.spec_mons_per_fe_int(),
            i.0 as nat,
        );
    }

    /// The basis element of a monomial on an interior is supported on that interior, with
    /// that monomial number.
    pub proof fn lemma_int_mon_round_trip(&self, fe: FENum, monn: FaceMonNum)
        requires
            self.wf(),
            is_fe(&self.spec_mesh(), fe),
            monn.0 < self.spec_mons_per_fe_int(),
        ensures
            self.spec_is_int_supported(self.spec_int_mon_el_num(fe, monn)),
            self.spec_support_int_fe_num(self.spec_int_mon_el_num(fe, monn)) == fe,
            self.spec_int_rel_mon_num(self.spec_int_mon_el_num(fe, monn)) == monn,
    {
        lemma_index_in_block(
            self.spec_mesh().spec_num_fes(),
            self.spec_mons_per_fe_int(),
            fe.0 as nat,
            monn.0 as nat,
        );
    }

    /// A side-supported basis element is the element that its side and its monomial number
    /// give.
    pub proof fn lemma_side_el_round_trip(&self, i: BasisElNum)
        requires
            self.wf(),
            self.spec_is_side_supported(i),
        ensures
            is_nb_side(&self.spec_mesh(), self.spec_support_nb_side_num(i)),
            self.spec_side_rel_mon_num(i).0 < self.spec_mons_per_fe_side(),
            self.spec_nb_side_mon_el_num(
                self.spec_support_nb_side_num(i),
                self.spec_side_rel_mon_num(i),
            ) == i,
    {
        lemma_block_of_index(
            self.spec_mesh().spec_num_nb_sides(),
            self.spec_mons_per_fe_side(),
            (i.0 - self.spec_num_int_els()) as nat,
        );
    }

    /// The basis element of a monomial on a non-boundary side is supported on that side,
    /// with that monomial number.
    pub proof fn lemma_nb_side_mon_round_trip(&self, sn: NBSideNum, monn: FaceMonNum)
        requires
            self.wf(),
            is_nb_side(&self.spec_mesh(), sn),
            monn.0 < self.spec_mons_per_fe_side(),
        ensures
            self.spec_is_side_supported(self.spec_nb_side_mon_el_num(sn, monn)),
            self.spec_support_nb_side_num(self.spec_nb_side_mon_el_num(sn, monn)) == sn,
            self.spec_side_rel_mon_num(self.spec_nb_side_mon_el_num(sn, monn)) == monn,
    {
        lemma_index_in_block(
            self.spec_mesh().spec_num_nb_sides(),
            self.spec_mons_per_fe_side(),
            sn.0 as nat,
            monn.0 as nat,
        );
    }

    /// The basis element of a monomial on the side in a non-boundary face slot of an element
    /// is supported on that side, which the element adjoins.
    pub proof fn lemma_side_mon_of_fe_side(&self, fe: FENum, side_face: SideFace, monn: FaceMonNum)
        requires
            self.wf(),
            is_fe_side(&self.spec_mesh(), fe, side_face),
            !self.spec_mesh().spec_is_boundary_side(fe, side_face),
            monn.0 < self.spec_mons_per_fe_side(),
        ensures
            ({
                let i = self.spec_side_mon_el_num(fe, side_face, monn);
                let incls = self.spec_mesh().spec_fe_inclusions_of_nb_side(
                    self.spec_support_nb_side_num(i),
                );
                &&& self.spec_is_side_supported(i)
                &&& self.spec_support_nb_side_num(i)
                    == self.spec_mesh().spec_nb_side_num_for_fe_side(fe, side_face)
                &&& self.spec_side_rel_mon_num(i) == monn
                &&& (incls.fe1 == fe && incls.sideface_in_fe1 == side_face) || (incls.fe2 == fe
                    && incls.sideface_in_fe2 == side_face)
            }),
    {
        self.spec_mesh().lemma_fe_is_included_by_its_nb_sides(fe, side_face);
        self.lemma_nb_side_mon_round_trip(
            self.spec_mesh().spec_nb_side_num_for_fe_side(fe, side_face),
            monn,
        );
    }

    /// Interior-supported basis elements are numbered by ascending element first, and on
    /// one element by ascending monomial number.
    pub proof fn lemma_int_els_ordered(
        &self,
        fe1: FENum,
        monn1: FaceMonNum,
        fe2: FENum,
        monn2: FaceMonNum,
    )
        requires
            self.wf(),
            is_fe(&self.spec_mesh(), fe1),
            is_fe(&self.spec_mesh(), fe2),
            monn1.0 < self.spec_mons_per_fe_int(),
            monn2.0 < self.spec_mons_per_fe_int(),
        ensures
            (self.spec_int_mon_el_num(fe1, monn1).0 < self.spec_int_mon_el_num(fe2, monn2).0) <==> (
            fe1.0 < fe2.0 || (fe1.0 == fe2.0 && monn1.0 < monn2.0)),
    {
        let m = self.spec_mons_per_fe_int();
        let n = self.spec_mesh().spec_num_fes();
        lemma_index_in_block(n, m, fe1.0 as nat, monn1.0 as nat);
        lemma_index_in_block(n, m, fe2.0 as nat, monn2.0 as nat);
        lemma_block_order(m, fe1.0 as nat, monn1.0 as nat, fe2.0 as nat, monn2.0 as nat);
    }

    /// Side-supported basis elements are numbered by ascending side first, and on one side
    /// by ascending monomial number.
    pub proof fn lemma_side_els_ordered(
        &self,
        sn1: NBSideNum,
        monn1: FaceMonNum,
        sn2: NBSideNum,
        monn2: FaceMonNum,
    )
        requires
            self.wf(),
            is_nb_side(&self.spec_mesh(), sn1),
            is_nb_side(&self.spec_mesh(), sn2),
            monn1.0 < self.spec_mons_per_fe_side(),
            monn2.0 < self.spec_mons_per_fe_side(),
        ensures
            (self.spec_nb_side_mon_el_num(sn1, monn1).0 < self.spec_nb_side_mon_el_num(
                sn2,
                monn2,
            ).0) <==> (sn1.0 < sn2.0 || (sn1.0 == sn2.0 && monn1.0 < monn2.0)),
    {
        let m = self.spec_mons_per_fe_side();
        let n = self.spec_mesh().spec_num_nb_sides();
        lemma_index_in_block(n, m, sn1.0 as nat, monn1.0 as nat);
        lemma_index_in_block(n, m, sn2.0 as nat, monn2.0 as nat);
        lemma_block_order(m, sn1.0 as nat, monn1.0 as nat, sn2.0 as nat, monn2.0 as nat);
    }

    /// Every interior-supported basis element comes before every side-supported one.
    pub proof fn lemma_int_els_before_side_els(&self, i: BasisElNum, j: BasisElNum)
        requires
            self.wf(),
            self.spec_is_int_supported(i),
            self.spec_is_side_supported(j),
        ensures
            i.0 < j.0,
    {
    }
}

/// Of two positions in one block of a row of blocks of `m` entries, the earlier one has the
/// earlier place in the block.
proof fn lemma_places_in_block(count: nat, m: nat, i: nat, j: nat)
    by (nonlinear_arith)
    requires
        i < j < count * m,
        i / m == j / m,
    ensures
        i % m < j % m < m,
{
}

impl<MeshT: Mesh, G> WgBasis<MeshT, G> {
    /// Among the basis elements of one interior, those with the earlier number have the
    /// monomial that comes earlier in the canonical order.
    pub proof fn lemma_int_mons_ordered(&self, i: BasisElNum, j: BasisElNum)
        requires
            self.wf(),
            self.spec_is_int_supported(i),
            self.spec_is_int_supported(j),
            self.spec_support_int_fe_num(i) == self.spec_support_int_fe_num(j),
            i.0 < j.0,
        ensures
            precedes(
                self.spec_int_mons()[self.spec_int_rel_mon_num(i).0 as int],
                self.spec_int_mons()[self.spec_int_rel_mon_num(j).0 as int],
            ),
    {
        let n = self.spec_mesh().spec_num_fes();
        let m = self.spec_mons_per_fe_int();
        lemma_block_of_index(n, m, i.0 as nat);
        lemma_block_of_index(n, m, j.0 as nat);
        lemma_places_in_block(n, m, i.0 as nat, j.0 as nat);
    }

    /// Among the basis elements of one side, those with the earlier number have the
    /// monomial that comes earlier in the canonical order, whichever the dependent dimension
    /// of the side.
    pub proof fn lemma_side_mons_ordered(&self, i: BasisElNum, j: BasisElNum, dep_dim: Dim)
        requires
            self.wf(),
            self.spec_is_side_supported(i),
            self.spec_is_side_supported(j),
            self.spec_support_nb_side_num(i) == self.spec_support_nb_side_num(j),
            i.0 < j.0,
            dep_dim.0 < self.spec_mesh().spec_space_dim(),
        ensures
            precedes(
                self.spec_side_mons_by_dep_dim()[dep_dim.0 as int][self.spec_side_rel_mon_num(
                    i,
                ).0 as int],
                self.spec_side_mons_by_dep_dim()[dep_dim.0 as int][self.spec_side_rel_mon_num(
                    j,
                ).0 as int],
            ),
    {
        let n = self.spec_mesh().spec_num_nb_sides();
        let m = self.spec_mons_per_fe_side();
        let first = self.spec_num_int_els();
        lemma_block_of_index(n, m, (i.0 - first) as nat);
        lemma_block_of_index(n, m, (j.0 - first) as nat);
        lemma_places_in_block(n, m, (i.0 - first) as nat, (j.0 - first) as nat);
        assert(self.spec_side_mons_by_dep_dim()[dep_dim.0 as int].len() == m);
        assert(sorted(self.spec_side_mons_by_dep_dim()[dep_dim.0 as int]));
    }
}

} // verus!
