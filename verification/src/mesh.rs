//! Handles for the parts of a mesh, and what a basis asks of a mesh.

use vstd::prelude::*;
use crate::common::Dim;

verus! {

/// Number of a finite element (an interior) of a mesh.
#[derive(Clone, Copy, PartialEq, Eq, Structural, Debug)]
pub struct FENum(pub usize);

/// Number of a side that two finite elements share.
#[derive(Clone, Copy, PartialEq, Eq, Structural, Debug)]
pub struct NBSideNum(pub usize);

/// Identifier of an oriented element shape.
#[derive(Clone, Copy, PartialEq, Eq, Structural, Debug)]
pub struct OShape(pub usize);

/// One of the face slots on the boundary of an element.
#[derive(Clone, Copy, PartialEq, Eq, Structural, Debug)]
pub struct SideFace(pub u8);

/// A face of an element: its interior or one of its sides.
#[derive(Clone, Copy, PartialEq, Eq, Structural, Debug)]
pub enum Face {
    Interior,
    Side(SideFace),
}

/// The two elements that adjoin a non-boundary side, each with the face slot in which it
/// holds the side.
#[derive(Clone, Copy, PartialEq, Eq, Structural, Debug)]
pub struct NBSideInclusions {
    pub nb_side_num: NBSideNum,
    pub fe1: FENum,
    pub sideface_in_fe1: SideFace,
    pub fe2: FENum,
    pub sideface_in_fe2: SideFace,
}

/// What a basis needs to know of a mesh: how many elements, sides and shapes it has, which
/// sides lie on its boundary, and which elements adjoin which side.
///
/// The `spec_` functions are the mesh as mathematics; each query returns what its `spec_`
/// function says. The two lemmas are owed by every mesh: sides and face slots must agree on
/// who is whose neighbor.
pub trait Mesh: Sized {
    /// The mesh was built from a valid configuration and its tables agree with it.
    spec fn wf(&self) -> bool;

    /// Number of coordinate axes of the space that the mesh lies in.
    spec fn spec_space_dim(&self) -> nat;

    /// Number of finite elements; they are numbered from zero.
    spec fn spec_num_fes(&self) -> nat;

    /// Number of sides that two elements share; they are numbered from zero.
    spec fn spec_num_nb_sides(&self) -> nat;

    /// Number of oriented element shapes; they are numbered from zero.
    spec fn spec_num_oriented_element_shapes(&self) -> nat;

    /// The oriented shape of element `fe`.
    spec fn spec_oriented_shape_for_fe(&self, fe: FENum) -> OShape;

    /// Number of face slots of a shape; they are numbered from zero.
    spec fn spec_num_side_faces_for_shape(&self, oshape: OShape) -> nat;

    /// The axis whose coordinate, on a side in this face slot, is determined by the others.
    spec fn spec_dependent_dim_for_oshape_side(
        &self,
        oshape: OShape,
        side_face: SideFace,
    ) -> Dim;

    /// The side in this face slot of element `fe` lies on the boundary of the mesh.
    spec fn spec_is_boundary_side(&self, fe: FENum, side_face: SideFace) -> bool;

    /// Number of the non-boundary side in this face slot of element `fe`.
    spec fn spec_nb_side_num_for_fe_side(&self, fe: FENum, side_face: SideFace) -> NBSideNum;

    /// The two elements that adjoin non-boundary side `sn`.
    spec fn spec_fe_inclusions_of_nb_side(&self, sn: NBSideNum) -> NBSideInclusions;

    /// Number of sides on the boundary of the mesh.
    spec fn spec_num_boundary_sides(&self) -> nat;

    /// The largest number of face slots that a shape of the mesh has.
    spec fn spec_max_num_shape_sides(&self) -> nat;

    /// Number of coordinate axes of the space that the mesh lies in.
    fn space_dim(&self) -> (d: Dim)
        requires
            self.wf(),
        ensures
            d.0 == self.spec_space_dim(),
            d.0 >= 1,
    ;

    /// Number of finite elements.
    fn num_fes(&self) -> (n: usize)
        requires
            self.wf(),
        ensures
            n == self.spec_num_fes(),
    ;

    /// Number of sides that two elements share.
    fn num_nb_sides(&self) -> (n: usize)
        requires
            self.wf(),
        ensures
            n == self.spec_num_nb_sides(),
    ;

    /// Number of oriented element shapes.
    fn num_oriented_element_shapes(&self) -> (n: usize)
        requires
            self.wf(),
        ensures
            n == self.spec_num_oriented_element_shapes(),
    ;

    /// The oriented shape of an element.
    fn oriented_shape_for_fe(&self, fe: FENum) -> (oshape: OShape)
        requires
            self.wf(),
            fe.0 < self.spec_num_fes(),
        ensures
            oshape == self.spec_oriented_shape_for_fe(fe),
            oshape.0 < self.spec_num_oriented_element_shapes(),
    ;

    /// Number of face slots of an element.
    fn num_side_faces_for_fe(&self, fe: FENum) -> (n: usize)
        requires
            self.wf(),
            fe.0 < self.spec_num_fes(),
        ensures
            n == self.spec_num_side_faces_for_shape(self.spec_oriented_shape_for_fe(fe)),
    ;

    /// Number of face slots of a shape.
    fn num_side_faces_for_shape(&self, oshape: OShape) -> (n: usize)
        requires
            self.wf(),
            oshape.0 < self.spec_num_oriented_element_shapes(),
        ensures
            n == self.spec_num_side_faces_for_shape(oshape),
            n <= u8::MAX + 1,
    ;

    /// The axis whose coordinate, on a side in this face slot, is determined by the others.
    fn dependent_dim_for_oshape_side(&self, oshape: OShape, side_face: SideFace) -> (r: Dim)
        requires
            self.wf(),
            oshape.0 < self.spec_num_oriented_element_shapes(),
            side_face.0 < self.spec_num_side_faces_for_shape(oshape),
        ensures
            r == self.spec_dependent_dim_for_oshape_side(oshape, side_face),
            r.0 < self.spec_space_dim(),
    ;

    /// The two elements that adjoin a non-boundary side.
    fn fe_inclusions_of_nb_side(&self, sn: NBSideNum) -> (incls: NBSideInclusions)
        requires
            self.wf(),
            sn.0 < self.spec_num_nb_sides(),
        ensures
            incls == self.spec_fe_inclusions_of_nb_side(sn),
    ;

    /// Number of the non-boundary side in a face slot of an element.
    fn nb_side_num_for_fe_side(&self, fe: FENum, side_face: SideFace) -> (sn: NBSideNum)
        requires
            self.wf(),
            fe.0 < self.spec_num_fes(),
            side_face.0 < self.spec_num_side_faces_for_shape(self.spec_oriented_shape_for_fe(fe)),
            !self.spec_is_boundary_side(fe, side_face),
        ensures
            sn == self.spec_nb_side_num_for_fe_side(fe, side_face),
            sn.0 < self.spec_num_nb_sides(),
    ;

    /// Whether the side in a face slot of an element lies on the boundary of the mesh.
    fn is_boundary_side(&self, fe: FENum, side_face: SideFace) -> (b: bool)
        requires
            self.wf(),
            fe.0 < self.spec_num_fes(),
            side_face.0 < self.spec_num_side_faces_for_shape(self.spec_oriented_shape_for_fe(fe)),
        ensures
            b == self.spec_is_boundary_side(fe, side_face),
    ;

    /// Number of sides on the boundary of the mesh.
    fn num_boundary_sides(&self) -> (n: usize)
        requires
            self.wf(),
        ensures
            n == self.spec_num_boundary_sides(),
    ;

    /// Number of face slots of an element whose side is shared with another element.
    fn num_non_boundary_sides_for_fe(&self, fe: FENum) -> (n: usize)
        requires
            self.wf(),
            fe.0 < self.spec_num_fes(),
        ensures
            n == count_false(
                Seq::new(
                    self.spec_num_side_faces_for_shape(self.spec_oriented_shape_for_fe(fe)),
                    |k: int| self.spec_is_boundary_side(fe, SideFace(k as u8)),
                ),
            ),
    ;

    /// The largest number of face slots that a shape of the mesh has.
    fn max_num_shape_sides(&self) -> (n: usize)
        requires
            self.wf(),
        ensures
            n == self.spec_max_num_shape_sides(),
    ;

    /// A side is a non-boundary side of both elements that adjoin it, in the face slots that
    /// the inclusions name, and it is the side that each of them finds there.
    proof fn lemma_nb_side_is_side_of_its_fes(&self, sn: NBSideNum)
        requires
            self.wf(),
            sn.0 < self.spec_num_nb_sides(),
        ensures
            ({
                let incls = self.spec_fe_inclusions_of_nb_side(sn);
                &&& incls.nb_side_num == sn
                &&& incls.fe1 != incls.fe2
                &&& incls.fe1.0 < self.spec_num_fes()
                &&& incls.sideface_in_fe1.0 < self.spec_num_side_faces_for_shape(
                    self.spec_oriented_shape_for_fe(incls.fe1),
                )
                &&& incls.fe2.0 < self.spec_num_fes()
                &&& incls.sideface_in_fe2.0 < self.spec_num_side_faces_for_shape(
                    self.spec_oriented_shape_for_fe(incls.fe2),
                )
                &&& !self.spec_is_boundary_side(incls.fe1, incls.sideface_in_fe1)
                &&& !self.spec_is_boundary_side(incls.fe2, incls.sideface_in_fe2)
                &&& self.spec_nb_side_num_for_fe_side(incls.fe1, incls.sideface_in_fe1) == sn
                &&& self.spec_nb_side_num_for_fe_side(incls.fe2, incls.sideface_in_fe2) == sn
            }),
    ;

    /// An element is one of the two that adjoin the side in any of its non-boundary face
    /// slots, and the inclusions of that side name the slot.
    proof fn lemma_fe_is_included_by_its_nb_sides(&self, fe: FENum, side_face: SideFace)
        requires
            self.wf(),
            fe.0 < self.spec_num_fes(),
            side_face.0 < self.spec_num_side_faces_for_shape(self.spec_oriented_shape_for_fe(fe)),
            !self.spec_is_boundary_side(fe, side_face),
        ensures
            ({
                let sn = self.spec_nb_side_num_for_fe_side(fe, side_face);
                let incls = self.spec_fe_inclusions_of_nb_side(sn);
                &&& sn.0 < self.spec_num_nb_sides()
                &&& (incls.fe1 == fe && incls.sideface_in_fe1 == side_face) || (incls.fe2 == fe
                    && incls.sideface_in_fe2 == side_face)
            }),
    ;
}

/// Number of entries of `flags` that are false.
pub open spec fn count_false(flags: Seq<bool>) -> nat
    decreases flags.len(),
{
    if flags.len() == 0 {
        0
    } else {
        count_false(flags.drop_last()) + if flags.last() {
            0nat
        } else {
            1nat
        }
    }
}

/// `fe` is the number of an element of the mesh.
pub open spec fn is_fe<M: Mesh>(mesh: &M, fe: FENum) -> bool {
    fe.0 < mesh.spec_num_fes()
}

/// `sn` is the number of a non-boundary side of the mesh.
pub open spec fn is_nb_side<M: Mesh>(mesh: &M, sn: NBSideNum) -> bool {
    sn.0 < mesh.spec_num_nb_sides()
}

/// `oshape` is one of the oriented shapes of the mesh.
pub open spec fn is_oshape<M: Mesh>(mesh: &M, oshape: OShape) -> bool {
    oshape.0 < mesh.spec_num_oriented_element_shapes()
}

/// Number of face slots of element `fe`: that of its shape.
pub open spec fn spec_num_side_faces_for_fe<M: Mesh>(mesh: &M, fe: FENum) -> nat {
    mesh.spec_num_side_faces_for_shape(mesh.spec_oriented_shape_for_fe(fe))
}

/// `fe` is an element of the mesh and `side_face` one of its face slots.
pub open spec fn is_fe_side<M: Mesh>(mesh: &M, fe: FENum, side_face: SideFace) -> bool {
    &&& is_fe(mesh, fe)
    &&& side_face.0 < spec_num_side_faces_for_fe(mesh, fe)
}

/// For each face slot of element `fe`, whether its side lies on the boundary.
pub open spec fn boundary_flags<M: Mesh>(mesh: &M, fe: FENum) -> Seq<bool> {
    Seq::new(
        spec_num_side_faces_for_fe(mesh, fe),
        |k: int| mesh.spec_is_boundary_side(fe, SideFace(k as u8)),
    )
}

/// Number of face slots of element `fe` whose side is shared with another element.
pub open spec fn spec_num_non_boundary_sides_for_fe<M: Mesh>(mesh: &M, fe: FENum) -> nat {
    count_false(boundary_flags(mesh, fe))
}

} // verus!
