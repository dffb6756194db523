//! Small value types shared by the mesh and the basis.

use vstd::prelude::*;

verus! {

/// Index of a coordinate axis.
#[derive(Clone, Copy, PartialEq, Eq, Structural, Debug)]
pub struct Dim(pub usize);

/// Degree of a monomial or of one of its factors.
#[derive(Clone, Copy, PartialEq, Eq, Structural, Debug)]
pub struct Deg(pub u8);

/// Bit that carries the sign of a binary64 number.
pub const SIGN_BIT: u64 = 0x8000_0000_0000_0000;

/// Magnitude bits of the binary64 infinities; larger magnitudes are not numbers.
pub const INFINITY_BITS: u64 = 0x7ff0_0000_0000_0000;

/// A real number in IEEE 754 binary64 interchange format, held by its bit pattern.
///
/// The library never does arithmetic on reals. It stores them, hands them back, and decides
/// their order, which binary64 lays out so that it can be read off the bits.
///
/// Two values are `==` when their bits are the same. That is not equality of the numbers:
/// the two zeros have different bits, and bits that encode no number equal themselves.
#[derive(Clone, Copy, PartialEq, Eq, Structural, Debug)]
pub struct R(pub u64);

impl R {
    /// The bits without the sign.
    pub open spec fn magnitude(self) -> nat {
        if self.0 >= SIGN_BIT {
            (self.0 - SIGN_BIT) as nat
        } else {
            self.0 as nat
        }
    }

    /// The sign bit is set.
    pub open spec fn sign_negative(self) -> bool {
        self.0 >= SIGN_BIT
    }

    /// The bits encode no number.
    pub open spec fn is_nan(self) -> bool {
        self.magnitude() > INFINITY_BITS
    }

    /// An integer that orders the numbers as their values do: the magnitude, negated under a
    /// set sign bit. Both zeros get the key `0`.
    pub open spec fn order_key(self) -> int {
        if self.sign_negative() {
            -(self.magnitude() as int)
        } else {
            self.magnitude() as int
        }
    }

    /// `self > other` as binary64 compares: false whenever either side is not a number.
    pub open spec fn spec_gt(self, other: R) -> bool {
        &&& !self.is_nan()
        &&& !other.is_nan()
        &&& self.order_key() > other.order_key()
    }

    /// Decides `self > other`.
    pub fn gt(self, other: R) -> (b: bool)
        ensures
            b == self.spec_gt(other),
    {
        let self_neg = self.0 >= SIGN_BIT;
        let other_neg = other.0 >= SIGN_BIT;
        let self_mag: u64 = if self_neg { self.0 - SIGN_BIT } else { self.0 };
        let other_mag: u64 = if other_neg { other.0 - SIGN_BIT } else { other.0 };
        if self_mag > INFINITY_BITS || other_mag > INFINITY_BITS {
            false
        } else if self_neg {
            other_neg && self_mag < other_mag
        } else if other_neg {
            self_mag > 0 || other_mag > 0
        } else {
            self_mag > other_mag
        }
    }
}

/// A copy of `v` without its entry at index `a`: the coordinates of a point, or the extents
/// of an element, within a side perpendicular to axis `a`.
pub fn drop_axis<T: Copy>(v: &Vec<T>, a: Dim) -> (r: Vec<T>)
    requires
        a.0 < v@.len(),
    ensures
        r@ == v@.remove(a.0 as int),
{
    let mut r: Vec<T> = Vec::new();
    let mut i: usize = 0;
    while i < v.len()
        invariant
            a.0 < v@.len(),
            i <= v@.len(),
            i <= a.0 ==> r@ == v@.subrange(0, i as int),
            i > a.0 ==> r@ == v@.remove(a.0 as int).subrange(0, i - 1),
        decreases v@.len() - i,
    {
        if i != a.0 {
            r.push(v[i]);
        }
        i += 1;
    }
    r
}

/// A copy of `v` with `x` put in front of index `a`: the coordinates in space of a point of
/// a side perpendicular to axis `a`, where the side lies at `x` along that axis.
pub fn insert_axis<T: Copy>(v: &Vec<T>, a: Dim, x: T) -> (r: Vec<T>)
    requires
        a.0 <= v@.len(),
    ensures
        r@ == v@.insert(a.0 as int, x),
{
    let mut r: Vec<T> = Vec::new();
    let mut i: usize = 0;
    while i < v.len()
        invariant
            a.0 <= v@.len(),
            i <= v@.len(),
            i <= a.0 ==> r@ == v@.subrange(0, i as int),
            i > a.0 ==> r@ == v@.insert(a.0 as int, x).subrange(0, i + 1),
        decreases v@.len() - i,
    {
        if i == a.0 {
            r.push(x);
        }
        r.push(v[i]);
        i += 1;
    }
    if a.0 == v.len() {
        r.push(x);
    }
    r
}

/// Dropping the entry that was just inserted gives the sequence back.
pub proof fn lemma_drop_inserted<T>(v: Seq<T>, a: int, x: T)
    requires
        0 <= a <= v.len(),
    ensures
        v.insert(a, x).remove(a) == v,
        v.insert(a, x)[a] == x,
{
    assert(v.insert(a, x).remove(a) =~= v);
}

/// Putting a dropped entry back gives the sequence back.
pub proof fn lemma_insert_dropped<T>(v: Seq<T>, a: int)
    requires
        0 <= a < v.len(),
    ensures
        v.remove(a).insert(a, v[a]) == v,
{
    assert(v.remove(a).insert(a, v[a]) =~= v);
}

} // verus!
