//! Monomials as exponent vectors, their canonical order, and the limits that bound a
//! polynomial space.

use vstd::prelude::*;
use crate::common::{Deg, Dim};

verus! {

/// Bound on the monomials of a polynomial space.
#[derive(Clone, Copy, PartialEq, Eq, Structural, Debug)]
pub enum DegLim {
    /// The exponents of a monomial sum to at most this degree.
    MaxMonDeg(Deg),
    /// Every exponent of a monomial is at most this degree.
    MaxMonFactorDeg(Deg),
}

impl DegLim {
    /// The degree that the limit names.
    pub open spec fn spec_deg(self) -> Deg {
        match self {
            DegLim::MaxMonDeg(k) => k,
            DegLim::MaxMonFactorDeg(k) => k,
        }
    }

    /// The degree that the limit names.
    pub fn deg(self) -> (k: Deg)
        ensures
            k == self.spec_deg(),
    {
        match self {
            DegLim::MaxMonDeg(k) => k,
            DegLim::MaxMonFactorDeg(k) => k,
        }
    }
}

/// A product of powers of the coordinates, given by the exponent of each coordinate.
#[derive(Debug)]
pub struct Monomial {
    pub exps: Vec<Deg>,
}

impl View for Monomial {
    type V = Seq<Deg>;

    open spec fn view(&self) -> Seq<Deg> {
        self.exps@
    }
}

impl Clone for Monomial {
    fn clone(&self) -> (mon: Self)
        ensures
            mon@ == self@,
    {
        let mut exps: Vec<Deg> = Vec::new();
        let mut r: usize = 0;
        while r < self.exps.len()
            invariant
                r <= self.exps@.len(),
                exps@ == self.exps@.subrange(0, r as int),
            decreases self.exps@.len() - r,
        {
            exps.push(self.exps[r]);
            r += 1;
        }
        Monomial { exps }
    }
}

impl Monomial {
    /// Number of coordinates of the space on which the monomial is defined.
    pub fn domain_dim(&self) -> (d: Dim)
        ensures
            d.0 == self@.len(),
    {
        Dim(self.exps.len())
    }

    /// Exponent of coordinate `r`.
    pub fn exp(&self, r: Dim) -> (e: Deg)
        requires
            r.0 < self@.len(),
        ensures
            e == self@[r.0 as int],
    {
        self.exps[r.0]
    }

    /// The product of coordinate 0 to the power `e` and the monomial `rest` in the
    /// coordinates after it.
    pub fn with_first_exp(e: Deg, rest: &Monomial) -> (mon: Monomial)
        ensures
            mon@ == seq![e] + rest@,
    {
        let mut exps: Vec<Deg> = Vec::new();
        exps.push(e);
        let mut r: usize = 0;
        while r < rest.exps.len()
            invariant
                r <= rest@.len(),
                exps@ == seq![e] + rest@.subrange(0, r as int),
            decreases rest@.len() - r,
        {
            exps.push(rest.exps[r]);
            r += 1;
        }
        proof {
            assert(rest@.subrange(0, r as int) =~= rest@);
        }
        Monomial { exps }
    }
}

/// Sum of the first `k` exponents.
pub open spec fn deg_upto(exps: Seq<Deg>, k: nat) -> nat
    decreases k,
{
    if k == 0 {
        0
    } else {
        deg_upto(exps, (k - 1) as nat) + exps[k - 1].0 as nat
    }
}

/// Degree of the monomial: the sum of its exponents.
pub open spec fn total_deg(exps: Seq<Deg>) -> nat {
    deg_upto(exps, exps.len())
}

/// The monomial belongs to the polynomial space that `lim` bounds.
pub open spec fn within_deg_lim(exps: Seq<Deg>, lim: DegLim) -> bool {
    match lim {
        DegLim::MaxMonDeg(k) => total_deg(exps) <= k.0,
        DegLim::MaxMonFactorDeg(k) => forall|r: int|
            0 <= r < exps.len() ==> (#[trigger] exps[r]).0 <= k.0,
    }
}

/// `a` and `b` agree before coordinate `k`, and there `a` has the lesser exponent.
pub open spec fn precedes_at(a: Seq<Deg>, b: Seq<Deg>, k: int) -> bool {
    &&& 0 <= k < a.len()
    &&& k < b.len()
    &&& a[k].0 < b[k].0
    &&& a.subrange(0, k) == b.subrange(0, k)
}

/// `a` comes before `b` in the canonical order of monomials: at the first coordinate in
/// which they differ, `a` has the lesser exponent. So the exponents of the lower coordinates
/// are the more significant: `x^0 y^2` comes before `x^1 y^1`.
pub open spec fn precedes(a: Seq<Deg>, b: Seq<Deg>) -> bool {
    exists|k: int| precedes_at(a, b, k)
}

/// The canonical order is transitive.
pub proof fn lemma_precedes_transitive(a: Seq<Deg>, b: Seq<Deg>, c: Seq<Deg>)
    requires
        precedes(a, b),
        precedes(b, c),
    ensures
        precedes(a, c),
{
    let k1 = choose|k: int| precedes_at(a, b, k);
    let k2 = choose|k: int| precedes_at(b, c, k);
    // Where the first of the two differences lies, `a` and `c` differ first.
    let k = if k1 <= k2 {
        k1
    } else {
        k2
    };
    assert(a.subrange(0, k) =~= c.subrange(0, k)) by {
        assert forall|i: int| 0 <= i < k implies a[i] == c[i] by {
            assert(a.subrange(0, k1)[i] == b.subrange(0, k1)[i]);
            assert(b.subrange(0, k2)[i] == c.subrange(0, k2)[i]);
        }
    }
    if k1 < k2 {
        assert(b.subrange(0, k2)[k1] == c.subrange(0, k2)[k1]);
    } else if k2 < k1 {
        assert(a.subrange(0, k1)[k2] == b.subrange(0, k1)[k2]);
    }
    assert(precedes_at(a, c, k));
}

/// No monomial comes before itself.
pub proof fn lemma_precedes_irreflexive(a: Seq<Deg>)
    ensures
        !precedes(a, a),
{
    assert(forall|k: int| !precedes_at(a, a, k));
}

/// The degree of a product is the sum of the degrees of its factors.
pub proof fn lemma_deg_with_first_exp(e: Deg, rest: Seq<Deg>, k: nat)
    requires
        k <= rest.len(),
    ensures
        deg_upto(seq![e] + rest, k + 1) == e.0 + deg_upto(rest, k),
    decreases k,
{
    let all = seq![e] + rest;
    if k == 0 {
        assert(deg_upto(all, 0) == 0);
        assert(all[0] == e);
    } else {
        lemma_deg_with_first_exp(e, rest, (k - 1) as nat);
        assert(all[k as int] == rest[k - 1]);
    }
}

/// No exponent of a monomial exceeds its degree.
pub proof fn lemma_exp_le_deg(exps: Seq<Deg>, r: int, k: nat)
    requires
        0 <= r < k <= exps.len(),
    ensures
        exps[r].0 <= deg_upto(exps, k),
    decreases k,
{
    if r < k - 1 {
        lemma_exp_le_deg(exps, r, (k - 1) as nat);
    }
}

} // verus!
