//! Mixed-radix numbering of the points of an integer box.
//!
//! A box with extents `dims` holds the coordinate tuples `c` with `c[r] < dims[r]` on every
//! axis. Its points are numbered with axis 0 least significant: the weight of axis `r` is the
//! product of the extents of the axes before it.

use vstd::prelude::*;
use vstd::arithmetic::div_mod::*;
use vstd::arithmetic::mul::*;

verus! {

/// Product of the first `k` extents; `1` for `k == 0`.
pub open spec fn prod_upto(dims: Seq<nat>, k: nat) -> nat
    decreases k,
{
    if k == 0 {
        1
    } else {
        prod_upto(dims, (k - 1) as nat) * dims[k - 1]
    }
}

/// Number of points of the box.
pub open spec fn volume(dims: Seq<nat>) -> nat {
    prod_upto(dims, dims.len())
}

/// Every one of the first `k` extents is at least one.
pub open spec fn positive_upto(dims: Seq<nat>, k: nat) -> bool {
    forall|r: int| 0 <= r < k ==> #[trigger] dims[r] > 0
}

/// The tuple `coords` has one coordinate per axis, each below its extent.
pub open spec fn in_box(dims: Seq<nat>, coords: Seq<nat>) -> bool {
    &&& coords.len() == dims.len()
    &&& forall|r: int| 0 <= r < dims.len() ==> #[trigger] coords[r] < dims[r]
}

/// Coordinate of point number `n` along axis `r`.
pub open spec fn digit(dims: Seq<nat>, n: nat, r: nat) -> nat {
    (n % prod_upto(dims, r + 1)) / prod_upto(dims, r)
}

/// All coordinates of point number `n`.
pub open spec fn digits(dims: Seq<nat>, n: nat) -> Seq<nat> {
    Seq::new(dims.len(), |r: int| digit(dims, n, r as nat))
}

/// Weighted sum of the first `k` coordinates.
pub open spec fn encode_upto(dims: Seq<nat>, coords: Seq<nat>, k: nat) -> nat
    decreases k,
{
    if k == 0 {
        0
    } else {
        encode_upto(dims, coords, (k - 1) as nat) + coords[k - 1] * prod_upto(dims, (k - 1) as nat)
    }
}

/// Number of the point with the given coordinates.
pub open spec fn encode(dims: Seq<nat>, coords: Seq<nat>) -> nat {
    encode_upto(dims, coords, dims.len())
}

/// A product of positive extents is positive.
pub proof fn lemma_prod_positive(dims: Seq<nat>, k: nat)
    requires
        k <= dims.len(),
        positive_upto(dims, k),
    ensures
        prod_upto(dims, k) > 0,
    decreases k,
{
    if k > 0 {
        lemma_prod_positive(dims, (k - 1) as nat);
        let p = prod_upto(dims, (k - 1) as nat);
        let d = dims[k - 1];
        assert(p * d > 0) by (nonlinear_arith)
            requires
                p > 0,
                d > 0,
        ;
    }
}

/// A positive product has only positive factors.
pub proof fn lemma_positive_prod_factors(dims: Seq<nat>, k: nat)
    requires
        k <= dims.len(),
        prod_upto(dims, k) > 0,
    ensures
        positive_upto(dims, k),
    decreases k,
{
    if k > 0 {
        let p = prod_upto(dims, (k - 1) as nat);
        let d = dims[k - 1];
        assert(p > 0 && d > 0) by (nonlinear_arith)
            requires
                p * d > 0,
                p >= 0,
                d >= 0,
        ;
        lemma_positive_prod_factors(dims, (k - 1) as nat);
    }
}

/// Products of positive extents grow with the number of factors.
pub proof fn lemma_prod_monotone(dims: Seq<nat>, m: nat, k: nat)
    requires
        m <= k <= dims.len(),
        positive_upto(dims, k),
    ensures
        prod_upto(dims, m) <= prod_upto(dims, k),
    decreases k,
{
    if m < k {
        lemma_prod_monotone(dims, m, (k - 1) as nat);
        let p = prod_upto(dims, (k - 1) as nat);
        let d = dims[k - 1];
        assert(p <= p * d) by (nonlinear_arith)
            requires
                p >= 0,
                d > 0,
        ;
    }
}

/// Extents that are smaller on every axis give smaller products.
pub proof fn lemma_prod_le(small: Seq<nat>, large: Seq<nat>, k: nat)
    requires
        k <= small.len(),
        k <= large.len(),
        forall|r: int| 0 <= r < k ==> #[trigger] small[r] <= large[r],
    ensures
        prod_upto(small, k) <= prod_upto(large, k),
    decreases k,
{
    if k > 0 {
        lemma_prod_le(small, large, (k - 1) as nat);
        let ps = prod_upto(small, (k - 1) as nat);
        let pl = prod_upto(large, (k - 1) as nat);
        let ds = small[k - 1];
        let dl = large[k - 1];
        assert(ps * ds <= pl * dl) by (nonlinear_arith)
            requires
                0 <= ps <= pl,
                0 <= ds <= dl,
        ;
    }
}

/// Extents that agree on the first `k` axes have the same product there.
pub proof fn lemma_prod_agree(a: Seq<nat>, b: Seq<nat>, k: nat)
    requires
        k <= a.len(),
        k <= b.len(),
        forall|r: int| 0 <= r < k ==> #[trigger] a[r] == b[r],
    ensures
        prod_upto(a, k) == prod_upto(b, k),
    decreases k,
{
    if k > 0 {
        lemma_prod_agree(a, b, (k - 1) as nat);
    }
}

/// Replacing one extent rescales every product that includes it:
/// `prod(dims[a := v], k) * dims[a] == prod(dims, k) * v` for `k > a`.
pub proof fn lemma_prod_update(dims: Seq<nat>, a: nat, v: nat, k: nat)
    requires
        a < k <= dims.len(),
    ensures
        prod_upto(dims.update(a as int, v), k) * dims[a as int] == prod_upto(dims, k) * v,
    decreases k,
{
    let upd = dims.update(a as int, v);
    let pu = prod_upto(upd, (k - 1) as nat);
    let pd = prod_upto(dims, (k - 1) as nat);
    if k - 1 == a {
        lemma_prod_agree(upd, dims, a);
        assert((pd * v) * dims[a as int] == (pd * dims[a as int]) * v) by (nonlinear_arith);
    } else {
        lemma_prod_update(dims, a, v, (k - 1) as nat);
        let d = dims[k - 1];
        let da = dims[a as int];
        assert((pu * d) * da == (pd * d) * v) by (nonlinear_arith)
            requires
                pu * da == pd * v,
        ;
    }
}

/// A longer product of positive extents is a multiple of every shorter one.
pub proof fn lemma_prod_divides(dims: Seq<nat>, m: nat, k: nat)
    requires
        m <= k <= dims.len(),
        prod_upto(dims, m) > 0,
    ensures
        prod_upto(dims, k) % prod_upto(dims, m) == 0,
    decreases k,
{
    let pm = prod_upto(dims, m) as int;
    if m == k {
        lemma_mod_self_0(pm);
    } else {
        lemma_prod_divides(dims, m, (k - 1) as nat);
        let p = prod_upto(dims, (k - 1) as nat) as int;
        let d = dims[k - 1] as int;
        lemma_mul_mod_noop_left(p, d, pm);
        assert((p % pm) * d == 0) by (nonlinear_arith)
            requires
                p % pm == 0,
        ;
        lemma_small_mod(0, pm as nat);
    }
}

/// Each coordinate of a point lies below the extent of its axis.
pub proof fn lemma_digit_bound(dims: Seq<nat>, n: nat, r: nat)
    requires
        r < dims.len(),
        prod_upto(dims, r + 1) > 0,
    ensures
        digit(dims, n, r) < dims[r as int],
{
    let p = prod_upto(dims, r) as int;
    let d = dims[r as int] as int;
    let x = (n as int) % (p * d);
    assert(prod_upto(dims, r + 1) == p * d);
    assert(p > 0 && d > 0) by (nonlinear_arith)
        requires
            p * d > 0,
            p >= 0,
            d >= 0,
    ;
    lemma_mod_pos_bound(n as int, p * d);
    lemma_fundamental_div_mod(x, p);
    lemma_mod_pos_bound(x, p);
    let q = x / p;
    assert(q < d) by (nonlinear_arith)
        requires
            x == p * q + x % p,
            0 <= x % p,
            x < p * d,
            p > 0,
    ;
    lemma_div_pos_is_pos(x, p);
}

/// The number of a point of the box lies below the product of the extents used.
pub proof fn lemma_encode_bound(dims: Seq<nat>, coords: Seq<nat>, k: nat)
    requires
        k <= dims.len(),
        k <= coords.len(),
        forall|r: int| 0 <= r < k ==> #[trigger] coords[r] < dims[r],
    ensures
        encode_upto(dims, coords, k) < prod_upto(dims, k),
    decreases k,
{
    if k > 0 {
        lemma_encode_bound(dims, coords, (k - 1) as nat);
        let e = encode_upto(dims, coords, (k - 1) as nat);
        let p = prod_upto(dims, (k - 1) as nat);
        let c = coords[k - 1];
        let d = dims[k - 1];
        assert(e + c * p < p * d) by (nonlinear_arith)
            requires
                0 <= e < p,
                0 <= c < d,
        ;
    }
}

/// Numbers of points depend only on the coordinates that are summed.
pub proof fn lemma_encode_agree(dims: Seq<nat>, a: Seq<nat>, b: Seq<nat>, k: nat)
    requires
        k <= a.len(),
        k <= b.len(),
        forall|r: int| 0 <= r < k ==> #[trigger] a[r] == b[r],
    ensures
        encode_upto(dims, a, k) == encode_upto(dims, b, k),
    decreases k,
{
    if k > 0 {
        lemma_encode_agree(dims, a, b, (k - 1) as nat);
    }
}

/// Moving one step along axis `a` adds the weight of that axis to the point's number.
pub proof fn lemma_encode_step(dims: Seq<nat>, coords: Seq<nat>, a: nat, k: nat)
    requires
        a < k <= coords.len(),
    ensures
        encode_upto(dims, coords.update(a as int, coords[a as int] + 1), k) == encode_upto(
            dims,
            coords,
            k,
        ) + prod_upto(dims, a),
    decreases k,
{
    let stepped = coords.update(a as int, coords[a as int] + 1);
    if k - 1 == a {
        lemma_encode_agree(dims, stepped, coords, a);
        let p = prod_upto(dims, a);
        let c = coords[a as int];
        assert((c + 1) * p == c * p + p) by (nonlinear_arith);
    } else {
        lemma_encode_step(dims, coords, a, (k - 1) as nat);
    }
}

/// Encoding the coordinates of point `n` gives `n` back, up to the product of the extents used.
pub proof fn lemma_encode_digits(dims: Seq<nat>, n: nat, k: nat)
    requires
        k <= dims.len(),
        positive_upto(dims, k),
    ensures
        encode_upto(dims, digits(dims, n), k) == n % prod_upto(dims, k),
    decreases k,
{
    if k == 0 {
        lemma_small_mod(0, 1);
        assert(n as int % 1 == 0) by {
            lemma_mod_multiples_basic(n as int, 1);
        }
    } else {
        let j = (k - 1) as nat;
        lemma_encode_digits(dims, n, j);
        lemma_prod_positive(dims, j);
        let p = prod_upto(dims, j) as int;
        let d = dims[j as int] as int;
        let x = n as int;
        assert(prod_upto(dims, k) == p * d);
        // x % (p * d) == p * ((x / p) % d) + x % p
        lemma_mod_breakdown(x, p, d);
        lemma_mod_pos_bound(x, p);
        lemma_fundamental_div_mod_converse_div(x % (p * d), p, (x / p) % d, x % p);
        assert(digits(dims, n)[j as int] == digit(dims, n, j));
        assert(digit(dims, n, j) == (x / p) % d);
        assert(((x / p) % d) * p == p * ((x / p) % d)) by (nonlinear_arith);
    }
}

/// Every point number below the volume is the number of its own coordinates.
pub proof fn lemma_encode_digits_id(dims: Seq<nat>, n: nat)
    requires
        n < volume(dims),
    ensures
        in_box(dims, digits(dims, n)),
        encode(dims, digits(dims, n)) == n,
{
    lemma_positive_prod_factors(dims, dims.len());
    lemma_encode_digits(dims, n, dims.len());
    lemma_small_mod(n, volume(dims));
    assert forall|r: int| 0 <= r < dims.len() implies #[trigger] digits(dims, n)[r] < dims[r] by {
        lemma_prod_positive(dims, (r + 1) as nat);
        lemma_digit_bound(dims, n, r as nat);
    }
}

/// Modulo the weight of axis `m`, only the coordinates before `m` count.
proof fn lemma_encode_mod(dims: Seq<nat>, coords: Seq<nat>, m: nat, k: nat)
    requires
        m <= k <= dims.len(),
        in_box(dims, coords),
    ensures
        encode_upto(dims, coords, k) % prod_upto(dims, m) == encode_upto(dims, coords, m),
    decreases k,
{
    lemma_encode_bound(dims, coords, m);
    let pm = prod_upto(dims, m) as int;
    if m == k {
        lemma_small_mod(encode_upto(dims, coords, m), pm as nat);
    } else {
        let j = (k - 1) as nat;
        lemma_encode_mod(dims, coords, m, j);
        lemma_prod_divides(dims, m, j);
        let e = encode_upto(dims, coords, j) as int;
        let c = coords[j as int] as int;
        let p = prod_upto(dims, j) as int;
        lemma_mul_mod_noop_right(c, p, pm);
        assert(c * (p % pm) == 0) by (nonlinear_arith)
            requires
                p % pm == 0,
        ;
        lemma_small_mod(0, pm as nat);
        assert((c * p) % pm == 0);
        lemma_add_mod_noop(e, c * p, pm);
        lemma_mod_twice(e, pm);
    }
}

/// Decoding the number of a point of the box gives its coordinates back.
pub proof fn lemma_digits_encode_id(dims: Seq<nat>, coords: Seq<nat>)
    requires
        in_box(dims, coords),
    ensures
        encode(dims, coords) < volume(dims),
        digits(dims, encode(dims, coords)) == coords,
{
    let n = encode(dims, coords);
    lemma_encode_bound(dims, coords, dims.len());
    assert forall|r: int| 0 <= r < dims.len() implies #[trigger] digits(dims, n)[r]
        == coords[r] by {
        let k = (r + 1) as nat;
        lemma_encode_mod(dims, coords, k, dims.len());
        lemma_encode_bound(dims, coords, r as nat);
        let e = encode_upto(dims, coords, r as nat) as int;
        let c = coords[r] as int;
        let p = prod_upto(dims, r as nat) as int;
        assert(encode_upto(dims, coords, k) == e + c * p);
        assert(e + c * p == p * c + e) by (nonlinear_arith);
        lemma_fundamental_div_mod_converse_div(e + c * p, p, c, e);
    }
    assert(digits(dims, n) =~= coords);
}

} // verus!
