//! Sequences of monomials: the monomials of a polynomial space in ascending order, and
//! those among them that are constant in a coordinate.

use vstd::prelude::*;
use vstd::relations::injective_on;
use vstd::seq_lib::seq_to_set_is_finite;
use vstd::set_lib::lemma_map_size;
use crate::common::{Deg, Dim};
use crate::monomial::{
    deg_upto, lemma_deg_with_first_exp, lemma_exp_le_deg, lemma_precedes_irreflexive,
    lemma_precedes_transitive, precedes, precedes_at, within_deg_lim, DegLim, Monomial,
};

verus! {

/// The exponent vectors of a sequence of monomials.
pub open spec fn mons_view(mons: Seq<Monomial>) -> Seq<Seq<Deg>> {
    Seq::new(mons.len(), |i: int| mons[i]@)
}

/// Each monomial of the sequence comes before every later one in the canonical order.
pub open spec fn sorted(mons: Seq<Seq<Deg>>) -> bool {
    forall|i: int, j: int|
        0 <= i < j < mons.len() ==> precedes(#[trigger] mons[i], #[trigger] mons[j])
}

/// `mons` holds the monomials in `d` coordinates of the polynomial space that `lim` bounds:
/// each of them, once, in ascending canonical order.
pub open spec fn is_mons_with_deg_lim_asc(mons: Seq<Seq<Deg>>, d: nat, lim: DegLim) -> bool {
    &&& sorted(mons)
    &&& forall|v: Seq<Deg>| #[trigger] mons.contains(v) <==> v.len() == d && within_deg_lim(v, lim)
}

/// The limit on the monomials in the coordinates after the first, once the first has the
/// exponent `e`: a limit on the degree leaves what `e` has not used.
pub open spec fn rest_lim(lim: DegLim, e: Deg) -> DegLim {
    match lim {
        DegLim::MaxMonDeg(k) => DegLim::MaxMonDeg(Deg((k.0 - e.0) as u8)),
        DegLim::MaxMonFactorDeg(k) => lim,
    }
}

/// A monomial lies within a limit when its first exponent does and the rest lies within
/// what the first leaves.
proof fn lemma_within_by_first_exp(e: Deg, rest: Seq<Deg>, lim: DegLim)
    ensures
        within_deg_lim(seq![e] + rest, lim) <==> e.0 <= lim.spec_deg().0 && within_deg_lim(
            rest,
            rest_lim(lim, e),
        ),
{
    let all = seq![e] + rest;
    match lim {
        DegLim::MaxMonDeg(k) => {
            lemma_deg_with_first_exp(e, rest, rest.len());
        },
        DegLim::MaxMonFactorDeg(k) => {
            if within_deg_lim(all, lim) {
                assert(all[0] == e);
                assert forall|r: int| 0 <= r < rest.len() implies (#[trigger] rest[r]).0
                    <= k.0 by {
                    assert(all[r + 1] == rest[r]);
                }
            }
            if e.0 <= k.0 && within_deg_lim(rest, lim) {
                assert forall|r: int| 0 <= r < all.len() implies (#[trigger] all[r]).0 <= k.0 by {
                    if r > 0 {
                        assert(all[r] == rest[r - 1]);
                    }
                }
            }
        },
    }
}

/// Monomials with the same first exponent are ordered as their rests are.
proof fn lemma_precedes_with_first_exp(e: Deg, a: Seq<Deg>, b: Seq<Deg>)
    requires
        precedes(a, b),
    ensures
        precedes(seq![e] + a, seq![e] + b),
{
    let k = choose|k: int| precedes_at(a, b, k);
    assert(precedes_at(a, b, k));
    let ea = seq![e] + a;
    let eb = seq![e] + b;
    assert(ea.subrange(0, k + 1) =~= seq![e] + a.subrange(0, k));
    assert(eb.subrange(0, k + 1) =~= seq![e] + b.subrange(0, k));
    assert(ea[k + 1] == a[k] && eb[k + 1] == b[k]);
    assert(precedes_at(ea, eb, k + 1));
}

/// The monomials in `space_dim` coordinates within a degree limit, in ascending canonical
/// order.
pub fn mons_with_deg_lim_asc(space_dim: Dim, lim: DegLim) -> (mons: Vec<Monomial>)
    ensures
        is_mons_with_deg_lim_asc(mons_view(mons@), space_dim.0 as nat, lim),
    decreases space_dim.0,
{
    let d = space_dim.0;
    let mut mons: Vec<Monomial> = Vec::new();
    if d == 0 {
        // The one monomial in no coordinate is the constant.
        mons.push(Monomial { exps: Vec::new() });
        proof {
            let all = mons_view(mons@);
            assert(all[0] =~= Seq::<Deg>::empty());
            assert forall|v: Seq<Deg>| #[trigger] all.contains(v) <==> v.len() == 0
                && within_deg_lim(v, lim) by {
                if v.len() == 0 {
                    assert(v =~= all[0]);
                }
            }
        }
        return mons;
    }
    let k = lim.deg();
    let mut e: u16 = 0;
    while e <= k.0 as u16
        invariant
            d == space_dim.0,
            d >= 1,
            k == lim.spec_deg(),
            e <= k.0 + 1,
            sorted(mons_view(mons@)),
            forall|v: Seq<Deg>| #[trigger]
                mons_view(mons@).contains(v) <==> v.len() == d && within_deg_lim(v, lim) && v[0].0
                    < e,
        decreases k.0 + 1 - e,
    {
        let first = Deg(e as u8);
        let rests = mons_with_deg_lim_asc(
            Dim(d - 1),
            match lim {
                DegLim::MaxMonDeg(k) => DegLim::MaxMonDeg(Deg(k.0 - first.0)),
                DegLim::MaxMonFactorDeg(k) => lim,
            },
        );
        let ghost before = mons_view(mons@);
        let ghost tails = mons_view(rests@);
        let mut i: usize = 0;
        while i < rests.len()
            invariant
                tails == mons_view(rests@),
                i <= rests@.len(),
                mons_view(mons@) == before + Seq::new(i as nat, |j: int| seq![first] + tails[j]),
            decreases rests@.len() - i,
        {
            let ghost so_far = mons_view(mons@);
            mons.push(Monomial::with_first_exp(first, &rests[i]));
            proof {
                assert(mons_view(mons@) =~= so_far.push(seq![first] + tails[i as int]));
                assert(mons_view(mons@) =~= before + Seq::new(
                    (i + 1) as nat,
                    |j: int| seq![first] + tails[j],
                ));
            }
            i += 1;
        }
        proof {
            lemma_block_appended(before, tails, first, d as nat, lim);
        }
        e += 1;
    }
    proof {
        let all = mons_view(mons@);
        assert forall|v: Seq<Deg>| #[trigger] all.contains(v) <==> v.len() == d && within_deg_lim(
            v,
            lim,
        ) by {
            if v.len() == d && within_deg_lim(v, lim) {
                match lim {
                    DegLim::MaxMonDeg(k) => {
                        lemma_exp_le_deg(v, 0, v.len());
                    },
                    DegLim::MaxMonFactorDeg(k) => {},
                }
            }
        }
    }
    mons
}

/// After the monomials whose first exponent is below `first`, those whose first exponent is
/// `first` come next: each rest within what `first` leaves, in the order of the rests.
proof fn lemma_block_appended(
    before: Seq<Seq<Deg>>,
    tails: Seq<Seq<Deg>>,
    first: Deg,
    d: nat,
    lim: DegLim,
)
    requires
        d >= 1,
        first.0 <= lim.spec_deg().0,
        sorted(before),
        forall|v: Seq<Deg>| #[trigger]
            before.contains(v) <==> v.len() == d && within_deg_lim(v, lim) && v[0].0 < first.0,
        is_mons_with_deg_lim_asc(tails, (d - 1) as nat, rest_lim(lim, first)),
    ensures
        ({
            let all = before + Seq::new(tails.len(), |j: int| seq![first] + tails[j]);
            &&& sorted(all)
            &&& forall|v: Seq<Deg>| #[trigger]
                all.contains(v) <==> v.len() == d && within_deg_lim(v, lim) && v[0].0 < first.0
                    + 1
        }),
{
    let block = Seq::new(tails.len(), |j: int| seq![first] + tails[j]);
    let all = before + block;
    assert forall|i: int, j: int| 0 <= i < j < all.len() implies precedes(
        #[trigger] all[i],
        #[trigger] all[j],
    ) by {
        if j < before.len() {
            assert(precedes(before[i], before[j]));
        } else if i < before.len() {
            // The first exponent decides.
            assert(before.contains(before[i]));
            assert(block[j - before.len()][0] == first);
            assert(all[i].subrange(0, 0) =~= all[j].subrange(0, 0));
            assert(precedes_at(all[i], all[j], 0));
        } else {
            let ti = i - before.len();
            let tj = j - before.len();
            assert(precedes(tails[ti], tails[tj]));
            lemma_precedes_with_first_exp(first, tails[ti], tails[tj]);
        }
    }
    assert forall|v: Seq<Deg>| #[trigger] all.contains(v) <==> v.len() == d && within_deg_lim(
        v,
        lim,
    ) && v[0].0 < first.0 + 1 by {
        if all.contains(v) {
            let i = choose|i: int| 0 <= i < all.len() && all[i] == v;
            if i < before.len() {
                assert(before.contains(v));
            } else {
                let t = tails[i - before.len()];
                assert(tails.contains(t));
                assert(v == seq![first] + t);
                lemma_within_by_first_exp(first, t, lim);
            }
        }
        if v.len() == d && within_deg_lim(v, lim) && v[0].0 < first.0 + 1 {
            if v[0].0 < first.0 {
                assert(before.contains(v));
                let i = choose|i: int| 0 <= i < before.len() && before[i] == v;
                assert(all[i] == v);
            } else {
                let t = v.subrange(1, v.len() as int);
                assert(v =~= seq![first] + t);
                lemma_within_by_first_exp(first, t, lim);
                assert(tails.contains(t));
                let j = choose|j: int| 0 <= j < tails.len() && tails[j] == t;
                assert(all[before.len() + j] == v);
            }
        }
    }
}

/// The exponent vectors among `mons` that are constant in coordinate `r`, in the order in
/// which they stand in `mons`.
pub open spec fn constant_on_axis(mons: Seq<Seq<Deg>>, r: int) -> Seq<Seq<Deg>>
    decreases mons.len(),
{
    if mons.len() == 0 {
        mons
    } else {
        let before = constant_on_axis(mons.drop_last(), r);
        if mons.last()[r] == Deg(0) {
            before.push(mons.last())
        } else {
            before
        }
    }
}

/// The monomials among `mons` that are constant in coordinate `r`, in the order in which
/// they stand in `mons`.
pub fn mons_constant_on_axis(mons: &Vec<Monomial>, r: Dim) -> (sub: Vec<Monomial>)
    requires
        forall|i: int| 0 <= i < mons@.len() ==> r.0 < (#[trigger] mons@[i])@.len(),
    ensures
        mons_view(sub@) == constant_on_axis(mons_view(mons@), r.0 as int),
{
    let ghost all = mons_view(mons@);
    let mut sub: Vec<Monomial> = Vec::new();
    let mut i: usize = 0;
    proof {
        assert(mons_view(sub@) =~= constant_on_axis(all.subrange(0, 0), r.0 as int));
    }
    while i < mons.len()
        invariant
            all == mons_view(mons@),
            forall|i: int| 0 <= i < mons@.len() ==> r.0 < (#[trigger] mons@[i])@.len(),
            i <= mons@.len(),
            mons_view(sub@) == constant_on_axis(all.subrange(0, i as int), r.0 as int),
        decreases mons@.len() - i,
    {
        let ghost before = mons_view(sub@);
        proof {
            assert(all.subrange(0, i + 1).drop_last() =~= all.subrange(0, i as int));
            assert(all.subrange(0, i + 1).last() == mons@[i as int]@);
        }
        if mons[i].exp(r).0 == 0 {
            sub.push(mons[i].clone());
            proof {
                assert(mons_view(sub@) =~= before.push(mons@[i as int]@));
            }
        }
        i += 1;
    }
    proof {
        assert(all.subrange(0, i as int) =~= all);
    }
    sub
}

/// The monomials chosen as constant in a coordinate are those of the sequence that are
/// constant in it, and they are sorted where the sequence is.
pub proof fn lemma_constant_on_axis(mons: Seq<Seq<Deg>>, r: int)
    ensures
        forall|v: Seq<Deg>| #[trigger]
            constant_on_axis(mons, r).contains(v) <==> mons.contains(v) && v[r] == Deg(0),
        sorted(mons) ==> sorted(constant_on_axis(mons, r)),
    decreases mons.len(),
{
    let all = constant_on_axis(mons, r);
    if mons.len() > 0 {
        let init = mons.drop_last();
        let last = mons.last();
        let kept = constant_on_axis(init, r);
        lemma_constant_on_axis(init, r);
        assert forall|v: Seq<Deg>| #[trigger] all.contains(v) <==> mons.contains(v) && v[r]
            == Deg(0) by {
            if all.contains(v) {
                let i = choose|i: int| 0 <= i < all.len() && all[i] == v;
                if i < kept.len() {
                    assert(kept.contains(v));
                    let j = choose|j: int| 0 <= j < init.len() && init[j] == v;
                    assert(mons[j] == v);
                }
            }
            if mons.contains(v) && v[r] == Deg(0) {
                let j = choose|j: int| 0 <= j < mons.len() && mons[j] == v;
                if j < init.len() {
                    assert(init[j] == v);
                    assert(kept.contains(v));
                    let i = choose|i: int| 0 <= i < kept.len() && kept[i] == v;
                    assert(all[i] == v);
                } else {
                    assert(all[all.len() - 1] == v);
                }
            }
        }
        if sorted(mons) {
            lemma_sorted_drop_last(mons);
            assert forall|i: int, j: int| 0 <= i < j < all.len() implies precedes(
                #[trigger] all[i],
                #[trigger] all[j],
            ) by {
                if j < kept.len() {
                    assert(precedes(kept[i], kept[j]));
                } else {
                    // The later one is the last of `mons`, the earlier one stands before it.
                    assert(kept.contains(kept[i]));
                    let k = choose|k: int| 0 <= k < init.len() && init[k] == kept[i];
                    assert(precedes(mons[k], mons[mons.len() - 1]));
                }
            }
        }
    }
}

/// The monomial with the exponents of coordinates 0 and `r` exchanged.
pub open spec fn exchanged(v: Seq<Deg>, r: int) -> Seq<Deg> {
    v.update(0, v[r]).update(r, v[0])
}

/// Replacing one exponent changes the degree by the difference of the exponents.
proof fn lemma_deg_update(v: Seq<Deg>, i: int, e: Deg, k: nat)
    requires
        0 <= i < k <= v.len(),
    ensures
        deg_upto(v.update(i, e), k) + v[i].0 == deg_upto(v, k) + e.0,
    decreases k,
{
    if i < k - 1 {
        lemma_deg_update(v, i, e, (k - 1) as nat);
    } else {
        lemma_deg_agree(v.update(i, e), v, (k - 1) as nat);
    }
}

/// Monomials that agree in the first `k` exponents have the same sum of them.
proof fn lemma_deg_agree(a: Seq<Deg>, b: Seq<Deg>, k: nat)
    requires
        k <= a.len(),
        k <= b.len(),
        forall|i: int| 0 <= i < k ==> a[i] == b[i],
    ensures
        deg_upto(a, k) == deg_upto(b, k),
    decreases k,
{
    if k > 0 {
        lemma_deg_agree(a, b, (k - 1) as nat);
    }
}

/// Exchanging two exponents undoes itself and keeps a monomial within its degree limit.
proof fn lemma_exchanged(v: Seq<Deg>, r: int, lim: DegLim)
    requires
        0 <= r < v.len(),
    ensures
        exchanged(v, r).len() == v.len(),
        exchanged(exchanged(v, r), r) == v,
        within_deg_lim(v, lim) ==> within_deg_lim(exchanged(v, r), lim),
{
    let w = exchanged(v, r);
    assert(exchanged(w, r) =~= v);
    match lim {
        DegLim::MaxMonDeg(k) => {
            let u = v.update(0, v[r]);
            lemma_deg_update(v, 0, v[r], v.len());
            lemma_deg_update(u, r, v[0], v.len());
        },
        DegLim::MaxMonFactorDeg(k) => {
            if within_deg_lim(v, lim) {
                assert forall|i: int| 0 <= i < w.len() implies (#[trigger] w[i]).0 <= k.0 by {
                    assert(v[0].0 <= k.0 && v[r].0 <= k.0 && v[i].0 <= k.0);
                }
            }
        },
    }
}

/// Among the monomials of a polynomial space, as many are constant in one coordinate as in
/// any other: exchanging the two coordinates turns the ones into the others.
pub proof fn lemma_constant_counts_equal(mons: Seq<Seq<Deg>>, d: nat, lim: DegLim, r: int)
    requires
        is_mons_with_deg_lim_asc(mons, d, lim),
        0 <= r < d,
    ensures
        constant_on_axis(mons, r).len() == constant_on_axis(mons, 0).len(),
{
    let in_r = constant_on_axis(mons, r);
    let in_0 = constant_on_axis(mons, 0);
    lemma_constant_on_axis(mons, r);
    lemma_constant_on_axis(mons, 0);
    lemma_sorted_no_duplicates(in_r);
    lemma_sorted_no_duplicates(in_0);
    in_r.unique_seq_to_set();
    in_0.unique_seq_to_set();
    seq_to_set_is_finite(in_r);
    let exchange = |v: Seq<Deg>| exchanged(v, r);
    assert(injective_on(exchange, in_r.to_set())) by {
        assert forall|v1: Seq<Deg>, v2: Seq<Deg>|
            in_r.to_set().contains(v1) && in_r.to_set().contains(v2) && #[trigger] exchange(v1)
                == #[trigger] exchange(v2) implies v1 == v2 by {
            assert(in_r.contains(v1) && in_r.contains(v2));
            assert(mons.contains(v1) && mons.contains(v2));
            lemma_exchanged(v1, r, lim);
            lemma_exchanged(v2, r, lim);
        }
    }
    assert(in_r.to_set().map(exchange) =~= in_0.to_set()) by {
        let images = in_r.to_set().map(exchange);
        assert forall|w: Seq<Deg>| images.contains(w) implies in_0.to_set().contains(w) by {
            let v = choose|v: Seq<Deg>| in_r.to_set().contains(v) && w == exchange(v);
            assert(in_r.contains(v));
            assert(mons.contains(v));
            lemma_exchanged(v, r, lim);
            assert(mons.contains(w));
            assert(in_0.contains(w));
        }
        assert forall|w: Seq<Deg>| in_0.to_set().contains(w) implies images.contains(w) by {
            lemma_exchanged(w, r, lim);
            let v = exchanged(w, r);
            assert(mons.contains(v));
            assert(in_r.contains(v));
            assert(in_r.to_set().contains(v) && w == exchange(v));
        }
    }
    lemma_map_size(in_r.to_set(), in_0.to_set(), exchange);
}

/// A sorted sequence holds no monomial twice.
proof fn lemma_sorted_no_duplicates(mons: Seq<Seq<Deg>>)
    requires
        sorted(mons),
    ensures
        mons.no_duplicates(),
{
    assert forall|i: int, j: int|
        0 <= i < mons.len() && 0 <= j < mons.len() && i != j implies mons[i] != mons[j] by {
        lemma_precedes_irreflexive(mons[i]);
        if i < j {
            assert(precedes(mons[i], mons[j]));
        } else {
            assert(precedes(mons[j], mons[i]));
        }
    }
}

/// A sorted sequence stays sorted without its last monomial.
proof fn lemma_sorted_drop_last(mons: Seq<Seq<Deg>>)
    requires
        sorted(mons),
        mons.len() > 0,
    ensures
        sorted(mons.drop_last()),
{
    let init = mons.drop_last();
    assert forall|i: int, j: int| 0 <= i < j < init.len() implies precedes(
        #[trigger] init[i],
        #[trigger] init[j],
    ) by {
        assert(init[i] == mons[i] && init[j] == mons[j]);
    }
}

/// Sorted sequences that hold the same monomials are the same sequence.
pub proof fn lemma_sorted_same_members(a: Seq<Seq<Deg>>, b: Seq<Seq<Deg>>)
    requires
        sorted(a),
        sorted(b),
        forall|v: Seq<Deg>| a.contains(v) <==> b.contains(v),
    ensures
        a == b,
    decreases a.len(),
{
    if a.len() == 0 {
        if b.len() > 0 {
            assert(b.contains(b[0]));
        }
        assert(a =~= b);
    } else if b.len() == 0 {
        assert(a.contains(a[0]));
    } else {
        // Each of the two last monomials stands in the other sequence, at or before its
        // last: so they are the same.
        let la = a.last();
        let lb = b.last();
        assert(a.contains(la) && b.contains(lb));
        assert(b.contains(la) && a.contains(lb));
        let i = choose|i: int| 0 <= i < a.len() && a[i] == lb;
        let j = choose|j: int| 0 <= j < b.len() && b[j] == la;
        if la != lb {
            assert(precedes(a[i], a[a.len() - 1]));
            assert(precedes(b[j], b[b.len() - 1]));
            lemma_precedes_transitive(lb, la, lb);
            lemma_precedes_irreflexive(lb);
        }
        // Without them the sequences still hold the same monomials.
        let ia = a.drop_last();
        let ib = b.drop_last();
        lemma_sorted_no_duplicates(a);
        lemma_sorted_no_duplicates(b);
        assert forall|v: Seq<Deg>| ia.contains(v) <==> ib.contains(v) by {
            if ia.contains(v) {
                let k = choose|k: int| 0 <= k < ia.len() && ia[k] == v;
                assert(a[k] == v);
                assert(b.contains(v));
                let m = choose|m: int| 0 <= m < b.len() && b[m] == v;
                assert(ib[m] == v);
            }
            if ib.contains(v) {
                let k = choose|k: int| 0 <= k < ib.len() && ib[k] == v;
                assert(b[k] == v);
                assert(a.contains(v));
                let m = choose|m: int| 0 <= m < a.len() && a[m] == v;
                assert(ia[m] == v);
            }
        }
        lemma_sorted_drop_last(a);
        lemma_sorted_drop_last(b);
        lemma_sorted_same_members(ia, ib);
        assert(a =~= ia.push(la));
        assert(b =~= ib.push(lb));
    }
}

/// A polynomial space has one sequence of monomials only.
pub proof fn lemma_same_mons(a: Seq<Seq<Deg>>, b: Seq<Seq<Deg>>, d: nat, lim: DegLim)
    requires
        is_mons_with_deg_lim_asc(a, d, lim),
        is_mons_with_deg_lim_asc(b, d, lim),
    ensures
        a == b,
{
    assert forall|v: Seq<Deg>| a.contains(v) <==> b.contains(v) by {
        assert(a.contains(v) <==> v.len() == d && within_deg_lim(v, lim));
        assert(b.contains(v) <==> v.len() == d && within_deg_lim(v, lim));
    }
    lemma_sorted_same_members(a, b);
}

} // verus!
