//! Measured values, held by their IEEE 754 double-precision bits.

use vstd::prelude::*;
use vstd::relations::*;

verus! {

/// The bits from which on, the sign aside, a value is not finite.
pub const INFINITY_BITS: u64 = 0x7ff0_0000_0000_0000;

/// The sign bit.
pub const SIGN_BIT: u64 = 0x8000_0000_0000_0000;

/// A measured value: the bits of a double-precision number.
#[derive(Debug, Clone, Copy, PartialEq, Eq, Structural)]
pub struct Real {
    pub bits: u64,
}

impl Real {
    /// The place of the value in the total order of double-precision numbers: negative values
    /// come first, by falling magnitude, and positive ones follow by rising magnitude.
    pub open spec fn place(self) -> int {
        if self.bits < SIGN_BIT {
            self.bits as int
        } else {
            -(self.bits - SIGN_BIT) - 1
        }
    }

    /// Neither an infinity nor a NaN.
    pub open spec fn finite(self) -> bool {
        self.bits % SIGN_BIT < INFINITY_BITS
    }

    /// Greater than zero; a NaN is not.
    pub open spec fn positive(self) -> bool {
        0 < self.bits <= INFINITY_BITS
    }

    /// A NaN.
    pub open spec fn undefined(self) -> bool {
        self.bits % SIGN_BIT > INFINITY_BITS
    }

    /// Equal as numbers: the two zeros are, and a NaN equals nothing.
    pub open spec fn equal(self, other: Real) -> bool {
        &&& !self.undefined()
        &&& !other.undefined()
        &&& self.bits == other.bits || (self.bits % SIGN_BIT == 0 && other.bits % SIGN_BIT == 0)
    }

    pub fn equals(self, other: Real) -> (r: bool)
        ensures
            r == self.equal(other),
    {
        self.bits % SIGN_BIT <= INFINITY_BITS && other.bits % SIGN_BIT <= INFINITY_BITS && (
        self.bits == other.bits || (self.bits % SIGN_BIT == 0 && other.bits % SIGN_BIT == 0))
    }

    pub fn is_finite(self) -> (r: bool)
        ensures
            r == self.finite(),
    {
        self.bits % SIGN_BIT < INFINITY_BITS
    }

    pub fn is_positive(self) -> (r: bool)
        ensures
            r == self.positive(),
    {
        0 < self.bits && self.bits <= INFINITY_BITS
    }

    pub fn is_undefined(self) -> (r: bool)
        ensures
            r == self.undefined(),
    {
        self.bits % SIGN_BIT > INFINITY_BITS
    }

    /// Whether the value comes strictly before the other in the total order.
    pub fn is_below(self, other: Real) -> (r: bool)
        ensures
            r == (self.place() < other.place()),
    {
        if self.bits < SIGN_BIT {
            other.bits < SIGN_BIT && self.bits < other.bits
        } else {
            other.bits < SIGN_BIT || self.bits > other.bits
        }
    }
}

pub open spec fn in_order() -> spec_fn(Real, Real) -> bool {
    |a: Real, b: Real| a.place() <= b.place()
}

pub open spec fn is_a_finite() -> spec_fn(Real) -> bool {
    |r: Real| r.finite()
}

/// The finite values among these, in ascending order.
pub open spec fn ascending(values: Seq<Real>) -> Seq<Real> {
    values.filter(is_a_finite()).sort_by(in_order())
}

proof fn lemma_in_order_is_total()
    ensures
        total_ordering(in_order()),
{
    let leq = in_order();
    assert(reflexive(leq));
    assert forall|x: Real, y: Real| #[trigger] leq(x, y) && #[trigger] leq(y, x) implies x == y by {
        assert(x.bits == y.bits);
    }
    assert(antisymmetric(leq));
    assert(transitive(leq));
    assert(strongly_connected(leq));
}

/// Ordering loses nothing and adds nothing: the ascending values are the finite ones, each as
/// often as it was measured, and each at or below those after it.
pub proof fn law_ascending_keeps_the_finite_values(values: Seq<Real>)
    ensures
        ascending(values).to_multiset() == values.filter(is_a_finite()).to_multiset(),
        forall|i: int, j: int|
            0 <= i <= j < ascending(values).len() ==> (#[trigger] ascending(values)[i]).place() <= (
            #[trigger] ascending(values)[j]).place(),
{
    lemma_in_order_is_total();
    let leq = in_order();
    let kept = values.filter(is_a_finite());
    let sorted = ascending(values);
    kept.lemma_sort_by_ensures(leq);
    assert(sorted_by(sorted, leq));
    assert forall|i: int, j: int| 0 <= i <= j < sorted.len() implies (#[trigger] sorted[i]).place()
        <= (#[trigger] sorted[j]).place() by {
        if i < j {
            assert(leq(sorted[i], sorted[j]));
        }
    }
}

/// How often a value stands among those kept.
pub proof fn lemma_kept_count(values: Seq<Real>, x: Real)
    ensures
        values.filter(is_a_finite()).to_multiset().count(x) == if x.finite() {
            values.to_multiset().count(x)
        } else {
            0
        },
    decreases values.len(),
{
    reveal(Seq::filter);
    let p = is_a_finite();
    values.to_multiset_ensures();
    if values.len() > 0 {
        let (front, last) = (values.drop_last(), values.last());
        lemma_kept_count(front, x);
        front.to_multiset_ensures();
        front.filter(p).to_multiset_ensures();
        assert(values =~= front.push(last));
        assert(values.to_multiset() =~= front.to_multiset().insert(last));
        if last.finite() {
            assert(values.filter(p) =~= front.filter(p).push(last));
            assert(values.filter(p).to_multiset() =~= front.filter(p).to_multiset().insert(last));
        } else {
            assert(values.filter(p) =~= front.filter(p));
        }
    } else {
        assert(values.filter(p) =~= Seq::empty());
        assert(values =~= Seq::empty());
    }
}

/// In what order values were measured does not matter, nor do infinities and NaNs among them: the
/// ascending values are the same.
pub proof fn law_order_and_other_values_do_not_matter(a: Seq<Real>, other: Seq<Real>, b: Seq<Real>)
    requires
        forall|i: int| 0 <= i < other.len() ==> !(#[trigger] other[i]).finite(),
        b.to_multiset() == (a + other).to_multiset(),
    ensures
        ascending(b) == ascending(a),
        ascending(a).len() == a.filter(is_a_finite()).len(),
{
    let p = is_a_finite();
    let leq = in_order();
    let (one, two) = (a.filter(p), b.filter(p));
    lemma_in_order_is_total();
    assert(one.to_multiset() =~= two.to_multiset()) by {
        assert forall|x: Real| #[trigger] one.to_multiset().count(x) == two.to_multiset().count(
            x,
        ) by {
            lemma_kept_count(a, x);
            lemma_kept_count(b, x);
            vstd::seq_lib::lemma_multiset_commutative(a, other);
            other.to_multiset_ensures();
            if x.finite() && other.to_multiset().count(x) > 0 {
                assert(other.contains(x));
            }
        }
    }
    one.lemma_sort_by_ensures(leq);
    two.lemma_sort_by_ensures(leq);
    one.to_multiset_ensures();
    ascending(a).to_multiset_ensures();
    vstd::seq_lib::lemma_sorted_unique(ascending(a), ascending(b), leq);
}

/// The places, among so many ascending values, between which the median lies.
pub open spec fn median_places(count: nat) -> (int, int) {
    ((count - 1) / 2, count as int / 2)
}

/// The places, among so many ascending values, between which the 95th percentile lies: those around
/// nineteen twentieths of the way from the first to the last.
pub open spec fn p95_places(count: nat) -> (int, int) {
    (19 * (count - 1) / 20, (19 * (count - 1) + 19) / 20)
}

/// The places between which the median lies, the same twice where it is one of the values.
pub fn median_indices(count: usize) -> (r: (usize, usize))
    requires
        count > 0,
    ensures
        (r.0 as int, r.1 as int) == median_places(count as nat),
        r.0 <= r.1 < count,
{
    ((count - 1) / 2, count / 2)
}

/// The places between which the 95th percentile lies, the same twice where it is one of the values.
pub fn p95_indices(count: usize) -> (r: (usize, usize))
    requires
        count > 0,
    ensures
        (r.0 as int, r.1 as int) == p95_places(count as nat),
        r.0 <= r.1 < count,
{
    let steps: usize = (count - 1) / 20;
    let rest: usize = (count - 1) % 20;
    (19 * steps + 19 * rest / 20, 19 * steps + (19 * rest + 19) / 20)
}

/// The values on both sides of the median and of the 95th percentile lie between the least and the
/// greatest, and those of the median are not above those of the percentile.
pub proof fn law_quantiles_lie_among_the_values(values: Seq<Real>)
    requires
        ascending(values).len() > 0,
    ensures
        ({
            let sorted = ascending(values);
            let middle = median_places(sorted.len());
            let high = p95_places(sorted.len());
            &&& 0 <= middle.0 <= middle.1 < sorted.len()
            &&& 0 <= high.0 <= high.1 < sorted.len()
            &&& sorted.first().place() <= sorted[middle.0].place() <= sorted[middle.1].place()
                <= sorted.last().place()
            &&& sorted.first().place() <= sorted[high.0].place() <= sorted[high.1].place()
                <= sorted.last().place()
            &&& sorted[middle.0].place() <= sorted[high.0].place()
            &&& sorted[middle.1].place() <= sorted[high.1].place()
            &&& sorted.len() != 2 ==> sorted[middle.1].place() <= sorted[high.0].place()
        }),
{
    law_ascending_keeps_the_finite_values(values);
}

/// The finite values, in ascending order.
pub fn finite_ascending(values: &[Real]) -> (r: Vec<Real>)
    ensures
        r@ == ascending(values@),
{
    let ghost leq = in_order();
    let mut out: Vec<Real> = Vec::new();
    let mut i: usize = 0;
    proof {
        lemma_in_order_is_total();
        reveal(Seq::filter);
    }
    assert(values@.take(0).filter(is_a_finite()) =~= Seq::empty());
    while i < values.len()
        invariant
            i <= values@.len(),
            leq == in_order(),
            sorted_by(out@, leq),
            out@.to_multiset() == values@.take(i as int).filter(is_a_finite()).to_multiset(),
        decreases values@.len() - i,
    {
        let v: Real = values[i];
        let ghost sofar = values@.take(i as int);
        let ghost next = values@.take(i + 1);
        assert(next.drop_last() =~= sofar);
        assert(next.last() == v);
        proof {
            reveal(Seq::filter);
        }
        if v.is_finite() {
            let ghost before = out@;
            let at: usize = place_for(&out, v);
            out.insert(at, v);
            proof {
                vstd::seq_lib::to_multiset_insert(before, at as int, v);
                let kept = sofar.filter(is_a_finite());
                assert(next.filter(is_a_finite()) =~= kept.push(v));
                kept.to_multiset_ensures();
                assert forall|a: int, b: int| 0 <= a < b < out@.len() implies #[trigger] leq(
                    out@[a],
                    out@[b],
                ) by {
                    let p = if a > at { a - 1 } else { a };
                    let q = if b > at { b - 1 } else { b };
                    if a != at && b != at {
                        assert(leq(before[p], before[q]));
                    }
                }
            }
        } else {
            assert(next.filter(is_a_finite()) =~= sofar.filter(is_a_finite()));
        }
        i = i + 1;
    }
    assert(values@.take(i as int) =~= values@);
    proof {
        lemma_in_order_is_total();
        let kept = values@.filter(is_a_finite());
        kept.lemma_sort_by_ensures(leq);
        vstd::seq_lib::lemma_sorted_unique(out@, ascending(values@), leq);
    }
    out
}

/// The index at which the value keeps the list ascending, behind those it equals.
fn place_for(list: &Vec<Real>, v: Real) -> (r: usize)
    requires
        sorted_by(list@, in_order()),
    ensures
        r <= list@.len(),
        forall|i: int| 0 <= i < r ==> (#[trigger] list@[i]).place() <= v.place(),
        forall|i: int| r <= i < list@.len() ==> v.place() <= (#[trigger] list@[i]).place(),
{
    let mut i: usize = list.len();
    while i > 0 && v.is_below(list[i - 1])
        invariant
            i <= list@.len(),
            forall|k: int| i <= k < list@.len() ==> v.place() <= (#[trigger] list@[k]).place(),
        decreases i,
    {
        i = i - 1;
    }
    assert forall|k: int| 0 <= k < i implies (#[trigger] list@[k]).place() <= v.place() by {
        let leq = in_order();
        if k < i - 1 {
            assert(leq(list@[k], list@[i - 1]));
        }
    }
    i
}

} // verus!
