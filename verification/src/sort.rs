//! Sorting and searching by an order of the caller's.
use vstd::prelude::*;

verus! {

/// A total order on the values that it is defined on.
pub trait Order<T> {
    /// The values that can be put in order.
    spec fn defined(&self, a: T) -> bool;

    /// `a` stands before `b`, or they may stand either way.
    spec fn le(&self, a: T, b: T) -> bool;

    proof fn total(&self, a: T, b: T)
        requires
            self.defined(a),
            self.defined(b),
        ensures
            self.le(a, b) || self.le(b, a),
    ;

    proof fn transitive(&self, a: T, b: T, c: T)
        requires
            self.defined(a),
            self.defined(b),
            self.defined(c),
            self.le(a, b),
            self.le(b, c),
        ensures
            self.le(a, c),
    ;

    fn in_order(&self, a: &T, b: &T) -> (r: bool)
        requires
            self.defined(*a),
            self.defined(*b),
        ensures
            r == self.le(*a, *b),
    ;
}

/// All values of a sequence can be put in order.
pub open spec fn all_defined<T, O: Order<T>>(s: Seq<T>, o: &O) -> bool {
    forall|i: int| 0 <= i < s.len() ==> o.defined(#[trigger] s[i])
}

/// No value stands before one that it should follow.
pub open spec fn sorted<T, O: Order<T>>(s: Seq<T>, o: &O) -> bool {
    forall|i: int, j: int| 0 <= i < j < s.len() ==> o.le(#[trigger] s[i], #[trigger] s[j])
}

/// The values of two sorted lists in one sorted list.
fn merge<T: Copy, O: Order<T>>(a: &Vec<T>, b: &Vec<T>, o: &O) -> (r: Vec<T>)
    requires
        all_defined(a@, o),
        all_defined(b@, o),
        sorted(a@, o),
        sorted(b@, o),
        a@.len() + b@.len() <= usize::MAX,
    ensures
        sorted(r@, o),
        r@.to_multiset() == a@.to_multiset().add(b@.to_multiset()),
        all_defined(r@, o),
        r@.len() == a@.len() + b@.len(),
{
    broadcast use vstd::seq_lib::group_to_multiset_ensures;

    let mut out: Vec<T> = Vec::with_capacity(a.len() + b.len());
    let mut i: usize = 0;
    let mut j: usize = 0;
    assert(a@.take(0) =~= Seq::empty());
    assert(b@.take(0) =~= Seq::empty());
    assert(out@.to_multiset() =~= a@.take(0).to_multiset().add(b@.take(0).to_multiset()));
    while i < a.len() || j < b.len()
        invariant
            i <= a@.len(),
            j <= b@.len(),
            all_defined(a@, o),
            all_defined(b@, o),
            sorted(a@, o),
            sorted(b@, o),
            all_defined(out@, o),
            sorted(out@, o),
            out@.len() == i + j,
            a@.len() + b@.len() <= usize::MAX,
            forall|k: int| 0 <= k < out@.len() && i < a@.len() ==> o.le(#[trigger] out@[k], a@[i as int]),
            forall|k: int| 0 <= k < out@.len() && j < b@.len() ==> o.le(#[trigger] out@[k], b@[j as int]),
            out@.to_multiset() == a@.take(i as int).to_multiset().add(
                b@.take(j as int).to_multiset(),
            ),
        decreases a.len() - i + (b.len() - j),
    {
        let ghost before = out@;
        let from_a = i < a.len() && (j >= b.len() || o.in_order(&a[i], &b[j]));
        if from_a {
            let x = a[i];
            proof {
                assert(a@.take(i + 1) =~= a@.take(i as int).push(x));
                vstd::seq_lib::to_multiset_build(a@.take(i as int), x);
                vstd::seq_lib::to_multiset_build(before, x);
                if j < b@.len() {
                    assert(o.le(x, b@[j as int]));
                }
            }
            out.push(x);
            assert(out@.to_multiset() =~= before.to_multiset().insert(x));
            assert(out@.to_multiset() =~= a@.take(i + 1).to_multiset().add(
                b@.take(j as int).to_multiset(),
            ));
            i += 1;
        } else {
            let x = b[j];
            proof {
                assert(b@.take(j + 1) =~= b@.take(j as int).push(x));
                vstd::seq_lib::to_multiset_build(b@.take(j as int), x);
                vstd::seq_lib::to_multiset_build(before, x);
                if i < a@.len() {
                    o.total(a@[i as int], x);
                    assert(o.le(x, a@[i as int]));
                }
            }
            out.push(x);
            assert(out@.to_multiset() =~= before.to_multiset().insert(x));
            assert(out@.to_multiset() =~= a@.take(i as int).to_multiset().add(
                b@.take(j + 1).to_multiset(),
            ));
            j += 1;
        }
        assert forall|k: int| 0 <= k < out@.len() && i < a@.len() implies o.le(
            #[trigger] out@[k],
            a@[i as int],
        ) by {
            if k == before.len() {
                if from_a {
                    assert(o.le(a@[i - 1], a@[i as int]));
                }
            } else {
                assert(out@[k] == before[k]);
                if from_a {
                    assert(o.le(before[k], a@[i - 1]));
                    o.transitive(before[k], a@[i - 1], a@[i as int]);
                }
            }
        }
        assert forall|k: int| 0 <= k < out@.len() && j < b@.len() implies o.le(
            #[trigger] out@[k],
            b@[j as int],
        ) by {
            if k == before.len() {
                if !from_a {
                    assert(o.le(b@[j - 1], b@[j as int]));
                }
            } else {
                assert(out@[k] == before[k]);
                if !from_a {
                    assert(o.le(before[k], b@[j - 1]));
                    o.transitive(before[k], b@[j - 1], b@[j as int]);
                }
            }
        }
    }
    assert(a@.take(i as int) =~= a@);
    assert(b@.take(j as int) =~= b@);
    out
}

/// The values of `v[lo..hi]` in order.
fn sort_range<T: Copy, O: Order<T>>(v: &Vec<T>, lo: usize, hi: usize, o: &O) -> (r: Vec<T>)
    requires
        lo <= hi <= v@.len(),
        all_defined(v@, o),
    ensures
        sorted(r@, o),
        all_defined(r@, o),
        r@.to_multiset() == v@.subrange(lo as int, hi as int).to_multiset(),
        r@.len() == hi - lo,
    decreases hi - lo,
{
    broadcast use vstd::seq_lib::group_to_multiset_ensures;

    if hi - lo == 0 {
        let r: Vec<T> = Vec::new();
        assert(r@ =~= v@.subrange(lo as int, hi as int));
        return r;
    }
    if hi - lo == 1 {
        let mut r: Vec<T> = Vec::with_capacity(1);
        r.push(v[lo]);
        assert(r@ =~= v@.subrange(lo as int, hi as int));
        return r;
    }
    let mid: usize = lo + (hi - lo) / 2;
    let a = sort_range(v, lo, mid, o);
    let b = sort_range(v, mid, hi, o);
    let r = merge(&a, &b, o);
    proof {
        vstd::seq_lib::lemma_multiset_commutative(
            v@.subrange(lo as int, mid as int),
            v@.subrange(mid as int, hi as int),
        );
        assert(v@.subrange(lo as int, mid as int) + v@.subrange(mid as int, hi as int)
            =~= v@.subrange(lo as int, hi as int));
    }
    r
}

/// The values of a list in order.
pub fn sort<T: Copy, O: Order<T>>(v: &Vec<T>, o: &O) -> (r: Vec<T>)
    requires
        all_defined(v@, o),
    ensures
        sorted(r@, o),
        all_defined(r@, o),
        r@.to_multiset() == v@.to_multiset(),
        r@.len() == v@.len(),
{
    assert(v@.subrange(0, v@.len() as int) =~= v@);
    sort_range(v, 0, v.len(), o)
}

/// Two lists with the same values hold the same ones.
pub proof fn lemma_same_values<T>(a: Seq<T>, b: Seq<T>, x: T)
    requires
        a.to_multiset() == b.to_multiset(),
    ensures
        a.contains(x) <==> b.contains(x),
{
    broadcast use vstd::seq_lib::group_to_multiset_ensures;

    assert(a.contains(x) <==> a.to_multiset().count(x) > 0);
    assert(b.contains(x) <==> b.to_multiset().count(x) > 0);
}

} // verus!
