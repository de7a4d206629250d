//! Shapes in row-major order.
use vstd::prelude::*;

verus! {

/// Maximum tensor rank.
pub const MAX_RANK: usize = 4;

/// The product of `dims[i..]`.
pub open spec fn suffix_product(dims: Seq<usize>, i: int) -> nat
    decreases dims.len() - i,
{
    if i >= dims.len() {
        1
    } else {
        dims[i] as nat * suffix_product(dims, i + 1)
    }
}

/// The product of the first `n` numbers.
pub open spec fn prefix_product(dims: Seq<usize>, n: nat) -> nat
    decreases n,
{
    if n == 0 {
        1
    } else {
        prefix_product(dims, (n - 1) as nat) * dims[n - 1] as nat
    }
}

/// No product of trailing dimensions leaves the range of a `usize`.
pub open spec fn strides_fit(dims: Seq<usize>) -> bool {
    forall|i: int| 0 <= i < dims.len() ==> #[trigger] suffix_product(dims, i) <= usize::MAX
}

/// No product of leading dimensions leaves the range of a `usize`.
pub open spec fn elements_fit(dims: Seq<usize>) -> bool {
    forall|n: nat| n <= dims.len() ==> #[trigger] prefix_product(dims, n) <= usize::MAX
}

/// The flat offset of `index[i..]` within `dims[i..]`.
pub open spec fn flat_offset(dims: Seq<usize>, index: Seq<usize>, i: int) -> nat
    decreases dims.len() - i,
{
    if i >= dims.len() {
        0
    } else {
        index[i] as nat * suffix_product(dims, i + 1) + flat_offset(dims, index, i + 1)
    }
}

/// Every coordinate lies in its dimension.
pub open spec fn in_range(dims: Seq<usize>, index: Seq<usize>) -> bool {
    &&& index.len() == dims.len()
    &&& forall|i: int| 0 <= i < dims.len() ==> (#[trigger] index[i]) < dims[i]
}

/// A shape in **row-major order**: `dims[0]` is the outermost axis and
/// `dims[rank-1]` is the contiguous one.
#[derive(Debug, Clone, Copy, PartialEq, Eq)]
pub struct Shape {
    dims: [usize; 4],
    rank: usize,
}

impl View for Shape {
    type V = Seq<usize>;

    closed spec fn view(&self) -> Seq<usize> {
        self.dims@.take(self.rank as int)
    }
}

impl Shape {
    #[verifier::type_invariant]
    spec fn inv(self) -> bool {
        &&& 1 <= self.rank <= MAX_RANK
        &&& forall|i: int| self.rank <= i < 4 ==> self.dims@[i] == 1
    }

    /// A shape of one to four dimensions.
    pub fn new(dims: &[usize]) -> (r: Self)
        requires
            1 <= dims@.len() <= MAX_RANK,
        ensures
            r@ == dims@,
    {
        let mut d: [usize; 4] = [1;4];
        let mut i: usize = 0;
        while i < dims.len()
            invariant
                i <= dims@.len() <= 4,
                forall|k: int| 0 <= k < i ==> d@[k] == dims@[k],
                forall|k: int| i <= k < 4 ==> d@[k] == 1,
            decreases dims.len() - i,
        {
            d[i] = dims[i];
            i += 1;
        }
        let r = Shape { dims: d, rank: dims.len() };
        assert(r@ =~= dims@);
        r
    }

    pub fn rank(&self) -> (r: usize)
        ensures
            r == self@.len(),
            1 <= r <= MAX_RANK,
    {
        proof {
            use_type_invariant(self);
        }
        self.rank
    }

    pub fn dims(&self) -> (r: &[usize])
        ensures
            r@ == self@,
    {
        proof {
            use_type_invariant(self);
        }
        vstd::slice::slice_subrange(self.dims.as_slice(), 0, self.rank)
    }

    /// One dimension; those past the rank are 1.
    pub fn dim(&self, i: usize) -> (r: usize)
        requires
            i < MAX_RANK,
        ensures
            r == (if i < self@.len() {
                self@[i as int]
            } else {
                1
            }),
    {
        proof {
            use_type_invariant(self);
        }
        self.dims[i]
    }

    pub fn n_elements(&self) -> (r: usize)
        requires
            elements_fit(self@),
        ensures
            r == prefix_product(self@, self@.len()),
    {
        proof {
            use_type_invariant(self);
        }
        let mut n: usize = 1;
        let mut i: usize = 0;
        let rank: usize = self.rank;
        while i < rank
            invariant
                i <= rank <= 4,
                rank == self@.len(),
                self@ == self.dims@.take(rank as int),
                elements_fit(self@),
                n == prefix_product(self@, i as nat),
            decreases rank - i,
        {
            assert(prefix_product(self@, (i + 1) as nat) == n * self@[i as int]);
            n = n * self.dims[i];
            i += 1;
        }
        n
    }

    /// Row-major strides in elements.  The last one in use is always 1.
    pub fn strides(&self) -> (r: [usize; 4])
        requires
            strides_fit(self@),
        ensures
            forall|i: int|
                0 <= i < 4 ==> #[trigger] r@[i] == (if i < self@.len() {
                    suffix_product(self@, i + 1)
                } else {
                    0
                }),
    {
        proof {
            use_type_invariant(self);
        }
        let mut s: [usize; 4] = [0;4];
        let mut acc: usize = 1;
        let rank: usize = self.rank;
        let mut i: usize = rank;
        while i > 0
            invariant
                i <= rank <= 4,
                rank == self@.len(),
                self@ == self.dims@.take(rank as int),
                strides_fit(self@),
                acc == suffix_product(self@, i as int),
                forall|k: int| 0 <= k < i || rank <= k < 4 ==> s@[k] == 0,
                forall|k: int| i <= k < rank ==> #[trigger] s@[k] == suffix_product(self@, k + 1),
            decreases i,
        {
            i -= 1;
            s[i] = acc;
            assert(suffix_product(self@, i as int) == self@[i as int] as nat * acc);
            assert(suffix_product(self@, i as int) == acc * self.dims@[i as int])
                by (nonlinear_arith)
                requires
                    suffix_product(self@, i as int) == self@[i as int] as nat * acc,
                    self@[i as int] == self.dims@[i as int],
            ;
            acc = acc * self.dims[i];
        }
        s
    }

    /// Flat offset of a multi-dimensional index.
    pub fn offset(&self, index: &[usize]) -> (r: usize)
        requires
            index@.len() == self@.len(),
            strides_fit(self@),
            flat_offset(self@, index@, 0) <= usize::MAX,
        ensures
            r == flat_offset(self@, index@, 0),
    {
        proof {
            use_type_invariant(self);
        }
        let strides = self.strides();
        let rank: usize = index.len();
        let mut sum: usize = 0;
        let mut i: usize = 0;
        while i < rank
            invariant
                i <= rank <= 4,
                rank == self@.len() == index@.len(),
                flat_offset(self@, index@, 0) <= usize::MAX,
                sum + flat_offset(self@, index@, i as int) == flat_offset(self@, index@, 0),
                forall|i: int|
                    0 <= i < 4 ==> #[trigger] strides@[i] == (if i < self@.len() {
                        suffix_product(self@, i + 1)
                    } else {
                        0
                    }),
            decreases rank - i,
        {
            assert(strides@[i as int] == suffix_product(self@, i + 1));
            assert(flat_offset(self@, index@, i as int) == index@[i as int] as nat * suffix_product(
                self@,
                i + 1,
            ) + flat_offset(self@, index@, i + 1));
            assert(0 <= index@[i as int] * strides@[i as int]) by (nonlinear_arith);
            sum = sum + index[i] * strides[i];
            i += 1;
        }
        sum
    }
}

proof fn lemma_offset_bound(dims: Seq<usize>, index: Seq<usize>, i: int)
    requires
        in_range(dims, index),
        0 <= i <= dims.len(),
    ensures
        flat_offset(dims, index, i) < suffix_product(dims, i),
    decreases dims.len() - i,
{
    if i < dims.len() {
        lemma_offset_bound(dims, index, i + 1);
        let s = suffix_product(dims, i + 1);
        let x = index[i] as nat;
        let d = dims[i] as nat;
        let f = flat_offset(dims, index, i + 1);
        assert(x * s + f < d * s) by (nonlinear_arith)
            requires
                x + 1 <= d,
                f < s,
        ;
    }
}

/// An index in range has an offset inside the tensor.
pub proof fn law_offsets_lie_inside(dims: Seq<usize>, index: Seq<usize>)
    requires
        in_range(dims, index),
    ensures
        flat_offset(dims, index, 0) < suffix_product(dims, 0),
{
    lemma_offset_bound(dims, index, 0);
}

proof fn lemma_offset_injective(dims: Seq<usize>, a: Seq<usize>, b: Seq<usize>, i: int, k: int)
    requires
        in_range(dims, a),
        in_range(dims, b),
        0 <= i <= k < dims.len(),
        flat_offset(dims, a, i) == flat_offset(dims, b, i),
    ensures
        a[k] == b[k],
    decreases k - i,
{
    lemma_offset_bound(dims, a, i + 1);
    lemma_offset_bound(dims, b, i + 1);
    let s = suffix_product(dims, i + 1) as int;
    let fa = flat_offset(dims, a, i + 1) as int;
    let fb = flat_offset(dims, b, i + 1) as int;
    let xa = a[i] as int;
    let xb = b[i] as int;
    let whole = flat_offset(dims, a, i) as int;
    assert(whole == s * xa + fa) by (nonlinear_arith)
        requires
            whole == xa * s + fa,
    ;
    assert(whole == s * xb + fb) by (nonlinear_arith)
        requires
            whole == xb * s + fb,
    ;
    vstd::arithmetic::div_mod::lemma_fundamental_div_mod_converse(whole, s, xa, fa);
    vstd::arithmetic::div_mod::lemma_fundamental_div_mod_converse(whole, s, xb, fb);
    if i < k {
        lemma_offset_injective(dims, a, b, i + 1, k);
    }
}

/// No two indexes in range share an offset.
pub proof fn law_offsets_are_distinct(dims: Seq<usize>, a: Seq<usize>, b: Seq<usize>)
    requires
        in_range(dims, a),
        in_range(dims, b),
        flat_offset(dims, a, 0) == flat_offset(dims, b, 0),
    ensures
        a == b,
{
    assert forall|k: int| 0 <= k < dims.len() implies a[k] == b[k] by {
        lemma_offset_injective(dims, a, b, 0, k);
    }
    assert(a =~= b);
}

/// `b` is the index behind `a`: the axes behind `k` start again, `k` moves on by one, and the
/// axes before it stay.
pub open spec fn follows(dims: Seq<usize>, a: Seq<usize>, b: Seq<usize>, k: int) -> bool {
    &&& in_range(dims, a)
    &&& in_range(dims, b)
    &&& 0 <= k < dims.len()
    &&& b[k] == a[k] + 1
    &&& forall|j: int| 0 <= j < k ==> #[trigger] a[j] == b[j]
    &&& forall|j: int| k < j < dims.len() ==> #[trigger] a[j] == dims[j] - 1
    &&& forall|j: int| k < j < dims.len() ==> #[trigger] b[j] == 0
}

proof fn lemma_all_zero(dims: Seq<usize>, a: Seq<usize>, i: int)
    requires
        0 <= i <= dims.len(),
        forall|j: int| i <= j < dims.len() ==> #[trigger] a[j] == 0,
    ensures
        flat_offset(dims, a, i) == 0,
    decreases dims.len() - i,
{
    if i < dims.len() {
        lemma_all_zero(dims, a, i + 1);
        assert(0 * suffix_product(dims, i + 1) == 0);
    }
}

proof fn lemma_all_last(dims: Seq<usize>, a: Seq<usize>, i: int)
    requires
        0 <= i <= dims.len(),
        forall|j: int| i <= j < dims.len() ==> #[trigger] a[j] == dims[j] - 1,
    ensures
        flat_offset(dims, a, i) + 1 == suffix_product(dims, i),
    decreases dims.len() - i,
{
    if i < dims.len() {
        lemma_all_last(dims, a, i + 1);
        let p = suffix_product(dims, i + 1) as int;
        let d = dims[i] as int;
        assert((d - 1) * p + p == d * p) by (nonlinear_arith);
    }
}

proof fn lemma_same_front(dims: Seq<usize>, a: Seq<usize>, b: Seq<usize>, i: int, k: int)
    requires
        0 <= i <= k <= dims.len(),
        forall|j: int| i <= j < k ==> #[trigger] a[j] == b[j],
    ensures
        flat_offset(dims, b, i) - flat_offset(dims, a, i) == flat_offset(dims, b, k) - flat_offset(
            dims,
            a,
            k,
        ),
    decreases k - i,
{
    if i < k {
        assert(a[i] == b[i]);
        lemma_same_front(dims, a, b, i + 1, k);
    }
}

/// Row-major order: the index of zeros has offset 0, and the index behind another has the
/// offset behind it.
pub proof fn law_offsets_count_up(dims: Seq<usize>, a: Seq<usize>, b: Seq<usize>, k: int)
    requires
        follows(dims, a, b, k),
    ensures
        flat_offset(dims, b, 0) == flat_offset(dims, a, 0) + 1,
        (forall|j: int| 0 <= j < dims.len() ==> #[trigger] a[j] == 0) ==> flat_offset(dims, a, 0)
            == 0,
{
    lemma_same_front(dims, a, b, 0, k);
    lemma_all_last(dims, a, k + 1);
    lemma_all_zero(dims, b, k + 1);
    let p = suffix_product(dims, k + 1) as int;
    let x = a[k] as int;
    assert((x + 1) * p == x * p + p) by (nonlinear_arith);
    if forall|j: int| 0 <= j < dims.len() ==> #[trigger] a[j] == 0 {
        lemma_all_zero(dims, a, 0);
    }
}

/// A stride is how far one step along its axis goes.
pub proof fn law_strides_are_steps(dims: Seq<usize>, a: Seq<usize>, b: Seq<usize>, k: int)
    requires
        0 <= k < dims.len(),
        b[k] == a[k] + 1,
        forall|j: int| 0 <= j < dims.len() && j != k ==> #[trigger] a[j] == b[j],
    ensures
        flat_offset(dims, b, 0) == flat_offset(dims, a, 0) + suffix_product(dims, k + 1),
        k == dims.len() - 1 ==> suffix_product(dims, k + 1) == 1,
{
    lemma_same_front(dims, a, b, 0, k);
    lemma_same_front(dims, a, b, k + 1, dims.len() as int);
    let p = suffix_product(dims, k + 1) as int;
    let x = a[k] as int;
    assert((x + 1) * p == x * p + p) by (nonlinear_arith);
}

proof fn lemma_products_meet(dims: Seq<usize>, n: nat)
    requires
        n <= dims.len(),
    ensures
        prefix_product(dims, n) * suffix_product(dims, n as int) == suffix_product(dims, 0),
    decreases n,
{
    if n == 0 {
        assert(1 * suffix_product(dims, 0) == suffix_product(dims, 0));
    } else {
        let m = (n - 1) as nat;
        lemma_products_meet(dims, m);
        let a = prefix_product(dims, m) as int;
        let d = dims[n - 1] as int;
        let b = suffix_product(dims, n as int) as int;
        assert((a * d) * b == a * (d * b)) by (nonlinear_arith);
    }
}

/// There is one element for each offset: the last index has the last offset.
pub proof fn law_the_last_index_is_the_last_element(dims: Seq<usize>, a: Seq<usize>)
    requires
        forall|j: int| 0 <= j < dims.len() ==> #[trigger] a[j] == dims[j] - 1,
    ensures
        flat_offset(dims, a, 0) + 1 == prefix_product(dims, dims.len()),
{
    lemma_all_last(dims, a, 0);
    lemma_products_meet(dims, dims.len());
    let n = prefix_product(dims, dims.len()) as int;
    assert(n * 1 == n);
}

} // verus!
