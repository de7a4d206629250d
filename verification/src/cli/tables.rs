//! The tables of `gguf-dump`.
use crate::gguf::file::{TensorInfo, TensorInfoView};
use crate::gguf::parse;
use crate::gguf::{GgmlType, ModelConfig};
use crate::sort;
use crate::sort::Order;
use crate::text;
use vstd::prelude::*;

verus! {

/// The tensors of one type.
#[derive(Debug, Clone, Copy, PartialEq, Eq)]
pub struct TensorKind {
    pub ty: GgmlType,
    pub count: usize,
    pub bytes: u128,
    pub elements: u128,
}

/// How many tensors are of a type.
pub open spec fn count_of(tensors: Seq<TensorInfoView>, ty: GgmlType) -> nat
    decreases tensors.len(),
{
    if tensors.len() == 0 {
        0
    } else {
        count_of(tensors.drop_last(), ty) + if tensors.last().ggml_type == ty {
            1nat
        } else {
            0
        }
    }
}

/// How many bytes the tensors of a type take.
pub open spec fn bytes_of(tensors: Seq<TensorInfoView>, ty: GgmlType) -> nat
    decreases tensors.len(),
{
    if tensors.len() == 0 {
        0
    } else {
        bytes_of(tensors.drop_last(), ty) + if tensors.last().ggml_type == ty {
            tensors.last().byte_size
        } else {
            0
        }
    }
}

/// How many elements the tensors of a type have.
pub open spec fn elements_of(tensors: Seq<TensorInfoView>, ty: GgmlType) -> nat
    decreases tensors.len(),
{
    if tensors.len() == 0 {
        0
    } else {
        elements_of(tensors.drop_last(), ty) + if tensors.last().ggml_type == ty {
            tensors.last().elements()
        } else {
            0
        }
    }
}

/// Type `a` occurs before type `b` does.
pub open spec fn seen_before(tensors: Seq<TensorInfoView>, a: GgmlType, b: GgmlType) -> bool {
    exists|i: int|
        0 <= i < tensors.len() && (#[trigger] tensors[i]).ggml_type == a && forall|j: int|
            0 <= j <= i ==> (#[trigger] tensors[j]).ggml_type != b
}

impl TensorKind {
    /// The sums are those of all tensors of the type, and there is one.
    pub open spec fn sums_up(&self, tensors: Seq<TensorInfoView>) -> bool {
        &&& self.count == count_of(tensors, self.ty)
        &&& self.count > 0
        &&& self.bytes == bytes_of(tensors, self.ty)
        &&& self.elements == elements_of(tensors, self.ty)
    }
}

/// Every type that occurs has one entry, and the entry sums up its tensors.
pub open spec fn covers(tensors: Seq<TensorInfoView>, kinds: Seq<TensorKind>) -> bool {
    &&& forall|k: int| 0 <= k < kinds.len() ==> (#[trigger] kinds[k]).sums_up(tensors)
    &&& forall|i: int, j: int|
        0 <= i < j < kinds.len() ==> (#[trigger] kinds[i]).ty != (#[trigger] kinds[j]).ty
    &&& forall|i: int|
        0 <= i < tensors.len() ==> exists|k: int|
            0 <= k < kinds.len() && (#[trigger] kinds[k]).ty == (#[trigger] tensors[i]).ggml_type
}

/// The type with more bytes comes first; of two with as many, the one that occurs first.
pub open spec fn ranked(tensors: Seq<TensorInfoView>, kinds: Seq<TensorKind>) -> bool {
    forall|i: int, j: int|
        0 <= i < j < kinds.len() ==> (#[trigger] kinds[i]).bytes > (#[trigger] kinds[j]).bytes || (
        kinds[i].bytes == kinds[j].bytes && seen_before(tensors, kinds[i].ty, kinds[j].ty))
}

pub open spec fn views(tensors: Seq<TensorInfo>) -> Seq<TensorInfoView> {
    Seq::new(tensors.len(), |i: int| tensors[i]@)
}

proof fn lemma_sums_bound(tensors: Seq<TensorInfoView>, ty: GgmlType)
    requires
        forall|i: int|
            0 <= i < tensors.len() ==> (#[trigger] tensors[i]).byte_size <= u64::MAX
                && tensors[i].elements() <= u64::MAX,
    ensures
        count_of(tensors, ty) <= tensors.len(),
        bytes_of(tensors, ty) <= tensors.len() * u64::MAX,
        elements_of(tensors, ty) <= tensors.len() * u64::MAX,
    decreases tensors.len(),
{
    if tensors.len() > 0 {
        lemma_sums_bound(tensors.drop_last(), ty);
        let n = tensors.len() - 1;
        assert((n + 1) * u64::MAX == n * u64::MAX + u64::MAX) by (nonlinear_arith);
    }
}

/// A type that occurs has a count.
proof fn lemma_counted(tensors: Seq<TensorInfoView>, ty: GgmlType)
    ensures
        count_of(tensors, ty) > 0 <==> exists|i: int|
            0 <= i < tensors.len() && (#[trigger] tensors[i]).ggml_type == ty,
    decreases tensors.len(),
{
    if tensors.len() > 0 {
        let front = tensors.drop_last();
        lemma_counted(front, ty);
        if count_of(front, ty) > 0 {
            let i = choose|i: int| 0 <= i < front.len() && (#[trigger] front[i]).ggml_type == ty;
            assert(tensors[i].ggml_type == ty);
        }
        if tensors.last().ggml_type == ty {
            assert(tensors[tensors.len() - 1].ggml_type == ty);
        }
        if exists|i: int| 0 <= i < tensors.len() && (#[trigger] tensors[i]).ggml_type == ty {
            let i = choose|i: int|
                0 <= i < tensors.len() && (#[trigger] tensors[i]).ggml_type == ty;
            if i < front.len() {
                assert(front[i].ggml_type == ty);
            }
        }
    }
}

/// A type without tensors has no bytes and no elements.
proof fn lemma_absent(tensors: Seq<TensorInfoView>, ty: GgmlType)
    requires
        count_of(tensors, ty) == 0,
    ensures
        bytes_of(tensors, ty) == 0,
        elements_of(tensors, ty) == 0,
    decreases tensors.len(),
{
    if tensors.len() > 0 {
        lemma_absent(tensors.drop_last(), ty);
    }
}

/// What was seen first among some tensors stays first when one more follows.
proof fn lemma_seen_stays(before: Seq<TensorInfoView>, t: TensorInfoView, a: GgmlType, b: GgmlType)
    requires
        seen_before(before, a, b),
    ensures
        seen_before(before.push(t), a, b),
{
    let after = before.push(t);
    let i = choose|i: int|
        0 <= i < before.len() && (#[trigger] before[i]).ggml_type == a && forall|j: int|
            0 <= j <= i ==> (#[trigger] before[j]).ggml_type != b;
    assert(after[i].ggml_type == a);
    assert forall|j: int| 0 <= j <= i implies (#[trigger] after[j]).ggml_type != b by {
        assert(after[j] == before[j]);
    }
}

spec fn in_order_seen(tensors: Seq<TensorInfoView>, kinds: Seq<TensorKind>) -> bool {
    forall|i: int, j: int|
        0 <= i < j < kinds.len() ==> seen_before(
            tensors,
            (#[trigger] kinds[i]).ty,
            (#[trigger] kinds[j]).ty,
        )
}

/// One tensor more adds to the sums of its own type and to no other.
proof fn lemma_sums_push(before: Seq<TensorInfoView>, t: TensorInfoView, ty: GgmlType)
    ensures
        t.ggml_type == ty ==> {
            &&& count_of(before.push(t), ty) == count_of(before, ty) + 1
            &&& bytes_of(before.push(t), ty) == bytes_of(before, ty) + t.byte_size
            &&& elements_of(before.push(t), ty) == elements_of(before, ty) + t.elements()
        },
        t.ggml_type != ty ==> {
            &&& count_of(before.push(t), ty) == count_of(before, ty)
            &&& bytes_of(before.push(t), ty) == bytes_of(before, ty)
            &&& elements_of(before.push(t), ty) == elements_of(before, ty)
        },
{
    assert(before.push(t).drop_last() =~= before);
}

/// The entry of the tensor's type takes it in.
proof fn lemma_added(
    before: Seq<TensorInfoView>,
    t: TensorInfoView,
    kinds: Seq<TensorKind>,
    i: int,
    k: TensorKind,
)
    requires
        covers(before, kinds),
        in_order_seen(before, kinds),
        0 <= i < kinds.len(),
        kinds[i].ty == t.ggml_type,
        k.ty == t.ggml_type,
        k.sums_up(before.push(t)),
    ensures
        covers(before.push(t), kinds.update(i, k)),
        in_order_seen(before.push(t), kinds.update(i, k)),
{
    let after = before.push(t);
    let new = kinds.update(i, k);
    assert forall|j: int| 0 <= j < new.len() implies (#[trigger] new[j]).ty == kinds[j].ty by {}
    assert forall|j: int| 0 <= j < new.len() implies (#[trigger] new[j]).sums_up(after) by {
        if j != i {
            assert(kinds[j].sums_up(before));
            assert(kinds[j].ty != t.ggml_type) by {
                if j < i {
                    assert(kinds[j].ty != kinds[i].ty);
                } else {
                    assert(kinds[i].ty != kinds[j].ty);
                }
            }
            lemma_sums_push(before, t, kinds[j].ty);
        }
    }
    assert forall|a: int, b: int| 0 <= a < b < new.len() implies (#[trigger] new[a]).ty != (
    #[trigger] new[b]).ty by {
        assert(kinds[a].ty != kinds[b].ty);
    }
    assert forall|a: int| 0 <= a < after.len() implies exists|j: int|
        0 <= j < new.len() && (#[trigger] new[j]).ty == (#[trigger] after[a]).ggml_type by {
        if a < before.len() {
            assert(after[a] == before[a]);
            let j = choose|j: int|
                0 <= j < kinds.len() && (#[trigger] kinds[j]).ty == before[a].ggml_type;
            assert(new[j].ty == after[a].ggml_type);
        } else {
            assert(new[i].ty == after[a].ggml_type);
        }
    }
    assert forall|a: int, b: int| 0 <= a < b < new.len() implies seen_before(
        after,
        (#[trigger] new[a]).ty,
        (#[trigger] new[b]).ty,
    ) by {
        lemma_seen_stays(before, t, kinds[a].ty, kinds[b].ty);
    }
}

/// A type without an entry occurs after every type that has one.
proof fn lemma_newcomer(
    before: Seq<TensorInfoView>,
    kinds: Seq<TensorKind>,
    a: int,
    ty: GgmlType,
)
    requires
        covers(before, kinds),
        0 <= a < kinds.len(),
        forall|j: int| 0 <= j < kinds.len() ==> (#[trigger] kinds[j]).ty != ty,
    ensures
        seen_before(before, kinds[a].ty, ty),
{
    assert(kinds[a].sums_up(before));
    lemma_counted(before, kinds[a].ty);
    let w = choose|w: int|
        0 <= w < before.len() && (#[trigger] before[w]).ggml_type == kinds[a].ty;
    assert forall|j: int| 0 <= j <= w implies (#[trigger] before[j]).ggml_type != ty by {
        let m = choose|m: int|
            0 <= m < kinds.len() && (#[trigger] kinds[m]).ty == before[j].ggml_type;
        assert(kinds[m].ty != ty);
    }
}

/// A type that did not occur gets an entry at the end.
proof fn lemma_appended(
    before: Seq<TensorInfoView>,
    t: TensorInfoView,
    kinds: Seq<TensorKind>,
    k: TensorKind,
)
    requires
        covers(before, kinds),
        in_order_seen(before, kinds),
        forall|j: int| 0 <= j < kinds.len() ==> (#[trigger] kinds[j]).ty != t.ggml_type,
        k.ty == t.ggml_type,
        k.sums_up(before.push(t)),
    ensures
        covers(before.push(t), kinds.push(k)),
        in_order_seen(before.push(t), kinds.push(k)),
{
    let after = before.push(t);
    let new = kinds.push(k);
    let n = kinds.len() as int;
    assert forall|j: int| 0 <= j < new.len() implies (#[trigger] new[j]).sums_up(after) by {
        if j < n {
            assert(kinds[j].sums_up(before));
            lemma_sums_push(before, t, kinds[j].ty);
        }
    }
    assert forall|a: int, b: int| 0 <= a < b < new.len() implies (#[trigger] new[a]).ty != (
    #[trigger] new[b]).ty by {
        if b < n {
            assert(kinds[a].ty != kinds[b].ty);
        } else {
            assert(kinds[a].ty != t.ggml_type);
        }
    }
    assert forall|a: int| 0 <= a < after.len() implies exists|j: int|
        0 <= j < new.len() && (#[trigger] new[j]).ty == (#[trigger] after[a]).ggml_type by {
        if a < before.len() {
            assert(after[a] == before[a]);
            let j = choose|j: int|
                0 <= j < kinds.len() && (#[trigger] kinds[j]).ty == before[a].ggml_type;
            assert(new[j].ty == after[a].ggml_type);
        } else {
            assert(new[n].ty == after[a].ggml_type);
        }
    }
    assert forall|a: int, b: int| 0 <= a < b < new.len() implies seen_before(
        after,
        (#[trigger] new[a]).ty,
        (#[trigger] new[b]).ty,
    ) by {
        if b == n {
            lemma_newcomer(before, kinds, a, t.ggml_type);
        } else {
            assert(seen_before(before, kinds[a].ty, kinds[b].ty));
        }
        lemma_seen_stays(before, t, new[a].ty, new[b].ty);
    }
}

/// Count one tensor more.
fn tally(
    kinds: &mut Vec<TensorKind>,
    ty: GgmlType,
    bytes: u64,
    elements: u64,
    Ghost(before): Ghost<Seq<TensorInfoView>>,
    Ghost(t): Ghost<TensorInfoView>,
)
    requires
        covers(before, old(kinds)@),
        in_order_seen(before, old(kinds)@),
        t.ggml_type == ty,
        t.byte_size == bytes,
        t.elements() == elements,
        before.len() < usize::MAX,
        forall|i: int|
            0 <= i < before.len() ==> (#[trigger] before[i]).byte_size <= u64::MAX
                && before[i].elements() <= u64::MAX,
    ensures
        covers(before.push(t), final(kinds)@),
        in_order_seen(before.push(t), final(kinds)@),
{
    proof {
        lemma_sums_push(before, t, ty);
        lemma_sums_bound(before, ty);
        let n = before.len();
        assert(n * u64::MAX + u64::MAX <= usize::MAX * u64::MAX) by (nonlinear_arith)
            requires
                n < usize::MAX,
        ;
        assert(usize::MAX * u64::MAX <= u128::MAX) by (nonlinear_arith)
            requires
                usize::MAX <= u64::MAX,
        ;
    }
    let ghost old_kinds = kinds@;
    let mut i: usize = 0;
    while i < kinds.len() && kinds[i].ty.to_tag() != ty.to_tag()
        invariant
            i <= kinds@.len(),
            kinds@ == old_kinds,
            forall|k: int| 0 <= k < i ==> (#[trigger] kinds@[k]).ty != ty,
        decreases kinds.len() - i,
    {
        i += 1;
    }
    if i < kinds.len() {
        proof {
            parse::lemma_tag_injective(kinds@[i as int].ty, ty);
        }
        let k = kinds[i];
        assert(k.sums_up(before));
        let sum = TensorKind {
            ty,
            count: k.count + 1,
            bytes: k.bytes + bytes as u128,
            elements: k.elements + elements as u128,
        };
        proof {
            lemma_added(before, t, old_kinds, i as int, sum);
        }
        kinds.set(i, sum);
    } else {
        proof {
            lemma_counted(before, ty);
            if count_of(before, ty) > 0 {
                let a = choose|a: int|
                    0 <= a < before.len() && (#[trigger] before[a]).ggml_type == ty;
                let j = choose|j: int|
                    0 <= j < old_kinds.len() && (#[trigger] old_kinds[j]).ty == before[a].ggml_type;
                assert(old_kinds[j].ty != ty);
            }
            lemma_absent(before, ty);
        }
        let first = TensorKind {
            ty,
            count: 1,
            bytes: bytes as u128,
            elements: elements as u128,
        };
        proof {
            lemma_appended(before, t, old_kinds, first);
        }
        kinds.push(first);
    }
}

/// Places in a list of kinds, by bytes from most to least, then by place.
struct ByBytes<'b> {
    kinds: &'b Vec<TensorKind>,
}

impl<'b> Order<usize> for ByBytes<'b> {
    closed spec fn defined(&self, a: usize) -> bool {
        a < self.kinds@.len()
    }

    closed spec fn le(&self, a: usize, b: usize) -> bool {
        self.kinds@[a as int].bytes > self.kinds@[b as int].bytes || (self.kinds@[a as int].bytes
            == self.kinds@[b as int].bytes && a <= b)
    }

    proof fn total(&self, a: usize, b: usize) {
    }

    proof fn transitive(&self, a: usize, b: usize, c: usize) {
    }

    fn in_order(&self, a: &usize, b: &usize) -> (r: bool) {
        self.kinds[*a].bytes > self.kinds[*b].bytes || (self.kinds[*a].bytes
            == self.kinds[*b].bytes && *a <= *b)
    }
}

/// What the tensors of each type add up to, the type with most bytes first.
pub fn tensor_kinds(tensors: &Vec<TensorInfo>) -> (r: Vec<TensorKind>)
    requires
        forall|i: int|
            0 <= i < tensors@.len() ==> (#[trigger] tensors@[i])@.sound(),
    ensures
        covers(views(tensors@), r@),
        ranked(views(tensors@), r@),
{
    let ghost all = views(tensors@);
    let mut kinds: Vec<TensorKind> = Vec::new();
    let total: usize = tensors.len();
    let mut i: usize = 0;
    while i < total
        invariant
            i <= total,
            total == tensors@.len(),
            all == views(tensors@),
            forall|k: int|
                0 <= k < tensors@.len() ==> (#[trigger] tensors@[k])@.sound(),
            covers(all.take(i as int), kinds@),
            in_order_seen(all.take(i as int), kinds@),
        decreases total - i,
    {
        let t = &tensors[i];
        assert(t@.sound());
        let elements: u64 = t.n_elements();
        let ghost before = all.take(i as int);
        proof {
            assert forall|k: int| 0 <= k < before.len() implies (#[trigger] before[k]).byte_size
                <= u64::MAX && before[k].elements() <= u64::MAX by {
                assert(before[k] == tensors@[k]@);
                assert(tensors@[k]@.sound());
            }
            assert(all.take(i + 1) =~= before.push(t@));
        }
        tally(&mut kinds, t.ggml_type, t.byte_size, elements, Ghost(before), Ghost(t@));
        i += 1;
    }
    assert(all.take(total as int) =~= all);
    let n: usize = kinds.len();
    let mut places: Vec<usize> = Vec::new();
    let mut p: usize = 0;
    while p < n
        invariant
            p <= n,
            places@.len() == p,
            forall|k: int| 0 <= k < p ==> #[trigger] places@[k] == k,
        decreases n - p,
    {
        places.push(p);
        p += 1;
    }
    let order = ByBytes { kinds: &kinds };
    let by_bytes = sort::sort(&places, &order);
    let mut out: Vec<TensorKind> = Vec::new();
    let mut q: usize = 0;
    while q < n
        invariant
            q <= n,
            n == kinds@.len(),
            by_bytes@.len() == n,
            order.kinds@ == kinds@,
            sort::all_defined(by_bytes@, &order),
            out@.len() == q,
            forall|k: int| 0 <= k < q ==> #[trigger] out@[k] == kinds@[by_bytes@[k] as int],
        decreases n - q,
    {
        assert(order.defined(by_bytes@[q as int]));
        out.push(kinds[by_bytes[q]]);
        q += 1;
    }
    proof {
        broadcast use vstd::seq_lib::group_to_multiset_ensures;

        places@.lemma_multiset_has_no_duplicates();
        by_bytes@.lemma_multiset_has_no_duplicates_conv();
        assert forall|k: int| 0 <= k < n implies (#[trigger] by_bytes@[k]) < n by {
            assert(order.defined(by_bytes@[k]));
        }
        assert forall|k: int| 0 <= k < out@.len() implies (#[trigger] out@[k]).sums_up(all) by {
            assert(kinds@[by_bytes@[k] as int].sums_up(all));
        }
        assert forall|a: int, b: int| 0 <= a < b < out@.len() implies (#[trigger] out@[a]).ty != (
        #[trigger] out@[b]).ty && (out@[a].bytes > out@[b].bytes || (out@[a].bytes == out@[b].bytes
            && seen_before(all, out@[a].ty, out@[b].ty))) by {
            let x = by_bytes@[a];
            let y = by_bytes@[b];
            assert(x != y);
            assert(order.le(x, y));
            if x < y {
                assert(kinds@[x as int].ty != kinds@[y as int].ty);
                assert(seen_before(all, kinds@[x as int].ty, kinds@[y as int].ty));
            } else {
                assert(kinds@[y as int].ty != kinds@[x as int].ty);
            }
        }
        assert forall|i: int| 0 <= i < all.len() implies exists|k: int|
            0 <= k < out@.len() && (#[trigger] out@[k]).ty == (#[trigger] all[i]).ggml_type by {
            let k = choose|k: int|
                0 <= k < kinds@.len() && (#[trigger] kinds@[k]).ty == all[i].ggml_type;
            assert(places@[k] == k);
            sort::lemma_same_values(places@, by_bytes@, k as usize);
            assert(places@.contains(k as usize));
            let w = choose|w: int| 0 <= w < by_bytes@.len() && by_bytes@[w] == k as usize;
            assert(out@[w].ty == all[i].ggml_type);
        }
    }
    out
}

/// An optional number as its `Debug` form.
pub open spec fn maybe(n: Option<u32>) -> Seq<char> {
    match n {
        Some(x) => "Some("@ + text::decimal(x as nat) + ")"@,
        None => "None"@,
    }
}

fn push_maybe(s: &mut String, n: Option<u32>)
    ensures
        final(s)@ == old(s)@ + maybe(n),
{
    match n {
        Some(x) => {
            s.push_str("Some(");
            text::push_decimal(s, x as u128);
            s.push_str(")");
        },
        None => {
            s.push_str("None");
        },
    }
    assert(s@ =~= old(s)@ + maybe(n));
}

/// A text, or a dash where there is none.
pub open spec fn or_dash(s: Option<String>) -> Seq<char> {
    match s {
        Some(t) => t@,
        None => "-"@,
    }
}

fn text_or_dash(s: &Option<String>) -> (r: String)
    ensures
        r@ == or_dash(*s),
{
    match s {
        Some(t) => {
            let mut out = String::new();
            out.push_str(t.as_str());
            assert(out@ =~= t@);
            out
        },
        None => "-".to_owned(),
    }
}

/// The rows of the table that shows a model's shape, where `eps` and `base` are the texts
/// of its two floating-point numbers.
pub open spec fn rows_of(c: ModelConfig, eps: Seq<char>, base: Seq<char>) -> Seq<
    (Seq<char>, Seq<char>),
> {
    seq![
        ("architecture"@, c.architecture@),
        ("name"@, or_dash(c.name)),
        ("block_count"@, text::decimal(c.block_count as nat)),
        ("embedding_length"@, text::decimal(c.embedding_length as nat)),
        ("feed_forward_length"@, text::decimal(c.feed_forward_length as nat)),
        ("head_count"@, text::decimal(c.head_count as nat)),
        ("head_count_kv"@, text::decimal(c.head_count_kv as nat)),
        (
            "head_dim"@,
            text::decimal(c.head_dim as nat) + "  (kv group size "@ + text::decimal(
                (c.head_count / c.head_count_kv) as nat,
            ) + ")"@,
        ),
        ("context_length"@, text::decimal(c.context_length as nat)),
        ("rms_norm_eps"@, eps),
        ("rope_freq_base"@, base),
        (
            "rope_dim_count"@,
            match c.rope_dimension_count {
                Some(n) => text::decimal(n as nat),
                None => "- (all "@ + text::decimal(c.head_dim as nat) + " dims)"@,
            },
        ),
        ("vocab_size"@, text::decimal(c.vocab_size as nat)),
        ("tokenizer"@, or_dash(c.tokenizer_model)),
        (
            "special tokens"@,
            "bos "@ + maybe(c.bos_token_id) + "  eos "@ + maybe(c.eos_token_id) + "  pad "@ + maybe(
                c.pad_token_id,
            ) + "  unk "@ + maybe(c.unk_token_id),
        ),
        (
            "q_dim / kv_dim"@,
            text::decimal((c.head_count * c.head_dim) as nat) + " / "@ + text::decimal(
                (c.head_count_kv * c.head_dim) as nat,
            ),
        ),
    ]
}

pub open spec fn row_views(rows: Seq<(&'static str, String)>) -> Seq<(Seq<char>, Seq<char>)> {
    Seq::new(rows.len(), |i: int| (rows[i].0@, rows[i].1@))
}

fn add_row(
    rows: &mut Vec<(&'static str, String)>,
    name: &'static str,
    value: String,
)
    ensures
        row_views(final(rows)@) == row_views(old(rows)@).push((name@, value@)),
{
    rows.push((name, value));
    assert(row_views(rows@) =~= row_views(old(rows)@).push((name@, value@)));
}

fn special_tokens(c: &ModelConfig) -> (r: String)
    ensures
        r@ == "bos "@ + maybe(c.bos_token_id) + "  eos "@ + maybe(c.eos_token_id) + "  pad "@
            + maybe(c.pad_token_id) + "  unk "@ + maybe(c.unk_token_id),
{
    let mut s = "bos ".to_owned();
    push_maybe(&mut s, c.bos_token_id);
    s.push_str("  eos ");
    push_maybe(&mut s, c.eos_token_id);
    s.push_str("  pad ");
    push_maybe(&mut s, c.pad_token_id);
    s.push_str("  unk ");
    push_maybe(&mut s, c.unk_token_id);
    s
}

/// The rows of the table that shows a model's shape, names and values.
pub fn config_rows(c: &ModelConfig, eps: &str, base: &str) -> (r: Vec<(&'static str, String)>)
    requires
        c.head_count_kv > 0,
        c.head_count * c.head_dim <= usize::MAX,
        c.head_count_kv * c.head_dim <= usize::MAX,
    ensures
        row_views(r@) == rows_of(*c, eps@, base@),
{
    let mut rows: Vec<(&'static str, String)> = Vec::new();
    assert(row_views(rows@) =~= Seq::empty());
    add_row(&mut rows, "architecture", c.architecture.as_str().to_owned());
    add_row(&mut rows, "name", text_or_dash(&c.name));
    add_row(&mut rows, "block_count", text::decimal_of(c.block_count as u128));
    add_row(&mut rows, "embedding_length", text::decimal_of(c.embedding_length as u128));
    add_row(&mut rows, "feed_forward_length", text::decimal_of(c.feed_forward_length as u128));
    add_row(&mut rows, "head_count", text::decimal_of(c.head_count as u128));
    add_row(&mut rows, "head_count_kv", text::decimal_of(c.head_count_kv as u128));
    let mut dims = text::decimal_of(c.head_dim as u128);
    dims.push_str("  (kv group size ");
    text::push_decimal(&mut dims, c.kv_group_size() as u128);
    dims.push_str(")");
    add_row(&mut rows, "head_dim", dims);
    add_row(&mut rows, "context_length", text::decimal_of(c.context_length as u128));
    add_row(&mut rows, "rms_norm_eps", eps.to_owned());
    add_row(&mut rows, "rope_freq_base", base.to_owned());
    let rotated = match c.rope_dimension_count {
        Some(n) => text::decimal_of(n as u128),
        None => {
            let mut s = "- (all ".to_owned();
            text::push_decimal(&mut s, c.head_dim as u128);
            s.push_str(" dims)");
            s
        },
    };
    add_row(&mut rows, "rope_dim_count", rotated);
    add_row(&mut rows, "vocab_size", text::decimal_of(c.vocab_size as u128));
    add_row(&mut rows, "tokenizer", text_or_dash(&c.tokenizer_model));
    add_row(&mut rows, "special tokens", special_tokens(c));
    let mut widths = text::decimal_of(c.q_dim() as u128);
    widths.push_str(" / ");
    text::push_decimal(&mut widths, c.kv_dim() as u128);
    add_row(&mut rows, "q_dim / kv_dim", widths);
    assert(row_views(rows@) =~= rows_of(*c, eps@, base@));
    rows
}

/// The context lengths whose cache size is shown: some usual ones that the model allows,
/// then its own.
pub open spec fn cache_points(context: usize) -> Seq<usize> {
    (if context >= 8192 {
        seq![512, 2048, 4096, 8192]
    } else if context >= 4096 {
        seq![512, 2048, 4096]
    } else if context >= 2048 {
        seq![512, 2048]
    } else if context >= 512 {
        seq![512]
    } else {
        Seq::<usize>::empty()
    }).push(context)
}

pub fn cache_lengths(context: usize) -> (r: Vec<usize>)
    ensures
        r@ == cache_points(context),
{
    let mut out: Vec<usize> = Vec::new();
    if context >= 512 {
        out.push(512);
    }
    if context >= 2048 {
        out.push(2048);
    }
    if context >= 4096 {
        out.push(4096);
    }
    if context >= 8192 {
        out.push(8192);
    }
    out.push(context);
    assert(out@ =~= cache_points(context));
    out
}

} // verus!
