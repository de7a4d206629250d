//! A seed gives the same tokens again.
//!
//! Where several candidates score the same, the filters do not say which of them is kept
//! or stands first; everything else about a draw is settled by the settings, the random
//! numbers, the history and the logits.
use super::rng;
use super::rng::PcgView;
use super::sampler;
use super::sampler::{Ask, Candidate, SamplerView, Stage};
use crate::bits;
use crate::bits::F32Bits;
use vstd::prelude::*;

verus! {

/// Two samplers agree: on everything but candidates that are out of the draw.
pub open spec fn agree(a: SamplerView, b: SamplerView) -> bool {
    &&& a.cfg == b.cfg
    &&& a.rng == b.rng
    &&& a.history == b.history
    &&& a.stage == b.stage
    &&& a.n == b.n
    &&& a.cand.len() == b.cand.len()
    &&& a.cand.take(a.n as int) == b.cand.take(b.n as int)
}

/// No two candidates score the same.
pub open spec fn all_differ(cand: Seq<Candidate>) -> bool {
    forall|i: int, j: int|
        0 <= i < j < cand.len() ==> bits::order((#[trigger] cand[i]).score) != bits::order(
            (#[trigger] cand[j]).score,
        )
}

/// The filters leave nothing open: there are none, or a nucleus is cut from candidates
/// that all score differently.
pub open spec fn settled(v: SamplerView, values: Seq<F32Bits>) -> bool {
    v.stage == Stage::Scale ==> {
        ||| v.cfg.keeps(v.n) == v.n && !v.cfg.cuts()
        ||| v.cfg.cuts() && all_differ(v.rescored(values).cand)
    }
}

proof fn lemma_one_largest(s: Seq<F32Bits>, i: int, j: int)
    requires
        sampler::is_first_largest(s, i),
        sampler::is_first_largest(s, j),
    ensures
        i == j,
{
    if i < j {
        assert(!bits::at_least(s[i], s[j]));
        assert(!bits::below(s[i], s[j]));
    } else if j < i {
        assert(!bits::at_least(s[j], s[i]));
        assert(!bits::below(s[j], s[i]));
    }
}

proof fn lemma_one_argmax(s: Seq<F32Bits>, i: int, j: int)
    requires
        sampler::is_argmax(s, i),
        sampler::is_argmax(s, j),
    ensures
        i == j,
{
    if exists|k: int| 0 <= k < s.len() && sampler::can_win(#[trigger] s[k]) {
        lemma_one_largest(s, i, j);
    }
}

proof fn lemma_one_best(cand: Seq<Candidate>, i: int, j: int)
    requires
        sampler::is_best(cand, i),
        sampler::is_best(cand, j),
    ensures
        i == j,
{
    if !bits::is_nan(cand[0].score) {
        lemma_one_largest(sampler::scores_of(cand), i, j);
    }
}

proof fn lemma_one_pick(sums: Seq<F32Bits>, r: F32Bits, i: int, j: int)
    requires
        sampler::picked(sums, r, i),
        sampler::picked(sums, r, j),
    ensures
        i == j,
{
    if i < j {
        assert(!bits::below(r, sums[i]));
    } else if j < i {
        assert(!bits::below(r, sums[j]));
    }
}

proof fn lemma_one_nucleus(sums: Seq<F32Bits>, p: F32Bits, m: int, n: int)
    requires
        sampler::nucleus(sums, p, m),
        sampler::nucleus(sums, p, n),
    ensures
        m == n,
{
    if m < n {
        assert(!bits::at_least(sums[m - 1], p));
    } else if n < m {
        assert(!bits::at_least(sums[n - 1], p));
    }
}

/// A state gives one number in `[0, 1)`.
pub proof fn law_units_are_unique(g: PcgView, a: F32Bits, b: F32Bits)
    requires
        rng::is_unit(g, a),
        rng::is_unit(g, b),
    ensures
        a == b,
{
    bits::lemma_same_magnitude(a.0 as nat, b.0 as nat);
}

/// Where a candidate of one list stands in another with the same values.
proof fn lemma_find(a: Seq<Candidate>, b: Seq<Candidate>, i: int) -> (p: int)
    requires
        a.to_multiset() == b.to_multiset(),
        0 <= i < a.len(),
    ensures
        0 <= p < b.len(),
        b[p] == a[i],
{
    crate::sort::lemma_same_values(a, b, a[i]);
    assert(a.contains(a[i]));
    choose|p: int| 0 <= p < b.len() && b[p] == a[i]
}

/// Reordering candidates that all score differently leaves them so.
proof fn lemma_still_differ(base: Seq<Candidate>, a: Seq<Candidate>)
    requires
        all_differ(base),
        base.to_multiset() == a.to_multiset(),
    ensures
        all_differ(a),
{
    broadcast use vstd::seq_lib::group_to_multiset_ensures;

    assert(base.no_duplicates()) by {
        assert forall|i: int, j: int| 0 <= i < base.len() && 0 <= j < base.len() && i
            != j implies base[i] != base[j] by {
            if i < j {
                assert(bits::order(base[i].score) != bits::order(base[j].score));
            } else {
                assert(bits::order(base[j].score) != bits::order(base[i].score));
            }
        }
    }
    base.lemma_multiset_has_no_duplicates();
    a.lemma_multiset_has_no_duplicates_conv();
    assert forall|i: int, j: int| 0 <= i < j < a.len() implies bits::order(
        (#[trigger] a[i]).score,
    ) != bits::order((#[trigger] a[j]).score) by {
        let p = lemma_find(a, base, i);
        let q = lemma_find(a, base, j);
        assert(a[i] != a[j]);
        assert(p != q);
        if p < q {
            assert(bits::order(base[p].score) != bits::order(base[q].score));
        } else {
            assert(bits::order(base[q].score) != bits::order(base[p].score));
        }
    }
}

/// The first `k` of two orderings of the same candidates, falling and above the rest, are
/// the same.
proof fn lemma_one_order(base: Seq<Candidate>, a: Seq<Candidate>, b: Seq<Candidate>, k: int, i: int)
    requires
        all_differ(base),
        a.to_multiset() == base.to_multiset(),
        b.to_multiset() == base.to_multiset(),
        a.len() == base.len(),
        b.len() == base.len(),
        0 <= i < k <= base.len(),
        sampler::falling(a, k),
        sampler::falling(b, k),
        forall|x: int, y: int|
            0 <= x < k <= y < a.len() ==> bits::order((#[trigger] a[x]).score) >= bits::order(
                (#[trigger] a[y]).score,
            ),
        forall|x: int, y: int|
            0 <= x < k <= y < b.len() ==> bits::order((#[trigger] b[x]).score) >= bits::order(
                (#[trigger] b[y]).score,
            ),
    ensures
        a[i] == b[i],
    decreases i,
{
    lemma_still_differ(base, a);
    lemma_still_differ(base, b);
    assert forall|x: int| 0 <= x < i implies #[trigger] a[x] == b[x] by {
        lemma_one_order(base, a, b, k, x);
    }
    let p = lemma_find(a, b, i);
    let q = lemma_find(b, a, i);
    if p < i {
        assert(a[p] == b[p]);
        assert(bits::order(a[p].score) != bits::order(a[i].score));
    }
    if q < i {
        assert(a[q] == b[q]);
        assert(bits::order(b[q].score) != bits::order(b[i].score));
    }
    // Neither stands higher than the other.
    assert(bits::order(b[i].score) >= bits::order(a[i].score)) by {
        assert(bits::order(b[i].score) >= bits::order(b[p].score));
    }
    assert(bits::order(a[i].score) >= bits::order(b[i].score)) by {
        assert(bits::order(a[i].score) >= bits::order(a[q].score));
    }
    if p != i {
        assert(bits::order(b[i].score) != bits::order(b[p].score));
    }
}

/// The filters, where they leave nothing open, keep the same candidates in the same order.
proof fn lemma_filters_agree(a: SamplerView, b: SamplerView, a2: SamplerView, b2: SamplerView)
    requires
        a.n == a.cand.len(),
        agree(a, b),
        a.filtered(a2),
        b.filtered(b2),
        (a.cfg.keeps(a.n) == a.n && !a.cfg.cuts()) || (a.cfg.cuts() && all_differ(a.cand)),
    ensures
        agree(a2, b2),
{
    assert(a.cand =~= a.cand.take(a.n as int));
    assert(b.cand =~= b.cand.take(b.n as int));
    let k = a.cfg.keeps(a.n) as int;
    if a.cfg.cuts() {
        assert forall|i: int| 0 <= i < k implies #[trigger] a2.cand[i] == b2.cand[i] by {
            lemma_one_order(a.cand, a2.cand, b2.cand, k, i);
        }
    }
    assert(a2.cand.take(k) =~= b2.cand.take(k));
}

/// Two samplers that agree go on to agree: given the same logits, they ask for the same,
/// or pick the same token.
pub proof fn law_starts_agree(
    a: SamplerView,
    b: SamplerView,
    logits: Seq<F32Bits>,
    a2: SamplerView,
    b2: SamplerView,
    r: Ask,
    s: Ask,
)
    requires
        agree(a, b),
        a.starts(logits, a2, r),
        b.starts(logits, b2, s),
    ensures
        r == s,
        agree(a2, b2),
{
    let la = a.loaded(logits);
    let lb = b.loaded(logits);
    assert(la.cand =~= lb.cand);
    if a.cfg.greedy() {
        let i = choose|i: int| #[trigger] sampler::is_argmax(logits, i) && r == Ask::Done(i as u32);
        let j = choose|j: int| #[trigger] sampler::is_argmax(logits, j) && s == Ask::Done(j as u32);
        lemma_one_argmax(logits, i, j);
    } else if a.cfg.penalises() && a.history.len() > 0 {
    } else {
        lemma_penalised_agree(la, lb, a2, b2, r, s);
    }
}

proof fn lemma_penalised_agree(
    a: SamplerView,
    b: SamplerView,
    a2: SamplerView,
    b2: SamplerView,
    r: Ask,
    s: Ask,
)
    requires
        agree(a, b),
        a.cand == b.cand,
        a.penalised(a2, r),
        b.penalised(b2, s),
    ensures
        r == s,
        agree(a2, b2),
{
    if a.cfg.cold() {
        let i = choose|i: int|
            0 <= i < a.cand.len() && sampler::is_best(a.cand, i) && r == Ask::Done(
                #[trigger] a.cand[i].id,
            );
        let j = choose|j: int|
            0 <= j < b.cand.len() && sampler::is_best(b.cand, j) && s == Ask::Done(
                #[trigger] b.cand[j].id,
            );
        lemma_one_best(a.cand, i, j);
    }
}

/// Two samplers that agree go on to agree: given the same numbers, they ask for the same,
/// or pick the same token, where the filters leave nothing open.
pub proof fn law_answers_agree(
    a: SamplerView,
    b: SamplerView,
    values: Seq<F32Bits>,
    a2: SamplerView,
    b2: SamplerView,
    r: Ask,
    s: Ask,
)
    requires
        a.wf(),
        b.wf(),
        agree(a, b),
        values.len() == a.asked(),
        settled(a, values),
        a.answers(values, a2, r),
        b.answers(values, b2, s),
    ensures
        r == s,
        agree(a2, b2),
{
    let n = a.n as int;
    assert forall|i: int| 0 <= i < n implies #[trigger] a.cand[i] == b.cand[i] by {
        assert(a.cand.take(n)[i] == b.cand.take(n)[i]);
    }
    let ra = a.rescored(values);
    let rb = b.rescored(values);
    match a.stage {
        Stage::Penalty(i) => {
            assert(a.cand =~= b.cand);
            let t = a.history[i as int] as int;
            if i + 1 >= a.history.len() {
                let c = Candidate { id: a.cand[t].id, score: values[0] };
                let na = SamplerView { cand: a.cand.update(t, c), ..a };
                let nb = SamplerView { cand: b.cand.update(t, c), ..b };
                lemma_penalised_agree(na, nb, a2, b2, r, s);
            }
        },
        Stage::Scale => {
            assert(ra.cand.take(n) =~= rb.cand.take(n));
            lemma_filters_agree(ra, rb, a2, b2);
        },
        Stage::NucleusSoftmax | Stage::Renormalise | Stage::Softmax => {
            assert(a2.cand.take(n) =~= b2.cand.take(n));
        },
        Stage::NucleusSums => {
            lemma_one_nucleus(values, a.cfg.top_p, a2.n as int, b2.n as int);
            assert(a2.cand.take(a2.n as int) =~= b2.cand.take(b2.n as int));
        },
        Stage::DrawSums => {
            let (u, i) = choose|u: F32Bits, i: int|
                rng::is_unit(a.rng, u) && #[trigger] sampler::picked(values, u, i) && r
                    == Ask::Done(a.cand[i].id);
            let (w, j) = choose|w: F32Bits, j: int|
                rng::is_unit(b.rng, w) && #[trigger] sampler::picked(values, w, j) && s
                    == Ask::Done(b.cand[j].id);
            law_units_are_unique(a.rng, u, w);
            lemma_one_pick(values, u, i, j);
            assert(a.cand[i] == b.cand[i]);
        },
        Stage::Idle => {},
    }
}

/// The scores that are left.
pub open spec fn scores_left(v: SamplerView) -> Seq<F32Bits> {
    sampler::scores_of(v.cand.take(v.n as int))
}

/// A draw: what the sampler was and asked at each turn, where `f` computes what is asked
/// for.  The last thing asked is nothing: a token is picked.
pub open spec fn is_draw(
    before: SamplerView,
    logits: Seq<F32Bits>,
    f: spec_fn(Ask, Seq<F32Bits>) -> Seq<F32Bits>,
    turns: Seq<(SamplerView, Ask)>,
) -> bool {
    &&& turns.len() > 0
    &&& before.starts(logits, turns[0].0, turns[0].1)
    &&& forall|i: int| 0 <= i < turns.len() - 1 ==> goes_on(f, #[trigger] turns[i], turns[i + 1])
    &&& turns.last().1 is Done
}

/// One turn follows another.
pub open spec fn goes_on(
    f: spec_fn(Ask, Seq<F32Bits>) -> Seq<F32Bits>,
    now: (SamplerView, Ask),
    next: (SamplerView, Ask),
) -> bool {
    let values = f(now.1, scores_left(now.0));
    &&& now.1 !is Done
    &&& now.0.wf()
    &&& values.len() == now.0.asked()
    &&& settled(now.0, values)
    &&& now.0.answers(values, next.0, next.1)
}

proof fn lemma_turns_agree(
    a: SamplerView,
    b: SamplerView,
    logits: Seq<F32Bits>,
    f: spec_fn(Ask, Seq<F32Bits>) -> Seq<F32Bits>,
    s: Seq<(SamplerView, Ask)>,
    t: Seq<(SamplerView, Ask)>,
    i: int,
)
    requires
        agree(a, b),
        is_draw(a, logits, f, s),
        is_draw(b, logits, f, t),
        0 <= i < s.len(),
        i < t.len(),
    ensures
        s[i].1 == t[i].1,
        agree(s[i].0, t[i].0),
    decreases i,
{
    if i == 0 {
        law_starts_agree(a, b, logits, s[0].0, t[0].0, s[0].1, t[0].1);
    } else {
        lemma_turns_agree(a, b, logits, f, s, t, i - 1);
        assert(goes_on(f, s[i - 1], s[i]));
        assert(goes_on(f, t[i - 1], t[i]));
        let values = f(s[i - 1].1, scores_left(s[i - 1].0));
        assert(scores_left(s[i - 1].0) == scores_left(t[i - 1].0));
        law_answers_agree(
            s[i - 1].0,
            t[i - 1].0,
            values,
            s[i].0,
            t[i].0,
            s[i].1,
            t[i].1,
        );
    }
}

/// The same settings, seed, history and logits give the same token, and leave samplers
/// that agree, so that the draws that follow are the same too.
pub proof fn law_a_seed_gives_the_same_token(
    a: SamplerView,
    b: SamplerView,
    logits: Seq<F32Bits>,
    f: spec_fn(Ask, Seq<F32Bits>) -> Seq<F32Bits>,
    s: Seq<(SamplerView, Ask)>,
    t: Seq<(SamplerView, Ask)>,
)
    requires
        agree(a, b),
        is_draw(a, logits, f, s),
        is_draw(b, logits, f, t),
    ensures
        s.len() == t.len(),
        s.last().1 == t.last().1,
        agree(s.last().0, t.last().0),
{
    if s.len() < t.len() {
        let i = s.len() - 1;
        lemma_turns_agree(a, b, logits, f, s, t, i);
        assert(goes_on(f, t[i], t[i + 1]));
    } else if t.len() < s.len() {
        let i = t.len() - 1;
        lemma_turns_agree(a, b, logits, f, s, t, i);
        assert(goes_on(f, s[i], s[i + 1]));
    } else {
        lemma_turns_agree(a, b, logits, f, s, t, s.len() - 1);
    }
}

} // verus!
