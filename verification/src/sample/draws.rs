//! What a draw is, from the logits to the token.
//!
//! A draw goes through turns: the sampler asks for numbers, and goes on with the reply.  What
//! the turns of every draw are is stated here in terms of the settings, the history, the
//! logits and the replies.
use super::rng;
use super::sampler;
use super::sampler::{Ask, Candidate, SamplerView, Stage};
use crate::bits;
use crate::bits::{F32Bits, ONE};
use vstd::prelude::*;

verus! {

/// Turn `i` was answered, and turn `i + 1` is what came of it.
pub open spec fn answered(
    turns: Seq<(SamplerView, Ask)>,
    replies: Seq<Seq<F32Bits>>,
    i: int,
) -> bool {
    &&& turns[i].1 !is Done
    &&& turns[i].0.wf()
    &&& replies[i].len() == turns[i].0.asked()
    &&& turns[i].0.answers(replies[i], turns[i + 1].0, turns[i + 1].1)
}

/// The turns of a whole draw: the sampler and what it asks, at the start and after each
/// reply, up to the token.
pub open spec fn is_run(
    before: SamplerView,
    logits: Seq<F32Bits>,
    turns: Seq<(SamplerView, Ask)>,
    replies: Seq<Seq<F32Bits>>,
) -> bool {
    &&& before.wf()
    &&& before.history.len() <= usize::MAX
    &&& logits.len() == before.cand.len()
    &&& turns.len() > 0
    &&& replies.len() == turns.len() - 1
    &&& before.starts(logits, turns[0].0, turns[0].1)
    &&& forall|i: int| 0 <= i < turns.len() - 1 ==> #[trigger] answered(turns, replies, i)
    &&& turns.last().1 is Done
}

/// How many penalties are computed: one for each token of the history, unless the penalty is
/// 1.
pub open spec fn n_penalties(before: SamplerView) -> int {
    if bits::equal(before.cfg.repetition_penalty, F32Bits(ONE)) {
        0
    } else {
        before.history.len() as int
    }
}

/// The score of token `t` after the first `i` penalties: the last reply for it, or its logit.
pub open spec fn score_after(
    before: SamplerView,
    logits: Seq<F32Bits>,
    replies: Seq<Seq<F32Bits>>,
    t: int,
    i: nat,
) -> F32Bits
    decreases i,
{
    if i == 0 {
        logits[t]
    } else if before.history[i - 1] == t {
        replies[i - 1][0]
    } else {
        score_after(before, logits, replies, t, (i - 1) as nat)
    }
}

/// Every token with its score after the first `i` penalties.
pub open spec fn penalised_list(
    before: SamplerView,
    logits: Seq<F32Bits>,
    replies: Seq<Seq<F32Bits>>,
    i: nat,
) -> Seq<Candidate> {
    Seq::new(
        logits.len(),
        |t: int|
            Candidate { id: t as u32, score: score_after(before, logits, replies, t, i) },
    )
}

/// The sampler after the first `i` penalties.
spec fn after_penalties(
    before: SamplerView,
    logits: Seq<F32Bits>,
    replies: Seq<Seq<F32Bits>>,
    i: nat,
) -> SamplerView {
    SamplerView {
        cand: penalised_list(before, logits, replies, i),
        n: logits.len(),
        ..before
    }
}

/// The temperature is at or below 0, and there is no penalty.
pub open spec fn is_greedy(before: SamplerView) -> bool {
    bits::at_least(F32Bits(0), before.cfg.temperature) && bits::equal(
        before.cfg.repetition_penalty,
        F32Bits(ONE),
    )
}

proof fn lemma_penalties(
    before: SamplerView,
    logits: Seq<F32Bits>,
    turns: Seq<(SamplerView, Ask)>,
    replies: Seq<Seq<F32Bits>>,
    i: nat,
)
    requires
        is_run(before, logits, turns, replies),
        !is_greedy(before),
        i < n_penalties(before),
    ensures
        i + 1 < turns.len(),
        before.history[i as int] < logits.len(),
        turns[i as int].0 == after_penalties(before, logits, replies, i).at(
            Stage::Penalty(i as usize),
        ),
        turns[i as int].1 == after_penalties(before, logits, replies, i).penalty_ask(i as int),
    decreases i,
{
    if i == 0 {
        assert(penalised_list(before, logits, replies, 0) =~= before.loaded(logits).cand);
    } else {
        let p = (i - 1) as nat;
        lemma_penalties(before, logits, turns, replies, p);
        assert(answered(turns, replies, p as int));
        lemma_one_penalty(before, logits, replies, p);
        let w = turns[p as int].0;
        assert(w.stage == Stage::Penalty(p as usize));
        let t = before.history[p as int] as int;
        let next = SamplerView {
            cand: w.cand.update(t, Candidate { id: w.cand[t].id, score: replies[p as int][0] }),
            ..w
        };
        assert(next.cand == after_penalties(before, logits, replies, i).cand);
        assert(turns[i as int].0 == next.at(Stage::Penalty(i as usize)));
    }
    if i + 1 == turns.len() {
        assert(turns.last() == turns[i as int]);
    }
    assert(answered(turns, replies, i as int));
    assert(turns[i as int].0.in_vocabulary());
    assert(turns[i as int].0.history[i as int] < turns[i as int].0.cand.len());
}

/// A reply to a penalty is the token's new score.
proof fn lemma_one_penalty(
    before: SamplerView,
    logits: Seq<F32Bits>,
    replies: Seq<Seq<F32Bits>>,
    p: nat,
)
    requires
        logits.len() <= u32::MAX,
        before.history[p as int] < logits.len(),
    ensures
        ({
            let t = before.history[p as int] as int;
            let v = after_penalties(before, logits, replies, p);
            v.cand.update(t, Candidate { id: v.cand[t].id, score: replies[p as int][0] })
                == after_penalties(before, logits, replies, p + 1).cand
        }),
{
    let t = before.history[p as int] as int;
    let v = after_penalties(before, logits, replies, p);
    assert(v.cand.update(t, Candidate { id: v.cand[t].id, score: replies[p as int][0] })
        =~= after_penalties(before, logits, replies, p + 1).cand);
}

/// What comes behind the penalties.
proof fn lemma_behind_penalties(
    before: SamplerView,
    logits: Seq<F32Bits>,
    turns: Seq<(SamplerView, Ask)>,
    replies: Seq<Seq<F32Bits>>,
)
    requires
        is_run(before, logits, turns, replies),
        !is_greedy(before),
    ensures
        ({
            let h = n_penalties(before);
            &&& 0 <= h < turns.len()
            &&& after_penalties(before, logits, replies, h as nat).penalised(turns[h].0, turns[h].1)
        }),
{
    let h = n_penalties(before);
    if h == 0 {
        assert(penalised_list(before, logits, replies, 0) =~= before.loaded(logits).cand);
        assert(after_penalties(before, logits, replies, 0) == before.loaded(logits));
    } else {
        let p = (h - 1) as nat;
        lemma_penalties(before, logits, turns, replies, p);
        assert(answered(turns, replies, p as int));
        lemma_one_penalty(before, logits, replies, p);
        let v = after_penalties(before, logits, replies, h as nat);
        let w = turns[p as int].0;
        assert(w.stage == Stage::Penalty(p as usize));
        let t = before.history[p as int] as int;
        let next = SamplerView {
            cand: w.cand.update(t, Candidate { id: w.cand[t].id, score: replies[p as int][0] }),
            ..w
        };
        assert(next.cand == v.cand);
        assert(next.penalised(turns[h].0, turns[h].1));
        assert(v.at(Stage::Idle) == next.at(Stage::Idle));
        assert(v.at(Stage::Scale) == next.at(Stage::Scale));
        if v.cfg.cold() {
            let b = choose|b: int|
                0 <= b < next.cand.len() && sampler::is_best(next.cand, b) && turns[h].1
                    == Ask::Done(#[trigger] next.cand[b].id);
            assert(v.cand[b].id == next.cand[b].id);
        }
    }
}

/// With a temperature at or below 0 and no penalty, the largest logit is the token, and the
/// lowest of equals; nothing is asked, and no random number is drawn.
pub proof fn law_greedy_draws_take_the_largest(
    before: SamplerView,
    logits: Seq<F32Bits>,
    turns: Seq<(SamplerView, Ask)>,
    replies: Seq<Seq<F32Bits>>,
)
    requires
        is_run(before, logits, turns, replies),
        bits::at_least(F32Bits(0), before.cfg.temperature),
        bits::equal(before.cfg.repetition_penalty, F32Bits(ONE)),
    ensures
        turns.len() == 1,
        turns[0].0 == (SamplerView { stage: Stage::Idle, ..before }),
        turns[0].1 matches Ask::Done(id) && {
            // Some logit is a number above negative infinity.
            (exists|j: int|
                0 <= j < logits.len() && bits::below(
                    F32Bits(0xff80_0000),
                    #[trigger] logits[j],
                )) ==> {
                &&& (id as int) < logits.len()
                &&& forall|j: int|
                    0 <= j < logits.len() ==> !bits::below(logits[id as int], #[trigger] logits[j])
                &&& forall|j: int| 0 <= j < id ==> bits::is_nan(logits[j]) || bits::below(
                    #[trigger] logits[j],
                    logits[id as int],
                )
            }
        },
{
    if turns.len() > 1 {
        assert(answered(turns, replies, 0));
    }
    let i = choose|i: int|
        #[trigger] sampler::is_argmax(logits, i) && turns[0].1 == Ask::Done(i as u32);
    if exists|j: int|
        0 <= j < logits.len() && bits::below(F32Bits(0xff80_0000), #[trigger] logits[j]) {
        let j = choose|j: int|
            0 <= j < logits.len() && bits::below(F32Bits(0xff80_0000), #[trigger] logits[j]);
        assert(sampler::can_win(logits[j]));
        assert forall|k: int| 0 <= k < i implies bits::is_nan(logits[k]) || bits::below(
            #[trigger] logits[k],
            logits[i],
        ) by {
            assert(!bits::at_least(logits[k], logits[i]));
            assert(!bits::below(logits[i], logits[k]));
        }
    }
}

/// Every token of the history is penalised, in order and as often as it stands there: its
/// score at that moment is divided by the penalty where it is above 0, and multiplied with it
/// otherwise.
pub proof fn law_the_history_is_penalised(
    before: SamplerView,
    logits: Seq<F32Bits>,
    turns: Seq<(SamplerView, Ask)>,
    replies: Seq<Seq<F32Bits>>,
    i: int,
)
    requires
        is_run(before, logits, turns, replies),
        !bits::equal(before.cfg.repetition_penalty, F32Bits(ONE)),
        0 <= i < before.history.len(),
    ensures
        i + 1 < turns.len(),
        before.history[i] < logits.len(),
        ({
            let score = score_after(
                before,
                logits,
                replies,
                before.history[i] as int,
                i as nat,
            );
            turns[i].1 == (Ask::Penalise { score, divide: bits::below(F32Bits(0), score) })
        }),
{
    lemma_penalties(before, logits, turns, replies, i as nat);
    let t = before.history[i] as int;
    assert(penalised_list(before, logits, replies, i as nat)[t].score == score_after(
        before,
        logits,
        replies,
        t,
        i as nat,
    ));
}

/// With a temperature at or below 0, the best score after the penalties is the token, and
/// the lowest of equals; no random number is drawn.
pub proof fn law_cold_draws_take_the_best(
    before: SamplerView,
    logits: Seq<F32Bits>,
    turns: Seq<(SamplerView, Ask)>,
    replies: Seq<Seq<F32Bits>>,
)
    requires
        is_run(before, logits, turns, replies),
        bits::at_least(F32Bits(0), before.cfg.temperature),
        !bits::equal(before.cfg.repetition_penalty, F32Bits(ONE)),
        logits.len() > 0,
    ensures
        ({
            let h = before.history.len();
            let s = |t: int| score_after(before, logits, replies, t, h);
            &&& turns.len() == h + 1
            &&& turns.last().0.rng == before.rng
            &&& turns.last().0.history == before.history
            &&& turns.last().1 matches Ask::Done(id) && {
                &&& (id as int) < logits.len()
                &&& !bits::is_nan(s(0)) ==> {
                    &&& !bits::is_nan(s(id as int))
                    &&& forall|t: int|
                        0 <= t < logits.len() ==> !bits::below(s(id as int), #[trigger] s(t))
                    &&& forall|t: int|
                        0 <= t < id ==> bits::is_nan(s(t)) || bits::below(
                            #[trigger] s(t),
                            s(id as int),
                        )
                }
            }
        }),
{
    lemma_behind_penalties(before, logits, turns, replies);
    let h = n_penalties(before);
    let v = after_penalties(before, logits, replies, h as nat);
    if h + 1 < turns.len() {
        assert(answered(turns, replies, h));
    }
    let b = choose|b: int|
        0 <= b < v.cand.len() && sampler::is_best(v.cand, b) && turns[h].1 == Ask::Done(
            #[trigger] v.cand[b].id,
        );
    let s = |t: int| score_after(before, logits, replies, t, h as nat);
    let scores = sampler::scores_of(v.cand);
    assert forall|t: int| 0 <= t < logits.len() implies #[trigger] s(t) == scores[t] by {}
    assert(v.cand[0].score == s(0));
    if !bits::is_nan(s(0)) {
        assert(sampler::is_first_largest(scores, b));
        assert forall|t: int| 0 <= t < logits.len() implies !bits::below(s(b), #[trigger] s(t)) by {
            assert(!bits::below(scores[b], scores[t]));
        }
        assert forall|t: int| 0 <= t < b implies bits::is_nan(s(t)) || bits::below(
            #[trigger] s(t),
            s(b),
        ) by {
            assert(!bits::at_least(scores[t], scores[b]));
            assert(!bits::below(scores[b], scores[t]));
        }
    }
}

/// With a temperature above 0, the penalised scores are divided by it, and then turned into
/// probabilities, after which a token is drawn; where top-p is below 1, whatever top-k is, a
/// nucleus is cut in between.
pub proof fn law_warm_draws_ask_in_order(
    before: SamplerView,
    logits: Seq<F32Bits>,
    turns: Seq<(SamplerView, Ask)>,
    replies: Seq<Seq<F32Bits>>,
)
    requires
        is_run(before, logits, turns, replies),
        !bits::at_least(F32Bits(0), before.cfg.temperature),
    ensures
        ({
            let h = n_penalties(before);
            &&& h + 3 < turns.len()
            &&& turns[h].1 == Ask::Scale
            &&& turns[h].0.cand == penalised_list(before, logits, replies, h as nat)
            &&& turns[h].0.n == logits.len()
            &&& turns[h + 1].1 == Ask::Softmax
            &&& turns[h + 2].1 == Ask::Sums
            &&& if bits::below(before.cfg.top_p, F32Bits(ONE)) {
                &&& turns.len() == h + 6
                &&& turns[h + 3].1 == Ask::Renormalise
                &&& turns[h + 4].1 == Ask::Sums
                &&& turns[h + 5].1 is Done
            } else {
                &&& turns.len() == h + 4
                &&& turns[h + 3].1 is Done
            }
        }),
{
    lemma_warm(before, logits, turns, replies);
}

/// The turns behind the penalties, with the sampler at each.
proof fn lemma_warm(
    before: SamplerView,
    logits: Seq<F32Bits>,
    turns: Seq<(SamplerView, Ask)>,
    replies: Seq<Seq<F32Bits>>,
)
    requires
        is_run(before, logits, turns, replies),
        !bits::at_least(F32Bits(0), before.cfg.temperature),
    ensures
        ({
            let h = n_penalties(before);
            let v = after_penalties(before, logits, replies, h as nat);
            let cut = bits::below(before.cfg.top_p, F32Bits(ONE));
            &&& 0 <= h
            &&& turns.len() == h + (if cut {
                6int
            } else {
                4int
            })
            &&& turns[h] == (v.at(Stage::Scale), Ask::Scale)
            &&& v.at(Stage::Scale).rescored(replies[h]).filtered(turns[h + 1].0)
            &&& turns[h + 1].1 == Ask::Softmax
            &&& turns[h + 2].1 == Ask::Sums
            &&& turns[h + 1].0.cfg == before.cfg
            &&& turns[h + 1].0.rng == before.rng
            &&& cut ==> {
                &&& turns[h + 1].0.stage == Stage::NucleusSoftmax
                &&& turns[h + 2].0 == turns[h + 1].0.rescored(replies[h + 1]).at(
                    Stage::NucleusSums,
                )
                &&& turns[h + 3].1 == Ask::Renormalise
                &&& turns[h + 3].0 == (SamplerView {
                    n: turns[h + 3].0.n,
                    stage: Stage::Renormalise,
                    ..turns[h + 2].0
                })
                &&& sampler::nucleus(
                    replies[h + 2],
                    before.cfg.top_p,
                    turns[h + 3].0.n as int,
                )
                &&& turns[h + 4].0 == turns[h + 3].0.rescored(replies[h + 3]).at(Stage::DrawSums)
                &&& turns[h + 4].1 == Ask::Sums
                &&& turns[h + 4].0.answers(replies[h + 4], turns[h + 5].0, turns[h + 5].1)
            }
            &&& !cut ==> {
                &&& turns[h + 1].0.stage == Stage::Softmax
                &&& turns[h + 2].0 == turns[h + 1].0.rescored(replies[h + 1]).at(Stage::DrawSums)
                &&& turns[h + 2].0.answers(replies[h + 2], turns[h + 3].0, turns[h + 3].1)
            }
        }),
{
    lemma_behind_penalties(before, logits, turns, replies);
    let h = n_penalties(before);
    assert(turns[h].1 == Ask::Scale);
    assert(turns.last() == turns[turns.len() - 1]);
    assert(h + 1 < turns.len());
    assert(answered(turns, replies, h));
    assert(turns[h + 1].1 == Ask::Softmax);
    assert(h + 2 < turns.len());
    assert(answered(turns, replies, h + 1));
    assert(turns[h + 2].1 == Ask::Sums);
    assert(h + 3 < turns.len());
    assert(answered(turns, replies, h + 2));
    if bits::below(before.cfg.top_p, F32Bits(ONE)) {
        assert(turns[h + 3].1 == Ask::Renormalise);
        assert(h + 4 < turns.len());
        assert(answered(turns, replies, h + 3));
        assert(turns[h + 4].1 == Ask::Sums);
        assert(h + 5 < turns.len());
        assert(answered(turns, replies, h + 4));
        assert(turns[h + 5].1 is Done);
        if h + 6 < turns.len() {
            assert(answered(turns, replies, h + 5));
        }
    } else {
        assert(turns[h + 3].1 is Done);
        if h + 4 < turns.len() {
            assert(answered(turns, replies, h + 3));
        }
    }
}

/// Top-k keeps as many candidates as it says, or all where it is 0 or there are no more; none
/// that is left out scores higher than one that is kept; and no candidate is lost or changed.
pub proof fn law_top_k_is_kept(
    before: SamplerView,
    logits: Seq<F32Bits>,
    turns: Seq<(SamplerView, Ask)>,
    replies: Seq<Seq<F32Bits>>,
)
    requires
        is_run(before, logits, turns, replies),
        !bits::at_least(F32Bits(0), before.cfg.temperature),
    ensures
        ({
            let h = n_penalties(before);
            let v = turns[h + 1].0;
            let scaled = Seq::new(
                logits.len(),
                |t: int| Candidate { id: t as u32, score: replies[h][t] },
            );
            &&& h + 1 < turns.len()
            &&& v.n == (if before.cfg.top_k == 0 || before.cfg.top_k >= logits.len() {
                logits.len() as int
            } else {
                before.cfg.top_k as int
            })
            &&& v.cand.len() == logits.len()
            &&& v.cand.to_multiset() == scaled.to_multiset()
            &&& forall|i: int, j: int|
                0 <= i < v.n <= j < v.cand.len() ==> bits::order((#[trigger] v.cand[i]).score)
                    >= bits::order((#[trigger] v.cand[j]).score)
            &&& v.n == logits.len() && !bits::below(before.cfg.top_p, F32Bits(ONE)) ==> v.cand
                == scaled
        }),
{
    lemma_warm(before, logits, turns, replies);
    let h = n_penalties(before);
    let scaled = Seq::new(
        logits.len(),
        |t: int| Candidate { id: t as u32, score: replies[h][t] },
    );
    let w = after_penalties(before, logits, replies, h as nat).at(Stage::Scale).rescored(
        replies[h],
    );
    assert(w.cand =~= scaled);
    assert(turns[h + 1].0.cand.len() == w.cand.len());
}

/// Whenever top-p is below 1, whatever top-k is, a draw goes through the nucleus.  The
/// survivors of top-k stand in falling order; the candidates that are left when a token is
/// picked are the first of them; none but the last of these brings the running sum of
/// probabilities to top-p; and where some are cut off, the last does.
pub proof fn law_the_nucleus_is_cut(
    before: SamplerView,
    logits: Seq<F32Bits>,
    turns: Seq<(SamplerView, Ask)>,
    replies: Seq<Seq<F32Bits>>,
)
    requires
        is_run(before, logits, turns, replies),
        !bits::at_least(F32Bits(0), before.cfg.temperature),
        bits::below(before.cfg.top_p, F32Bits(ONE)),
    ensures
        ({
            let h = n_penalties(before);
            let survivors = turns[h + 1].0;
            let sums = replies[h + 2];
            let left = turns.last().0;
            &&& turns.len() == h + 6
            &&& forall|i: int, j: int|
                0 <= i <= j < survivors.n ==> bits::order((#[trigger] survivors.cand[i]).score)
                    >= bits::order((#[trigger] survivors.cand[j]).score)
            &&& sums.len() == survivors.n
            &&& 1 <= left.n <= survivors.n
            &&& forall|i: int|
                0 <= i < left.n ==> (#[trigger] left.cand[i]).id == survivors.cand[i].id
            &&& forall|i: int|
                0 <= i < left.n - 1 ==> !bits::at_least(#[trigger] sums[i], before.cfg.top_p)
            &&& left.n < survivors.n ==> bits::at_least(sums[left.n - 1], before.cfg.top_p)
        }),
{
    lemma_warm(before, logits, turns, replies);
    let h = n_penalties(before);
    assert(answered(turns, replies, h + 1));
    assert(answered(turns, replies, h + 2));
    assert(answered(turns, replies, h + 3));
    assert(answered(turns, replies, h + 4));
    assert(turns.last() == turns[h + 5]);
}

/// The token that is drawn is the first of the candidates that are left whose running sum is
/// above a number in `[0, 1)`, which the generator gives next; where rounding leaves none, it
/// is the last.  A draw takes one number of the generator.
pub proof fn law_the_token_is_drawn(
    before: SamplerView,
    logits: Seq<F32Bits>,
    turns: Seq<(SamplerView, Ask)>,
    replies: Seq<Seq<F32Bits>>,
)
    requires
        is_run(before, logits, turns, replies),
        !bits::at_least(F32Bits(0), before.cfg.temperature),
    ensures
        ({
            let left = turns.last().0;
            let sums = replies.last();
            &&& replies.len() > 0
            &&& sums.len() == left.n
            &&& left.rng == before.rng.next()
            &&& left.history == before.history
            &&& left.cfg == before.cfg
            &&& left.stage == Stage::Idle
            &&& exists|r: F32Bits, i: int| #[trigger]
                rng::is_unit(before.rng, r) && 0 <= i < left.n && turns.last().1 == Ask::Done(
                    (#[trigger] left.cand[i]).id,
                ) && (bits::below(r, sums[i]) || i == left.n - 1) && forall|j: int|
                    0 <= j < i ==> !bits::below(r, #[trigger] sums[j])
        }),
{
    lemma_warm(before, logits, turns, replies);
    let h = n_penalties(before);
    let last = turns.len() - 1;
    assert(turns.last() == turns[last]);
    assert(replies.last() == replies[last - 1]);
    assert(answered(turns, replies, last - 1));
    assert(answered(turns, replies, h + 1));
    let w = turns[last - 1].0;
    assert(w.rng == before.rng);
    let (r, i) = choose|r: F32Bits, i: int|
        rng::is_unit(w.rng, r) && #[trigger] sampler::picked(replies[last - 1], r, i)
            && turns[last].1 == Ask::Done(w.cand[i].id);
    assert(rng::is_unit(before.rng, r));
    assert(turns[last].0.cand[i] == w.cand[i]);
}

/// Every number but negative infinity can win, and nothing else can.
pub proof fn law_all_but_negative_infinity_can_win(x: F32Bits)
    ensures
        sampler::can_win(x) <==> {
            &&& x.0 as nat % 0x8000_0000 <= 0x7f80_0000
            &&& x.0 != 0xff80_0000
        },
{
}

} // verus!
