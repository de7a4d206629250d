//! Picking a token.
//!
//! The filters run in this order:
//!
//! 1. repetition penalty, on raw logits
//! 2. temperature
//! 3. top-k
//! 4. top-p (nucleus)
//! 5. softmax over the survivors
//! 6. draw
//!
//! Temperature before top-p changes which tokens fall inside the nucleus, and a penalty
//! behind the temperature would depend on it.
//!
//! The sampler decides; the arithmetic on scores is asked for.  [`Sampler::start`] and
//! [`Sampler::reply`] say what to compute next, until a token is picked.
use super::rng;
use super::rng::{Pcg32, PcgView, DEFAULT_STREAM};
use crate::bits;
use crate::bits::{F32Bits, ONE};
use core::cmp::Ordering;
use vstd::prelude::*;

verus! {

/// Everything that shapes the draw.  Scores are single-precision patterns.
#[derive(Debug, Clone, Copy, PartialEq, Eq, Structural)]
pub struct SamplerConfig {
    /// At or below 0 means greedy.  Higher flattens the distribution.
    pub temperature: F32Bits,
    /// Keep only the `k` highest-scoring tokens.  `0` disables.
    pub top_k: usize,
    /// Keep the smallest set of tokens whose probabilities sum to at least this.
    /// At or above 1 disables.
    pub top_p: F32Bits,
    /// Divides the logits of recently seen tokens.  1 disables.
    pub repetition_penalty: F32Bits,
    /// How many recent tokens the penalty considers.
    pub repetition_window: usize,
    /// Fixed seed, so that a generation can be reproduced.
    pub seed: u64,
}

impl Default for SamplerConfig {
    /// Greedy: deterministic, and the baseline of every other setting.
    fn default() -> (r: Self)
        ensures
            r == (SamplerConfig {
                temperature: F32Bits(0),
                top_k: 0,
                top_p: F32Bits(ONE),
                repetition_penalty: F32Bits(ONE),
                repetition_window: 64,
                seed: 0,
            }),
    {
        SamplerConfig {
            temperature: F32Bits(0),
            top_k: 0,
            top_p: F32Bits(ONE),
            repetition_penalty: F32Bits(ONE),
            repetition_window: 64,
            seed: 0,
        }
    }
}

/// A token that may be picked.
#[derive(Debug, Clone, Copy, PartialEq, Eq, Structural)]
pub struct Candidate {
    pub id: u32,
    /// Logit while filtering, probability after the softmax.
    pub score: F32Bits,
}

/// How far a draw has come.
#[derive(Debug, Clone, Copy, PartialEq, Eq, Structural)]
pub enum Stage {
    /// No draw is going on.
    Idle,
    /// The penalty for this token of the history is being computed.
    Penalty(usize),
    /// Scores are being divided by the temperature.
    Scale,
    /// The survivors are being turned into probabilities for the nucleus.
    NucleusSoftmax,
    /// Their running sums are being computed.
    NucleusSums,
    /// The nucleus is being scaled to a sum of 1.
    Renormalise,
    /// The survivors are being turned into probabilities for the draw.
    Softmax,
    /// The running sums for the draw are being computed.
    DrawSums,
}

/// What to compute next.
#[derive(Debug, Clone, Copy, PartialEq, Eq, Structural)]
pub enum Ask {
    /// One number: the score divided by the penalty, or multiplied with it.
    Penalise { score: F32Bits, divide: bool },
    /// The candidates' scores, each times the inverse of the temperature.
    Scale,
    /// The softmax of the candidates' scores.
    Softmax,
    /// The running sums of the candidates' scores.
    Sums,
    /// The candidates' scores, each divided by their sum where that is above 0.
    Renormalise,
    /// Nothing: this token is picked.
    Done(u32),
}

/// What a [`Sampler`] holds.
pub struct SamplerView {
    pub cfg: SamplerConfig,
    pub rng: PcgView,
    /// Recent tokens, the most recent last.
    pub history: Seq<u32>,
    pub cand: Seq<Candidate>,
    /// How many candidates, from the first on, are left.
    pub n: nat,
    pub stage: Stage,
}

/// Decides how logits become a token.
#[derive(Debug)]
pub struct Sampler {
    cfg: SamplerConfig,
    rng: Pcg32,
    history: Vec<u32>,
    cand: Vec<Candidate>,
    n: usize,
    stage: Stage,
}

impl View for Sampler {
    type V = SamplerView;

    closed spec fn view(&self) -> SamplerView {
        SamplerView {
            cfg: self.cfg,
            rng: self.rng@,
            history: self.history@,
            cand: self.cand@,
            n: self.n as nat,
            stage: self.stage,
        }
    }
}

/// The pattern of negative infinity.
pub const NEGATIVE_INFINITY: u32 = 0xff80_0000;

/// Above negative infinity, so that it can win.
pub open spec fn can_win(x: F32Bits) -> bool {
    bits::below(F32Bits(NEGATIVE_INFINITY), x)
}

/// `i` is the index of the largest number, the lowest one of equals.
pub open spec fn is_first_largest(scores: Seq<F32Bits>, i: int) -> bool {
    &&& 0 <= i < scores.len()
    &&& !bits::is_nan(scores[i])
    &&& forall|j: int| 0 <= j < scores.len() ==> !bits::below(scores[i], #[trigger] scores[j])
    &&& forall|j: int| 0 <= j < i ==> !bits::at_least(#[trigger] scores[j], scores[i])
}

/// `i` is the index of the largest number, the lowest one of equals.  What is not a number
/// and negative infinity never win; where there is nothing else, `i` is 0.
pub open spec fn is_argmax(logits: Seq<F32Bits>, i: int) -> bool {
    if exists|j: int| 0 <= j < logits.len() && can_win(#[trigger] logits[j]) {
        is_first_largest(logits, i) && can_win(logits[i])
    } else {
        i == 0
    }
}

/// Index of the largest value.  Ties go to the lowest index.
pub fn argmax(logits: &[F32Bits]) -> (r: u32)
    requires
        logits@.len() <= u32::MAX + 1,
    ensures
        is_argmax(logits@, r as int),
{
    let mut best: usize = 0;
    let mut best_v: F32Bits = F32Bits(NEGATIVE_INFINITY);
    let mut found: bool = false;
    let mut i: usize = 0;
    while i < logits.len()
        invariant
            i <= logits@.len() <= u32::MAX + 1,
            !bits::is_nan(best_v),
            !found ==> best == 0 && best_v == F32Bits(NEGATIVE_INFINITY) && forall|j: int|
                0 <= j < i ==> !can_win(#[trigger] logits@[j]),
            found ==> best < i && best_v == logits@[best as int] && can_win(best_v) && (forall|
                j: int,
            |
                0 <= j < i ==> !bits::below(best_v, #[trigger] logits@[j])) && (forall|j: int|
                0 <= j < best ==> !bits::at_least(#[trigger] logits@[j], best_v)),
        decreases logits.len() - i,
    {
        if best_v.is_below(logits[i]) {
            best_v = logits[i];
            best = i;
            found = true;
        }
        i += 1;
    }
    best as u32
}

/// The scores of candidates.
pub open spec fn scores_of(cand: Seq<Candidate>) -> Seq<F32Bits> {
    Seq::new(cand.len(), |i: int| cand[i].score)
}

/// `i` is the first candidate unless a later one scores higher; what is not a number is
/// neither higher nor lower.
pub open spec fn is_best(cand: Seq<Candidate>, i: int) -> bool {
    if bits::is_nan(cand[0].score) {
        i == 0
    } else {
        is_first_largest(scores_of(cand), i)
    }
}

/// The best of some candidates.
fn best_of(cand: &Vec<Candidate>) -> (r: usize)
    requires
        cand@.len() > 0,
    ensures
        is_best(cand@, r as int),
        r < cand@.len(),
{
    let mut best: usize = 0;
    let mut i: usize = 1;
    while i < cand.len()
        invariant
            best < i <= cand@.len(),
            bits::is_nan(cand@[0].score) ==> best == 0,
            !bits::is_nan(cand@[0].score) ==> !bits::is_nan(cand@[best as int].score),
            !bits::is_nan(cand@[0].score) ==> forall|j: int|
                0 <= j < i ==> !bits::below(cand@[best as int].score, #[trigger] cand@[j].score),
            !bits::is_nan(cand@[0].score) ==> forall|j: int|
                0 <= j < best ==> !bits::at_least(
                    #[trigger] cand@[j].score,
                    cand@[best as int].score,
                ),
        decreases cand.len() - i,
    {
        if cand[best].score.is_below(cand[i].score) {
            best = i;
        }
        i += 1;
    }
    best
}

/// A higher score stands first.
fn descending(a: &Candidate, b: &Candidate) -> (r: Ordering)
    ensures
        r == if bits::below(b.score, a.score) {
            Ordering::Less
        } else if bits::below(a.score, b.score) {
            Ordering::Greater
        } else {
            Ordering::Equal
        },
{
    if b.score.is_below(a.score) {
        Ordering::Less
    } else if a.score.is_below(b.score) {
        Ordering::Greater
    } else {
        Ordering::Equal
    }
}

/// Every score is a number.
pub open spec fn all_numbers(cand: Seq<Candidate>) -> bool {
    forall|i: int| 0 <= i < cand.len() ==> !bits::is_nan((#[trigger] cand[i]).score)
}

/// `after` is `before` reordered so that none before `index` scores lower than the one
/// there, and none behind it higher.
pub open spec fn selected(before: Seq<Candidate>, after: Seq<Candidate>, index: usize) -> bool {
    let k = index as int;
    &&& after.to_multiset() == before.to_multiset()
    &&& forall|i: int|
        0 <= i < k ==> bits::order((#[trigger] after[i]).score) >= bits::order(after[k].score)
    &&& forall|i: int|
        k < i < after.len() ==> bits::order((#[trigger] after[i]).score) <= bits::order(
            after[k].score,
        )
}

/// `slice::select_nth_unstable_by`: the candidates are reordered so that none before
/// `index` scores lower than the one there, and none behind it higher.
#[verifier::external_body]
fn select(cand: &mut Vec<Candidate>, index: usize)
    requires
        index < old(cand)@.len(),
        all_numbers(old(cand)@),
    ensures
        selected(old(cand)@, final(cand)@, index),
{
    cand.select_nth_unstable_by(index, |a, b| descending(a, b));
}

/// Scores fall from each of the first `n` candidates to the next.
pub open spec fn falling(cand: Seq<Candidate>, n: int) -> bool {
    forall|i: int, j: int|
        0 <= i <= j < n ==> bits::order((#[trigger] cand[i]).score) >= bits::order(
            (#[trigger] cand[j]).score,
        )
}

/// `after` is `before` with the first `n` candidates reordered so that their scores fall.
pub open spec fn sorted_first(before: Seq<Candidate>, after: Seq<Candidate>, n: usize) -> bool {
    let k = n as int;
    &&& after.len() == before.len()
    &&& after.take(k).to_multiset() == before.take(k).to_multiset()
    &&& after.skip(k) == before.skip(k)
    &&& falling(after, k)
}

/// The first `n` scores are numbers.
pub open spec fn first_numbers(cand: Seq<Candidate>, n: usize) -> bool {
    n <= cand.len() && all_numbers(cand.take(n as int))
}

/// `slice::sort_unstable_by` on the first `n` candidates: they are reordered so that
/// their scores fall.
#[verifier::external_body]
fn sort_first(cand: &mut Vec<Candidate>, n: usize)
    requires
        first_numbers(old(cand)@, n),
    ensures
        sorted_first(old(cand)@, final(cand)@, n),
{
    cand[..n].sort_unstable_by(|a, b| descending(a, b));
}

/// How many candidates of a nucleus are kept: as many as it takes for the running sum to
/// reach `top_p`, or all.
pub open spec fn nucleus(sums: Seq<F32Bits>, top_p: F32Bits, n: int) -> bool {
    &&& 1 <= n <= sums.len()
    &&& forall|i: int| 0 <= i < n - 1 ==> !bits::at_least(#[trigger] sums[i], top_p)
    &&& n < sums.len() ==> bits::at_least(sums[n - 1], top_p)
}

fn nucleus_of(sums: &[F32Bits], top_p: F32Bits) -> (r: usize)
    requires
        sums@.len() > 0,
    ensures
        nucleus(sums@, top_p, r as int),
{
    let mut i: usize = 0;
    while i < sums.len()
        invariant
            i <= sums@.len(),
            forall|j: int| 0 <= j < i ==> !bits::at_least(#[trigger] sums@[j], top_p),
        decreases sums.len() - i,
    {
        if sums[i].is_at_least(top_p) {
            return i + 1;
        }
        i += 1;
    }
    sums.len()
}

/// Which candidate a number in `[0, 1)` picks: the first whose running sum is above it.
/// Only rounding can leave none; then it is the last.
pub open spec fn picked(sums: Seq<F32Bits>, r: F32Bits, i: int) -> bool {
    &&& 0 <= i < sums.len()
    &&& forall|j: int| 0 <= j < i ==> !bits::below(r, #[trigger] sums[j])
    &&& bits::below(r, sums[i]) || i == sums.len() - 1
}

fn pick(sums: &[F32Bits], r: F32Bits) -> (i: usize)
    requires
        sums@.len() > 0,
    ensures
        picked(sums@, r, i as int),
{
    let last: usize = sums.len() - 1;
    let mut i: usize = 0;
    while i < last
        invariant
            i <= last,
            last == sums@.len() - 1,
            forall|j: int| 0 <= j < i ==> !bits::below(r, #[trigger] sums@[j]),
        decreases last - i,
    {
        if r.is_below(sums[i]) {
            return i;
        }
        i += 1;
    }
    i
}

impl SamplerConfig {
    /// The largest logit is picked as it stands.
    pub open spec fn greedy(self) -> bool {
        bits::at_least(F32Bits(0), self.temperature) && bits::equal(
            self.repetition_penalty,
            F32Bits(ONE),
        )
    }

    /// The largest score is picked, after the penalty.
    pub open spec fn cold(self) -> bool {
        bits::at_least(F32Bits(0), self.temperature)
    }

    pub open spec fn penalises(self) -> bool {
        !bits::equal(self.repetition_penalty, F32Bits(ONE))
    }

    /// A nucleus is cut out.
    pub open spec fn cuts(self) -> bool {
        bits::below(self.top_p, F32Bits(ONE))
    }

    /// How many of `n` candidates top-k keeps.
    pub open spec fn keeps(self, n: nat) -> nat {
        if 0 < self.top_k < n {
            self.top_k as nat
        } else {
            n
        }
    }
}

/// A number above 0, so that dividing brings it down.
pub open spec fn positive(x: F32Bits) -> bool {
    bits::below(F32Bits(0), x)
}

impl SamplerView {
    /// The draw can go on: there are candidates, and the tokens of the history are among
    /// them.
    pub open spec fn wf(self) -> bool {
        &&& self.n <= self.cand.len()
        &&& self.cand.len() <= u32::MAX
        &&& self.stage != Stage::Idle ==> self.n > 0
        &&& self.stage matches Stage::Penalty(i) ==> {
            &&& i < self.history.len()
            &&& self.n == self.cand.len()
            &&& self.in_vocabulary()
        }
        &&& self.stage == Stage::Scale ==> self.n == self.cand.len()
    }

    pub open spec fn in_vocabulary(self) -> bool {
        forall|i: int| 0 <= i < self.history.len() ==> (#[trigger] self.history[i]) < self.cand.len()
    }

    /// One candidate for each token, with its logit.
    pub open spec fn loaded(self, logits: Seq<F32Bits>) -> SamplerView {
        SamplerView {
            cand: Seq::new(logits.len(), |i: int| Candidate { id: i as u32, score: logits[i] }),
            n: logits.len(),
            ..self
        }
    }

    /// The candidates that are left with other scores.
    pub open spec fn rescored(self, values: Seq<F32Bits>) -> SamplerView {
        SamplerView {
            cand: Seq::new(
                self.cand.len(),
                |i: int|
                    if i < self.n {
                        Candidate { id: self.cand[i].id, score: values[i] }
                    } else {
                        self.cand[i]
                    },
            ),
            ..self
        }
    }

    pub open spec fn at(self, stage: Stage) -> SamplerView {
        SamplerView { stage, ..self }
    }

    /// How many numbers are asked for.
    pub open spec fn asked(self) -> nat {
        match self.stage {
            Stage::Idle => 0,
            Stage::Penalty(_) => 1,
            _ => self.n,
        }
    }

    /// The penalty for a token of the history.
    pub open spec fn penalty_ask(self, i: int) -> Ask {
        let score = self.cand[self.history[i] as int].score;
        Ask::Penalise { score, divide: positive(score) }
    }

    /// What comes after the penalty.
    pub open spec fn penalised(self, after: SamplerView, ask: Ask) -> bool {
        if self.cfg.cold() {
            &&& after == self.at(Stage::Idle)
            &&& exists|i: int|
                0 <= i < self.cand.len() && is_best(self.cand, i) && ask == Ask::Done(
                    #[trigger] self.cand[i].id,
                )
        } else {
            after == self.at(Stage::Scale) && ask == Ask::Scale
        }
    }

    /// What comes first.
    pub open spec fn starts(self, logits: Seq<F32Bits>, after: SamplerView, ask: Ask) -> bool {
        if self.cfg.greedy() {
            &&& after == self.at(Stage::Idle)
            &&& exists|i: int| #[trigger] is_argmax(logits, i) && ask == Ask::Done(i as u32)
        } else if self.cfg.penalises() && self.history.len() > 0 {
            &&& after == self.loaded(logits).at(Stage::Penalty(0))
            &&& ask == self.loaded(logits).penalty_ask(0)
        } else {
            self.loaded(logits).penalised(after, ask)
        }
    }

    /// `after` has the candidates that top-k keeps, falling where a nucleus is to be cut,
    /// and the others behind them.
    pub open spec fn filtered(self, after: SamplerView) -> bool {
        let k = self.cfg.keeps(self.n);
        let stage = if self.cfg.cuts() {
            Stage::NucleusSoftmax
        } else {
            Stage::Softmax
        };
        &&& after == (SamplerView { cand: after.cand, n: k, stage, ..self })
        &&& after.cand.len() == self.cand.len()
        &&& after.cand.to_multiset() == self.cand.to_multiset()
        &&& k < self.n ==> forall|i: int, j: int|
            0 <= i < k <= j < after.cand.len() ==> bits::order((#[trigger] after.cand[i]).score)
                >= bits::order((#[trigger] after.cand[j]).score)
        &&& self.cfg.cuts() ==> falling(after.cand, k as int)
        &&& k == self.n && !self.cfg.cuts() ==> after.cand == self.cand
    }

    /// What comes after the numbers that were asked for.
    pub open spec fn answers(self, values: Seq<F32Bits>, after: SamplerView, ask: Ask) -> bool {
        match self.stage {
            Stage::Idle => false,
            Stage::Penalty(i) => {
                let t = self.history[i as int] as int;
                let next = SamplerView {
                    cand: self.cand.update(
                        t,
                        Candidate { id: self.cand[t].id, score: values[0] },
                    ),
                    ..self
                };
                if i + 1 < self.history.len() {
                    &&& after == next.at(Stage::Penalty((i + 1) as usize))
                    &&& ask == next.penalty_ask(i + 1)
                } else {
                    next.penalised(after, ask)
                }
            },
            Stage::Scale => self.rescored(values).filtered(after) && ask == Ask::Softmax,
            Stage::NucleusSoftmax => after == self.rescored(values).at(Stage::NucleusSums) && ask
                == Ask::Sums,
            Stage::NucleusSums => {
                &&& after == (SamplerView { n: after.n, stage: Stage::Renormalise, ..self })
                &&& nucleus(values, self.cfg.top_p, after.n as int)
                &&& ask == Ask::Renormalise
            },
            Stage::Renormalise => after == self.rescored(values).at(Stage::DrawSums) && ask
                == Ask::Sums,
            Stage::Softmax => after == self.rescored(values).at(Stage::DrawSums) && ask
                == Ask::Sums,
            Stage::DrawSums => {
                &&& after == (SamplerView { rng: self.rng.next(), stage: Stage::Idle, ..self })
                &&& exists|r: F32Bits, i: int|
                    rng::is_unit(self.rng, r) && #[trigger] picked(values, r, i) && ask
                        == Ask::Done(self.cand[i].id)
            },
        }
    }
}

/// The last `w` of a sequence, or all of it.
pub open spec fn recent(s: Seq<u32>, w: int) -> Seq<u32> {
    if s.len() > w {
        s.skip(s.len() - w)
    } else {
        s
    }
}

impl Sampler {
    pub fn new(cfg: SamplerConfig, vocab_size: usize) -> (r: Self)
        requires
            vocab_size <= u32::MAX,
        ensures
            r@.wf(),
            r@ == (SamplerView {
                cfg,
                rng: rng::seeded(cfg.seed, DEFAULT_STREAM),
                history: Seq::empty(),
                cand: Seq::new(
                    vocab_size as nat,
                    |i: int| Candidate { id: 0, score: F32Bits(0) },
                ),
                n: vocab_size as nat,
                stage: Stage::Idle,
            }),
    {
        let mut cand: Vec<Candidate> = Vec::with_capacity(vocab_size);
        let mut i: usize = 0;
        while i < vocab_size
            invariant
                i <= vocab_size,
                cand@ == Seq::new(i as nat, |i: int| Candidate { id: 0, score: F32Bits(0) }),
            decreases vocab_size - i,
        {
            cand.push(Candidate { id: 0, score: F32Bits(0) });
            i += 1;
            assert(cand@ =~= Seq::new(i as nat, |i: int| Candidate { id: 0, score: F32Bits(0) }));
        }
        let r = Sampler {
            cfg,
            rng: Pcg32::new(cfg.seed),
            history: Vec::new(),
            cand,
            n: vocab_size,
            stage: Stage::Idle,
        };
        assert(r@.history =~= Seq::empty());
        r
    }

    pub fn config(&self) -> (r: &SamplerConfig)
        ensures
            *r == self@.cfg,
    {
        &self.cfg
    }

    /// Change settings without disturbing the random numbers or the history.
    pub fn set_config(&mut self, cfg: SamplerConfig)
        ensures
            final(self)@ == (SamplerView { cfg, ..old(self)@ }),
    {
        self.cfg = cfg;
    }

    /// Restart: same seed, same sequence, empty history.
    pub fn reset(&mut self)
        ensures
            final(self)@ == (SamplerView {
                rng: rng::seeded(old(self)@.cfg.seed, DEFAULT_STREAM),
                history: Seq::empty(),
                stage: Stage::Idle,
                ..old(self)@
            }),
    {
        self.rng = Pcg32::new(self.cfg.seed);
        self.history = Vec::new();
        self.stage = Stage::Idle;
        assert(self.history@ =~= Seq::empty());
    }

    /// Record a token so that the repetition penalty can see it.  The history keeps as
    /// many tokens as the window has; a window of 0 keeps none.
    pub fn accept(&mut self, token: u32)
        requires
            old(self)@.stage == Stage::Idle,
            old(self)@.history.len() < usize::MAX,
        ensures
            final(self)@ == (SamplerView {
                history: recent(
                    old(self)@.history.push(token),
                    old(self)@.cfg.repetition_window as int,
                ),
                ..old(self)@
            }),
    {
        self.history.push(token);
        let w: usize = self.cfg.repetition_window;
        let len: usize = self.history.len();
        if len > w {
            let all = &self.history;
            let mut kept: Vec<u32> = Vec::with_capacity(w);
            let mut i: usize = len - w;
            while i < len
                invariant
                    w < len,
                    len - w <= i <= len,
                    len == all@.len(),
                    kept@ == all@.subrange(len - w, i as int),
                decreases len - i,
            {
                kept.push(all[i]);
                i += 1;
                assert(kept@ =~= all@.subrange(len - w, i as int));
            }
            assert(kept@ =~= all@.skip(len - w));
            self.history = kept;
        }
    }

    pub fn history(&self) -> (r: &[u32])
        ensures
            r@ == self@.history,
    {
        self.history.as_slice()
    }

    /// The candidates that are left.
    pub fn candidates(&self) -> (r: &[Candidate])
        requires
            self@.wf(),
        ensures
            r@ == self@.cand.take(self@.n as int),
    {
        vstd::slice::slice_subrange(self.cand.as_slice(), 0, self.n)
    }

    fn is_cold(&self) -> (r: bool)
        ensures
            r == self@.cfg.cold(),
    {
        F32Bits(0).is_at_least(self.cfg.temperature)
    }

    /// Ask for the penalty of a token of the history.
    fn ask_penalty(&self, i: usize) -> (r: Ask)
        requires
            i < self@.history.len(),
            self@.in_vocabulary(),
        ensures
            r == self@.penalty_ask(i as int),
    {
        let t: u32 = self.history[i];
        assert(self@.history[i as int] < self@.cand.len());
        let score = self.cand[t as usize].score;
        Ask::Penalise { score, divide: F32Bits(0).is_below(score) }
    }

    /// Go on behind the penalty.
    fn after_penalty(&mut self) -> (r: Ask)
        requires
            old(self)@.cand.len() > 0,
        ensures
            old(self)@.penalised(final(self)@, r),
    {
        if self.is_cold() {
            let best: usize = best_of(&self.cand);
            self.stage = Stage::Idle;
            assert(old(self)@.cand[best as int].id == self.cand@[best as int].id);
            Ask::Done(self.cand[best].id)
        } else {
            self.stage = Stage::Scale;
            Ask::Scale
        }
    }

    /// Begin to pick the next token.  Greedy picking is a path of its own, which builds no
    /// list of candidates.
    pub fn start(&mut self, logits: &[F32Bits]) -> (r: Ask)
        requires
            old(self)@.wf(),
            logits@.len() == old(self)@.cand.len(),
            old(self)@.cfg.greedy() || logits@.len() > 0,
            old(self)@.cfg.penalises() ==> old(self)@.in_vocabulary(),
        ensures
            final(self)@.wf(),
            old(self)@.starts(logits@, final(self)@, r),
    {
        let one = F32Bits(ONE);
        if self.is_cold() && self.cfg.repetition_penalty.is_equal(one) {
            self.stage = Stage::Idle;
            return Ask::Done(argmax(logits));
        }
        let total: usize = logits.len();
        let mut i: usize = 0;
        while i < total
            invariant
                i <= total == logits@.len() == self.cand@.len(),
                total <= u32::MAX,
                self.cfg == old(self).cfg,
                self.rng == old(self).rng,
                self.history == old(self).history,
                self.stage == old(self).stage,
                forall|j: int|
                    0 <= j < i ==> #[trigger] self.cand@[j] == (Candidate {
                        id: j as u32,
                        score: logits@[j],
                    }),
            decreases total - i,
        {
            self.cand.set(i, Candidate { id: i as u32, score: logits[i] });
            i += 1;
        }
        self.n = total;
        assert(self.cand@ =~= old(self)@.loaded(logits@).cand);
        assert(self@ == old(self)@.loaded(logits@));
        if !self.cfg.repetition_penalty.is_equal(one) && self.history.len() > 0 {
            self.stage = Stage::Penalty(0);
            self.ask_penalty(0)
        } else {
            self.after_penalty()
        }
    }

    /// Give the candidates that are left other scores.
    fn rescore(&mut self, values: &[F32Bits])
        requires
            old(self)@.wf(),
            values@.len() == old(self)@.n,
        ensures
            final(self)@ == old(self)@.rescored(values@),
    {
        let ghost before = self.cand@;
        let mut i: usize = 0;
        while i < self.n
            invariant
                i <= self.n == values@.len(),
                self.n <= self.cand@.len() == before.len(),
                before == old(self).cand@,
                self.n == old(self).n,
                self.cfg == old(self).cfg,
                self.rng == old(self).rng,
                self.history == old(self).history,
                self.stage == old(self).stage,
                forall|j: int|
                    0 <= j < before.len() ==> #[trigger] self.cand@[j] == if j < i {
                        Candidate { id: before[j].id, score: values@[j] }
                    } else {
                        before[j]
                    },
            decreases self.n - i,
        {
            let id: u32 = self.cand[i].id;
            self.cand.set(i, Candidate { id, score: values[i] });
            i += 1;
        }
        assert(self.cand@ =~= old(self)@.rescored(values@).cand);
    }

    /// Apply top-k, and put what is left in order where a nucleus is to be cut.
    fn filter(&mut self)
        requires
            old(self)@.n == old(self)@.cand.len(),
            old(self)@.n > 0,
            old(self)@.cfg.keeps(old(self)@.n) < old(self)@.n || old(self)@.cfg.cuts()
                ==> all_numbers(old(self)@.cand),
        ensures
            old(self)@.filtered(final(self)@),
    {
        let ghost before = self.cand@;
        let k: usize = self.cfg.top_k;
        if k > 0 && k < self.n {
            let last: usize = k - 1;
            select(&mut self.cand, last);
            proof {
                before.to_multiset_ensures();
                self.cand@.to_multiset_ensures();
            }
            self.n = k;
        }
        let ghost middle = self.cand@;
        let cuts = self.cfg.top_p.is_below(F32Bits(ONE));
        if cuts {
            proof {
                lemma_numbers_stay(before, middle);
            }
            sort_first(&mut self.cand, self.n);
            proof {
                let n = self.n as int;
                let sorted = self.cand@;
                lemma_first_reordered(middle, sorted, n);
                assert forall|i: int, j: int|
                    n < before.len() && 0 <= i < n <= j < sorted.len() implies bits::order(
                    (#[trigger] sorted[i]).score,
                ) >= bits::order((#[trigger] sorted[j]).score) by {
                    let p = choose|p: int| 0 <= p < n && middle.take(n)[p] == sorted[i];
                    assert(middle[p] == sorted[i]);
                    assert(sorted[j] == middle[j]);
                }
            }
            self.stage = Stage::NucleusSoftmax;
        } else {
            self.stage = Stage::Softmax;
        }
    }

    /// Go on with the numbers that were asked for.
    pub fn reply(&mut self, values: &[F32Bits]) -> (r: Ask)
        requires
            old(self)@.wf(),
            old(self)@.stage != Stage::Idle,
            values@.len() == old(self)@.asked(),
            old(self)@.stage == Stage::Scale && (old(self)@.cfg.keeps(old(self)@.n) < old(self)@.n
                || old(self)@.cfg.cuts()) ==> forall|i: int|
                0 <= i < values@.len() ==> !bits::is_nan(#[trigger] values@[i]),
        ensures
            final(self)@.wf(),
            old(self)@.answers(values@, final(self)@, r),
    {
        match self.stage {
            Stage::Idle => Ask::Done(0),
            Stage::Penalty(i) => {
                let t: usize = self.history[i] as usize;
                assert(self@.history[i as int] < self@.cand.len());
                let id: u32 = self.cand[t].id;
                self.cand.set(t, Candidate { id, score: values[0] });
                let last: usize = self.history.len() - 1;
                if i < last {
                    self.stage = Stage::Penalty(i + 1);
                    self.ask_penalty(i + 1)
                } else {
                    self.after_penalty()
                }
            },
            Stage::Scale => {
                self.rescore(values);
                self.filter();
                Ask::Softmax
            },
            Stage::NucleusSoftmax => {
                self.rescore(values);
                self.stage = Stage::NucleusSums;
                Ask::Sums
            },
            Stage::NucleusSums => {
                self.n = nucleus_of(values, self.cfg.top_p);
                self.stage = Stage::Renormalise;
                Ask::Renormalise
            },
            Stage::Renormalise => {
                self.rescore(values);
                self.stage = Stage::DrawSums;
                Ask::Sums
            },
            Stage::Softmax => {
                self.rescore(values);
                self.stage = Stage::DrawSums;
                Ask::Sums
            },
            Stage::DrawSums => {
                let r = self.rng.next_f32();
                let i: usize = pick(values, r);
                self.stage = Stage::Idle;
                assert(picked(values@, r, i as int));
                Ask::Done(self.cand[i].id)
            },
        }
    }
}

/// A reordering has the same scores.
proof fn lemma_numbers_stay(before: Seq<Candidate>, after: Seq<Candidate>)
    requires
        all_numbers(before),
        after.to_multiset() == before.to_multiset(),
    ensures
        all_numbers(after),
{
    before.to_multiset_ensures();
    after.to_multiset_ensures();
    assert forall|i: int| 0 <= i < after.len() implies !bits::is_nan(
        (#[trigger] after[i]).score,
    ) by {
        assert(after.contains(after[i]));
        assert(after.to_multiset().count(after[i]) > 0);
        assert(before.contains(after[i]));
    }
}

/// Reordering the first part keeps it the first part of the whole.
proof fn lemma_first_reordered(before: Seq<Candidate>, after: Seq<Candidate>, n: int)
    requires
        0 <= n <= before.len(),
        after.len() == before.len(),
        after.take(n).to_multiset() == before.take(n).to_multiset(),
        after.skip(n) == before.skip(n),
    ensures
        after.to_multiset() == before.to_multiset(),
        forall|i: int| 0 <= i < n ==> before.take(n).contains(#[trigger] after[i]),
        forall|i: int| n <= i < after.len() ==> #[trigger] after[i] == before[i],
{
    assert(after =~= after.take(n) + after.skip(n));
    assert(before =~= before.take(n) + before.skip(n));
    vstd::seq_lib::lemma_multiset_commutative(after.take(n), after.skip(n));
    vstd::seq_lib::lemma_multiset_commutative(before.take(n), before.skip(n));
    after.take(n).to_multiset_ensures();
    before.take(n).to_multiset_ensures();
    assert forall|i: int| 0 <= i < n implies before.take(n).contains(#[trigger] after[i]) by {
        assert(after.take(n)[i] == after[i]);
        assert(after.take(n).to_multiset().count(after[i]) > 0);
    }
    assert forall|i: int| n <= i < after.len() implies #[trigger] after[i] == before[i] by {
        assert(after.skip(n)[i - n] == before.skip(n)[i - n]);
    }
}

/// Every candidate is a token of the vocabulary.
pub open spec fn are_tokens(cand: Seq<Candidate>) -> bool {
    forall|i: int| 0 <= i < cand.len() ==> (#[trigger] cand[i]).id < cand.len()
}

/// The candidates that a draw begins with are tokens of the vocabulary.
pub proof fn law_draws_begin_with_tokens(v: SamplerView, logits: Seq<F32Bits>)
    requires
        logits.len() <= u32::MAX,
    ensures
        are_tokens(v.loaded(logits).cand),
{
}

/// Candidates stay tokens of the vocabulary, and what is picked is one that the filters
/// left.
pub proof fn law_picks_survived_the_filters(
    v: SamplerView,
    values: Seq<F32Bits>,
    after: SamplerView,
    ask: Ask,
)
    requires
        v.wf(),
        are_tokens(v.cand),
        values.len() == v.asked(),
        v.answers(values, after, ask),
    ensures
        after.cand.len() == v.cand.len(),
        are_tokens(after.cand),
        after.n <= v.n,
        after.n >= 1,
        ask matches Ask::Done(id) ==> id < v.cand.len() && exists|i: int|
            0 <= i < after.n && (#[trigger] after.cand[i]).id == id,
{
    match v.stage {
        Stage::Scale => {
            let r = v.rescored(values);
            r.cand.to_multiset_ensures();
            after.cand.to_multiset_ensures();
            assert(are_tokens(r.cand));
            assert forall|i: int| 0 <= i < after.cand.len() implies (#[trigger] after.cand[i]).id
                < after.cand.len() by {
                assert(after.cand.contains(after.cand[i]));
                assert(after.cand.to_multiset().count(after.cand[i]) > 0);
                assert(r.cand.contains(after.cand[i]));
            }
        },
        Stage::DrawSums => {
            let (r, i) = choose|r: F32Bits, i: int|
                rng::is_unit(v.rng, r) && #[trigger] picked(values, r, i) && ask == Ask::Done(
                    v.cand[i].id,
                );
            assert(after.cand[i].id == v.cand[i].id);
        },
        Stage::Penalty(i) => {
            let t = v.history[i as int] as int;
            assert(v.history[i as int] < v.cand.len());
            if i + 1 >= v.history.len() && v.cfg.cold() {
                let b = choose|b: int|
                    0 <= b < after.cand.len() && is_best(after.cand, b) && ask == Ask::Done(
                        #[trigger] after.cand[b].id,
                    );
                assert(after.cand[b].id < after.cand.len());
            }
        },
        _ => {},
    }
}

/// Top-k leaves at most `k`, and none that was left out scores higher than one that was
/// kept.
pub proof fn law_top_k_keeps_the_best(v: SamplerView, after: SamplerView, i: int, j: int)
    requires
        v.filtered(after),
        0 < v.cfg.top_k < v.n,
        0 <= i < after.n,
        after.n <= j < after.cand.len(),
    ensures
        after.n == v.cfg.top_k,
        bits::order(after.cand[i].score) >= bits::order(after.cand[j].score),
{
}

/// A draw does not depend on what earlier draws left behind: with the same settings,
/// random numbers and history it begins the same.
pub proof fn law_draws_do_not_look_back(a: SamplerView, b: SamplerView, logits: Seq<F32Bits>)
    requires
        a.cfg == b.cfg,
        a.rng == b.rng,
        a.history == b.history,
    ensures
        a.loaded(logits).at(Stage::Idle) == b.loaded(logits).at(Stage::Idle),
{
}

/// The history never grows beyond the window, and ends with the token just accepted,
/// unless the window is 0.
pub proof fn law_history_is_bounded(history: Seq<u32>, token: u32, cfg: SamplerConfig)
    ensures
        ({
            let kept = recent(history.push(token), cfg.repetition_window as int);
            &&& kept.len() <= cfg.repetition_window
            &&& cfg.repetition_window > 0 ==> kept.len() > 0 && kept.last() == token
        }),
{
}

/// The history keeps the most recent tokens, in order: as many as the window has, or all
/// where there are no more.
pub proof fn law_history_keeps_the_most_recent(
    history: Seq<u32>,
    token: u32,
    cfg: SamplerConfig,
    back: int,
)
    requires
        0 <= back < cfg.repetition_window,
        back <= history.len(),
    ensures
        ({
            let kept = recent(history.push(token), cfg.repetition_window as int);
            &&& kept.len() == (if history.len() + 1 <= cfg.repetition_window {
                history.len() as int + 1
            } else {
                cfg.repetition_window as int
            })
            &&& kept[kept.len() - 1 - back] == (if back == 0 {
                token
            } else {
                history[history.len() - back]
            })
        }),
{
}

} // verus!
