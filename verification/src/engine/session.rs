//! What one conversation keeps between its steps.
use super::stream;
use super::stream::TextStream;
use crate::bits::F64Bits;
use crate::gguf::ModelConfig;
use crate::sample::sampler;
use crate::sample::sampler::{Sampler, SamplerView, Stage};
use crate::text;
use crate::tokenizer::bpe;
use crate::tokenizer::bpe::Tokenizer;
use vstd::arithmetic::power2::*;
use vstd::prelude::*;
use vstd::utf8::*;

verus! {

/// How many recent steps the live throughput averages over.
pub const ROLLING_WINDOW: usize = 16;

/// The least length of a cache.
pub const MIN_SEQ: usize = 16;

/// The length of a cache that was asked for, at least [`MIN_SEQ`] and at most the model's
/// context.
pub fn clamp_seq(max_seq: usize, context_length: usize) -> (r: usize)
    requires
        context_length >= MIN_SEQ,
    ensures
        r == if max_seq < MIN_SEQ {
            MIN_SEQ
        } else if max_seq > context_length {
            context_length
        } else {
            max_seq
        },
        MIN_SEQ <= r <= context_length,
        max_seq <= 16 ==> r == 16,
        16 <= max_seq <= context_length ==> r == max_seq,
{
    if max_seq < MIN_SEQ {
        MIN_SEQ
    } else if max_seq > context_length {
        context_length
    } else {
        max_seq
    }
}

/// Why a step cannot be taken.
#[derive(Debug, Clone, Copy, PartialEq, Eq, Structural)]
pub enum StepError {
    EmptyPrompt,
    PromptTooLong,
    NothingPrefilled,
}

impl StepError {
    /// The message for people.
    pub open spec fn spec_message(self) -> Seq<char> {
        match self {
            StepError::EmptyPrompt => "prefill needs at least one token"@,
            StepError::PromptTooLong => "prompt does not fit in the KV cache"@,
            StepError::NothingPrefilled => "call prefill() before decode_step()"@,
        }
    }

    /// The message for people.
    pub fn message(self) -> (r: &'static str)
        ensures
            r@ == self.spec_message(),
    {
        match self {
            StepError::EmptyPrompt => "prefill needs at least one token",
            StepError::PromptTooLong => "prompt does not fit in the KV cache",
            StepError::NothingPrefilled => "call prefill() before decode_step()",
        }
    }
}

/// Whether a prompt of `n` tokens can go behind `len` positions of a cache of `max_seq`.
pub fn check_prefill(n: usize, len: usize, max_seq: usize) -> (r: Result<(), StepError>)
    requires
        len <= max_seq,
    ensures
        match r {
            Ok(()) => 0 < n && len + n <= max_seq,
            Err(StepError::EmptyPrompt) => n == 0,
            Err(StepError::PromptTooLong) => 0 < n && len + n > max_seq,
            Err(StepError::NothingPrefilled) => false,
        },
{
    if n == 0 {
        return Err(StepError::EmptyPrompt);
    }
    if n > max_seq - len {
        return Err(StepError::PromptTooLong);
    }
    Ok(())
}

/// Whether a token can be picked: only behind a prompt.
pub fn check_decode(len: usize) -> (r: Result<(), StepError>)
    ensures
        match r {
            Ok(()) => len > 0,
            Err(e) => len == 0 && e == StepError::NothingPrefilled,
        },
{
    if len == 0 {
        Err(StepError::NothingPrefilled)
    } else {
        Ok(())
    }
}

/// Counters of a conversation.
#[derive(Debug, Clone, Copy, PartialEq, Eq, Structural)]
pub struct Counters {
    pub prefill_tokens: u32,
    pub decode_tokens: u32,
    /// Where the duration of the next step goes.
    pub recent_at: usize,
    /// How many durations are held.
    pub recent_len: usize,
}

/// What to note of a step.
#[derive(Debug, Clone, Copy, PartialEq, Eq, Structural)]
pub struct StepNote {
    /// Where its duration goes.
    pub slot: usize,
    /// It gave the first token since the start.
    pub first: bool,
}

impl Counters {
    /// Nothing has happened.
    pub open spec fn spec_zero() -> Counters {
        Counters { prefill_tokens: 0, decode_tokens: 0, recent_at: 0, recent_len: 0 }
    }

    pub fn zero() -> (r: Self)
        ensures
            r == Counters::spec_zero(),
    {
        Counters { prefill_tokens: 0, decode_tokens: 0, recent_at: 0, recent_len: 0 }
    }

    pub open spec fn wf(self) -> bool {
        &&& self.recent_at < ROLLING_WINDOW
        &&& self.recent_len <= ROLLING_WINDOW
    }

    /// The counters after one step.
    pub open spec fn stepped(self) -> Counters {
        Counters {
            decode_tokens: (self.decode_tokens + 1) as u32,
            recent_at: ((self.recent_at + 1) % ROLLING_WINDOW as int) as usize,
            recent_len: if self.recent_len < ROLLING_WINDOW {
                (self.recent_len + 1) as usize
            } else {
                ROLLING_WINDOW
            },
            ..self
        }
    }

    /// The counters after `n` steps.
    pub open spec fn after(self, n: nat) -> Counters
        decreases n,
    {
        if n == 0 {
            self
        } else {
            self.after((n - 1) as nat).stepped()
        }
    }

    /// Count a prompt.
    pub fn count_prefill(&mut self, n: usize)
        requires
            old(self).prefill_tokens + n <= u32::MAX,
        ensures
            *final(self) == (Counters {
                prefill_tokens: (old(self).prefill_tokens + n) as u32,
                ..*old(self)
            }),
    {
        self.prefill_tokens = self.prefill_tokens + n as u32;
    }

    /// Count a step.
    pub fn count_step(&mut self) -> (r: StepNote)
        requires
            old(self).wf(),
            old(self).decode_tokens < u32::MAX,
        ensures
            final(self).wf(),
            *final(self) == old(self).stepped(),
            r.slot == old(self).recent_at,
            r.first == (old(self).decode_tokens == 0),
    {
        let slot: usize = self.recent_at;
        let first = self.decode_tokens == 0;
        self.decode_tokens = self.decode_tokens + 1;
        self.recent_at = (slot + 1) % ROLLING_WINDOW;
        if self.recent_len < ROLLING_WINDOW {
            self.recent_len = self.recent_len + 1;
        }
        StepNote { slot, first }
    }
}

/// After `n` steps from the start, the last ones, up to sixteen, are in the window: step `i` in
/// slot `i` modulo sixteen.
pub proof fn law_the_window_holds_the_last_steps(n: nat)
    requires
        n <= u32::MAX,
    ensures
        Counters::spec_zero().after(n) == (Counters {
            prefill_tokens: 0,
            decode_tokens: n as u32,
            recent_at: (n % 16) as usize,
            recent_len: if n < 16 {
                n as usize
            } else {
                16
            },
        }),
    decreases n,
{
    if n > 0 {
        law_the_window_holds_the_last_steps((n - 1) as nat);
    }
}

/// What a picked token means for the conversation.
#[derive(Debug, PartialEq, Eq)]
pub struct Taken {
    /// The text that is complete with it.
    pub text: String,
    /// It ends the conversation.
    pub is_eos: bool,
    /// The position at which it is run, if it is.
    pub feed: Option<usize>,
}

/// A conversation: the tokens seen, the text not yet complete, and the counters.
#[derive(Debug)]
pub struct Session<'a> {
    pub tokenizer: Tokenizer<'a>,
    pub sampler: Sampler,
    pub stream: TextStream,
    pub counters: Counters,
    /// The token that ends a conversation.
    pub eos: Option<u32>,
}

/// The history after more tokens.
pub open spec fn accepted(v: SamplerView, tokens: Seq<u32>, n: nat) -> SamplerView
    decreases n,
{
    if n == 0 {
        v
    } else {
        let before = accepted(v, tokens, (n - 1) as nat);
        SamplerView {
            history: sampler::recent(
                before.history.push(tokens[n - 1]),
                before.cfg.repetition_window as int,
            ),
            ..before
        }
    }
}

proof fn lemma_accepted_keeps(v: SamplerView, tokens: Seq<u32>, n: nat)
    requires
        v.history.len() < usize::MAX,
    ensures
        accepted(v, tokens, n).stage == v.stage,
        accepted(v, tokens, n).cfg == v.cfg,
        accepted(v, tokens, n).history.len() <= v.history.len() + n,
    decreases n,
{
    if n > 0 {
        lemma_accepted_keeps(v, tokens, (n - 1) as nat);
    }
}

/// After more tokens, the history is the last of it and them in a row, as many as the window
/// has; and nothing else of the sampler has changed.
pub proof fn law_the_history_is_the_last_tokens(v: SamplerView, tokens: Seq<u32>, n: nat)
    requires
        n <= tokens.len(),
        v.history.len() <= v.cfg.repetition_window,
    ensures
        ({
            let all = v.history + tokens.take(n as int);
            let w = v.cfg.repetition_window as int;
            &&& accepted(v, tokens, n).history == (if all.len() <= w {
                all
            } else {
                all.skip(all.len() - w)
            })
            &&& accepted(v, tokens, n) == (SamplerView {
                history: accepted(v, tokens, n).history,
                ..v
            })
        }),
    decreases n,
{
    let w = v.cfg.repetition_window as int;
    let all = v.history + tokens.take(n as int);
    if n == 0 {
        assert(all =~= v.history);
    } else {
        law_the_history_is_the_last_tokens(v, tokens, (n - 1) as nat);
        let before = v.history + tokens.take(n - 1);
        assert(all =~= before.push(tokens[n - 1]));
        let kept = accepted(v, tokens, (n - 1) as nat).history;
        let more = kept.push(tokens[n - 1]);
        if all.len() <= w {
            assert(accepted(v, tokens, n).history =~= all);
        } else {
            assert(accepted(v, tokens, n).history =~= all.skip(all.len() - w)) by {
                if before.len() <= w {
                    assert(more =~= all);
                } else {
                    assert(more =~= all.skip(before.len() - w));
                }
            }
        }
    }
}

impl<'a> Session<'a> {
    /// A new conversation.
    pub fn new(tokenizer: Tokenizer<'a>, sampler: Sampler, eos: Option<u32>) -> (r: Self)
        ensures
            r.tokenizer == tokenizer,
            r.sampler == sampler,
            r.stream@.len() == 0,
            r.counters == Counters::spec_zero(),
            r.eos == eos,
    {
        Session { tokenizer, sampler, stream: TextStream::new(), counters: Counters::zero(), eos }
    }

    /// Note the tokens of a prompt that has been run.
    pub fn prefilled(&mut self, tokens: &[u32])
        requires
            old(self).sampler@.stage == Stage::Idle,
            old(self).sampler@.history.len() + tokens@.len() < usize::MAX,
            old(self).counters.prefill_tokens + tokens@.len() <= u32::MAX,
        ensures
            final(self).sampler@ == accepted(old(self).sampler@, tokens@, tokens@.len()),
            final(self).counters == (Counters {
                prefill_tokens: (old(self).counters.prefill_tokens + tokens@.len()) as u32,
                ..old(self).counters
            }),
            final(self).stream == old(self).stream,
            final(self).tokenizer == old(self).tokenizer,
            final(self).eos == old(self).eos,
    {
        let mut i: usize = 0;
        while i < tokens.len()
            invariant
                i <= tokens@.len(),
                old(self).sampler@.stage == Stage::Idle,
                old(self).sampler@.history.len() + tokens@.len() < usize::MAX,
                self.sampler@ == accepted(old(self).sampler@, tokens@, i as nat),
                self.counters == old(self).counters,
                self.stream == old(self).stream,
                self.tokenizer == old(self).tokenizer,
                self.eos == old(self).eos,
            decreases tokens.len() - i,
        {
            proof {
                lemma_accepted_keeps(old(self).sampler@, tokens@, i as nat);
            }
            self.sampler.accept(tokens[i]);
            i += 1;
        }
        self.counters.count_prefill(tokens.len());
    }

    /// Note a picked token.  It is run next, unless it ends the conversation or the cache
    /// is full.
    pub fn take(&mut self, token: u32, len: usize, max_seq: usize) -> (r: Taken)
        requires
            old(self).sampler@.stage == Stage::Idle,
            old(self).sampler@.history.len() < usize::MAX,
            old(self).stream@.len() + bpe::decoded(
                old(self).tokenizer@,
                seq![token],
                true,
            ).len() <= usize::MAX,
        ensures
            final(self).sampler@ == accepted(old(self).sampler@, seq![token], 1),
            final(self).tokenizer == old(self).tokenizer,
            final(self).eos == old(self).eos,
            final(self).counters == old(self).counters,
            r.is_eos == (old(self).eos == Some(token)),
            r.feed == if !r.is_eos && len < max_seq {
                Some(len)
            } else {
                None
            },
            ({
                let all = old(self).stream@ + bpe::decoded(
                    old(self).tokenizer@,
                    seq![token],
                    true,
                );
                if r.is_eos {
                    r.text@.len() == 0 && final(self).stream == old(self).stream
                } else {
                    &&& encode_utf8(r.text@) == all.take(stream::text_len(all) as int)
                    &&& final(self).stream@ == stream::held_back(all)
                }
            }),
    {
        let is_eos = match self.eos {
            Some(e) => e == token,
            None => false,
        };
        proof {
            reveal_with_fuel(accepted, 2);
        }
        self.sampler.accept(token);
        let text = if is_eos {
            String::new()
        } else {
            let ids: [u32; 1] = [token];
            assert(ids@ =~= seq![token]);
            let bytes = self.tokenizer.decode_bytes(ids.as_slice(), true);
            self.stream.push(bytes.as_slice())
        };
        let feed: Option<usize> = if !is_eos && len < max_seq {
            Some(len)
        } else {
            None
        };
        Taken { text, is_eos, feed }
    }

    /// Start again.
    pub fn reset(&mut self)
        ensures
            final(self).sampler@ == (SamplerView {
                rng: crate::sample::rng::seeded(
                    old(self).sampler@.cfg.seed,
                    crate::sample::rng::DEFAULT_STREAM,
                ),
                history: Seq::empty(),
                stage: Stage::Idle,
                ..old(self).sampler@
            }),
            final(self).stream@.len() == 0,
            final(self).counters == Counters::spec_zero(),
            final(self).tokenizer == old(self).tokenizer,
            final(self).eos == old(self).eos,
    {
        self.sampler.reset();
        self.stream.clear();
        self.counters = Counters::zero();
    }
}

/// The largest seed that survives a trip through a double.
pub const MAX_SEED: u64 = 9_007_199_254_740_991;

/// The seed that a double stands for: its whole part, at most [`MAX_SEED`]; 0 where it is
/// negative, infinite or not a number.
pub open spec fn seed_of(x: u64) -> nat {
    if x >= 0x7ff0_0000_0000_0000 {
        0
    } else {
        let whole = crate::bits::f64_units(x as nat) / pow2(1074);
        if whole <= MAX_SEED {
            whole
        } else {
            MAX_SEED as nat
        }
    }
}

/// The seed that a double stands for.
pub fn seed_from(x: F64Bits) -> (r: u64)
    ensures
        r == seed_of(x.0),
{
    // Infinities, what is not a number, and everything negative.
    if x.0 >= 0x7ff0_0000_0000_0000 {
        return 0;
    }
    let e: u64 = x.0 / 0x10_0000_0000_0000;
    let m: u64 = x.0 % 0x10_0000_0000_0000;
    let ghost units = crate::bits::f64_units(x.0 as nat);
    if e < 1023 {
        // Below 1.
        proof {
            lemma_pow2_pos(1074);
            lemma2_to64();
            lemma2_to64_rest();
            if e == 0 {
                lemma_pow2_strictly_increases(52, 1074);
            } else {
                lemma_pow2_adds(53, (e - 1) as nat);
                lemma_pow2_pos((e - 1) as nat);
                let p = pow2((e - 1) as nat);
                assert((0x10_0000_0000_0000 + m) * p < 0x20_0000_0000_0000 * p) by (nonlinear_arith)
                    requires
                        m < 0x10_0000_0000_0000,
                        p > 0,
                ;
                if e < 1022 {
                    lemma_pow2_strictly_increases((52 + e) as nat, 1074);
                }
            }
            vstd::arithmetic::div_mod::lemma_basic_div(units as int, pow2(1074) as int);
        }
        return 0;
    }
    let s: u64 = m + 0x10_0000_0000_0000;
    if e >= 1076 {
        // At least 2^53.
        proof {
            lemma2_to64();
            lemma2_to64_rest();
            let k = (e - 1075) as nat;
            lemma_pow2_adds(k, 1074);
            lemma_pow2_pos(1074);
            lemma_pow2_pos(k);
            lemma_pow2_unfold(k);
            lemma_pow2_pos((k - 1) as nat);
            let q = pow2(1074) as int;
            let p = pow2(k) as int;
            assert(s * (p * q) == (s * p) * q) by (nonlinear_arith);
            vstd::arithmetic::div_mod::lemma_div_multiples_vanish(s * p, q);
            assert(q * (s * p) == (s * p) * q) by (nonlinear_arith);
            assert(s * p >= 0x20_0000_0000_0000) by (nonlinear_arith)
                requires
                    s >= 0x10_0000_0000_0000,
                    p >= 2,
            ;
        }
        return MAX_SEED;
    }
    // Between 1 and 2^53: the significand without its fractional bits.
    let drop: u64 = 1075 - e;
    let mut d: u64 = 1;
    let mut i: u64 = 0;
    proof {
        lemma2_to64();
    }
    while i < drop
        invariant
            i <= drop <= 52,
            d == pow2(i as nat),
        decreases drop - i,
    {
        proof {
            lemma2_to64();
            lemma2_to64_rest();
            lemma_pow2_unfold((i + 1) as nat);
            if i < 52 {
                lemma_pow2_strictly_increases(i as nat, 52);
            }
        }
        d = 2 * d;
        i += 1;
    }
    proof {
        lemma_pow2_pos((e - 1) as nat);
        lemma_pow2_pos(drop as nat);
        lemma_pow2_adds((e - 1) as nat, drop as nat);
        let p = pow2((e - 1) as nat) as int;
        vstd::arithmetic::div_mod::lemma_div_denominator(s * p, p, d as int);
        vstd::arithmetic::div_mod::lemma_div_multiples_vanish(s as int, p);
        assert(p * s == s * p) by (nonlinear_arith);
    }
    s / d
}

/// A one-line description of a model.
pub open spec fn description_of(c: ModelConfig) -> Seq<char> {
    c.architecture@ + " \u{b7} "@ + text::decimal(c.block_count as nat) + " layers \u{b7} d="@
        + text::decimal(c.embedding_length as nat) + " \u{b7} "@ + text::decimal(
        c.head_count as nat,
    ) + " heads / "@ + text::decimal(c.head_count_kv as nat) + " kv \u{b7} vocab "@
        + text::decimal(c.vocab_size as nat)
}

/// A one-line description of a model.
pub fn description(c: &ModelConfig) -> (r: String)
    ensures
        r@ == description_of(*c),
{
    let mut s = c.architecture.as_str().to_owned();
    s.push_str(" \u{b7} ");
    text::push_decimal(&mut s, c.block_count as u128);
    s.push_str(" layers \u{b7} d=");
    text::push_decimal(&mut s, c.embedding_length as u128);
    s.push_str(" \u{b7} ");
    text::push_decimal(&mut s, c.head_count as u128);
    s.push_str(" heads / ");
    text::push_decimal(&mut s, c.head_count_kv as u128);
    s.push_str(" kv \u{b7} vocab ");
    text::push_decimal(&mut s, c.vocab_size as u128);
    s
}

/// Whether a model has a layer and a head.
pub fn has_head(c: &ModelConfig, layer: u32, head: u32) -> (r: bool)
    ensures
        r == (layer < c.block_count && head < c.head_count),
{
    (layer as u64) < c.block_count as u64 && (head as u64) < c.head_count as u64
}

/// A seed is the whole part of a double, as far as doubles count one by one.
pub proof fn law_seeds_are_whole_parts(x: u64, whole: nat, part: nat)
    requires
        x < 0x7ff0_0000_0000_0000,
        crate::bits::f64_units(x as nat) == whole * pow2(1074) + part,
        part < pow2(1074),
    ensures
        seed_of(x) == if whole < 0x20_0000_0000_0000 {
            whole
        } else {
            0x1f_ffff_ffff_ffff
        },
{
    let q = pow2(1074) as int;
    let units = crate::bits::f64_units(x as nat) as int;
    assert(units == q * whole + part) by (nonlinear_arith)
        requires
            units == whole * q + part,
    ;
    vstd::arithmetic::div_mod::lemma_fundamental_div_mod_converse(
        units,
        q,
        whole as int,
        part as int,
    );
}

/// No seed comes of a double that is negative, infinite or not a number.
pub proof fn law_other_doubles_are_no_seeds(x: u64)
    requires
        x >= 0x7ff0_0000_0000_0000,
    ensures
        seed_of(x) == 0,
{
}

} // verus!
