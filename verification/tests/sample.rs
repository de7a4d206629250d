//! Drawing tokens.
use nano_infer::bits::F32Bits;
use nano_infer::sample::sampler::Ask;
use nano_infer::sample::{argmax, Pcg32, Sampler, SamplerConfig};

fn bits(x: f32) -> F32Bits {
    F32Bits(x.to_bits())
}

fn all_bits(xs: &[f32]) -> Vec<F32Bits> {
    xs.iter().map(|x| bits(*x)).collect()
}

fn best(logits: &[f32]) -> u32 {
    argmax(&all_bits(logits))
}

fn unit(r: &mut Pcg32) -> f32 {
    f32::from_bits(r.next_f32().0)
}

/// A sampler's settings in floating point.
#[derive(Clone, Copy)]
struct Settings {
    temperature: f32,
    top_k: usize,
    top_p: f32,
    repetition_penalty: f32,
    repetition_window: usize,
    seed: u64,
}

impl Settings {
    fn patterns(&self) -> SamplerConfig {
        SamplerConfig {
            temperature: bits(self.temperature),
            top_k: self.top_k,
            top_p: bits(self.top_p),
            repetition_penalty: bits(self.repetition_penalty),
            repetition_window: self.repetition_window,
            seed: self.seed,
        }
    }
}

/// A sampler with the arithmetic that it asks for.
struct Picker {
    sampler: Sampler,
    settings: Settings,
}

fn softmax(xs: &mut [f32]) {
    let max = xs.iter().fold(f32::NEG_INFINITY, |a, x| a.max(*x));
    if !max.is_finite() {
        xs.fill(0.0);
        return;
    }
    let mut sum = 0.0f32;
    for x in xs.iter_mut() {
        *x = (*x - max).exp();
        sum += *x;
    }
    let inv = 1.0 / sum;
    for x in xs.iter_mut() {
        *x *= inv;
    }
}

impl Picker {
    fn new(settings: Settings, vocab: usize) -> Self {
        Picker { sampler: Sampler::new(settings.patterns(), vocab), settings }
    }

    fn scores(&self) -> Vec<f32> {
        self.sampler
            .candidates()
            .iter()
            .map(|c| f32::from_bits(c.score.0))
            .collect()
    }

    fn sample(&mut self, logits: &[f32]) -> u32 {
        let mut ask = self.sampler.start(&all_bits(logits));
        loop {
            let mut xs = self.scores();
            match ask {
                Ask::Done(id) => return id,
                Ask::Penalise { score, divide } => {
                    let x = f32::from_bits(score.0);
                    let p = self.settings.repetition_penalty;
                    xs = vec![if divide { x / p } else { x * p }];
                }
                Ask::Scale => {
                    let inv = 1.0 / self.settings.temperature;
                    xs.iter_mut().for_each(|x| *x *= inv);
                }
                Ask::Softmax => softmax(&mut xs),
                Ask::Sums => {
                    let mut sum = 0.0;
                    for x in xs.iter_mut() {
                        sum += *x;
                        *x = sum;
                    }
                }
                Ask::Renormalise => {
                    let total: f32 = xs.iter().sum();
                    if total > 0.0 {
                        xs.iter_mut().for_each(|x| *x /= total);
                    }
                }
            }
            ask = self.sampler.reply(&all_bits(&xs));
        }
    }

    fn accept(&mut self, token: u32) {
        self.sampler.accept(token);
    }

    fn history(&self) -> &[u32] {
        self.sampler.history()
    }

    fn reset(&mut self) {
        self.sampler.reset();
    }

    fn set_config(&mut self, settings: Settings) {
        self.settings = settings;
        self.sampler.set_config(settings.patterns());
    }
}

fn cfg() -> Settings {
    Settings {
        temperature: 0.0,
        top_k: 0,
        top_p: 1.0,
        repetition_penalty: 1.0,
        repetition_window: 64,
        seed: 0,
    }
}

fn sampler_over(logits: &[f32], c: Settings) -> (Picker, Vec<f32>) {
    (Picker::new(c, logits.len()), logits.to_vec())
}

#[test]
fn pcg32_is_reproducible_and_stream_stable() {
    let a: Vec<u32> = (0..8)
        .scan(Pcg32::new(42), |r, _| Some(r.next_u32()))
        .collect();
    let b: Vec<u32> = (0..8)
        .scan(Pcg32::new(42), |r, _| Some(r.next_u32()))
        .collect();
    assert_eq!(a, b, "same seed must give the same stream");

    let c: Vec<u32> = (0..8)
        .scan(Pcg32::new(43), |r, _| Some(r.next_u32()))
        .collect();
    assert_ne!(a, c, "different seeds must give different streams");
}

#[test]
fn pcg32_floats_stay_in_range() {
    let mut r = Pcg32::new(7);
    let mut lo = f32::INFINITY;
    let mut hi = f32::NEG_INFINITY;
    for _ in 0..200_000 {
        let v = unit(&mut r);
        assert!((0.0..1.0).contains(&v), "{v} out of range");
        lo = lo.min(v);
        hi = hi.max(v);
    }
    assert!(lo < 0.001 && hi > 0.999, "poor coverage: {lo}..{hi}");
}

#[test]
fn pcg32_is_roughly_uniform() {
    let mut r = Pcg32::new(99);
    let mut buckets = [0usize; 16];
    let n = 160_000;
    for _ in 0..n {
        buckets[(unit(&mut r) * 16.0) as usize % 16] += 1;
    }
    let expect = n as f64 / 16.0;
    for (i, &b) in buckets.iter().enumerate() {
        let dev = (b as f64 - expect).abs() / expect;
        assert!(dev < 0.05, "bucket {i}: {b} deviates {dev:.3} from uniform");
    }
}


#[test]
fn temperature_zero_is_greedy() {
    let logits = [0.1f32, 3.0, -1.0, 2.9];
    let (mut s, l) = sampler_over(&logits, cfg());
    for _ in 0..10 {
        assert_eq!(s.sample(&l), 1);
    }
    assert_eq!(best(&logits), 1);
}

#[test]
fn argmax_breaks_ties_towards_the_lowest_index() {
    assert_eq!(best(&[1.0, 1.0, 1.0]), 0);
    assert_eq!(best(&[0.0, 5.0, 5.0]), 1);
}

#[test]
fn top_k_of_one_is_greedy() {
    let logits = [1.0f32, 4.0, 2.0, 3.0];
    let c = Settings {
        temperature: 1.0,
        top_k: 1,
        ..cfg()
    };
    let (mut s, l) = sampler_over(&logits, c);
    for _ in 0..20 {
        assert_eq!(s.sample(&l), 1);
    }
}

#[test]
fn tiny_top_p_collapses_to_greedy() {
    let logits = [1.0f32, 8.0, 2.0, 3.0];
    let c = Settings {
        temperature: 1.0,
        top_p: 1e-6,
        ..cfg()
    };
    let (mut s, l) = sampler_over(&logits, c);
    for _ in 0..20 {
        assert_eq!(s.sample(&l), 1);
    }
}


#[test]
fn top_p_cuts_where_the_cumulative_sum_crosses() {
    let probs = [0.5f32, 0.25, 0.125, 0.125];
    let logits: Vec<f32> = probs.iter().map(|p| p.ln()).collect();

    let c = Settings {
        temperature: 1.0,
        top_p: 0.4,
        seed: 1,
        ..cfg()
    };
    let mut s = Picker::new(c, 4);
    for _ in 0..50 {
        assert_eq!(s.sample(&logits), 0);
    }

    let c = Settings {
        temperature: 1.0,
        top_p: 0.7,
        seed: 1,
        ..cfg()
    };
    let mut s = Picker::new(c, 4);
    let mut seen = [false; 4];
    for _ in 0..500 {
        seen[s.sample(&logits) as usize] = true;
    }
    assert!(seen[0] && seen[1], "both survivors should appear");
    assert!(
        !seen[2] && !seen[3],
        "tokens outside the nucleus must never appear"
    );
}

#[test]
fn top_k_restricts_the_candidate_set() {
    let logits = [0.0f32, 1.0, 2.0, 3.0, 4.0];
    let c = Settings {
        temperature: 2.0,
        top_k: 2,
        seed: 5,
        ..cfg()
    };
    let mut s = Picker::new(c, 5);
    let mut seen = [false; 5];
    for _ in 0..1000 {
        seen[s.sample(&logits) as usize] = true;
    }
    assert!(seen[3] && seen[4], "the top two should both appear");
    assert!(
        !seen[0] && !seen[1] && !seen[2],
        "tokens outside top-k must never appear"
    );
}


#[test]
fn repetition_penalty_pushes_seen_tokens_down_whatever_their_sign() {
    let logits = [2.0f32, -2.0, 0.5];
    let c = Settings {
        temperature: 0.0,
        repetition_penalty: 2.0,
        repetition_window: 8,
        ..cfg()
    };
    let mut s = Picker::new(c, 3);

    assert_eq!(s.sample(&logits), 0);

    s.accept(0);
    assert_eq!(s.sample(&logits), 0);

    s.accept(0);
    s.accept(0);
    assert_eq!(s.sample(&logits), 2);

    let mut s2 = Picker::new(c, 3);
    s2.accept(1);
    assert_ne!(s2.sample(&logits), 1, "a penalised token must not win");
}

#[test]
fn repetition_window_forgets_old_tokens() {
    let c = Settings {
        repetition_penalty: 2.0,
        repetition_window: 3,
        ..cfg()
    };
    let mut s = Picker::new(c, 8);
    for t in 0..6u32 {
        s.accept(t);
    }
    assert_eq!(s.history(), &[3, 4, 5], "only the window's worth is kept");
}


#[test]
fn the_same_seed_reproduces_the_same_tokens() {
    let logits: Vec<f32> = (0..64).map(|i| ((i * 37) % 11) as f32 * 0.4).collect();
    let c = Settings {
        temperature: 1.0,
        top_p: 0.9,
        seed: 0xC0FFEE,
        ..cfg()
    };

    let run = |c: Settings| {
        let mut s = Picker::new(c, 64);
        (0..40)
            .map(|_| {
                let t = s.sample(&logits);
                s.accept(t);
                t
            })
            .collect::<Vec<_>>()
    };

    assert_eq!(run(c), run(c), "same seed must reproduce the sequence");
    let other = Settings {
        seed: 0xC0FFEF,
        ..c
    };
    assert_ne!(run(c), run(other), "a different seed should diverge");
}

#[test]
fn reset_restores_the_starting_state() {
    let logits: Vec<f32> = (0..32).map(|i| (i % 7) as f32).collect();
    let c = Settings {
        temperature: 1.0,
        seed: 11,
        repetition_penalty: 1.2,
        ..cfg()
    };
    let mut s = Picker::new(c, 32);

    let first: Vec<u32> = (0..12)
        .map(|_| {
            let t = s.sample(&logits);
            s.accept(t);
            t
        })
        .collect();

    s.reset();
    assert!(s.history().is_empty());
    let second: Vec<u32> = (0..12)
        .map(|_| {
            let t = s.sample(&logits);
            s.accept(t);
            t
        })
        .collect();

    assert_eq!(
        first, second,
        "reset must restore both the RNG and the history"
    );
}

#[test]
fn changing_config_does_not_restart_the_stream() {
    let logits: Vec<f32> = (0..16).map(|i| (i % 5) as f32).collect();
    let c = Settings {
        temperature: 1.0,
        seed: 3,
        ..cfg()
    };

    let mut a = Picker::new(c, 16);
    let want: Vec<u32> = (0..3).map(|_| a.sample(&logits)).collect();

    let mut b = Picker::new(c, 16);
    let got: Vec<u32> = (0..3)
        .map(|_| {
            let t = b.sample(&logits);
            b.set_config(c); // a no-op change
            t
        })
        .collect();

    assert_eq!(got, want, "set_config perturbed the RNG stream");

    let mut d = Picker::new(c, 16);
    d.accept(7);
    d.set_config(Settings {
        temperature: 1.5,
        ..c
    });
    assert_eq!(d.history(), &[7], "set_config dropped the history");
}


#[test]
fn draws_approximate_the_intended_distribution() {
    let logits = [0.0f32, 1.0, 2.0];
    let want: Vec<f32> = {
        let m = 2.0f32; // max-subtract, as softmax does
        let e: Vec<f32> = logits.iter().map(|l| (l - m).exp()).collect();
        let denom: f32 = e.iter().sum();
        e.iter().map(|v| v / denom).collect()
    };

    let c = Settings {
        temperature: 1.0,
        seed: 2024,
        ..cfg()
    };
    let mut s = Picker::new(c, 3);
    let n = 60_000;
    let mut counts = [0usize; 3];
    for _ in 0..n {
        counts[s.sample(&logits) as usize] += 1;
    }
    for i in 0..3 {
        let got = counts[i] as f32 / n as f32;
        assert!(
            (got - want[i]).abs() < 0.01,
            "token {i}: sampled {got:.4}, expected {:.4}",
            want[i]
        );
    }
}

#[test]
fn always_returns_a_token_that_survived_filtering() {
    let logits: Vec<f32> = (0..16).map(|i| ((i * 13) % 9) as f32 - 4.0).collect();
    let mut r = Pcg32::with_stream(5, 7);
    for _ in 0..200 {
        let c = Settings {
            temperature: 2.0 * unit(&mut r),
            top_k: (r.next_u32() % 8) as usize,
            top_p: 0.05 + 0.95 * unit(&mut r),
            repetition_penalty: 1.0 + unit(&mut r),
            repetition_window: 4,
            seed: (r.next_u32() as u64) << 32 | r.next_u32() as u64,
        };
        let mut s = Picker::new(c, 16);
        for _ in 0..8 {
            let t = s.sample(&logits);
            assert!((t as usize) < 16, "token {t} out of range");
            if c.top_k > 0 && c.temperature > 0.0 {
                assert!(s.sampler.candidates().len() <= c.top_k);
                assert!(s.sampler.candidates().iter().any(|k| k.id == t));
            }
            s.accept(t);
            assert!(s.history().len() <= 4);
        }
    }
}

#[test]
fn survives_extreme_logits() {
    let mut r = Pcg32::with_stream(9, 11);
    for n in 0..200 {
        let scale = match n {
            0 => 1.0f32,
            1 => 1e6,
            _ => 1.0 + (1e6 - 1.0) * unit(&mut r),
        };
        let seed = (r.next_u32() as u64) << 32 | r.next_u32() as u64;
        let logits: Vec<f32> = (0..8).map(|i| (i as f32 - 4.0) * scale).collect();
        let c = Settings { temperature: 1.0, top_p: 0.9, seed, ..cfg() };
        let t = Picker::new(c, 8).sample(&logits);
        assert!((t as usize) < 8);
    }
}

#[test]
fn top_k_keeps_the_best() {
    // The top three of a shuffled list, whatever comes behind them.
    let logits: Vec<f32> = (0..40).map(|i| ((i * 17) % 40) as f32).collect();
    let c = Settings { temperature: 1.0, top_k: 3, ..cfg() };
    let mut s = Picker::new(c, 40);
    s.sample(&logits);
    let mut kept: Vec<u32> = s.sampler.candidates().iter().map(|c| c.id).collect();
    kept.sort();
    let mut want: Vec<u32> = (0..40u32).filter(|i| (i * 17) % 40 >= 37).collect();
    want.sort();
    assert_eq!(kept, want);
}

#[test]
fn the_nucleus_is_in_falling_order() {
    let logits = [0.0f32, 3.0, 1.0, 2.0];
    let c = Settings { temperature: 1.0, top_p: 0.999, ..cfg() };
    let mut s = Picker::new(c, 4);
    s.sample(&logits);
    let ids: Vec<u32> = s.sampler.candidates().iter().map(|c| c.id).collect();
    assert_eq!(ids, vec![1, 3, 2, 0]);
}

#[test]
fn what_is_not_a_number_never_wins() {
    assert_eq!(best(&[f32::NAN, 1.0, f32::NAN]), 1);
    assert_eq!(best(&[f32::NAN, f32::NEG_INFINITY]), 0);
    assert_eq!(best(&[f32::NEG_INFINITY, f32::INFINITY]), 1);
    assert_eq!(best(&[]), 0);
}

#[test]
fn the_default_is_greedy() {
    assert_eq!(SamplerConfig::default(), cfg().patterns());
    let s = Sampler::new(SamplerConfig::default(), 3);
    assert_eq!(*s.config(), cfg().patterns());
}

#[test]
fn pcg32_gives_its_published_numbers() {
    // The reference sequence of PCG32 with state 42 and stream 54.
    let mut r = Pcg32::with_stream(42, 54);
    let got: Vec<u32> = (0..6).map(|_| r.next_u32()).collect();
    assert_eq!(
        got,
        vec![0xa15c_02b7, 0x7b47_f409, 0xba1d_3330, 0x83d2_f293, 0xbfa4_784b, 0xcbed_606e]
    );
}

#[test]
fn a_window_of_zero_keeps_no_history() {
    let c = Settings { repetition_penalty: 2.0, repetition_window: 0, ..cfg() };
    let mut s = Picker::new(c, 4);
    s.accept(1);
    s.accept(2);
    assert_eq!(s.history(), &[] as &[u32]);
    // Nothing was seen, so nothing is penalised.
    assert_eq!(s.sample(&[0.0, 1.0, 3.0, 2.0]), 2);
    // A window of one keeps the last token alone.
    s.set_config(Settings { repetition_window: 1, ..c });
    s.accept(3);
    s.accept(2);
    assert_eq!(s.history(), &[2]);
    assert_eq!(s.sample(&[0.0, 1.0, 3.0, 2.0]), 3);
}

#[test]
fn greedy_picking_looks_at_nothing_but_the_logits() {
    // Without a penalty, the history may hold anything.
    let mut s = Picker::new(cfg(), 3);
    s.accept(999);
    assert_eq!(s.sample(&[0.0, 5.0, 1.0]), 1);
    let mut hot = Picker::new(Settings { temperature: 1.0, top_k: 1, ..cfg() }, 3);
    hot.accept(999);
    assert_eq!(hot.sample(&[0.0, 5.0, 1.0]), 1);
    // No logits, no largest one.
    assert_eq!(Picker::new(cfg(), 0).sample(&[]), 0);
}
