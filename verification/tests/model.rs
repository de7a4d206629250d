//! Weights, caches, plans, and a small model run from end to end.
#![allow(dead_code)]
use nano_infer::bits::F32Bits;
use nano_infer::gguf::{GgmlType, Gguf, ModelConfig};
use nano_infer::model::plan::{Act, BiasId, MatrixId, NormId, Row, Step, TraceName, Widths};
use nano_infer::model::runner::{rope_dim_of, uses_fused, Work};
use nano_infer::model::{
    KvCache, KvLayout, Model, ModelWeights, Trace, WeightError, Workspace, PREFILL_CHUNK,
};
use nano_infer::ops::{RopeKind, RopeTable};
use nano_infer::quant::{f16_to_f32, f32_to_f16, ActivationQ8, DotTerm, Scale, Weight};
use nano_infer::{QuantError, QuantMatrix};

const U8: u32 = 0;
const I16: u32 = 3;
const U32: u32 = 4;
const I32: u32 = 5;
const F32: u32 = 6;
const BOOL: u32 = 7;
const STRING: u32 = 8;
const ARRAY: u32 = 9;
const U64: u32 = 10;
const F64: u32 = 12;

/// A minimal GGUF writer that shares nothing with the parser.
struct Builder {
    kv: Vec<u8>,
    kv_count: u64,
    ti: Vec<u8>,
    t_count: u64,
    data: Vec<u8>,
    alignment: u64,
    version: u32,
    magic: [u8; 4],
}

fn put_str(out: &mut Vec<u8>, s: &str) {
    out.extend_from_slice(&(s.len() as u64).to_le_bytes());
    out.extend_from_slice(s.as_bytes());
}

impl Builder {
    fn new() -> Self {
        Self {
            kv: Vec::new(),
            kv_count: 0,
            ti: Vec::new(),
            t_count: 0,
            data: Vec::new(),
            alignment: 32,
            version: 3,
            magic: *b"GGUF",
        }
    }

    fn version(mut self, v: u32) -> Self {
        self.version = v;
        self
    }

    fn magic(mut self, m: [u8; 4]) -> Self {
        self.magic = m;
        self
    }

    /// Sets the padding; the key is written separately.
    fn alignment(mut self, a: u64) -> Self {
        self.alignment = a;
        self
    }

    fn value(mut self, key: &str, tag: u32, bytes: &[u8]) -> Self {
        put_str(&mut self.kv, key);
        self.kv.extend_from_slice(&tag.to_le_bytes());
        self.kv.extend_from_slice(bytes);
        self.kv_count += 1;
        self
    }

    fn u8(self, key: &str, v: u8) -> Self {
        self.value(key, U8, &[v])
    }

    fn i16(self, key: &str, v: i16) -> Self {
        self.value(key, I16, &v.to_le_bytes())
    }

    fn u32(self, key: &str, v: u32) -> Self {
        self.value(key, U32, &v.to_le_bytes())
    }

    fn i32(self, key: &str, v: i32) -> Self {
        self.value(key, I32, &v.to_le_bytes())
    }

    fn u64(self, key: &str, v: u64) -> Self {
        self.value(key, U64, &v.to_le_bytes())
    }

    fn f32(self, key: &str, v: f32) -> Self {
        self.value(key, F32, &v.to_le_bytes())
    }

    fn f64(self, key: &str, v: f64) -> Self {
        self.value(key, F64, &v.to_le_bytes())
    }

    fn bool(self, key: &str, v: bool) -> Self {
        self.value(key, BOOL, &[v as u8])
    }

    fn string(self, key: &str, v: &str) -> Self {
        self.raw_string(key, v.as_bytes())
    }

    /// A string value of any bytes.
    fn raw_string(self, key: &str, bytes: &[u8]) -> Self {
        let mut b = (bytes.len() as u64).to_le_bytes().to_vec();
        b.extend_from_slice(bytes);
        self.value(key, STRING, &b)
    }

    /// An array that claims a length, with the bytes of its elements.
    fn array(self, key: &str, elem: u32, n: u64, items: &[u8]) -> Self {
        let mut b = elem.to_le_bytes().to_vec();
        b.extend_from_slice(&n.to_le_bytes());
        b.extend_from_slice(items);
        self.value(key, ARRAY, &b)
    }

    fn str_array(self, key: &str, vs: &[&str]) -> Self {
        let mut b = Vec::new();
        for s in vs {
            put_str(&mut b, s);
        }
        self.array(key, STRING, vs.len() as u64, &b)
    }

    fn f32_array(self, key: &str, vs: &[f32]) -> Self {
        let b: Vec<u8> = vs.iter().flat_map(|v| v.to_le_bytes()).collect();
        self.array(key, F32, vs.len() as u64, &b)
    }

    fn i32_array(self, key: &str, vs: &[i32]) -> Self {
        let b: Vec<u8> = vs.iter().flat_map(|v| v.to_le_bytes()).collect();
        self.array(key, I32, vs.len() as u64, &b)
    }

    /// A tensor with its data, padded so that its offset stays aligned.
    fn tensor(mut self, name: &str, dims: &[u64], ty: GgmlType, bytes: &[u8]) -> Self {
        while self.data.len() as u64 % self.alignment != 0 {
            self.data.push(0);
        }
        let offset = self.data.len() as u64;
        self.data.extend_from_slice(bytes);
        self.tensor_info_only(name, dims, ty, offset)
    }

    /// A tensor at any offset, without data.
    fn tensor_info_only(self, name: &str, dims: &[u64], ty: GgmlType, offset: u64) -> Self {
        self.raw_tensor_info(name, dims.len() as u32, dims, ty.to_tag(), offset)
    }

    fn raw_tensor_info(mut self, name: &str, n_dims: u32, dims: &[u64], tag: u32, offset: u64) -> Self {
        put_str(&mut self.ti, name);
        self.ti.extend_from_slice(&n_dims.to_le_bytes());
        for d in dims {
            self.ti.extend_from_slice(&d.to_le_bytes());
        }
        self.ti.extend_from_slice(&tag.to_le_bytes());
        self.ti.extend_from_slice(&offset.to_le_bytes());
        self.t_count += 1;
        self
    }

    fn build(self) -> Vec<u8> {
        let mut out = Vec::new();
        out.extend_from_slice(&self.magic);
        out.extend_from_slice(&self.version.to_le_bytes());
        out.extend_from_slice(&self.t_count.to_le_bytes());
        out.extend_from_slice(&self.kv_count.to_le_bytes());
        out.extend_from_slice(&self.kv);
        out.extend_from_slice(&self.ti);
        while out.len() as u64 % self.alignment != 0 {
            out.push(0);
        }
        out.extend_from_slice(&self.data);
        out
    }
}

/// The metadata of Qwen2.5-0.5B-Instruct, with a vocabulary of one's own.
fn qwen2_5_0_5b(vocab: &[&str]) -> Builder {
    Builder::new()
        .string("general.architecture", "qwen2")
        .string("general.name", "Qwen2.5-0.5B-Instruct")
        .u32("general.file_type", 15)
        .u32("general.quantization_version", 2)
        .u32("qwen2.block_count", 24)
        .u32("qwen2.context_length", 32768)
        .u32("qwen2.embedding_length", 896)
        .u32("qwen2.feed_forward_length", 4864)
        .u32("qwen2.attention.head_count", 14)
        .u32("qwen2.attention.head_count_kv", 2)
        .f32("qwen2.attention.layer_norm_rms_epsilon", 1e-6)
        .f32("qwen2.rope.freq_base", 1_000_000.0)
        .string("tokenizer.ggml.model", "gpt2")
        .string("tokenizer.ggml.pre", "qwen2")
        .str_array("tokenizer.ggml.tokens", vocab)
        .u32("tokenizer.ggml.bos_token_id", 151643)
        .u32("tokenizer.ggml.eos_token_id", 151645)
        .u32("tokenizer.ggml.padding_token_id", 151643)
        .bool("tokenizer.ggml.add_bos_token", false)
}

fn dummy_vocab(n: usize) -> Vec<String> {
    (0..n).map(|i| format!("tok{i}")).collect()
}

fn strs(v: &[String]) -> Vec<&str> {
    v.iter().map(|s| s.as_str()).collect()
}

fn bits(x: f32) -> F32Bits {
    F32Bits(x.to_bits())
}

fn float(x: F32Bits) -> f32 {
    f32::from_bits(x.0)
}

fn scale(s: &Scale) -> f32 {
    float(f16_to_f32(s.d)) * s.factor as f32
}

fn values(ws: &[Weight]) -> Vec<f32> {
    ws.iter()
        .map(|w| match w {
            Weight::Exact(b) => float(*b),
            Weight::Scaled { scale: s, quant, min } => scale(s) * *quant as f32 - scale(min),
        })
        .collect()
}

fn dot(a: &[f32], b: &[f32]) -> f32 {
    a.iter().zip(b).fold(0.0f32, |s, (x, y)| s + x * y)
}

fn fold(terms: &[DotTerm], a: &ActivationQ8) -> f32 {
    let mut acc = 0.0f32;
    for t in terms {
        let sa = float(a.scale(t.block));
        if t.affine {
            acc += sa * (scale(&t.scale) * t.dot as f32 - scale(&t.min) * t.sum as f32);
        } else {
            acc += (scale(&t.scale) * sa) * t.dot as f32;
        }
    }
    acc
}

fn quantized(x: &[f32]) -> (Vec<F32Bits>, Vec<i8>) {
    let mut scales = Vec::new();
    let mut quants = Vec::new();
    for chunk in x.chunks(32) {
        let d = chunk.iter().fold(0.0f32, |a, v| a.max(v.abs())) / 127.0;
        let inverse = if d != 0.0 { 1.0 / d } else { 0.0 };
        scales.push(bits(d));
        quants.extend(chunk.iter().map(|v| (v * inverse).round().clamp(-127.0, 127.0) as i8));
    }
    (scales, quants)
}

fn softmax(x: &mut [f32]) {
    let max = x.iter().fold(f32::NEG_INFINITY, |a, v| a.max(*v));
    let mut sum = 0.0f32;
    for v in x.iter_mut() {
        *v = (*v - max).exp();
        sum += *v;
    }
    x.iter_mut().for_each(|v| *v /= sum);
}

/// A model with the arithmetic that its plans ask for.
struct Runner<'a> {
    model: Model<'a, f32>,
    ws: Workspace<f32>,
    cache: KvCache<f32>,
    trace: Option<Trace<f32>>,
    marks: usize,
}

fn rope(c: &ModelConfig, max_seq: usize, kind: RopeKind) -> RopeTable<f32> {
    let rope_dim = rope_dim_of(c);
    let n = rope_dim / 2;
    let angle = |k: usize| {
        let theta = 1.0 / float(c.rope_freq_base).powf(2.0 * (k % n) as f32 / rope_dim as f32);
        (k / n) as f32 * theta
    };
    let cos = (0..max_seq * n).map(|k| angle(k).cos()).collect();
    let sin = (0..max_seq * n).map(|k| angle(k).sin()).collect();
    RopeTable::new(c.head_dim, rope_dim, max_seq, kind, cos, sin)
}

fn matrix<'m, 'a>(w: &'m ModelWeights<'a>, id: MatrixId) -> &'m QuantMatrix<'a> {
    match id {
        MatrixId::AttnQ(l) => &w.layers[l].attn_q,
        MatrixId::AttnK(l) => &w.layers[l].attn_k,
        MatrixId::AttnV(l) => &w.layers[l].attn_v,
        MatrixId::AttnOutput(l) => &w.layers[l].attn_output,
        MatrixId::FfnGate(l) => &w.layers[l].ffn_gate,
        MatrixId::FfnUp(l) => &w.layers[l].ffn_up,
        MatrixId::FfnDown(l) => &w.layers[l].ffn_down,
        MatrixId::Unembedding => &w.output,
    }
}

impl<'a> Runner<'a> {
    fn new(g: &Gguf<'a>, max_seq: usize, layout: KvLayout) -> Self {
        let weights = match ModelWeights::from_gguf(g) {
            Ok(w) => w,
            Err(e) => panic!("{}", e.message()),
        };
        let c = weights.config.clone();
        Runner {
            model: Model::new(weights, rope(&c, max_seq, RopeKind::SplitHalf), false),
            ws: Workspace::new(&c, max_seq, 0.0),
            cache: KvCache::with_layout(&c, max_seq, layout, 0.0),
            trace: None,
            marks: 0,
        }
    }

    fn row(&self, r: Row) -> Vec<f32> {
        self.ws.row(r).to_vec()
    }

    fn attend(&mut self, layer: usize, pos: usize, q: Row, to: Row) {
        let c = self.model.config().clone();
        let queries = self.row(q);
        let mut out = vec![0.0f32; queries.len()];
        for h in 0..c.head_count {
            let work = self.model.head_work(h);
            let mut att = vec![0.0f32; pos + 1];
            for (t, a) in att.iter_mut().enumerate() {
                let key = self.cache.key(layer, t, work.kv_head);
                *a = dot(&queries[work.start..work.end], key) / (c.head_dim as f32).sqrt();
            }
            softmax(&mut att);
            self.ws.set_scores(&att);
            assert_eq!(self.ws.scores(pos + 1), &att[..]);
            if self.ws.captures_attention() {
                self.ws.capture(layer, h, &att);
            }
            for (t, p) in att.iter().enumerate() {
                let value = self.cache.value(layer, t, work.kv_head);
                for (d, v) in out[work.start..work.end].iter_mut().zip(value) {
                    *d += p * v;
                }
            }
        }
        self.ws.set_row(to, &out);
    }

    fn step(&mut self, step: Step) -> Result<(), QuantError> {
        match step {
            Step::StartTimer => self.marks = 0,
            Step::Mark(_) => self.marks += 1,
            Step::Record { name, from } => {
                let x = self.row(from);
                if let Some(t) = self.trace.as_mut() {
                    t.record(&name.text(), &x);
                }
            }
            Step::Embed { token, to } => {
                let m = &self.model.weights.token_embd;
                let x = values(&m.dequant_row(token, m.cols())?);
                self.ws.set_row(to, &x);
            }
            Step::Norm { norm, from, to } => {
                let x = self.row(from);
                let w = &self.model.weights;
                let weight = values(match norm {
                    NormId::Attn(l) => &w.layers[l].attn_norm,
                    NormId::Ffn(l) => &w.layers[l].ffn_norm,
                    NormId::Output => &w.output_norm,
                });
                let eps = float(w.config.rms_norm_eps);
                let r = 1.0 / (dot(&x, &x) / x.len() as f32 + eps).sqrt();
                let out: Vec<f32> = x.iter().zip(&weight).map(|(v, w)| v * r * w).collect();
                self.ws.set_row(to, &out);
            }
            Step::Quantize { from, act } => {
                let (scales, quants) = quantized(self.ws.row(from));
                self.ws.quantize(act, &scales, &quants);
            }
            Step::Project { matrix: id, from, act, to } => {
                let w = *matrix(&self.model.weights, id);
                let mut out = Vec::new();
                for r in 0..w.rows() {
                    out.push(if uses_fused(self.model.is_fused(), w.ggml_type()) {
                        fold(&self.ws.project_row(&w, act, r)?, self.ws.act(act))
                    } else {
                        let exact = values(&w.dequant_row(r as u32, w.cols())?);
                        self.ws.set_exact_row(&exact);
                        dot(self.ws.exact_row(w.cols()), self.ws.row(from))
                    });
                }
                self.ws.set_row(to, &out);
            }
            Step::ProjectBatch { matrix: id, count, to } => {
                let w = *matrix(&self.model.weights, id);
                let mut out = vec![vec![0.0f32; w.rows()]; count];
                for r in 0..w.rows() {
                    let terms = self.ws.project_batch_row(&w, count, r)?;
                    for (i, t) in terms.iter().enumerate() {
                        out[i][r] = fold(t, self.ws.act(Act::Batch(i)));
                    }
                }
                for (index, row) in out.iter().enumerate() {
                    self.ws.set_row(Row { buffer: to, index }, row);
                }
            }
            Step::AddBias { bias, to } => {
                let layers = &self.model.weights.layers;
                let b = match bias {
                    BiasId::Q(l) => layers[l].attn_q_bias.as_ref(),
                    BiasId::K(l) => layers[l].attn_k_bias.as_ref(),
                    BiasId::V(l) => layers[l].attn_v_bias.as_ref(),
                };
                if let Some(b) = b {
                    let out: Vec<f32> =
                        self.row(to).iter().zip(values(b)).map(|(x, y)| x + y).collect();
                    self.ws.set_row(to, &out);
                }
            }
            Step::Rotate { row, n_heads, pos } => {
                let mut x = self.row(row);
                for h in 0..n_heads {
                    let (from, to) = self.model.rope.head_range(n_heads, h);
                    let head = &mut x[from..to];
                    for r in self.model.rope.rotations(pos) {
                        let (a, b) = (head[r.a], head[r.b]);
                        head[r.a] = a * r.cos - b * r.sin;
                        head[r.b] = a * r.sin + b * r.cos;
                    }
                }
                self.ws.set_row(row, &x);
            }
            Step::Store { layer, pos, k, v } => {
                self.cache.write(layer, pos, self.ws.row(k), self.ws.row(v));
            }
            Step::Attend { layer, pos, q, to } => self.attend(layer, pos, q, to),
            Step::Advance { len } => self.cache.advance(len),
            Step::Add { to, from } => {
                let out: Vec<f32> =
                    self.row(to).iter().zip(self.ws.row(from)).map(|(x, y)| x + y).collect();
                self.ws.set_row(to, &out);
            }
            Step::Swiglu { gate, up } => {
                let out: Vec<f32> = self
                    .row(gate)
                    .iter()
                    .zip(self.ws.row(up))
                    .map(|(g, u)| g / (1.0 + (-g).exp()) * u)
                    .collect();
                self.ws.set_row(gate, &out);
            }
            Step::Copy { from, to } => {
                let x = self.row(from);
                self.ws.set_row(to, &x);
            }
        }
        Ok(())
    }

    fn run(&mut self, work: Vec<Work>, tokens: &[u32]) {
        for piece in work {
            let steps = match piece {
                Work::Token { index, pos, trace } => {
                    self.model.forward_token(tokens[index], pos, trace)
                }
                Work::Chunk { from, to, pos, want_logits } => {
                    self.model.prefill_chunk(&tokens[from..to], pos, want_logits)
                }
            };
            for s in steps {
                if let Err(e) = self.step(s) {
                    panic!("{}", e.message());
                }
            }
        }
    }

    fn forward(&mut self, tokens: &[u32]) -> Vec<f32> {
        let trace = self.trace.is_some();
        let work = self.model.forward(tokens.len(), self.cache.len(), trace);
        self.run(work, tokens);
        self.ws.logits_vec()
    }

    fn prefill(&mut self, tokens: &[u32]) -> Vec<f32> {
        let work = self.model.prefill(tokens.len(), self.cache.len());
        self.run(work, tokens);
        self.ws.logits_vec()
    }
}

const D: usize = 64;
const FF: usize = 96;
const VOCAB: usize = 40;
const KV: usize = 32;

/// Blocks of Q8_0 with small scales, the same for the same seed.
fn q8(rows: usize, cols: usize, seed: u64) -> Vec<u8> {
    let mut state = seed | 1;
    let d = f32_to_f16(bits(0.004)).to_le_bytes();
    let mut out = Vec::new();
    for _ in 0..rows * cols / 32 {
        out.extend_from_slice(&d);
        for _ in 0..32 {
            state ^= state << 13;
            state ^= state >> 7;
            state ^= state << 17;
            out.push(state as u8);
        }
    }
    out
}

fn floats(n: usize, at: f32) -> Vec<u8> {
    (0..n).flat_map(|i| (at + 0.01 * (i % 7) as f32).to_le_bytes()).collect()
}

fn small_builder() -> Builder {
    let vocab = dummy_vocab(VOCAB);
    Builder::new()
        .string("general.architecture", "qwen2")
        .u32("qwen2.block_count", 2)
        .u32("qwen2.context_length", 256)
        .u32("qwen2.embedding_length", D as u32)
        .u32("qwen2.feed_forward_length", FF as u32)
        .u32("qwen2.attention.head_count", 4)
        .u32("qwen2.attention.head_count_kv", 2)
        .f32("qwen2.attention.layer_norm_rms_epsilon", 1e-6)
        .f32("qwen2.rope.freq_base", 10_000.0)
        .str_array("tokenizer.ggml.tokens", &strs(&vocab))
}

fn with_tensors(mut b: Builder, skip: &str) -> Vec<u8> {
    let mut add = |b: Builder, name: &str, rows: usize, cols: usize, seed: u64| {
        if name == skip {
            return b;
        }
        b.tensor(name, &[cols as u64, rows as u64], GgmlType::Q8_0, &q8(rows, cols, seed))
    };
    b = add(b, "token_embd.weight", VOCAB, D, 11);
    b = add(b, "output.weight", VOCAB, D, 12);
    b = b.tensor("output_norm.weight", &[D as u64], GgmlType::F32, &floats(D, 1.0));
    for l in 0..2u64 {
        let n = |s: &str| format!("blk.{l}.{s}");
        let s = 100 * l;
        b = b.tensor(&n("attn_norm.weight"), &[D as u64], GgmlType::F32, &floats(D, 0.9));
        b = b.tensor(&n("ffn_norm.weight"), &[D as u64], GgmlType::F32, &floats(D, 1.1));
        b = add(b, &n("attn_q.weight"), D, D, 21 + s);
        b = add(b, &n("attn_k.weight"), KV, D, 22 + s);
        b = add(b, &n("attn_v.weight"), KV, D, 23 + s);
        b = add(b, &n("attn_output.weight"), D, D, 24 + s);
        b = b.tensor(&n("attn_q.bias"), &[D as u64], GgmlType::F32, &floats(D, 0.1));
        b = b.tensor(&n("attn_k.bias"), &[KV as u64], GgmlType::F32, &floats(KV, -0.1));
        b = b.tensor(&n("attn_v.bias"), &[KV as u64], GgmlType::F32, &floats(KV, 0.05));
        b = add(b, &n("ffn_gate.weight"), FF, D, 25 + s);
        b = add(b, &n("ffn_up.weight"), FF, D, 26 + s);
        b = add(b, &n("ffn_down.weight"), D, FF, 27 + s);
    }
    b.build()
}

fn small_model() -> Vec<u8> {
    with_tensors(small_builder(), "")
}

fn prompt(n: usize) -> Vec<u32> {
    (0..n as u32).map(|i| (i * 7 + 3) % VOCAB as u32).collect()
}

/// A file with the shapes of Qwen2.5-0.5B, all tensors over the same zeros.
fn qwen_shapes() -> Vec<u8> {
    let vocab = dummy_vocab(151_936);
    let mut b = qwen2_5_0_5b(&strs(&vocab));
    let q4 = GgmlType::Q4_0;
    b = b.tensor("token_embd.weight", &[896, 151_936], q4, &vec![0u8; 151_936 * 28 * 18]);
    b = b.tensor_info_only("output.weight", &[896, 151_936], q4, 0);
    b = b.tensor_info_only("output_norm.weight", &[896], GgmlType::F32, 0);
    for l in 0..24 {
        let n = |s: &str| format!("blk.{l}.{s}");
        for (s, rows, cols) in [
            ("attn_q.weight", 896u64, 896u64),
            ("attn_k.weight", 128, 896),
            ("attn_v.weight", 128, 896),
            ("attn_output.weight", 896, 896),
            ("ffn_gate.weight", 4864, 896),
            ("ffn_up.weight", 4864, 896),
            ("ffn_down.weight", 896, 4864),
        ] {
            b = b.tensor_info_only(&n(s), &[cols, rows], q4, 0);
        }
        for (s, len) in [
            ("attn_norm.weight", 896u64),
            ("ffn_norm.weight", 896),
            ("attn_q.bias", 896),
            ("attn_k.bias", 128),
            ("attn_v.bias", 128),
        ] {
            b = b.tensor_info_only(&n(s), &[len], GgmlType::F32, 0);
        }
    }
    b.build()
}

#[test]
fn weights_load_with_the_expected_shapes() {
    let bytes = qwen_shapes();
    let g = Gguf::parse(&bytes).ok().unwrap();
    let w = ModelWeights::from_gguf(&g).ok().unwrap();
    let c = &w.config;

    assert_eq!(w.layers.len(), 24);
    assert_eq!(c.embedding_length, 896);
    assert_eq!(c.head_count, 14);
    assert_eq!(c.head_count_kv, 2);

    assert!(w.has_attn_bias(), "Qwen2 must have attention biases");
    for l in &w.layers {
        assert_eq!(l.attn_q_bias.as_ref().map(Vec::len), Some(c.q_dim()));
        assert_eq!(l.attn_k_bias.as_ref().map(Vec::len), Some(c.kv_dim()));
        assert_eq!(l.attn_v_bias.as_ref().map(Vec::len), Some(c.kv_dim()));
    }

    let l0 = &w.layers[0];
    assert_eq!((l0.attn_q.rows(), l0.attn_q.cols()), (896, 896));
    assert_eq!((l0.attn_k.rows(), l0.attn_k.cols()), (128, 896)); // two heads
    assert_eq!((l0.attn_v.rows(), l0.attn_v.cols()), (128, 896));
    assert_eq!((l0.ffn_gate.rows(), l0.ffn_gate.cols()), (4864, 896));
    assert_eq!((l0.ffn_down.rows(), l0.ffn_down.cols()), (896, 4864));
    assert_eq!((w.output.rows(), w.output.cols()), (151_936, 896));

    // One embedding, one unembedding, and seven matrices in each layer.
    assert_eq!(w.formats(), vec![(GgmlType::Q4_0, 2 + 7 * 24)]);
    let layer = (2 * 896 * 896 + 2 * 128 * 896 + 3 * 4864 * 896) / 32 * 18 + 4 * (3 * 896 + 2 * 128);
    assert_eq!(w.byte_len(), 24 * layer + 4 * 896 + 2 * 151_936 * 28 * 18);
}

fn qwen_config() -> ModelConfig {
    ModelConfig {
        architecture: "qwen2".into(),
        name: None,
        block_count: 24,
        embedding_length: 896,
        feed_forward_length: 4864,
        head_count: 14,
        head_count_kv: 2,
        head_dim: 64,
        context_length: 32768,
        rms_norm_eps: bits(1e-6),
        rope_freq_base: bits(1e6),
        rope_dimension_count: None,
        vocab_size: 151_936,
        bos_token_id: None,
        eos_token_id: None,
        pad_token_id: None,
        unk_token_id: None,
        add_bos_token: None,
        tokenizer_model: None,
    }
}

#[test]
fn kv_cache_geometry_and_reset() {
    let c = qwen_config();
    let mut cache = KvCache::new(&c, 128, 0.0f32);
    // 2 tensors x 24 layers x 128 positions x 128 kv_dim x 4 bytes.
    assert_eq!(cache.byte_len(), 2 * 24 * 128 * 128 * 4);
    assert_eq!(cache.max_seq(), 128);
    assert_eq!(cache.layout(), KvLayout::HeadMajor);
    assert!(cache.is_empty());
    cache.reset();
    assert_eq!(cache.len(), 0);
}

#[test]
fn kv_cache_reports_its_own_geometry() {
    let cfg = qwen_config();
    for layout in [KvLayout::PositionMajor, KvLayout::HeadMajor] {
        let mut cache = KvCache::with_layout(&cfg, 2048, layout, 0.0f32);
        // 2 tensors x 24 layers x 2048 positions x 128 kv_dim x 4 bytes = 48 MiB.
        assert_eq!(cache.byte_len(), 48 * 1024 * 1024);
        assert_eq!(cache.n_layers(), 24);
        assert_eq!(cache.len() as f32 / cache.max_seq() as f32, 0.0);

        let k: Vec<f32> = (0..128).map(|i| i as f32).collect();
        cache.fill_for_bench(3, 7, &k, &k);
        for h in 0..2 {
            let got = cache.key(3, 7, h);
            assert_eq!(got, &k[h * 64..(h + 1) * 64], "{layout:?} head {h}");
            assert_eq!(cache.value(3, 7, h), got);
            let (buf, base, stride) = cache.k_span(3, h);
            assert_eq!(&buf[base + 7 * stride..base + 7 * stride + 64], got);
            let (buf, base, stride) = cache.v_span(3, h);
            assert_eq!(&buf[base + 7 * stride..base + 7 * stride + 64], got);
        }
        // Nothing else was written.
        assert!(cache.key(3, 6, 0).iter().all(|x| *x == 0.0));
        assert!(cache.key(2, 7, 1).iter().all(|x| *x == 0.0));
        assert_eq!(cache.len(), 8);
        assert!((cache.len() as f32 / cache.max_seq() as f32 - 8.0 / 2048.0).abs() < 1e-9);
    }
}

#[test]
fn weights_that_do_not_fit_are_refused() {
    let error = |bytes: &[u8]| {
        let g = Gguf::parse(bytes).ok().unwrap();
        ModelWeights::from_gguf(&g).err().unwrap()
    };
    let e = error(&with_tensors(small_builder(), "blk.1.ffn_up.weight"));
    assert_eq!(e, WeightError::Missing("blk.1.ffn_up.weight".into()));
    assert_eq!(e.message(), "model is missing tensor \"blk.1.ffn_up.weight\"");

    let b = small_builder().tensor(
        "token_embd.weight",
        &[VOCAB as u64 * 2, 32],
        GgmlType::F16,
        &vec![0u8; VOCAB * 2 * 32 * 2],
    );
    let e = error(&with_tensors(b, "token_embd.weight"));
    assert_eq!(
        e,
        WeightError::BadShape {
            name: "token_embd.weight".into(),
            got: (32, VOCAB * 2),
            want: (VOCAB, D),
        }
    );
    assert!(e.message().contains("token_embd.weight"));

    let b = small_builder().tensor(
        "token_embd.weight",
        &[D as u64, VOCAB as u64],
        GgmlType::BF16,
        &vec![0u8; VOCAB * D * 2],
    );
    let e = error(&with_tensors(b, "token_embd.weight"));
    assert_eq!(
        e,
        WeightError::Quant {
            name: "token_embd.weight".into(),
            err: QuantError::UnsupportedType(GgmlType::BF16),
        }
    );
    assert!(e.message().contains("not implemented"));

    let e = error(&Builder::new().build());
    assert!(matches!(e, WeightError::Missing(_)));
}

#[test]
fn both_layouts_give_the_same_logits() {
    let bytes = small_model();
    let g = Gguf::parse(&bytes).ok().unwrap();
    let tokens = prompt(9);
    let a = Runner::new(&g, 16, KvLayout::PositionMajor).forward(&tokens);
    let b = Runner::new(&g, 16, KvLayout::HeadMajor).forward(&tokens);
    assert_eq!(a, b);
    assert!(a.iter().all(|x| x.is_finite()));
    assert!(a.iter().any(|x| *x != a[0]));
}

#[test]
fn a_sequence_in_two_goes_is_a_sequence_in_one() {
    let bytes = small_model();
    let g = Gguf::parse(&bytes).ok().unwrap();
    let tokens = prompt(8);
    let whole = Runner::new(&g, 16, KvLayout::HeadMajor).forward(&tokens);
    let mut parts = Runner::new(&g, 16, KvLayout::HeadMajor);
    parts.forward(&tokens[..5]);
    assert_eq!(parts.cache.len(), 5);
    assert_eq!(parts.forward(&tokens[5..]), whole);
    assert_eq!(parts.cache.len(), 8);
}

#[test]
fn a_reset_cache_is_as_good_as_a_new_one() {
    let bytes = small_model();
    let g = Gguf::parse(&bytes).ok().unwrap();
    let mut r = Runner::new(&g, 16, KvLayout::HeadMajor);
    let first = r.forward(&prompt(6));
    r.forward(&[1, 2, 3]);
    r.cache.reset();
    assert_eq!(r.forward(&prompt(6)), first);
}

#[test]
fn batched_prefill_is_bit_identical_to_token_by_token() {
    let bytes = small_model();
    let g = Gguf::parse(&bytes).ok().unwrap();
    // Shorter than a chunk, as long, and longer than two.
    for n in [3, PREFILL_CHUNK, 2 * PREFILL_CHUNK + 5] {
        let tokens = prompt(n);
        let mut single = Runner::new(&g, 96, KvLayout::HeadMajor);
        let mut batched = Runner::new(&g, 96, KvLayout::HeadMajor);
        batched.model.set_batched_prefill(true);
        assert!(batched.model.is_batched_prefill() && !single.model.is_batched_prefill());
        assert_eq!(single.prefill(&tokens), batched.prefill(&tokens), "{n} tokens");
        assert_eq!(single.cache.len(), batched.cache.len());
        for l in 0..2 {
            for p in 0..n {
                for h in 0..2 {
                    assert_eq!(single.cache.key(l, p, h), batched.cache.key(l, p, h));
                    assert_eq!(single.cache.value(l, p, h), batched.cache.value(l, p, h));
                }
            }
        }
        // Decoding goes on from there as if nothing were different.
        assert_eq!(single.forward(&[5]), batched.forward(&[5]));
    }
}

#[test]
fn fused_kernels_stay_close_to_exact_weights() {
    let bytes = small_model();
    let g = Gguf::parse(&bytes).ok().unwrap();
    let fused = Runner::new(&g, 16, KvLayout::HeadMajor).forward(&prompt(6));
    let mut r = Runner::new(&g, 16, KvLayout::HeadMajor);
    r.model.set_fused(false);
    assert!(!r.model.is_fused());
    let exact = r.forward(&prompt(6));
    let norm = dot(&exact, &exact).sqrt();
    let diff: Vec<f32> = fused.iter().zip(&exact).map(|(a, b)| a - b).collect();
    assert!(dot(&diff, &diff).sqrt() < 0.05 * norm);
    assert_ne!(fused, exact);
}

#[test]
fn captured_attention_is_causal() {
    let bytes = small_model();
    let g = Gguf::parse(&bytes).ok().unwrap();
    let mut r = Runner::new(&g, 16, KvLayout::HeadMajor);
    r.ws.set_capture_attention(true);
    r.forward(&prompt(5));
    assert_eq!(r.ws.attention_all().len(), 2 * 4 * 16);
    for l in 0..2 {
        for h in 0..4 {
            let a = r.ws.attention(l, h, 5);
            assert_eq!(a.len(), 5);
            let sum: f32 = a.iter().sum();
            assert!((sum - 1.0).abs() < 1e-5, "layer {l} head {h}: {sum}");
            assert!(a.iter().all(|p| *p >= 0.0));
            // Positions that have not happened have no weight.
            assert!(r.ws.attention(l, h, 99)[5..].iter().all(|p| *p == 0.0));
        }
    }
}

#[test]
fn traces_hold_the_last_position() {
    let bytes = small_model();
    let g = Gguf::parse(&bytes).ok().unwrap();
    let mut r = Runner::new(&g, 16, KvLayout::HeadMajor);
    let plain = Runner::new(&g, 16, KvLayout::HeadMajor).forward(&prompt(4));
    r.trace = Some(Trace::new());
    assert_eq!(r.forward(&prompt(4)), plain, "tracing changes nothing");
    let t = r.trace.as_ref().unwrap();
    let names: Vec<&str> = t.records.iter().map(|x| x.0.as_str()).collect();
    assert_eq!(
        names,
        vec![
            "hidden.0", "l0.attn_norm", "l0.ffn_norm", "hidden.1", "l1.attn_norm", "l1.ffn_norm",
            "hidden.2", "final_norm", "logits"
        ]
    );
    assert_eq!(t.get("logits"), Some(&plain[..]));
    assert_eq!(t.get("hidden.0").map(|x| x.len()), Some(D));
    assert_eq!(t.get("hidden.3"), None);
    assert_eq!(TraceName::Hidden(12).text(), "hidden.12");
}

#[test]
fn a_pass_is_timed_in_pieces() {
    let bytes = small_model();
    let g = Gguf::parse(&bytes).ok().unwrap();
    let r = Runner::new(&g, 16, KvLayout::HeadMajor);
    let steps = r.model.forward_token(1, 0, false);
    assert_eq!(steps[0], Step::StartTimer);
    let marks = steps.iter().filter(|s| matches!(s, Step::Mark(_))).count();
    // The embedding, nine in each layer, and two around the unembedding.
    assert_eq!(marks, 1 + 9 * 2 + 2);
}

#[test]
fn prompts_are_cut_into_chunks() {
    let bytes = small_model();
    let g = Gguf::parse(&bytes).ok().unwrap();
    let mut r = Runner::new(&g, 96, KvLayout::HeadMajor);
    r.model.set_batched_prefill(true);
    assert_eq!(
        r.model.prefill(70, 4),
        vec![
            Work::Chunk { from: 0, to: 32, pos: 4, want_logits: false },
            Work::Chunk { from: 32, to: 64, pos: 36, want_logits: false },
            Work::Chunk { from: 64, to: 70, pos: 68, want_logits: true },
        ]
    );
    assert_eq!(r.model.prefill(0, 4), vec![]);
    assert_eq!(
        r.model.forward(2, 7, true),
        vec![
            Work::Token { index: 0, pos: 7, trace: false },
            Work::Token { index: 1, pos: 8, trace: true },
        ]
    );
    // Two query heads share a key/value head.
    let heads: Vec<usize> = (0..4).map(|h| r.model.head_work(h).kv_head).collect();
    assert_eq!(heads, vec![0, 0, 1, 1]);
}

#[test]
fn rotations_pair_components_either_way() {
    let c = qwen_config();
    let split = rope(&c, 4, RopeKind::SplitHalf);
    let r = split.rotations(3);
    assert_eq!(r.len(), 32);
    assert_eq!((r[5].a, r[5].b), (5, 37));
    assert_eq!(r[0].cos, 3.0f32.cos());
    let adjacent = rope(&c, 4, RopeKind::Adjacent);
    let r = adjacent.rotations(3);
    assert_eq!((r[5].a, r[5].b), (10, 11));
    assert_eq!(adjacent.byte_len(), 2 * 4 * 32 * 4);
    assert_eq!(adjacent.n_planes(), 32);
    assert_eq!(adjacent.head_range(14, 2), (128, 192));
    // A position turns by nothing at the start.
    for r in split.rotations(0) {
        assert_eq!((r.cos, r.sin), (1.0, 0.0));
    }
}

#[test]
fn the_largest_logit_is_the_greedy_token() {
    let bytes = small_model();
    let g = Gguf::parse(&bytes).ok().unwrap();
    let mut r = Runner::new(&g, 16, KvLayout::HeadMajor);
    let logits = r.forward(&prompt(4));
    let c = r.model.config().clone();
    let mut ws = Workspace::new(&c, 16, bits(0.0));
    let row = Row { buffer: nano_infer::model::plan::Buffer::Logits, index: 0 };
    let patterns: Vec<F32Bits> = logits.iter().map(|x| bits(*x)).collect();
    ws.set_row(row, &patterns);
    let best = r.model.argmax(&ws) as usize;
    assert!(logits.iter().all(|x| *x <= logits[best]));
    assert_eq!(r.model.logits(&r.ws), &logits[..]);
}

#[test]
fn a_workspace_says_what_it_holds() {
    let c = qwen_config();
    let ws = Workspace::new(&c, 128, 0.0f32);
    let (d, ff, q, kv, v) = (896usize, 4864usize, 896usize, 128usize, 151_936usize);
    let token = 3 * d + q + 2 * kv + q + 2 * ff + v + 128 + ff + 24 * 14 * 128;
    let batch = 32 * (3 * d + 2 * q + 2 * kv + 2 * ff);
    let act = ff / 32 * 4 + ff + ff / 32 * 4;
    let unpacked = ff + 2 * (ff / 16 + 1) * 4;
    assert_eq!(ws.byte_len(), 4 * (token + batch) + 33 * act + unpacked);
    assert!(!ws.captures_attention());
    assert_eq!(ws.logits().len(), v);
}

#[test]
fn what_is_projected_was_quantised_at_its_length() {
    let bytes = small_model();
    let g = Gguf::parse(&bytes).ok().unwrap();
    let r = Runner::new(&g, 96, KvLayout::HeadMajor);
    let w = &r.model.weights;
    let widths = Widths::of(&w.config);
    for steps in [
        r.model.forward_token(3, 5, true),
        r.model.prefill_chunk(&prompt(PREFILL_CHUNK), 0, true),
        r.model.prefill_chunk(&prompt(3), 7, false),
    ] {
        let mut token = None;
        let mut batch = [None; PREFILL_CHUNK];
        let mut projections = 0;
        for s in steps {
            match s {
                Step::Quantize { from, act } => {
                    let n = Some(from.buffer.row_width(&widths));
                    match act {
                        Act::Token => token = n,
                        Act::Batch(i) => batch[i] = n,
                    }
                }
                Step::Project { matrix: id, .. } => {
                    assert_eq!(token, Some(matrix(w, id).cols()));
                    projections += 1;
                }
                Step::ProjectBatch { matrix: id, count, .. } => {
                    assert!(batch[..count].iter().all(|n| *n == Some(matrix(w, id).cols())));
                    projections += 1;
                }
                _ => {}
            }
        }
        assert!(projections >= 14);
    }
}

impl<'a> Runner<'a> {
    /// As `prefill`, with the error that it ends in.
    fn try_prefill(&mut self, tokens: &[u32]) -> Result<Vec<f32>, QuantError> {
        for piece in self.model.prefill(tokens.len(), self.cache.len()) {
            let steps = match piece {
                Work::Token { index, pos, trace } => {
                    self.model.forward_token(tokens[index], pos, trace)
                }
                Work::Chunk { from, to, pos, want_logits } => {
                    self.model.prefill_chunk(&tokens[from..to], pos, want_logits)
                }
            };
            for s in steps {
                self.step(s)?;
            }
        }
        Ok(self.ws.logits_vec())
    }
}

/// The small model with one matrix of a layer in another format.
fn model_with(name: &str, rows: usize, cols: usize, ty: GgmlType, bytes: &[u8]) -> Vec<u8> {
    let b = small_builder().tensor(name, &[cols as u64, rows as u64], ty, bytes);
    with_tensors(b, name)
}

#[test]
fn prefill_is_bit_identical_whatever_the_settings() {
    let name = "blk.1.ffn_up.weight";
    let exact: Vec<u8> = floats(FF * D, -0.03);
    let halves: Vec<u8> = (0..FF * D)
        .flat_map(|i| f32_to_f16(bits(0.01 * (i % 5) as f32)).to_le_bytes())
        .collect();
    let n = PREFILL_CHUNK + 3;
    let cases = [
        (small_model(), true),
        (model_with(name, FF, D, GgmlType::F32, &exact), false),
        (model_with(name, FF, D, GgmlType::F16, &halves), true),
    ];
    for (file, chunks_when_fused) in cases {
        let g = Gguf::parse(&file).ok().unwrap();
        for fused in [true, false] {
            let mut single = Runner::new(&g, 96, KvLayout::HeadMajor);
            let mut batched = Runner::new(&g, 96, KvLayout::HeadMajor);
            single.model.set_fused(fused);
            batched.model.set_fused(fused);
            batched.model.set_batched_prefill(true);
            let chunked = matches!(batched.model.prefill(n, 0)[0], Work::Chunk { .. });
            assert_eq!(chunked, fused && chunks_when_fused);
            let want = single.try_prefill(&prompt(n));
            assert_eq!(batched.try_prefill(&prompt(n)), want);
            if want.is_ok() {
                assert_eq!(single.cache.len(), batched.cache.len());
                assert_eq!(single.forward(&[5]), batched.forward(&[5]));
            } else {
                assert_eq!(want, Err(QuantError::UnsupportedType(GgmlType::F16)));
            }
        }
    }
}

#[test]
fn copies_of_rotation_tables_rotate_alike() {
    let c = qwen_config();
    let table = rope(&c, 4, RopeKind::SplitHalf);
    let copy = table.clone();
    assert_eq!(copy.max_seq(), 4);
    assert_eq!(copy.rotations(3), table.rotations(3));
    let e = WeightError::BadShape { name: "w".into(), got: (1, 2), want: (3, 4) };
    assert_eq!(e.clone(), e);
}

#[test]
fn passes_walk_the_layers_that_the_weights_hold() {
    let bytes = small_model();
    let g = Gguf::parse(&bytes).ok().unwrap();
    let whole = Runner::new(&g, 64, KvLayout::HeadMajor).forward(&prompt(4));
    let short = || {
        let mut r = Runner::new(&g, 64, KvLayout::HeadMajor);
        r.model.weights.layers.pop();
        r
    };
    let mut r = short();
    assert_eq!(r.model.config().block_count, 2);
    let attended: Vec<usize> = r
        .model
        .forward_token(1, 0, false)
        .into_iter()
        .filter_map(|s| match s {
            Step::Attend { layer, .. } => Some(layer),
            _ => None,
        })
        .collect();
    assert_eq!(attended, vec![0]);
    let marks = r.model.forward_token(1, 0, false);
    assert_eq!(marks.iter().filter(|s| matches!(s, Step::Mark(_))).count(), 1 + 9 + 2);
    let logits = r.forward(&prompt(4));
    assert!(logits.iter().all(|x| x.is_finite()));
    assert_ne!(logits, whole);
    // Chunks walk the same layers.
    let mut chunked = short();
    chunked.model.set_batched_prefill(true);
    assert_eq!(chunked.prefill(&prompt(4)), logits);
}

#[test]
fn a_cache_needs_little_of_a_configuration() {
    // Nothing but the key/value heads matters: these query heads cannot share them.
    let mut c = qwen_config();
    c.block_count = 2;
    c.head_count = 5;
    c.head_count_kv = 3;
    c.head_dim = 2;
    c.embedding_length = 7;
    for layout in [KvLayout::PositionMajor, KvLayout::HeadMajor] {
        let mut cache = KvCache::with_layout(&c, 4, layout, 0.0f32);
        let k: Vec<f32> = (1..7).map(|i| i as f32).collect();
        let v: Vec<f32> = (1..7).map(|i| -(i as f32)).collect();
        cache.fill_for_bench(1, 2, &k, &v);
        for h in 0..3 {
            assert_eq!(cache.key(1, 2, h), &k[2 * h..2 * h + 2]);
            assert_eq!(cache.value(1, 2, h), &v[2 * h..2 * h + 2]);
        }
        let (_, base, stride) = cache.k_span(1, 2);
        match layout {
            KvLayout::PositionMajor => assert_eq!((base, stride), (4 * 6 + 2 * 2, 6)),
            KvLayout::HeadMajor => assert_eq!((base, stride), ((3 + 2) * 4 * 2, 2)),
        }
    }
    // A cache without positions still has histories.
    let none = KvCache::with_layout(&c, 0, KvLayout::HeadMajor, 0.0f32);
    assert_eq!(none.byte_len(), 0);
    let (buf, base, stride) = none.v_span(1, 2);
    assert_eq!((buf.len(), base, stride), (0, 0, 2));
    let none = KvCache::with_layout(&c, 0, KvLayout::PositionMajor, 0.0f32);
    let (buf, base, stride) = none.k_span(1, 2);
    assert_eq!((buf.len(), base, stride), (0, 4, 6));
    // And one without heads has no histories.
    c.head_count_kv = 0;
    let none = KvCache::new(&c, 4, 0.0f32);
    assert_eq!((none.byte_len(), none.max_seq(), none.n_layers()), (0, 4, 2));
}

#[test]
fn head_major_rows_are_the_front_of_a_slice() {
    let c = qwen_config();
    let mut cache = KvCache::with_layout(&c, 8, KvLayout::HeadMajor, 0.0f32);
    let long: Vec<f32> = (0..200).map(|i| 1.0 + i as f32).collect();
    cache.fill_for_bench(3, 7, &long, &long[10..]);
    for h in 0..2 {
        assert_eq!(cache.key(3, 7, h), &long[64 * h..64 * (h + 1)]);
        assert_eq!(cache.value(3, 7, h), &long[10 + 64 * h..10 + 64 * (h + 1)]);
    }
    assert!(cache.key(4, 0, 0).iter().all(|x| *x == 0.0));
    assert_eq!(cache.len(), 8);
}

#[test]
fn a_new_workspace_is_empty() {
    let c = qwen_config();
    let mut ws = Workspace::new(&c, 16, 0.0f32);
    assert_eq!(ws.attention_all().len(), 24 * 14 * 16);
    assert!(ws.attention_all().iter().all(|x| *x == 0.0));
    assert!(ws.scores(16).iter().all(|x| *x == 0.0));
    assert!(ws.exact_row(4864).iter().all(|x| *x == 0.0));
    assert!(ws.logits().iter().all(|x| *x == 0.0));
    ws.set_capture_attention(true);
    assert!(ws.captures_attention());
    assert_eq!(ws.attention(23, 13, 99).len(), 16);
    assert_eq!(ws.attention_all().len(), 24 * 14 * 16);
    ws.capture(0, 1, &[0.25, 0.75]);
    ws.set_capture_attention(false);
    ws.set_capture_attention(true);
    assert_eq!(ws.attention(0, 1, 2), &[0.25, 0.75]);
}
