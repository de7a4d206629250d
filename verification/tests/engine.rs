//! Conversations, the explorer, and the command line.
#![allow(dead_code)]
use nano_infer::bits::{F32Bits, F64Bits};
use nano_infer::cli::args::{
    bench_options, command, dequant_options, dump_options, generate_options, has_flag,
    parse_number, positional, tokenize_options, value_after, Command,
};
use nano_infer::cli::generate::{front_part, repetitions, room_for, Generation, Offer};
use nano_infer::cli::report::{floats_shown, human_bytes, summarize, Float};
use nano_infer::cli::tables::{cache_lengths, config_rows, tensor_kinds};
use nano_infer::engine::explore::{inspect_block, tensor_list, InspectError};
use nano_infer::engine::session::{
    check_decode, check_prefill, clamp_seq, description, has_head, seed_from, Counters, Session,
    StepError, MAX_SEED, ROLLING_WINDOW,
};
use nano_infer::engine::stream::TextStream;
use nano_infer::gguf::{Array, GgmlType, Gguf, Value};
use nano_infer::ops::RopeKind;
use nano_infer::sample::{Sampler, SamplerConfig};
use nano_infer::tokenizer::{byte_to_char, Tokenizer};
use nano_infer::QuantError;

const U8: u32 = 0;
const I16: u32 = 3;
const U32: u32 = 4;
const I32: u32 = 5;
const F32: u32 = 6;
const BOOL: u32 = 7;
const STRING: u32 = 8;
const ARRAY: u32 = 9;
const U64: u32 = 10;
const F64: u32 = 12;

/// A minimal GGUF writer that shares nothing with the parser.
struct Builder {
    kv: Vec<u8>,
    kv_count: u64,
    ti: Vec<u8>,
    t_count: u64,
    data: Vec<u8>,
    alignment: u64,
    version: u32,
    magic: [u8; 4],
}

fn put_str(out: &mut Vec<u8>, s: &str) {
    out.extend_from_slice(&(s.len() as u64).to_le_bytes());
    out.extend_from_slice(s.as_bytes());
}

impl Builder {
    fn new() -> Self {
        Self {
            kv: Vec::new(),
            kv_count: 0,
            ti: Vec::new(),
            t_count: 0,
            data: Vec::new(),
            alignment: 32,
            version: 3,
            magic: *b"GGUF",
        }
    }

    fn version(mut self, v: u32) -> Self {
        self.version = v;
        self
    }

    fn magic(mut self, m: [u8; 4]) -> Self {
        self.magic = m;
        self
    }

    /// Sets the padding; the key is written separately.
    fn alignment(mut self, a: u64) -> Self {
        self.alignment = a;
        self
    }

    fn value(mut self, key: &str, tag: u32, bytes: &[u8]) -> Self {
        put_str(&mut self.kv, key);
        self.kv.extend_from_slice(&tag.to_le_bytes());
        self.kv.extend_from_slice(bytes);
        self.kv_count += 1;
        self
    }

    fn u8(self, key: &str, v: u8) -> Self {
        self.value(key, U8, &[v])
    }

    fn i16(self, key: &str, v: i16) -> Self {
        self.value(key, I16, &v.to_le_bytes())
    }

    fn u32(self, key: &str, v: u32) -> Self {
        self.value(key, U32, &v.to_le_bytes())
    }

    fn i32(self, key: &str, v: i32) -> Self {
        self.value(key, I32, &v.to_le_bytes())
    }

    fn u64(self, key: &str, v: u64) -> Self {
        self.value(key, U64, &v.to_le_bytes())
    }

    fn f32(self, key: &str, v: f32) -> Self {
        self.value(key, F32, &v.to_le_bytes())
    }

    fn f64(self, key: &str, v: f64) -> Self {
        self.value(key, F64, &v.to_le_bytes())
    }

    fn bool(self, key: &str, v: bool) -> Self {
        self.value(key, BOOL, &[v as u8])
    }

    fn string(self, key: &str, v: &str) -> Self {
        self.raw_string(key, v.as_bytes())
    }

    /// A string value of any bytes.
    fn raw_string(self, key: &str, bytes: &[u8]) -> Self {
        let mut b = (bytes.len() as u64).to_le_bytes().to_vec();
        b.extend_from_slice(bytes);
        self.value(key, STRING, &b)
    }

    /// An array that claims a length, with the bytes of its elements.
    fn array(self, key: &str, elem: u32, n: u64, items: &[u8]) -> Self {
        let mut b = elem.to_le_bytes().to_vec();
        b.extend_from_slice(&n.to_le_bytes());
        b.extend_from_slice(items);
        self.value(key, ARRAY, &b)
    }

    fn str_array(self, key: &str, vs: &[&str]) -> Self {
        let mut b = Vec::new();
        for s in vs {
            put_str(&mut b, s);
        }
        self.array(key, STRING, vs.len() as u64, &b)
    }

    fn f32_array(self, key: &str, vs: &[f32]) -> Self {
        let b: Vec<u8> = vs.iter().flat_map(|v| v.to_le_bytes()).collect();
        self.array(key, F32, vs.len() as u64, &b)
    }

    fn i32_array(self, key: &str, vs: &[i32]) -> Self {
        let b: Vec<u8> = vs.iter().flat_map(|v| v.to_le_bytes()).collect();
        self.array(key, I32, vs.len() as u64, &b)
    }

    /// A tensor with its data, padded so that its offset stays aligned.
    fn tensor(mut self, name: &str, dims: &[u64], ty: GgmlType, bytes: &[u8]) -> Self {
        while self.data.len() as u64 % self.alignment != 0 {
            self.data.push(0);
        }
        let offset = self.data.len() as u64;
        self.data.extend_from_slice(bytes);
        self.tensor_info_only(name, dims, ty, offset)
    }

    /// A tensor at any offset, without data.
    fn tensor_info_only(self, name: &str, dims: &[u64], ty: GgmlType, offset: u64) -> Self {
        self.raw_tensor_info(name, dims.len() as u32, dims, ty.to_tag(), offset)
    }

    fn raw_tensor_info(mut self, name: &str, n_dims: u32, dims: &[u64], tag: u32, offset: u64) -> Self {
        put_str(&mut self.ti, name);
        self.ti.extend_from_slice(&n_dims.to_le_bytes());
        for d in dims {
            self.ti.extend_from_slice(&d.to_le_bytes());
        }
        self.ti.extend_from_slice(&tag.to_le_bytes());
        self.ti.extend_from_slice(&offset.to_le_bytes());
        self.t_count += 1;
        self
    }

    fn build(self) -> Vec<u8> {
        let mut out = Vec::new();
        out.extend_from_slice(&self.magic);
        out.extend_from_slice(&self.version.to_le_bytes());
        out.extend_from_slice(&self.t_count.to_le_bytes());
        out.extend_from_slice(&self.kv_count.to_le_bytes());
        out.extend_from_slice(&self.kv);
        out.extend_from_slice(&self.ti);
        while out.len() as u64 % self.alignment != 0 {
            out.push(0);
        }
        out.extend_from_slice(&self.data);
        out
    }
}

/// The metadata of Qwen2.5-0.5B-Instruct, with a vocabulary of one's own.
fn qwen2_5_0_5b(vocab: &[&str]) -> Builder {
    Builder::new()
        .string("general.architecture", "qwen2")
        .string("general.name", "Qwen2.5-0.5B-Instruct")
        .u32("general.file_type", 15)
        .u32("general.quantization_version", 2)
        .u32("qwen2.block_count", 24)
        .u32("qwen2.context_length", 32768)
        .u32("qwen2.embedding_length", 896)
        .u32("qwen2.feed_forward_length", 4864)
        .u32("qwen2.attention.head_count", 14)
        .u32("qwen2.attention.head_count_kv", 2)
        .f32("qwen2.attention.layer_norm_rms_epsilon", 1e-6)
        .f32("qwen2.rope.freq_base", 1_000_000.0)
        .string("tokenizer.ggml.model", "gpt2")
        .string("tokenizer.ggml.pre", "qwen2")
        .str_array("tokenizer.ggml.tokens", vocab)
        .u32("tokenizer.ggml.bos_token_id", 151643)
        .u32("tokenizer.ggml.eos_token_id", 151645)
        .u32("tokenizer.ggml.padding_token_id", 151643)
        .bool("tokenizer.ggml.add_bos_token", false)
}

fn dummy_vocab(n: usize) -> Vec<String> {
    (0..n).map(|i| format!("tok{i}")).collect()
}

fn strs(v: &[String]) -> Vec<&str> {
    v.iter().map(|s| s.as_str()).collect()
}

fn args(line: &str) -> Vec<String> {
    line.split('|').map(String::from).collect()
}

#[test]
fn text_comes_out_when_characters_are_complete() {
    let mut s = TextStream::new();
    assert_eq!(s.push(b"a"), "a");
    // A smiling face in four bytes.
    assert_eq!(s.push(&[0xf0]), "");
    assert_eq!(s.push(&[0x9f, 0x99]), "");
    assert_eq!(s.push(&[0x82, b'!']), "\u{1f642}!");
    // A byte that begins no character is dropped; what stands behind it comes next time.
    assert_eq!(s.push(&[0xff, b'b']), "");
    assert_eq!(s.push(b"c"), "bc");
    assert_eq!(s.push(&[b'd', 0xe4]), "d");
    s.clear();
    assert_eq!(s.push(b"e"), "e");
}

#[test]
fn streamed_text_is_the_text() {
    let text = "h\u{e9}llo \u{1f642} \u{4e2d}\u{6587} \u{10ffff}";
    for size in 1..6 {
        let mut s = TextStream::new();
        let mut out = String::new();
        for piece in text.as_bytes().chunks(size) {
            out.push_str(&s.push(piece));
        }
        assert_eq!(out, text, "pieces of {size}");
    }
}

/// What the standard library holds back of some bytes.
fn expected_push(pending: &mut Vec<u8>, bytes: &[u8]) -> String {
    pending.extend_from_slice(bytes);
    match std::str::from_utf8(pending) {
        Ok(s) => {
            let out = s.to_string();
            pending.clear();
            out
        }
        Err(e) => {
            let valid = e.valid_up_to();
            let out = std::str::from_utf8(&pending[..valid]).unwrap().to_string();
            let bad = e.error_len().unwrap_or(0);
            pending.drain(..valid + bad);
            out
        }
    }
}

#[test]
fn any_bytes_stream_as_the_standard_library_reads_them() {
    let mut state = 0x9e37_79b9_7f4a_7c15u64;
    for _ in 0..300 {
        let mut s = TextStream::new();
        let mut pending = Vec::new();
        for _ in 0..12 {
            let mut piece = Vec::new();
            for _ in 0..4 {
                state ^= state << 13;
                state ^= state >> 7;
                state ^= state << 17;
                // Mostly bytes above 0x7f, where sequences break.
                piece.push(if state % 3 == 0 { (state >> 8) as u8 } else { (state >> 8) as u8 | 0x80 });
            }
            assert_eq!(s.push(&piece), expected_push(&mut pending, &piece), "{piece:02x?}");
        }
    }
}

fn byte_model() -> Vec<u8> {
    let mut tokens: Vec<String> = (0..=255u8).map(|b| byte_to_char(b).to_string()).collect();
    tokens.push("ab".into());
    tokens.push("<end>".into());
    let mut types = vec![1; 257];
    types.push(3);
    Builder::new()
        .str_array("tokenizer.ggml.tokens", &strs(&tokens))
        .i32_array("tokenizer.ggml.token_type", &types)
        .str_array("tokenizer.ggml.merges", &["a b"])
        .build()
}

#[test]
fn a_session_takes_tokens_until_the_end() {
    let bytes = byte_model();
    let g = Gguf::parse(&bytes).ok().unwrap();
    let tk = Tokenizer::from_gguf(&g).ok().unwrap();
    let sampler = Sampler::new(SamplerConfig::default(), 258);
    let mut s = Session::new(tk, sampler, Some(257));
    s.prefilled(&[1, 2, 3]);
    assert_eq!(s.counters.prefill_tokens, 3);
    assert_eq!(s.sampler.history(), &[1, 2, 3]);

    let t = s.take(b'h' as u32, 3, 5);
    assert_eq!((t.text.as_str(), t.is_eos, t.feed), ("h", false, Some(3)));
    let t = s.take(0xe4, 4, 5);
    assert_eq!((t.text.as_str(), t.feed), ("", Some(4)));
    // The cache is full: the token is taken but not fed.
    let t = s.take(256, 5, 5);
    assert_eq!((t.text.as_str(), t.feed), ("", None));
    let t = s.take(257, 4, 5);
    assert_eq!((t.text.as_str(), t.is_eos, t.feed), ("", true, None));
    assert_eq!(s.sampler.history().len(), 7);

    s.reset();
    assert_eq!(s.counters, Counters::zero());
    assert!(s.sampler.history().is_empty());
    assert_eq!(s.take(256, 0, 5).text, "ab");
}

#[test]
fn prompts_must_fit() {
    assert_eq!(check_prefill(3, 2, 5), Ok(()));
    assert_eq!(check_prefill(0, 2, 5), Err(StepError::EmptyPrompt));
    assert_eq!(check_prefill(4, 2, 5), Err(StepError::PromptTooLong));
    assert_eq!(check_prefill(usize::MAX, 2, 5), Err(StepError::PromptTooLong));
    assert_eq!(check_decode(0), Err(StepError::NothingPrefilled));
    assert_eq!(check_decode(1), Ok(()));
    assert_eq!(StepError::EmptyPrompt.message(), "prefill needs at least one token");
    assert_eq!(StepError::PromptTooLong.message(), "prompt does not fit in the KV cache");
    assert_eq!(StepError::NothingPrefilled.message(), "call prefill() before decode_step()");
    assert_eq!(clamp_seq(3, 100), 16);
    assert_eq!(clamp_seq(50, 100), 50);
    assert_eq!(clamp_seq(500, 100), 100);
}

#[test]
fn the_window_turns_over() {
    let mut c = Counters::zero();
    for i in 0..40usize {
        let note = c.count_step();
        assert_eq!(note.slot, i % ROLLING_WINDOW);
        assert_eq!(note.first, i == 0);
        assert_eq!(c.recent_len, (i + 1).min(ROLLING_WINDOW));
    }
    assert_eq!(c.decode_tokens, 40);
}

#[test]
fn seeds_survive_the_trip_through_doubles() {
    let seed = |x: f64| seed_from(F64Bits(x.to_bits()));
    assert_eq!(seed(0.0), 0);
    assert_eq!(seed(42.9), 42);
    assert_eq!(seed(-1.0), 0);
    assert_eq!(seed(-0.0), 0);
    assert_eq!(seed(f64::NAN), 0);
    assert_eq!(seed(f64::INFINITY), 0);
    assert_eq!(seed(1e300), MAX_SEED);
    assert_eq!(seed(9_007_199_254_740_991.0), MAX_SEED);
    for x in [0.5, 1.0, 1.5, 3e5, 123_456_789.75, 4.5e15] {
        assert_eq!(seed(x), x as u64, "{x}");
    }
}

#[test]
fn the_explorer_lists_and_opens_tensors() {
    let mut block = [0u8; 34];
    block[1] = 0x3c;
    block[2] = 5;
    let bytes = Builder::new()
        .tensor("a", &[32, 2], GgmlType::Q8_0, &[block, block].concat())
        .tensor("b", &[3], GgmlType::F32, &[0u8; 12])
        .build();
    let g = Gguf::parse(&bytes).ok().unwrap();
    let list = tensor_list(&g);
    assert_eq!(list.len(), 2);
    assert_eq!((list[0].name.as_str(), list[0].format), ("a", "q8_0"));
    assert_eq!((list[0].rows, list[0].cols, list[0].blocks), (2, 32, 2));
    assert_eq!((list[0].bytes, list[0].elements, list[0].inspectable), (68, 64, true));
    assert_eq!((list[1].rows, list[1].cols, list[1].blocks), (1, 3, 3));
    assert!(!list[1].inspectable);

    let b = inspect_block(&g, "a", 1).ok().unwrap();
    assert_eq!(b.quants[0], 5);
    assert_eq!(b.quant_range, (-128, 127));
    let e = inspect_block(&g, "a", 2).err().unwrap();
    assert_eq!(e.message(), "block 2 out of range; a has 2");
    let e = inspect_block(&g, "x", 0).err().unwrap();
    assert_eq!(e.message(), "no tensor named \"x\"");
    let e = inspect_block(&g, "b", 0).err().unwrap();
    assert!(matches!(e, InspectError::Quant(QuantError::UnsupportedType(GgmlType::F32))));
}

#[test]
fn models_are_described() {
    let vocab = dummy_vocab(5);
    let bytes = qwen2_5_0_5b(&strs(&vocab)).build();
    let g = Gguf::parse(&bytes).ok().unwrap();
    let c = g.config().ok().unwrap();
    assert_eq!(
        description(&c),
        "qwen2 \u{b7} 24 layers \u{b7} d=896 \u{b7} 14 heads / 2 kv \u{b7} vocab 5"
    );
    assert!(has_head(&c, 23, 13));
    assert!(!has_head(&c, 24, 0) && !has_head(&c, 0, 14));

    let rows = config_rows(&c, "1e-6", "1000000");
    let value = |k: &str| rows.iter().find(|r| r.0 == k).map(|r| r.1.clone()).unwrap();
    assert_eq!(rows.len(), 16);
    assert_eq!(value("name"), "Qwen2.5-0.5B-Instruct");
    assert_eq!(value("head_dim"), "64  (kv group size 7)");
    assert_eq!(value("rms_norm_eps"), "1e-6");
    assert_eq!(value("rope_dim_count"), "- (all 64 dims)");
    assert_eq!(
        value("special tokens"),
        "bos Some(151643)  eos Some(151645)  pad Some(151643)  unk None"
    );
    assert_eq!(value("q_dim / kv_dim"), "896 / 128");
    assert_eq!(cache_lengths(c.context_length), vec![512, 2048, 4096, 8192, 32768]);
    assert_eq!(cache_lengths(3000), vec![512, 2048, 3000]);
    assert_eq!(cache_lengths(100), vec![100]);
}

/// Sizes as floating point gives them.
fn expected_size(n: u64) -> String {
    let units = ["B", "KiB", "MiB", "GiB", "TiB"];
    let mut v = n as f64;
    let mut u = 0;
    while v >= 1024.0 && u < 4 {
        v /= 1024.0;
        u += 1;
    }
    if u == 0 {
        format!("{n} B")
    } else {
        format!("{v:.1} {}", units[u])
    }
}

#[test]
fn sizes_read_as_people_read_them() {
    assert_eq!(human_bytes(0), "0 B");
    assert_eq!(human_bytes(1023), "1023 B");
    assert_eq!(human_bytes(1024), "1.0 KiB");
    assert_eq!(human_bytes(1536), "1.5 KiB");
    assert_eq!(human_bytes(50_331_648), "48.0 MiB");
    assert_eq!(human_bytes(805_306_368), "768.0 MiB");
    // Halves go to the even tenth.
    assert_eq!(human_bytes(1024 + 256), "1.2 KiB");
    assert_eq!(human_bytes(1024 + 768), "1.8 KiB");
    let mut state = 7u64;
    for i in 0..20_000u32 {
        state ^= state << 13;
        state ^= state >> 7;
        state ^= state << 17;
        let n = state >> (i % 64);
        assert_eq!(human_bytes(n), expected_size(n), "{n}");
    }
    for n in [u64::MAX, u64::MAX - 1024, (1 << 53) + 1, (1 << 54) + 2, 1 << 50] {
        assert_eq!(human_bytes(n), expected_size(n), "{n}");
    }
}

#[test]
fn values_fit_on_a_line() {
    let line = |v: &Value, floats: &[&str]| {
        let texts: Vec<String> = floats.iter().map(|s| s.to_string()).collect();
        assert_eq!(floats_shown(v).len(), texts.len());
        summarize(v, &texts)
    };
    assert_eq!(line(&Value::U8(7), &[]), "7");
    assert_eq!(line(&Value::I8(-128), &[]), "-128");
    assert_eq!(line(&Value::I64(i64::MIN), &[]), "-9223372036854775808");
    assert_eq!(line(&Value::U64(u64::MAX), &[]), "18446744073709551615");
    assert_eq!(line(&Value::U16(3), &[]), "3");
    assert_eq!(line(&Value::I16(-3), &[]), "-3");
    assert_eq!(line(&Value::U32(4), &[]), "4");
    assert_eq!(line(&Value::I32(-4), &[]), "-4");
    assert_eq!(line(&Value::Bool(true), &[]), "true");
    assert_eq!(line(&Value::Bool(false), &[]), "false");
    let half = F32Bits(0.5f32.to_bits());
    assert_eq!(line(&Value::F32(half), &["0.5"]), "0.5");
    assert_eq!(line(&Value::F64(F64Bits(0)), &["0"]), "0");
    assert_eq!(floats_shown(&Value::F32(half)), vec![Float::Single(half)]);
    assert_eq!(line(&Value::Str("a\"\n"), &[]), "\"a\\\"\\n\"");
    let long = "x".repeat(61);
    assert_eq!(line(&Value::Str(&long), &[]), format!("{:?}... (61 bytes)", "x".repeat(57)));
    // The cut does not fall inside a character.
    let wide = "\u{4e2d}".repeat(30);
    assert_eq!(line(&Value::Str(&wide), &[]), format!("{:?}... (90 bytes)", "\u{4e2d}".repeat(19)));
    let odd = format!("x{}", "\u{4e2d}".repeat(30));
    let cut = format!("x{}", "\u{4e2d}".repeat(18));
    assert_eq!(line(&Value::Str(&odd), &[]), format!("{cut:?}... (91 bytes)"));
    assert_eq!(line(&Value::Array(Array::I32(vec![-1, 2])), &[]), "[i32; 2] -1, 2");
    assert_eq!(line(&Value::Array(Array::U32(vec![1, 2, 3, 4, 5])), &[]), "[u32; 5] 1, 2, 3, 4, ...");
    assert_eq!(line(&Value::Array(Array::Str(vec!["a"])), &[]), "[string; 1] \"a\"");
    assert_eq!(line(&Value::Array(Array::Str(vec![])), &[]), "[string; 0] ");
    assert_eq!(line(&Value::Array(Array::F32(vec![half; 5])), &["a", "b", "c", "d"]), "[f32; 5] a, b, c, d, ...");
    assert_eq!(line(&Value::Array(Array::U8(vec![1])), &[]), "[u8; 1] ...");
}

#[test]
fn tensor_types_are_ranked_by_their_bytes() {
    let bytes = Builder::new()
        .tensor("a", &[8], GgmlType::F32, &[0; 32])
        .tensor("b", &[16], GgmlType::F16, &[0; 32])
        .tensor("c", &[32], GgmlType::Q8_0, &[0; 34])
        .tensor("d", &[32], GgmlType::Q8_0, &[0; 34])
        .build();
    let g = Gguf::parse(&bytes).ok().unwrap();
    let kinds = tensor_kinds(&g.tensors);
    let seen: Vec<_> = kinds.iter().map(|k| (k.ty, k.count, k.bytes, k.elements)).collect();
    assert_eq!(
        seen,
        vec![
            (GgmlType::Q8_0, 2, 68, 64),
            (GgmlType::F32, 1, 32, 8),
            (GgmlType::F16, 1, 32, 16),
        ]
    );
    assert_eq!(g.tensor_bytes(), 132);
    assert!(tensor_kinds(&Vec::new()).is_empty());
}

#[test]
fn commands_are_told_apart() {
    assert_eq!(command(&[]), Command::Help);
    for (name, want) in [
        ("gguf-dump", Command::GgufDump),
        ("tokenize", Command::Tokenize),
        ("generate", Command::Generate),
        ("bench-kv", Command::BenchKv),
        ("dequant", Command::Dequant),
        ("help", Command::Help),
        ("-h", Command::Help),
        ("--help", Command::Help),
        ("fly", Command::Unknown),
    ] {
        assert_eq!(command(&args(name)), want);
    }
}

#[test]
fn options_are_read() {
    let a = args("--all|m.gguf|x|--n|7");
    assert_eq!(positional(&a, 0), Some("m.gguf"));
    // The value of an option counts too.
    assert_eq!(positional(&a, 2), Some("7"));
    assert_eq!(positional(&a, 3), None);
    assert!(has_flag(&a, "--all") && !has_flag(&a, "--al"));
    assert_eq!(value_after(&a, "--n"), Some("7"));
    assert_eq!(value_after(&a, "7"), None);

    let o = dump_options(&a).ok().unwrap();
    assert!(o.path == "m.gguf" && o.show_tensors && o.show_metadata);
    let o = dump_options(&args("m|--tensors")).ok().unwrap();
    assert!(o.show_tensors && !o.show_metadata);
    assert_eq!(dump_options(&args("--all")), Err("gguf-dump needs a path to a .gguf file"));

    let o = tokenize_options(&args("m|hi|--chat")).ok().unwrap();
    assert!(o.text == "hi" && o.chat && o.parse_special);
    assert_eq!(tokenize_options(&[]), Err("tokenize needs a .gguf path"));
    assert_eq!(tokenize_options(&args("m")), Err("tokenize needs some text"));

    let o = dequant_options(&args("m|w")).ok().unwrap();
    assert_eq!((o.name.as_str(), o.n_blocks), ("w", 4));
    assert_eq!(dequant_options(&args("--x")), Err("dequant needs a .gguf path"));
    assert_eq!(dequant_options(&args("m")), Err("dequant needs a tensor name"));
    assert_eq!(dequant_options(&args("m|w|--blocks|two")), Err("--blocks needs a number"));
    assert_eq!(dequant_options(&args("m|w|--blocks")), Err("--blocks needs a number"));

    let o = bench_options(&args("m|--n|5|--micro")).ok().unwrap();
    assert!(o.n_steps == 5 && o.micro_only);
    assert_eq!(bench_options(&args("m|--n|five")).ok().unwrap().n_steps, 24);
    assert_eq!(bench_options(&[]), Err("bench-kv needs a .gguf path"));
}

#[test]
fn generation_options_are_read() {
    let o = generate_options(&args("m|hi")).ok().unwrap();
    assert_eq!((o.path.as_str(), o.prompt.as_str(), o.n_gen), ("m", "hi", 32));
    assert!(o.fused && !o.chat && !o.batched_prefill && !o.show_ids);
    assert_eq!(o.rope_kind, RopeKind::SplitHalf);
    assert_eq!((o.top_k, o.repetition_window, o.seed), (0, 64, 0));
    assert_eq!((o.temperature, o.top_p, o.repetition_penalty), (None, None, None));
    let o = generate_options(&args(
        "m|hi|--n|3|--chat|--unfused|--batched-prefill|--rope-adjacent|--ids|--top-k|40|\
         --repeat-window|9|--seed|12|--temp|0.7|--top-p|0.9|--repeat-penalty|1.1",
    ))
    .ok()
    .unwrap();
    assert!(!o.fused && o.chat && o.batched_prefill && o.show_ids);
    assert_eq!(o.rope_kind, RopeKind::Adjacent);
    assert_eq!((o.n_gen, o.top_k, o.repetition_window, o.seed), (3, 40, 9, 12));
    assert_eq!(o.temperature.as_deref(), Some("0.7"));
    assert_eq!(o.top_p.as_deref(), Some("0.9"));
    assert_eq!(o.repetition_penalty.as_deref(), Some("1.1"));
    assert_eq!(generate_options(&[]), Err("generate needs a .gguf path"));
    assert_eq!(generate_options(&args("m")), Err("generate needs a prompt"));
    assert_eq!(generate_options(&args("m|hi|--n|-1")), Err("--n needs a number"));
}

#[test]
fn numbers_parse_as_the_standard_library_parses_them() {
    for s in ["0", "7", "007", "+7", "", "+", "-1", "1x", " 1", "18446744073709551615",
        "18446744073709551616", "99999999999999999999999", "++1", "\u{661}"] {
        assert_eq!(parse_number(s, u64::MAX), s.parse::<u64>().ok(), "{s:?}");
    }
    assert_eq!(parse_number("256", 255), None);
    assert_eq!(parse_number("255", 255), Some(255));
}

#[test]
fn a_generation_stops_in_time() {
    let mut g = Generation::new(3, 10, Some(9));
    assert_eq!(g.offer(1, 4), Offer::Feed);
    assert_eq!(g.offer(2, 10), Offer::Last);
    assert_eq!(g.offer(9, 5), Offer::End);
    assert_eq!(g.offer(3, 5), Offer::Feed);
    assert_eq!(g.offer(4, 5), Offer::End);
    assert_eq!(g.ids(), &[1, 2, 3]);
    assert_eq!(Generation::new(0, 10, None).offer(1, 0), Offer::End);
}

#[test]
fn room_is_a_power_of_two() {
    for (t, n) in [(0usize, 0usize), (5, 32), (56, 0), (57, 0), (100, 20), (120, 0), (121, 0), (1000, 500)] {
        assert_eq!(room_for(t, n), (t + n + 8).next_power_of_two().max(64), "{t} {n}");
    }
    assert_eq!(repetitions(256), 7812);
    assert_eq!(repetitions(1_000_000), 4);
}

#[test]
fn front_parts_are_whole_blocks() {
    let bytes = Builder::new()
        .tensor("w", &[32, 3], GgmlType::Q8_0, &[0; 102])
        .build();
    let g = Gguf::parse(&bytes).ok().unwrap();
    let t = g.find_tensor("w").unwrap();
    let p = front_part(t, 2);
    assert_eq!((p.blocks, p.elements, p.bytes, p.total_blocks), (2, 64, 68, 3));
    assert_eq!(front_part(t, 9).blocks, 3);
}

#[test]
fn nothing_is_lost_on_the_way() {
    let text = "h\u{e9}llo \u{1f642} \u{4e2d}\u{6587} \u{10ffff}";
    for size in 1..6 {
        let mut s = TextStream::new();
        let mut given = String::new();
        let mut arrived = 0;
        for piece in text.as_bytes().chunks(size) {
            given.push_str(&s.push(piece));
            arrived += piece.len();
            // What was given is the front of what arrived, up to a part of a character.
            assert!(text.starts_with(&given));
            let held = arrived - given.len();
            assert!(held <= 3);
            let next = text[given.len()..].chars().next().map_or(0, |c| c.len_utf8());
            assert!(held == 0 || held < next);
        }
        assert_eq!(given, text);
    }
}
