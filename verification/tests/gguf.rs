//! The GGUF container.
#![allow(dead_code)]
use nano_infer::bits::{double_to_single, integer_to_single, unsigned_to_single, F32Bits, F64Bits};
use nano_infer::gguf::parse::read_tensor_info;
use nano_infer::gguf::reader::Reader;
use nano_infer::gguf::{Array, Gguf, GgmlType, GgufError, ModelConfig, Value, DEFAULT_ALIGNMENT};
use nano_infer::quant::{dequantize_row, f16_to_f32, f32_to_f16, Scale, Weight};

const U8: u32 = 0;
const I16: u32 = 3;
const U32: u32 = 4;
const I32: u32 = 5;
const F32: u32 = 6;
const BOOL: u32 = 7;
const STRING: u32 = 8;
const ARRAY: u32 = 9;
const U64: u32 = 10;
const F64: u32 = 12;

/// A minimal GGUF writer that shares nothing with the parser.
struct Builder {
    kv: Vec<u8>,
    kv_count: u64,
    ti: Vec<u8>,
    t_count: u64,
    data: Vec<u8>,
    alignment: u64,
    version: u32,
    magic: [u8; 4],
}

fn put_str(out: &mut Vec<u8>, s: &str) {
    out.extend_from_slice(&(s.len() as u64).to_le_bytes());
    out.extend_from_slice(s.as_bytes());
}

impl Builder {
    fn new() -> Self {
        Self {
            kv: Vec::new(),
            kv_count: 0,
            ti: Vec::new(),
            t_count: 0,
            data: Vec::new(),
            alignment: 32,
            version: 3,
            magic: *b"GGUF",
        }
    }

    fn version(mut self, v: u32) -> Self {
        self.version = v;
        self
    }

    fn magic(mut self, m: [u8; 4]) -> Self {
        self.magic = m;
        self
    }

    /// Sets the padding; the key is written separately.
    fn alignment(mut self, a: u64) -> Self {
        self.alignment = a;
        self
    }

    fn value(mut self, key: &str, tag: u32, bytes: &[u8]) -> Self {
        put_str(&mut self.kv, key);
        self.kv.extend_from_slice(&tag.to_le_bytes());
        self.kv.extend_from_slice(bytes);
        self.kv_count += 1;
        self
    }

    fn u8(self, key: &str, v: u8) -> Self {
        self.value(key, U8, &[v])
    }

    fn i16(self, key: &str, v: i16) -> Self {
        self.value(key, I16, &v.to_le_bytes())
    }

    fn u32(self, key: &str, v: u32) -> Self {
        self.value(key, U32, &v.to_le_bytes())
    }

    fn i32(self, key: &str, v: i32) -> Self {
        self.value(key, I32, &v.to_le_bytes())
    }

    fn u64(self, key: &str, v: u64) -> Self {
        self.value(key, U64, &v.to_le_bytes())
    }

    fn f32(self, key: &str, v: f32) -> Self {
        self.value(key, F32, &v.to_le_bytes())
    }

    fn f64(self, key: &str, v: f64) -> Self {
        self.value(key, F64, &v.to_le_bytes())
    }

    fn bool(self, key: &str, v: bool) -> Self {
        self.value(key, BOOL, &[v as u8])
    }

    fn string(self, key: &str, v: &str) -> Self {
        self.raw_string(key, v.as_bytes())
    }

    /// A string value of any bytes.
    fn raw_string(self, key: &str, bytes: &[u8]) -> Self {
        let mut b = (bytes.len() as u64).to_le_bytes().to_vec();
        b.extend_from_slice(bytes);
        self.value(key, STRING, &b)
    }

    /// An array that claims a length, with the bytes of its elements.
    fn array(self, key: &str, elem: u32, n: u64, items: &[u8]) -> Self {
        let mut b = elem.to_le_bytes().to_vec();
        b.extend_from_slice(&n.to_le_bytes());
        b.extend_from_slice(items);
        self.value(key, ARRAY, &b)
    }

    fn str_array(self, key: &str, vs: &[&str]) -> Self {
        let mut b = Vec::new();
        for s in vs {
            put_str(&mut b, s);
        }
        self.array(key, STRING, vs.len() as u64, &b)
    }

    fn f32_array(self, key: &str, vs: &[f32]) -> Self {
        let b: Vec<u8> = vs.iter().flat_map(|v| v.to_le_bytes()).collect();
        self.array(key, F32, vs.len() as u64, &b)
    }

    fn i32_array(self, key: &str, vs: &[i32]) -> Self {
        let b: Vec<u8> = vs.iter().flat_map(|v| v.to_le_bytes()).collect();
        self.array(key, I32, vs.len() as u64, &b)
    }

    /// A tensor with its data, padded so that its offset stays aligned.
    fn tensor(mut self, name: &str, dims: &[u64], ty: GgmlType, bytes: &[u8]) -> Self {
        while self.data.len() as u64 % self.alignment != 0 {
            self.data.push(0);
        }
        let offset = self.data.len() as u64;
        self.data.extend_from_slice(bytes);
        self.tensor_info_only(name, dims, ty, offset)
    }

    /// A tensor at any offset, without data.
    fn tensor_info_only(self, name: &str, dims: &[u64], ty: GgmlType, offset: u64) -> Self {
        self.raw_tensor_info(name, dims.len() as u32, dims, ty.to_tag(), offset)
    }

    fn raw_tensor_info(mut self, name: &str, n_dims: u32, dims: &[u64], tag: u32, offset: u64) -> Self {
        put_str(&mut self.ti, name);
        self.ti.extend_from_slice(&n_dims.to_le_bytes());
        for d in dims {
            self.ti.extend_from_slice(&d.to_le_bytes());
        }
        self.ti.extend_from_slice(&tag.to_le_bytes());
        self.ti.extend_from_slice(&offset.to_le_bytes());
        self.t_count += 1;
        self
    }

    fn build(self) -> Vec<u8> {
        let mut out = Vec::new();
        out.extend_from_slice(&self.magic);
        out.extend_from_slice(&self.version.to_le_bytes());
        out.extend_from_slice(&self.t_count.to_le_bytes());
        out.extend_from_slice(&self.kv_count.to_le_bytes());
        out.extend_from_slice(&self.kv);
        out.extend_from_slice(&self.ti);
        while out.len() as u64 % self.alignment != 0 {
            out.push(0);
        }
        out.extend_from_slice(&self.data);
        out
    }
}

/// The metadata of Qwen2.5-0.5B-Instruct, with a vocabulary of one's own.
fn qwen2_5_0_5b(vocab: &[&str]) -> Builder {
    Builder::new()
        .string("general.architecture", "qwen2")
        .string("general.name", "Qwen2.5-0.5B-Instruct")
        .u32("general.file_type", 15)
        .u32("general.quantization_version", 2)
        .u32("qwen2.block_count", 24)
        .u32("qwen2.context_length", 32768)
        .u32("qwen2.embedding_length", 896)
        .u32("qwen2.feed_forward_length", 4864)
        .u32("qwen2.attention.head_count", 14)
        .u32("qwen2.attention.head_count_kv", 2)
        .f32("qwen2.attention.layer_norm_rms_epsilon", 1e-6)
        .f32("qwen2.rope.freq_base", 1_000_000.0)
        .string("tokenizer.ggml.model", "gpt2")
        .string("tokenizer.ggml.pre", "qwen2")
        .str_array("tokenizer.ggml.tokens", vocab)
        .u32("tokenizer.ggml.bos_token_id", 151643)
        .u32("tokenizer.ggml.eos_token_id", 151645)
        .u32("tokenizer.ggml.padding_token_id", 151643)
        .bool("tokenizer.ggml.add_bos_token", false)
}

fn dummy_vocab(n: usize) -> Vec<String> {
    (0..n).map(|i| format!("tok{i}")).collect()
}

fn strs(v: &[String]) -> Vec<&str> {
    v.iter().map(|s| s.as_str()).collect()
}

fn bits(v: f32) -> F32Bits {
    F32Bits(v.to_bits())
}

fn error_of(bytes: &[u8]) -> GgufError {
    match Gguf::parse(bytes) {
        Err(e) => e,
        Ok(_) => panic!("the file was accepted"),
    }
}

fn config_of(bytes: &[u8]) -> Result<ModelConfig, GgufError> {
    match Gguf::parse(bytes) {
        Ok(g) => g.config(),
        Err(e) => panic!("the file was refused: {}", e.message()),
    }
}

#[test]
fn parses_an_empty_file() {
    let bytes = Builder::new().build();
    let g = Gguf::parse(&bytes).ok().unwrap();
    assert_eq!(g.version, 3);
    assert_eq!(g.alignment, DEFAULT_ALIGNMENT);
    assert!(g.tensors.is_empty());
    assert!(g.metadata.is_empty());
    // 4 magic + 4 version + 8 + 8 = 24, padded up to 32.
    assert_eq!(g.tensor_data_offset, 32);
}

#[test]
fn accepts_v2_and_v3_rejects_others() {
    for v in [2u32, 3] {
        let bytes = Builder::new().version(v).build();
        assert_eq!(Gguf::parse(&bytes).ok().unwrap().version, v);
    }
    for v in [0u32, 1, 4, 999] {
        let bytes = Builder::new().version(v).build();
        assert_eq!(error_of(&bytes), GgufError::UnsupportedVersion(v));
    }
}

#[test]
fn rejects_bad_magic() {
    let bytes = Builder::new().magic(*b"GGML").build();
    assert_eq!(error_of(&bytes), GgufError::BadMagic(*b"GGML"));
}

#[test]
fn rejects_truncation_at_every_prefix() {
    let vocab = dummy_vocab(4);
    let bytes = qwen2_5_0_5b(&strs(&vocab))
        .tensor("blk.0.attn_q.weight", &[8, 8], GgmlType::F32, &[0u8; 256])
        .build();
    for cut in 0..bytes.len() {
        match Gguf::parse(&bytes[..cut]) {
            Err(_) => {}
            Ok(_) => panic!("prefix of length {cut} parsed as a complete file"),
        }
    }
    assert!(Gguf::parse(&bytes).is_ok());
}

#[test]
fn every_value_type_round_trips() {
    let bytes = Builder::new()
        .u8("a.u8", 200)
        .i16("a.i16", -300)
        .u32("a.u32", 70_000)
        .i32("a.i32", -70_000)
        .u64("a.u64", 1 << 40)
        .f32("a.f32", 1.5)
        .f64("a.f64", -2.25)
        .bool("a.true", true)
        .bool("a.false", false)
        .string("a.str", "hello \u{1f600}")
        .str_array("a.strs", &["x", "yy", ""])
        .f32_array("a.f32s", &[1.0, -0.5, 3.25])
        .i32_array("a.i32s", &[-1, 0, 7])
        .build();
    let g = Gguf::parse(&bytes).ok().unwrap();

    assert_eq!(g.get("a.u8"), Some(&Value::U8(200)));
    assert_eq!(g.get("a.i16"), Some(&Value::I16(-300)));
    assert_eq!(g.get("a.u32"), Some(&Value::U32(70_000)));
    assert_eq!(g.get("a.i32"), Some(&Value::I32(-70_000)));
    assert_eq!(g.get("a.u64"), Some(&Value::U64(1 << 40)));
    assert_eq!(g.get_f32("a.f32"), Some(bits(1.5)));
    assert_eq!(
        g.get("a.f64"),
        Some(&Value::F64(F64Bits((-2.25f64).to_bits())))
    );
    assert_eq!(g.get_bool("a.true"), Some(true));
    assert_eq!(g.get_bool("a.false"), Some(false));
    assert_eq!(g.get_str("a.str"), Some("hello \u{1f600}"));

    assert_eq!(
        g.get_array("a.strs").unwrap().as_str_slice(),
        Some(&["x", "yy", ""][..])
    );
    assert_eq!(
        g.get_array("a.f32s").unwrap().as_f32_slice(),
        Some(&[bits(1.0), bits(-0.5), bits(3.25)][..])
    );
    assert_eq!(
        g.get_array("a.i32s").unwrap().as_i32_slice(),
        Some(&[-1, 0, 7][..])
    );
}

#[test]
fn integer_getters_ignore_the_stored_width() {
    let bytes = Builder::new()
        .i32("x.a", 24)
        .u8("x.b", 7)
        .u64("x.c", 32768)
        .i32("x.neg", -1)
        .build();
    let g = Gguf::parse(&bytes).ok().unwrap();
    assert_eq!(g.get_usize("x.a"), Some(24));
    assert_eq!(g.get_usize("x.b"), Some(7));
    assert_eq!(g.get_usize("x.c"), Some(32768));
    assert_eq!(g.get_u64("x.neg"), None);
    assert_eq!(g.get("x.neg").unwrap().as_i64(), Some(-1));
}

#[test]
fn rejects_invalid_utf8_in_strings() {
    let bytes = Builder::new().raw_string("bad", &[0xff, 0xfe]).build();
    assert!(matches!(error_of(&bytes), GgufError::InvalidUtf8 { .. }));
}

#[test]
fn rejects_array_length_larger_than_the_file() {
    let bytes = Builder::new()
        .array("boom", F32, u64::MAX / 8, &[])
        .build();
    assert!(matches!(
        error_of(&bytes),
        GgufError::ImplausibleCount { .. }
    ));
}

#[test]
fn rejects_implausible_counts_in_the_header() {
    let mut bytes = Builder::new().build();
    bytes[8..16].copy_from_slice(&u64::MAX.to_le_bytes());
    assert!(matches!(
        error_of(&bytes),
        GgufError::ImplausibleCount { what: "tensor", .. }
    ));
}

#[test]
fn rejects_unknown_metadata_type_tag() {
    let mut bytes = Builder::new().u32("k", 1).build();
    // The type tag sits right after the 8-byte length and 1-byte key.
    let tag_at = 24 + 8 + 1;
    bytes[tag_at..tag_at + 4].copy_from_slice(&99u32.to_le_bytes());
    assert_eq!(error_of(&bytes), GgufError::UnknownValueType(99));
}

#[test]
fn tensor_data_is_borrowed_not_copied() {
    let payload: Vec<u8> = (0..=255u8).collect();
    let bytes = Builder::new()
        .tensor("w", &[64], GgmlType::F32, &payload)
        .build();
    let g = Gguf::parse(&bytes).ok().unwrap();

    let t = g.find_tensor("w").unwrap();
    assert_eq!(t.ggml_type, GgmlType::F32);
    assert_eq!(t.n_elements(), 64);
    assert_eq!(t.byte_size, 256);

    let data = g.tensor_data(t);
    assert_eq!(data, &payload[..]);

    let file_start = bytes.as_ptr() as usize;
    let slice_start = data.as_ptr() as usize;
    assert!(slice_start >= file_start);
    assert!(slice_start + data.len() <= file_start + bytes.len());
}

#[test]
fn dims_are_stored_in_ggml_order() {
    let n = 896 * 4864;
    let bytes = Builder::new()
        .tensor_info_only("blk.0.ffn_gate.weight", &[896, 4864], GgmlType::Q4_K, 0)
        .build();
    assert!(matches!(
        error_of(&bytes),
        GgufError::TensorOutOfBounds { .. }
    ));

    let data = vec![0u8; (n / 256) * GgmlType::Q4_K.block_bytes()];
    let bytes = Builder::new()
        .tensor("blk.0.ffn_gate.weight", &[896, 4864], GgmlType::Q4_K, &data)
        .build();
    let g = Gguf::parse(&bytes).ok().unwrap();
    let t = g.find_tensor("blk.0.ffn_gate.weight").unwrap();

    assert_eq!(t.dims[..2], [896, 4864]);
    assert_eq!(t.shape_row_major(), vec![4864, 896]);
    assert_eq!(t.row_len(), 896);
    assert_eq!(t.n_rows(), 4864);
    assert_eq!(t.n_elements(), n as u64);
    assert_eq!(t.byte_size, (n as u64 / 256) * 144);
}

#[test]
fn honours_a_custom_alignment() {
    let bytes = Builder::new()
        .alignment(64)
        .u32("general.alignment", 64)
        .tensor("a", &[16], GgmlType::F32, &[1u8; 64])
        .tensor("b", &[16], GgmlType::F32, &[2u8; 64])
        .build();
    let g = Gguf::parse(&bytes).ok().unwrap();
    assert_eq!(g.alignment, 64);
    assert_eq!(g.tensor_data_offset % 64, 0);
    assert_eq!(g.tensor_data(g.find_tensor("a").unwrap()), &[1u8; 64][..]);
    assert_eq!(g.tensor_data(g.find_tensor("b").unwrap()), &[2u8; 64][..]);
}

#[test]
fn rejects_non_power_of_two_alignment() {
    let bytes = Builder::new().u32("general.alignment", 24).build();
    assert_eq!(error_of(&bytes), GgufError::BadAlignment(24));
    let bytes = Builder::new().u32("general.alignment", 0).build();
    assert_eq!(error_of(&bytes), GgufError::BadAlignment(0));
}

#[test]
fn rejects_misaligned_tensor_offset() {
    let bytes = Builder::new()
        .tensor_info_only("w", &[8], GgmlType::F32, 4)
        .build();
    assert!(matches!(
        error_of(&bytes),
        GgufError::MisalignedTensor { .. }
    ));
}

#[test]
fn rejects_tensor_past_the_end_of_the_data_section() {
    let bytes = Builder::new()
        .tensor_info_only("w", &[1024], GgmlType::F32, 0)
        .build();
    assert!(matches!(
        error_of(&bytes),
        GgufError::TensorOutOfBounds { .. }
    ));
}

#[test]
fn rejects_element_count_that_is_not_a_whole_number_of_blocks() {
    let bytes = Builder::new()
        .tensor_info_only("w", &[100], GgmlType::Q4_K, 0)
        .build();
    assert!(matches!(
        error_of(&bytes),
        GgufError::NotBlockAligned { elements: 100, block: 256, .. }
    ));
}

#[test]
fn rejects_unknown_ggml_type_rather_than_guessing() {
    let bytes = Builder::new()
        .raw_tensor_info("w", 1, &[32], 1234, 0)
        .build();
    assert_eq!(error_of(&bytes), GgufError::UnknownGgmlType(1234));
}

#[test]
fn rejects_more_than_four_dims() {
    let bytes = Builder::new()
        .raw_tensor_info("w", 5, &[2, 2, 2, 2, 2], GgmlType::F32.to_tag(), 0)
        .build();
    assert!(matches!(
        error_of(&bytes),
        GgufError::TooManyDims { n_dims: 5, .. }
    ));
}

#[test]
fn extracts_qwen2_5_0_5b_config() {
    let vocab = dummy_vocab(151_936);
    let bytes = qwen2_5_0_5b(&strs(&vocab)).build();
    let cfg = config_of(&bytes).ok().unwrap();

    assert_eq!(cfg.architecture, "qwen2");
    assert_eq!(cfg.name.as_deref(), Some("Qwen2.5-0.5B-Instruct"));
    assert_eq!(cfg.block_count, 24);
    assert_eq!(cfg.embedding_length, 896);
    assert_eq!(cfg.feed_forward_length, 4864);
    assert_eq!(cfg.head_count, 14);
    assert_eq!(cfg.head_count_kv, 2);
    assert_eq!(cfg.head_dim, 64); // 896 / 14
    assert_eq!(cfg.context_length, 32768);
    assert_eq!(cfg.rms_norm_eps, bits(1e-6));
    assert_eq!(cfg.rope_freq_base, bits(1_000_000.0));
    assert_eq!(cfg.rope_dimension_count, None);
    assert_eq!(cfg.vocab_size, 151_936);
    assert_eq!(cfg.eos_token_id, Some(151_645)); // <|im_end|>
    assert_eq!(cfg.pad_token_id, Some(151_643)); // <|endoftext|>
    assert_eq!(cfg.bos_token_id, Some(151_643)); // <|endoftext|>
    assert_eq!(cfg.add_bos_token, Some(false));
    assert_eq!(cfg.tokenizer_model.as_deref(), Some("gpt2"));

    assert_eq!(cfg.kv_group_size(), 7); // 14 query heads share 2 key/value heads
    assert_eq!(cfg.q_dim(), 896);
    assert_eq!(cfg.kv_dim(), 128);
    // Full context: 2 * 24 * 2 * 32768 * 64 * 4 B = 768 MiB.
    assert_eq!(cfg.kv_cache_bytes(32768), 805_306_368);
    assert_eq!(cfg.kv_cache_bytes(2048), 50_331_648); // 48 MiB at 2k
}

#[test]
fn config_defaults_match_the_gguf_spec() {
    let bytes = Builder::new()
        .string("general.architecture", "llama")
        .u32("llama.block_count", 2)
        .u32("llama.context_length", 128)
        .u32("llama.embedding_length", 64)
        .u32("llama.feed_forward_length", 128)
        .u32("llama.attention.head_count", 4)
        // head_count_kv, rms eps and rope base all omitted on purpose.
        .str_array("tokenizer.ggml.tokens", &["a", "b"])
        .build();
    let cfg = config_of(&bytes).ok().unwrap();
    assert_eq!(cfg.head_count_kv, 4, "absent head_count_kv means plain MHA");
    assert_eq!(cfg.kv_group_size(), 1);
    assert_eq!(cfg.rms_norm_eps, bits(1e-5));
    assert_eq!(cfg.rope_freq_base, bits(10_000.0));
    assert_eq!(cfg.head_dim, 16);
    assert_eq!(cfg.vocab_size, 2);
}

fn grouped(kv_heads: u32) -> Builder {
    Builder::new()
        .string("general.architecture", "qwen2")
        .u32("qwen2.block_count", 2)
        .u32("qwen2.context_length", 128)
        .u32("qwen2.embedding_length", 896)
        .u32("qwen2.feed_forward_length", 128)
        .u32("qwen2.attention.head_count", 14)
        .u32("qwen2.attention.head_count_kv", kv_heads)
        .str_array("tokenizer.ggml.tokens", &["a"])
}

#[test]
fn config_rejects_gqa_grouping_that_cannot_work() {
    // 14 query heads over 4 key/value heads is not a whole grouping.
    let bytes = grouped(4).build();
    assert!(matches!(
        config_of(&bytes),
        Err(GgufError::InconsistentConfig(_))
    ));
    assert!(config_of(&grouped(7).build()).is_ok());
}

#[test]
fn config_reports_the_missing_key_by_name() {
    let bytes = Builder::new()
        .string("general.architecture", "qwen2")
        .u32("qwen2.embedding_length", 896)
        .u32("qwen2.attention.head_count", 14)
        .str_array("tokenizer.ggml.tokens", &["a"])
        .build();
    let err = config_of(&bytes).err().unwrap();
    assert_eq!(err, GgufError::MissingKey("qwen2.block_count".into()));
}

#[test]
fn block_geometry_matches_ggml_common_h() {
    let expect: &[(GgmlType, usize, usize)] = &[
        (GgmlType::F32, 1, 4),
        (GgmlType::F16, 1, 2),
        (GgmlType::Q4_0, 32, 18),
        (GgmlType::Q4_1, 32, 20),
        (GgmlType::Q5_0, 32, 22),
        (GgmlType::Q5_1, 32, 24),
        (GgmlType::Q8_0, 32, 34),
        (GgmlType::Q2_K, 256, 84),
        (GgmlType::Q3_K, 256, 110),
        (GgmlType::Q4_K, 256, 144),
        (GgmlType::Q5_K, 256, 176),
        (GgmlType::Q6_K, 256, 210),
        (GgmlType::Q8_K, 256, 292),
    ];
    for &(ty, elems, bytes) in expect {
        assert_eq!(ty.block_elems(), elems, "{} block_elems", ty.name());
        assert_eq!(ty.block_bytes(), bytes, "{} block_bytes", ty.name());
        assert_eq!(GgmlType::from_u32(ty.to_tag()), Ok(ty));
    }

    let bits_per_weight = |t: GgmlType| t.block_bytes() as f64 * 8.0 / t.block_elems() as f64;
    assert!((bits_per_weight(GgmlType::Q4_K) - 4.5).abs() < 1e-9);
    assert!((bits_per_weight(GgmlType::Q6_K) - 6.5625).abs() < 1e-9);
    assert!((bits_per_weight(GgmlType::Q8_0) - 8.5).abs() < 1e-9);
    assert!((bits_per_weight(GgmlType::Q4_0) - 4.5).abs() < 1e-9);
}

#[test]
fn bytes_for_rejects_partial_blocks() {
    assert_eq!(GgmlType::Q4_K.bytes_for(256), Some(144));
    assert_eq!(GgmlType::Q4_K.bytes_for(512), Some(288));
    assert_eq!(GgmlType::Q4_K.bytes_for(255), None);
    assert_eq!(GgmlType::F32.bytes_for(7), Some(28));
}

/// The number that a weight stands for.
fn number(w: &Weight) -> f32 {
    let of = |s: &Scale| f32::from_bits(f16_to_f32(s.d).0) * s.factor as f32;
    match w {
        Weight::Exact(b) => f32::from_bits(b.0),
        Weight::Scaled { scale, quant, min } => of(scale) * *quant as f32 - of(min),
    }
}

#[test]
fn parses_a_file_and_dequantises_a_tensor_out_of_it() {
    let mut block = [0u8; 34];
    block[0..2].copy_from_slice(&f32_to_f16(bits(0.5)).to_le_bytes());
    for (i, b) in block[2..].iter_mut().enumerate() {
        *b = (i as i8 - 64) as u8;
    }

    let bytes = Builder::new()
        .string("general.architecture", "test")
        .tensor("w", &[32], GgmlType::Q8_0, &block)
        .build();
    let g = Gguf::parse(&bytes).ok().unwrap();
    let t = g.find_tensor("w").unwrap();

    let out = dequantize_row(t.ggml_type, g.tensor_data(t), t.n_elements() as usize)
        .ok()
        .unwrap();
    assert_eq!(out.len(), 32);
    for (i, w) in out.iter().enumerate() {
        assert_eq!(number(w), 0.5 * (i as f32 - 64.0), "element {i}");
    }
}

#[test]
fn trailing_bytes_change_nothing() {
    let mut bytes = Builder::new()
        .u32("k", 7)
        .tensor("w", &[8], GgmlType::F32, &[3u8; 32])
        .build();
    let before = Gguf::parse(&bytes).ok().unwrap().tensors.len();
    bytes.extend_from_slice(&[0xee; 100]);
    let g = Gguf::parse(&bytes).ok().unwrap();
    assert_eq!(g.tensors.len(), before);
    assert_eq!(g.get_u32("k"), Some(7));
    assert_eq!(g.tensor_data(g.find_tensor("w").unwrap()), &[3u8; 32][..]);
}

#[test]
fn the_first_of_two_equal_keys_counts() {
    let bytes = Builder::new().u32("k", 1).u32("k", 2).build();
    let g = Gguf::parse(&bytes).ok().unwrap();
    assert_eq!(g.get_u64("k"), Some(1));
    assert_eq!(g.metadata.len(), 2);
}

#[test]
fn nested_arrays_are_read_and_their_depth_is_bounded() {
    let inner = |elem: u32, n: u64, items: &[u8]| {
        let mut b = elem.to_le_bytes().to_vec();
        b.extend_from_slice(&n.to_le_bytes());
        b.extend_from_slice(items);
        b
    };
    let one = inner(U8, 2, &[5, 6]);
    let bytes = Builder::new().array("a", ARRAY, 1, &one).build();
    let g = Gguf::parse(&bytes).ok().unwrap();
    let a = g.get_array("a").unwrap();
    assert_eq!(a.len(), 1);
    assert!(!a.is_empty());
    assert_eq!(a.elem_type_name(), "array");
    match a {
        Array::Nested(v) => assert_eq!(v[0], Value::Array(Array::U8(vec![5, 6]))),
        _ => panic!("an array of arrays was read as something else"),
    }
    let mut deep = inner(U8, 0, &[]);
    for _ in 0..6 {
        deep = inner(ARRAY, 1, &deep);
    }
    let bytes = Builder::new().array("a", ARRAY, 1, &deep).build();
    assert_eq!(error_of(&bytes), GgufError::ArrayNestingTooDeep);
}

#[test]
fn sizes_that_overflow_are_refused() {
    let bytes = Builder::new()
        .tensor_info_only("w", &[1 << 40, 1 << 40], GgmlType::F32, 0)
        .build();
    assert_eq!(
        error_of(&bytes),
        GgufError::SizeOverflow { name: "w".into() }
    );
}

#[test]
fn a_short_file_says_how_much_is_missing() {
    let bytes = Builder::new().build();
    assert_eq!(
        error_of(&bytes[..6]),
        GgufError::UnexpectedEof { at: 4, needed: 4, remaining: 2 }
    );
}

#[test]
fn wrong_types_and_missing_keys_are_told_apart() {
    let bytes = Builder::new()
        .string("general.architecture", "qwen2")
        .string("qwen2.block_count", "many")
        .f32("x", 1.0)
        .build();
    let g = Gguf::parse(&bytes).ok().unwrap();
    assert_eq!(g.require_str("general.architecture"), Ok("qwen2"));
    assert_eq!(
        g.require_usize("qwen2.block_count"),
        Err(GgufError::WrongType {
            key: "qwen2.block_count".into(),
            wanted: "integer",
            found: "string",
        })
    );
    assert_eq!(
        g.require_u64("none"),
        Err(GgufError::MissingKey("none".into()))
    );
    assert_eq!(g.require_f32("x"), Ok(bits(1.0)));
    assert!(g.require_f32("general.architecture").is_err());
    assert_eq!(g.get("x").unwrap().kind_name(), "f32");
}

#[test]
fn numbers_read_as_single_precision_are_rounded_to_even() {
    let bytes = Builder::new()
        .f64("third", 1.0 / 3.0)
        .f64("huge", 1e300)
        .i32("n", 16_777_217)
        .u64("big", u64::MAX)
        .build();
    let g = Gguf::parse(&bytes).ok().unwrap();
    assert_eq!(g.get_f32("third"), Some(bits((1.0f64 / 3.0) as f32)));
    assert_eq!(g.get_f32("huge"), Some(bits(f32::INFINITY)));
    assert_eq!(g.get_f32("n"), Some(bits(16_777_216.0)));
    assert_eq!(g.get_f32("big"), Some(bits(u64::MAX as f32)));
    assert_eq!(g.get("big").unwrap().as_i64(), None);
    for i in 0..2000u64 {
        let x = f64::from_bits(i.wrapping_mul(0x9e37_79b9_7f4a_7c15));
        let got = double_to_single(F64Bits(x.to_bits()));
        if x.is_nan() {
            assert!(f32::from_bits(got.0).is_nan());
        } else {
            assert_eq!(got, bits(x as f32), "{x}");
        }
        let n = i.wrapping_mul(0x9e37_79b9_7f4a_7c15) as i64;
        assert_eq!(integer_to_single(n), bits(n as f32), "{n}");
        assert_eq!(unsigned_to_single(n as u64), bits(n as u64 as f32), "{n}");
    }
}

#[test]
fn errors_have_messages() {
    let name = || String::from("a\"b");
    let cases = [
        (
            GgufError::UnexpectedEof { at: 4, needed: 9, remaining: 2 },
            "unexpected end of file at byte 4: needed 9 more bytes, 2 remain (truncated download?)",
        ),
        (
            GgufError::BadMagic(*b"GGML"),
            "bad magic [47, 47, 4d, 4c]: expected \"GGUF\"",
        ),
        (
            GgufError::UnsupportedVersion(9),
            "unsupported GGUF version 9 (this parser handles 2 and 3)",
        ),
        (GgufError::UnknownValueType(99), "unknown metadata value type tag 99"),
        (
            GgufError::UnknownGgmlType(1234),
            "unknown ggml type id 1234: refusing to guess its block layout",
        ),
        (GgufError::InvalidUtf8 { at: 30 }, "invalid UTF-8 in string at byte 30"),
        (
            GgufError::ImplausibleCount { what: "tensor", count: 70, remaining: 8 },
            "tensor count 70 cannot fit in the 8 remaining bytes; file is corrupt",
        ),
        (
            GgufError::ArrayNestingTooDeep,
            "metadata array nesting exceeded the depth limit",
        ),
        (
            GgufError::BadAlignment(24),
            "general.alignment = 24: must be a non-zero power of two",
        ),
        (
            GgufError::TooManyDims { name: name(), n_dims: 5 },
            "tensor \"a\\\"b\" has 5 dims; ggml allows at most 4",
        ),
        (
            GgufError::TensorOutOfBounds { name: name(), offset: 32, size: 10, section_len: 40 },
            "tensor \"a\\\"b\" spans [32, 42) but the data section is only 40 bytes",
        ),
        (
            GgufError::MisalignedTensor { name: name(), offset: 4, alignment: 32 },
            "tensor \"a\\\"b\" offset 4 is not a multiple of alignment 32",
        ),
        (
            GgufError::NotBlockAligned { name: name(), elements: 100, block: 256 },
            "tensor \"a\\\"b\" has 100 elements, not a whole number of 256-element blocks",
        ),
        (
            GgufError::SizeOverflow { name: name() },
            "size computation for tensor \"a\\\"b\" overflowed",
        ),
        (
            GgufError::MissingKey("a.b".into()),
            "required metadata key \"a.b\" is missing",
        ),
        (
            GgufError::WrongType { key: "k".into(), wanted: "integer", found: "string" },
            "metadata key \"k\" is string, wanted integer",
        ),
        (
            GgufError::InconsistentConfig("x".into()),
            "inconsistent model config: x",
        ),
    ];
    for (e, m) in &cases {
        assert_eq!(e.message(), *m);
    }
}

#[test]
fn inconsistent_configs_name_the_contradiction() {
    let message = |c: &ModelConfig| match c.validate() {
        Err(e) => e.message(),
        Ok(()) => String::from("ok"),
    };
    let good = config_of(&grouped(7).build()).ok().unwrap();
    assert_eq!(message(&good), "ok");
    let mut c = good.clone();
    c.head_count_kv = 4;
    assert!(message(&c).contains("14 is not divisible by head_count_kv 4"));
    let mut c = good.clone();
    c.head_dim = 63;
    assert!(message(&c).contains("head_dim 63 must be even"));
    let mut c = good.clone();
    c.rope_dimension_count = Some(66);
    assert!(message(&c).contains("66"));
    let mut c = good.clone();
    c.head_count = 0;
    assert!(message(&c).contains("non-zero"));
    let mut c = good;
    c.vocab_size = 0;
    assert!(message(&c).contains("vocab_size"));
}

#[test]
fn refused_counts_are_behind_the_reader() {
    let mut file = 5u64.to_le_bytes().to_vec();
    file.extend_from_slice(b"abcdefghij");
    let mut r = Reader::new(&file);
    assert_eq!(r.read_len_scaled("items", 2), Ok(5));
    assert_eq!((r.pos(), r.remaining()), (8, 10));
    for (size, count) in [(3usize, 5u64), (usize::MAX, 5), (1, 5)] {
        let mut r = Reader::new(&file);
        let refused = size > 2;
        let want = GgufError::ImplausibleCount { what: "items", count, remaining: 10 };
        assert_eq!(r.read_len_scaled("items", size), if refused { Err(want) } else { Ok(5) });
        assert_eq!(r.pos(), 8);
    }
    let long = 11u64.to_le_bytes();
    file[..8].copy_from_slice(&long);
    let mut r = Reader::new(&file);
    let want = GgufError::ImplausibleCount { what: "items", count: 11, remaining: 10 };
    assert_eq!(r.read_len("items"), Err(want));
    assert_eq!(r.pos(), 8);
    // Without eight bytes nothing is read.
    let mut r = Reader::new(&file[..7]);
    assert!(r.read_len("items").is_err());
    assert_eq!(r.pos(), 0);
    // A text that is none leaves the reader behind it.
    let mut bad = 2u64.to_le_bytes().to_vec();
    bad.extend_from_slice(&[0xff, 0xff, 7]);
    let mut r = Reader::new(&bad);
    assert_eq!(r.read_str(), Err(GgufError::InvalidUtf8 { at: 8 }));
    assert_eq!(r.pos(), 10);
    assert_eq!(r.read_u8(), Ok(7));
}

#[test]
fn copies_of_values_are_the_values() {
    let nested = Value::Array(Array::Nested(vec![
        Value::Array(Array::Str(vec!["a", "b"])),
        Value::Array(Array::F32(vec![bits(1.5)])),
    ]));
    assert_eq!(nested.clone(), nested);
    assert_eq!(Value::U64(7).clone(), Value::U64(7));
    assert_ne!(Value::U64(7).clone(), Value::U64(8));
}

#[test]
fn a_failed_tensor_entry_is_read_up_to_the_broken_field() {
    let entry = |n_dims: u32, dims: &[u64], tag: u32| {
        let mut b = 2u64.to_le_bytes().to_vec();
        b.extend_from_slice(b"ab");
        b.extend_from_slice(&n_dims.to_le_bytes());
        for d in dims {
            b.extend_from_slice(&d.to_le_bytes());
        }
        b.extend_from_slice(&tag.to_le_bytes());
        b.extend_from_slice(&64u64.to_le_bytes());
        b
    };
    let stop = |bytes: &[u8]| {
        let mut r = Reader::new(bytes);
        assert!(read_tensor_info(&mut r).is_err());
        r.pos()
    };
    let good = entry(2, &[32, 3], 8);
    let mut r = Reader::new(&good);
    assert!(read_tensor_info(&mut r).is_ok());
    assert_eq!(r.pos(), 42);
    // Behind the string, the first axis, both axes, and the type.
    for (len, at) in [(13, 10), (29, 22), (33, 30), (41, 34)] {
        assert_eq!(stop(&good[..len]), at, "{len}");
    }
    // Too many axes, an unknown type, and a shape that is no whole number of blocks.
    assert_eq!(stop(&entry(5, &[1; 5], 0)), 14);
    assert_eq!(stop(&entry(2, &[32, 3], 999)), 34);
    assert_eq!(stop(&entry(2, &[33, 3], 8)), 42);
}
