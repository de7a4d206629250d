//! Pulling the architecture hyper-parameters out of the metadata.
//!
//! The architecture keys stand under the name in `general.architecture`: for a
//! Qwen2 model the layer count lives at `qwen2.block_count`.  Every key is built
//! from that name, so that other architectures parse through the same path.
use super::error::{GgufError, GgufErrorView};
use super::file::GgufView;
use super::parse::Gguf;
use crate::bits::F32Bits;
use crate::text;
use vstd::prelude::*;

verus! {

/// The pattern of 1e-5, which an absent epsilon stands for.
pub const DEFAULT_RMS_NORM_EPS: u32 = 0x3727_c5ac;

/// The pattern of 10000, which an absent rotation base stands for.
pub const DEFAULT_ROPE_FREQ_BASE: u32 = 0x461c_4000;

/// Everything the forward pass needs to know about the model's shape.
#[derive(Debug, Clone, PartialEq)]
pub struct ModelConfig {
    pub architecture: String,
    pub name: Option<String>,
    /// Number of transformer layers.
    pub block_count: usize,
    /// Model width.
    pub embedding_length: usize,
    /// Width between the two halves of the feed-forward network.
    pub feed_forward_length: usize,
    pub head_count: usize,
    /// Key/value heads.  Fewer than `head_count` under grouped-query attention.
    pub head_count_kv: usize,
    /// Per-head width.
    pub head_dim: usize,
    pub context_length: usize,
    pub rms_norm_eps: F32Bits,
    pub rope_freq_base: F32Bits,
    /// How many of each head's dimensions get rotated.  Absent means all of them.
    pub rope_dimension_count: Option<usize>,
    pub vocab_size: usize,
    pub bos_token_id: Option<u32>,
    pub eos_token_id: Option<u32>,
    pub pad_token_id: Option<u32>,
    pub unk_token_id: Option<u32>,
    pub add_bos_token: Option<bool>,
    /// `tokenizer.ggml.model`, such as "gpt2" for byte-level BPE.
    pub tokenizer_model: Option<String>,
}

/// `a` divides `b`; nothing but 0 is a multiple of 0.
pub open spec fn divides(a: int, b: int) -> bool {
    if a == 0 {
        b == 0
    } else {
        b % a == 0
    }
}

fn is_multiple(b: usize, a: usize) -> (r: bool)
    ensures
        r == divides(a as int, b as int),
{
    if a == 0 {
        b == 0
    } else {
        b % a == 0
    }
}

impl ModelConfig {
    /// What contradicts what, where something does.
    pub open spec fn contradiction(&self) -> Option<Seq<char>> {
        if self.head_count == 0 || self.head_count_kv == 0 {
            Some("head_count must be non-zero"@)
        } else if !divides(self.head_count_kv as int, self.head_count as int) {
            Some(
                "head_count "@ + text::decimal(self.head_count as nat)
                    + " is not divisible by head_count_kv "@ + text::decimal(
                    self.head_count_kv as nat,
                ) + ": GQA grouping would be undefined"@,
            )
        } else if self.head_dim == 0 || self.head_dim % 2 != 0 {
            Some(
                "head_dim "@ + text::decimal(self.head_dim as nat) + " must be even for RoPE"@,
            )
        } else if self.rope_dimension_count is Some && (self.rope_dimension_count->0
            > self.head_dim || self.rope_dimension_count->0 % 2 != 0) {
            Some(
                "rope.dimension_count "@ + text::decimal(self.rope_dimension_count->0 as nat)
                    + " must be even and <= head_dim "@ + text::decimal(self.head_dim as nat),
            )
        } else if self.block_count == 0 || self.embedding_length == 0 || self.vocab_size == 0 {
            Some("block_count, embedding_length and vocab_size must all be non-zero"@)
        } else {
            None
        }
    }

    /// The values do not contradict each other: key/value heads share out the query
    /// heads evenly, rotation has whole pairs, and nothing that counts is zero.
    pub open spec fn consistent(&self) -> bool {
        self.contradiction() is None
    }

    /// Query heads per key/value head: query head `h` reads head `h / this`.
    pub fn kv_group_size(&self) -> (r: usize)
        requires
            self.head_count_kv > 0,
        ensures
            r == self.head_count / self.head_count_kv,
    {
        self.head_count / self.head_count_kv
    }

    /// Total width of the query projection.
    pub fn q_dim(&self) -> (r: usize)
        requires
            self.head_count * self.head_dim <= usize::MAX,
        ensures
            r == self.head_count * self.head_dim,
    {
        self.head_count * self.head_dim
    }

    /// Total width of each of the key and value projections.
    pub fn kv_dim(&self) -> (r: usize)
        requires
            self.head_count_kv * self.head_dim <= usize::MAX,
        ensures
            r == self.head_count_kv * self.head_dim,
    {
        self.head_count_kv * self.head_dim
    }

    /// Bytes that a cache of single-precision keys and values takes for `seq_len`
    /// positions of every layer.
    pub open spec fn cache_bytes(&self, seq_len: int) -> int {
        2 * self.block_count * self.head_count_kv * seq_len * self.head_dim * 4
    }

    /// Bytes that a cache of single-precision keys and values takes for `seq_len`
    /// positions of every layer.
    pub fn kv_cache_bytes(&self, seq_len: usize) -> (r: usize)
        requires
            self.cache_bytes(seq_len as int) <= usize::MAX,
            2 * self.block_count * self.head_count_kv * seq_len <= usize::MAX,
            2 * self.block_count * self.head_count_kv <= usize::MAX,
            2 * self.block_count <= usize::MAX,
        ensures
            r == self.cache_bytes(seq_len as int),
    {
        let a: usize = 2 * self.block_count;
        let b: usize = a * self.head_count_kv;
        let c: usize = b * seq_len;
        assert(c * self.head_dim <= usize::MAX) by (nonlinear_arith)
            requires
                c * self.head_dim * 4 <= usize::MAX,
                c >= 0,
                self.head_dim >= 0,
        ;
        c * self.head_dim * 4
    }

    /// Refuse values that contradict each other.
    pub fn validate(&self) -> (r: Result<(), GgufError>)
        ensures
            match r {
                Ok(()) => self.consistent(),
                Err(e) => self.contradiction() is Some && e@ == GgufErrorView::InconsistentConfig(
                    self.contradiction()->0,
                ),
            },
    {
        if self.head_count == 0 || self.head_count_kv == 0 {
            return Err(GgufError::InconsistentConfig("head_count must be non-zero".to_owned()));
        }
        if !is_multiple(self.head_count, self.head_count_kv) {
            let mut s = "head_count ".to_owned();
            text::push_decimal(&mut s, self.head_count as u128);
            s.push_str(" is not divisible by head_count_kv ");
            text::push_decimal(&mut s, self.head_count_kv as u128);
            s.push_str(": GQA grouping would be undefined");
            return Err(GgufError::InconsistentConfig(s));
        }
        // Rotation takes pairs of dimensions, so an odd width cannot work.
        if self.head_dim == 0 || self.head_dim % 2 != 0 {
            let mut s = "head_dim ".to_owned();
            text::push_decimal(&mut s, self.head_dim as u128);
            s.push_str(" must be even for RoPE");
            return Err(GgufError::InconsistentConfig(s));
        }
        if let Some(rd) = self.rope_dimension_count {
            if rd > self.head_dim || rd % 2 != 0 {
                let mut s = "rope.dimension_count ".to_owned();
                text::push_decimal(&mut s, rd as u128);
                s.push_str(" must be even and <= head_dim ");
                text::push_decimal(&mut s, self.head_dim as u128);
                return Err(GgufError::InconsistentConfig(s));
            }
        }
        if self.block_count == 0 || self.embedding_length == 0 || self.vocab_size == 0 {
            return Err(
                GgufError::InconsistentConfig(
                    "block_count, embedding_length and vocab_size must all be non-zero".to_owned(),
                ),
            );
        }
        Ok(())
    }
}

/// The key of a hyper-parameter of an architecture.
pub open spec fn key_of(architecture: Seq<char>, suffix: Seq<char>) -> Seq<char> {
    architecture + "."@ + suffix
}

fn key(architecture: &str, suffix: &str) -> (r: String)
    ensures
        r@ == key_of(architecture@, suffix@),
{
    let mut s = architecture.to_owned();
    s.push_str(".");
    s.push_str(suffix);
    s
}

/// The required sizes, in the order in which they are asked for.
pub struct RequiredSizes {
    pub embedding_length: usize,
    pub head_count: usize,
    pub vocab_size: usize,
    pub block_count: usize,
    pub feed_forward_length: usize,
    pub context_length: usize,
}

impl GgufView {
    /// The size of the vocabulary: as long as the token list, where there is one.
    pub open spec fn vocab_size(self, architecture: Seq<char>) -> Result<usize, GgufErrorView> {
        match self.get_array("tokenizer.ggml.tokens"@) {
            Some(a) => Ok(a.items.len() as usize),
            None => match self.get_usize(key_of(architecture, "vocab_size"@)) {
                Some(n) => Ok(n),
                None => Err(GgufErrorView::MissingKey("tokenizer.ggml.tokens"@)),
            },
        }
    }

    /// The sizes without which there is no model, or the first that is missing or
    /// wrong.
    pub open spec fn required_sizes(self, architecture: Seq<char>) -> Result<
        RequiredSizes,
        GgufErrorView,
    > {
        match self.require_usize(key_of(architecture, "embedding_length"@)) {
            Err(e) => Err(e),
            Ok(embedding_length) => match self.require_usize(
                key_of(architecture, "attention.head_count"@),
            ) {
                Err(e) => Err(e),
                Ok(head_count) => match self.vocab_size(architecture) {
                    Err(e) => Err(e),
                    Ok(vocab_size) => match self.require_usize(
                        key_of(architecture, "block_count"@),
                    ) {
                        Err(e) => Err(e),
                        Ok(block_count) => match self.require_usize(
                            key_of(architecture, "feed_forward_length"@),
                        ) {
                            Err(e) => Err(e),
                            Ok(feed_forward_length) => match self.require_usize(
                                key_of(architecture, "context_length"@),
                            ) {
                                Err(e) => Err(e),
                                Ok(context_length) => Ok(
                                    RequiredSizes {
                                        embedding_length,
                                        head_count,
                                        vocab_size,
                                        block_count,
                                        feed_forward_length,
                                        context_length,
                                    },
                                ),
                            },
                        },
                    },
                },
            },
        }
    }

    /// A single-precision hyper-parameter with a default.
    pub open spec fn reads_f32_or(self, key: Seq<char>, default: F32Bits, r: F32Bits) -> bool {
        self.reads_f32(key, Some(r)) || (self.reads_f32(key, None) && r == default)
    }

    /// `c` is the configuration that the metadata describes, for the architecture and
    /// the required sizes found in it.
    pub open spec fn describes(
        self,
        architecture: Seq<char>,
        sizes: RequiredSizes,
        c: ModelConfig,
    ) -> bool {
        &&& c.architecture@ == architecture
        &&& text::option_view(c.name) == self.get_str("general.name"@)
        &&& c.block_count == sizes.block_count
        &&& c.embedding_length == sizes.embedding_length
        &&& c.feed_forward_length == sizes.feed_forward_length
        &&& c.head_count == sizes.head_count
        // Absent, every query head has its own key/value head.
        &&& c.head_count_kv == match self.get_usize(
            key_of(architecture, "attention.head_count_kv"@),
        ) {
            Some(n) => n,
            None => sizes.head_count,
        }
        // Absent, the heads share out the model's width.
        &&& c.head_dim == match self.get_usize(key_of(architecture, "attention.key_length"@)) {
            Some(n) => n,
            None => if sizes.head_count == 0 {
                0
            } else {
                (sizes.embedding_length / sizes.head_count) as usize
            },
        }
        &&& c.context_length == sizes.context_length
        &&& self.reads_f32_or(
            key_of(architecture, "attention.layer_norm_rms_epsilon"@),
            F32Bits(DEFAULT_RMS_NORM_EPS),
            c.rms_norm_eps,
        )
        &&& self.reads_f32_or(
            key_of(architecture, "rope.freq_base"@),
            F32Bits(DEFAULT_ROPE_FREQ_BASE),
            c.rope_freq_base,
        )
        &&& c.rope_dimension_count == self.get_usize(
            key_of(architecture, "rope.dimension_count"@),
        )
        &&& c.vocab_size == sizes.vocab_size
        &&& c.bos_token_id == self.get_u32("tokenizer.ggml.bos_token_id"@)
        &&& c.eos_token_id == self.get_u32("tokenizer.ggml.eos_token_id"@)
        &&& c.pad_token_id == self.get_u32("tokenizer.ggml.padding_token_id"@)
        &&& c.unk_token_id == self.get_u32("tokenizer.ggml.unknown_token_id"@)
        &&& c.add_bos_token == self.get_bool("tokenizer.ggml.add_bos_token"@)
        &&& text::option_view(c.tokenizer_model) == self.get_str("tokenizer.ggml.model"@)
    }

    /// `c` is the model's configuration.
    pub open spec fn config_is(self, c: ModelConfig) -> bool {
        match self.require_str("general.architecture"@) {
            Err(e) => false,
            Ok(architecture) => match self.required_sizes(architecture) {
                Err(e) => false,
                Ok(sizes) => self.describes(architecture, sizes, c) && c.consistent(),
            },
        }
    }

    /// There is no configuration: `e` names the first entry that is missing or wrong,
    /// or says what is contradictory about the configuration that the metadata
    /// describes.
    pub open spec fn config_fails(self, e: GgufErrorView) -> bool {
        match self.require_str("general.architecture"@) {
            Err(x) => e == x,
            Ok(architecture) => match self.required_sizes(architecture) {
                Err(x) => e == x,
                Ok(sizes) => self.refuses(architecture, sizes, e),
            },
        }
    }

    /// `e` says what is contradictory about the configuration that the metadata
    /// describes.
    pub open spec fn refuses(
        self,
        architecture: Seq<char>,
        sizes: RequiredSizes,
        e: GgufErrorView,
    ) -> bool {
        exists|c: ModelConfig| #[trigger]
            self.describes(architecture, sizes, c) && c.contradiction() is Some && e
                == GgufErrorView::InconsistentConfig(c.contradiction()->0)
    }
}

/// A file has a configuration or it has none, never both.
pub proof fn law_config_or_error(g: GgufView, c: ModelConfig, e: GgufErrorView)
    requires
        g.config_is(c),
    ensures
        !g.config_fails(e),
{
}

impl<'a> Gguf<'a> {
    /// The size of the vocabulary.
    fn vocab_size(&self, architecture: &str) -> (r: Result<usize, GgufError>)
        ensures
            match r {
                Ok(n) => self@.vocab_size(architecture@) == Ok::<usize, GgufErrorView>(n),
                Err(e) => self@.vocab_size(architecture@) == Err::<usize, GgufErrorView>(e@),
            },
    {
        match self.get_array("tokenizer.ggml.tokens") {
            Some(a) => Ok(a.len()),
            None => match self.get_usize(&key(architecture, "vocab_size")) {
                Some(n) => Ok(n),
                None => Err(GgufError::MissingKey("tokenizer.ggml.tokens".to_owned())),
            },
        }
    }

    /// The sizes without which there is no model.
    fn required_sizes(&self, architecture: &str) -> (r: Result<RequiredSizes, GgufError>)
        ensures
            match r {
                Ok(n) => self@.required_sizes(architecture@) == Ok::<
                    RequiredSizes,
                    GgufErrorView,
                >(n),
                Err(e) => self@.required_sizes(architecture@) == Err::<
                    RequiredSizes,
                    GgufErrorView,
                >(e@),
            },
    {
        let embedding_length: usize = match self.require_usize(
            &key(architecture, "embedding_length"),
        ) {
            Ok(n) => n,
            Err(e) => return Err(e),
        };
        let head_count: usize = match self.require_usize(
            &key(architecture, "attention.head_count"),
        ) {
            Ok(n) => n,
            Err(e) => return Err(e),
        };
        // The token list is authoritative when present: the stated size is
        // sometimes stale or padded.
        let vocab_size: usize = match self.vocab_size(architecture) {
            Ok(n) => n,
            Err(e) => return Err(e),
        };
        let block_count: usize = match self.require_usize(&key(architecture, "block_count")) {
            Ok(n) => n,
            Err(e) => return Err(e),
        };
        let feed_forward_length: usize = match self.require_usize(
            &key(architecture, "feed_forward_length"),
        ) {
            Ok(n) => n,
            Err(e) => return Err(e),
        };
        let context_length: usize = match self.require_usize(
            &key(architecture, "context_length"),
        ) {
            Ok(n) => n,
            Err(e) => return Err(e),
        };
        Ok(
            RequiredSizes {
                embedding_length,
                head_count,
                vocab_size,
                block_count,
                feed_forward_length,
                context_length,
            },
        )
    }

    fn f32_or(&self, key: &str, default: F32Bits) -> (r: F32Bits)
        ensures
            self@.reads_f32_or(key@, default, r),
    {
        match self.get_f32(key) {
            Some(v) => v,
            None => default,
        }
    }

    /// The configuration of the model.  What is missing is an error, except where the
    /// format defines a default.
    pub fn config(&self) -> (r: Result<ModelConfig, GgufError>)
        ensures
            match r {
                Ok(c) => self@.config_is(c),
                Err(e) => self@.config_fails(e@),
            },
    {
        let architecture = match self.require_str("general.architecture") {
            Ok(s) => s,
            Err(e) => return Err(e),
        };
        let sizes = match self.required_sizes(architecture) {
            Ok(s) => s,
            Err(e) => return Err(e),
        };
        let head_count_kv: usize = match self.get_usize(
            &key(architecture, "attention.head_count_kv"),
        ) {
            Some(n) => n,
            None => sizes.head_count,
        };
        let head_dim: usize = match self.get_usize(&key(architecture, "attention.key_length")) {
            Some(n) => n,
            None => if sizes.head_count == 0 {
                0
            } else {
                sizes.embedding_length / sizes.head_count
            },
        };
        let c = ModelConfig {
            architecture: architecture.to_owned(),
            name: text::owned(self.get_str("general.name")),
            block_count: sizes.block_count,
            embedding_length: sizes.embedding_length,
            feed_forward_length: sizes.feed_forward_length,
            head_count: sizes.head_count,
            head_count_kv,
            head_dim,
            context_length: sizes.context_length,
            rms_norm_eps: self.f32_or(
                &key(architecture, "attention.layer_norm_rms_epsilon"),
                F32Bits(DEFAULT_RMS_NORM_EPS),
            ),
            rope_freq_base: self.f32_or(
                &key(architecture, "rope.freq_base"),
                F32Bits(DEFAULT_ROPE_FREQ_BASE),
            ),
            rope_dimension_count: self.get_usize(&key(architecture, "rope.dimension_count")),
            vocab_size: sizes.vocab_size,
            bos_token_id: self.get_u32("tokenizer.ggml.bos_token_id"),
            eos_token_id: self.get_u32("tokenizer.ggml.eos_token_id"),
            pad_token_id: self.get_u32("tokenizer.ggml.padding_token_id"),
            unk_token_id: self.get_u32("tokenizer.ggml.unknown_token_id"),
            add_bos_token: self.get_bool("tokenizer.ggml.add_bos_token"),
            tokenizer_model: text::owned(self.get_str("tokenizer.ggml.model")),
        };
        assert(self@.describes(architecture@, sizes, c));
        match c.validate() {
            Ok(()) => Ok(c),
            Err(e) => {
                assert(self@.refuses(architecture@, sizes, e@));
                Err(e)
            },
        }
    }
}

} // verus!
