//! How large the tensors of a container are.
use super::file;
use super::ggml_type::GgmlType;
use super::value::{MetaType, ValueView};
use super::ModelConfig;
use crate::text;
use vstd::prelude::*;

verus! {

/// The types in the order of their tags.  Tags without a type belonged to formats that were
/// withdrawn.
pub open spec fn in_tag_order(tag: int) -> Option<GgmlType> {
    if tag < 10 {
        seq![
            Some(GgmlType::F32),
            Some(GgmlType::F16),
            Some(GgmlType::Q4_0),
            Some(GgmlType::Q4_1),
            None,
            None,
            Some(GgmlType::Q5_0),
            Some(GgmlType::Q5_1),
            Some(GgmlType::Q8_0),
            Some(GgmlType::Q8_1),
        ][tag]
    } else if tag < 24 {
        seq![
            Some(GgmlType::Q2_K),
            Some(GgmlType::Q3_K),
            Some(GgmlType::Q4_K),
            Some(GgmlType::Q5_K),
            Some(GgmlType::Q6_K),
            Some(GgmlType::Q8_K),
            Some(GgmlType::IQ2_XXS),
            Some(GgmlType::IQ2_XS),
            Some(GgmlType::IQ3_XXS),
            Some(GgmlType::IQ1_S),
            Some(GgmlType::IQ4_NL),
            Some(GgmlType::IQ3_S),
            Some(GgmlType::IQ2_S),
            Some(GgmlType::IQ4_XS),
        ][tag - 10]
    } else if tag < 36 {
        seq![
            Some(GgmlType::I8),
            Some(GgmlType::I16),
            Some(GgmlType::I32),
            Some(GgmlType::I64),
            Some(GgmlType::F64),
            Some(GgmlType::IQ1_M),
            Some(GgmlType::BF16),
            None,
            None,
            None,
            Some(GgmlType::TQ1_0),
            Some(GgmlType::TQ2_0),
        ][tag - 24]
    } else {
        None
    }
}

/// A type stands under its own tag, and under no other.
pub proof fn law_tags_name_the_types(ty: GgmlType, tag: u32)
    ensures
        in_tag_order(tag as int) == Some(ty) <==> ty.tag() == tag,
        in_tag_order(tag as int) is Some <==> GgmlType::known_tag(tag),
{
}

/// How many numbers a block stands for: one where each stands for itself, 32 in the first
/// generation of formats, 256 in the later ones.
pub open spec fn numbers_in_block(ty: GgmlType) -> nat {
    let whole = ty is F32 || ty is F16 || ty is BF16 || ty is F64 || ty is I8 || ty is I16
        || ty is I32 || ty is I64;
    let small = ty is Q4_0 || ty is Q4_1 || ty is Q5_0 || ty is Q5_1 || ty is Q8_0 || ty is Q8_1
        || ty is IQ4_NL;
    if whole {
        1
    } else if small {
        32
    } else {
        256
    }
}

/// How many bits a number takes of a block, without what the block states once.
pub open spec fn bits_each(ty: GgmlType) -> nat {
    match ty {
        GgmlType::F32 | GgmlType::I32 => 32,
        GgmlType::F64 | GgmlType::I64 => 64,
        GgmlType::F16 | GgmlType::BF16 | GgmlType::I16 => 16,
        GgmlType::I8 | GgmlType::Q8_0 | GgmlType::Q8_1 | GgmlType::Q8_K => 8,
        GgmlType::Q6_K => 6,
        GgmlType::Q5_0 | GgmlType::Q5_1 | GgmlType::Q5_K => 5,
        GgmlType::Q4_0
        | GgmlType::Q4_1
        | GgmlType::Q4_K
        | GgmlType::IQ4_NL
        | GgmlType::IQ4_XS => 4,
        GgmlType::Q3_K | GgmlType::IQ3_XXS => 3,
        GgmlType::Q2_K | GgmlType::IQ2_XXS | GgmlType::IQ2_XS | GgmlType::TQ2_0 => 2,
        _ => 0,
    }
}

/// How many bytes a block has beside its numbers: scales, minima, sums and signs.
pub open spec fn bytes_beside(ty: GgmlType) -> nat {
    match ty {
        GgmlType::Q4_0 | GgmlType::Q5_0 | GgmlType::Q8_0 | GgmlType::IQ4_NL => 2,
        GgmlType::Q4_1 | GgmlType::Q5_1 => 2 + 2,
        GgmlType::Q8_1 => 4,
        GgmlType::Q2_K => 16 + 2 + 2,
        GgmlType::Q3_K => 12 + 2,
        GgmlType::Q4_K | GgmlType::Q5_K => 2 + 2 + 12,
        GgmlType::Q6_K => 16 + 2,
        GgmlType::Q8_K => 4 + 16 * 2,
        GgmlType::IQ2_XXS | GgmlType::IQ3_XXS | GgmlType::TQ2_0 => 2,
        GgmlType::IQ2_XS => 2 + 8,
        GgmlType::IQ1_S => 2 + 32 + 8 * 2,
        GgmlType::IQ3_S => 2 + 64 + 8 + 32 + 4,
        GgmlType::IQ2_S => 2 + 64 + 8 + 8,
        GgmlType::IQ4_XS => 2 + 2 + 4,
        GgmlType::IQ1_M => 32 + 16 + 8,
        GgmlType::TQ1_0 => 48 + 4 + 2,
        _ => 0,
    }
}

/// A block is as long as its numbers and what stands beside them.
pub proof fn law_blocks_hold_their_numbers(ty: GgmlType)
    ensures
        ty.block_elems() == numbers_in_block(ty),
        8 * ty.block_bytes() == bits_each(ty) * numbers_in_block(ty) + 8 * bytes_beside(ty),
{
    let b = bits_each(ty) as int;
    let n = numbers_in_block(ty) as int;
    assert(n == 1 || n == 32 || n == 256);
    assert(b * n == if n == 1 {
        b
    } else if n == 32 {
        32 * b
    } else {
        256 * b
    }) by (nonlinear_arith)
        requires
            n == 1 || n == 32 || n == 256,
    ;
}

/// Numbers take as many bytes as their blocks, where they fill whole blocks.
pub proof fn law_numbers_fill_whole_blocks(ty: GgmlType, k: nat)
    ensures
        k * ty.block_bytes() <= u64::MAX ==> ty.spec_bytes_for(k * ty.block_elems() as nat) == Some(
            k * ty.block_bytes() as nat,
        ),
        k * ty.block_bytes() > u64::MAX ==> ty.spec_bytes_for(k * ty.block_elems() as nat) is None,
        forall|r: nat|
            0 < r < ty.block_elems() ==> #[trigger] ty.spec_bytes_for(
                k * ty.block_elems() as nat + r,
            ) is None,
{
    let be = ty.block_elems() as int;
    vstd::arithmetic::div_mod::lemma_fundamental_div_mod_converse(
        k * be,
        be,
        k as int,
        0,
    );
    assert forall|r: nat| 0 < r < ty.block_elems() implies #[trigger] ty.spec_bytes_for(
        k * ty.block_elems() as nat + r,
    ) is None by {
        vstd::arithmetic::div_mod::lemma_fundamental_div_mod_converse(
            k * be + r,
            be,
            k as int,
            r as int,
        );
    }
}

/// The elements of a tensor are the product of its axes.
pub proof fn law_axes_are_multiplied(dims: Seq<u64>)
    ensures
        file::product(dims, 0, 1) == dims[0],
        file::product(dims, 0, 2) == dims[0] * dims[1],
        file::product(dims, 0, 3) == dims[0] * dims[1] * dims[2],
        file::product(dims, 0, 4) == dims[0] * dims[1] * dims[2] * dims[3],
{
    reveal_with_fuel(file::product, 5);
    let d = dims[0] as int;
    assert(1 * d == d);
}

/// The rows of a tensor make up the tensor: there are as many as its elements fill, at the
/// length of its first axis.
pub proof fn law_rows_make_up_a_tensor(dims: Seq<u64>, n: nat)
    requires
        1 <= n,
    ensures
        file::product(dims, 0, n) == dims[0] * file::product(dims, 1, (n - 1) as nat),
    decreases n,
{
    let d = dims[0] as int;
    if n == 1 {
        assert(file::product(dims, 1, 0) == 1);
        assert(file::product(dims, 0, 0) == 1);
        assert(1 * d == d);
        assert(d * 1 == d);
    } else {
        let m = (n - 1) as nat;
        law_rows_make_up_a_tensor(dims, m);
        let rows = file::product(dims, 1, (m - 1) as nat) as int;
        let last = dims[n - 1] as int;
        assert((d * rows) * last == d * (rows * last)) by (nonlinear_arith);
    }
}

/// An integer is read as it is, whatever the width that it was written in.
pub proof fn law_widths_do_not_matter(
    a: u8,
    b: u16,
    c: u32,
    d: u64,
    e: i8,
    f: i16,
    g: i32,
    h: i64,
)
    ensures
        ValueView::U8(a).as_u64() == Some(a as u64),
        ValueView::U16(b).as_u64() == Some(b as u64),
        ValueView::U32(c).as_u64() == Some(c as u64),
        ValueView::U64(d).as_u64() == Some(d),
        e >= 0 ==> ValueView::I8(e).as_u64() == Some(e as u64),
        f >= 0 ==> ValueView::I16(f).as_u64() == Some(f as u64),
        g >= 0 ==> ValueView::I32(g).as_u64() == Some(g as u64),
        h >= 0 ==> ValueView::I64(h).as_u64() == Some(h as u64),
        e < 0 ==> ValueView::I8(e).as_u64() is None,
        f < 0 ==> ValueView::I16(f).as_u64() is None,
        g < 0 ==> ValueView::I32(g).as_u64() is None,
        h < 0 ==> ValueView::I64(h).as_u64() is None,
        ValueView::U8(a).as_i64() == Some(a as i64),
        ValueView::U16(b).as_i64() == Some(b as i64),
        ValueView::U32(c).as_i64() == Some(c as i64),
        d <= 0x7fff_ffff_ffff_ffff ==> ValueView::U64(d).as_i64() == Some(d as i64),
        d > 0x7fff_ffff_ffff_ffff ==> ValueView::U64(d).as_i64() is None,
        ValueView::I8(e).as_i64() == Some(e as i64),
        ValueView::I16(f).as_i64() == Some(f as i64),
        ValueView::I32(g).as_i64() == Some(g as i64),
        ValueView::I64(h).as_i64() == Some(h),
        ValueView::U8(a).as_bool() == Some(a > 0),
{
}

/// So many of one size make up a whole.
pub open spec fn makes(count: int, each: int, whole: int) -> bool {
    count * each == whole
}

/// A configuration is taken exactly where the key/value heads share out the query heads
/// evenly, heads can be rotated in pairs, and nothing that counts is zero.
pub proof fn law_sensible_configurations_are_taken(c: ModelConfig)
    ensures
        c.consistent() <==> {
            &&& c.head_count > 0 && c.head_count_kv > 0
            &&& exists|group: int| #[trigger]
                makes(group, c.head_count_kv as int, c.head_count as int)
            &&& exists|pairs: int| #[trigger]
                makes(pairs, 2, c.head_dim as int) && pairs > 0
            &&& c.rope_dimension_count matches Some(r) ==> r <= c.head_dim && r % 2 == 0
            &&& c.block_count > 0 && c.embedding_length > 0 && c.vocab_size > 0
        },
{
    let n = c.head_count as int;
    let kv = c.head_count_kv as int;
    if kv > 0 {
        vstd::arithmetic::div_mod::lemma_fundamental_div_mod(n, kv);
        let q = n / kv;
        assert(kv * q == q * kv) by (nonlinear_arith);
        if n % kv == 0 {
            assert(makes(q, kv, n));
        }
        if exists|group: int| #[trigger] makes(group, kv, n) {
            let group = choose|group: int| #[trigger] makes(group, kv, n);
            assert(n == kv * group + 0) by (nonlinear_arith)
                requires
                    group * kv == n,
            ;
            vstd::arithmetic::div_mod::lemma_fundamental_div_mod_converse(n, kv, group, 0);
        }
    }
    if c.head_dim % 2 == 0 {
        assert(makes(c.head_dim as int / 2, 2, c.head_dim as int));
    }
}

/// The names of the types.
pub proof fn law_types_go_by_their_names(ty: GgmlType)
    ensures
        ty is F32 ==> ty.name()@ == "f32"@,
        ty is F16 ==> ty.name()@ == "f16"@,
        ty is Q4_0 ==> ty.name()@ == "q4_0"@,
        ty is Q4_1 ==> ty.name()@ == "q4_1"@,
        ty is Q5_0 ==> ty.name()@ == "q5_0"@,
        ty is Q5_1 ==> ty.name()@ == "q5_1"@,
        ty is Q8_0 ==> ty.name()@ == "q8_0"@,
        ty is Q8_1 ==> ty.name()@ == "q8_1"@,
        ty is Q2_K ==> ty.name()@ == "q2_K"@,
        ty is Q3_K ==> ty.name()@ == "q3_K"@,
        ty is Q4_K ==> ty.name()@ == "q4_K"@,
        ty is Q5_K ==> ty.name()@ == "q5_K"@,
        ty is Q6_K ==> ty.name()@ == "q6_K"@,
        ty is Q8_K ==> ty.name()@ == "q8_K"@,
        ty is IQ2_XXS ==> ty.name()@ == "iq2_xxs"@,
        ty is IQ2_XS ==> ty.name()@ == "iq2_xs"@,
        ty is IQ3_XXS ==> ty.name()@ == "iq3_xxs"@,
        ty is IQ1_S ==> ty.name()@ == "iq1_s"@,
        ty is IQ4_NL ==> ty.name()@ == "iq4_nl"@,
        ty is IQ3_S ==> ty.name()@ == "iq3_s"@,
        ty is IQ2_S ==> ty.name()@ == "iq2_s"@,
        ty is IQ4_XS ==> ty.name()@ == "iq4_xs"@,
        ty is I8 ==> ty.name()@ == "i8"@,
        ty is I16 ==> ty.name()@ == "i16"@,
        ty is I32 ==> ty.name()@ == "i32"@,
        ty is I64 ==> ty.name()@ == "i64"@,
        ty is F64 ==> ty.name()@ == "f64"@,
        ty is IQ1_M ==> ty.name()@ == "iq1_m"@,
        ty is BF16 ==> ty.name()@ == "bf16"@,
        ty is TQ1_0 ==> ty.name()@ == "tq1_0"@,
        ty is TQ2_0 ==> ty.name()@ == "tq2_0"@,
{
}

/// A value goes by the name of its type, and so do the elements of a list.
pub proof fn law_values_go_by_their_types(v: ValueView, m: MetaType)
    ensures
        v is U8 ==> v.kind_name() == "u8"@,
        v is I8 ==> v.kind_name() == "i8"@,
        v is U16 ==> v.kind_name() == "u16"@,
        v is I16 ==> v.kind_name() == "i16"@,
        v is U32 ==> v.kind_name() == "u32"@,
        v is I32 ==> v.kind_name() == "i32"@,
        v is U64 ==> v.kind_name() == "u64"@,
        v is I64 ==> v.kind_name() == "i64"@,
        v is F32 ==> v.kind_name() == "f32"@,
        v is F64 ==> v.kind_name() == "f64"@,
        v is Bool ==> v.kind_name() == "bool"@,
        v is Str ==> v.kind_name() == "string"@,
        v is Array ==> v.kind_name() == "array"@,
        m is U8 && v is U8 || m is I8 && v is I8 || m is U16 && v is U16 || m is I16 && v is I16
            || m is U32 && v is U32 || m is I32 && v is I32 || m is U64 && v is U64 || m is I64
            && v is I64 || m is F32 && v is F32 || m is F64 && v is F64 || m is Bool && v is Bool
            || m is String && v is Str || m is Array && v is Array ==> m.name() == v.kind_name(),
{
}

/// What contradicts what is told with the numbers that do, the first that is found.
pub proof fn law_contradictions_are_told(c: ModelConfig, group: nat, rest: nat)
    requires
        c.head_count == group * c.head_count_kv + rest,
        c.head_count_kv > 0 ==> rest < c.head_count_kv,
    ensures
        c.head_count == 0 || c.head_count_kv == 0 ==> c.contradiction() == Some(
            "head_count must be non-zero"@,
        ),
        c.head_count_kv > 0 && rest > 0 ==> c.contradiction() == Some(
            "head_count "@ + text::decimal(c.head_count as nat)
                + " is not divisible by head_count_kv "@ + text::decimal(c.head_count_kv as nat)
                + ": GQA grouping would be undefined"@,
        ),
        c.head_count > 0 && c.head_count_kv > 0 && rest == 0 ==> {
            let bad_dim = c.head_dim == 0 || c.head_dim % 2 == 1;
            let bad_rope = c.rope_dimension_count matches Some(r) && (r > c.head_dim || r % 2 == 1);
            &&& bad_dim ==> c.contradiction() == Some(
                "head_dim "@ + text::decimal(c.head_dim as nat) + " must be even for RoPE"@,
            )
            &&& !bad_dim && bad_rope ==> c.contradiction() == Some(
                "rope.dimension_count "@ + text::decimal(c.rope_dimension_count->0 as nat)
                    + " must be even and <= head_dim "@ + text::decimal(c.head_dim as nat),
            )
            &&& !bad_dim && !bad_rope && (c.block_count == 0 || c.embedding_length == 0
                || c.vocab_size == 0) ==> c.contradiction() == Some(
                "block_count, embedding_length and vocab_size must all be non-zero"@,
            )
        },
{
    let n = c.head_count as int;
    let kv = c.head_count_kv as int;
    if kv > 0 {
        vstd::arithmetic::div_mod::lemma_fundamental_div_mod_converse(
            n,
            kv,
            group as int,
            rest as int,
        );
    }
}

} // verus!
