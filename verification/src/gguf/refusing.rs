//! What is refused, and what is said of it.
use super::error::GgufErrorView;
use super::file;
use super::file::{GgufView, TensorInfoView};
use super::ggml_type::GgmlType;
use super::parse;
use super::reader;
use super::value;
use super::value::{MetaType, ValueView};
use vstd::arithmetic::power2::is_pow2;
use vstd::prelude::*;
use vstd::utf8::*;

verus! {

/// Bytes are read where they are there; else it is said where, how many were needed and how
/// many were left.
pub proof fn law_reading_stops_at_the_end(file: Seq<u8>, pos: int, n: int, i: int)
    requires
        0 <= pos <= file.len(),
        0 <= n,
        0 <= i < n,
    ensures
        pos + n <= file.len() ==> {
            &&& reader::spec_take(file, pos, n) matches Ok((b, p)) && b.len() == n && b[i]
                == file[pos + i] && p == pos + n
        },
        pos + n > file.len() ==> reader::spec_take(file, pos, n) == Err::<
            (Seq<u8>, int),
            GgufErrorView,
        >(GgufErrorView::UnexpectedEof { at: pos, needed: n, remaining: file.len() - pos }),
{
}

/// Numbers are read with their lowest byte first.
pub proof fn law_the_lowest_byte_comes_first(file: Seq<u8>, pos: int, low: nat, high: nat)
    requires
        0 <= pos,
        pos + 8 <= file.len(),
        low == file[pos] + 0x100 * file[pos + 1] + 0x1_0000 * file[pos + 2] + 0x100_0000 * file[pos
            + 3],
        high == file[pos + 4] + 0x100 * file[pos + 5] + 0x1_0000 * file[pos + 6] + 0x100_0000
            * file[pos + 7],
    ensures
        reader::spec_uint(file, pos, 1) == Ok::<(nat, int), GgufErrorView>(
            (file[pos] as nat, pos + 1),
        ),
        reader::spec_uint(file, pos, 2) == Ok::<(nat, int), GgufErrorView>(
            ((file[pos] + 0x100 * file[pos + 1]) as nat, pos + 2),
        ),
        reader::spec_uint(file, pos, 4) == Ok::<(nat, int), GgufErrorView>((low, pos + 4)),
        reader::spec_uint(file, pos, 8) == Ok::<(nat, int), GgufErrorView>(
            (low + 0x1_0000_0000 * high, pos + 8),
        ),
{
    reveal_with_fuel(reader::le_nat, 9);
}

/// A count is refused exactly where its items cannot all be there.
pub proof fn law_counts_must_be_plausible(
    file: Seq<u8>,
    pos: int,
    what: Seq<char>,
    size: nat,
    n: nat,
)
    requires
        0 <= pos,
        pos + 8 <= file.len(),
        reader::spec_uint(file, pos, 8) == Ok::<(nat, int), GgufErrorView>((n, pos + 8)),
    ensures
        n * size <= file.len() - (pos + 8) ==> reader::spec_len(file, pos, what, size) == Ok::<
            (nat, int),
            GgufErrorView,
        >((n, pos + 8)),
        n * size > file.len() - (pos + 8) ==> reader::spec_len(file, pos, what, size) == Err::<
            (nat, int),
            GgufErrorView,
        >(
            GgufErrorView::ImplausibleCount {
                what,
                count: n,
                remaining: file.len() - (pos + 8),
            },
        ),
{
}

/// Bytes that are no text are refused, at the place where they start.
pub proof fn law_texts_must_be_text(file: Seq<u8>, pos: int, n: nat)
    requires
        0 <= pos,
        pos + 8 + n <= file.len(),
        reader::spec_uint(file, pos, 8) == Ok::<(nat, int), GgufErrorView>((n, pos + 8)),
    ensures
        ({
            let b = file.subrange(pos + 8, pos + 8 + n);
            &&& valid_utf8(b) ==> reader::spec_str(file, pos) == Ok::<
                (Seq<char>, int),
                GgufErrorView,
            >((decode_utf8(b), pos + 8 + n))
            &&& !valid_utf8(b) ==> reader::spec_str(file, pos) == Err::<
                (Seq<char>, int),
                GgufErrorView,
            >(GgufErrorView::InvalidUtf8 { at: pos + 8 })
        }),
{
    assert(n * 1 == n);
}

/// A file that does not start with `GGUF` and a version that is known is refused, and told so.
pub proof fn law_other_files_are_refused(file: Seq<u8>, version: u32)
    ensures
        file.len() < 4 ==> file::spec_parse(file) == Err::<GgufView, GgufErrorView>(
            GgufErrorView::UnexpectedEof { at: 0, needed: 4, remaining: file.len() as int },
        ),
        file.len() >= 4 && !(file[0] == 0x47 && file[1] == 0x47 && file[2] == 0x55 && file[3]
            == 0x46) ==> file::spec_parse(file) == Err::<GgufView, GgufErrorView>(
            GgufErrorView::BadMagic(file.take(4)),
        ),
        file.len() >= 8 && file[0] == 0x47 && file[1] == 0x47 && file[2] == 0x55 && file[3] == 0x46
            && version == file[4] + 0x100 * file[5] + 0x1_0000 * file[6] + 0x100_0000 * file[7]
            && version != 2 && version != 3 ==> file::spec_parse(file) == Err::<
            GgufView,
            GgufErrorView,
        >(GgufErrorView::UnsupportedVersion(version)),
{
    if file.len() >= 4 {
        let magic = file.subrange(0, 4);
        assert(magic =~= file.take(4));
        assert(magic[0] == file[0] && magic[1] == file[1]);
        assert(magic[2] == file[2] && magic[3] == file[3]);
        let gguf = seq![71u8, 71u8, 85u8, 70u8];
        if file[0] == 0x47 && file[1] == 0x47 && file[2] == 0x55 && file[3] == 0x46 {
            assert(magic =~= gguf);
        } else {
            assert(gguf[0] == 71 && gguf[1] == 71 && gguf[2] == 85 && gguf[3] == 70);
        }
        if file.len() >= 8 {
            let v = file.subrange(4, 8);
            reveal_with_fuel(reader::le_nat, 5);
            assert(reader::le_nat(v) == v[0] + 256 * v[1] + 65536 * v[2] + 16777216 * v[3]);
        }
    }
}

/// An alignment must be a power of two, and a number; without one it is 32.
pub proof fn law_alignments_are_powers_of_two(
    metadata: Seq<(Seq<char>, ValueView)>,
    a: u64,
    s: Seq<char>,
)
    ensures
        file::lookup(metadata, "general.alignment"@) is None ==> file::spec_alignment(metadata)
            == Ok::<u64, GgufErrorView>(32),
        file::lookup(metadata, "general.alignment"@) == Some(ValueView::U64(a)) ==> {
            &&& is_pow2(a as int) ==> file::spec_alignment(metadata) == Ok::<u64, GgufErrorView>(a)
            &&& !is_pow2(a as int) ==> file::spec_alignment(metadata) == Err::<u64, GgufErrorView>(
                GgufErrorView::BadAlignment(a),
            )
        },
        file::lookup(metadata, "general.alignment"@) == Some(ValueView::Str(s))
            ==> file::spec_alignment(metadata) == Err::<u64, GgufErrorView>(
            GgufErrorView::WrongType {
                key: "general.alignment"@,
                wanted: "integer"@,
                found: "string"@,
            },
        ),
{
    assert(is_pow2(32)) by {
        reveal_with_fuel(is_pow2, 7);
    }
}

/// The first tensor that does not stand at a multiple of the alignment inside the data is
/// named, with its place.
pub proof fn law_misplaced_tensors_are_named(
    tensors: Seq<TensorInfoView>,
    alignment: u64,
    len: int,
    k: int,
)
    requires
        0 <= k < tensors.len(),
        len <= u64::MAX,
        forall|i: int|
            0 <= i < k ==> {
                let t = #[trigger] tensors[i];
                t.offset % (alignment as nat) == 0 && t.offset + t.byte_size <= len
            },
    ensures
        ({
            let t = tensors[k];
            let e = file::first_misplaced(tensors, alignment, len);
            if t.offset % (alignment as nat) != 0 {
                e == Some(
                    GgufErrorView::MisalignedTensor {
                        name: t.name,
                        offset: t.offset,
                        alignment: alignment as nat,
                    },
                )
            } else if t.offset + t.byte_size > u64::MAX {
                e == Some(GgufErrorView::SizeOverflow { name: t.name })
            } else if t.offset + t.byte_size > len {
                e == Some(
                    GgufErrorView::TensorOutOfBounds {
                        name: t.name,
                        offset: t.offset,
                        size: t.byte_size,
                        section_len: len,
                    },
                )
            } else {
                true
            }
        }),
    decreases k,
{
    if k > 0 {
        let rest = tensors.drop_first();
        assert(tensors[0].offset % (alignment as nat) == 0);
        assert forall|i: int| 0 <= i < k - 1 implies {
            let t = #[trigger] rest[i];
            t.offset % (alignment as nat) == 0 && t.offset + t.byte_size <= len
        } by {
            assert(rest[i] == tensors[i + 1]);
        }
        law_misplaced_tensors_are_named(rest, alignment, len, k - 1);
    }
}

/// A shape must have a size, and a whole number of blocks.
pub proof fn law_shapes_must_fill_blocks(name: Seq<char>, ty: GgmlType, dims: Seq<u64>, n: nat)
    requires
        file::products_fit(dims, 0, n),
    ensures
        ({
            let elements = file::product(dims, 0, n);
            let r = file::spec_byte_size(name, ty, dims, n);
            &&& elements % (ty.block_elems() as nat) != 0 ==> r == Err::<nat, GgufErrorView>(
                GgufErrorView::NotBlockAligned { name, elements, block: ty.block_elems() as nat },
            )
            &&& elements % (ty.block_elems() as nat) == 0 ==> match r {
                Ok(size) => size * ty.block_elems() == elements * ty.block_bytes() && size
                    <= u64::MAX,
                Err(e) => e == (GgufErrorView::SizeOverflow { name }) && elements
                    * ty.block_bytes() > u64::MAX,
            }
        }),
{
    let elements = file::product(dims, 0, n) as int;
    let be = ty.block_elems() as int;
    let bb = ty.block_bytes() as int;
    vstd::arithmetic::div_mod::lemma_fundamental_div_mod(elements, be);
    if elements % be == 0 {
        let q = elements / be;
        assert((q * bb) * be == elements * bb) by (nonlinear_arith)
            requires
                elements == be * q,
        ;
        assert(q * bb <= elements * bb) by (nonlinear_arith)
            requires
                elements == be * q,
                be >= 1,
                bb >= 1,
                q >= 0,
        ;
        assert(q >= 0);
    }
}

/// A required entry that is missing, or of another kind, is named.
pub proof fn law_required_entries_are_named(
    g: GgufView,
    key: Seq<char>,
    n: u64,
    s: Seq<char>,
    b: u32,
)
    ensures
        file::lookup(g.metadata, key) is None ==> {
            &&& g.require_usize(key) == Err::<usize, GgufErrorView>(GgufErrorView::MissingKey(key))
            &&& g.require_str(key) == Err::<Seq<char>, GgufErrorView>(
                GgufErrorView::MissingKey(key),
            )
        },
        file::lookup(g.metadata, key) == Some(ValueView::U64(n)) ==> {
            &&& n <= usize::MAX ==> g.require_usize(key) == Ok::<usize, GgufErrorView>(n as usize)
            &&& n > u32::MAX ==> g.get_u32(key) is None
            &&& n <= u32::MAX ==> g.get_u32(key) == Some(n as u32)
            &&& g.require_str(key) == Err::<Seq<char>, GgufErrorView>(
                GgufErrorView::WrongType { key, wanted: "string"@, found: "u64"@ },
            )
        },
        file::lookup(g.metadata, key) == Some(ValueView::Str(s)) ==> {
            &&& g.require_str(key) == Ok::<Seq<char>, GgufErrorView>(s)
            &&& g.require_usize(key) == Err::<usize, GgufErrorView>(
                GgufErrorView::WrongType { key, wanted: "integer"@, found: "string"@ },
            )
        },
        file::lookup(g.metadata, key) == Some(ValueView::F32(b)) ==> g.require_usize(key) == Err::<
            usize,
            GgufErrorView,
        >(GgufErrorView::WrongType { key, wanted: "integer"@, found: "f32"@ }),
{
}

/// Arrays stand in at most three others.
pub proof fn law_deep_arrays_are_refused(file: Seq<u8>, pos: int, depth: nat)
    requires
        depth >= 4,
    ensures
        value::spec_value(file, pos, MetaType::Array, depth) == Err::<
            (ValueView, int),
            GgufErrorView,
        >(GgufErrorView::ArrayNestingTooDeep),
{
}

/// A reader that could not read stands behind the last field that was whole: a text that is
/// refused leaves it behind its length, and behind its bytes where these are no text.
pub proof fn law_readers_stop_behind_whole_fields(file: Seq<u8>, pos: int, n: nat)
    requires
        0 <= pos <= file.len(),
    ensures
        pos + 8 > file.len() ==> reader::after_bad_str(file, pos) == pos && reader::after_count(
            file,
            pos,
        ) == pos,
        pos + 8 <= file.len() ==> reader::after_count(file, pos) == pos + 8,
        pos + 8 <= file.len() && reader::spec_uint(file, pos, 8) == Ok::<(nat, int), GgufErrorView>(
            (n, pos + 8),
        ) ==> reader::after_bad_str(file, pos) == if pos + 8 + n <= file.len() {
            pos + 8 + n
        } else {
            pos + 8
        },
        ({
            let end = file::after_bad_u64s(file, pos);
            &&& pos <= end <= file.len() < end + 8
            &&& (end - pos) % 8 == 0
        }),
{
    assert(n * 1 == n);
}

/// The same of an entry of the tensor table: its name, how many axes it has, the axes, the tag
/// of its type, and its offset.
pub proof fn law_readers_stop_inside_the_table(
    file: Seq<u8>,
    pos: int,
    name: Seq<char>,
    at: int,
    n: nat,
)
    requires
        0 <= pos <= at,
        at + 4 <= file.len(),
        reader::spec_str(file, pos) == Ok::<(Seq<char>, int), GgufErrorView>((name, at)),
        reader::spec_uint(file, at, 4) == Ok::<(nat, int), GgufErrorView>((n, at + 4)),
    ensures
        n > 4 ==> file::after_bad_tensor_info(file, pos) == at + 4,
        n > 4 ==> file::spec_tensor_info(file, pos) == Err::<
            (TensorInfoView, int),
            GgufErrorView,
        >(GgufErrorView::TooManyDims { name, n_dims: n }),
        n <= 4 && at + 4 + 8 * n > file.len() ==> file::after_bad_tensor_info(file, pos)
            == file::after_bad_u64s(file, at + 4),
        n <= 4 && at + 4 + 8 * n <= file.len() < at + 4 + 8 * n + 4
            ==> file::after_bad_tensor_info(file, pos) == at + 4 + 8 * n,
        n <= 4 && at + 4 + 8 * n + 4 <= file.len() < at + 4 + 8 * n + 12
            ==> file::after_bad_tensor_info(file, pos) == at + 4 + 8 * n + 4,
{
    if n <= 4 {
        lemma_axes(file, at + 4, n);
    }
}

proof fn lemma_axes(file: Seq<u8>, pos: int, n: nat)
    requires
        0 <= pos <= file.len(),
    ensures
        pos + 8 * n <= file.len() ==> (file::spec_u64s(file, pos, n) matches Ok((v, p)) && p == pos
            + 8 * n),
        pos + 8 * n > file.len() ==> file::spec_u64s(file, pos, n) is Err,
    decreases n,
{
    if n > 0 {
        lemma_axes(file, pos, (n - 1) as nat);
    }
}

/// The bytes of all tensors are those of each, added up.
pub proof fn law_tensor_bytes_add_up(a: Seq<TensorInfoView>, t: TensorInfoView)
    ensures
        parse::total_bytes(a.push(t), (a.len() + 1) as nat) == parse::total_bytes(a, a.len())
            + t.byte_size,
        parse::total_bytes(a, 0) == 0,
{
    lemma_same_front(a, a.push(t), a.len());
}

proof fn lemma_same_front(a: Seq<TensorInfoView>, b: Seq<TensorInfoView>, n: nat)
    requires
        n <= a.len(),
        n <= b.len(),
        forall|i: int| 0 <= i < n ==> a[i] == #[trigger] b[i],
    ensures
        parse::total_bytes(a, n) == parse::total_bytes(b, n),
    decreases n,
{
    if n > 0 {
        assert(a[n - 1] == b[n - 1]);
        lemma_same_front(a, b, (n - 1) as nat);
    }
}

} // verus!
