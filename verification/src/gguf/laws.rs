//! What holds of every container.
use super::file;
use super::file::TensorInfoView;
use super::reader;
use super::value;
use super::value::MetaType;
use vstd::arithmetic::power2::is_pow2;
use vstd::prelude::*;

verus! {

proof fn lemma_take_extends(file: Seq<u8>, more: Seq<u8>, pos: int, n: int)
    requires
        0 <= pos <= file.len(),
        n >= 0,
        reader::spec_take(file, pos, n) is Ok,
    ensures
        reader::spec_take(file + more, pos, n) == reader::spec_take(file, pos, n),
        reader::spec_take(file, pos, n)->Ok_0.1 == pos + n <= file.len(),
{
    assert((file + more).subrange(pos, pos + n) =~= file.subrange(pos, pos + n));
}

proof fn lemma_uint_extends(file: Seq<u8>, more: Seq<u8>, pos: int, width: int)
    requires
        0 <= pos <= file.len(),
        width >= 0,
        reader::spec_uint(file, pos, width) is Ok,
    ensures
        reader::spec_uint(file + more, pos, width) == reader::spec_uint(file, pos, width),
        0 <= reader::spec_uint(file, pos, width)->Ok_0.1 <= file.len(),
{
    lemma_take_extends(file, more, pos, width);
}

proof fn lemma_len_extends(file: Seq<u8>, more: Seq<u8>, pos: int, what: Seq<char>, size: nat)
    requires
        0 <= pos <= file.len(),
        reader::spec_len(file, pos, what, size) is Ok,
    ensures
        reader::spec_len(file + more, pos, what, size) == reader::spec_len(file, pos, what, size),
        0 <= reader::spec_len(file, pos, what, size)->Ok_0.1 <= file.len(),
{
    lemma_uint_extends(file, more, pos, 8);
}

proof fn lemma_str_extends(file: Seq<u8>, more: Seq<u8>, pos: int)
    requires
        0 <= pos <= file.len(),
        reader::spec_str(file, pos) is Ok,
    ensures
        reader::spec_str(file + more, pos) == reader::spec_str(file, pos),
        0 <= reader::spec_str(file, pos)->Ok_0.1 <= file.len(),
{
    lemma_len_extends(file, more, pos, "string length"@, 1);
    let (n, p) = reader::spec_len(file, pos, "string length"@, 1)->Ok_0;
    assert((file + more).subrange(p, p + n) =~= file.subrange(p, p + n));
}

proof fn lemma_scalar_extends(file: Seq<u8>, more: Seq<u8>, pos: int, ty: MetaType)
    requires
        0 <= pos <= file.len(),
        ty != MetaType::Array,
        value::spec_scalar(file, pos, ty) is Ok,
    ensures
        value::spec_scalar(file + more, pos, ty) == value::spec_scalar(file, pos, ty),
        0 <= value::spec_scalar(file, pos, ty)->Ok_0.1 <= file.len(),
{
    if ty == MetaType::String {
        lemma_str_extends(file, more, pos);
    } else {
        lemma_uint_extends(file, more, pos, ty.fixed_size()->0 as int);
    }
}

proof fn lemma_array_header_extends(file: Seq<u8>, more: Seq<u8>, pos: int)
    requires
        0 <= pos <= file.len(),
        value::spec_array_header(file, pos) is Ok,
    ensures
        value::spec_array_header(file + more, pos) == value::spec_array_header(file, pos),
        0 <= value::spec_array_header(file, pos)->Ok_0.2 <= file.len(),
{
    lemma_uint_extends(file, more, pos, 4);
    let (tag, p) = reader::spec_uint(file, pos, 4)->Ok_0;
    let elem = MetaType::spec_from_tag(tag)->0;
    let size = match elem.fixed_size() {
        Some(s) => s as nat,
        None => 1,
    };
    lemma_len_extends(file, more, p, "array element"@, size);
}

proof fn lemma_value_extends(file: Seq<u8>, more: Seq<u8>, pos: int, ty: MetaType, depth: nat)
    requires
        0 <= pos <= file.len(),
        value::spec_value(file, pos, ty, depth) is Ok,
    ensures
        value::spec_value(file + more, pos, ty, depth) == value::spec_value(file, pos, ty, depth),
        0 <= value::spec_value(file, pos, ty, depth)->Ok_0.1 <= file.len(),
    decreases 4 - depth, 0nat,
{
    if ty != MetaType::Array {
        lemma_scalar_extends(file, more, pos, ty);
    } else {
        lemma_array_header_extends(file, more, pos);
        let (elem, n, p) = value::spec_array_header(file, pos)->Ok_0;
        lemma_values_extend(file, more, p, elem, n, depth + 1);
    }
}

proof fn lemma_values_extend(
    file: Seq<u8>,
    more: Seq<u8>,
    pos: int,
    ty: MetaType,
    n: nat,
    depth: nat,
)
    requires
        0 <= pos <= file.len(),
        value::spec_values(file, pos, ty, n, depth) is Ok,
    ensures
        value::spec_values(file + more, pos, ty, n, depth) == value::spec_values(
            file,
            pos,
            ty,
            n,
            depth,
        ),
        0 <= value::spec_values(file, pos, ty, n, depth)->Ok_0.1 <= file.len(),
    decreases 4 - depth, n,
{
    if n > 0 {
        lemma_values_extend(file, more, pos, ty, (n - 1) as nat, depth);
        let (items, p) = value::spec_values(file, pos, ty, (n - 1) as nat, depth)->Ok_0;
        lemma_value_extends(file, more, p, ty, depth);
    }
}

proof fn lemma_metadata_extends(file: Seq<u8>, more: Seq<u8>, pos: int, n: nat)
    requires
        0 <= pos <= file.len(),
        file::spec_metadata(file, pos, n) is Ok,
    ensures
        file::spec_metadata(file + more, pos, n) == file::spec_metadata(file, pos, n),
        0 <= file::spec_metadata(file, pos, n)->Ok_0.1 <= file.len(),
    decreases n,
{
    if n > 0 {
        lemma_metadata_extends(file, more, pos, (n - 1) as nat);
        let (m, p) = file::spec_metadata(file, pos, (n - 1) as nat)->Ok_0;
        lemma_str_extends(file, more, p);
        let (key, q) = reader::spec_str(file, p)->Ok_0;
        lemma_uint_extends(file, more, q, 4);
        let (tag, s) = reader::spec_uint(file, q, 4)->Ok_0;
        lemma_value_extends(file, more, s, MetaType::spec_from_tag(tag)->0, 0);
    }
}

proof fn lemma_u64s_extend(file: Seq<u8>, more: Seq<u8>, pos: int, n: nat)
    requires
        0 <= pos <= file.len(),
        file::spec_u64s(file, pos, n) is Ok,
    ensures
        file::spec_u64s(file + more, pos, n) == file::spec_u64s(file, pos, n),
        0 <= file::spec_u64s(file, pos, n)->Ok_0.1 <= file.len(),
        file::spec_u64s(file, pos, n)->Ok_0.0.len() == n,
    decreases n,
{
    if n > 0 {
        lemma_u64s_extend(file, more, pos, (n - 1) as nat);
        let (v, p) = file::spec_u64s(file, pos, (n - 1) as nat)->Ok_0;
        lemma_uint_extends(file, more, p, 8);
    }
}

proof fn lemma_tensor_info_extends(file: Seq<u8>, more: Seq<u8>, pos: int)
    requires
        0 <= pos <= file.len(),
        file::spec_tensor_info(file, pos) is Ok,
    ensures
        file::spec_tensor_info(file + more, pos) == file::spec_tensor_info(file, pos),
        0 <= file::spec_tensor_info(file, pos)->Ok_0.1 <= file.len(),
{
    lemma_str_extends(file, more, pos);
    let (name, p1) = reader::spec_str(file, pos)->Ok_0;
    lemma_uint_extends(file, more, p1, 4);
    let (n, p2) = reader::spec_uint(file, p1, 4)->Ok_0;
    lemma_u64s_extend(file, more, p2, n);
    let (v, p3) = file::spec_u64s(file, p2, n)->Ok_0;
    lemma_uint_extends(file, more, p3, 4);
    let (tag, p4) = reader::spec_uint(file, p3, 4)->Ok_0;
    lemma_uint_extends(file, more, p4, 8);
}

proof fn lemma_tensors_extend(file: Seq<u8>, more: Seq<u8>, pos: int, n: nat)
    requires
        0 <= pos <= file.len(),
        file::spec_tensors(file, pos, n) is Ok,
    ensures
        file::spec_tensors(file + more, pos, n) == file::spec_tensors(file, pos, n),
        0 <= file::spec_tensors(file, pos, n)->Ok_0.1 <= file.len(),
    decreases n,
{
    if n > 0 {
        lemma_tensors_extend(file, more, pos, (n - 1) as nat);
        let (v, p) = file::spec_tensors(file, pos, (n - 1) as nat)->Ok_0;
        lemma_tensor_info_extends(file, more, p);
    }
}

proof fn lemma_places_extend(tensors: Seq<TensorInfoView>, alignment: u64, short: int, long: int)
    requires
        short <= long,
        file::first_misplaced(tensors, alignment, short) is None,
    ensures
        file::first_misplaced(tensors, alignment, long) is None,
    decreases tensors.len(),
{
    if tensors.len() > 0 {
        lemma_places_extend(tensors.drop_first(), alignment, short, long);
    }
}

proof fn lemma_header_extends(file: Seq<u8>, more: Seq<u8>)
    requires
        file::spec_header(file) is Ok,
    ensures
        file::spec_header(file + more) == file::spec_header(file),
        0 <= file::spec_header(file)->Ok_0.3 <= file.len(),
{
    lemma_take_extends(file, more, 0, 4);
    lemma_uint_extends(file, more, 4, 4);
    lemma_len_extends(file, more, 8, "tensor"@, 1);
    lemma_len_extends(file, more, 16, "metadata kv"@, 1);
}

/// Bytes behind a whole file change nothing: it parses to the same contents.
pub proof fn law_trailing_bytes_are_ignored(file: Seq<u8>, more: Seq<u8>)
    requires
        file::spec_parse(file) is Ok,
    ensures
        file::spec_parse(file + more) == file::spec_parse(file),
{
    lemma_header_extends(file, more);
    let (version, n_tensors, n_entries, p) = file::spec_header(file)->Ok_0;
    lemma_metadata_extends(file, more, p, n_entries);
    let (metadata, q) = file::spec_metadata(file, p, n_entries)->Ok_0;
    let alignment = file::spec_alignment(metadata)->Ok_0;
    lemma_tensors_extend(file, more, q, n_tensors);
    let (tensors, s) = file::spec_tensors(file, q, n_tensors)->Ok_0;
    let start = file::next_multiple(s, alignment as int);
    lemma_places_extend(tensors, alignment, file.len() - start, (file + more).len() - start);
}

proof fn lemma_all_placed(tensors: Seq<TensorInfoView>, alignment: u64, section_len: int, i: int)
    requires
        file::first_misplaced(tensors, alignment, section_len) is None,
        0 <= i < tensors.len(),
    ensures
        tensors[i].offset % (alignment as nat) == 0,
        tensors[i].offset + tensors[i].byte_size <= section_len,
    decreases tensors.len(),
{
    if i > 0 {
        lemma_all_placed(tensors.drop_first(), alignment, section_len, i - 1);
        assert(tensors.drop_first()[i - 1] == tensors[i]);
    }
}

/// Every tensor of a parsed file lies inside the file, at a multiple of the
/// alignment from the start of the data section, which itself starts at one.
pub proof fn law_tensors_lie_inside_the_file(file: Seq<u8>, i: int)
    requires
        file::spec_parse(file) matches Ok(g) && 0 <= i < g.tensors.len(),
    ensures
        ({
            let g = file::spec_parse(file)->Ok_0;
            let t = g.tensors[i];
            &&& is_pow2(g.alignment as int)
            &&& g.tensor_data_offset % (g.alignment as int) == 0
            &&& t.offset % (g.alignment as nat) == 0
            &&& 0 <= g.tensor_data_offset
            &&& g.tensor_data_offset + t.offset + t.byte_size <= file.len()
        }),
{
    lemma_header_extends(file, Seq::empty());
    let (version, n_tensors, n_entries, p) = file::spec_header(file)->Ok_0;
    lemma_metadata_extends(file, Seq::empty(), p, n_entries);
    let (metadata, q) = file::spec_metadata(file, p, n_entries)->Ok_0;
    let alignment = file::spec_alignment(metadata)->Ok_0;
    lemma_tensors_extend(file, Seq::empty(), q, n_tensors);
    let (tensors, s) = file::spec_tensors(file, q, n_tensors)->Ok_0;
    let start = file::next_multiple(s, alignment as int);
    lemma_all_placed(tensors, alignment, file.len() - start, i);
    assert(alignment > 0) by {
        reveal(is_pow2);
    }
    let a = alignment as int;
    vstd::arithmetic::div_mod::lemma_mod_decreases(s as nat, a as nat);
    if s % a != 0 {
        vstd::arithmetic::div_mod::lemma_fundamental_div_mod(s, a);
        assert(start == a * (s / a + 1)) by (nonlinear_arith)
            requires
                s == a * (s / a) + s % a,
                start == s - s % a + a,
        ;
        vstd::arithmetic::div_mod::lemma_mod_multiples_basic(s / a + 1, a);
        assert(a * (s / a + 1) == (s / a + 1) * a) by (nonlinear_arith);
    }
}

/// Where a parsed file's last byte is the last byte of a tensor, or the last byte
/// before the data section, no strict prefix of it parses.
pub proof fn law_no_strict_prefix_parses(file: Seq<u8>, n: int)
    requires
        0 <= n < file.len(),
        file::spec_parse(file) matches Ok(g) && (g.tensor_data_offset == file.len() || exists|i: int|
            0 <= i < g.tensors.len() && g.tensor_data_offset + (#[trigger] g.tensors[i]).offset
                + g.tensors[i].byte_size == file.len()),
    ensures
        file::spec_parse(file.take(n)) is Err,
{
    let short = file.take(n);
    if file::spec_parse(short) is Ok {
        assert(short + file.skip(n) =~= file);
        law_trailing_bytes_are_ignored(short, file.skip(n));
        let g = file::spec_parse(file)->Ok_0;
        if g.tensor_data_offset != file.len() {
            let i = choose|i: int|
                0 <= i < g.tensors.len() && g.tensor_data_offset + (#[trigger] g.tensors[i]).offset
                    + g.tensors[i].byte_size == file.len();
            law_tensors_lie_inside_the_file(short, i);
        }
    }
}

proof fn lemma_tensors_are_sound(file: Seq<u8>, pos: int, n: nat, i: int)
    requires
        0 <= pos <= file.len(),
        file::spec_tensors(file, pos, n) is Ok,
        0 <= i < file::spec_tensors(file, pos, n)->Ok_0.0.len(),
    ensures
        file::spec_tensors(file, pos, n)->Ok_0.0[i].sound(),
    decreases n,
{
    if n > 0 {
        let (v, p) = file::spec_tensors(file, pos, (n - 1) as nat)->Ok_0;
        lemma_tensors_extend(file, Seq::empty(), pos, (n - 1) as nat);
        if i < v.len() {
            lemma_tensors_are_sound(file, pos, (n - 1) as nat, i);
        } else {
            lemma_tensor_info_extends(file, Seq::empty(), p);
            let (name, p1) = reader::spec_str(file, p)->Ok_0;
            lemma_str_extends(file, Seq::empty(), p);
            let (n_dims, p2) = reader::spec_uint(file, p1, 4)->Ok_0;
            lemma_uint_extends(file, Seq::empty(), p1, 4);
            lemma_u64s_extend(file, Seq::empty(), p2, n_dims);
        }
    }
}

/// Every tensor of a parsed file has a shape whose size can be counted and the size
/// on disk that follows from it, and lies inside the file.
pub proof fn law_parsed_files_are_sound(file: Seq<u8>)
    requires
        file::spec_parse(file) is Ok,
    ensures
        file::spec_parse(file)->Ok_0.sound(file.len() as int),
{
    lemma_header_extends(file, Seq::empty());
    let (version, n_tensors, n_entries, p) = file::spec_header(file)->Ok_0;
    lemma_metadata_extends(file, Seq::empty(), p, n_entries);
    let (metadata, q) = file::spec_metadata(file, p, n_entries)->Ok_0;
    lemma_tensors_extend(file, Seq::empty(), q, n_tensors);
    let (tensors, s) = file::spec_tensors(file, q, n_tensors)->Ok_0;
    let g = file::spec_parse(file)->Ok_0;
    let alignment = file::spec_alignment(metadata)->Ok_0;
    assert(alignment > 0) by {
        reveal(is_pow2);
    }
    vstd::arithmetic::div_mod::lemma_mod_decreases(s as nat, alignment as nat);
    assert forall|i: int| 0 <= i < g.tensors.len() implies (#[trigger] g.tensors[i]).sound()
        && g.tensor_data_offset + g.tensors[i].offset + g.tensors[i].byte_size <= file.len() by {
        lemma_tensors_are_sound(file, q, n_tensors, i);
        law_tensors_lie_inside_the_file(file, i);
    }
}

} // verus!
