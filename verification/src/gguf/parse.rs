//! Reading a container, and asking it for metadata and tensor data.
//!
//! Tensor data is never copied: [`Gguf::tensor_data`] hands back a subslice of
//! the caller's buffer.
use super::error::{GgufError, GgufErrorView};
use super::file;
use super::file::{GgufView, TensorInfo, TensorInfoView, DEFAULT_ALIGNMENT, GGML_MAX_DIMS};
use super::ggml_type::GgmlType;
use super::laws;
use super::reader::Reader;
use super::value::{Array, ArrayView, MetaType, Value, ValueView};
use crate::bits::F32Bits;
use crate::text;
use vstd::arithmetic::power2::is_pow2;
use vstd::prelude::*;

verus! {

/// No two types share a tag.
pub proof fn lemma_tag_injective(a: GgmlType, b: GgmlType)
    requires
        a.tag() == b.tag(),
    ensures
        a == b,
{
}

/// The contents of a list of metadata entries.
pub open spec fn entries_view(m: Seq<(&str, Value)>) -> Seq<(Seq<char>, ValueView)> {
    Seq::new(m.len(), |i: int| (m[i].0@, m[i].1@))
}

/// The contents of a tensor table.
pub open spec fn tensors_view(t: Seq<TensorInfo>) -> Seq<TensorInfoView> {
    Seq::new(t.len(), |i: int| t[i]@)
}

/// A parsed file, borrowing the buffer it was parsed from.
#[derive(Debug)]
pub struct Gguf<'a> {
    pub file: &'a [u8],
    pub version: u32,
    pub alignment: u64,
    /// Absolute byte offset in `file` where the tensor-data section begins.
    pub tensor_data_offset: usize,
    /// Metadata in file order.
    pub metadata: Vec<(&'a str, Value<'a>)>,
    pub tensors: Vec<TensorInfo<'a>>,
}

impl<'a> View for Gguf<'a> {
    type V = GgufView;

    open spec fn view(&self) -> GgufView {
        GgufView {
            version: self.version,
            alignment: self.alignment,
            tensor_data_offset: self.tensor_data_offset as int,
            metadata: entries_view(self.metadata@),
            tensors: tensors_view(self.tensors@),
        }
    }
}

proof fn lemma_u64s_error(file: Seq<u8>, pos: int, m: nat, n: nat)
    requires
        m <= n,
        file::spec_u64s(file, pos, m) is Err,
    ensures
        file::spec_u64s(file, pos, n) == file::spec_u64s(file, pos, m),
    decreases n,
{
    if m < n {
        lemma_u64s_error(file, pos, m, (n - 1) as nat);
    }
}

proof fn lemma_tensors_error(file: Seq<u8>, pos: int, m: nat, n: nat)
    requires
        m <= n,
        file::spec_tensors(file, pos, m) is Err,
    ensures
        file::spec_tensors(file, pos, n) == file::spec_tensors(file, pos, m),
    decreases n,
{
    if m < n {
        lemma_tensors_error(file, pos, m, (n - 1) as nat);
    }
}

proof fn lemma_metadata_error(file: Seq<u8>, pos: int, m: nat, n: nat)
    requires
        m <= n,
        file::spec_metadata(file, pos, m) is Err,
    ensures
        file::spec_metadata(file, pos, n) == file::spec_metadata(file, pos, m),
    decreases n,
{
    if m < n {
        lemma_metadata_error(file, pos, m, (n - 1) as nat);
    }
}

/// The axes of a tensor: `n` numbers, filled up with ones.
fn read_dims<'a>(r: &mut Reader<'a>, n: usize) -> (res: Result<[u64; 4], GgufError>)
    requires
        old(r).wf(),
        n <= GGML_MAX_DIMS,
    ensures
        final(r).wf(),
        final(r).buf@ == old(r).buf@,
        res is Err ==> final(r).pos == file::after_bad_u64s(old(r).buf@, old(r).pos as int),
        match res {
            Ok(d) => file::spec_u64s(old(r).buf@, old(r).pos as int, n as nat) matches Ok((v, p))
                && v.len() == n && d@ == file::pad_dims(v) && p == final(r).pos,
            Err(e) => file::spec_u64s(old(r).buf@, old(r).pos as int, n as nat) == Err::<
                (Seq<u64>, int),
                GgufErrorView,
            >(e@),
        },
{
    let ghost buf = r.buf@;
    let ghost start = r.pos as int;
    let mut dims: [u64; 4] = [1;4];
    let ghost mut v: Seq<u64> = Seq::empty();
    let mut i: usize = 0;
    while i < n
        invariant
            r.wf(),
            r.buf@ == buf,
            buf == old(r).buf@,
            start == old(r).pos,
            i <= n <= GGML_MAX_DIMS,
            v.len() == i,
            r.pos == start + 8 * i,
            dims@ == file::pad_dims(v),
            file::spec_u64s(buf, start, i as nat) == Ok::<(Seq<u64>, int), GgufErrorView>(
                (v, r.pos as int),
            ),
        decreases n - i,
    {
        match r.read_u64() {
            Ok(d) => {
                dims[i] = d;
                proof {
                    let w = v.push(d);
                    assert(dims@ =~= file::pad_dims(w));
                    v = w;
                }
            },
            Err(e) => {
                proof {
                    lemma_u64s_error(buf, start, (i + 1) as nat, n as nat);
                }
                return Err(e);
            },
        }
        i += 1;
    }
    Ok(dims)
}

/// How many elements a shape has, where that can be counted in a `u64`.
fn checked_elements(dims: &[u64; 4], n: usize) -> (r: Option<u64>)
    requires
        n <= GGML_MAX_DIMS,
    ensures
        match r {
            Some(e) => file::products_fit(dims@, 0, n as nat) && e == file::product(
                dims@,
                0,
                n as nat,
            ),
            None => !file::products_fit(dims@, 0, n as nat),
        },
{
    let mut e: u64 = 1;
    let mut i: usize = 0;
    while i < n
        invariant
            i <= n <= GGML_MAX_DIMS,
            e == file::product(dims@, 0, i as nat),
            file::products_fit(dims@, 0, i as nat),
        decreases n - i,
    {
        assert(file::product(dims@, 0, (i + 1) as nat) == e * dims@[i as int]);
        match e.checked_mul(dims[i]) {
            Some(p) => {
                assert forall|m: nat| m <= i + 1 implies #[trigger] file::product(dims@, 0, m)
                    <= u64::MAX by {
                    if m <= i {
                    } else {
                        assert(m == i + 1);
                    }
                }
                e = p;
            },
            None => {
                return None;
            },
        }
        i += 1;
    }
    Some(e)
}

/// One entry of the tensor table.
pub fn read_tensor_info<'a>(r: &mut Reader<'a>) -> (res: Result<TensorInfo<'a>, GgufError>)
    requires
        old(r).wf(),
    ensures
        final(r).wf(),
        final(r).buf@ == old(r).buf@,
        res is Err ==> final(r).pos == file::after_bad_tensor_info(
            old(r).buf@,
            old(r).pos as int,
        ),
        match res {
            Ok(t) => file::spec_tensor_info(old(r).buf@, old(r).pos as int) == Ok::<
                (TensorInfoView, int),
                GgufErrorView,
            >((t@, final(r).pos as int)),
            Err(e) => file::spec_tensor_info(old(r).buf@, old(r).pos as int) == Err::<
                (TensorInfoView, int),
                GgufErrorView,
            >(e@),
        },
{
    let name = match r.read_str() {
        Ok(s) => s,
        Err(e) => return Err(e),
    };
    let n_dims: u32 = match r.read_u32() {
        Ok(n) => n,
        Err(e) => return Err(e),
    };
    if n_dims as usize > GGML_MAX_DIMS {
        return Err(GgufError::TooManyDims { name: name.to_owned(), n_dims });
    }
    let dims = match read_dims(r, n_dims as usize) {
        Ok(d) => d,
        Err(e) => return Err(e),
    };
    let tag: u32 = match r.read_u32() {
        Ok(t) => t,
        Err(e) => return Err(e),
    };
    let ggml_type = match GgmlType::from_u32(tag) {
        Ok(t) => t,
        Err(e) => return Err(e),
    };
    proof {
        lemma_tag_injective(ggml_type, file::type_of_tag(tag));
    }
    let offset: u64 = match r.read_u64() {
        Ok(o) => o,
        Err(e) => return Err(e),
    };
    let n_elements: u64 = match checked_elements(&dims, n_dims as usize) {
        Some(n) => n,
        None => return Err(GgufError::SizeOverflow { name: name.to_owned() }),
    };
    let byte_size: u64 = match ggml_type.bytes_for(n_elements) {
        Some(n) => n,
        None => {
            if n_elements % ggml_type.block_elems() as u64 != 0 {
                return Err(
                    GgufError::NotBlockAligned {
                        name: name.to_owned(),
                        elements: n_elements,
                        block: ggml_type.block_elems(),
                    },
                );
            }
            return Err(GgufError::SizeOverflow { name: name.to_owned() });
        },
    };
    Ok(TensorInfo { name, dims, n_dims, ggml_type, offset, byte_size })
}

/// `n` entries of the tensor table.
fn read_tensors<'a>(r: &mut Reader<'a>, n: usize) -> (res: Result<Vec<TensorInfo<'a>>, GgufError>)
    requires
        old(r).wf(),
    ensures
        final(r).wf(),
        final(r).buf@ == old(r).buf@,
        match res {
            Ok(t) => file::spec_tensors(old(r).buf@, old(r).pos as int, n as nat) == Ok::<
                (Seq<TensorInfoView>, int),
                GgufErrorView,
            >((tensors_view(t@), final(r).pos as int)),
            Err(e) => file::spec_tensors(old(r).buf@, old(r).pos as int, n as nat) == Err::<
                (Seq<TensorInfoView>, int),
                GgufErrorView,
            >(e@),
        },
{
    let ghost buf = r.buf@;
    let ghost start = r.pos as int;
    let mut v: Vec<TensorInfo<'a>> = Vec::with_capacity(n);
    let mut i: usize = 0;
    assert(tensors_view(v@) =~= Seq::empty());
    while i < n
        invariant
            r.wf(),
            r.buf@ == buf,
            buf == old(r).buf@,
            start == old(r).pos,
            i <= n,
            file::spec_tensors(buf, start, i as nat) == Ok::<
                (Seq<TensorInfoView>, int),
                GgufErrorView,
            >((tensors_view(v@), r.pos as int)),
        decreases n - i,
    {
        let ghost before = tensors_view(v@);
        match read_tensor_info(r) {
            Ok(t) => {
                v.push(t);
                assert(tensors_view(v@) =~= before.push(t@));
            },
            Err(e) => {
                proof {
                    lemma_tensors_error(buf, start, (i + 1) as nat, n as nat);
                }
                return Err(e);
            },
        }
        i += 1;
    }
    Ok(v)
}

/// One key with its value.
fn read_entry<'a>(r: &mut Reader<'a>) -> (res: Result<(&'a str, Value<'a>), GgufError>)
    requires
        old(r).wf(),
    ensures
        final(r).wf(),
        final(r).buf@ == old(r).buf@,
        match res {
            Ok(kv) => file::spec_entry(old(r).buf@, old(r).pos as int) == Ok::<
                ((Seq<char>, ValueView), int),
                GgufErrorView,
            >(((kv.0@, kv.1@), final(r).pos as int)),
            Err(e) => file::spec_entry(old(r).buf@, old(r).pos as int) == Err::<
                ((Seq<char>, ValueView), int),
                GgufErrorView,
            >(e@),
        },
{
    let key = match r.read_str() {
        Ok(s) => s,
        Err(e) => return Err(e),
    };
    let tag: u32 = match r.read_u32() {
        Ok(t) => t,
        Err(e) => return Err(e),
    };
    let ty = match MetaType::from_u32(tag) {
        Ok(t) => t,
        Err(e) => return Err(e),
    };
    match Value::read(r, ty, 0) {
        Ok(v) => Ok((key, v)),
        Err(e) => Err(e),
    }
}

/// `n` keys with their values.
fn read_metadata<'a>(r: &mut Reader<'a>, n: usize) -> (res: Result<
    Vec<(&'a str, Value<'a>)>,
    GgufError,
>)
    requires
        old(r).wf(),
    ensures
        final(r).wf(),
        final(r).buf@ == old(r).buf@,
        match res {
            Ok(m) => file::spec_metadata(old(r).buf@, old(r).pos as int, n as nat) == Ok::<
                (Seq<(Seq<char>, ValueView)>, int),
                GgufErrorView,
            >((entries_view(m@), final(r).pos as int)),
            Err(e) => file::spec_metadata(old(r).buf@, old(r).pos as int, n as nat) == Err::<
                (Seq<(Seq<char>, ValueView)>, int),
                GgufErrorView,
            >(e@),
        },
{
    let ghost buf = r.buf@;
    let ghost start = r.pos as int;
    let mut v: Vec<(&'a str, Value<'a>)> = Vec::with_capacity(n);
    let mut i: usize = 0;
    assert(entries_view(v@) =~= Seq::empty());
    while i < n
        invariant
            r.wf(),
            r.buf@ == buf,
            buf == old(r).buf@,
            start == old(r).pos,
            i <= n,
            file::spec_metadata(buf, start, i as nat) == Ok::<
                (Seq<(Seq<char>, ValueView)>, int),
                GgufErrorView,
            >((entries_view(v@), r.pos as int)),
        decreases n - i,
    {
        let ghost before = entries_view(v@);
        match read_entry(r) {
            Ok(kv) => {
                let ghost kvv = (kv.0@, kv.1@);
                v.push(kv);
                assert(entries_view(v@) =~= before.push(kvv));
            },
            Err(e) => {
                proof {
                    lemma_metadata_error(buf, start, (i + 1) as nat, n as nat);
                }
                return Err(e);
            },
        }
        i += 1;
    }
    Ok(v)
}

/// The value of the first entry with a given key.
fn find_value<'b, 'a>(metadata: &'b Vec<(&'a str, Value<'a>)>, key: &str) -> (r: Option<
    &'b Value<'a>,
>)
    ensures
        match r {
            Some(v) => file::lookup(entries_view(metadata@), key@) == Some(v@),
            None => file::lookup(entries_view(metadata@), key@) is None,
        },
{
    let ghost all = entries_view(metadata@);
    let mut i: usize = 0;
    assert(all.skip(0) =~= all);
    while i < metadata.len()
        invariant
            i <= metadata@.len(),
            all == entries_view(metadata@),
            file::lookup(all, key@) == file::lookup(all.skip(i as int), key@),
        decreases metadata.len() - i,
    {
        assert(all.skip(i as int)[0] == all[i as int]);
        assert(all.skip(i as int).drop_first() =~= all.skip(i + 1));
        if text::str_eq(metadata[i].0, key) {
            return Some(&metadata[i].1);
        }
        i += 1;
    }
    None
}

/// Whether a number is a power of two.
fn power_of_two(a: u64) -> (r: bool)
    ensures
        r == is_pow2(a as int),
{
    let mut x: u64 = a;
    while x > 1 && x % 2 == 0
        invariant
            is_pow2(a as int) == is_pow2(x as int),
        decreases x,
    {
        proof {
            reveal_with_fuel(is_pow2, 2);
        }
        x = x / 2;
    }
    proof {
        reveal_with_fuel(is_pow2, 2);
    }
    x == 1
}

/// The alignment that the metadata asks for.
fn resolve_alignment<'a>(metadata: &Vec<(&'a str, Value<'a>)>) -> (r: Result<u64, GgufError>)
    ensures
        match r {
            Ok(a) => file::spec_alignment(entries_view(metadata@)) == Ok::<u64, GgufErrorView>(a),
            Err(e) => file::spec_alignment(entries_view(metadata@)) == Err::<u64, GgufErrorView>(
                e@,
            ),
        },
{
    let alignment: u64 = match find_value(metadata, "general.alignment") {
        Some(v) => match v.as_u64() {
            Some(a) => a,
            None => return Err(
                GgufError::WrongType {
                    key: "general.alignment".to_owned(),
                    wanted: "integer",
                    found: v.kind_name(),
                },
            ),
        },
        None => DEFAULT_ALIGNMENT,
    };
    if !power_of_two(alignment) {
        return Err(GgufError::BadAlignment(alignment));
    }
    Ok(alignment)
}

/// What is wrong with the first misplaced tensor, if any is.
fn check_places<'a>(tensors: &Vec<TensorInfo<'a>>, alignment: u64, section_len: u64) -> (r: Result<
    (),
    GgufError,
>)
    requires
        alignment > 0,
    ensures
        match r {
            Ok(()) => file::first_misplaced(tensors_view(tensors@), alignment, section_len as int)
                is None,
            Err(e) => file::first_misplaced(tensors_view(tensors@), alignment, section_len as int)
                == Some(e@),
        },
{
    let ghost all = tensors_view(tensors@);
    let mut i: usize = 0;
    assert(all.skip(0) =~= all);
    while i < tensors.len()
        invariant
            i <= tensors@.len(),
            alignment > 0,
            all == tensors_view(tensors@),
            file::first_misplaced(all, alignment, section_len as int) == file::first_misplaced(
                all.skip(i as int),
                alignment,
                section_len as int,
            ),
        decreases tensors.len() - i,
    {
        assert(all.skip(i as int)[0] == all[i as int]);
        assert(all.skip(i as int).drop_first() =~= all.skip(i + 1));
        let t = &tensors[i];
        if t.offset % alignment != 0 {
            return Err(
                GgufError::MisalignedTensor { name: t.name.to_owned(), offset: t.offset, alignment },
            );
        }
        match t.offset.checked_add(t.byte_size) {
            None => return Err(GgufError::SizeOverflow { name: t.name.to_owned() }),
            Some(end) => {
                if end > section_len {
                    return Err(
                        GgufError::TensorOutOfBounds {
                            name: t.name.to_owned(),
                            offset: t.offset,
                            size: t.byte_size,
                            section_len,
                        },
                    );
                }
            },
        }
        i += 1;
    }
    Ok(())
}

/// Where the tensor data starts, with every tensor inside it.
fn place<'a>(file: &'a [u8], pos: usize, alignment: u64, tensors: &Vec<TensorInfo<'a>>) -> (r: Result<
    usize,
    GgufError,
>)
    requires
        pos <= file@.len(),
        alignment > 0,
    ensures
        match r {
            Ok(start) => file::spec_place(file@, pos as int, alignment, tensors_view(tensors@))
                == Ok::<int, GgufErrorView>(start as int),
            Err(e) => file::spec_place(file@, pos as int, alignment, tensors_view(tensors@))
                == Err::<int, GgufErrorView>(e@),
        },
{
    let rem: u64 = pos as u64 % alignment;
    proof {
        vstd::arithmetic::div_mod::lemma_mod_decreases(pos as nat, alignment as nat);
    }
    let start: u128 = if rem == 0 {
        pos as u128
    } else {
        pos as u128 - rem as u128 + alignment as u128
    };
    assert(start == file::next_multiple(pos as int, alignment as int));
    let len: usize = file.len();
    if start > len as u128 {
        return Err(
            GgufError::UnexpectedEof {
                at: pos,
                needed: (start - pos as u128) as usize,
                remaining: len - pos,
            },
        );
    }
    let start: usize = start as usize;
    match check_places(tensors, alignment, (len - start) as u64) {
        Ok(()) => Ok(start),
        Err(e) => Err(e),
    }
}

/// Magic and version, and the two counts.
fn read_header<'a>(r: &mut Reader<'a>) -> (res: Result<(u32, usize, usize), GgufError>)
    requires
        old(r).wf(),
        old(r).pos == 0,
    ensures
        final(r).wf(),
        final(r).buf@ == old(r).buf@,
        match res {
            Ok((v, t, m)) => file::spec_header(old(r).buf@) == Ok::<
                (u32, nat, nat, int),
                GgufErrorView,
            >((v, t as nat, m as nat, final(r).pos as int)),
            Err(e) => file::spec_header(old(r).buf@) == Err::<(u32, nat, nat, int), GgufErrorView>(
                e@,
            ),
        },
{
    let magic = match r.take(4) {
        Ok(m) => m,
        Err(e) => return Err(e),
    };
    // "GGUF"
    let is_gguf = magic[0] == 71 && magic[1] == 71 && magic[2] == 85 && magic[3] == 70;
    assert(is_gguf == (magic@ =~= seq![71u8, 71u8, 85u8, 70u8]));
    if !is_gguf {
        let m: [u8; 4] = [magic[0], magic[1], magic[2], magic[3]];
        assert(m@ =~= magic@);
        return Err(GgufError::BadMagic(m));
    }
    // Versions 2 and 3 are byte-identical for little-endian files.
    let version: u32 = match r.read_u32() {
        Ok(v) => v,
        Err(e) => return Err(e),
    };
    if version < 2 || version > 3 {
        return Err(GgufError::UnsupportedVersion(version));
    }
    let tensor_count: usize = match r.read_len("tensor") {
        Ok(n) => n,
        Err(e) => return Err(e),
    };
    let kv_count: usize = match r.read_len("metadata kv") {
        Ok(n) => n,
        Err(e) => return Err(e),
    };
    Ok((version, tensor_count, kv_count))
}

impl<'a> Gguf<'a> {
    /// Every tensor is sound and lies inside the file, as in every parsed file.
    pub open spec fn sound(&self) -> bool {
        self@.sound(self.file@.len() as int)
    }

    /// Parse the header, metadata and tensor table.  Tensor *data* is only
    /// bounds-checked, never touched.
    pub fn parse(file: &'a [u8]) -> (r: Result<Self, GgufError>)
        ensures
            match r {
                Ok(g) => g.file@ == file@ && g.sound() && file::spec_parse(file@) == Ok::<
                    GgufView,
                    GgufErrorView,
                >(g@),
                Err(e) => file::spec_parse(file@) == Err::<GgufView, GgufErrorView>(e@),
            },
    {
        let mut r = Reader::new(file);
        let (version, tensor_count, kv_count) = match read_header(&mut r) {
            Ok(h) => h,
            Err(e) => return Err(e),
        };
        let metadata = match read_metadata(&mut r, kv_count) {
            Ok(m) => m,
            Err(e) => return Err(e),
        };
        // The padding before the data section depends on the metadata.
        let alignment: u64 = match resolve_alignment(&metadata) {
            Ok(a) => a,
            Err(e) => return Err(e),
        };
        let tensors = match read_tensors(&mut r, tensor_count) {
            Ok(t) => t,
            Err(e) => return Err(e),
        };
        proof {
            reveal(is_pow2);
        }
        let tensor_data_offset: usize = match place(file, r.pos(), alignment, &tensors) {
            Ok(p) => p,
            Err(e) => return Err(e),
        };
        proof {
            laws::law_parsed_files_are_sound(file@);
        }
        Ok(Gguf { file, version, alignment, tensor_data_offset, metadata, tensors })
    }

    /// The raw bytes of a tensor, borrowed from the input buffer.
    pub fn tensor_data(&self, info: &TensorInfo<'a>) -> (r: &'a [u8])
        requires
            self.tensor_data_offset + info.offset + info.byte_size <= self.file@.len(),
        ensures
            r@ == self.file@.subrange(
                self.tensor_data_offset + info.offset,
                self.tensor_data_offset + info.offset + info.byte_size,
            ),
    {
        let len: usize = self.file.len();
        let start: usize = self.tensor_data_offset + info.offset as usize;
        vstd::slice::slice_subrange(self.file, start, start + info.byte_size as usize)
    }

    /// The first tensor with a given name.
    pub fn find_tensor(&self, name: &str) -> (r: Option<&TensorInfo<'a>>)
        ensures
            match r {
                Some(t) => self@.find_tensor(name@) == Some(t@) && self.tensors@.contains(*t),
                None => self@.find_tensor(name@) is None,
            },
    {
        let mut i: usize = 0;
        assert(self@.tensors.skip(0) =~= self@.tensors);
        while i < self.tensors.len()
            invariant
                i <= self.tensors@.len(),
                self@.find_tensor(name@) == file::first_named(
                    self@.tensors.skip(i as int),
                    name@,
                ),
            decreases self.tensors.len() - i,
        {
            assert(self@.tensors.skip(i as int)[0] == self.tensors@[i as int]@);
            if text::str_eq(self.tensors[i].name, name) {
                return Some(&self.tensors[i]);
            }
            assert(self@.tensors.skip(i as int).drop_first() =~= self@.tensors.skip(i + 1));
            i += 1;
        }
        None
    }

    /// Total bytes of tensor data described by the table.
    pub fn tensor_bytes(&self) -> (r: u64)
        requires
            total_bytes(self@.tensors, self@.tensors.len()) <= u64::MAX,
        ensures
            r == total_bytes(self@.tensors, self@.tensors.len()),
    {
        let mut sum: u64 = 0;
        let mut i: usize = 0;
        while i < self.tensors.len()
            invariant
                i <= self.tensors@.len(),
                sum == total_bytes(self@.tensors, i as nat),
                total_bytes(self@.tensors, self@.tensors.len()) <= u64::MAX,
            decreases self.tensors.len() - i,
        {
            proof {
                lemma_total_grows(self@.tensors, (i + 1) as nat, self@.tensors.len());
            }
            sum = sum + self.tensors[i].byte_size;
            i += 1;
        }
        sum
    }

    /// The value of the first entry with a given key.
    pub fn get(&self, key: &str) -> (r: Option<&Value<'a>>)
        ensures
            match r {
                Some(v) => self@.get(key@) == Some(v@),
                None => self@.get(key@) is None,
            },
    {
        find_value(&self.metadata, key)
    }

    pub fn get_u64(&self, key: &str) -> (r: Option<u64>)
        ensures
            r == self@.get_u64(key@),
    {
        match self.get(key) {
            Some(v) => v.as_u64(),
            None => None,
        }
    }

    pub fn get_usize(&self, key: &str) -> (r: Option<usize>)
        ensures
            r == self@.get_usize(key@),
    {
        match self.get_u64(key) {
            Some(v) => if v <= usize::MAX as u64 {
                Some(v as usize)
            } else {
                None
            },
            None => None,
        }
    }

    pub fn get_u32(&self, key: &str) -> (r: Option<u32>)
        ensures
            r == self@.get_u32(key@),
    {
        match self.get_u64(key) {
            Some(v) => if v <= u32::MAX as u64 {
                Some(v as u32)
            } else {
                None
            },
            None => None,
        }
    }

    pub fn get_f32(&self, key: &str) -> (r: Option<F32Bits>)
        ensures
            self@.reads_f32(key@, r),
    {
        match self.get(key) {
            Some(v) => v.as_f32(),
            None => None,
        }
    }

    pub fn get_bool(&self, key: &str) -> (r: Option<bool>)
        ensures
            r == self@.get_bool(key@),
    {
        match self.get(key) {
            Some(v) => v.as_bool(),
            None => None,
        }
    }

    pub fn get_str(&self, key: &str) -> (r: Option<&'a str>)
        ensures
            match r {
                Some(s) => self@.get_str(key@) == Some(s@),
                None => self@.get_str(key@) is None,
            },
    {
        match self.get(key) {
            Some(v) => v.as_str(),
            None => None,
        }
    }

    pub fn get_array(&self, key: &str) -> (r: Option<&Array<'a>>)
        ensures
            match r {
                Some(a) => self@.get_array(key@) == Some(a@),
                None => self@.get_array(key@) is None,
            },
    {
        match self.get(key) {
            Some(v) => v.as_array(),
            None => None,
        }
    }

    /// As [`Self::get`], but an absent key is an error rather than `None`.
    pub fn require(&self, key: &str) -> (r: Result<&Value<'a>, GgufError>)
        ensures
            match r {
                Ok(v) => self@.require(key@) == Ok::<ValueView, GgufErrorView>(v@),
                Err(e) => self@.require(key@) == Err::<ValueView, GgufErrorView>(e@),
            },
    {
        match self.get(key) {
            Some(v) => Ok(v),
            None => Err(GgufError::MissingKey(key.to_owned())),
        }
    }

    pub fn require_u64(&self, key: &str) -> (r: Result<u64, GgufError>)
        ensures
            match r {
                Ok(v) => self@.require_u64(key@) == Ok::<u64, GgufErrorView>(v),
                Err(e) => self@.require_u64(key@) == Err::<u64, GgufErrorView>(e@),
            },
    {
        match self.require(key) {
            Err(e) => Err(e),
            Ok(v) => match v.as_u64() {
                Some(n) => Ok(n),
                None => Err(
                    GgufError::WrongType {
                        key: key.to_owned(),
                        wanted: "integer",
                        found: v.kind_name(),
                    },
                ),
            },
        }
    }

    pub fn require_usize(&self, key: &str) -> (r: Result<usize, GgufError>)
        ensures
            match r {
                Ok(v) => self@.require_usize(key@) == Ok::<usize, GgufErrorView>(v),
                Err(e) => self@.require_usize(key@) == Err::<usize, GgufErrorView>(e@),
            },
    {
        match self.require_u64(key) {
            Err(e) => Err(e),
            Ok(v) => if v <= usize::MAX as u64 {
                Ok(v as usize)
            } else {
                Err(
                    GgufError::WrongType {
                        key: key.to_owned(),
                        wanted: "integer fitting in usize",
                        found: "u64",
                    },
                )
            },
        }
    }

    pub fn require_f32(&self, key: &str) -> (r: Result<F32Bits, GgufError>)
        ensures
            match self@.require(key@) {
                Err(e) => r is Err && r->Err_0@ == e,
                Ok(v) => match r {
                    Ok(b) => v.reads_as_f32(Some(b)),
                    Err(e) => v.reads_as_f32(None) && e@ == (GgufErrorView::WrongType {
                        key: key@,
                        wanted: "float"@,
                        found: v.kind_name(),
                    }),
                },
            },
    {
        match self.require(key) {
            Err(e) => Err(e),
            Ok(v) => match v.as_f32() {
                Some(b) => Ok(b),
                None => Err(
                    GgufError::WrongType {
                        key: key.to_owned(),
                        wanted: "float",
                        found: v.kind_name(),
                    },
                ),
            },
        }
    }

    pub fn require_str(&self, key: &str) -> (r: Result<&'a str, GgufError>)
        ensures
            match r {
                Ok(s) => self@.require_str(key@) == Ok::<Seq<char>, GgufErrorView>(s@),
                Err(e) => self@.require_str(key@) == Err::<Seq<char>, GgufErrorView>(e@),
            },
    {
        match self.require(key) {
            Err(e) => Err(e),
            Ok(v) => match v.as_str() {
                Some(s) => Ok(s),
                None => Err(
                    GgufError::WrongType {
                        key: key.to_owned(),
                        wanted: "string",
                        found: v.kind_name(),
                    },
                ),
            },
        }
    }
}

/// The sizes of the first `n` tensors together.
pub open spec fn total_bytes(tensors: Seq<TensorInfoView>, n: nat) -> nat
    decreases n,
{
    if n == 0 {
        0
    } else {
        total_bytes(tensors, (n - 1) as nat) + tensors[n - 1].byte_size
    }
}

proof fn lemma_total_grows(tensors: Seq<TensorInfoView>, m: nat, n: nat)
    requires
        m <= n,
    ensures
        total_bytes(tensors, m) <= total_bytes(tensors, n),
    decreases n,
{
    if m < n {
        lemma_total_grows(tensors, m, (n - 1) as nat);
    }
}

impl GgufView {
    /// The value of the first entry with a given key.
    pub open spec fn get(self, key: Seq<char>) -> Option<ValueView> {
        file::lookup(self.metadata, key)
    }

    pub open spec fn get_u64(self, key: Seq<char>) -> Option<u64> {
        match self.get(key) {
            Some(v) => v.as_u64(),
            None => None,
        }
    }

    pub open spec fn get_usize(self, key: Seq<char>) -> Option<usize> {
        match self.get_u64(key) {
            Some(v) => if v <= usize::MAX {
                Some(v as usize)
            } else {
                None
            },
            None => None,
        }
    }

    pub open spec fn get_u32(self, key: Seq<char>) -> Option<u32> {
        match self.get_u64(key) {
            Some(v) => if v <= u32::MAX {
                Some(v as u32)
            } else {
                None
            },
            None => None,
        }
    }

    /// `r` is the entry's value in single precision, or `None` where there is no
    /// entry or no number in it.
    pub open spec fn reads_f32(self, key: Seq<char>, r: Option<F32Bits>) -> bool {
        match self.get(key) {
            Some(v) => v.reads_as_f32(r),
            None => r is None,
        }
    }

    pub open spec fn get_bool(self, key: Seq<char>) -> Option<bool> {
        match self.get(key) {
            Some(v) => v.as_bool(),
            None => None,
        }
    }

    pub open spec fn get_str(self, key: Seq<char>) -> Option<Seq<char>> {
        match self.get(key) {
            Some(v) => v.as_str(),
            None => None,
        }
    }

    pub open spec fn get_array(self, key: Seq<char>) -> Option<ArrayView> {
        match self.get(key) {
            Some(v) => v.as_array(),
            None => None,
        }
    }

    pub open spec fn require(self, key: Seq<char>) -> Result<ValueView, GgufErrorView> {
        match self.get(key) {
            Some(v) => Ok(v),
            None => Err(GgufErrorView::MissingKey(key)),
        }
    }

    pub open spec fn require_u64(self, key: Seq<char>) -> Result<u64, GgufErrorView> {
        match self.require(key) {
            Err(e) => Err(e),
            Ok(v) => match v.as_u64() {
                Some(n) => Ok(n),
                None => Err(
                    GgufErrorView::WrongType { key, wanted: "integer"@, found: v.kind_name() },
                ),
            },
        }
    }

    pub open spec fn require_usize(self, key: Seq<char>) -> Result<usize, GgufErrorView> {
        match self.require_u64(key) {
            Err(e) => Err(e),
            Ok(v) => if v <= usize::MAX {
                Ok(v as usize)
            } else {
                Err(
                    GgufErrorView::WrongType {
                        key,
                        wanted: "integer fitting in usize"@,
                        found: "u64"@,
                    },
                )
            },
        }
    }

    pub open spec fn require_str(self, key: Seq<char>) -> Result<Seq<char>, GgufErrorView> {
        match self.require(key) {
            Err(e) => Err(e),
            Ok(v) => match v.as_str() {
                Some(s) => Ok(s),
                None => Err(
                    GgufErrorView::WrongType { key, wanted: "string"@, found: v.kind_name() },
                ),
            },
        }
    }
}

} // verus!
