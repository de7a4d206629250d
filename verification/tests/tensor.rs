//! Shapes, views and quantised matrices.
#![allow(dead_code)]
use nano_infer::bits::F32Bits;
use nano_infer::gguf::{GgmlType, Gguf};
use nano_infer::quant::{f16_to_f32, f32_to_f16, Scale, Weight};
use nano_infer::{QuantError, QuantMatrix, Shape, TensorView, TensorViewMut};

const U8: u32 = 0;
const I16: u32 = 3;
const U32: u32 = 4;
const I32: u32 = 5;
const F32: u32 = 6;
const BOOL: u32 = 7;
const STRING: u32 = 8;
const ARRAY: u32 = 9;
const U64: u32 = 10;
const F64: u32 = 12;

/// A minimal GGUF writer that shares nothing with the parser.
struct Builder {
    kv: Vec<u8>,
    kv_count: u64,
    ti: Vec<u8>,
    t_count: u64,
    data: Vec<u8>,
    alignment: u64,
    version: u32,
    magic: [u8; 4],
}

fn put_str(out: &mut Vec<u8>, s: &str) {
    out.extend_from_slice(&(s.len() as u64).to_le_bytes());
    out.extend_from_slice(s.as_bytes());
}

impl Builder {
    fn new() -> Self {
        Self {
            kv: Vec::new(),
            kv_count: 0,
            ti: Vec::new(),
            t_count: 0,
            data: Vec::new(),
            alignment: 32,
            version: 3,
            magic: *b"GGUF",
        }
    }

    fn version(mut self, v: u32) -> Self {
        self.version = v;
        self
    }

    fn magic(mut self, m: [u8; 4]) -> Self {
        self.magic = m;
        self
    }

    /// Sets the padding; the key is written separately.
    fn alignment(mut self, a: u64) -> Self {
        self.alignment = a;
        self
    }

    fn value(mut self, key: &str, tag: u32, bytes: &[u8]) -> Self {
        put_str(&mut self.kv, key);
        self.kv.extend_from_slice(&tag.to_le_bytes());
        self.kv.extend_from_slice(bytes);
        self.kv_count += 1;
        self
    }

    fn u8(self, key: &str, v: u8) -> Self {
        self.value(key, U8, &[v])
    }

    fn i16(self, key: &str, v: i16) -> Self {
        self.value(key, I16, &v.to_le_bytes())
    }

    fn u32(self, key: &str, v: u32) -> Self {
        self.value(key, U32, &v.to_le_bytes())
    }

    fn i32(self, key: &str, v: i32) -> Self {
        self.value(key, I32, &v.to_le_bytes())
    }

    fn u64(self, key: &str, v: u64) -> Self {
        self.value(key, U64, &v.to_le_bytes())
    }

    fn f32(self, key: &str, v: f32) -> Self {
        self.value(key, F32, &v.to_le_bytes())
    }

    fn f64(self, key: &str, v: f64) -> Self {
        self.value(key, F64, &v.to_le_bytes())
    }

    fn bool(self, key: &str, v: bool) -> Self {
        self.value(key, BOOL, &[v as u8])
    }

    fn string(self, key: &str, v: &str) -> Self {
        self.raw_string(key, v.as_bytes())
    }

    /// A string value of any bytes.
    fn raw_string(self, key: &str, bytes: &[u8]) -> Self {
        let mut b = (bytes.len() as u64).to_le_bytes().to_vec();
        b.extend_from_slice(bytes);
        self.value(key, STRING, &b)
    }

    /// An array that claims a length, with the bytes of its elements.
    fn array(self, key: &str, elem: u32, n: u64, items: &[u8]) -> Self {
        let mut b = elem.to_le_bytes().to_vec();
        b.extend_from_slice(&n.to_le_bytes());
        b.extend_from_slice(items);
        self.value(key, ARRAY, &b)
    }

    fn str_array(self, key: &str, vs: &[&str]) -> Self {
        let mut b = Vec::new();
        for s in vs {
            put_str(&mut b, s);
        }
        self.array(key, STRING, vs.len() as u64, &b)
    }

    fn f32_array(self, key: &str, vs: &[f32]) -> Self {
        let b: Vec<u8> = vs.iter().flat_map(|v| v.to_le_bytes()).collect();
        self.array(key, F32, vs.len() as u64, &b)
    }

    fn i32_array(self, key: &str, vs: &[i32]) -> Self {
        let b: Vec<u8> = vs.iter().flat_map(|v| v.to_le_bytes()).collect();
        self.array(key, I32, vs.len() as u64, &b)
    }

    /// A tensor with its data, padded so that its offset stays aligned.
    fn tensor(mut self, name: &str, dims: &[u64], ty: GgmlType, bytes: &[u8]) -> Self {
        while self.data.len() as u64 % self.alignment != 0 {
            self.data.push(0);
        }
        let offset = self.data.len() as u64;
        self.data.extend_from_slice(bytes);
        self.tensor_info_only(name, dims, ty, offset)
    }

    /// A tensor at any offset, without data.
    fn tensor_info_only(self, name: &str, dims: &[u64], ty: GgmlType, offset: u64) -> Self {
        self.raw_tensor_info(name, dims.len() as u32, dims, ty.to_tag(), offset)
    }

    fn raw_tensor_info(mut self, name: &str, n_dims: u32, dims: &[u64], tag: u32, offset: u64) -> Self {
        put_str(&mut self.ti, name);
        self.ti.extend_from_slice(&n_dims.to_le_bytes());
        for d in dims {
            self.ti.extend_from_slice(&d.to_le_bytes());
        }
        self.ti.extend_from_slice(&tag.to_le_bytes());
        self.ti.extend_from_slice(&offset.to_le_bytes());
        self.t_count += 1;
        self
    }

    fn build(self) -> Vec<u8> {
        let mut out = Vec::new();
        out.extend_from_slice(&self.magic);
        out.extend_from_slice(&self.version.to_le_bytes());
        out.extend_from_slice(&self.t_count.to_le_bytes());
        out.extend_from_slice(&self.kv_count.to_le_bytes());
        out.extend_from_slice(&self.kv);
        out.extend_from_slice(&self.ti);
        while out.len() as u64 % self.alignment != 0 {
            out.push(0);
        }
        out.extend_from_slice(&self.data);
        out
    }
}

fn number(w: &Weight) -> f32 {
    let of = |s: &Scale| f32::from_bits(f16_to_f32(s.d).0) * s.factor as f32;
    match w {
        Weight::Exact(b) => f32::from_bits(b.0),
        Weight::Scaled { scale, quant, min } => of(scale) * *quant as f32 - of(min),
    }
}

fn row(m: &QuantMatrix, r: u32, len: usize) -> Vec<f32> {
    match m.dequant_row(r, len) {
        Ok(v) => v.iter().map(number).collect(),
        Err(e) => panic!("{}", e.message()),
    }
}

#[test]
fn shape_strides_are_row_major() {
    let s = Shape::new(&[2, 3, 4]);
    assert_eq!(s.rank(), 3);
    assert_eq!(s.dims(), &[2, 3, 4]);
    assert_eq!(s.n_elements(), 24);
    assert_eq!(&s.strides()[..3], &[12, 4, 1]);
    assert_eq!(s.offset(&[0, 0, 0]), 0);
    assert_eq!(s.offset(&[1, 0, 0]), 12);
    assert_eq!(s.offset(&[0, 1, 0]), 4);
    assert_eq!(s.offset(&[1, 2, 3]), 12 + 8 + 3);
}

#[test]
fn shape_of_rank_one_is_contiguous() {
    let s = Shape::new(&[7]);
    assert_eq!(&s.strides()[..1], &[1]);
    assert_eq!(s.n_elements(), 7);
}

#[test]
fn tensor_view_rows() {
    let data: Vec<f32> = (0..12).map(|i| i as f32).collect();
    let v = TensorView::new(&data, Shape::new(&[3, 4]));
    assert_eq!(v.row(0).as_slice(), &[0.0, 1.0, 2.0, 3.0]);
    assert_eq!(v.row(2).as_slice(), &[8.0, 9.0, 10.0, 11.0]);
    assert_eq!(v.row(1).shape().dims(), &[4]);
}

#[test]
fn tensor_view_mut_writes_through() {
    let mut data = vec![0.0f32; 6];
    let mut v = TensorViewMut::new(&mut data, Shape::new(&[2, 3]));
    v.row_mut(1).copy_from_slice(&[7.0, 8.0, 9.0]);
    assert_eq!(v.as_slice(), &[0.0, 0.0, 0.0, 7.0, 8.0, 9.0]);
    assert_eq!(v.as_view().row(1).as_slice(), &[7.0, 8.0, 9.0]);
}

/// One Q8_0 block whose weights are `scale * (i - 64)`.
fn q8_block(scale: f32) -> [u8; 34] {
    let mut b = [0u8; 34];
    b[0..2].copy_from_slice(&f32_to_f16(F32Bits(scale.to_bits())).to_le_bytes());
    for i in 0..32 {
        b[2 + i] = (i as i32 - 64) as i8 as u8;
    }
    b
}

#[test]
fn quant_matrix_rows_and_geometry() {
    // 3 rows of 64 columns = 2 Q8_0 blocks per row.
    let mut data = Vec::new();
    for _ in 0..6 {
        data.extend_from_slice(&q8_block(0.5));
    }
    let m = QuantMatrix::new(GgmlType::Q8_0, &data, 3, 64).ok().unwrap();

    assert_eq!(m.rows(), 3);
    assert_eq!(m.cols(), 64);
    assert_eq!(m.ggml_type(), GgmlType::Q8_0);
    assert_eq!(m.bytes_per_row(), 68);
    assert_eq!(m.byte_len(), 204);
    assert_eq!(m.row_bytes(1).len(), 68);

    for (i, v) in row(&m, 2, 64).iter().enumerate() {
        assert_eq!(*v, 0.5 * ((i % 32) as f32 - 64.0), "element {i}");
    }
}

#[test]
fn quant_matrix_rejects_bad_geometry() {
    let data = vec![0u8; 34];
    // 40 columns is not a whole number of 32-element Q8_0 blocks.
    assert_eq!(
        QuantMatrix::new(GgmlType::Q8_0, &data, 1, 40).err().unwrap(),
        QuantError::NotBlockAligned { ty: GgmlType::Q8_0, len: 40, block: 32 }
    );
    // Right shape, wrong number of bytes.
    assert_eq!(
        QuantMatrix::new(GgmlType::Q8_0, &data, 2, 32).err().unwrap(),
        QuantError::BadSourceLength { ty: GgmlType::Q8_0, got: 34, want: 68 }
    );
    // A format whose blocks have a size but no reader.
    let data = vec![0u8; 176];
    assert_eq!(
        QuantMatrix::new(GgmlType::Q5_K, &data, 1, 256).err().unwrap(),
        QuantError::UnsupportedType(GgmlType::Q5_K)
    );
}

#[test]
fn quant_matrix_from_a_real_gguf_tensor_keeps_ggml_axis_order() {
    let mut data = Vec::new();
    for r in 0..3 {
        for _ in 0..2 {
            data.extend_from_slice(&q8_block(0.25 * (r + 1) as f32));
        }
    }
    let bytes = Builder::new()
        .tensor("w", &[64, 3], GgmlType::Q8_0, &data)
        .build();
    let g = Gguf::parse(&bytes).ok().unwrap();
    let info = g.find_tensor("w").unwrap();

    let m = QuantMatrix::from_tensor(info, g.tensor_data(info)).ok().unwrap();
    assert_eq!(m.cols(), 64, "dims[0] is the contiguous axis");
    assert_eq!(m.rows(), 3);

    // Each row has its own scale, so a transpose would be obvious.
    for r in 0..3 {
        let scale = 0.25 * (r + 1) as f32;
        assert_eq!(row(&m, r, 64)[0], scale * -64.0, "row {r}");
    }
}

#[test]
fn quant_errors_have_messages() {
    let (ty, block) = (GgmlType::Q8_0, 32);
    assert_eq!(
        QuantError::UnsupportedType(GgmlType::Q5_K).message(),
        "dequantisation for q5_K is not implemented"
    );
    assert_eq!(
        QuantError::BadSourceLength { ty, got: 34, want: 68 }.message(),
        "q8_0: source is 34 bytes, expected 68 for the requested element count"
    );
    assert_eq!(
        QuantError::NotBlockAligned { ty, len: 40, block }.message(),
        "q8_0: 40 elements is not a whole number of 32-element blocks"
    );
}

#[test]
fn dimensions_past_the_rank_are_one() {
    let s = Shape::new(&[2, 3]);
    assert_eq!(s.dim(0), 2);
    assert_eq!(s.dim(1), 3);
    assert_eq!(s.dim(2), 1);
    assert_eq!(s.dim(3), 1);
}

#[test]
fn the_whole_of_a_view_is_writable() {
    let mut data = vec![0u32; 4];
    let mut v = TensorViewMut::new(&mut data, Shape::new(&[2, 2]));
    v.as_mut_slice()[3] = 9;
    assert_eq!(v.as_slice(), &[0, 0, 0, 9]);
    assert_eq!(v.shape().dims(), &[2, 2]);
    assert_eq!(data, vec![0, 0, 0, 9]);
}

#[test]
fn only_block_formats_are_quantized() {
    assert!(!GgmlType::F32.is_quantized());
    assert!(!GgmlType::F16.is_quantized());
    assert!(!GgmlType::I32.is_quantized());
    assert!(GgmlType::Q8_0.is_quantized());
    assert!(GgmlType::Q6_K.is_quantized());
}
