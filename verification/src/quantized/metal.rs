//! Quantized storage on a Metal device, and what is launched to compute with it.

use crate::arith::{ceil_div, min_int, product, span};
use crate::dtype::DType;
use crate::error::{first_of, Error, Refusal, Result};
use crate::kernels::launch::{Device, Launch};
use crate::kernels::quantized as kernels;
use crate::quantized::GgmlDType;
use crate::quantized::float::{bf16_to_f32_bits, bf16_widened, half_to_single_bits, half_widened};
use crate::shape::{copy_dims, count, dense_stride, Layout, Shape, D};
use crate::text::{decimal_text, list, list_text, push_decimal};
use std::sync::Arc;
use vstd::prelude::*;
use vstd::string::*;

verus! {

/// A device.
#[derive(Debug, Clone, Copy, PartialEq, Eq, Structural)]
pub struct MetalDevice {
    /// Which one of the machine's devices it is.
    pub id: usize,
    /// What launches need to know of it.
    pub device: Device,
}

/// An allocation on a device.
#[derive(Debug)]
pub struct Buffer {
    pub bytes: Vec<u8>,
}

/// Plain elements on a device.
#[derive(Debug)]
pub struct MetalStorage {
    pub buffer: Arc<Buffer>,
    pub device: MetalDevice,
    /// The number of elements.
    pub count: usize,
    pub dtype: DType,
}

/// A part in a launch that a buffer plays.
#[derive(Debug, Clone, Copy, PartialEq, Eq, Structural)]
pub enum Operand {
    /// The quantized weights.
    Weights,
    /// The activations.
    Input,
    /// The indices.
    Ids,
    /// What is computed.
    Dst,
}

/// What is launched, in order, to fill a fresh buffer of 32-bit floats.
#[derive(Debug)]
pub struct Plan {
    pub launches: Vec<Launch<'static, Operand>>,
    /// The device that runs the launches and holds the buffer.
    pub device: MetalDevice,
    /// The number of floats in the buffer.
    pub dst_elems: usize,
}

/// The kernels' name for a format.
pub open spec fn kernel_dtype(value: GgmlDType) -> kernels::GgmlDType {
    match value {
        GgmlDType::Q4_0 => kernels::GgmlDType::Q4_0,
        GgmlDType::Q4_1 => kernels::GgmlDType::Q4_1,
        GgmlDType::Q5_0 => kernels::GgmlDType::Q5_0,
        GgmlDType::Q5_1 => kernels::GgmlDType::Q5_1,
        GgmlDType::Q8_0 => kernels::GgmlDType::Q8_0,
        GgmlDType::Q8_1 => kernels::GgmlDType::Q8_1,
        GgmlDType::Q2K => kernels::GgmlDType::Q2K,
        GgmlDType::Q3K => kernels::GgmlDType::Q3K,
        GgmlDType::Q4K => kernels::GgmlDType::Q4K,
        GgmlDType::Q5K => kernels::GgmlDType::Q5K,
        GgmlDType::Q6K => kernels::GgmlDType::Q6K,
        GgmlDType::Q8K => kernels::GgmlDType::Q8K,
        GgmlDType::F16 => kernels::GgmlDType::F16,
        GgmlDType::F32 => kernels::GgmlDType::F32,
        GgmlDType::BF16 => kernels::GgmlDType::BF16,
    }
}

impl From<GgmlDType> for kernels::GgmlDType {
    fn from(value: GgmlDType) -> (r: Self) {
        match value {
            GgmlDType::Q4_0 => kernels::GgmlDType::Q4_0,
            GgmlDType::Q4_1 => kernels::GgmlDType::Q4_1,
            GgmlDType::Q5_0 => kernels::GgmlDType::Q5_0,
            GgmlDType::Q5_1 => kernels::GgmlDType::Q5_1,
            GgmlDType::Q8_0 => kernels::GgmlDType::Q8_0,
            GgmlDType::Q8_1 => kernels::GgmlDType::Q8_1,
            GgmlDType::Q2K => kernels::GgmlDType::Q2K,
            GgmlDType::Q3K => kernels::GgmlDType::Q3K,
            GgmlDType::Q4K => kernels::GgmlDType::Q4K,
            GgmlDType::Q5K => kernels::GgmlDType::Q5K,
            GgmlDType::Q6K => kernels::GgmlDType::Q6K,
            GgmlDType::Q8K => kernels::GgmlDType::Q8K,
            GgmlDType::F16 => kernels::GgmlDType::F16,
            GgmlDType::F32 => kernels::GgmlDType::F32,
            GgmlDType::BF16 => kernels::GgmlDType::BF16,
        }
    }
}

impl vstd::std_specs::convert::FromSpecImpl<GgmlDType> for kernels::GgmlDType {
    open spec fn obeys_from_spec() -> bool {
        true
    }

    open spec fn from_spec(value: GgmlDType) -> kernels::GgmlDType {
        kernel_dtype(value)
    }
}

/// Quantized elements on a device: a range of bytes in an allocation, which several of these can
/// share.
///
/// That is how the experts of a stacked weight are had both as one stack and as one matrix each,
/// without storing them twice.
#[derive(Debug)]
pub struct QMetalStorage {
    dtype: GgmlDType,
    device: MetalDevice,
    buffer: Arc<Buffer>,
    offset: usize,
    size: usize,
    borrowed: bool,
}

/// What quantized storage amounts to.
pub ghost struct QView {
    pub dtype: GgmlDType,
    pub device: MetalDevice,
    /// The whole allocation.
    pub buffer: Seq<u8>,
    /// Where the elements start in it, in bytes.
    pub offset: usize,
    /// How many bytes they take.
    pub size: usize,
    /// The allocation belongs to the storage that this is a range of.
    pub borrowed: bool,
}

impl QView {
    /// The elements lie within the allocation, and start where it does if it is their own.
    pub open spec fn wf(self) -> bool {
        &&& self.offset + self.size <= self.buffer.len() <= usize::MAX
        &&& !self.borrowed ==> self.offset == 0
    }

    /// The bytes of the elements.
    pub open spec fn data(self) -> Seq<u8> {
        self.buffer.subrange(self.offset as int, self.offset + self.size)
    }
}

impl QMetalStorage {
    /// What the storage amounts to.
    pub closed spec fn model(&self) -> QView {
        QView {
            dtype: self.dtype,
            device: self.device,
            buffer: self.buffer.bytes@,
            offset: self.offset,
            size: self.size,
            borrowed: self.borrowed,
        }
    }
}

/// A range of storage can be storage of its own: it starts where every device can bind a buffer,
/// it starts and ends between blocks, and it lies within the storage.
pub open spec fn viewable(s: QView, offset: usize, size: usize) -> bool {
    &&& offset % 256 == 0
    &&& offset as int % s.dtype.block_bytes() as int == 0
    &&& size as int % s.dtype.block_bytes() as int == 0
    &&& offset + size <= s.size
}

/// The storage of a range of storage.
pub open spec fn viewed(s: QView, offset: usize, size: usize) -> QView {
    QView { offset: (s.offset + offset) as usize, size, borrowed: true, ..s }
}

/// The refusal of a range, with the first reason for it.
pub open spec fn view_refusal(s: QView, offset: usize, size: usize) -> Seq<char> {
    if offset % 256 != 0 {
        "QMetalStorage::view offset "@ + decimal_text(offset as nat)
            + " is not 256-byte aligned"@
    } else if offset as int % s.dtype.block_bytes() as int != 0 {
        "QMetalStorage::view offset "@ + decimal_text(offset as nat)
            + " is not a whole number of "@ + s.dtype.label() + " blocks ("@ + decimal_text(
            s.dtype.block_bytes(),
        ) + " bytes)"@
    } else if size as int % s.dtype.block_bytes() as int != 0 {
        "QMetalStorage::view size "@ + decimal_text(size as nat) + " is not a whole number of "@
            + s.dtype.label() + " blocks ("@ + decimal_text(s.dtype.block_bytes()) + " bytes)"@
    } else {
        "QMetalStorage::view "@ + decimal_text(offset as nat) + "+"@ + decimal_text(size as nat)
            + " out of bounds for "@ + decimal_text(s.size as nat) + " bytes"@
    }
}

/// The bytes that elements of these extents take in a format.
pub open spec fn stored_bytes(dims: Seq<usize>, dtype: GgmlDType) -> nat {
    (product(dims) as int / dtype.block_elems() as int * dtype.block_bytes()) as nat
}

/// What is computed for the bytes of elements fits where the bytes of as many blocks do.
pub proof fn lemma_stored_bytes(dims: Seq<usize>, dtype: GgmlDType)
    requires
        span(dims) * dtype.block_bytes() <= usize::MAX,
    ensures
        span(dims) <= usize::MAX,
        product(dims) <= usize::MAX,
        0 <= product(dims) as int / dtype.block_elems() as int * dtype.block_bytes() <= usize::MAX,
        dtype.block_elems() > 0,
{
    crate::arith::lemma_product_le_span(dims);
    let (p, s, elems, bytes) = (
        product(dims) as int,
        span(dims) as int,
        dtype.block_elems() as int,
        dtype.block_bytes() as int,
    );
    assert(s <= s * bytes) by (nonlinear_arith)
        requires
            s >= 0,
            bytes >= 1,
    ;
    assert(0 <= p / elems <= p) by (nonlinear_arith)
        requires
            p >= 0,
            elems >= 1,
    ;
    assert(0 <= p / elems * bytes <= s * bytes) by (nonlinear_arith)
        requires
            0 <= p / elems <= s,
            bytes >= 1,
    ;
}

/// What `byte_view` hands back.
pub open spec fn byte_view_outcome(
    r: Result<QMetalStorage>,
    s: QView,
    offset: usize,
    size: usize,
    dims: Seq<usize>,
) -> bool {
    if stored_bytes(dims, s.dtype) != size {
        r matches Err(e) && e.says(
            "byte_view: "@ + decimal_text(size as nat) + " bytes do not describe "@
                + s.dtype.label() + " elements of shape "@ + list_text(dims),
        )
    } else if !viewable(s, offset, size) {
        r matches Err(e) && e.says(view_refusal(s, offset, size))
    } else {
        r matches Ok(v) && v.model() == viewed(s, offset, size) && v.model().wf()
    }
}

/// What dequantizing gives.
#[derive(Debug)]
pub enum Dequantized {
    /// The elements, by the bits of their 32-bit floats.
    Floats(Vec<u32>),
    /// The blocks, each of which stands for as many elements as the format says.
    Blocks(Vec<Vec<u8>>),
}

/// The little-endian 16-bit word with the index `i`.
pub open spec fn half_word(bytes: Seq<u8>, i: int) -> u16 {
    (bytes[2 * i] + 256 * bytes[2 * i + 1]) as u16
}

/// The little-endian 32-bit word with the index `i`.
pub open spec fn word(bytes: Seq<u8>, i: int) -> u32 {
    (bytes[4 * i] + 0x100 * bytes[4 * i + 1] + 0x1_0000 * bytes[4 * i + 2] + 0x100_0000 * bytes[4
        * i + 3]) as u32
}

/// Words are little-endian: a word is the two half words in its place, the lower one first, and a half
/// word the two bytes in its place.
pub proof fn law_words_are_little_endian(bytes: Seq<u8>, i: int)
    ensures
        word(bytes, i) == half_word(bytes, 2 * i) + 0x1_0000 * half_word(bytes, 2 * i + 1),
        half_word(bytes, i) % 256 == bytes[2 * i],
        half_word(bytes, i) / 256 == bytes[2 * i + 1],
{
}

/// Blocks lie one behind the other: byte `b` of block `i` is that many bytes behind `i` whole blocks.
pub proof fn law_blocks_tile_the_bytes(bytes: Seq<u8>, i: int, size: int, b: int)
    requires
        0 <= i,
        0 <= b < size,
        (i + 1) * size <= bytes.len(),
    ensures
        block(bytes, i, size).len() == size,
        block(bytes, i, size)[b] == bytes[i * size + b],
{
    assert((i + 1) * size == i * size + size && i * size >= 0) by (nonlinear_arith)
        requires
            0 <= i,
            0 < size,
    ;
}

/// The elements of the format are floats by themselves, without blocks.
pub open spec fn is_float(dtype: GgmlDType) -> bool {
    dtype is F32 || dtype is F16 || dtype is BF16
}

/// The bits of the 32-bit float that element `i` of a float format stands for.
pub open spec fn float_of(dtype: GgmlDType, bytes: Seq<u8>, i: int) -> int {
    match dtype {
        GgmlDType::F16 => half_widened(half_word(bytes, i)),
        GgmlDType::BF16 => bf16_widened(half_word(bytes, i)),
        _ => word(bytes, i) as int,
    }
}

/// The blocks of `size` bytes each at the start of `bytes`.
pub open spec fn block(bytes: Seq<u8>, i: int, size: int) -> Seq<u8> {
    bytes.subrange(i * size, (i + 1) * size)
}

/// A copy of the bytes from `start` to `end`.
fn copy_bytes(bytes: &[u8], start: usize, end: usize) -> (r: Vec<u8>)
    requires
        start <= end <= bytes@.len(),
    ensures
        r@ == bytes@.subrange(start as int, end as int),
{
    let mut r: Vec<u8> = Vec::with_capacity(end - start);
    let mut i: usize = start;
    while i < end
        invariant
            start <= i <= end <= bytes@.len(),
            r@ == bytes@.subrange(start as int, i as int),
        decreases end - i,
    {
        r.push(bytes[i]);
        assert(bytes@.subrange(start as int, i + 1) =~= bytes@.subrange(
            start as int,
            i as int,
        ).push(bytes@[i as int]));
        i = i + 1;
    }
    r
}

impl Buffer {
    /// An allocation of `size` zero bytes.
    pub fn zeros(size: usize) -> (r: Buffer)
        ensures
            r.bytes@ == Seq::new(size as nat, |i: int| 0u8),
    {
        let bytes: Vec<u8> = vec![0u8; size];
        assert(bytes@ =~= Seq::new(size as nat, |i: int| 0u8));
        Buffer { bytes }
    }

    /// An allocation that holds `data`.
    pub fn with_data(data: &[u8]) -> (r: Buffer)
        ensures
            r.bytes@ == data@,
    {
        let bytes: Vec<u8> = copy_bytes(data, 0, data.len());
        assert(bytes@ =~= data@);
        Buffer { bytes }
    }
}

impl QMetalStorage {
    /// Storage for `elem_count` elements, all of whose bytes are zero.
    pub fn zeros(device: &MetalDevice, elem_count: usize, dtype: GgmlDType) -> (r: Result<Self>)
        requires
            elem_count * dtype.block_bytes() <= usize::MAX,
        ensures
            r matches Ok(s) && s.model() == (QView {
                dtype,
                device: *device,
                buffer: Seq::new(
                    (elem_count * dtype.block_bytes() / dtype.block_elems() as int) as nat,
                    |i: int| 0u8,
                ),
                offset: 0,
                size: (elem_count * dtype.block_bytes() / dtype.block_elems() as int) as usize,
                borrowed: false,
            }) && s.model().wf(),
    {
        let size: usize = elem_count * dtype.type_size() / dtype.block_size();
        let r: QMetalStorage = QMetalStorage {
            buffer: Arc::new(Buffer::zeros(size)),
            device: *device,
            dtype,
            offset: 0,
            size,
            borrowed: false,
        };
        Ok(r)
    }

    /// A range of this storage as storage of its own, without a copy: both share the allocation.
    ///
    /// The start must be aligned in two ways that do not imply each other. Devices bind buffers
    /// at multiples of 256 bytes. Kernels index in whole blocks, so that a start in the middle of
    /// a block would give plausible numbers out of the tail of one block and the head of the next:
    /// six-bit blocks are 210 bytes long, and some multiples of 256 cut one in half. The size must
    /// be a whole number of blocks too.
    pub fn view(&self, offset: usize, size: usize) -> (r: Result<Self>)
        requires
            self.model().wf(),
            offset + size <= usize::MAX,
        ensures
            match r {
                Ok(s) => viewable(self.model(), offset, size) && s.model() == viewed(self.model(), offset, size)
                    && s.model().wf(),
                Err(e) => !viewable(self.model(), offset, size) && e.says(
                    view_refusal(self.model(), offset, size),
                ),
            },
    {
        let type_size: usize = self.dtype.type_size();
        if offset % 256 != 0 {
            let mut text: String = "QMetalStorage::view offset ".to_owned();
            push_decimal(&mut text, offset);
            text.append(" is not 256-byte aligned");
            return Err(Error::Msg(text));
        }
        if offset % type_size != 0 {
            let mut text: String = "QMetalStorage::view offset ".to_owned();
            push_decimal(&mut text, offset);
            text.append(" is not a whole number of ");
            text.append(self.dtype.name());
            text.append(" blocks (");
            push_decimal(&mut text, type_size);
            text.append(" bytes)");
            return Err(Error::Msg(text));
        }
        if size % type_size != 0 {
            let mut text: String = "QMetalStorage::view size ".to_owned();
            push_decimal(&mut text, size);
            text.append(" is not a whole number of ");
            text.append(self.dtype.name());
            text.append(" blocks (");
            push_decimal(&mut text, type_size);
            text.append(" bytes)");
            return Err(Error::Msg(text));
        }
        if offset + size > self.size {
            let mut text: String = "QMetalStorage::view ".to_owned();
            push_decimal(&mut text, offset);
            text.append("+");
            push_decimal(&mut text, size);
            text.append(" out of bounds for ");
            push_decimal(&mut text, self.size);
            text.append(" bytes");
            return Err(Error::Msg(text));
        }
        Ok(
            QMetalStorage {
                dtype: self.dtype,
                device: self.device,
                buffer: self.buffer.clone(),
                offset: self.offset + offset,
                size,
                borrowed: true,
            },
        )
    }

    /// A range of this storage as a tensor of its own, without a copy. The range has to hold just
    /// what the extents say: kernels read as much as those say, and would read past a range that
    /// is shorter.
    pub fn byte_view(&self, offset: usize, size: usize, dims: &[usize]) -> (r: Result<Self>)
        requires
            self.model().wf(),
            offset + size <= usize::MAX,
            span(dims@) * self.model().dtype.block_bytes() <= usize::MAX,
        ensures
            byte_view_outcome(r, self.model(), offset, size, dims@),
    {
        proof {
            lemma_stored_bytes(dims@, self.dtype);
        }
        if count(dims) / self.dtype.block_size() * self.dtype.type_size() != size {
            let mut text: String = "byte_view: ".to_owned();
            push_decimal(&mut text, size);
            text.append(" bytes do not describe ");
            text.append(self.dtype.name());
            text.append(" elements of shape ");
            text.append(list(dims).as_str());
            return Err(Error::Msg(text));
        }
        self.view(offset, size)
    }

    /// The format.
    pub fn dtype(&self) -> (r: GgmlDType)
        ensures
            r == self.model().dtype,
    {
        self.dtype
    }

    /// The device.
    pub fn device(&self) -> (r: &MetalDevice)
        ensures
            *r == self.model().device,
    {
        &self.device
    }

    /// The allocation that holds the elements.
    pub fn buffer(&self) -> (r: &Buffer)
        ensures
            r.bytes@ == self.model().buffer,
    {
        &*self.buffer
    }

    /// Where the elements start in the allocation, in bytes.
    pub fn buffer_offset(&self) -> (r: usize)
        ensures
            r == self.model().offset,
    {
        self.offset
    }

    /// The elements of a float format as 32-bit floats, or the blocks of another format for a
    /// decoder of it. An incomplete block at the end is not given.
    pub fn dequantize(&self, elem_count: usize) -> (r: Dequantized)
        requires
            self.model().wf(),
            elem_count as int / self.model().dtype.block_elems() as int * self.model().dtype.block_bytes()
                <= self.model().size,
        ensures
            ({
                let dtype = self.model().dtype;
                let n = elem_count as int / dtype.block_elems() as int;
                match r {
                    Dequantized::Floats(v) => {
                        &&& is_float(dtype)
                        &&& v@.len() == elem_count
                        &&& forall|i: int|
                            0 <= i < elem_count ==> #[trigger] v@[i] == float_of(
                                dtype,
                                self.model().data(),
                                i,
                            )
                    },
                    Dequantized::Blocks(v) => {
                        &&& !is_float(dtype)
                        &&& v@.len() == n
                        &&& forall|i: int|
                            0 <= i < n ==> (#[trigger] v@[i])@ == block(
                                self.model().data(),
                                i,
                                dtype.block_bytes() as int,
                            )
                    },
                }
            }),
    {
        let ghost data = self.model().data();
        let bytes: Vec<u8> = copy_bytes(
            self.buffer.bytes.as_slice(),
            self.offset,
            self.offset + self.size,
        );
        assert(bytes@ == data);
        let block_size: usize = self.dtype.block_size();
        let block_len: usize = elem_count / block_size;
        match self.dtype {
            GgmlDType::F32 | GgmlDType::F16 | GgmlDType::BF16 => {
                assert(block_len == elem_count) by (nonlinear_arith)
                    requires
                        block_len == elem_count / block_size,
                        block_size == 1,
                ;
                let mut out: Vec<u32> = Vec::with_capacity(elem_count);
                let mut i: usize = 0;
                let dtype: GgmlDType = self.dtype;
                while i < elem_count
                    invariant
                        i <= elem_count,
                        bytes@ == data,
                        is_float(dtype),
                        elem_count * dtype.block_bytes() <= bytes@.len(),
                        out@.len() == i,
                        forall|j: int|
                            0 <= j < i ==> #[trigger] out@[j] == float_of(dtype, data, j),
                    decreases elem_count - i,
                {
                    let bits: u32 = match dtype {
                        GgmlDType::F16 => half_to_single_bits(
                            read_half_word(bytes.as_slice(), i),
                        ),
                        GgmlDType::BF16 => bf16_to_f32_bits(read_half_word(bytes.as_slice(), i)),
                        _ => read_word(bytes.as_slice(), i),
                    };
                    out.push(bits);
                    i = i + 1;
                }
                Dequantized::Floats(out)
            },
            _ => {
                let type_size: usize = self.dtype.type_size();
                let mut out: Vec<Vec<u8>> = Vec::with_capacity(block_len);
                let mut i: usize = 0;
                while i < block_len
                    invariant
                        i <= block_len,
                        bytes@ == data,
                        block_len * type_size <= bytes@.len() <= usize::MAX,
                        out@.len() == i,
                        forall|j: int|
                            0 <= j < i ==> (#[trigger] out@[j])@ == block(
                                data,
                                j,
                                type_size as int,
                            ),
                    decreases block_len - i,
                {
                    assert(0 <= i * type_size <= (i + 1) * type_size <= block_len * type_size)
                        by (nonlinear_arith)
                        requires
                            0 <= i < block_len,
                            0 <= type_size,
                    ;
                    out.push(copy_bytes(bytes.as_slice(), i * type_size, (i + 1) * type_size));
                    i = i + 1;
                }
                Dequantized::Blocks(out)
            },
        }
    }

    /// Replaces the contents by `data`, which a quantizer made of plain elements in this format.
    /// Refused for a range of other storage.
    pub fn quantize(&mut self, data: &[u8]) -> (r: Result<()>)
        requires
            old(self).model().wf(),
        ensures
            replaced(old(self).model(), final(self).model(), data@, r),
    {
        let r: Result<()> = self.replace_buffer(
            Arc::new(Buffer::with_data(data)),
            data.len(),
        );
        assert(data@.subrange(0, data@.len() as int) =~= data@);
        r
    }

    /// Replaces the contents by `data`, which a quantizer made of host elements in this format.
    /// Refused for a range of other storage.
    pub fn quantize_onto(&mut self, data: &[u8]) -> (r: Result<()>)
        requires
            old(self).model().wf(),
        ensures
            replaced(old(self).model(), final(self).model(), data@, r),
    {
        self.quantize(data)
    }

    /// Replaces the contents by `data`, which a quantizer made of plain elements in this format,
    /// some elements of a row weighing more than others. Refused for a range of other storage.
    pub fn quantize_imatrix(&mut self, data: &[u8]) -> (r: Result<()>)
        requires
            old(self).model().wf(),
        ensures
            replaced(old(self).model(), final(self).model(), data@, r),
    {
        self.quantize(data)
    }

    /// Replaces the contents by `data`, which a quantizer made of host elements in this format,
    /// some elements of a row weighing more than others. Refused for a range of other storage.
    pub fn quantize_imatrix_onto(&mut self, data: &[u8]) -> (r: Result<()>)
        requires
            old(self).model().wf(),
        ensures
            replaced(old(self).model(), final(self).model(), data@, r),
    {
        self.quantize(data)
    }

    /// Takes the first `size` bytes of `buffer` as the contents. Refused for a range of other
    /// storage, wherever it starts: the allocation belongs to that storage, which would not see
    /// the new contents.
    fn replace_buffer(&mut self, buffer: Arc<Buffer>, size: usize) -> (r: Result<()>)
        requires
            old(self).model().wf(),
            size <= buffer.bytes@.len() <= usize::MAX,
        ensures
            if old(self).model().borrowed {
                &&& final(self).model() == old(self).model()
                &&& r matches Err(e) && e.says(replace_refusal(old(self).model().offset))
            } else {
                &&& r is Ok
                &&& final(self).model() == (QView { buffer: buffer.bytes@, size, ..old(self).model() })
                &&& final(self).model().wf()
            },
    {
        if self.borrowed {
            let mut text: String = "cannot quantize into a QMetalStorage view (offset ".to_owned();
            push_decimal(&mut text, self.offset);
            text.append(")");
            return Err(Error::Msg(text));
        }
        self.buffer = buffer;
        self.size = size;
        Ok(())
    }

    /// The bytes that the elements take.
    pub fn storage_size_in_bytes(&self) -> (r: usize)
        ensures
            r == self.model().size,
    {
        self.size
    }

    /// A copy of the elements' bytes.
    pub fn data(&self) -> (r: Result<Vec<u8>>)
        requires
            self.model().wf(),
        ensures
            r matches Ok(v) && v@ == self.model().data(),
    {
        Ok(copy_bytes(self.buffer.bytes.as_slice(), self.offset, self.offset + self.size))
    }
}

/// Why the contents are not replaced.
pub open spec fn replace_refusal(offset: usize) -> Seq<char> {
    "cannot quantize into a QMetalStorage view (offset "@ + decimal_text(offset as nat) + ")"@
}

/// What replacing the contents of `before` by `data` leaves, and what it hands back.
pub open spec fn replaced(before: QView, after: QView, data: Seq<u8>, r: Result<()>) -> bool {
    if before.borrowed {
        &&& after == before
        &&& r matches Err(e) && e.says(replace_refusal(before.offset))
    } else {
        &&& r is Ok
        &&& after == (QView { buffer: data, size: data.len() as usize, ..before })
        &&& after.wf()
        &&& after.data() == data
    }
}

/// The little-endian 16-bit word with the index `i`.
fn read_half_word(bytes: &[u8], i: usize) -> (r: u16)
    requires
        (i + 1) * 2 <= bytes@.len(),
    ensures
        r == half_word(bytes@, i as int),
{
    let n: usize = bytes.len();
    assert(2 * i + 1 < n);
    bytes[2 * i] as u16 + 256 * bytes[2 * i + 1] as u16
}

/// The little-endian 32-bit word with the index `i`.
fn read_word(bytes: &[u8], i: usize) -> (r: u32)
    requires
        (i + 1) * 4 <= bytes@.len(),
    ensures
        r == word(bytes@, i as int),
{
    let n: usize = bytes.len();
    assert(4 * i + 3 < n);
    bytes[4 * i] as u32 + 0x100 * bytes[4 * i + 1] as u32 + 0x1_0000 * bytes[4 * i + 2] as u32
        + 0x100_0000 * bytes[4 * i + 3] as u32
}

/// Storage of the elements in the given format that `data` holds.
pub fn load_quantized(device: &MetalDevice, dtype: GgmlDType, data: &[u8]) -> (r: Result<
    QMetalStorage,
>)
    ensures
        r matches Ok(s) && s.model() == (QView {
            dtype,
            device: *device,
            buffer: data@,
            offset: 0,
            size: data@.len() as usize,
            borrowed: false,
        }) && s.model().wf() && s.model().data() == data@,
{
    let r: QMetalStorage = QMetalStorage {
        dtype,
        device: *device,
        buffer: Arc::new(Buffer::with_data(data)),
        offset: 0,
        size: data.len(),
        borrowed: false,
    };
    assert(r.model().data() =~= data@);
    Ok(r)
}

/// The bytes of `elems` elements of a format.
pub open spec fn format_bytes(dtype: GgmlDType, elems: int) -> int {
    elems * dtype.block_bytes() / dtype.block_elems() as int
}

/// What `embedding` hands back.
pub open spec fn embedding_outcome(
    r: Result<Plan>,
    s: QView,
    rows: usize,
    hidden: usize,
    ids_dtype: DType,
    ids_l: Layout,
) -> bool {
    if ids_dtype != DType::U32 {
        r matches Err(e) && e.says("quantized embedding expects u32 ids, got "@ + ids_dtype.label())
    } else if !ids_l.dense() {
        r matches Err(e) && e.says("quantized embedding requires contiguous ids"@)
    } else if hidden as int % s.dtype.block_elems() as int != 0 {
        r matches Err(e) && e.says(
            "quantized embedding hidden size "@ + decimal_text(hidden as nat)
                + " is not divisible by block size "@ + decimal_text(s.dtype.block_elems()),
        )
    } else if s.size != format_bytes(s.dtype, rows * hidden) {
        r matches Err(e) && e.says(
            "quantized tensor has "@ + decimal_text(s.size as nat) + " bytes, expected "@
                + decimal_text(format_bytes(s.dtype, rows * hidden) as nat),
        )
    } else if s.offset != 0 {
        r matches Err(e) && e.says(
            "quantized embedding is not implemented for a QMetalStorage view"@,
        )
    } else {
        match kernels::get_rows_kernel(kernel_dtype(s.dtype)) {
            None => r matches Err(Error::Metal(e)) && e.is_unsupported(
                s.dtype.label(),
                "get_rows"@,
            ),
            Some(name) => r matches Ok(p) && p.launches@.len() == 1 && p.device == s.device
                && p.dst_elems == product(ids_l.shape@) * hidden && kernels::launches_get_rows(
                p.launches@[0],
                name,
                hidden,
                format_bytes(s.dtype, hidden as int) as usize,
                product(ids_l.shape@) as usize,
                Operand::Weights,
                (Operand::Ids, (ids_l.start_offset * 4) as usize),
                Operand::Dst,
            ),
        }
    }
}

impl QMetalStorage {
    /// Gathers rows of this table of `rows` rows of `hidden` elements. The table must be all of
    /// its allocation: the kernel reads from the allocation's start.
    pub fn embedding(
        &self,
        rows: usize,
        hidden: usize,
        ids: &MetalStorage,
        ids_l: &Layout,
    ) -> (r: Result<Plan>)
        requires
            self.model().wf(),
            ids_l.wf(),
            rows * hidden <= usize::MAX,
            rows * hidden * self.model().dtype.block_bytes() <= usize::MAX,
            hidden * self.model().dtype.block_bytes() <= usize::MAX,
            span(ids_l.shape@) * hidden * 4 <= usize::MAX,
            hidden * 4 <= usize::MAX,
            ids_l.start_offset * 4 <= usize::MAX,
        ensures
            embedding_outcome(r, self.model(), rows, hidden, ids.dtype, *ids_l),
    {
        if ids.dtype != DType::U32 {
            let mut text: String = "quantized embedding expects u32 ids, got ".to_owned();
            text.append(ids.dtype.name());
            return Err(Error::Msg(text));
        }
        if !ids_l.is_contiguous() {
            return Err(Error::Msg("quantized embedding requires contiguous ids".to_owned()));
        }
        let block_size: usize = self.dtype.block_size();
        if hidden % block_size != 0 {
            let mut text: String = "quantized embedding hidden size ".to_owned();
            push_decimal(&mut text, hidden);
            text.append(" is not divisible by block size ");
            push_decimal(&mut text, block_size);
            return Err(Error::Msg(text));
        }
        let expected_size: usize = rows * hidden * self.dtype.type_size() / block_size;
        if self.size != expected_size {
            let mut text: String = "quantized tensor has ".to_owned();
            push_decimal(&mut text, self.size);
            text.append(" bytes, expected ");
            push_decimal(&mut text, expected_size);
            return Err(Error::Msg(text));
        }
        if self.offset != 0 {
            return Err(
                Error::Msg(
                    "quantized embedding is not implemented for a QMetalStorage view".to_owned(),
                ),
            );
        }
        let ids_len: usize = ids_l.shape.elem_count();
        proof {
            crate::arith::lemma_product_le_span(ids_l.shape@);
            assert(ids_len * hidden <= span(ids_l.shape@) * hidden) by (nonlinear_arith)
                requires
                    ids_len <= span(ids_l.shape@),
                    hidden >= 0,
            ;
        }
        match kernels::call_quantized_get_rows(
            kernels::GgmlDType::from(self.dtype),
            hidden,
            hidden * self.dtype.type_size() / block_size,
            ids_len,
            Operand::Weights,
            (Operand::Ids, ids_l.start_offset * 4),
            Operand::Dst,
        ) {
            Ok(launch) => Ok(
                Plan {
                    launches: vec![launch],
                    device: self.device,
                    dst_elems: ids_len * hidden,
                },
            ),
            Err(e) => Err(Error::Metal(e)),
        }
    }
}

/// The activations' extents with the last one replaced by the weights' output extent.
pub open spec fn product_shape(src: Seq<usize>, n: usize) -> Seq<usize> {
    src.update(src.len() - 1, n)
}

/// Why operands do not fit.
pub open spec fn incompatible_text(layout: Layout, self_shape: Seq<usize>) -> Seq<char> {
    "input tensor "@ + layout.text() + " incompatible with "@ + list_text(self_shape)
}

/// The vectors that the activations hold, for two or three extents.
pub open spec fn vectors(src: Seq<usize>) -> int {
    if src.len() == 3 {
        src[0] * src[1]
    } else {
        src[0] as int
    }
}

/// `p` multiplies each of the `m` vectors with an `[n, k]` matrix, one launch each. The vectors
/// start at `start` in the activations, and are `size` bytes per element.
pub open spec fn plans_mv(
    p: Plan,
    s: QView,
    m: int,
    n: usize,
    k: usize,
    start: usize,
    size: nat,
) -> bool {
    &&& p.launches@.len() == m
    &&& forall|i: int|
        0 <= i < m ==> kernels::launches_mv_t(
            #[trigger] p.launches@[i],
            kernel_dtype(s.dtype),
            (1, 1, n, k),
            Operand::Input,
            ((start + i * k) * size) as usize,
            Operand::Weights,
            s.offset,
            (i * n * 4) as usize,
            Operand::Dst,
        )
}

/// What `fwd_mv` hands back.
pub open spec fn fwd_mv_outcome(
    r: Result<(Plan, Shape)>,
    s: QView,
    self_shape: Seq<usize>,
    device: MetalDevice,
    dtype: DType,
    layout: Layout,
) -> bool {
    let src = layout.shape@;
    if !layout.dense() {
        r matches Err(e) && e.says("input tensor is not contiguous "@ + layout.text())
    } else if src.len() < 2 {
        r matches Err(e) && e.says("input tensor has only one dimension "@ + layout.text())
    } else if self_shape.len() != 2 {
        r == Err::<(Plan, Shape), Error>(
            Error::UnexpectedNumberOfDims { expected: 2, got: self_shape.len() as usize },
        )
    } else if src.len() > 3 {
        r matches Err(e) && e.says(
            "Invalid rank "@ + decimal_text(src.len()) + " for quantized matmul metal"@,
        )
    } else if src.last() != self_shape[1] {
        r matches Err(e) && e.says(incompatible_text(layout, self_shape))
    } else {
        r matches Ok((p, shape)) && p.device == device && shape@ == product_shape(
            src,
            self_shape[0],
        ) && p.dst_elems == product(shape@) && plans_mv(
            p,
            s,
            vectors(src),
            self_shape[0],
            self_shape[1],
            layout.start_offset,
            dtype.bytes(),
        )
    }
}

/// The elements that a product reads and writes can be addressed in bytes.
pub open spec fn addressable(self_shape: Seq<usize>, dtype: DType, layout: Layout) -> bool {
    let src = layout.shape@;
    &&& (layout.start_offset + span(src)) * dtype.bytes() <= usize::MAX
    &&& src.len() >= 2 && self_shape.len() >= 2 ==> span(
        product_shape(src, self_shape[self_shape.len() - 2]),
    ) * 4 <= usize::MAX
}

/// Words the refusal of activations that are not contiguous, or of too few extents.
fn layout_message(prefix: &str, layout: &Layout) -> (r: String)
    ensures
        r@ == prefix@ + layout.text(),
{
    let mut text: String = prefix.to_owned();
    text.append(layout.describe().as_str());
    text
}

/// Words the refusal of operands that do not fit.
fn incompatible_message(layout: &Layout, self_shape: &Shape) -> (r: String)
    ensures
        r@ == incompatible_text(*layout, self_shape@),
{
    let mut text: String = layout_message("input tensor ", layout);
    text.append(" incompatible with ");
    text.append(list(self_shape.dims()).as_str());
    text
}

/// The offsets of row `i` of `m` rows are within the bytes of all rows.
pub proof fn lemma_row_offsets(start: int, i: int, m: int, k: int, n: int, size: int, total: int)
    requires
        0 <= i < m,
        0 <= k,
        0 <= n,
        0 <= start,
        0 <= size,
        (start + m * k) * size <= total,
        m * n * 4 <= total,
    ensures
        0 <= i * k <= m * k,
        0 <= (start + i * k) * size <= total,
        0 <= i * n <= m * n,
        0 <= i * n * 4 <= total,
{
    assert(0 <= i * k <= m * k) by (nonlinear_arith)
        requires
            0 <= i < m,
            0 <= k,
    ;
    assert(0 <= i * n <= m * n) by (nonlinear_arith)
        requires
            0 <= i < m,
            0 <= n,
    ;
    assert(0 <= (start + i * k) * size <= (start + m * k) * size) by (nonlinear_arith)
        requires
            0 <= start,
            0 <= i * k <= m * k,
            0 <= size,
    ;
}

impl QMetalStorage {
    /// The product with a few vectors, one launch for each. The kernel handles no batch, so all
    /// outer extents of the activations are taken together.
    fn fwd_mv(&self, self_shape: &Shape, storage: &MetalStorage, layout: &Layout) -> (r: Result<
        (Plan, Shape),
    >)
        requires
            self.model().wf(),
            self_shape.wf(),
            layout.wf(),
            addressable(self_shape@, storage.dtype, *layout),
        ensures
            fwd_mv_outcome(
                r,
                self.model(),
                self_shape@,
                storage.device,
                storage.dtype,
                *layout,
            ),
    {
        if !layout.is_contiguous() {
            return Err(Error::Msg(layout_message("input tensor is not contiguous ", layout)));
        }
        let rank: usize = layout.shape.rank();
        if rank < 2 {
            return Err(
                Error::Msg(layout_message("input tensor has only one dimension ", layout)),
            );
        }
        let (n, k) = match self_shape.dims2() {
            Ok(nk) => nk,
            Err(e) => {
                return Err(e);
            },
        };
        let ghost src = layout.shape@;
        let mut dst_dims: Vec<usize> = copy_dims(layout.dims());
        if rank > 3 {
            let mut text: String = "Invalid rank ".to_owned();
            push_decimal(&mut text, rank);
            text.append(" for quantized matmul metal");
            return Err(Error::Msg(text));
        }
        proof {
            lemma_vectors(src, n);
        }
        let m: usize = if rank == 3 {
            dst_dims[0] * dst_dims[1]
        } else {
            dst_dims[0]
        };
        if dst_dims[rank - 1] != k {
            return Err(Error::Msg(incompatible_message(layout, self_shape)));
        }
        dst_dims.set(rank - 1, n);
        let dst_shape: Shape = Shape { dims: dst_dims };
        assert(dst_shape@ =~= product_shape(src, n));
        let dst_elems: usize = dst_shape.elem_count();
        let size: usize = storage.dtype.size_in_bytes();
        let start: usize = layout.start_offset;
        let mut launches: Vec<Launch<'static, Operand>> = Vec::new();
        let dtype: kernels::GgmlDType = kernels::GgmlDType::from(self.dtype);
        let offset: usize = self.offset;
        let mut batch_id: usize = 0;
        proof {
            assert((start + m * k) * size <= (start + span(src)) * size) by (nonlinear_arith)
                requires
                    m * k <= span(src),
                    0 <= size,
            ;
        }
        while batch_id < m
            invariant
                batch_id <= m,
                size >= 1,
                (start + m * k) * size <= usize::MAX,
                m * n * 4 <= usize::MAX,
                launches@.len() == batch_id,
                forall|i: int|
                    0 <= i < batch_id ==> kernels::launches_mv_t(
                        #[trigger] launches@[i],
                        dtype,
                        (1, 1, n, k),
                        Operand::Input,
                        ((start + i * k) * size) as usize,
                        Operand::Weights,
                        offset,
                        (i * n * 4) as usize,
                        Operand::Dst,
                    ),
            decreases m - batch_id,
        {
            proof {
                lemma_row_offsets(
                    start as int,
                    batch_id as int,
                    m as int,
                    k as int,
                    n as int,
                    size as int,
                    usize::MAX as int,
                );
                assert(start + batch_id * k <= usize::MAX) by (nonlinear_arith)
                    requires
                        (start + batch_id * k) * size <= usize::MAX,
                        size >= 1,
                        start + batch_id * k >= 0,
                ;
            }
            let launch: Launch<'static, Operand> = kernels::call_quantized_matmul_mv_t(
                dtype,
                (1, 1, n, k),
                Operand::Input,
                (start + batch_id * k) * size,
                Operand::Weights,
                offset,
                batch_id * n * 4,
                Operand::Dst,
            );
            launches.push(launch);
            batch_id = batch_id + 1;
        }
        Ok((Plan { launches, device: storage.device, dst_elems }, dst_shape))
    }
}

/// The vectors, and what they and their products take, are bounded by the spans.
pub proof fn lemma_vectors(src: Seq<usize>, n: usize)
    requires
        2 <= src.len() <= 3,
    ensures
        0 <= vectors(src) <= span(src),
        vectors(src) * src.last() <= span(src),
        vectors(src) * n <= span(product_shape(src, n)),
{
    let dst = product_shape(src, n);
    if src.len() == 2 {
        assert(src =~= seq![src[0], src[1]]);
        assert(dst =~= seq![src[0], n]);
        crate::arith::lemma_span_two(src[0], src[1]);
        crate::arith::lemma_span_two(src[0], n);
    } else {
        assert(src =~= seq![src[0], src[1], src[2]]);
        assert(dst =~= seq![src[0], src[1], n]);
        crate::arith::lemma_span_three(src[0], src[1], src[2]);
        crate::arith::lemma_span_three(src[0], src[1], n);
        let (a, b, c) = (src[0], src[1], src[2]);
        assert(a * (b * c) == (a * b) * c) by (nonlinear_arith);
        assert(a * (b * n) == (a * b) * n) by (nonlinear_arith);
        assert(0 <= a * b) by (nonlinear_arith)
            requires
                0 <= a,
                0 <= b,
        ;
    }
}

/// The unit in the last place of a 32-bit float near `v`: the least power of two by which `v`
/// has at most 24 bits.
pub open spec fn ulp(v: nat) -> nat
    decreases v,
{
    if v < 0x100_0000 {
        1
    } else {
        2 * ulp(v / 2)
    }
}

/// `v` as a 32-bit float has it: rounded to the nearest multiple of its last place, to the even
/// one of two.
pub open spec fn rounded(v: nat) -> nat {
    let u = ulp(v);
    let q = v / u;
    let rest = v % u;
    if 2 * rest > u || (2 * rest == u && q % 2 == 1) {
        (q + 1) * u
    } else {
        q * u
    }
}

/// The bytes that `elems` elements of a format take, as 32-bit floats compute them, and no more
/// than a machine word holds.
pub open spec fn stride_bytes(dtype: GgmlDType, elems: nat) -> int {
    min_int(
        (rounded(rounded(elems) * dtype.block_bytes()) / dtype.block_elems()) as int,
        usize::MAX as int,
    )
}

/// The last place is positive and no larger than the value, if that is not zero.
proof fn lemma_ulp(v: nat)
    ensures
        1 <= ulp(v),
        v >= 1 ==> ulp(v) <= v,
        v < 0x100_0000 ==> ulp(v) == 1,
    decreases v,
{
    if v >= 0x100_0000 {
        lemma_ulp(v / 2);
    }
}

/// Rounding at most doubles a value.
proof fn lemma_rounded(v: nat)
    ensures
        rounded(v) <= 2 * v,
        v < 0x100_0000 ==> rounded(v) == v,
{
    lemma_ulp(v);
    let u = ulp(v);
    let q = v / u;
    vstd::arithmetic::div_mod::lemma_fundamental_div_mod(v as int, u as int);
    assert(u * q == q * u) by (nonlinear_arith);
    assert((q + 1) * u == q * u + u) by (nonlinear_arith);
    if v < 0x100_0000 {
        assert(v % u == 0);
        assert(q * u == v);
    }
    if v == 0 {
        assert(rounded(0) == 0);
    }
}

/// The unit in the last place of a 32-bit float near `v`.
fn float_ulp(v: u128) -> (r: u128)
    ensures
        r == ulp(v as nat),
        1 <= r,
        v >= 1 ==> r <= v,
    decreases v,
{
    proof {
        lemma_ulp(v as nat);
    }
    if v < 0x100_0000 {
        1
    } else {
        let half: u128 = float_ulp(v / 2);
        2 * half
    }
}

/// `v` as a 32-bit float has it.
fn float_rounded(v: u128) -> (r: u128)
    requires
        v <= 0x1_0000_0000_0000_0000_0000_0000,
    ensures
        r == rounded(v as nat),
{
    proof {
        lemma_rounded(v as nat);
        lemma_ulp(v as nat);
    }
    let u: u128 = float_ulp(v);
    let q: u128 = v / u;
    let rest: u128 = v % u;
    proof {
        vstd::arithmetic::div_mod::lemma_fundamental_div_mod(v as int, u as int);
        vstd::arithmetic::div_mod::lemma_mod_bound(v as int, u as int);
        assert(u * q == q * u) by (nonlinear_arith);
        assert((q + 1) * u == q * u + u) by (nonlinear_arith);
        assert(q <= v) by (nonlinear_arith)
            requires
                v == u * q + rest,
                u >= 1,
                rest >= 0,
                q >= 0,
        ;
        assert(u <= v || v == 0);
    }
    if 2 * rest > u || (2 * rest == u && q % 2 == 1) {
        (q + 1) * u
    } else {
        q * u
    }
}

/// The bytes that `elems` elements of a format take, as 32-bit floats compute them.
fn float_stride_bytes(dtype: GgmlDType, elems: usize) -> (r: usize)
    ensures
        r == stride_bytes(dtype, elems as nat),
{
    proof {
        lemma_rounded(elems as nat);
    }
    let type_size: u128 = dtype.type_size() as u128;
    let block_size: u128 = dtype.block_size() as u128;
    let x: u128 = float_rounded(elems as u128);
    assert(x * type_size <= 0x2_0000_0000_0000_0000 * 292) by (nonlinear_arith)
        requires
            0 <= x <= 0x2_0000_0000_0000_0000,
            0 <= type_size <= 292,
    ;
    let bytes: u128 = float_rounded(x * type_size) / block_size;
    if bytes <= usize::MAX as u128 {
        bytes as usize
    } else {
        usize::MAX
    }
}

/// Strides that a 32-bit float has exactly are exact: the elements' bytes.
pub proof fn law_stride_bytes_exact(dtype: GgmlDType, elems: nat)
    requires
        elems * dtype.block_bytes() < 0x100_0000,
    ensures
        stride_bytes(dtype, elems) == format_bytes(dtype, elems as int),
{
    let b = dtype.block_bytes();
    assert(elems <= elems * b) by (nonlinear_arith)
        requires
            b >= 1,
            elems >= 0,
    ;
    lemma_rounded(elems);
    lemma_rounded(elems * b);
    let e = dtype.block_elems();
    assert((elems * b) / e <= elems * b) by (nonlinear_arith)
        requires
            e >= 1,
            elems * b >= 0,
    ;
}

/// The extents, with ones put before them up to four.
pub open spec fn pad4(dims: Seq<usize>) -> Seq<usize> {
    Seq::new((4 - dims.len()) as nat, |i: int| 1usize) + dims
}

/// The bytes between neighbours along each extent of densely packed quantized elements.
pub open spec fn weight_strides(dtype: GgmlDType, dims: Seq<usize>) -> Seq<usize> {
    Seq::new(dims.len(), |i: int| stride_bytes(dtype, dense_stride(dims)[i]) as usize)
}

/// The bytes between neighbours along each extent of densely packed 32-bit floats.
pub open spec fn float_strides(dims: Seq<usize>) -> Seq<usize> {
    Seq::new(dims.len(), |i: int| (dense_stride(dims)[i] * 4) as usize)
}

/// Ones put before extents change neither the product nor the span.
pub proof fn lemma_pad4(dims: Seq<usize>)
    requires
        dims.len() <= 4,
    ensures
        pad4(dims).len() == 4,
        product(pad4(dims)) == product(dims),
        span(pad4(dims)) == span(dims),
        forall|i: int| 4 - dims.len() <= i < 4 ==> pad4(dims)[i] == dims[i - (4 - dims.len())],
        forall|i: int| 0 <= i < 4 - dims.len() ==> pad4(dims)[i] == 1,
{
    lemma_ones((4 - dims.len()) as nat, dims);
}

/// Ones put before extents change neither the product nor the span.
proof fn lemma_ones(n: nat, dims: Seq<usize>)
    ensures
        product(Seq::new(n, |i: int| 1usize) + dims) == product(dims),
        span(Seq::new(n, |i: int| 1usize) + dims) == span(dims),
    decreases n,
{
    let s = Seq::new(n, |i: int| 1usize) + dims;
    if n == 0 {
        assert(s =~= dims);
    } else {
        let t = Seq::new((n - 1) as nat, |i: int| 1usize) + dims;
        lemma_ones((n - 1) as nat, dims);
        assert(s.drop_first() =~= t);
        assert(product(s) == 1 * product(t));
        assert(span(s) == 1 * span(t));
    }
}

/// Puts ones before the extents, up to four.
fn padded(dims: &[usize]) -> (r: Vec<usize>)
    requires
        dims@.len() <= 4,
    ensures
        r@ == pad4(dims@),
{
    let mut r: Vec<usize> = Vec::new();
    while r.len() < 4 - dims.len()
        invariant
            dims@.len() <= 4,
            r@.len() <= 4 - dims@.len(),
            forall|i: int| 0 <= i < r@.len() ==> r@[i] == 1,
        decreases 4 - r@.len(),
    {
        r.push(1);
    }
    let mut i: usize = 0;
    while i < dims.len()
        invariant
            i <= dims@.len() <= 4,
            r@.len() == 4 - dims@.len() + i,
            forall|j: int| 0 <= j < 4 - dims@.len() ==> r@[j] == 1,
            forall|j: int| 0 <= j < i ==> r@[4 - dims@.len() + j] == dims@[j],
        decreases dims@.len() - i,
    {
        r.push(dims[i]);
        i = i + 1;
    }
    assert forall|j: int| 0 <= j < 4 implies r@[j] == pad4(dims@)[j] by {
        if j >= 4 - dims@.len() {
            assert(r@[4 - dims@.len() + (j - (4 - dims@.len()))] == dims@[j - (4 - dims@.len())]);
        }
    }
    assert(r@ =~= pad4(dims@));
    r
}

/// What `fwd` does with the operands once they are found to be matrices.
pub open spec fn fwd_is_mm(self_shape: Seq<usize>, layout: Layout) -> bool {
    let src = layout.shape@;
    &&& layout.dense()
    &&& src.len() >= 2
    &&& self_shape.len() >= 2
    &&& src.len() >= self_shape.len()
    &&& src[src.len() - 2] != 1
    &&& src.last() == self_shape.last()
}

/// What `fwd` hands back.
pub open spec fn fwd_outcome(
    r: Result<(Plan, Shape)>,
    s: QView,
    self_shape: Seq<usize>,
    device: MetalDevice,
    dtype: DType,
    layout: Layout,
) -> bool {
    let src = layout.shape@;
    if !layout.dense() {
        r matches Err(e) && e.says("input tensor is not contiguous "@ + layout.text())
    } else if src.len() < 2 {
        r matches Err(e) && e.says("input tensor has only one dimension "@ + layout.text())
    } else if self_shape.len() < 2 {
        r == Err::<(Plan, Shape), Error>(
            Error::DimOutOfRange { dim: (-2int) as isize, rank: self_shape.len() as usize },
        )
    } else if src.len() < self_shape.len() {
        r matches Err(e) && e.says(
            "input rank ("@ + decimal_text(src.len()) + ") must be >= weight rank ("@
                + decimal_text(self_shape.len()) + ")"@,
        )
    } else if src[src.len() - 2] == 1 {
        fwd_mv_outcome(r, s, self_shape, device, dtype, layout)
    } else if src.last() != self_shape.last() {
        r matches Err(e) && e.says(incompatible_text(layout, self_shape))
    } else if self_shape.len() > 4 {
        r matches Err(e) && e.says(
            "weight rank ("@ + decimal_text(self_shape.len()) + ") must be <= 4"@,
        )
    } else if src.len() > 4 {
        r matches Err(e) && e.says("weight rank ("@ + decimal_text(src.len()) + ") must be <= 4"@)
    } else {
        match kernels::mm_kernel(kernel_dtype(s.dtype)) {
            None => r matches Err(Error::Metal(e)) && e.is_unsupported(
                s.dtype.label(),
                "qmatmul"@,
            ),
            Some(name) => r matches Ok((p, shape)) && p.device == device && shape@
                == product_shape(src, self_shape[self_shape.len() - 2]) && p.dst_elems == product(
                shape@,
            ) && p.launches@.len() == 1 && kernels::launches_mm_t(
                p.launches@[0],
                name,
                pad4(self_shape),
                weight_strides(s.dtype, pad4(self_shape)),
                (Operand::Weights, s.offset),
                pad4(src),
                float_strides(pad4(src)),
                (Operand::Input, 0),
                shape@,
                (Operand::Dst, 0),
            ),
        }
    }
}

/// Words the refusal of a rank.
fn rank_message(rank: usize) -> (r: String)
    ensures
        r@ == "weight rank ("@ + decimal_text(rank as nat) + ") must be <= 4"@,
{
    let mut text: String = "weight rank (".to_owned();
    push_decimal(&mut text, rank);
    text.append(") must be <= 4");
    text
}

impl QMetalStorage {
    /// The product of these weights, `[.., n, k]`, with activations `[.., m, k]`.
    ///
    /// A single vector per matrix goes to the matrix-vector kernel. Otherwise the activations are
    /// 32-bit floats, and are read from the start of their allocation.
    pub fn fwd(&self, self_shape: &Shape, storage: &MetalStorage, layout: &Layout) -> (r: Result<
        (Plan, Shape),
    >)
        requires
            self.model().wf(),
            span(self_shape@) <= i64::MAX,
            span(self_shape@) <= usize::MAX,
            layout.wf(),
            addressable(self_shape@, storage.dtype, *layout),
            fwd_is_mm(self_shape@, *layout) ==> {
                &&& storage.dtype == DType::F32
                &&& forall|i: int| 0 <= i < self_shape@.len() - 2 ==> self_shape@[i] > 0
            },
        ensures
            fwd_outcome(r, self.model(), self_shape@, storage.device, storage.dtype, *layout),
    {
        if !layout.is_contiguous() {
            return Err(Error::Msg(layout_message("input tensor is not contiguous ", layout)));
        }
        let rank: usize = layout.shape.rank();
        if rank < 2 {
            return Err(
                Error::Msg(layout_message("input tensor has only one dimension ", layout)),
            );
        }
        let n: usize = match self_shape.dim(D::Minus2) {
            Ok(n) => n,
            Err(e) => {
                return Err(e);
            },
        };
        let k: usize = match self_shape.dim(D::Minus1) {
            Ok(k) => k,
            Err(e) => {
                return Err(e);
            },
        };
        let ghost src = layout.shape@;
        let self_rank: usize = self_shape.rank();
        if rank < self_rank {
            let mut text: String = "input rank (".to_owned();
            push_decimal(&mut text, rank);
            text.append(") must be >= weight rank (");
            push_decimal(&mut text, self_rank);
            text.append(")");
            return Err(Error::Msg(text));
        }
        if layout.shape.dims[rank - 2] == 1 {
            return self.fwd_mv(self_shape, storage, layout);
        }
        let mut dst_dims: Vec<usize> = copy_dims(layout.dims());
        if dst_dims[rank - 1] != k {
            return Err(Error::Msg(incompatible_message(layout, self_shape)));
        }
        dst_dims.set(rank - 1, n);
        let dst_shape: Shape = Shape { dims: dst_dims };
        assert(dst_shape@ =~= product_shape(src, n));
        if self_rank > 4 {
            return Err(Error::Msg(rank_message(self_rank)));
        }
        if rank > 4 {
            return Err(Error::Msg(rank_message(rank)));
        }
        assert(fwd_is_mm(self_shape@, *layout));
        let dst_elems: usize = dst_shape.elem_count();
        proof {
            lemma_pad4(self_shape@);
            lemma_pad4(src);
        }
        let src0_l: Layout = Layout::contiguous(Shape { dims: padded(self_shape.dims()) });
        let src1_l: Layout = Layout::contiguous(Shape { dims: padded(layout.dims()) });
        let ghost s0 = pad4(self_shape@);
        let ghost s1 = pad4(src);
        let mut src0_stride: Vec<usize> = Vec::new();
        let mut src1_stride: Vec<usize> = Vec::new();
        let mut i: usize = 0;
        while i < 4
            invariant
                i <= 4,
                s0.len() == 4,
                s1.len() == 4,
                span(s1) * 4 <= usize::MAX,
                src0_l.stride@.len() == 4,
                src1_l.stride@.len() == 4,
                forall|j: int| 0 <= j < 4 ==> #[trigger] src0_l.stride@[j] as nat == dense_stride(s0)[j],
                forall|j: int| 0 <= j < 4 ==> #[trigger] src1_l.stride@[j] as nat == dense_stride(s1)[j],
                src0_stride@.len() == i,
                src1_stride@.len() == i,
                forall|j: int|
                    0 <= j < i ==> #[trigger] src0_stride@[j] == weight_strides(
                        self.model().dtype,
                        s0,
                    )[j],
                forall|j: int| 0 <= j < i ==> #[trigger] src1_stride@[j] == float_strides(s1)[j],
            decreases 4 - i,
        {
            proof {
                crate::arith::lemma_suffix_fits(s1, i + 1);
            }
            src0_stride.push(float_stride_bytes(self.dtype, src0_l.stride[i]));
            src1_stride.push(src1_l.stride[i] * 4);
            i = i + 1;
        }
        assert(src0_stride@ =~= weight_strides(self.model().dtype, s0));
        assert(src1_stride@ =~= float_strides(s1));
        proof {
            crate::arith::lemma_extent_le_span(s0, 0);
            crate::arith::lemma_extent_le_span(s0, 1);
            crate::arith::lemma_extent_le_span(s1, 0);
            crate::arith::lemma_extent_le_span(s1, 1);
            crate::arith::lemma_prefix_fits(s1, 2);
            assert(s1.take(2) =~= seq![s1[0], s1[1]]);
            crate::arith::lemma_span_two(s1[0], s1[1]);
            assert(s1[0] * s1[1] == s1[1] * s1[0]) by (nonlinear_arith);
            assert(s0[0] > 0 && s0[1] > 0);
            assert(span(s1) * 4 <= usize::MAX);
            assert(usize::MAX <= 4 * (i64::MAX + 1));
        }
        match kernels::call_quantized_matmul_mm_t(
            kernels::GgmlDType::from(self.dtype),
            src0_l.dims(),
            src0_stride.as_slice(),
            (Operand::Weights, self.offset),
            src1_l.dims(),
            src1_stride.as_slice(),
            (Operand::Input, src1_l.start_offset * storage.dtype.size_in_bytes()),
            dst_shape.dims(),
            (Operand::Dst, 0),
        ) {
            Ok(launch) => Ok(
                (Plan { launches: vec![launch], device: storage.device, dst_elems }, dst_shape),
            ),
            Err(e) => Err(Error::Metal(e)),
        }
    }
}

/// The tokens that one fused matrix-matrix launch takes: as many as threadgroup memory holds,
/// but at least one and no more than 32. Every expert scans the whole chunk for its tokens, which
/// makes larger chunks slower than more launches.
pub open spec fn chunk_size(max_memory: usize, topk: usize) -> int {
    let fit = kernels::dst_rows_max(max_memory) as int / topk as int;
    if fit < 1 {
        1
    } else {
        min_int(fit, 32)
    }
}

/// The tokens in chunk `i` of a batch cut into chunks of `size`.
pub open spec fn chunk_len(batch: int, size: int, i: int) -> int {
    min_int(size, batch - i * size)
}

/// The bytes between output rows of one expert.
pub open spec fn expert_row_bytes(dtype: GgmlDType, k: usize) -> int {
    k as int / dtype.block_elems() as int * dtype.block_bytes()
}

/// What `indexed_moe_forward` hands back for a batch that is not one token: one fused
/// matrix-matrix launch for each chunk of the batch, or the refusal of the first.
pub open spec fn moe_chunks_outcome(
    r: Result<(Plan, Shape)>,
    s: QView,
    device: MetalDevice,
    enk: (usize, usize, usize),
    bit: (usize, usize, usize),
    input_start: usize,
    ids_start: usize,
) -> bool {
    let (n_experts, n, k) = enk;
    let (batch, in_dim1, topk) = bit;
    let size = chunk_size(device.device.max_threadgroup_memory_length, topk);
    match r {
        Ok((p, shape)) => {
            &&& p.device == device
            &&& shape@ == seq![batch, topk, n]
            &&& p.dst_elems == product(shape@)
            &&& p.launches@.len() == ceil_div(batch as int, size)
            &&& forall|i: int|
                0 <= i < p.launches@.len() ==> kernels::mm_id_outcome(
                    Ok(#[trigger] p.launches@[i]),
                    device.device.max_threadgroup_memory_length,
                    kernel_dtype(s.dtype),
                    enk,
                    (chunk_len(batch as int, size, i) as usize, in_dim1, topk),
                    expert_row_bytes(s.dtype, k) as usize,
                    (expert_row_bytes(s.dtype, k) * n) as usize,
                    (Operand::Weights, s.offset),
                    (
                        Operand::Input,
                        (input_start * 4 + i * size * (in_dim1 * k * 4)) as usize,
                    ),
                    (Operand::Ids, (ids_start * 4 + i * size * (topk * 4)) as usize),
                    (Operand::Dst, (i * size * (topk * n * 4)) as usize),
                )
        },
        Err(Error::Metal(e)) => batch > 0 && kernels::mm_id_outcome(
            Err(e),
            device.device.max_threadgroup_memory_length,
            kernel_dtype(s.dtype),
            enk,
            (chunk_len(batch as int, size, 0) as usize, in_dim1, topk),
            expert_row_bytes(s.dtype, k) as usize,
            (expert_row_bytes(s.dtype, k) * n) as usize,
            (Operand::Weights, s.offset),
            (Operand::Input, (input_start * 4) as usize),
            (Operand::Ids, (ids_start * 4) as usize),
            (Operand::Dst, 0),
        ),
        Err(_) => false,
    }
}

/// Formats that the fused matrix-vector kernels know, and the fused matrix-matrix kernels do not.
pub open spec fn vectors_only(dtype: GgmlDType) -> bool {
    let kind = kernel_dtype(dtype);
    kernels::mm_id_kernel(kind) is None && kernels::mv_id_kernel(kind) is Some
}

/// Whether only the fused matrix-vector kernels know a format.
fn is_vectors_only(dtype: GgmlDType) -> (r: bool)
    ensures
        r == vectors_only(dtype),
{
    match dtype {
        GgmlDType::Q4_0
        | GgmlDType::Q4_1
        | GgmlDType::Q5_0
        | GgmlDType::Q5_1
        | GgmlDType::Q3K => true,
        _ => false,
    }
}

/// What `indexed_moe_forward` hands back for one token, or for a format that only the fused
/// matrix-vector kernels know: one launch of such a kernel, or its refusal.
pub open spec fn moe_vectors_outcome(
    r: Result<(Plan, Shape)>,
    s: QView,
    device: MetalDevice,
    enk: (usize, usize, usize),
    bit: (usize, usize, usize),
    input_start: usize,
    ids_start: usize,
) -> bool {
    let operands = (
        (Operand::Weights, s.offset),
        (Operand::Input, (input_start * 4) as usize),
        (Operand::Ids, (ids_start * 4) as usize),
        (Operand::Dst, 0usize),
    );
    let expert_bytes = (expert_row_bytes(s.dtype, enk.2) * enk.1) as usize;
    match r {
        Ok((p, shape)) => {
            &&& p.device == device
            &&& shape@ == seq![bit.0, bit.2, enk.1]
            &&& p.dst_elems == product(shape@)
            &&& p.launches@.len() == 1
            &&& kernels::mv_id_outcome(
                Ok(p.launches@[0]),
                kernel_dtype(s.dtype),
                enk,
                bit,
                expert_bytes,
                operands.0,
                operands.1,
                operands.2,
                operands.3,
            )
        },
        Err(Error::Metal(e)) => kernels::mv_id_outcome(
            Err(e),
            kernel_dtype(s.dtype),
            enk,
            bit,
            expert_bytes,
            operands.0,
            operands.1,
            operands.2,
            operands.3,
        ),
        Err(_) => false,
    }
}

/// Why `indexed_moe_forward` turns its arguments down, before it looks at how many bytes the
/// experts take.
pub open spec fn moe_args_refusal(
    self_shape: Seq<usize>,
    input_dtype: DType,
    input_l: Layout,
    ids_dtype: DType,
    ids_l: Layout,
) -> Option<Refusal> {
    let input = input_l.shape@;
    let ids = ids_l.shape@;
    if self_shape.len() != 3 {
        Some(Refusal::Rank { expected: 3, got: self_shape.len() as usize })
    } else if !input_l.dense() || !ids_l.dense() {
        Some(Refusal::Says("indexed_moe_forward requires contiguous input and ids"@))
    } else if input_dtype != DType::F32 {
        Some(
            Refusal::Says("indexed_moe_forward expects f32 input, got "@ + input_dtype.label()),
        )
    } else if ids_dtype != DType::U32 {
        Some(Refusal::Says("indexed_moe_forward expects u32 ids, got "@ + ids_dtype.label()))
    } else if input.len() != 3 {
        Some(Refusal::Rank { expected: 3, got: input.len() as usize })
    } else if ids.len() != 2 {
        Some(Refusal::Rank { expected: 2, got: ids.len() as usize })
    } else if input[2] != self_shape[2] {
        Some(
            Refusal::Says(
                "indexed_moe_forward input k "@ + decimal_text(input[2] as nat) + " != weight k "@
                    + decimal_text(self_shape[2] as nat),
            ),
        )
    } else if ids[0] != input[0] {
        Some(
            Refusal::Says(
                "indexed_moe_forward batch mismatch: input "@ + decimal_text(input[0] as nat)
                    + ", ids "@ + decimal_text(ids[0] as nat),
            ),
        )
    } else if input[1] != 1 && input[1] != ids[1] {
        Some(
            Refusal::Says(
                "indexed_moe_forward input dim1 "@ + decimal_text(input[1] as nat)
                    + " must be 1 or topk "@ + decimal_text(ids[1] as nat),
            ),
        )
    } else {
        None
    }
}

/// Why `indexed_moe_forward` turns its arguments down: the first thing that does not fit.
pub open spec fn moe_refusal(
    s: QView,
    self_shape: Seq<usize>,
    input_dtype: DType,
    input_l: Layout,
    ids_dtype: DType,
    ids_l: Layout,
) -> Option<Refusal> {
    let expert_bytes = expert_row_bytes(s.dtype, self_shape[2]) * self_shape[1];
    first_of(
        moe_args_refusal(self_shape, input_dtype, input_l, ids_dtype, ids_l),
        if expert_bytes * self_shape[0] != s.size {
            Some(
                Refusal::Says(
                    "indexed_moe_forward: "@ + decimal_text(self_shape[0] as nat) + " experts of "@
                        + decimal_text(expert_bytes as nat) + " bytes do not fill this tensor's "@
                        + decimal_text(s.size as nat) + " bytes"@,
                ),
            )
        } else {
            None
        },
    )
}

/// What `indexed_moe_forward` hands back.
pub open spec fn moe_outcome(
    r: Result<(Plan, Shape)>,
    s: QView,
    self_shape: Seq<usize>,
    device: MetalDevice,
    input_dtype: DType,
    input_l: Layout,
    ids_dtype: DType,
    ids_l: Layout,
) -> bool {
    match moe_refusal(s, self_shape, input_dtype, input_l, ids_dtype, ids_l) {
        Some(why) => r matches Err(e) && why.is(e),
        None => {
            let (n_experts, n, k) = (self_shape[0], self_shape[1], self_shape[2]);
            let (batch, in_dim1, topk) = (input_l.shape@[0], input_l.shape@[1], ids_l.shape@[1]);
            if batch == 1 || (batch > 1 && vectors_only(s.dtype)) {
                moe_vectors_outcome(
                    r,
                    s,
                    device,
                    (n_experts, n, k),
                    (batch, in_dim1, topk),
                    input_l.start_offset,
                    ids_l.start_offset,
                )
            } else {
                moe_chunks_outcome(
                    r,
                    s,
                    device,
                    (n_experts, n, k),
                    (batch, in_dim1, topk),
                    input_l.start_offset,
                    ids_l.start_offset,
                )
            }
        },
    }
}

/// The chunks of a batch lie one behind the other, none is empty, and together they are the
/// batch: each token is in exactly one chunk.
pub proof fn law_chunks_partition_batch(batch: int, size: int, token: int)
    requires
        0 <= token < batch,
        size > 0,
    ensures
        0 <= token / size < ceil_div(batch, size),
        (token / size) * size <= token < (token / size) * size + chunk_len(
            batch,
            size,
            token / size,
        ),
        forall|i: int|
            0 <= i < ceil_div(batch, size) && i * size <= token < i * size + #[trigger] chunk_len(
                batch,
                size,
                i,
            ) ==> i == token / size,
        forall|i: int|
            0 <= i < ceil_div(batch, size) ==> 0 < #[trigger] chunk_len(batch, size, i) <= size,
{
    let j = token / size;
    vstd::arithmetic::div_mod::lemma_fundamental_div_mod(token, size);
    vstd::arithmetic::div_mod::lemma_mod_bound(token, size);
    assert(size * j == j * size) by (nonlinear_arith);
    assert(j >= 0) by (nonlinear_arith)
        requires
            j == token / size,
            token >= 0,
            size > 0,
    ;
    crate::arith::lemma_ceil_div_covers(batch, size);
    let c = ceil_div(batch, size);
    assert(j < c) by (nonlinear_arith)
        requires
            j * size <= token,
            token < batch,
            batch <= c * size,
            size > 0,
    ;
    assert forall|i: int|
        0 <= i < c && i * size <= token < i * size + #[trigger] chunk_len(
            batch,
            size,
            i,
        ) implies i == j by {
        assert(i == j) by (nonlinear_arith)
            requires
                i * size <= token < i * size + size,
                j * size <= token < j * size + size,
                size > 0,
        ;
    }
    assert forall|i: int| 0 <= i < c implies 0 < #[trigger] chunk_len(batch, size, i)
        <= size by {
        assert(i * size <= (c - 1) * size) by (nonlinear_arith)
            requires
                i <= c - 1,
                size > 0,
        ;
    }
}

/// Where threadgroup memory holds the rows of one token, it holds those of every chunk: the
/// launch that a chunk is cut for never refuses it for its size.
pub proof fn law_chunks_fit_memory(max_memory: usize, topk: usize, batch: int, i: int)
    requires
        0 < topk <= kernels::dst_rows_max(max_memory),
    ensures
        topk * chunk_len(batch, chunk_size(max_memory, topk), i) <= kernels::dst_rows_max(
            max_memory,
        ),
{
    let rows = kernels::dst_rows_max(max_memory) as int;
    let t = topk as int;
    let size = chunk_size(max_memory, topk);
    vstd::arithmetic::div_mod::lemma_fundamental_div_mod(rows, t);
    vstd::arithmetic::div_mod::lemma_mod_bound(rows, t);
    assert(rows / t >= 1) by (nonlinear_arith)
        requires
            rows >= t,
            t > 0,
    ;
    assert(t * size <= rows) by (nonlinear_arith)
        requires
            size <= rows / t,
            rows == t * (rows / t) + rows % t,
            rows % t >= 0,
            t > 0,
    ;
    let c = chunk_len(batch, size, i);
    assert(t * c <= t * size) by (nonlinear_arith)
        requires
            c <= size,
            t > 0,
    ;
}

/// A range of storage holds that range of its bytes.
pub proof fn law_view_is_a_range(s: QView, offset: usize, size: usize)
    requires
        s.wf(),
        viewable(s, offset, size),
    ensures
        viewed(s, offset, size).wf(),
        viewed(s, offset, size).data() == s.data().subrange(offset as int, offset + size),
{
    assert(viewed(s, offset, size).data() =~= s.data().subrange(offset as int, offset + size));
}

/// A range of a range is a range of the whole, which can be had directly too.
pub proof fn law_views_compose(
    s: QView,
    offset1: usize,
    size1: usize,
    offset2: usize,
    size2: usize,
)
    requires
        s.wf(),
        viewable(s, offset1, size1),
        viewable(viewed(s, offset1, size1), offset2, size2),
    ensures
        viewable(s, (offset1 + offset2) as usize, size2),
        viewed(viewed(s, offset1, size1), offset2, size2) == viewed(
            s,
            (offset1 + offset2) as usize,
            size2,
        ),
{
    let b = s.dtype.block_bytes() as int;
    assert(b > 0);
    let sum = offset1 + offset2;
    assert(sum <= usize::MAX);
    vstd::arithmetic::div_mod::lemma_add_mod_noop(offset1 as int, offset2 as int, b);
    vstd::arithmetic::div_mod::lemma_small_mod(0, b as nat);
    assert(sum % b == 0);
    assert(sum % 256 == 0);
    assert((sum as usize) as int == sum);
}

/// A range of storage is never replaced, wherever it starts: the storage that it is a range of
/// keeps its bytes.
pub proof fn law_views_are_never_replaced(
    s: QView,
    offset: usize,
    size: usize,
    after: QView,
    data: Seq<u8>,
    r: Result<()>,
)
    requires
        s.wf(),
        viewable(s, offset, size),
        replaced(viewed(s, offset, size), after, data, r),
    ensures
        r is Err,
        after == viewed(s, offset, size),
        after.buffer == s.buffer,
{
}

/// Where `indexed_moe_forward` gets as far as that, the bytes of the experts can be counted; where
/// nothing is turned down, all operands can be addressed in bytes, and tokens of a prompt have
/// experts.
pub open spec fn moe_addressable(
    s: QView,
    self_shape: Seq<usize>,
    input_dtype: DType,
    input_l: Layout,
    ids_dtype: DType,
    ids_l: Layout,
) -> bool {
    let input = input_l.shape@;
    let ids = ids_l.shape@;
    &&& moe_args_refusal(self_shape, input_dtype, input_l, ids_dtype, ids_l) is None ==> {
        &&& expert_row_bytes(s.dtype, self_shape[2]) <= usize::MAX
        &&& expert_row_bytes(s.dtype, self_shape[2]) * self_shape[1] <= usize::MAX
        &&& expert_row_bytes(s.dtype, self_shape[2]) * self_shape[1] * self_shape[0] <= usize::MAX
    }
    &&& moe_refusal(s, self_shape, input_dtype, input_l, ids_dtype, ids_l) is None ==> {
        &&& (input_l.start_offset + span(input)) * 4 <= usize::MAX
        &&& (ids_l.start_offset + span(ids)) * 4 <= usize::MAX
        &&& span(seq![input[0], ids[1], self_shape[1]]) * 4 <= usize::MAX
        &&& input[0] != 1 ==> ids[1] > 0
    }
}

/// What the tokens from `done` on take in the three buffers is within their bytes.
pub proof fn lemma_moe_offsets(
    batch: int,
    done: int,
    in_dim1: int,
    k: int,
    topk: int,
    n: int,
    input_span: int,
    ids_span: int,
    dst_span: int,
)
    requires
        0 <= done <= batch,
        0 <= in_dim1,
        0 <= k,
        0 <= topk,
        0 <= n,
        batch * (in_dim1 * k) <= input_span,
        batch * topk <= ids_span,
        batch * (topk * n) <= dst_span,
    ensures
        0 <= done * (in_dim1 * k * 4) <= input_span * 4,
        0 <= done * (topk * 4) <= ids_span * 4,
        0 <= done * (topk * n * 4) <= dst_span * 4,
{
    let a = in_dim1 * k;
    let b = topk * n;
    assert(0 <= a) by (nonlinear_arith)
        requires
            a == in_dim1 * k,
            0 <= in_dim1,
            0 <= k,
    ;
    assert(0 <= b) by (nonlinear_arith)
        requires
            b == topk * n,
            0 <= topk,
            0 <= n,
    ;
    assert(0 <= done * (a * 4) <= (batch * a) * 4) by (nonlinear_arith)
        requires
            0 <= done <= batch,
            0 <= a,
    ;
    assert(0 <= done * (topk * 4) <= (batch * topk) * 4) by (nonlinear_arith)
        requires
            0 <= done <= batch,
            0 <= topk,
    ;
    assert(0 <= done * (b * 4) <= (batch * b) * 4) by (nonlinear_arith)
        requires
            0 <= done <= batch,
            0 <= b,
    ;
}

impl QMetalStorage {
    /// Fused mixture-of-experts product with these stacked weights, `[n_experts, n, k]`.
    ///
    /// - `input` is `[batch, in_dim1, k]` floats. With an `in_dim1` of one, each token is
    ///   multiplied with every one of its experts; otherwise it is `topk`, one row per expert.
    /// - `ids` is `[batch, topk]`, the experts of each token.
    /// - The result is `[batch, topk, n]` floats.
    ///
    /// The format is that of this very tensor: in one model, the tensors of some layers can have
    /// another format than those of the rest. One token is multiplied by a matrix-vector kernel
    /// and a prompt by matrix-matrix kernels, chunk by chunk; where a format has no matrix-matrix
    /// kernel, the matrix-vector kernel takes the prompt too.
    pub fn indexed_moe_forward(
        &self,
        self_shape: &Shape,
        input: &MetalStorage,
        input_l: &Layout,
        ids: &MetalStorage,
        ids_l: &Layout,
    ) -> (r: Result<(Plan, Shape)>)
        requires
            self.model().wf(),
            self_shape.wf(),
            input_l.wf(),
            ids_l.wf(),
            moe_addressable(
                self.model(),
                self_shape@,
                input.dtype,
                *input_l,
                ids.dtype,
                *ids_l,
            ),
        ensures
            moe_outcome(
                r,
                self.model(),
                self_shape@,
                input.device,
                input.dtype,
                *input_l,
                ids.dtype,
                *ids_l,
            ),
    {
        let (n_experts, n, k) = match self_shape.dims3() {
            Ok(enk) => enk,
            Err(e) => {
                return Err(e);
            },
        };
        if !input_l.is_contiguous() || !ids_l.is_contiguous() {
            return Err(
                Error::Msg("indexed_moe_forward requires contiguous input and ids".to_owned()),
            );
        }
        if input.dtype != DType::F32 {
            let mut text: String = "indexed_moe_forward expects f32 input, got ".to_owned();
            text.append(input.dtype.name());
            return Err(Error::Msg(text));
        }
        if ids.dtype != DType::U32 {
            let mut text: String = "indexed_moe_forward expects u32 ids, got ".to_owned();
            text.append(ids.dtype.name());
            return Err(Error::Msg(text));
        }
        let (batch, in_dim1, in_k) = match input_l.shape.dims3() {
            Ok(dims) => dims,
            Err(e) => {
                return Err(e);
            },
        };
        let (ids_batch, topk) = match ids_l.shape.dims2() {
            Ok(dims) => dims,
            Err(e) => {
                return Err(e);
            },
        };
        if in_k != k {
            let mut text: String = "indexed_moe_forward input k ".to_owned();
            push_decimal(&mut text, in_k);
            text.append(" != weight k ");
            push_decimal(&mut text, k);
            return Err(Error::Msg(text));
        }
        if ids_batch != batch {
            let mut text: String = "indexed_moe_forward batch mismatch: input ".to_owned();
            push_decimal(&mut text, batch);
            text.append(", ids ");
            push_decimal(&mut text, ids_batch);
            return Err(Error::Msg(text));
        }
        if in_dim1 != 1 && in_dim1 != topk {
            let mut text: String = "indexed_moe_forward input dim1 ".to_owned();
            push_decimal(&mut text, in_dim1);
            text.append(" must be 1 or topk ");
            push_decimal(&mut text, topk);
            return Err(Error::Msg(text));
        }
        // The division comes first: it is exact, because a row is a whole number of blocks.
        let row_stride_bytes: usize = k / self.dtype.block_size() * self.dtype.type_size();
        let expert_stride_bytes: usize = row_stride_bytes * n;
        if expert_stride_bytes * n_experts != self.size {
            let mut text: String = "indexed_moe_forward: ".to_owned();
            push_decimal(&mut text, n_experts);
            text.append(" experts of ");
            push_decimal(&mut text, expert_stride_bytes);
            text.append(" bytes do not fill this tensor's ");
            push_decimal(&mut text, self.size);
            text.append(" bytes");
            return Err(Error::Msg(text));
        }
        let dst_shape: Shape = Shape { dims: vec![batch, topk, n] };
        assert(dst_shape@ =~= seq![batch, topk, n]);
        let dst_elems: usize = dst_shape.elem_count();
        let input_base: usize = input_l.start_offset * 4;
        let ids_base: usize = ids_l.start_offset * 4;
        let dtype: kernels::GgmlDType = kernels::GgmlDType::from(self.dtype);
        proof {
            crate::arith::lemma_span_three(batch, in_dim1, k);
            crate::arith::lemma_span_two(batch, topk);
            crate::arith::lemma_span_three(batch, topk, n);
        }
        if batch == 1 || (batch > 1 && is_vectors_only(self.dtype)) {
            // One launch, with threadgroups for every token and slot.
            return match kernels::call_quantized_matmul_mv_id(
                dtype,
                (n_experts, n, k),
                (batch, in_dim1, topk),
                expert_stride_bytes,
                (Operand::Weights, self.offset),
                (Operand::Input, input_base),
                (Operand::Ids, ids_base),
                (Operand::Dst, 0),
            ) {
                Ok(launch) => Ok(
                    (Plan { launches: vec![launch], device: input.device, dst_elems }, dst_shape),
                ),
                Err(e) => Err(Error::Metal(e)),
            };
        }
        // A whole prompt: in chunks whose rows fit in threadgroup memory.
        let device: MetalDevice = input.device;
        let offset: usize = self.offset;
        let rows_max: usize = kernels::mul_mm_id_dst_rows_max(&device.device);
        let fit: usize = rows_max / topk;
        let size: usize = if fit < 1 {
            1
        } else if fit > 32 {
            32
        } else {
            fit
        };
        let in_row_bytes: usize = in_dim1 * k * 4;
        let ids_row_bytes: usize = topk * 4;
        let dst_row_bytes: usize = {
            proof {
                crate::arith::lemma_suffix_fits(dst_shape@, 1);
                assert(dst_shape@.skip(1) =~= seq![topk, n]);
                crate::arith::lemma_span_two(topk, n);
            }
            topk * n * 4
        };
        let mut launches: Vec<Launch<'static, Operand>> = Vec::new();
        let mut done: usize = 0;
        let ghost max_memory = device.device.max_threadgroup_memory_length;
        let ghost input_span = span(input_l.shape@) as int;
        let ghost ids_span = span(ids_l.shape@) as int;
        let ghost dst_span = span(dst_shape@) as int;
        assert(ceil_div(0, size as int) == 0) by {
            crate::arith::lemma_ceil_div(0, size as int);
        }
        while done < batch
            invariant
                done <= batch,
                self_shape@ == seq![n_experts, n, k],
                input_l.shape@ == seq![batch, in_dim1, k],
                ids_l.shape@ == seq![batch, topk],
                input_l.dense(),
                ids_l.dense(),
                input.dtype == DType::F32,
                ids.dtype == DType::U32,
                in_dim1 == 1 || in_dim1 == topk,
                expert_stride_bytes * n_experts == self.model().size,
                device == input.device,
                1 <= size <= 32,
                size == chunk_size(max_memory, topk),
                device.device.max_threadgroup_memory_length == max_memory,
                done == min_int(launches@.len() * size, batch as int),
                launches@.len() == ceil_div(done as int, size as int),
                input_base == input_l.start_offset * 4,
                ids_base == ids_l.start_offset * 4,
                in_row_bytes == in_dim1 * k * 4,
                ids_row_bytes == topk * 4,
                dst_row_bytes == topk * n * 4,
                (input_l.start_offset + input_span) * 4 <= usize::MAX,
                (ids_l.start_offset + ids_span) * 4 <= usize::MAX,
                dst_span * 4 <= usize::MAX,
                batch * (in_dim1 * k) <= input_span,
                batch * topk <= ids_span,
                batch * (topk * n) <= dst_span,
                k <= input_span,
                in_dim1 * k <= input_span,
                topk <= ids_span,
                topk > 0,
                batch != 1,
                !(batch > 1 && vectors_only(self.model().dtype)),
                row_stride_bytes == expert_row_bytes(self.model().dtype, k),
                expert_stride_bytes == row_stride_bytes * n,
                dtype == kernel_dtype(self.model().dtype),
                offset == self.model().offset,
                forall|i: int|
                    0 <= i < launches@.len() ==> kernels::mm_id_outcome(
                        Ok(#[trigger] launches@[i]),
                        max_memory,
                        dtype,
                        (n_experts, n, k),
                        (
                            chunk_len(batch as int, size as int, i) as usize,
                            in_dim1,
                            topk,
                        ),
                        row_stride_bytes,
                        expert_stride_bytes,
                        (Operand::Weights, offset),
                        (
                            Operand::Input,
                            (input_l.start_offset * 4 + i * size * (in_dim1 * k * 4)) as usize,
                        ),
                        (
                            Operand::Ids,
                            (ids_l.start_offset * 4 + i * size * (topk * 4)) as usize,
                        ),
                        (Operand::Dst, (i * size * (topk * n * 4)) as usize),
                    ),
            decreases batch - done,
        {
            let chunk: usize = if batch - done < size {
                batch - done
            } else {
                size
            };
            let ghost i = launches@.len() as int;
            proof {
                assert(done == i * size);
                assert(chunk == chunk_len(batch as int, size as int, i));
                lemma_moe_offsets(
                    batch as int,
                    done as int,
                    in_dim1 as int,
                    k as int,
                    topk as int,
                    n as int,
                    input_span,
                    ids_span,
                    dst_span,
                );
                assert(topk * chunk <= batch * topk) by (nonlinear_arith)
                    requires
                        chunk <= batch,
                        topk >= 0,
                ;
                lemma_chunk_count(batch as int, size as int, i, done as int, chunk as int);
            }
            let launch = kernels::call_quantized_matmul_mm_id(
                &device.device,
                dtype,
                (n_experts, n, k),
                (chunk, in_dim1, topk),
                row_stride_bytes,
                expert_stride_bytes,
                (Operand::Weights, offset),
                (Operand::Input, input_base + done * in_row_bytes),
                (Operand::Ids, ids_base + done * ids_row_bytes),
                (Operand::Dst, done * dst_row_bytes),
            );
            match launch {
                Ok(launch) => {
                    launches.push(launch);
                },
                Err(e) => {
                    proof {
                        if i > 0 {
                            let first = chunk_len(batch as int, size as int, 0);
                            assert(kernels::mm_id_outcome(
                                Ok(launches@[0]),
                                max_memory,
                                dtype,
                                (n_experts, n, k),
                                (first as usize, in_dim1, topk),
                                row_stride_bytes,
                                expert_stride_bytes,
                                (Operand::Weights, offset),
                                (
                                    Operand::Input,
                                    (input_l.start_offset * 4 + 0int * size * (in_dim1 * k
                                        * 4)) as usize,
                                ),
                                (
                                    Operand::Ids,
                                    (ids_l.start_offset * 4 + 0int * size * (topk * 4)) as usize,
                                ),
                                (Operand::Dst, (0int * size * (topk * n * 4)) as usize),
                            ));
                            assert(topk * chunk <= topk * first) by (nonlinear_arith)
                                requires
                                    chunk <= first,
                                    topk >= 0,
                            ;
                            assert(false);
                        }
                        assert(done == 0);
                        assert(done * in_row_bytes == 0 && done * ids_row_bytes == 0 && done
                            * dst_row_bytes == 0) by (nonlinear_arith)
                            requires
                                done == 0,
                        ;
                    }
                    return Err(Error::Metal(e));
                },
            }
            done = done + chunk;
        }
        Ok((Plan { launches, device, dst_elems }, dst_shape))
    }
}

/// One more chunk covers the next tokens of the batch.
proof fn lemma_chunk_count(batch: int, size: int, i: int, done: int, chunk: int)
    requires
        size > 0,
        i >= 0,
        done == i * size,
        done < batch,
        chunk == chunk_len(batch, size, i),
    ensures
        done + chunk == min_int((i + 1) * size, batch),
        ceil_div(done + chunk, size) == i + 1,
{
    assert((i + 1) * size == i * size + size) by (nonlinear_arith);
    let d = done + chunk;
    crate::arith::lemma_ceil_div_covers(d, size);
    let c = ceil_div(d, size);
    assert(c == i + 1) by (nonlinear_arith)
        requires
            d <= c * size,
            (c - 1) * size < d,
            i * size < d <= (i + 1) * size,
            size > 0,
    ;
}

/// The last place of a 32-bit float near `v` leaves it 24 bits, and all of them where there are more.
proof fn lemma_last_place(v: nat)
    ensures
        ulp(v) >= 1,
        v / ulp(v) < 0x100_0000,
        v < 0x100_0000 ==> ulp(v) == 1,
        v >= 0x100_0000 ==> v / ulp(v) >= 0x80_0000 && ulp(v) % 2 == 0,
    decreases v,
{
    if v >= 0x100_0000 {
        lemma_last_place(v / 2);
        let u = ulp(v / 2);
        vstd::arithmetic::div_mod::lemma_div_denominator(v as int, 2, u as int);
        assert(2 * u == u * 2) by (nonlinear_arith);
        if v / 2 < 0x100_0000 {
            assert(u == 1);
        }
    } else {
        assert(v / 1 == v);
    }
}

/// A number is rounded as 32-bit floats are: to a multiple of its last place, by which it has 24 bits
/// at most, to the nearest one, and of two that are as near to the even one. Numbers of 24 bits are not
/// changed.
pub proof fn law_rounding_is_to_nearest_even(v: nat)
    ensures
        ulp(v) >= 1,
        v / ulp(v) < 0x100_0000,
        v >= 0x100_0000 ==> v / ulp(v) >= 0x80_0000,
        v < 0x100_0000 ==> rounded(v) == v,
        rounded(v) % ulp(v) == 0,
        2 * (rounded(v) - v) <= ulp(v),
        2 * (v - rounded(v)) <= ulp(v),
        2 * (rounded(v) - v) == ulp(v) || 2 * (v - rounded(v)) == ulp(v) ==> (rounded(v) / ulp(v))
            % 2 == 0,
{
    lemma_last_place(v);
    let (n, u) = (v as int, ulp(v) as int);
    let q = n / u;
    let rest = n % u;
    vstd::arithmetic::div_mod::lemma_fundamental_div_mod(n, u);
    vstd::arithmetic::div_mod::lemma_mod_bound(n, u);
    assert(u * q == q * u && (q + 1) * u == q * u + u) by (nonlinear_arith);
    crate::arith::lemma_index_split(q, 0, u);
    crate::arith::lemma_index_split(q + 1, 0, u);
    if u == 1 {
        assert(n / 1 == n && n % 1 == 0);
    }
}

} // verus!
