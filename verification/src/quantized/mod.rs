//! Quantized storage.

use vstd::prelude::*;

pub mod dummy_metal;
pub mod float;
pub mod metal;
pub mod plans;

verus! {

/// The formats of quantized tensors. Elements come in blocks, which are never split.
#[derive(Debug, Clone, Copy, PartialEq, Eq, Structural)]
pub enum GgmlDType {
    F32,
    F16,
    BF16,
    Q4_0,
    Q4_1,
    Q5_0,
    Q5_1,
    Q8_0,
    Q8_1,
    Q2K,
    Q3K,
    Q4K,
    Q5K,
    Q6K,
    Q8K,
}

impl GgmlDType {
    /// Bytes of one block.
    pub open spec fn block_bytes(self) -> nat {
        match self {
            GgmlDType::F32 => 4,
            GgmlDType::F16 => 2,
            GgmlDType::BF16 => 2,
            GgmlDType::Q4_0 => 18,
            GgmlDType::Q4_1 => 20,
            GgmlDType::Q5_0 => 22,
            GgmlDType::Q5_1 => 24,
            GgmlDType::Q8_0 => 34,
            GgmlDType::Q8_1 => 36,
            GgmlDType::Q2K => 84,
            GgmlDType::Q3K => 110,
            GgmlDType::Q4K => 144,
            GgmlDType::Q5K => 176,
            GgmlDType::Q6K => 210,
            GgmlDType::Q8K => 292,
        }
    }

    /// Elements of one block.
    pub open spec fn block_elems(self) -> nat {
        match self {
            GgmlDType::F32 | GgmlDType::F16 | GgmlDType::BF16 => 1,
            GgmlDType::Q4_0
            | GgmlDType::Q4_1
            | GgmlDType::Q5_0
            | GgmlDType::Q5_1
            | GgmlDType::Q8_0
            | GgmlDType::Q8_1 => 32,
            GgmlDType::Q2K
            | GgmlDType::Q3K
            | GgmlDType::Q4K
            | GgmlDType::Q5K
            | GgmlDType::Q6K
            | GgmlDType::Q8K => 256,
        }
    }

    /// The name of the format.
    pub open spec fn label(self) -> Seq<char> {
        crate::kernels::quantized::label(crate::quantized::metal::kernel_dtype(self))
    }

    /// Bytes of one block.
    pub fn type_size(&self) -> (r: usize)
        ensures
            r == self.block_bytes(),
            2 <= r <= 292,
    {
        match self {
            GgmlDType::F32 => 4,
            GgmlDType::F16 | GgmlDType::BF16 => 2,
            GgmlDType::Q4_0 => 18,
            GgmlDType::Q4_1 => 20,
            GgmlDType::Q5_0 => 22,
            GgmlDType::Q5_1 => 24,
            GgmlDType::Q8_0 => 34,
            GgmlDType::Q8_1 => 36,
            GgmlDType::Q2K => 84,
            GgmlDType::Q3K => 110,
            GgmlDType::Q4K => 144,
            GgmlDType::Q5K => 176,
            GgmlDType::Q6K => 210,
            GgmlDType::Q8K => 292,
        }
    }

    /// Elements of one block.
    pub fn block_size(&self) -> (r: usize)
        ensures
            r == self.block_elems(),
            1 <= r <= 256,
    {
        match self {
            GgmlDType::F32 | GgmlDType::F16 | GgmlDType::BF16 => 1,
            GgmlDType::Q4_0
            | GgmlDType::Q4_1
            | GgmlDType::Q5_0
            | GgmlDType::Q5_1
            | GgmlDType::Q8_0
            | GgmlDType::Q8_1 => 32,
            GgmlDType::Q2K
            | GgmlDType::Q3K
            | GgmlDType::Q4K
            | GgmlDType::Q5K
            | GgmlDType::Q6K
            | GgmlDType::Q8K => 256,
        }
    }

    /// The name of the format.
    pub fn name(&self) -> (r: &'static str)
        ensures
            r@ == self.label(),
    {
        crate::kernels::quantized::dtype_label(crate::kernels::quantized::GgmlDType::from(*self))
    }
}

/// The bits that one weight takes in its block, by which quantized formats are named.
pub open spec fn weight_bits(dtype: GgmlDType) -> nat {
    match dtype {
        GgmlDType::F32 => 32,
        GgmlDType::F16 | GgmlDType::BF16 => 16,
        GgmlDType::Q8_0 | GgmlDType::Q8_1 | GgmlDType::Q8K => 8,
        GgmlDType::Q6K => 6,
        GgmlDType::Q5_0 | GgmlDType::Q5_1 | GgmlDType::Q5K => 5,
        GgmlDType::Q4_0 | GgmlDType::Q4_1 | GgmlDType::Q4K => 4,
        GgmlDType::Q3K => 3,
        GgmlDType::Q2K => 2,
    }
}

/// The bytes of scales, offsets and sums in a block.
pub open spec fn scale_bytes(dtype: GgmlDType) -> nat {
    match dtype {
        GgmlDType::F32 | GgmlDType::F16 | GgmlDType::BF16 => 0,
        // One half float.
        GgmlDType::Q4_0 | GgmlDType::Q5_0 | GgmlDType::Q8_0 => 2,
        // Two half floats.
        GgmlDType::Q4_1 | GgmlDType::Q5_1 | GgmlDType::Q8_1 => 4,
        // Sixteen scales of four bits with as many offsets, and two half floats.
        GgmlDType::Q2K => 16 + 4,
        // Sixteen scales of six bits, and one half float.
        GgmlDType::Q3K => 12 + 2,
        // Eight scales and eight offsets of six bits, and two half floats.
        GgmlDType::Q4K | GgmlDType::Q5K => 12 + 4,
        // Sixteen scales of eight bits, and one half float.
        GgmlDType::Q6K => 16 + 2,
        // One float, and sixteen sums of sixteen bits.
        GgmlDType::Q8K => 4 + 32,
    }
}

/// A block takes the bits of its weights, and its scales. Blocks are of single floats, of 32 weights,
/// or of 256 for the formats of two levels.
pub proof fn law_blocks_hold_their_weights(dtype: GgmlDType)
    ensures
        dtype.block_bytes() * 8 == dtype.block_elems() * weight_bits(dtype) + scale_bytes(dtype)
            * 8,
        dtype.block_elems() == 1 <==> dtype is F32 || dtype is F16 || dtype is BF16,
        dtype.block_elems() == 32 <==> dtype is Q4_0 || dtype is Q4_1 || dtype is Q5_0
            || dtype is Q5_1 || dtype is Q8_0 || dtype is Q8_1,
        dtype.block_elems() == 256 <==> dtype is Q2K || dtype is Q3K || dtype is Q4K || dtype is Q5K
            || dtype is Q6K || dtype is Q8K,
{
}

/// The name of a quantized format says how its blocks are made: the bits of a weight behind the first
/// letter, and at the end whether a block has one scale, a scale and an offset, or two levels of them.
pub proof fn law_names_describe_blocks(dtype: GgmlDType)
    ensures
        dtype.block_elems() > 1 <==> dtype.label()[0] == 'Q',
        dtype.label()[0] == 'Q' ==> dtype.label()[1] as int - '0' as int == weight_bits(dtype),
        dtype.label()[0] == 'Q' ==> (dtype.label().last() == 'K' <==> dtype.block_elems() == 256),
        dtype.block_elems() == 32 ==> (dtype.label().last() == '0' <==> scale_bytes(dtype) == 2),
        dtype.block_elems() == 32 ==> (dtype.label().last() == '1' <==> scale_bytes(dtype) == 4),
        dtype is F32 <==> dtype.label() == "F32"@,
        dtype is F16 <==> dtype.label() == "F16"@,
        dtype is BF16 <==> dtype.label() == "BF16"@,
{
    reveal_strlit("Q4_0");
    reveal_strlit("Q4_1");
    reveal_strlit("Q5_0");
    reveal_strlit("Q5_1");
    reveal_strlit("Q8_0");
    reveal_strlit("Q8_1");
    reveal_strlit("Q2K");
    reveal_strlit("Q3K");
    reveal_strlit("Q4K");
    reveal_strlit("Q5K");
    reveal_strlit("Q6K");
    reveal_strlit("Q8K");
    reveal_strlit("F16");
    reveal_strlit("F32");
    reveal_strlit("BF16");
    let (a, b, c) = ("F32"@, "F16"@, "BF16"@);
    assert(a[1] != b[1] && a.len() != c.len());
    assert(dtype.label().len() == 3 || dtype.label().len() == 4);
    assert(dtype.label()[0] == 'Q' || dtype.label() == a || dtype.label() == b || dtype.label()
        == c);
}

} // verus!
