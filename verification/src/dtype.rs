//! Element types of plain (unquantized) tensors.

use crate::text::read_digits;
use vstd::prelude::*;

verus! {

/// The element type of a tensor.
#[derive(Debug, Clone, Copy, PartialEq, Eq, Structural)]
pub enum DType {
    U8,
    U32,
    I64,
    BF16,
    F16,
    F32,
    F64,
}

impl DType {
    /// Bytes of one element.
    pub open spec fn bytes(self) -> nat {
        match self {
            DType::U8 => 1,
            DType::BF16 => 2,
            DType::F16 => 2,
            DType::U32 => 4,
            DType::F32 => 4,
            DType::I64 => 8,
            DType::F64 => 8,
        }
    }

    /// The name of the type.
    pub open spec fn label(self) -> Seq<char> {
        match self {
            DType::U8 => "U8"@,
            DType::U32 => "U32"@,
            DType::I64 => "I64"@,
            DType::BF16 => "BF16"@,
            DType::F16 => "F16"@,
            DType::F32 => "F32"@,
            DType::F64 => "F64"@,
        }
    }

    /// The name of the type.
    pub fn name(&self) -> (r: &'static str)
        ensures
            r@ == self.label(),
    {
        match self {
            DType::U8 => "U8",
            DType::U32 => "U32",
            DType::I64 => "I64",
            DType::BF16 => "BF16",
            DType::F16 => "F16",
            DType::F32 => "F32",
            DType::F64 => "F64",
        }
    }

    /// Bytes of one element.
    pub fn size_in_bytes(&self) -> (r: usize)
        ensures
            r == self.bytes(),
    {
        match self {
            DType::U8 => 1,
            DType::BF16 | DType::F16 => 2,
            DType::U32 | DType::F32 => 4,
            DType::I64 | DType::F64 => 8,
        }
    }
}

/// The name of an element type says what it is: letters for the kind, and behind them its bits.
pub proof fn law_names_say_the_bits(dtype: DType)
    ensures
        ({
            let name = dtype.label();
            let letters = if dtype == DType::BF16 {
                2int
            } else {
                1int
            };
            &&& read_digits(name.skip(letters)) == 8 * dtype.bytes()
            &&& name[0] == 'U' <==> dtype == DType::U8 || dtype == DType::U32
            &&& name[0] == 'I' <==> dtype == DType::I64
            &&& name[0] == 'B' <==> dtype == DType::BF16
            &&& name[0] == 'F' <==> dtype == DType::F16 || dtype == DType::F32 || dtype
                == DType::F64
        }),
{
    reveal_strlit("U8");
    reveal_strlit("U32");
    reveal_strlit("I64");
    reveal_strlit("BF16");
    reveal_strlit("F16");
    reveal_strlit("F32");
    reveal_strlit("F64");
    reveal_with_fuel(read_digits, 3);
    let name = dtype.label();
    match dtype {
        DType::U8 => {
            assert(name.skip(1) =~= seq!['8']);
            assert(name.skip(1).drop_last() =~= Seq::<char>::empty());
        },
        DType::U32 | DType::F32 => {
            assert(name.skip(1) =~= seq!['3', '2']);
            assert(name.skip(1).drop_last() =~= seq!['3']);
            assert(seq!['3'].drop_last() =~= Seq::<char>::empty());
        },
        DType::I64 | DType::F64 => {
            assert(name.skip(1) =~= seq!['6', '4']);
            assert(name.skip(1).drop_last() =~= seq!['6']);
            assert(seq!['6'].drop_last() =~= Seq::<char>::empty());
        },
        DType::F16 => {
            assert(name.skip(1) =~= seq!['1', '6']);
            assert(name.skip(1).drop_last() =~= seq!['1']);
            assert(seq!['1'].drop_last() =~= Seq::<char>::empty());
        },
        DType::BF16 => {
            assert(name.skip(2) =~= seq!['1', '6']);
            assert(name.skip(2).drop_last() =~= seq!['1']);
            assert(seq!['1'].drop_last() =~= Seq::<char>::empty());
        },
    }
}

} // verus!
