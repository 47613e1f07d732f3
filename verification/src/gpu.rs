//! Device addresses, kernels, bit patterns of numbers, and weights.

use vstd::arithmetic::div_mod::{lemma_add_mod_noop_right, lemma_mul_mod_noop_left};
use vstd::prelude::*;

verus! {

/// An address in device memory. Zero is the null address.
#[derive(Clone, Copy, PartialEq, Eq, Structural, Debug)]
pub struct DevicePtr(pub u64);

/// The address `bytes` past `p`; addresses are taken modulo 2^64.
pub open spec fn at(p: DevicePtr, bytes: int) -> DevicePtr {
    DevicePtr(((p.0 + bytes) % 0x1_0000_0000_0000_0000) as u64)
}

pub open spec fn null_ptr() -> DevicePtr {
    DevicePtr(0)
}

impl DevicePtr {
    pub fn null() -> (r: DevicePtr)
        ensures
            r == null_ptr(),
    {
        DevicePtr(0)
    }

    pub fn is_null(&self) -> (r: bool)
        ensures
            r == (*self == null_ptr()),
    {
        self.0 == 0
    }

    /// The address `bytes` further on.
    pub fn offset(self, bytes: usize) -> (r: DevicePtr)
        ensures
            r == at(self, bytes as int),
    {
        DevicePtr(self.0.wrapping_add(bytes as u64))
    }

    /// The address `bytes` further on, which may be more than a size can say.
    pub fn advance(self, bytes: u64) -> (r: DevicePtr)
        ensures
            r == at(self, bytes as int),
    {
        DevicePtr(self.0.wrapping_add(bytes))
    }

    /// The address of row `index` of rows of `row_bytes` bytes.
    pub fn row(self, index: u32, row_bytes: usize) -> (r: DevicePtr)
        ensures
            r == at(self, index * row_bytes),
    {
        self.item(index as usize, row_bytes, 1)
    }

    /// The address of row `index` of rows of `cols` items of `item_bytes` bytes.
    pub fn item(self, index: usize, cols: usize, item_bytes: usize) -> (r: DevicePtr)
        ensures
            r == at(self, index * cols * item_bytes),
    {
        let items: u64 = (index as u64).wrapping_mul(cols as u64);
        let bytes: u64 = items.wrapping_mul(item_bytes as u64);
        proof {
            lemma_mul_mod_noop_left(index * cols, item_bytes as int, 0x1_0000_0000_0000_0000);
            lemma_add_mod_noop_right(self.0 as int, index * cols * item_bytes, 0x1_0000_0000_0000_0000);
        }
        self.advance(bytes)
    }
}

/// A loaded kernel. Zero stands for a kernel that the target does not carry.
#[derive(Clone, Copy, PartialEq, Eq, Structural, Debug)]
pub struct KernelHandle(pub u64);

/// The bit pattern of an IEEE single. The library moves such values about and
/// orders them by their bits; it does no arithmetic on them.
#[derive(Clone, Copy, PartialEq, Eq, Structural, Debug)]
pub struct F32Bits(pub u32);

/// The bit pattern of 1.
pub const ONE_BITS: u32 = 0x3f80_0000;

/// What a backend answers when it could not perform a command.
#[derive(Clone, Copy, PartialEq, Eq, Structural, Debug)]
pub struct GpuError {
    pub code: u32,
}

/// A BF16 weight matrix or vector.
#[derive(Clone, Copy, PartialEq, Eq, Structural, Debug)]
pub struct DenseWeight {
    pub weight: DevicePtr,
}

/// The scales of an eight-bit cache.
#[derive(Clone, Copy, PartialEq, Eq, Structural, Debug)]
pub struct Fp8Scales {
    pub k: F32Bits,
    pub v: F32Bits,
}

/// A four-bit weight: packed nibbles, block scales and a global scale.
#[derive(Clone, Copy, PartialEq, Eq, Structural, Debug)]
pub struct QuantizedWeight {
    pub packed: DevicePtr,
    pub scale: DevicePtr,
    pub scale2: F32Bits,
}

impl QuantizedWeight {
    /// The weight that stands for "no shared expert".
    pub fn null() -> (r: QuantizedWeight)
        ensures
            r == null_quantized(),
    {
        QuantizedWeight { packed: DevicePtr(0), scale: DevicePtr(0), scale2: F32Bits(0) }
    }
}

pub open spec fn null_quantized() -> QuantizedWeight {
    QuantizedWeight { packed: DevicePtr(0), scale: DevicePtr(0), scale2: F32Bits(0) }
}

/// An eight-bit weight with its row scales.
#[derive(Clone, Copy, PartialEq, Eq, Structural, Debug)]
pub struct Fp8Weight {
    pub weight: DevicePtr,
    pub row_scale: DevicePtr,
}

/// Device tables of per-expert pointers: packed weights, scales, global scales.
#[derive(Clone, Copy, PartialEq, Eq, Structural, Debug)]
pub struct ExpertPtrs {
    pub packed_ptrs: DevicePtr,
    pub scale_ptrs: DevicePtr,
    pub scale2_vals: DevicePtr,
}

/// Device tables of per-expert FP8 weights and their scales.
#[derive(Clone, Copy, PartialEq, Eq, Structural, Debug)]
pub struct Fp8ExpertPtrs {
    pub weight_ptrs: DevicePtr,
    pub scale_ptrs: DevicePtr,
}

} // verus!
