//! Type-level descriptions of the values a shader program exchanges with
//! the GPU backend: scalars, vectors, matrices, and textures, together with
//! where such a value may live. The backend allocates buffers and textures
//! from these descriptions; the core only sizes and classifies them.

use vstd::prelude::*;

verus! {

use core::marker::PhantomData;

/// A value whose wire format is a fixed number of bytes, given in 32-bit
/// units times four.
pub trait Const32BitSize {
    /// The wire size in bytes.
    fn size32() -> u32;
}

/// A value with a host-side representation.
pub trait CanLiveOnCPU {
    type CPUStoredType;
}

/// A value with a device-side storage handle.
pub trait CanLiveOnGPU {
    type GPUStorageHandleType;
}

/// A fixed-size value with a host-side representation.
pub trait Scalar: Const32BitSize + CanLiveOnCPU {

}

/// The scalar carrying an `f32`.
#[derive(Debug)]
pub struct ConstantF32 {}

impl Const32BitSize for ConstantF32 {
    fn size32() -> (r: u32)
        ensures
            r == 4,
    {
        4
    }
}

/// The scalar carrying a `bool`.
#[derive(Debug)]
pub struct ConstantBool {}

impl Const32BitSize for ConstantBool {
    fn size32() -> (r: u32)
        ensures
            r == 1,
    {
        1
    }
}

impl CanLiveOnCPU for ConstantBool {
    type CPUStoredType = bool;
}

impl Scalar for ConstantBool {

}

/// The scalar carrying a `u32`.
#[derive(Debug)]
pub struct ConstantU32 {}

impl Const32BitSize for ConstantU32 {
    fn size32() -> (r: u32)
        ensures
            r == 4,
    {
        4
    }
}

impl CanLiveOnCPU for ConstantU32 {
    type CPUStoredType = u32;
}

impl Scalar for ConstantU32 {

}

/// The scalar carrying a `u8`.
#[derive(Debug)]
pub struct ConstantU8 {}

impl Const32BitSize for ConstantU8 {
    fn size32() -> (r: u32)
        ensures
            r == 1,
    {
        1
    }
}

impl CanLiveOnCPU for ConstantU8 {
    type CPUStoredType = u8;
}

impl Scalar for ConstantU8 {

}

/// The scalar carrying an `i32`.
#[derive(Debug)]
pub struct ConstantI32 {}

impl Const32BitSize for ConstantI32 {
    fn size32() -> (r: u32)
        ensures
            r == 4,
    {
        4
    }
}

impl CanLiveOnCPU for ConstantI32 {
    type CPUStoredType = i32;
}

impl Scalar for ConstantI32 {

}

/// Scalars allowed as vector elements.
pub trait AllowedVectorEntry: Scalar {

}

impl AllowedVectorEntry for ConstantU8 {

}

impl AllowedVectorEntry for ConstantI32 {

}

/// Values allowed as texture texels.
pub trait AllowedTextureEntry: Const32BitSize + CanLiveOnCPU {

}

/// A vector of `N` entries.
#[derive(Debug)]
pub struct Vector<Entry: AllowedVectorEntry, const N: usize> {
    pub _m: PhantomData<Entry>,
}

/// A matrix of `ROWS` by `COLS` entries.
#[derive(Debug)]
pub struct Matrix<Entry: AllowedVectorEntry, const ROWS: usize, const COLS: usize> {
    pub _m: PhantomData<Entry>,
}

/// A value whose size is only known at run time.
pub trait RuntimeU64Sizable {
    /// How many elements the value holds.
    fn size(&self) -> u64;
}

/// A `D`-dimensional texture of texels.
#[derive(Debug)]
pub struct TextureND<Entry: AllowedTextureEntry, const D: usize> {
    pub dims: [u32; D],
    pub _m: PhantomData<Entry>,
}

impl<Entry: AllowedTextureEntry, const D: usize> RuntimeU64Sizable for TextureND<Entry, D> {
    /// The number of texels: the product of the dimensions, saturating at
    /// the largest representable count.
    fn size(&self) -> (r: u64) {
        let mut res: u64 = 1;
        let mut i: usize = 0;
        while i < D
            invariant
                i <= D,
            decreases D - i,
        {
            let d = self.dims[i] as u64;
            res = match res.checked_mul(d) {
                Some(v) => v,
                None => u64::MAX,
            };
            i = i + 1;
        }
        res
    }
}

/// A value that can cross between host and device.
pub trait ShaderTransferable: RuntimeU64Sizable + CanLiveOnCPU + CanLiveOnGPU {

}

/// Which chip a value lives on.
pub trait WhichChip {

}

/// The host side.
#[derive(Debug)]
pub struct ValueLivesOnCPU {}

impl WhichChip for ValueLivesOnCPU {

}

/// The device side.
#[derive(Debug)]
pub struct ValueLivesOnGPU {}

impl WhichChip for ValueLivesOnGPU {

}

/// A value held on the host.
pub struct ValueOnCPU<T: CanLiveOnCPU> {
    pub item: T::CPUStoredType,
}

/// A handle to a value held on the device.
pub struct ValueOnGPU<T: CanLiveOnGPU> {
    pub handle: T::GPUStorageHandleType,
}

/// A value perhaps held on the host.
pub struct ValueMaybeOnCPU<T: CanLiveOnCPU> {
    pub opt: Option<ValueOnCPU<T>>,
}

/// A value perhaps held on the device.
pub struct ValueMaybeOnGPU<T: CanLiveOnGPU> {
    pub opt: Option<ValueOnGPU<T>>,
}

/// A value that may live on either side, or both.
pub struct ValueMaybeOnEitherCPUorGPU<T: CanLiveOnCPU + CanLiveOnGPU> {
    pub cpu: ValueMaybeOnCPU<T>,
    pub gpu: ValueMaybeOnGPU<T>,
}

/// A transferable value pinned to one chip.
pub struct LocatedShaderBufferable<Val: ShaderTransferable, Where: WhichChip> {
    pub _a: PhantomData<Val>,
    pub _b: PhantomData<Where>,
}

} // verus!
