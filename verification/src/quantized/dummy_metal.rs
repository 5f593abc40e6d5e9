//! Stand-in for the Metal storage where the library is built without it. Nobody can hold a value
//! with contents; every operation says why.

use crate::error::{Error, Result};
use crate::quantized::GgmlDType;
use crate::quantized::metal::MetalDevice;
use crate::shape::{Layout, Shape};
use vstd::prelude::*;

verus! {

/// Quantized storage on a device that is not supported.
#[derive(Debug)]
pub struct QMetalStorage {
    pub dtype: GgmlDType,
    pub device: MetalDevice,
}

/// Plain storage on a device that is not supported.
#[derive(Debug)]
pub struct MetalStorage {
    pub device: MetalDevice,
}

impl QMetalStorage {
    /// Always refused.
    pub fn zeros(_device: &MetalDevice, _elem_count: usize, _dtype: GgmlDType) -> (r: Result<Self>)
        ensures
            r == Err::<Self, Error>(Error::NotCompiledWithMetalSupport),
    {
        Err(Error::NotCompiledWithMetalSupport)
    }

    /// The format.
    pub fn dtype(&self) -> (r: GgmlDType)
        ensures
            r == self.dtype,
    {
        self.dtype
    }

    /// The device.
    pub fn device(&self) -> (r: &MetalDevice)
        ensures
            *r == self.device,
    {
        &self.device
    }

    /// Always refused.
    pub fn dequantize(&self, _elem_count: usize) -> (r: Result<MetalStorage>)
        ensures
            r == Err::<MetalStorage, Error>(Error::NotCompiledWithMetalSupport),
    {
        Err(Error::NotCompiledWithMetalSupport)
    }

    /// Always refused. It is here so that what carves tensors out of others builds on any machine.
    pub fn view(&self, _offset: usize, _size: usize) -> (r: Result<Self>)
        ensures
            r == Err::<Self, Error>(Error::NotCompiledWithMetalSupport),
    {
        Err(Error::NotCompiledWithMetalSupport)
    }

    /// Always refused.
    pub fn quantize(&mut self, _src: &MetalStorage) -> (r: Result<()>)
        ensures
            r == Err::<(), Error>(Error::NotCompiledWithMetalSupport),
            *final(self) == *old(self),
    {
        Err(Error::NotCompiledWithMetalSupport)
    }

    /// Always refused. The weights are given by the bits of their floats.
    pub fn quantize_imatrix(
        &mut self,
        _src: &MetalStorage,
        _imatrix_weights: &[u32],
        _n_per_row: usize,
    ) -> (r: Result<()>)
        ensures
            r == Err::<(), Error>(Error::NotCompiledWithMetalSupport),
            *final(self) == *old(self),
    {
        Err(Error::NotCompiledWithMetalSupport)
    }

    /// Always refused. The source and the weights are given by the bits of their floats.
    pub fn quantize_imatrix_onto(
        &mut self,
        _src: &[u32],
        _imatrix_weights: &[u32],
        _n_per_row: usize,
    ) -> (r: Result<()>)
        ensures
            r == Err::<(), Error>(Error::NotCompiledWithMetalSupport),
            *final(self) == *old(self),
    {
        Err(Error::NotCompiledWithMetalSupport)
    }

    /// Always refused, in the name of the other backend. The source is given by the bits of its
    /// floats.
    pub fn quantize_onto(&mut self, _src: &[u32]) -> (r: Result<()>)
        ensures
            r == Err::<(), Error>(Error::NotCompiledWithCudaSupport),
            *final(self) == *old(self),
    {
        Err(Error::NotCompiledWithCudaSupport)
    }

    /// There are no contents.
    pub fn storage_size_in_bytes(&self) -> (r: usize)
        ensures
            r == 0,
    {
        0
    }

    /// Always refused.
    pub fn embedding(
        &self,
        _rows: usize,
        _hidden: usize,
        _ids: &MetalStorage,
        _ids_l: &Layout,
    ) -> (r: Result<MetalStorage>)
        ensures
            r == Err::<MetalStorage, Error>(Error::NotCompiledWithMetalSupport),
    {
        Err(Error::NotCompiledWithMetalSupport)
    }

    /// Always refused.
    pub fn fwd(
        &self,
        _self_shape: &Shape,
        _storage: &MetalStorage,
        _layout: &Layout,
    ) -> (r: Result<(MetalStorage, Shape)>)
        ensures
            r == Err::<(MetalStorage, Shape), Error>(Error::NotCompiledWithMetalSupport),
    {
        Err(Error::NotCompiledWithMetalSupport)
    }

    /// Always refused.
    pub fn data(&self) -> (r: Result<Vec<u8>>)
        ensures
            r == Err::<Vec<u8>, Error>(Error::NotCompiledWithMetalSupport),
    {
        Err(Error::NotCompiledWithMetalSupport)
    }

    /// Always refused.
    pub fn indexed_moe_forward(
        &self,
        _self_shape: &Shape,
        _input: &MetalStorage,
        _input_l: &Layout,
        _ids: &MetalStorage,
        _ids_l: &Layout,
    ) -> (r: Result<(MetalStorage, Shape)>)
        ensures
            r == Err::<(MetalStorage, Shape), Error>(Error::NotCompiledWithMetalSupport),
    {
        Err(Error::NotCompiledWithMetalSupport)
    }
}

/// Always refused.
pub fn load_quantized(_device: &MetalDevice, _dtype: GgmlDType, _data: &[u8]) -> (r: Result<
    QMetalStorage,
>)
    ensures
        r == Err::<QMetalStorage, Error>(Error::NotCompiledWithMetalSupport),
{
    Err(Error::NotCompiledWithMetalSupport)
}

} // verus!
