//! The header of a weight file: metadata by key, and the table of tensors.

use crate::error::{Error, Refusal, Result};
use crate::quantized::GgmlDType;
use crate::text::{join, same_text};
use vstd::prelude::*;
use vstd::string::*;

verus! {

/// A metadata value. Floats are given by their bits.
#[derive(Debug)]
pub enum Value {
    U32(u32),
    F32(u32),
    String(String),
    /// A value of a type that no key asked for here has.
    Other,
}

/// An entry of the tensor table.
#[derive(Debug)]
pub struct TensorInfo {
    pub ggml_dtype: GgmlDType,
    /// The extents, outermost first.
    pub dims: Vec<usize>,
}

/// The header of a weight file. Where a key is there twice, the first one counts.
#[derive(Debug)]
pub struct Content {
    pub metadata: Vec<(String, Value)>,
    pub tensor_infos: Vec<(String, TensorInfo)>,
}

/// The first entry with a key, from `i` on.
pub open spec fn first_entry<T>(s: Seq<(String, T)>, key: Seq<char>, i: int) -> Option<int>
    decreases s.len() - i,
{
    if i < 0 || i >= s.len() {
        None
    } else if s[i].0@ == key {
        Some(i)
    } else {
        first_entry(s, key, i + 1)
    }
}

/// The first entry with a key is one of the entries.
pub proof fn lemma_first_entry<T>(s: Seq<(String, T)>, key: Seq<char>, i: int)
    requires
        0 <= i,
    ensures
        first_entry(s, key, i) matches Some(j) ==> i <= j < s.len(),
    decreases s.len() - i,
{
    if i < s.len() {
        lemma_first_entry(s, key, i + 1);
    }
}

/// The first entry with a key.
pub fn position<T>(entries: &Vec<(String, T)>, key: &str) -> (r: Option<usize>)
    ensures
        match r {
            Some(i) => first_entry(entries@, key@, 0) == Some(i as int) && i < entries@.len(),
            None => first_entry(entries@, key@, 0) is None,
        },
{
    let mut i: usize = 0;
    while i < entries.len()
        invariant
            i <= entries@.len(),
            first_entry(entries@, key@, 0) == first_entry(entries@, key@, i as int),
        decreases entries@.len() - i,
    {
        if same_text(entries[i].0.as_str(), key) {
            return Some(i);
        }
        i = i + 1;
    }
    None
}

/// The value of a key.
pub open spec fn value_of(metadata: Seq<(String, Value)>, key: Seq<char>) -> Option<Value> {
    match first_entry(metadata, key, 0) {
        Some(i) => Some(metadata[i].1),
        None => None,
    }
}

impl Value {
    /// The value as an unsigned number.
    pub open spec fn number(self) -> core::result::Result<usize, Refusal> {
        match self {
            Value::U32(n) => Ok(n as usize),
            _ => Err(Refusal::Says("not a u32"@)),
        }
    }

    /// The bits of the value as a 32-bit float.
    pub open spec fn float_bits(self) -> core::result::Result<u32, Refusal> {
        match self {
            Value::F32(bits) => Ok(bits),
            _ => Err(Refusal::Says("not a f32"@)),
        }
    }

    /// The value as an unsigned number; an error for any other.
    pub fn to_u32(&self) -> (r: Result<u32>)
        ensures
            match self.number() {
                Ok(n) => r matches Ok(m) && m as usize == n && *self == Value::U32(m),
                Err(why) => r matches Err(e) && why.is(e),
            },
    {
        match self {
            Value::U32(n) => Ok(*n),
            _ => Err(Error::Msg("not a u32".to_owned())),
        }
    }

    /// The bits of the value as a 32-bit float; an error for any other.
    pub fn to_f32(&self) -> (r: Result<u32>)
        ensures
            match self.float_bits() {
                Ok(bits) => r == Ok::<u32, Error>(bits),
                Err(why) => r matches Err(e) && why.is(e),
            },
    {
        match self {
            Value::F32(bits) => Ok(*bits),
            _ => Err(Error::Msg("not a f32".to_owned())),
        }
    }
}

/// The architecture that a file says it is of, by which its keys are named.
pub open spec fn architecture(ct: Content) -> core::result::Result<Seq<char>, Refusal> {
    match value_of(ct.metadata@, "general.architecture"@) {
        Some(Value::String(s)) => Ok(s@),
        Some(_) => Err(Refusal::Says("not a string"@)),
        None => Err(Refusal::Says("cannot find general.architecture in metadata"@)),
    }
}

/// The value of a key, which is named after the model family or after the file's architecture.
pub open spec fn keyed_value(ct: Content, arch: Seq<char>, key: Seq<char>) -> core::result::Result<
    Value,
    Refusal,
> {
    let plain = "qwen3."@ + key;
    let keyed = arch + "."@ + key;
    match value_of(ct.metadata@, plain) {
        Some(v) => Ok(v),
        None => match value_of(ct.metadata@, keyed) {
            Some(v) => Ok(v),
            None => Err(
                Refusal::Says("cannot find "@ + plain + " or "@ + keyed + " in metadata"@),
            ),
        },
    }
}

/// The number of a key.
pub open spec fn keyed_number(ct: Content, arch: Seq<char>, key: Seq<char>) -> core::result::Result<
    usize,
    Refusal,
> {
    match keyed_value(ct, arch, key) {
        Ok(v) => v.number(),
        Err(why) => Err(why),
    }
}

/// The number of a key that may be missing or be something else.
pub open spec fn number_or(ct: Content, arch: Seq<char>, key: Seq<char>, otherwise: usize) -> usize {
    match keyed_number(ct, arch, key) {
        Ok(n) => n,
        Err(_) => otherwise,
    }
}

/// The bits of the float of a key.
pub open spec fn keyed_float(ct: Content, arch: Seq<char>, key: Seq<char>) -> core::result::Result<
    u32,
    Refusal,
> {
    match keyed_value(ct, arch, key) {
        Ok(v) => v.float_bits(),
        Err(why) => Err(why),
    }
}

/// Where a tensor is in the table.
pub open spec fn tensor_at(ct: Content, name: Seq<char>) -> core::result::Result<usize, Refusal> {
    match first_entry(ct.tensor_infos@, name, 0) {
        Some(i) => Ok(i as usize),
        None => Err(Refusal::Says("cannot find tensor info for "@ + name)),
    }
}

impl Content {
    /// The architecture that the file says it is of.
    pub fn architecture(&self) -> (r: Result<String>)
        ensures
            match architecture(*self) {
                Ok(s) => r matches Ok(t) && t@ == s,
                Err(why) => r matches Err(e) && why.is(e),
            },
    {
        match position(&self.metadata, "general.architecture") {
            Some(i) => match &self.metadata[i].1 {
                Value::String(s) => Ok(s.clone()),
                _ => Err(Error::Msg("not a string".to_owned())),
            },
            None => Err(
                Error::Msg("cannot find general.architecture in metadata".to_owned()),
            ),
        }
    }

    /// The value of a key, which is named after the model family or after the architecture: a
    /// file names its keys after its own architecture, which is not the same for all variants of
    /// the model.
    pub fn md_get(&self, arch: &str, key: &str) -> (r: Result<&Value>)
        ensures
            match keyed_value(*self, arch@, key@) {
                Ok(v) => r matches Ok(w) && *w == v,
                Err(why) => r matches Err(e) && why.is(e),
            },
    {
        let plain: String = join("qwen3.", key);
        let mut keyed: String = join(arch, ".");
        keyed.append(key);
        if let Some(i) = position(&self.metadata, plain.as_str()) {
            return Ok(&self.metadata[i].1);
        }
        if let Some(i) = position(&self.metadata, keyed.as_str()) {
            return Ok(&self.metadata[i].1);
        }
        let mut text: String = "cannot find ".to_owned();
        text.append(plain.as_str());
        text.append(" or ");
        text.append(keyed.as_str());
        text.append(" in metadata");
        Err(Error::Msg(text))
    }

    /// The number of a key.
    pub fn number(&self, arch: &str, key: &str) -> (r: Result<usize>)
        ensures
            match keyed_number(*self, arch@, key@) {
                Ok(n) => r == Ok::<usize, Error>(n),
                Err(why) => r matches Err(e) && why.is(e),
            },
    {
        let value: &Value = self.md_get(arch, key)?;
        Ok(value.to_u32()? as usize)
    }

    /// The number of a key that may be missing or be something else.
    pub fn number_or(&self, arch: &str, key: &str, otherwise: usize) -> (r: usize)
        ensures
            r == number_or(*self, arch@, key@, otherwise),
    {
        match self.number(arch, key) {
            Ok(n) => n,
            Err(_) => otherwise,
        }
    }

    /// The bits of the float of a key.
    pub fn float_bits(&self, arch: &str, key: &str) -> (r: Result<u32>)
        ensures
            match keyed_float(*self, arch@, key@) {
                Ok(bits) => r == Ok::<u32, Error>(bits),
                Err(why) => r matches Err(e) && why.is(e),
            },
    {
        self.md_get(arch, key)?.to_f32()
    }
}

/// The header of a weight file that tensors are looked up in.
#[derive(Debug)]
pub struct Gguf<'a> {
    pub ct: &'a Content,
}

impl<'a> Gguf<'a> {
    /// Looks tensors up in a header.
    pub fn new(ct: &'a Content) -> (r: Self)
        ensures
            *r.ct == *ct,
    {
        Gguf { ct }
    }

    /// The metadata.
    pub fn metadata(&self) -> (r: &Vec<(String, Value)>)
        ensures
            *r == self.ct.metadata,
    {
        &self.ct.metadata
    }

    /// Where a tensor is in the table; an error where it is not there.
    pub fn tensor(&self, name: &str) -> (r: Result<usize>)
        ensures
            match tensor_at(*self.ct, name@) {
                Ok(i) => r == Ok::<usize, Error>(i) && i < self.ct.tensor_infos@.len(),
                Err(why) => r matches Err(e) && why.is(e),
            },
    {
        match position(&self.ct.tensor_infos, name) {
            Some(i) => Ok(i),
            None => Err(Error::Msg(join("cannot find tensor info for ", name))),
        }
    }

    /// Where a projection is in the table, with its output extent.
    pub fn qmatmul(&self, name: &str) -> (r: Result<(usize, usize)>)
        requires
            tensor_at(*self.ct, name@) matches Ok(i) ==> self.ct.tensor_infos@[i as int].1.dims@.len()
                >= 1,
        ensures
            match tensor_at(*self.ct, name@) {
                Ok(i) => r == Ok::<(usize, usize), Error>(
                    (i, self.ct.tensor_infos@[i as int].1.dims@[0]),
                ) && i < self.ct.tensor_infos@.len(),
                Err(why) => r matches Err(e) && why.is(e),
            },
    {
        let i: usize = self.tensor(name)?;
        Ok((i, self.ct.tensor_infos[i].1.dims[0]))
    }

    /// Where the weights of a normalization are in the table.
    pub fn rms_norm(&self, name: &str) -> (r: Result<usize>)
        ensures
            match tensor_at(*self.ct, name@) {
                Ok(i) => r == Ok::<usize, Error>(i) && i < self.ct.tensor_infos@.len(),
                Err(why) => r matches Err(e) && why.is(e),
            },
    {
        self.tensor(name)
    }
}

} // verus!
