//! The table of a checkpoint's tensors, in which they are looked up by path.

use crate::error::{agrees, first_of, refusal_of, Error, Refusal, Result};
use crate::shape::copy_dims;
use crate::text::{decimal_text, join, push_decimal, same_text};
use vstd::prelude::*;
use vstd::string::*;

verus! {

/// The table of a checkpoint: paths, and the extents of the tensors there.
#[derive(Debug)]
pub struct Checkpoint {
    pub tensors: Vec<(String, Vec<usize>)>,
}

/// The first tensor with a path, from `i` on.
pub open spec fn first_at(s: Seq<(String, Vec<usize>)>, path: Seq<char>, i: int) -> Option<int>
    decreases s.len() - i,
{
    if i < 0 || i >= s.len() {
        None
    } else if s[i].0@ == path {
        Some(i)
    } else {
        first_at(s, path, i + 1)
    }
}

/// A name below a path.
pub open spec fn below(path: Seq<char>, name: Seq<char>) -> Seq<char> {
    if path.len() == 0 {
        name
    } else {
        path + "."@ + name
    }
}

/// Where the tensor with a name below a path is in the table, or why it is not there: there is
/// none, or it has other extents.
pub open spec fn found(ck: Checkpoint, path: Seq<char>, name: Seq<char>, dims: Seq<usize>) -> core::result::Result<
    usize,
    Refusal,
> {
    let full = below(path, name);
    match first_at(ck.tensors@, full, 0) {
        None => Err(Refusal::Says("cannot find tensor "@ + full)),
        Some(i) => if ck.tensors@[i].1@ == dims {
            Ok(i as usize)
        } else {
            Err(
                Refusal::Shape {
                    msg: "shape mismatch for "@ + full,
                    wanted: dims,
                    found: ck.tensors@[i].1@,
                },
            )
        },
    }
}

/// A place in a checkpoint below which tensors are looked up.
#[derive(Debug)]
pub struct VarBuilder<'a> {
    pub ck: &'a Checkpoint,
    pub path: String,
}

impl<'a> VarBuilder<'a> {
    /// The place with a name below this one.
    pub fn pp(&self, name: &str) -> (r: VarBuilder<'a>)
        ensures
            r.ck == self.ck,
            r.path@ == below(self.path@, name@),
    {
        let mut path: String = self.path.clone();
        if path.as_str().unicode_len() > 0 {
            path.append(".");
        }
        path.append(name);
        assert(path@ =~= below(self.path@, name@));
        VarBuilder { ck: self.ck, path }
    }

    /// The place of a numbered layer below this one.
    pub fn layer(&self, i: usize) -> (r: VarBuilder<'a>)
        ensures
            r.ck == self.ck,
            r.path@ == below(self.path@, "layers."@ + decimal_text(i as nat)),
    {
        let mut name: String = "layers.".to_owned();
        push_decimal(&mut name, i);
        self.pp(name.as_str())
    }

    /// Where the tensor of these extents with a name is in the table.
    pub fn get(&self, dims: &[usize], name: &str) -> (r: Result<usize>)
        ensures
            agrees(r, found(*self.ck, self.path@, name@, dims@)),
    {
        let full: String = self.pp(name).path;
        let tensors: &Vec<(String, Vec<usize>)> = &self.ck.tensors;
        let mut i: usize = 0;
        while i < tensors.len()
            invariant
                i <= tensors@.len(),
                tensors@ == self.ck.tensors@,
                full@ == below(self.path@, name@),
                first_at(tensors@, full@, 0) == first_at(tensors@, full@, i as int),
            decreases tensors@.len() - i,
        {
            if same_text(tensors[i].0.as_str(), full.as_str()) {
                if same_dims(tensors[i].1.as_slice(), dims) {
                    return Ok(i);
                }
                return Err(
                    Error::UnexpectedShape {
                        msg: join("shape mismatch for ", full.as_str()),
                        expected: copy_dims(dims),
                        got: copy_dims(tensors[i].1.as_slice()),
                    },
                );
            }
            i = i + 1;
        }
        Err(Error::Msg(join("cannot find tensor ", full.as_str())))
    }
}

/// Whether extents are the same.
fn same_dims(a: &[usize], b: &[usize]) -> (r: bool)
    ensures
        r == (a@ == b@),
{
    if a.len() != b.len() {
        return false;
    }
    let mut i: usize = 0;
    while i < a.len()
        invariant
            i <= a@.len(),
            a@.len() == b@.len(),
            forall|j: int| 0 <= j < i ==> a@[j] == b@[j],
        decreases a@.len() - i,
    {
        if a[i] != b[i] {
            return false;
        }
        i = i + 1;
    }
    assert(a@ =~= b@);
    true
}

/// A linear map: where its weights are in the table.
#[derive(Debug, Clone, Copy, PartialEq, Eq, Structural)]
pub struct Linear {
    pub weight: usize,
    pub bias: Option<usize>,
}

/// The linear map below a path, or why there is none.
pub open spec fn linear_of(
    ck: Checkpoint,
    path: Seq<char>,
    in_dim: usize,
    out_dim: usize,
    biased: bool,
) -> core::result::Result<Linear, Refusal> {
    let weight = found(ck, path, "weight"@, seq![out_dim, in_dim]);
    let bias = found(ck, path, "bias"@, seq![out_dim]);
    match first_of(
        refusal_of(weight),
        if biased {
            refusal_of(bias)
        } else {
            None
        },
    ) {
        Some(why) => Err(why),
        None => Ok(
            Linear {
                weight: weight->Ok_0,
                bias: if biased {
                    Some(bias->Ok_0)
                } else {
                    None
                },
            },
        ),
    }
}

/// Finds a linear map, with a bias or without.
pub fn linear(in_dim: usize, out_dim: usize, biased: bool, vb: &VarBuilder) -> (r: Result<Linear>)
    ensures
        agrees(r, linear_of(*vb.ck, vb.path@, in_dim, out_dim, biased)),
{
    let wide: Vec<usize> = vec![out_dim, in_dim];
    assert(wide@ =~= seq![out_dim, in_dim]);
    let weight: usize = vb.get(wide.as_slice(), "weight")?;
    if !biased {
        return Ok(Linear { weight, bias: None });
    }
    let narrow: Vec<usize> = vec![out_dim];
    assert(narrow@ =~= seq![out_dim]);
    let bias: usize = vb.get(narrow.as_slice(), "bias")?;
    Ok(Linear { weight, bias: Some(bias) })
}

/// Weights and a bias: where they are in the table.
#[derive(Debug, Clone, Copy, PartialEq, Eq, Structural)]
pub struct Affine {
    pub weight: usize,
    pub bias: usize,
}

/// Weights of some extents and a bias below a path, or why there are none.
pub open spec fn affine_of(
    ck: Checkpoint,
    path: Seq<char>,
    weight_dims: Seq<usize>,
    bias_dims: Seq<usize>,
) -> core::result::Result<Affine, Refusal> {
    let weight = found(ck, path, "weight"@, weight_dims);
    let bias = found(ck, path, "bias"@, bias_dims);
    match first_of(refusal_of(weight), refusal_of(bias)) {
        Some(why) => Err(why),
        None => Ok(Affine { weight: weight->Ok_0, bias: bias->Ok_0 }),
    }
}

/// The convolution below a path, or why there is none.
pub open spec fn conv1d_of(
    ck: Checkpoint,
    path: Seq<char>,
    in_channels: usize,
    out_channels: usize,
    kernel_size: usize,
) -> core::result::Result<Affine, Refusal> {
    affine_of(ck, path, seq![out_channels, in_channels, kernel_size], seq![out_channels])
}

/// Finds a convolution.
pub fn conv1d(in_channels: usize, out_channels: usize, kernel_size: usize, vb: &VarBuilder) -> (r:
    Result<Affine>)
    ensures
        agrees(r, conv1d_of(*vb.ck, vb.path@, in_channels, out_channels, kernel_size)),
{
    let wide: Vec<usize> = vec![out_channels, in_channels, kernel_size];
    assert(wide@ =~= seq![out_channels, in_channels, kernel_size]);
    let weight: usize = vb.get(wide.as_slice(), "weight")?;
    let narrow: Vec<usize> = vec![out_channels];
    assert(narrow@ =~= seq![out_channels]);
    let bias: usize = vb.get(narrow.as_slice(), "bias")?;
    Ok(Affine { weight, bias })
}

/// The normalization below a path, or why there is none.
pub open spec fn layer_norm_of(ck: Checkpoint, path: Seq<char>, size: usize) -> core::result::Result<
    Affine,
    Refusal,
> {
    affine_of(ck, path, seq![size], seq![size])
}

/// Finds a normalization.
pub fn layer_norm(size: usize, vb: &VarBuilder) -> (r: Result<Affine>)
    ensures
        agrees(r, layer_norm_of(*vb.ck, vb.path@, size)),
{
    let dims: Vec<usize> = vec![size];
    assert(dims@ =~= seq![size]);
    let weight: usize = vb.get(dims.as_slice(), "weight")?;
    let bias: usize = vb.get(dims.as_slice(), "bias")?;
    Ok(Affine { weight, bias })
}

} // verus!
