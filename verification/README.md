# candle

The integer and control logic of a tensor library's quantized inference path, with contracts that
Verus proves.

- `src/conv.rs`, `conv2d.rs`, `conv_transpose.rs`: convolutions by the direct lowering, by groups,
  tap by tap, and fused. The lowerings are proved to agree over any element type whose zero changes
  no sum and makes every product zero. Integers are such; floats are too, except where an infinity,
  a value that is not a number, or a negative zero is involved.
- `src/adjoint.rs`, `exact.rs`: the transposed convolution is the adjoint of the convolution, over
  elements whose sums can be taken in any order.
- `src/quantized/`: storage of block formats, byte ranges of it that several tensors share, and the
  kernel launches of matrix products with one matrix or with a stack of experts.
- `src/kernels/`: what single launches bind and how many threads they run.
- `src/gated_delta.rs`: the fused launch of a recurrence whose two outputs share one buffer.
- `src/models/qwen3_5/`: a model that mixes full attention, gated delta networks and experts: its
  header, caches, states, masks, rotations and routing. A prompt in two parts leaves a gated delta
  network as the whole prompt does, for any recurrence that can be interrupted there, such as one
  in chunks between two of them.
- `src/models/whisper/`: an encoder and decoder for speech: its checkpoint, caches and masks.
  Decoding in steps gives what decoding the whole sequence gives, for any weighting of positions
  that passes over hidden ones.
- `src/tensor.rs`, `shape.rs`, `dtype.rs`, `error.rs`, `text.rs`, `arith.rs`: what these build on.

`app/` holds what is floating point, reads files or talks to a device. Proof functions whose names
begin with `law_` state what relates several functions.
