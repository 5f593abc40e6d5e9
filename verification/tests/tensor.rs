//! Tensors, shapes and layouts.

use candle::dtype::DType;
use candle::error::Error;
use candle::models::products::linear;
use candle::shape::{Layout, Shape, D};
use candle::tensor::{Backend, Op, Tensor};

fn ints(data: Vec<i64>, dims: &[usize]) -> Tensor<i64> {
    Tensor::from_vec(data, dims, Backend::Split).unwrap()
}

#[test]
fn elements_fill_a_tensor() {
    let t = ints((0..6).collect(), &[2, 3]);
    assert_eq!(t.dims, vec![2, 3]);
    assert!(!t.track_op());
    assert_eq!(
        Tensor::from_vec(vec![1i64, 2], &[3], Backend::Split)
            .map(|_| ())
            .unwrap_err(),
        Error::ShapeMismatchBinaryOp {
            lhs: vec![2],
            rhs: vec![3],
            op: "from_vec"
        }
    );
    assert_eq!(
        t.dims3().unwrap_err(),
        Error::UnexpectedNumberOfDims {
            expected: 3,
            got: 2
        }
    );
    let z = Tensor::<i64>::zeros(&[2, 0, 3], Backend::Fused);
    assert!(z.data.is_empty());
    assert_eq!(z.dims3().unwrap(), (2, 0, 3));
    assert_eq!(Tensor::<u32>::zeros(&[2, 2], Backend::Split).data, vec![0; 4]);
}

#[test]
fn a_part_of_a_tensor() {
    let mut t = ints((0..12).collect(), &[2, 3, 2]);
    assert_eq!(t.narrow(1, 1, 2).data, vec![2, 3, 4, 5, 8, 9, 10, 11]);
    assert_eq!(t.narrow(0, 1, 1).dims, vec![1, 3, 2]);
    assert_eq!(t.narrow(2, 0, 1).op, None);
    t.is_variable = true;
    assert_eq!(
        t.narrow(2, 0, 1).op,
        Some(Op::Narrow {
            dim: 2,
            start: 0,
            len: 1
        })
    );
    assert!(!t.copy().track_op());
}

#[test]
fn chunks_and_back() {
    let t = ints((0..10).collect(), &[2, 5]);
    let parts = t.chunk(3, 1);
    let widths: Vec<usize> = parts.iter().map(|p| p.dims[1]).collect();
    assert_eq!(widths, vec![2, 2, 1]);
    assert_eq!(parts[2].data, vec![4, 9]);
    let joined = parts[0]
        .append(&parts[1], 1)
        .unwrap()
        .append(&parts[2], 1)
        .unwrap();
    assert_eq!(joined.data, t.data);
    let twice = Tensor::cat(&vec![t.copy(), t.copy()], 0).unwrap();
    assert_eq!(twice.dims, vec![4, 5]);
    assert_eq!(twice.data[10..], t.data);
    assert_eq!(
        parts[0].append(&twice, 1).map(|_| ()).unwrap_err(),
        Error::ShapeMismatchBinaryOp {
            lhs: vec![2, 2],
            rhs: vec![4, 5],
            op: "cat"
        }
    );
    assert_eq!(
        Tensor::<i64>::cat(&vec![], 0).map(|_| ()).unwrap_err(),
        Error::OpRequiresAtLeastOneTensor { op: "cat" }
    );
}

#[test]
fn shapes_and_layouts() {
    let shape = Shape::from_dims(&[2, 3, 4]);
    assert_eq!(shape.rank(), 3);
    assert_eq!(shape.elem_count(), 24);
    assert_eq!(shape.stride_contiguous(), vec![12, 4, 1]);
    assert_eq!(shape.dim(D::Minus2).unwrap(), 3);
    assert_eq!(
        Shape::from_dims(&[7]).dim(D::Minus2).unwrap_err(),
        Error::DimOutOfRange { dim: -2, rank: 1 }
    );
    assert_eq!(
        shape.dims2().unwrap_err(),
        Error::UnexpectedNumberOfDims {
            expected: 2,
            got: 3
        }
    );
    let mut layout = Layout::contiguous(shape);
    assert!(layout.is_contiguous());
    layout.start_offset = 5;
    assert!(layout.is_contiguous());
    assert_eq!(
        layout.describe(),
        "Layout { shape: [2, 3, 4], stride: [12, 4, 1], start_offset: 5 }"
    );
    layout.stride[1] = 5;
    assert!(!layout.is_contiguous());
    // The stride of a dimension with one element is never followed.
    let mut thin = Layout::contiguous(Shape::from_dims(&[1, 4]));
    thin.stride[0] = 99;
    assert!(thin.is_contiguous());
}

#[test]
fn rows_are_mapped() {
    let x = ints((1..7).collect(), &[1, 2, 3]);
    let w = ints(vec![1, 0, 0, 1, 1, 1], &[2, 3]);
    let b = ints(vec![10, 20], &[2]);
    let y = linear(&x, &w, Some(&b)).unwrap();
    assert_eq!(y.dims, vec![1, 2, 2]);
    assert_eq!(y.data, vec![11, 26, 14, 35]);
    assert_eq!(linear(&x, &w, None).unwrap().data, vec![1, 6, 4, 15]);
    assert!(matches!(
        linear(&w, &ints(vec![0; 4], &[2, 2]), None).map(|_| ()).unwrap_err(),
        Error::ShapeMismatchBinaryOp { op: "matmul", .. }
    ));
    assert!(matches!(
        linear(&x, &w, Some(&ints(vec![0; 3], &[3]))).map(|_| ()).unwrap_err(),
        Error::ShapeMismatchBinaryOp { op: "broadcast_add", .. }
    ));
}

#[test]
fn element_types() {
    assert_eq!(DType::F64.size_in_bytes(), 8);
    assert_eq!(DType::BF16.size_in_bytes(), 2);
    assert_eq!(DType::U8.name(), "U8");
}
