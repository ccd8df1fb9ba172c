//! Matrices as entry lists and compressed by rows or columns.

use ferrotorch_core::autograd::{Context, Plan, TensorId};
use ferrotorch_core::csc::CscTensor;
use ferrotorch_core::device::{Device, GpuBufferHandle};
use ferrotorch_core::dtype::{DType, Float};
use ferrotorch_core::error::{Axis, FerrotorchError, LayoutFault, Reason};
use ferrotorch_core::layout::{
    bucket_starts, expand_segments, from_u32_vec, to_u32_checked, to_u32_vec_checked,
};
use ferrotorch_core::matrix::{finish_dense, CooTensor, CsrTensor};
use ferrotorch_core::sparse_tensor::{csr_to_coo_t, DenseJob};
use ferrotorch_core::tensor::Tensor;

#[derive(Clone, Copy, Debug, PartialEq)]
struct F32(f32);

impl Float for F32 {
    fn dtype_spec() -> DType {
        DType::F32
    }
    fn zero_spec() -> Self {
        F32(0.0)
    }
    fn one_spec() -> Self {
        F32(1.0)
    }
    fn nan_spec() -> Self {
        F32(f32::NAN)
    }
    fn plus(self, rhs: Self) -> Self {
        F32(self.0 + rhs.0)
    }
    fn minus(self, rhs: Self) -> Self {
        F32(self.0 - rhs.0)
    }
    fn times(self, rhs: Self) -> Self {
        F32(self.0 * rhs.0)
    }
    fn over(self, rhs: Self) -> Self {
        F32(self.0 / rhs.0)
    }
    fn magnitude(self) -> Self {
        F32(self.0.abs())
    }
    fn nearest(n: usize) -> Self {
        F32(n as f32)
    }
    fn below(self, rhs: Self) -> bool {
        self.0 < rhs.0
    }
    fn same(self, rhs: Self) -> bool {
        self.0 == rhs.0
    }
    fn lemma_order(_a: Self, _b: Self, _c: Self) {}
    fn lemma_magnitude(_x: Self) {}
    fn lemma_zero_plus(_x: Self) {}
    fn lemma_units() {}
    fn dtype() -> DType {
        Self::dtype_spec()
    }
    fn zero() -> Self {
        Self::zero_spec()
    }
    fn one() -> Self {
        Self::one_spec()
    }
    fn nan() -> Self {
        Self::nan_spec()
    }
    fn add(self, rhs: Self) -> Self {
        self.plus(rhs)
    }
    fn sub(self, rhs: Self) -> Self {
        self.minus(rhs)
    }
    fn mul(self, rhs: Self) -> Self {
        self.times(rhs)
    }
    fn div(self, rhs: Self) -> Self {
        self.over(rhs)
    }
    fn abs(self) -> Self {
        self.magnitude()
    }
    fn from_usize(n: usize) -> Self {
        Self::nearest(n)
    }
    fn is_below(self, rhs: Self) -> bool {
        self.below(rhs)
    }
    fn is_same(self, rhs: Self) -> bool {
        self.same(rhs)
    }
}

fn f32(data: &[f32]) -> Vec<F32> {
    data.iter().map(|&x| F32(x)).collect()
}

fn ctx() -> Context {
    Context::host(TensorId(100))
}

fn raw(s: &[F32]) -> Vec<f32> {
    s.iter().map(|x| x.0).collect()
}

fn sample_csr() -> CsrTensor<F32> {
    CsrTensor::new(
        vec![0, 2, 3, 5],
        vec![0, 2, 2, 0, 1],
        f32(&[1.0_f32, 2.0, 3.0, 4.0, 5.0]),
        3,
        3,
    )
    .unwrap()
}

#[test]
fn test_coo_coalesce_uses_tuple_key() {
    let coo =
        CooTensor::new(vec![0, 0, 1], vec![1, 1, 0], f32(&[3.0f32, 4.0, 5.0]), 2, 2).unwrap();

    let coalesced = coo.coalesce();
    assert!(coalesced.is_coalesced());
    assert_eq!(coalesced.nnz(), 2);

    let dense = coalesced.to_dense(TensorId(1)).unwrap();
    let d = dense.data().unwrap();
    assert!((d[1].0 - 7.0).abs() < 1e-6);
    assert!((d[2].0 - 5.0).abs() < 1e-6);
}

#[test]
fn test_coo_from_csr_not_coalesced() {
    let csr = CsrTensor::new(vec![0, 1, 2], vec![0, 1], f32(&[1.0f32, 2.0]), 2, 2).unwrap();

    let coo = CooTensor::from_csr(&csr);
    assert!(!coo.is_coalesced());
    assert_eq!(coo.nnz(), 2);
}

#[test]
fn test_csr_from_coo_with_duplicates() {
    let coo =
        CooTensor::new(vec![0, 0, 1], vec![0, 0, 1], f32(&[1.0f32, 2.0, 3.0]), 2, 2).unwrap();

    let csr = CsrTensor::from_coo(&coo).unwrap();
    assert_eq!(csr.nnz(), 2);

    let dense = csr.to_dense(TensorId(1)).unwrap();
    let d = dense.data().unwrap();
    assert!((d[0].0 - 3.0).abs() < 1e-6);
    assert!((d[3].0 - 3.0).abs() < 1e-6);
}

#[test]
fn csc_from_csr_roundtrip() {
    let csr = sample_csr();
    let csc = CscTensor::from_csr(&csr);
    assert_eq!(csc.nrows(), 3);
    assert_eq!(csc.ncols(), 3);
    assert_eq!(csc.nnz(), 5);
    let csr2 = csc.to_csr().expect("valid CSC -> CSR");
    assert_eq!(raw(csr2.values()), vec![1.0, 2.0, 3.0, 4.0, 5.0]);
    assert_eq!(csr2.row_ptrs(), csr.row_ptrs());
    assert_eq!(csr2.col_indices(), csr.col_indices());
}

#[test]
fn csc_to_dense_matches_csr() {
    let csr = sample_csr();
    let csc = CscTensor::from_csr(&csr);
    let dense = csc.to_dense(TensorId(1)).unwrap();
    let d = dense.data().unwrap();
    assert_eq!(raw(d), &[1.0, 0.0, 2.0, 0.0, 0.0, 3.0, 4.0, 5.0, 0.0]);
    assert_eq!(d, csr.to_dense(TensorId(2)).unwrap().data().unwrap());
}

#[test]
fn csc_rejects_bad_col_ptrs_length() {
    let err = CscTensor::new(vec![0, 1], vec![0], f32(&[1.0_f32]), 2, 3).unwrap_err();
    assert!(matches!(err, FerrotorchError::InvalidArgument { .. }));
    assert_eq!(
        err,
        FerrotorchError::InvalidArgument {
            reason: Reason::PointerCount { axis: Axis::Columns, got: 2, size: 3 }
        }
    );
}

#[test]
fn csc_rejects_oob_row_index() {
    let err = CscTensor::new(vec![0, 1], vec![5], f32(&[1.0_f32]), 2, 1).unwrap_err();
    assert!(matches!(err, FerrotorchError::InvalidArgument { .. }));
    assert_eq!(
        err,
        FerrotorchError::InvalidArgument {
            reason: Reason::Compressed {
                axis: Axis::Columns,
                fault: LayoutFault::Index { slot: 0, index: 5, bound: 2 }
            }
        }
    );
}

#[test]
fn csr_rejects_every_kind_of_broken_layout() {
    let fault = |ptrs: Vec<usize>, cols: Vec<usize>| {
        let vals = f32(&vec![1.0; cols.len()]);
        match CsrTensor::new(ptrs, cols, vals, 2, 3).unwrap_err() {
            FerrotorchError::InvalidArgument { reason: Reason::Compressed { axis, fault } } => {
                assert_eq!(axis, Axis::Rows);
                fault
            }
            other => panic!("unexpected error: {other:?}"),
        }
    };
    assert_eq!(fault(vec![1, 1, 2], vec![0, 1]), LayoutFault::Start { first: Some(1) });
    assert_eq!(fault(vec![0, 2, 1], vec![0, 1]), LayoutFault::Decreasing { at: 1 });
    assert_eq!(fault(vec![0, 1, 1], vec![0, 1]), LayoutFault::End { got: 1, nnz: 2 });
    assert_eq!(
        fault(vec![0, 1, 2], vec![0, 3]),
        LayoutFault::Index { slot: 1, index: 3, bound: 3 }
    );
    let err = CsrTensor::new(vec![0, 1, 1], vec![0, 1], f32(&[1.0]), 2, 3).unwrap_err();
    assert_eq!(
        err,
        FerrotorchError::InvalidArgument { reason: Reason::LengthMismatch { left: 2, right: 1 } }
    );
    assert_eq!(
        fault(vec![0, 1, 2], vec![0, 3]).message(),
        "an index is not below its bound"
    );
}

#[test]
fn coo_rejects_lengths_and_coordinates() {
    let new = |rows: Vec<usize>, cols: Vec<usize>, n: usize| {
        CooTensor::new(rows, cols, f32(&vec![1.0; n]), 2, 3).unwrap_err()
    };
    assert_eq!(
        new(vec![0], vec![0, 1], 2),
        FerrotorchError::InvalidArgument { reason: Reason::LengthMismatch { left: 1, right: 2 } }
    );
    assert_eq!(
        new(vec![0, 1], vec![0], 2),
        FerrotorchError::InvalidArgument { reason: Reason::LengthMismatch { left: 1, right: 2 } }
    );
    assert_eq!(
        new(vec![0, 2], vec![0, 9], 2),
        FerrotorchError::IndexOutOfBounds { index: 2, axis: 0, size: 2 }
    );
    assert_eq!(
        new(vec![0, 1], vec![0, 9], 2),
        FerrotorchError::IndexOutOfBounds { index: 9, axis: 1, size: 3 }
    );
}

#[test]
fn rows_without_entries_have_equal_pointers() {
    let coo = CooTensor::new(vec![3, 0], vec![1, 2], f32(&[4.0, 5.0]), 5, 3).unwrap();
    assert_eq!((coo.nrows(), coo.ncols()), (5, 3));
    assert_eq!(coo.row_indices(), &[3, 0]);
    assert_eq!(coo.col_indices(), &[1, 2]);
    assert_eq!(raw(coo.values()), vec![4.0, 5.0]);
    let csr = CsrTensor::from_coo(&coo).unwrap();
    assert_eq!(csr.row_ptrs(), &[0, 1, 1, 1, 2, 2]);
    assert_eq!(csr.col_indices(), &[2, 1]);
    let back = CooTensor::from_csr(&csr);
    assert_eq!(back.row_indices(), &[0, 3]);
    assert_eq!(back.col_indices(), &[2, 1]);
}

#[test]
fn entries_that_cancel_are_dropped_by_rows_and_kept_by_columns() {
    let coo = CooTensor::new(vec![0, 0], vec![1, 1], f32(&[2.0, -2.0]), 2, 2).unwrap();
    assert_eq!(coo.coalesce().nnz(), 0);
    assert_eq!(CsrTensor::from_coo(&coo).unwrap().nnz(), 0);
    let csc = CscTensor::new(vec![0, 0, 2], vec![0, 0], f32(&[2.0, -2.0]), 2, 2).unwrap();
    let merged = csc.coalesced_arrays();
    assert_eq!(merged.col_ptrs(), &[0, 0, 1]);
    assert_eq!(merged.row_indices(), &[0]);
    assert_eq!(raw(merged.values()), vec![0.0]);
}

#[test]
fn columns_are_merged_in_order_of_rows() {
    let csc = CscTensor::new(
        vec![0, 3, 4],
        vec![2, 0, 2, 1],
        f32(&[1.0, 2.0, 4.0, 8.0]),
        3,
        2,
    )
    .unwrap();
    let merged = csc.coalesced_arrays();
    assert_eq!(merged.col_ptrs(), &[0, 2, 3]);
    assert_eq!(merged.row_indices(), &[0, 2, 1]);
    assert_eq!(raw(merged.values()), vec![2.0, 5.0, 8.0]);
    let dense = csc.to_dense(TensorId(1)).unwrap();
    assert_eq!(raw(dense.data().unwrap()), vec![2.0, 0.0, 0.0, 8.0, 5.0, 0.0]);
}

#[test]
fn duplicates_keep_their_order_within_a_column() {
    let csr = CsrTensor::new(
        vec![0, 3, 4],
        vec![1, 0, 1, 1],
        f32(&[1.0, 2.0, 3.0, 4.0]),
        2,
        2,
    )
    .unwrap();
    let csc = CscTensor::from_csr(&csr);
    assert_eq!(csc.col_ptrs(), &[0, 1, 4]);
    assert_eq!(csc.row_indices(), &[0, 0, 0, 1]);
    assert_eq!(raw(csc.values()), vec![2.0, 1.0, 3.0, 4.0]);
}

#[test]
fn columns_round_trip_through_rows() {
    let csc = CscTensor::new(
        vec![0, 2, 2, 3],
        vec![0, 2, 1],
        f32(&[1.0, 2.0, 3.0]),
        3,
        3,
    )
    .unwrap();
    let back = CscTensor::from_csr(&csc.to_csr().unwrap());
    assert_eq!(back.col_ptrs(), csc.col_ptrs());
    assert_eq!(back.row_indices(), csc.row_indices());
    assert_eq!(back.values(), csc.values());
}

#[test]
fn device_jobs_carry_narrow_indices() {
    let backend = Context { backend: true, ..ctx() };
    let coo = CooTensor::new(vec![1, 0, 1], vec![0, 1, 0], f32(&[1.0, 2.0, 3.0]), 2, 2).unwrap();
    match coo.to_dense_on(Device::Cuda(1), backend).unwrap() {
        Plan::Device(DenseJob::ExpandEntries(a)) => {
            assert_eq!(a.rows, vec![0, 1]);
            assert_eq!(a.cols, vec![1, 0]);
            assert_eq!(raw(&a.values), vec![2.0, 4.0]);
            assert_eq!((a.ordinal, a.nrows, a.ncols), (1, 2, 2));
        }
        other => panic!("unexpected plan: {other:?}"),
    }
    match CsrTensor::from_coo_on(&coo, Device::Cuda(1), backend).unwrap() {
        Plan::Device(a) => assert_eq!(a.rows, vec![0, 1]),
        other => panic!("unexpected plan: {other:?}"),
    }
    let csr = sample_csr();
    match csr.to_dense_on(Device::Cuda(0), backend).unwrap() {
        Plan::Device(DenseJob::Expand(a)) => {
            assert_eq!(a.pointers, vec![0, 2, 3, 5]);
            assert_eq!(a.indices, vec![0, 2, 2, 0, 1]);
        }
        other => panic!("unexpected plan: {other:?}"),
    }
    let csc = match CscTensor::from_csr_on(&csr, Device::Cpu, backend).unwrap() {
        Plan::Ready(c) => c,
        other => panic!("unexpected plan: {other:?}"),
    };
    match csc.to_dense_on(Device::Cuda(0), backend).unwrap() {
        Plan::Device(DenseJob::ExpandColumns(a)) => {
            assert_eq!(a.pointers, vec![0, 2, 3, 5]);
            assert_eq!(a.indices, vec![0, 2, 2, 0, 1]);
            assert_eq!(raw(&a.values), vec![1.0, 4.0, 5.0, 2.0, 3.0]);
        }
        other => panic!("unexpected plan: {other:?}"),
    }
    match csc.to_csr_on(Device::Cuda(0), backend).unwrap() {
        Plan::Device(a) => assert_eq!((a.nrows, a.ncols, a.pointers.len()), (3, 3, 4)),
        other => panic!("unexpected plan: {other:?}"),
    }
    match CscTensor::from_csr_on(&csr, Device::Cuda(0), backend).unwrap() {
        Plan::Device(a) => assert_eq!(raw(&a.values), raw(csr.values())),
        other => panic!("unexpected plan: {other:?}"),
    }
    assert_eq!(
        csc.to_csr_on(Device::Cpu, backend).unwrap().ready().unwrap().col_indices(),
        csr.col_indices()
    );
}

#[test]
fn parts_from_a_device_are_checked_again() {
    let csr = CsrTensor::from_device_parts(&[0, 1, 2], &[1, 0], f32(&[1.0, 2.0]), 2, 2).unwrap();
    assert_eq!(csr.col_indices(), &[1, 0]);
    assert!(CsrTensor::from_device_parts(&[0, 2, 1], &[1, 0], f32(&[1.0, 2.0]), 2, 2).is_err());
    let csc = CscTensor::from_device_parts(&[0, 1, 2], &[1, 0], f32(&[1.0, 2.0]), 2, 2).unwrap();
    assert_eq!(csc.row_indices(), &[1, 0]);
    assert!(CscTensor::from_device_parts(&[0, 1, 2], &[1, 2], f32(&[1.0, 2.0]), 2, 2).is_err());
    let handle = GpuBufferHandle { key: 1, len: 4, dtype: DType::F32, ordinal: 0 };
    let t: Tensor<F32> = finish_dense(handle, 2, 2, TensorId(5)).unwrap();
    assert_eq!((t.id(), t.device()), (TensorId(5), Device::Cuda(0)));
    let err = finish_dense::<F32>(handle, 2, 3, TensorId(5)).unwrap_err();
    assert_eq!(
        err,
        FerrotorchError::ShapeMismatch { reason: Reason::StorageTooSmall { numel: 6, len: 4 } }
    );
}

#[test]
fn a_host_device_keeps_the_dense_matrix() {
    let csr = sample_csr();
    let t = csr.to_dense_on(Device::Cpu, ctx()).unwrap().ready().unwrap();
    assert_eq!(raw(t.data().unwrap()), vec![1.0, 0.0, 2.0, 0.0, 0.0, 3.0, 4.0, 5.0, 0.0]);
    assert_eq!(
        csr.to_dense_on(Device::Cuda(0), ctx()).unwrap_err(),
        FerrotorchError::DeviceUnavailable
    );
    let meta = csr.to_dense_on(Device::Meta, ctx()).unwrap().ready().unwrap();
    assert!(meta.is_meta());
    assert_eq!(meta.shape(), &[3, 3]);
}

#[test]
fn indices_are_narrowed_only_if_they_fit() {
    assert_eq!(to_u32_checked(4294967295), Ok(4294967295));
    assert_eq!(
        to_u32_checked(4294967296),
        Err(FerrotorchError::InvalidArgument { reason: Reason::IndexWidth { value: 4294967296 } })
    );
    assert_eq!(to_u32_vec_checked(&[1, 2]), Ok(vec![1u32, 2]));
    assert_eq!(
        to_u32_vec_checked(&[1, 4294967297, 4294967296]),
        Err(FerrotorchError::InvalidArgument { reason: Reason::IndexWidth { value: 4294967297 } })
    );
    assert_eq!(from_u32_vec(&[3, 4]), vec![3usize, 4]);
    assert_eq!(expand_segments(&[0, 2, 2, 3], 3), vec![0, 0, 2]);
    assert_eq!(bucket_starts(&[2, 0, 2], 4), vec![0, 1, 1, 3, 3]);
}

#[test]
fn compressed_rows_expand_to_entries() {
    let (ks, vals) =
        csr_to_coo_t(&[0, 1, 3], &[2, 0, 1], f32(&[1.0, 2.0, 3.0])).unwrap();
    assert_eq!(ks, vec![vec![0, 2], vec![1, 0], vec![1, 1]]);
    assert_eq!(raw(&vals), vec![1.0, 2.0, 3.0]);
}

#[test]
fn canonical_rows_come_back_from_their_entries() {
    let csr = CsrTensor::new(
        vec![0, 2, 2, 3],
        vec![0, 3, 1],
        f32(&[1.0, -2.0, 3.0]),
        3,
        4,
    )
    .unwrap();
    let back = CsrTensor::from_coo(&CooTensor::from_csr(&csr)).unwrap();
    assert_eq!(back.row_ptrs(), csr.row_ptrs());
    assert_eq!(back.col_indices(), csr.col_indices());
    assert_eq!(back.values(), csr.values());
}

#[test]
fn copies_of_matrices_are_equal() {
    let csr = sample_csr();
    let rows = csr.clone();
    assert_eq!((rows.row_ptrs(), rows.col_indices()), (csr.row_ptrs(), csr.col_indices()));
    assert_eq!(raw(rows.values()), raw(csr.values()));
    let csc = CscTensor::from_csr(&csr);
    let columns = csc.clone();
    assert_eq!((columns.col_ptrs(), columns.row_indices()), (csc.col_ptrs(), csc.row_indices()));
    let coo = CooTensor::new(vec![1, 0, 1], vec![0, 1, 0], f32(&[1.0, 2.0, 3.0]), 2, 2).unwrap();
    let canonical = coo.coalesce().clone();
    assert!(canonical.is_coalesced() && canonical.nnz() <= coo.nnz());
    assert_eq!((canonical.row_indices(), canonical.col_indices()), (&[0, 1][..], &[1, 0][..]));
    assert_eq!(raw(canonical.values()), vec![2.0, 4.0]);
}
