//! Machine limits of shapes and views.

use ferrotorch_core::autograd::TensorId;
use ferrotorch_core::bf16::Bf16;
use ferrotorch_core::limits::{fits_format, fits_reach, fits_shape};
use ferrotorch_core::storage::TensorStorage;
use ferrotorch_core::tensor::{MemoryFormat, Tensor};

#[test]
fn shapes_with_too_many_elements_do_not_fit() {
    assert!(fits_shape(&[]));
    assert!(fits_shape(&[2, 3, 4]));
    assert!(fits_shape(&[0, 7]));
    assert!(fits_shape(&[isize::MAX as usize]));
    assert!(!fits_shape(&[isize::MAX as usize + 1]));
    assert!(!fits_shape(&[usize::MAX, 2]));
    assert!(!fits_shape(&[0, usize::MAX, 2]));
    assert!(!fits_shape(&[usize::MAX, 2, 0]));
}

#[test]
fn views_that_reach_too_far_do_not_fit() {
    assert!(fits_reach(&[3, 2], &[2, 1], 5));
    assert!(fits_reach(&[0, 2], &[isize::MAX, isize::MAX], usize::MAX));
    assert!(fits_reach(&[2], &[isize::MIN], 0));
    assert!(!fits_reach(&[3], &[isize::MIN], 0));
    assert!(!fits_reach(&[2], &[1], i64::MAX as usize));
    assert!(!fits_reach(&[usize::MAX], &[isize::MAX], 0));
}

#[test]
fn formats_of_large_shapes_do_not_fit() {
    assert!(fits_format(MemoryFormat::Contiguous, &[usize::MAX, usize::MAX]));
    assert!(fits_format(MemoryFormat::ChannelsLast, &[usize::MAX]));
    assert!(fits_format(MemoryFormat::ChannelsLast, &[2, 3, 4, 5]));
    assert!(!fits_format(MemoryFormat::ChannelsLast, &[1, usize::MAX, 1, 1]));
    assert!(!fits_format(MemoryFormat::ChannelsLast, &[0, 1 << 32, 1 << 31, 2]));
    assert!(!fits_format(MemoryFormat::ChannelsLast3d, &[0, 1 << 32, 1, 1, 1 << 31]));
}

#[test]
fn a_view_outside_its_storage_is_not_valid() {
    let one = Bf16::from_bits(0x3F80);
    let t =
        Tensor::from_storage(TensorStorage::cpu(vec![one; 4]), vec![2, 2], false, TensorId(1))
            .unwrap();
    assert!(t.is_valid());
    assert!(t.stride_view(vec![4], vec![1], 0, TensorId(2)).is_valid());
    assert!(!t.stride_view(vec![4], vec![1], 1, TensorId(2)).is_valid());
    assert!(!t.stride_view(vec![2], vec![-1], 0, TensorId(2)).is_valid());
    assert!(!t.stride_view(vec![2], vec![1, 1], 0, TensorId(2)).is_valid());
    assert!(t.stride_view(vec![0, 9], vec![5, 5], 9, TensorId(2)).is_valid());
}
