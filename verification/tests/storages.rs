//! Storage, and the element types themselves.

use ferrotorch_core::autograd::{Context, Plan, TensorId};
use ferrotorch_core::bf16::Bf16;
use ferrotorch_core::device::{CubeBufferHandle, Device, GpuBufferHandle};
use ferrotorch_core::dtype::{is_nan, is_zero, DType, Float};
use ferrotorch_core::error::{FerrotorchError, Reason};
use ferrotorch_core::storage::{checked_byte_count, CloneJob, CpuBuffer, TensorStorage};

fn ctx() -> Context {
    Context::host(TensorId(100))
}

fn with_backend() -> Context {
    Context { backend: true, ..ctx() }
}

fn bits(v: &[Bf16]) -> Vec<u16> {
    v.iter().map(|x| x.to_bits()).collect()
}

fn b(x: f32) -> Bf16 {
    Bf16::from_bits(half::bf16::from_f32(x).to_bits())
}

#[test]
fn brain_float_arithmetic_is_that_of_half() {
    let samples = [0.0f32, -0.0, 1.0, -2.5, 3.140625, 1.0e38, -7.0e-39, 0.3];
    for &x in &samples {
        for &y in &samples {
            let (hx, hy) = (half::bf16::from_f32(x), half::bf16::from_f32(y));
            let (bx, by) = (b(x), b(y));
            let same = |got: Bf16, want: half::bf16| {
                if want.is_nan() {
                    assert!(is_nan(got));
                } else {
                    assert_eq!(got.to_bits(), want.to_bits());
                }
            };
            same(bx.add(by), hx + hy);
            same(bx.sub(by), hx - hy);
            same(bx.mul(by), hx * hy);
            same(bx.div(by), hx / hy);
            assert_eq!(bx.is_below(by), hx < hy);
            assert_eq!(bx.is_same(by), hx == hy);
        }
    }
    assert_eq!(b(-2.5).abs().to_bits(), b(2.5).to_bits());
    assert_eq!(Bf16::zero().to_bits(), 0);
    assert_eq!(Bf16::one().to_bits(), 0x3F80);
    assert_eq!(Bf16::from_usize(3).to_bits(), b(3.0).to_bits());
    assert_eq!(Bf16::from_usize(1000).to_bits(), 0x447A);
}

#[test]
fn there_is_one_value_that_is_no_number() {
    assert!(is_nan(Bf16::nan()));
    assert_eq!(Bf16::nan().to_bits(), 0x7FC0);
    assert_eq!(Bf16::from_bits(0xFFFF).to_bits(), 0x7FC0);
    assert_eq!(Bf16::zero().div(Bf16::zero()).to_bits(), 0x7FC0);
    assert!(!is_nan(Bf16::from_bits(0x7F80)));
    assert!(is_zero(Bf16::from_bits(0x8000)));
    assert!(Bf16::from_bits(0xBF80).is_below(Bf16::from_bits(0x8000)));
    assert_eq!(Bf16::dtype(), DType::BF16);
    assert_eq!(DType::BF16.size_of(), 2);
    assert_eq!(DType::F64.size_of(), 8);
}

#[test]
fn host_buffers_are_written_in_place() {
    let mut buffer = CpuBuffer::from_vec(vec![1, 2, 3, 4]);
    buffer.copy_from_slice_at(1, &[8, 9]);
    assert_eq!(buffer.as_slice(), &[1, 8, 9, 4]);
    buffer.as_mut_slice()[0] = 7;
    assert_eq!((buffer.len(), buffer.is_empty()), (4, false));
    assert_eq!(buffer.into_vec(), vec![7, 8, 9, 4]);
}

#[test]
fn storage_knows_where_it_resides() {
    let s = TensorStorage::cpu(vec![b(1.0), b(2.0)]);
    assert!(s.is_cpu() && !s.is_gpu() && !s.is_cubecl() && !s.is_meta());
    assert_eq!((s.device(), s.len(), s.is_empty()), (Device::Cpu, 2, false));
    let m = TensorStorage::<Bf16>::meta(3);
    assert_eq!((m.device(), m.len(), m.is_meta()), (Device::Meta, 3, true));
    assert!(m.meta_fill_value().is_none());
    assert_eq!(m.try_as_slice().unwrap_err(), FerrotorchError::GpuTensorNotAccessible);
    let filled = TensorStorage::meta_filled(2, b(5.0));
    assert_eq!(filled.meta_fill_value(), Some(&b(5.0)));
    let cube = CubeBufferHandle { key: 1, len: 4, ordinal: 2 };
    let x = TensorStorage::<Bf16>::xpu_from_handle(cube, 2);
    assert_eq!((x.device(), x.cubecl_handle()), (Device::Xpu(2), Some(&cube)));
    let handle = GpuBufferHandle { key: 9, len: 4, dtype: DType::BF16, ordinal: 1 };
    let mut g = TensorStorage::<Bf16>::gpu(handle);
    assert_eq!((g.device(), g.gpu_handle()), (Device::Cuda(1), Some(&handle)));
    g.gpu_handle_mut().unwrap().key = 10;
    assert_eq!(g.gpu_handle().unwrap().key, 10);
    assert!(g.try_as_mut_slice().is_err());
}

#[test]
fn placement_needs_a_backend_for_devices() {
    let data = vec![b(1.0), b(2.0)];
    let s = TensorStorage::on_device(data.clone(), Device::Cpu, ctx()).unwrap().ready().unwrap();
    assert_eq!(bits(s.as_slice()), bits(&data));
    assert_eq!(
        TensorStorage::on_device(data.clone(), Device::Cuda(0), ctx()).unwrap_err(),
        FerrotorchError::DeviceUnavailable
    );
    match TensorStorage::on_device_pinned(data.clone(), Device::Cuda(3), with_backend()).unwrap() {
        Plan::Device(u) => {
            assert_eq!((u.bytes, u.pinned, u.ordinal, u.dtype), (4, true, 3, DType::BF16));
        }
        other => panic!("unexpected plan: {other:?}"),
    }
    assert_eq!(
        TensorStorage::on_device(data.clone(), Device::Xpu(0), ctx()).unwrap_err(),
        FerrotorchError::InvalidArgument { reason: Reason::XpuNeedsRuntime }
    );
    assert_eq!(
        TensorStorage::on_device(data.clone(), Device::Mps(0), ctx()).unwrap_err(),
        FerrotorchError::InvalidArgument { reason: Reason::MpsNotWired }
    );
    let m = TensorStorage::on_device(data, Device::Meta, ctx()).unwrap().ready().unwrap();
    assert_eq!((m.is_meta(), m.len()), (true, 2));
}

#[test]
fn writes_and_regions_stay_within_the_buffer() {
    let mut s = TensorStorage::cpu(vec![b(1.0), b(2.0), b(3.0)]);
    s.cpu_write_at(1, &[b(8.0), b(9.0)]).unwrap();
    assert_eq!(bits(s.as_slice()), bits(&[b(1.0), b(8.0), b(9.0)]));
    assert_eq!(
        s.cpu_write_at(2, &[b(0.0), b(0.0)]).unwrap_err(),
        FerrotorchError::InvalidArgument {
            reason: Reason::WriteBeyondBuffer { offset: 2, count: 2, len: 3 }
        }
    );
    let part = s.try_clone_subregion(1, 2, ctx()).unwrap().ready().unwrap();
    assert_eq!(bits(part.as_slice()), bits(&[b(8.0), b(9.0)]));
    assert_eq!(
        s.try_clone_subregion(2, 2, ctx()).unwrap_err(),
        FerrotorchError::InvalidArgument {
            reason: Reason::RegionBeyondBuffer { offset: 2, count: 2, len: 3 }
        }
    );
    let handle = GpuBufferHandle { key: 9, len: 4, dtype: DType::BF16, ordinal: 1 };
    let g = TensorStorage::<Bf16>::gpu(handle);
    match g.try_clone_subregion(1, 2, with_backend()).unwrap() {
        Plan::Device(CloneJob::GpuBytes { source, start, end }) => {
            assert_eq!((source, start, end), (handle, 2, 6));
        }
        other => panic!("unexpected plan: {other:?}"),
    }
    match g.try_clone(with_backend()).unwrap() {
        Plan::Device(CloneJob::Gpu(h)) => assert_eq!(h, handle),
        other => panic!("unexpected plan: {other:?}"),
    }
    let cube = CubeBufferHandle { key: 1, len: 4, ordinal: 2 };
    let x = TensorStorage::<Bf16>::xpu_from_handle(cube, 2);
    assert_eq!(
        x.try_clone_subregion(1, 2, ctx()).unwrap_err(),
        FerrotorchError::InvalidArgument { reason: Reason::XpuRegion { offset: 1, count: 2 } }
    );
    assert_eq!(checked_byte_count(3, 4), Ok(12));
    assert_eq!(
        checked_byte_count(usize::MAX, 2),
        Err(FerrotorchError::InvalidArgument {
            reason: Reason::ByteCount { len: usize::MAX, size: 2 }
        })
    );
}

#[test]
fn errors_say_what_is_wrong() {
    assert_eq!(FerrotorchError::DeviceUnavailable.message(), "no backend serves the device");
    assert_eq!(
        FerrotorchError::InvalidArgument { reason: Reason::NotContiguous }.message(),
        "the elements do not stand one behind the other"
    );
}

#[test]
fn small_brain_float_results_are_exact() {
    let (zero, one) = (Bf16::zero(), Bf16::one());
    let minus_one = zero.sub(one);
    assert_eq!(minus_one.to_bits(), 0xBF80);
    let (two, minus_two) = (one.add(one), minus_one.add(minus_one));
    assert_eq!((two.to_bits(), minus_two.to_bits()), (0x4000, 0xC000));
    assert_eq!(two.sub(one).to_bits(), 0x3F80);
    assert_eq!(minus_two.sub(minus_one).to_bits(), 0xBF80);
    for bits in 0..=u16::MAX {
        let x = Bf16::from_bits(bits);
        if x.to_bits() == 0x7FC0 {
            continue;
        }
        assert_eq!(zero.add(x).to_bits(), if bits == 0x8000 { 0 } else { bits });
        assert_eq!(x.mul(one).to_bits(), bits);
        assert_eq!(x.mul(minus_one).to_bits(), bits ^ 0x8000);
    }
}

#[test]
fn brain_floats_are_ordered_as_numbers() {
    let (one, four) = (Bf16::one(), Bf16::from_bits(0x4080));
    assert!(one.is_below(four) && !four.is_below(one));
    let (plus, minus) = (Bf16::zero(), Bf16::from_bits(0x8000));
    assert!(plus.is_same(minus) && !plus.is_below(minus) && !minus.is_below(plus));
    assert_eq!(Bf16::from_bits(0xC080).abs().to_bits(), 0x4080);
}
