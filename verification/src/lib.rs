//! Tensor core: strided tensors, their storage and the sparse layouts.

use vstd::prelude::*;

pub mod autograd;
pub mod bf16;
pub mod broadcast;
pub mod broadcast_laws;
pub mod csc;
pub mod device;
pub mod device_laws;
pub mod dtype;
pub mod entries;
pub mod error;
pub mod format;
pub mod gradients;
pub mod handover_laws;
pub mod history_laws;
pub mod layout;
pub mod limits;
pub mod matmul24;
pub mod matrix;
pub mod polynomial;
pub mod polynomial_laws;
pub mod ranking;
pub mod refusal_laws;
pub mod regroup;
pub mod scatter;
pub mod semi24;
pub mod shape;
pub mod sparse_grad;
pub mod sparse_laws;
pub mod sparse_tensor;
pub mod special;
pub mod special_apply;
pub mod special_functions;
pub mod special_laws;
pub mod storage;
pub mod stride_tricks;
pub mod strided;
pub mod tensor;
pub mod tensor_laws;
pub mod transfer;
pub mod update;
pub mod view_laws;

verus! {

} // verus!
