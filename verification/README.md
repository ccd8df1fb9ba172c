# ferrotorch_core

Tensors, sparse matrices and special functions, verified with Verus.

- `src/` is the library. Every function states in its contract what it returns or
  changes, and every contract is proved. Laws that relate several functions are public
  proof functions next to them.
  - Shapes and views: `shape`, `strided`, `scatter`, `broadcast`, `limits`.
  - Tensors: `storage`, `tensor`, `format`, `stride_tricks`, `transfer`, `update`,
    `gradients`.
  - Sparse data: `entries`, `layout`, `regroup`, `sparse_tensor`, `matrix`, `csc`,
    `ranking`, `semi24`, `matmul24`, `sparse_grad`.
  - Functions of elements: `polynomial`, `special`, `special_apply`,
    `special_functions`.
  - `dtype` declares what an element type can do, and `bf16` is one.
- `app/` adds what cannot be verified here: numbers of type `f32` and `f64` and the
  numeric kernels on them, the state of a process, and the device backends.
- `tests/` runs the library.

An operation that a device has to take part in returns a `Plan`: either the result, or
a job that says what the device has to do. A `finish_` function turns what the device
made into the result.

Tensors share storage, and storage is a value here: an operation that writes takes the
storage as `target` and changes that. `Tensor::over_storage` then gives each tensor over
it as it reads after the write.
