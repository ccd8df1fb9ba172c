//! Identities and the mode that operations run in.

use vstd::prelude::*;

verus! {

/// A unique, monotonically increasing tensor identifier.
#[derive(Clone, Copy, Debug, PartialEq, Eq, Hash, Structural)]
pub struct TensorId(pub u64);

impl TensorId {
    /// The `n`-th identifier handed out by a counter that stood at `start`.
    pub open spec fn nth(start: u64, n: int) -> TensorId {
        TensorId(((start + n) % 0x1_0000_0000_0000_0000) as u64)
    }

    /// The next identifier. The counter starts anew after its last value.
    pub fn next(counter: &mut u64) -> (r: Self)
        ensures
            r == Self::nth(*old(counter), 0),
            *final(counter) == Self::nth(*old(counter), 1).0,
    {
        let id: u64 = *counter;
        *counter = if id == u64::MAX {
            0
        } else {
            id + 1
        };
        TensorId(id)
    }
}

/// The counter after `n` calls of [`TensorId::next`].
pub open spec fn counter_after(start: u64, n: nat) -> u64
    decreases n,
{
    if n == 0 {
        start
    } else {
        TensorId::nth(counter_after(start, (n - 1) as nat), 1).0
    }
}

proof fn lemma_counter_after(start: u64, n: nat)
    ensures
        counter_after(start, n) as int == (start + n) % 0x1_0000_0000_0000_0000,
    decreases n,
{
    if n > 0 {
        lemma_counter_after(start, (n - 1) as nat);
        let a = start + (n - 1);
        assert((a % 0x1_0000_0000_0000_0000 + 1) % 0x1_0000_0000_0000_0000 == (a + 1)
            % 0x1_0000_0000_0000_0000);
    }
}

/// Two of the identifiers that one counter hands out are equal only if they
/// are a whole turn of the counter apart.
pub proof fn lemma_ids_distinct(start: u64, i: nat, j: nat)
    requires
        i < j,
        j - i < 0x1_0000_0000_0000_0000,
    ensures
        TensorId::nth(counter_after(start, i), 0) != TensorId::nth(counter_after(start, j), 0),
{
    lemma_counter_after(start, i);
    lemma_counter_after(start, j);
}

/// The identifiers of a counter go up by one, and after the last one begin anew at zero.
pub proof fn lemma_ids_increase(start: u64, n: nat)
    ensures
        TensorId::nth(start, 0).0 == start,
        counter_after(start, 0) == start,
        counter_after(start, n) < u64::MAX ==> counter_after(start, n + 1) == counter_after(start, n)
            + 1,
        counter_after(start, n) == u64::MAX ==> counter_after(start, n + 1) == 0,
{
}

/// The outcome of an operation part of which may have to run on a device: the
/// result, or the job that a device backend has to do first.
#[derive(Debug)]
pub enum Plan<R, J> {
    /// The result.
    Ready(R),
    /// What the backend has to do.
    Device(J),
}

impl<R, J> Plan<R, J> {
    /// The result, if no device is needed.
    pub fn ready(self) -> (r: Option<R>)
        ensures
            r == (match self {
                Plan::Ready(x) => Some(x),
                Plan::Device(_) => None,
            }),
    {
        match self {
            Plan::Ready(x) => Some(x),
            Plan::Device(_) => None,
        }
    }
}

/// What the surroundings of an operation decide.
#[derive(Clone, Copy, Debug, PartialEq, Eq, Structural)]
pub struct Context {
    /// Whether gradients are recorded.
    pub grad_enabled: bool,
    /// Whether inference mode is on.
    pub inference: bool,
    /// Whether a CUDA backend is registered.
    pub backend: bool,
    /// The identity that a new tensor gets.
    pub fresh: TensorId,
}

impl Context {
    /// Gradients are recorded, inference mode is off, there is no CUDA backend.
    pub fn host(fresh: TensorId) -> (r: Self)
        ensures
            r == (Context { grad_enabled: true, inference: false, backend: false, fresh }),
    {
        Context { grad_enabled: true, inference: false, backend: false, fresh }
    }
}

} // verus!
