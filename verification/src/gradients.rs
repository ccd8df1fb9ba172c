//! The gradients of tensors, kept by object: all copies of a tensor share theirs, and a
//! new object starts without one.

use crate::autograd::{Context, Plan};
use crate::dtype::Float;
use crate::error::FerrotorchResult;
use crate::storage::TensorStorage;
use crate::tensor::Tensor;
use crate::transfer::AccumulateJob;
use std::collections::HashMap;
use vstd::prelude::*;

verus! {

/// Gradients by the object that they belong to.
#[derive(Debug)]
pub struct GradStore<T: Float> {
    grads: HashMap<u64, Tensor<T>>,
}

impl<T: Float> GradStore<T> {
    /// The gradients, by object.
    pub closed spec fn all(&self) -> Map<u64, Tensor<T>> {
        self.grads@
    }

    /// The gradient of an object, if there is one.
    pub open spec fn at(&self, object: u64) -> Option<Tensor<T>> {
        if self.all().contains_key(object) {
            Some(self.all()[object])
        } else {
            None
        }
    }

    /// No gradients.
    pub fn new() -> (r: Self)
        ensures
            r.all() == Map::<u64, Tensor<T>>::empty(),
    {
        GradStore { grads: HashMap::new() }
    }
}

impl<T: Float> Tensor<T> {
    /// The gradient of the tensor, if it has one.
    pub fn grad(&self, store: &GradStore<T>) -> (r: Option<Tensor<T>>)
        ensures
            r == store.at(self.inner.object.0),
    {
        broadcast use vstd::std_specs::hash::group_hash_axioms;

        match store.grads.get(&self.inner.object.0) {
            Some(g) => Some(g.clone()),
            None => None,
        }
    }

    /// Sets, replaces or removes the gradient of the tensor.
    pub fn set_grad(&self, store: &mut GradStore<T>, grad: Option<Tensor<T>>)
        ensures
            final(store).at(self.inner.object.0) == grad,
            forall|k: u64| k != self.inner.object.0 ==> #[trigger] final(store).at(k) == old(store).at(k),
    {
        broadcast use vstd::std_specs::hash::group_hash_axioms;

        match grad {
            Some(g) => {
                store.grads.insert(self.inner.object.0, g);
            },
            None => {
                store.grads.remove(&self.inner.object.0);
            },
        }
    }

    /// Removes the gradient of the tensor.
    pub fn zero_grad(&self, store: &mut GradStore<T>)
        ensures
            final(store).at(self.inner.object.0) is None,
            forall|k: u64| k != self.inner.object.0 ==> #[trigger] final(store).at(k) == old(store).at(k),
    {
        self.set_grad(store, None)
    }

    /// Adds `incoming` to the gradient of the tensor.
    pub fn accumulate_grad(
        &self,
        store: &mut GradStore<T>,
        incoming: &Tensor<T>,
        ctx: Context,
    ) -> (r: FerrotorchResult<Plan<(), AccumulateJob>>)
        requires
            incoming.wf(),
            incoming.inner.storage.on_host() && !incoming.contiguous_spec()
                ==> incoming.in_bounds(),
            old(store).at(self.inner.object.0) matches Some(g) ==> g.wf() && (g.inner.storage.on_host()
                && !g.contiguous_spec() ==> g.in_bounds()),
        ensures
            Self::accumulate_outcome(
                old(store).at(self.inner.object.0),
                incoming,
                ctx,
                final(store).at(self.inner.object.0),
                r,
            ),
            forall|k: u64| k != self.inner.object.0 ==> #[trigger] final(store).at(k) == old(store).at(k),
    {
        let mut slot: Option<Tensor<T>> = self.grad(store);
        let r: FerrotorchResult<Plan<(), AccumulateJob>> = Tensor::accumulate_into(
            &mut slot,
            incoming,
            ctx,
        );
        self.set_grad(store, slot);
        r
    }

    /// Makes what a device made of the gradient of the tensor and `incoming` its gradient.
    pub fn finish_accumulate_grad(
        &self,
        store: &mut GradStore<T>,
        incoming: &Tensor<T>,
        storage: TensorStorage<T>,
        ctx: Context,
    ) -> (r: FerrotorchResult<()>)
        requires
            incoming.wf(),
            old(store).at(self.inner.object.0) matches Some(g) ==> g.wf(),
            storage.wf(),
        ensures
            Self::finish_accumulate_outcome(
                old(store).at(self.inner.object.0),
                incoming,
                storage,
                ctx,
                final(store).at(self.inner.object.0),
                r,
            ),
            forall|k: u64| k != self.inner.object.0 ==> #[trigger] final(store).at(k) == old(store).at(k),
    {
        let mut slot: Option<Tensor<T>> = self.grad(store);
        let r: FerrotorchResult<()> = Tensor::finish_accumulate(&mut slot, incoming, storage, ctx);
        self.set_grad(store, slot);
        r
    }
}

/// A gradient belongs to one object: setting that of a tensor sets that of its copies,
/// and that of no other object, not even of one with the same identity.
pub proof fn lemma_gradient_of_object<T: Float>(
    t: &Tensor<T>,
    other: &Tensor<T>,
    before: &GradStore<T>,
    after: &GradStore<T>,
    grad: Option<Tensor<T>>,
)
    requires
        after.at(t.inner.object.0) == grad,
        forall|k: u64| k != t.inner.object.0 ==> #[trigger] after.at(k) == before.at(k),
    ensures
        other.inner.object == t.inner.object ==> after.at(other.inner.object.0) == grad,
        other.inner.object != t.inner.object ==> after.at(other.inner.object.0) == before.at(
            other.inner.object.0,
        ),
{
}

} // verus!
