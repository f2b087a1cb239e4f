//! Chains of nested layers, kept on the stack while they are short.

use vstd::prelude::*;

verus! {

/// Up to how many items a chain grows in place.
const GROWTH_LIMIT: usize = usize::MAX / 32;

/// A layer and everything that encloses it, outermost first.
///
/// Up to four layers are held without an allocation.
#[verifier::external_body]
pub struct FilterChain {
    layers: smallvec::SmallVec<[usize; 4]>,
}

/// The items of a chain, in order.
pub uninterp spec fn chain_layers(chain: FilterChain) -> Seq<usize>;

impl View for FilterChain {
    type V = Seq<usize>;

    open spec fn view(&self) -> Seq<usize> {
        chain_layers(*self)
    }
}

impl FilterChain {
    /// Calls `smallvec::SmallVec::new`, which makes a vector without items.
    #[verifier::external_body]
    pub(crate) fn new() -> (r: FilterChain)
        ensures
            chain_layers(r) == Seq::<usize>::empty(),
    {
        FilterChain { layers: smallvec::SmallVec::new() }
    }

    /// Calls `smallvec::SmallVec::push`, which appends an item. It panics where the vector cannot
    /// grow because its size in bytes would leave the address space; the precondition stays well
    /// below that.
    #[verifier::external_body]
    fn append(&mut self, layer: usize)
        requires
            chain_layers(*old(self)).len() < GROWTH_LIMIT,
        ensures
            chain_layers(*final(self)) == chain_layers(*old(self)).push(layer),
    {
        self.layers.push(layer);
    }

    /// Calls `reverse` on the slice that `smallvec::SmallVec` dereferences to, which puts its
    /// items into the opposite order.
    #[verifier::external_body]
    pub(crate) fn reverse(&mut self)
        ensures
            chain_layers(*final(self)) == chain_layers(*old(self)).reverse(),
    {
        self.layers.reverse();
    }

    /// Calls `smallvec::SmallVec::into_vec`, which moves the items into a `Vec`, in order.
    #[verifier::external_body]
    fn unpacked(self) -> (r: Vec<usize>)
        ensures
            r@ == chain_layers(self),
    {
        self.layers.into_vec()
    }

    /// Calls `smallvec::SmallVec::from_vec`, which takes over the items of a `Vec`, in order.
    #[verifier::external_body]
    fn packed(layers: Vec<usize>) -> (r: FilterChain)
        ensures
            chain_layers(r) == layers@,
    {
        FilterChain { layers: smallvec::SmallVec::from_vec(layers) }
    }

    /// Calls `smallvec::SmallVec::len`, which counts the items.
    #[verifier::external_body]
    fn count(&self) -> (r: usize)
        ensures
            r == chain_layers(*self).len(),
    {
        self.layers.len()
    }

    /// Calls the `Index` of `smallvec::SmallVec`, which reads the item at a place. It panics where
    /// there is none, which the precondition rules out.
    #[verifier::external_body]
    fn item(&self, i: usize) -> (r: usize)
        requires
            i < chain_layers(*self).len(),
        ensures
            r == chain_layers(*self)[i as int],
    {
        self.layers[i]
    }

    /// Appends a layer.
    pub(crate) fn push(&mut self, layer: usize)
        ensures
            final(self)@ == old(self)@.push(layer),
    {
        if self.count() < GROWTH_LIMIT {
            self.append(layer);
        } else {
            let mut chain = FilterChain::new();
            std::mem::swap(self, &mut chain);
            let mut layers = chain.unpacked();
            layers.push(layer);
            *self = FilterChain::packed(layers);
        }
    }

    /// How many layers the chain holds.
    pub fn len(&self) -> (r: usize)
        ensures
            r == self@.len(),
    {
        self.count()
    }

    /// The layer at a place in the chain, counted from the outermost.
    pub fn get(&self, i: usize) -> (r: usize)
        requires
            i < self@.len(),
        ensures
            r == self@[i as int],
    {
        self.item(i)
    }

    /// The layers of the chain, outermost first.
    pub fn into_vec(self) -> (r: Vec<usize>)
        ensures
            r@ == self@,
    {
        self.unpacked()
    }
}

} // verus!
