//! The list adapter: a finite sequence of converted elements together with
//! the cleanup policy its native counterpart demands. Consuming the adapter
//! (`into_vec`) is its one end-of-life event, so by move semantics the
//! policy can neither be applied twice nor skipped while readers remain.

use vstd::prelude::*;

verus! {

/// Cleanup policy a native list view would carry: nothing to free, only the
/// list nodes (shallow), or nodes and items both (deep).
#[derive(Clone, Copy, Debug, PartialEq, Eq, Structural)]
pub enum FreeMethod {
    /// The underlying list is owned elsewhere; never freed by the adapter.
    NoFree,
    /// The list nodes are released at end-of-life; the items are not.
    FreeList,
    /// Nodes and items are both released at end-of-life.
    FreeFull,
}

/// A finite list view with a declared cleanup policy.
#[derive(Debug)]
pub struct AlpmList<T> {
    items: Vec<T>,
    free: FreeMethod,
}

impl<T: DeepView> View for AlpmList<T> {
    type V = Seq<<T as DeepView>::V>;

    closed spec fn view(&self) -> Seq<<T as DeepView>::V> {
        self.items.deep_view()
    }
}

impl<T: DeepView> AlpmList<T> {
    /// The declared cleanup policy, as a spec value.
    pub closed spec fn spec_free_method(&self) -> FreeMethod {
        self.free
    }

    /// A list view over already-converted elements, tagged with the policy
    /// its native counterpart would require.
    pub(crate) fn from_vec(items: Vec<T>, free: FreeMethod) -> (r: AlpmList<T>)
        ensures
            r@ == items.deep_view(),
            r.spec_free_method() == free,
    {
        AlpmList { items, free }
    }

    /// The declared cleanup policy.
    pub fn free_method(&self) -> (r: FreeMethod)
        ensures
            r == self.spec_free_method(),
    {
        self.free
    }

    /// How many elements the list holds.
    pub fn len(&self) -> (r: usize)
        ensures
            r == self@.len(),
    {
        self.items.len()
    }

    /// The element at `i`. Reading is non-destructive: the list can be
    /// traversed any number of times.
    pub fn get(&self, i: usize) -> (r: &T)
        requires
            i < self@.len(),
        ensures
            r.deep_view() == self@[i as int],
    {
        &self.items[i]
    }

    /// Consumes the list and hands its elements out. This is the adapter's
    /// single end-of-life point: after it, the value is gone and its cleanup
    /// policy cannot be applied again.
    pub fn into_vec(self) -> (r: Vec<T>)
        ensures
            r.deep_view() == self@,
    {
        self.items
    }
}

} // verus!
