use vstd::prelude::*;

verus! {

/// A one-shot memoized byte length with explicit invalidation.
///
/// The cell is either unset or holds the serialized size of the object
/// it is attached to.  A length prefix must be written before its
/// payload, so the size has to be known ahead of the write pass; the
/// cell keeps one computed size until a mutation clears it.
#[derive(Clone, Copy, Debug)]
pub struct CachedSize {
    size: Option<u32>,
}

impl View for CachedSize {
    type V = Option<u32>;

    closed spec fn view(&self) -> Option<u32> {
        self.size
    }
}

impl CachedSize {
    /// A cell with no size recorded.
    pub fn unset() -> (r: CachedSize)
        ensures
            r@ is None,
    {
        CachedSize { size: None }
    }

    /// Is a size recorded?
    pub fn is_set(&self) -> (r: bool)
        ensures
            r == (self@ is Some),
    {
        self.size.is_some()
    }

    /// The recorded size, if any.
    pub fn get(&self) -> (r: Option<u32>)
        ensures
            r == self@,
    {
        self.size
    }

    /// Forces the cell back to unset.
    pub fn clear(&mut self)
        ensures
            final(self)@ is None,
    {
        self.size = None;
    }

    /// Records `size` directly, overwriting whatever was there.
    pub fn set(&mut self, size: u32)
        ensures
            final(self)@ == Some(size),
    {
        self.size = Some(size);
    }

    /// Returns the recorded size if one is set; otherwise invokes
    /// `compute`, records its result, and returns it.  The computation
    /// runs only when the cell was unset.
    pub fn get_or_set_from<F: FnOnce() -> u32>(&mut self, compute: F) -> (r: u32)
        requires
            old(self)@ is None ==> call_requires(compute, ()),
        ensures
            match old(self)@ {
                Some(n) => r == n && final(self)@ == old(self)@,
                None => call_ensures(compute, (), r) && final(self)@ == Some(r),
            },
    {
        match self.size {
            Some(n) => n,
            None => {
                let computed: u32 = compute();
                self.size = Some(computed);
                computed
            },
        }
    }
}

} // verus!
