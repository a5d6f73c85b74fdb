use vstd::prelude::*;

verus! {

/// A value computed on first use and kept afterwards.
pub struct Lazy<T> {
    value: Option<T>,
}

impl<T> Lazy<T> {
    /// What the cell holds: nothing until the first `get`.
    pub closed spec fn held(&self) -> Option<T> {
        self.value
    }

    /// An empty cell.
    pub fn new() -> (r: Self)
        ensures
            r.held() is None,
    {
        Lazy { value: None }
    }

    /// The held value; on the first call it is computed by `f` and kept.
    pub fn get<F: FnOnce() -> T>(&mut self, f: F) -> (r: &T)
        requires
            old(self).held() is None ==> f.requires(()),
        ensures
            final(self).held() == Some(*r),
            old(self).held() is Some ==> *r == old(self).held()->0,
            old(self).held() is None ==> f.ensures((), *r),
    {
        if self.value.is_none() {
            let v = f();
            self.value = Some(v);
        }
        self.value.as_ref().unwrap()
    }
}

} // verus!
