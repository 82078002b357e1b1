//! A growable, append-only buffer with a write cursor and clamped
//! read-only windows over the written portion.

use vstd::prelude::*;

verus! {

/// A write request: either a single element or a whole array, appended in
/// order. This is the only way the buffer is mutated.
pub enum Writable<T> {
    Single(T),
    Arr(Vec<T>),
}

/// An owned, growable sequence of elements. Elements are written once and
/// never mutated or removed; the cursor (`get_offset`) counts the elements
/// written so far, not any allocated capacity.
pub struct TypedBuffer<T> {
    data: Vec<T>,
}

impl<T> View for TypedBuffer<T> {
    type V = Seq<T>;

    closed spec fn view(&self) -> Seq<T> {
        self.data@
    }
}

/// The window of `s` of up to `len` elements starting at `start`, clamped
/// to the written portion: out-of-range starts and lengths never fail, they
/// shrink the window.
pub open spec fn window_spec<T>(s: Seq<T>, start: int, len: int) -> Seq<T> {
    let lo = if start <= s.len() {
        start
    } else {
        s.len() as int
    };
    let hi = if start + len <= s.len() {
        start + len
    } else {
        s.len() as int
    };
    if lo <= hi {
        s.subrange(lo, hi)
    } else {
        Seq::empty()
    }
}

impl<T> TypedBuffer<T> {
    /// An empty buffer with the cursor at zero.
    pub fn new() -> (r: Self)
        ensures
            r@ == Seq::<T>::empty(),
    {
        TypedBuffer { data: Vec::new() }
    }

    /// Appends one element, or all elements of an array in order; the
    /// cursor advances by the number of elements written.
    pub fn write(&mut self, w: Writable<T>)
        ensures
            (w matches Writable::Single(v) ==> final(self)@ == old(self)@.push(v)),
            (w matches Writable::Arr(a) ==> final(self)@ == old(self)@ + a@),
    {
        match w {
            Writable::Single(v) => {
                self.data.push(v);
            },
            Writable::Arr(mut a) => {
                self.data.append(&mut a);
            },
        }
    }

    /// The number of elements written so far.
    pub fn get_offset(&self) -> (r: usize)
        ensures
            r as nat == self@.len(),
    {
        self.data.len()
    }

    /// Whether nothing has been written yet.
    pub fn is_empty(&self) -> (r: bool)
        ensures
            r == (self@.len() == 0),
    {
        self.data.len() == 0
    }

    /// The element at position `i` of the written portion.
    pub fn get(&self, i: usize) -> (r: &T)
        requires
            i < self@.len(),
        ensures
            *r == self@[i as int],
    {
        &self.data[i]
    }

    /// A read-only window of up to `len` elements starting at `start`,
    /// clamped to the written portion.
    pub fn window(&self, start: usize, len: usize) -> (r: &[T])
        ensures
            r@ == window_spec(self@, start as int, len as int),
    {
        let n = self.data.len();
        let lo = if start < n {
            start
        } else {
            n
        };
        let hi = if len < n - lo {
            lo + len
        } else {
            n
        };
        let r = &self.data.as_slice()[lo..hi];
        proof {
            assert(r@ =~= window_spec(self@, start as int, len as int));
        }
        r
    }
}

} // verus!
