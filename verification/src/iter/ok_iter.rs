//! Adapter that lets a consumer of fallible items work on plain values
//! while the first error is latched aside.

use vstd::prelude::*;

verus! {

/// Filter for a stream of `Result`s.
///
/// As long as no error has been seen, `offer` forwards `Ok` values. The
/// first `Err` is latched into the error slot and terminates the stream:
/// afterwards nothing is forwarded, and the slot is never overwritten.
pub struct OkIter<T, E> {
    err: Option<E>,
    passed: Ghost<Seq<T>>,
}

impl<T, E> OkIter<T, E> {
    /// The latched error, if any.
    pub closed spec fn error(&self) -> Option<E> {
        self.err
    }

    /// All values forwarded so far.
    pub closed spec fn passed(&self) -> Seq<T> {
        self.passed@
    }

    /// Creates a new `OkIter` with an empty error slot.
    pub fn new() -> (r: OkIter<T, E>)
        ensures
            r.error() is None,
            r.passed() == Seq::<T>::empty(),
    {
        OkIter { err: Option::None, passed: Ghost(Seq::empty()) }
    }

    /// Feeds the next item of the wrapped stream through the adapter.
    pub fn offer(&mut self, item: Result<T, E>) -> (r: Option<T>)
        ensures
            ({
                match old(self).error() {
                    Option::Some(_) => {
                        &&& r is None
                        &&& final(self).error() == old(self).error()
                        &&& final(self).passed() == old(self).passed()
                    },
                    Option::None => {
                        match item {
                            Result::Ok(v) => {
                                &&& r == Option::Some(v)
                                &&& final(self).error() is None
                                &&& final(self).passed() == old(self).passed().push(v)
                            },
                            Result::Err(e) => {
                                &&& r is None
                                &&& final(self).error() == Option::Some(e)
                                &&& final(self).passed() == old(self).passed()
                            },
                        }
                    },
                }
            }),
    {
        if self.err.is_some() {
            return Option::None;
        }
        match item {
            Result::Ok(v) => {
                proof {
                    self.passed@ = self.passed@.push(v);
                }
                Option::Some(v)
            },
            Result::Err(e) => {
                self.err = Option::Some(e);
                Option::None
            },
        }
    }

    /// Reads the error slot.
    pub fn err(&self) -> (r: &Option<E>)
        ensures
            *r == self.error(),
    {
        &self.err
    }

    /// Hands the error slot back, consuming the adapter.
    pub fn into_err(self) -> (r: Option<E>)
        ensures
            r == self.error(),
    {
        self.err
    }
}

} // verus!
