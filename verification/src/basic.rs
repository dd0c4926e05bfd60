//! A single-valued memoiser.
//!
//! `Cached` pairs a source value with an optional produced value. The first
//! successful call of `get` runs the producer over the source and retains the
//! result; later calls return the retained value without running the producer
//! again. A failing producer leaves the store empty, so a later call may try
//! again.

use crate::Error;
use vstd::prelude::*;

verus! {

/// A source together with an at-most-once produced value derived from it.
pub struct Cached<S, T> {
    /// The value the producer derives the cached value from.
    pub source: S,
    /// The produced value, once the producer has succeeded. Callers read it
    /// through `get`; it starts out empty.
    pub store: Option<T>,
}

impl<S, T> Cached<S, T> {
    /// An empty cache over the given source.
    pub fn new(source: S) -> (r: Cached<S, T>)
        ensures
            r.source == source,
            r.store is None,
    {
        Cached { source, store: None }
    }

    /// The retained value on hand, or the producer's result over the source:
    /// a success is stored, and every later call returns that same value.
    pub fn get<F: Fn(&S) -> Result<T, Error>>(&mut self, producer: F) -> (r: Result<
        &T,
        Error,
    >)
        requires
            call_requires(producer, (&old(self).source,)),
        ensures
            final(self).source == old(self).source,
            match r {
                Ok(v) => {
                    &&& final(self).store == Some(*v)
                    &&& (old(self).store is Some ==> old(self).store == Some(*v))
                    &&& (old(self).store is None ==> call_ensures(
                        producer,
                        (&old(self).source,),
                        Ok(*v),
                    ))
                },
                Err(e) => {
                    &&& old(self).store is None
                    &&& final(self).store is None
                    &&& call_ensures(producer, (&old(self).source,), Err(e))
                },
            },
    {
        if self.store.is_none() {
            match producer(&self.source) {
                Ok(v) => {
                    self.store = Some(v);
                },
                Err(e) => {
                    return Err(e);
                },
            }
        }
        match &self.store {
            Some(v) => Ok(v),
            None => vstd::pervasive::unreached(),
        }
    }
}

} // verus!
