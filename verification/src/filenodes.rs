//! How a cache of file nodes answers.
//!
//! The cache stores what a lookup found. A lookup that finds nothing is no
//! error of the store, but the cache has nothing to keep for it: to the
//! cache it is a failure without a cause, and the cache's answer turns it
//! back into "nothing found".

use vstd::prelude::*;

verus! {

/// What the store's answer looks like to the cache that is to be filled: a
/// value that was found is kept; nothing found is a failure without a
/// cause; an error is a failure with the error as cause.
pub open spec fn filled<T, E>(found: Result<Option<T>, E>) -> Result<T, Option<E>> {
    match found {
        Ok(Some(v)) => Ok(v),
        Ok(None) => Err(None),
        Err(e) => Err(Some(e)),
    }
}

/// What the cache answers for what it holds or failed to get: a value is
/// found; a failure without a cause is nothing found; a failure with a
/// cause is that error.
pub open spec fn answered<T, E>(cached: Result<T, Option<E>>) -> Result<Option<T>, E> {
    match cached {
        Ok(v) => Ok(Some(v)),
        Err(None) => Ok(None),
        Err(Some(e)) => Err(e),
    }
}

/// Turns the store's answer into what the cache is filled with.
pub fn fill_answer<T, E>(found: Result<Option<T>, E>) -> (r: Result<T, Option<E>>)
    ensures
        r == filled(found),
{
    match found {
        Ok(Some(v)) => Ok(v),
        Ok(None) => Err(None),
        Err(e) => Err(Some(e)),
    }
}

/// Turns what the cache holds or failed to get into the cache's answer.
pub fn cache_answer<T, E>(cached: Result<T, Option<E>>) -> (r: Result<Option<T>, E>)
    ensures
        r == answered(cached),
{
    match cached {
        Ok(v) => Ok(Some(v)),
        Err(None) => Ok(None),
        Err(Some(e)) => Err(e),
    }
}

/// The cache answers as the store does: what the store answered comes out
/// of the cache unchanged.
pub proof fn lemma_cache_answers_as_store<T, E>(found: Result<Option<T>, E>)
    ensures
        answered(filled(found)) == found,
{
}

} // verus!
