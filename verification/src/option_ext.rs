//! `Option` extensions.

use vstd::prelude::*;

verus! {

/// Takes two `Option`s and returns a single `Option` wrapping both inner
/// values. If either `Option` is `None`, the result will also be `None`.
pub fn lift2<A, B>(a: Option<A>, b: Option<B>) -> (r: Option<(A, B)>)
    ensures
        match r {
            Some(p) => a == Some(p.0) && b == Some(p.1),
            None => a is None || b is None,
        },
{
    match (a, b) {
        (Some(ai), Some(bi)) => Some((ai, bi)),
        _ => None,
    }
}

/// Takes three `Option`s and returns a single `Option` wrapping all inner
/// values. If any `Option` is `None`, the result will also be `None`.
pub fn lift3<A, B, C>(a: Option<A>, b: Option<B>, c: Option<C>) -> (r: Option<(A, B, C)>)
    ensures
        match r {
            Some(t) => a == Some(t.0) && b == Some(t.1) && c == Some(t.2),
            None => a is None || b is None || c is None,
        },
{
    match (a, b, c) {
        (Some(ai), Some(bi), Some(ci)) => Some((ai, bi, ci)),
        _ => None,
    }
}

} // verus!
