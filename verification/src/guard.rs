//! Scoped rollback guard: a single-use deferred action.
//!
//! A guard wraps exactly one pending action. The action is handed out at
//! most once: either the guard is cancelled (the action is discarded and
//! never performed) or it is fired (the action is surrendered to the
//! caller, who performs it exactly once on the failure path). Because
//! both operations consume the guard, "at most once" holds by ownership
//! alone. Failure is represented as an `Err` value travelling up an
//! early-return discipline; the guard contract is the same whichever way
//! failures are propagated.

use vstd::prelude::*;

verus! {

/// A single-use deferred rollback action, armed on creation.
pub struct Guard<A> {
    pending: Option<A>,
}

impl<A> Guard<A> {
    /// Whether the guard still holds its action.
    pub closed spec fn armed(self) -> bool {
        self.pending is Some
    }

    /// The action the guard was armed with.
    pub closed spec fn action(self) -> A
        recommends
            self.armed(),
    {
        self.pending->Some_0
    }

    /// Arms a new guard over `action`. No side effect occurs here: the
    /// action is only stored.
    pub fn new(action: A) -> (g: Guard<A>)
        ensures
            g.armed(),
            g.action() == action,
    {
        Guard { pending: Some(action) }
    }

    /// Consumes the guard without surrendering its action: the action is
    /// discarded and can never be performed afterwards.
    pub fn cancel(self)
    {
    }

    /// Consumes the guard on the failure path and surrenders the action
    /// so the caller can perform it, exactly once.
    pub fn fire(self) -> (a: A)
        requires
            self.armed(),
        ensures
            a == self.action(),
    {
        match self.pending {
            Some(a) => a,
            None => unreached(),
        }
    }
}

/// Runs `f`; if it fails, performs the rollback action `g` before the
/// failure continues to propagate, unchanged. On success `g` is never
/// performed. This is the composition step of the protocol: nesting two
/// of these runs the inner rollback before the outer one, because the
/// inner call returns (and rolls back) first.
pub fn guard_on_unwind<R, E, F, G>(f: F, g: G) -> (r: Result<R, E>) where
    F: FnOnce() -> Result<R, E>,
    G: FnOnce(),
    requires
        call_requires(f, ()),
        call_requires(g, ()),
    ensures
        call_ensures(f, (), r),
        r is Err ==> call_ensures(g, (), ()),
{
    let guard = Guard::new(g);
    match f() {
        Ok(v) => {
            guard.cancel();
            Ok(v)
        }
        Err(e) => {
            let rollback = guard.fire();
            rollback();
            Err(e)
        }
    }
}

} // verus!
