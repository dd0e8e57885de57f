//! Atomic multi-cell transforms.
//!
//! Each function here takes exclusive borrows of several cells at once,
//! runs one caller-supplied function over all their current values, and
//! writes every result back before returning.  Holding all the `&mut`
//! borrows for the whole call is what makes the compound step
//! indivisible: no other operation on any of the involved cells can
//! observe a partially-updated set, and the transform function sees a
//! mutually consistent set of values.
//!
//! The cells are passed in a fixed order; call sites that share cells
//! must agree on that order.

use vstd::prelude::*;

use crate::data_access::Da;
use crate::data_access::Oda;

verus! {

/// The value an optional borrow stands for.
pub open spec fn borrowed<A>(x: Option<&A>) -> Option<A> {
    match x {
        Some(r) => Some(*r),
        None => None,
    }
}

/// The values a pair of optional borrows stands for.
pub open spec fn borrowed_pair<A, B>(x: Option<&A>, y: Option<&B>) -> (Option<A>, Option<B>) {
    (borrowed(x), borrowed(y))
}

/// Locks two mandatory cells together, applies `func` to their current
/// values, and installs both results before releasing either cell.
pub fn locking_mutate2<A, B, Func: FnOnce(&A, &B) -> (A, B)>(a: &mut Da<A>, b: &mut Da<B>, func: Func)
    requires
        call_requires(func, (&old(a)@, &old(b)@)),
    ensures
        call_ensures(func, (&old(a)@, &old(b)@), (final(a)@, final(b)@)),
{
    let current_a = a.get();
    let current_b = b.get();
    let (new_a, new_b) = func(&*current_a, &*current_b);
    a.set(new_a);
    b.set(new_b);
}

/// Locks three mandatory cells together, applies `func` to their
/// current values, and installs all three results before releasing any
/// cell.
pub fn locking_mutate3<A, B, C, Func: FnOnce(&A, &B, &C) -> (A, B, C)>(
    a: &mut Da<A>,
    b: &mut Da<B>,
    c: &mut Da<C>,
    func: Func,
)
    requires
        call_requires(func, (&old(a)@, &old(b)@, &old(c)@)),
    ensures
        call_ensures(func, (&old(a)@, &old(b)@, &old(c)@), (final(a)@, final(b)@, final(c)@)),
{
    let current_a = a.get();
    let current_b = b.get();
    let current_c = c.get();
    let (new_a, new_b, new_c) = func(&*current_a, &*current_b, &*current_c);
    a.set(new_a);
    b.set(new_b);
    c.set(new_c);
}

/// Locks a mandatory and an optional cell together, applies `func` to
/// their current values, and installs both results before releasing
/// either cell.
pub fn locking_mutate_mixed<A, B, Func: FnOnce(&A, Option<&B>) -> (A, Option<B>)>(
    a: &mut Da<A>,
    b: &mut Oda<B>,
    func: Func,
)
    requires
        forall|y: Option<&B>| borrowed(y) == old(b)@ ==> call_requires(func, (&old(a)@, y)),
    ensures
        exists|y: Option<&B>|
            borrowed(y) == old(b)@ && call_ensures(func, (&old(a)@, y), (final(a)@, final(b)@)),
{
    let current_a = a.get();
    let current_b = b.get();
    let borrowed_b = match &current_b {
        Some(r) => Some(&**r),
        None => None,
    };
    proof {
        assert(borrowed(borrowed_b) == old(b)@);
    }
    let (new_a, new_b) = func(&*current_a, borrowed_b);
    a.set(new_a);
    b.set_optional(new_b);
}

/// Locks two optional cells together, applies `func` to their current
/// values (absent values are passed as `None`), and installs both
/// results before releasing either cell.
pub fn locking_mutate2_optional<A, B, Func: FnOnce(Option<&A>, Option<&B>) -> (Option<A>, Option<B>)>(
    a: &mut Oda<A>,
    b: &mut Oda<B>,
    func: Func,
)
    requires
        forall|x: Option<&A>, y: Option<&B>|
            borrowed_pair(x, y) == (old(a)@, old(b)@) ==> call_requires(func, (x, y)),
    ensures
        exists|x: Option<&A>, y: Option<&B>|
            borrowed_pair(x, y) == (old(a)@, old(b)@) && call_ensures(
                func,
                (x, y),
                (final(a)@, final(b)@),
            ),
{
    let current_a = a.get();
    let current_b = b.get();
    let borrowed_a = match &current_a {
        Some(r) => Some(&**r),
        None => None,
    };
    let borrowed_b = match &current_b {
        Some(r) => Some(&**r),
        None => None,
    };
    proof {
        assert(borrowed_pair(borrowed_a, borrowed_b) == (old(a)@, old(b)@));
    }
    let (new_a, new_b) = func(borrowed_a, borrowed_b);
    a.set_optional(new_a);
    b.set_optional(new_b);
}

} // verus!
