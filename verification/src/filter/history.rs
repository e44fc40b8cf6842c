//! Three-slot sample-history ring used by the IIR filter.
//!
//! The ring is `arraydeque::ArrayDeque` with wrapping behaviour:
//! pushing at the front of a full ring evicts the backmost element.
//! Verus cannot take the deque's own generic declaration, so the ring
//! is held inside an opaque struct; its contents are modelled by
//! [`hist_contents`], front first, and the wrappers below state over
//! that model what each call does, exactly as the crate's source shows.

use vstd::prelude::*;

verus! {

/// An opaque three-slot ring of samples.
#[verifier::external_body]
pub struct HistoryRing {
    ring: arraydeque::ArrayDeque<i64, 3, arraydeque::Wrapping>,
}

/// The samples held by a history ring, front (newest) first.
pub uninterp spec fn hist_contents(d: HistoryRing) -> Seq<i64>;

/// Relies on `ArrayDeque::new`: a fresh deque is empty.
#[verifier::external_body]
pub fn hist_new() -> (d: HistoryRing)
    ensures
        hist_contents(d) == Seq::<i64>::empty(),
{
    HistoryRing { ring: arraydeque::ArrayDeque::new() }
}

/// Relies on `ArrayDeque::push_front` (wrapping): the element lands at
/// the front, and the backmost element is evicted when the ring is full.
#[verifier::external_body]
pub fn hist_push_front(d: &mut HistoryRing, x: i64) -> (evicted: Option<i64>)
    ensures
        hist_contents(*old(d)).len() < 3 ==> {
            &&& evicted is None
            &&& hist_contents(*final(d)) == seq![x] + hist_contents(*old(d))
        },
        hist_contents(*old(d)).len() == 3 ==> {
            &&& evicted == Some(hist_contents(*old(d))[2])
            &&& hist_contents(*final(d)) == seq![x] + hist_contents(*old(d)).take(2)
        },
{
    d.ring.push_front(x)
}

/// Relies on `ArrayDeque::pop_back`: removes and returns the backmost
/// element, or `None` when the ring is empty.
#[verifier::external_body]
pub fn hist_pop_back(d: &mut HistoryRing) -> (r: Option<i64>)
    ensures
        hist_contents(*old(d)).len() == 0 ==> {
            &&& r is None
            &&& hist_contents(*final(d)) == hist_contents(*old(d))
        },
        hist_contents(*old(d)).len() > 0 ==> {
            &&& r == Some(hist_contents(*old(d)).last())
            &&& hist_contents(*final(d)) == hist_contents(*old(d)).drop_last()
        },
{
    d.ring.pop_back()
}

/// Relies on `ArrayDeque::get`: element at `index`, front being 0.
#[verifier::external_body]
pub fn hist_get(d: &HistoryRing, index: usize) -> (r: Option<i64>)
    ensures
        index < hist_contents(*d).len() ==> r == Some(hist_contents(*d)[index as int]),
        index >= hist_contents(*d).len() ==> r is None,
{
    match d.ring.get(index) {
        Some(v) => Some(*v),
        None => None,
    }
}

} // verus!
