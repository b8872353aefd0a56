//! Values that can be duplicated, with nothing lost of what their view shows.

use vstd::prelude::*;

verus! {

/// A type whose values can be duplicated.
pub trait Copied: View + Sized {
    /// A value with the same view.
    fn copied(&self) -> (r: Self)
        ensures
            r@ == self@,
    ;
}

/// The views of a list of values.
pub open spec fn views<T: View>(list: Seq<T>) -> Seq<T::V> {
    list.map_values(|x: T| x@)
}

/// A list of the same views.
pub fn copied_all<T: Copied>(list: &[T]) -> (r: Vec<T>)
    ensures
        views(r@) == views(list@),
{
    let mut out: Vec<T> = Vec::new();
    let mut i: usize = 0;
    while i < list.len()
        invariant
            i <= list@.len(),
            views(out@) =~= views(list@).take(i as int),
        decreases list@.len() - i,
    {
        let next = list[i].copied();
        let ghost had = out@;
        out.push(next);
        assert(views(out@) =~= views(had).push(list@[i as int]@));
        i += 1;
    }
    assert(views(list@).take(i as int) =~= views(list@));
    out
}

/// The view of an optional value.
pub open spec fn opt_view<T: View>(o: Option<T>) -> Option<T::V> {
    match o {
        Some(x) => Some(x@),
        None => None,
    }
}

impl Copied for String {
    fn copied(&self) -> (r: Self) {
        self.clone()
    }
}

} // verus!
