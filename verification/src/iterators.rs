//! A small walking aid for rendering: hand the elements of a vector out
//! one by one, each flagged with whether it is the last. The table
//! writers use it to place a separator after every column but the final
//! one.

use vstd::prelude::*;

verus! {

/// Yields `(is_last, element)` pairs, front to back.
pub struct IdentifyLastIter<T> {
    items: Vec<T>,
}

impl<T> IdentifyLastIter<T> {
    /// The elements not yet handed out, front first.
    pub closed spec fn remaining(self) -> Seq<T> {
        self.items@
    }

    /// How many elements are still to come.
    pub fn len(&self) -> (r: usize)
        ensures
            r == self.remaining().len(),
    {
        self.items.len()
    }

    /// The next element, flagged as last when nothing follows it.
    pub fn next(&mut self) -> (r: Option<(bool, T)>)
        ensures
            match r {
                None => {
                    &&& old(self).remaining().len() == 0
                    &&& final (self).remaining() == old(self).remaining()
                },
                Some((last, v)) => {
                    &&& old(self).remaining().len() > 0
                    &&& v == old(self).remaining()[0]
                    &&& last == (old(self).remaining().len() == 1)
                    &&& final (self).remaining() == old(self).remaining().drop_first()
                },
            },
    {
        if self.items.len() == 0 {
            None
        } else {
            let v = self.items.remove(0);
            let last = self.items.len() == 0;
            proof {
                assert(self.items@ =~= old(self).items@.drop_first());
            }
            Some((last, v))
        }
    }
}

/// Turn an owned collection into an [`IdentifyLastIter`] over its
/// elements.
pub trait IdentifyLast<T>: Sized {
    /// The elements the iterator will hand out, in order.
    spec fn elements(self) -> Seq<T>;

    /// Consume `self` and yield each element flagged with whether it is
    /// the last one.
    fn identify_last(self) -> (r: IdentifyLastIter<T>)
        ensures
            r.remaining() == self.elements(),
    ;
}

impl<T> IdentifyLast<T> for Vec<T> {
    open spec fn elements(self) -> Seq<T> {
        self@
    }

    fn identify_last(self) -> (r: IdentifyLastIter<T>) {
        IdentifyLastIter { items: self }
    }
}

} // verus!
