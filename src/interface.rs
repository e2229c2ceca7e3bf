//! The operations shared by every backing of an interning table.
use vstd::prelude::*;
use crate::model::{code_of, intern_all, intern_step};

verus! {

/// A table that gives each distinct value a dense, zero-based code in
/// first-occurrence order, and maps in both directions.
pub trait Integeriser: Sized {
    type Item;

    /// The values interned so far, in first-occurrence order: position `i`
    /// holds the value whose code is `i`.
    spec fn values_seq(&self) -> Seq<Self::Item>;

    /// The table's invariant: the reverse index agrees with the value sequence.
    spec fn well_formed(&self) -> bool;

    /// A well-formed table holds no value twice, and no more values than
    /// `usize` can count.
    proof fn lemma_values_distinct(&self)
        requires
            self.well_formed(),
        ensures
            self.values_seq().no_duplicates(),
            self.values_seq().len() <= usize::MAX,
    ;

    /// Returns the code of `a`, giving it the next free code when it is new.
    /// Equal values always get the same code, and codes are assigned
    /// consecutively from `0`.
    fn integerise(&mut self, a: Self::Item) -> (r: usize)
        requires
            old(self).well_formed(),
        ensures
            final(self).well_formed(),
            final(self).values_seq() == intern_step(old(self).values_seq(), a),
            code_of(final(self).values_seq(), a) == Some(r),
    ;

    /// The value whose code is `k`, if any.
    fn find_value(&self, k: usize) -> (r: Option<&Self::Item>)
        ensures
            (k as int) < self.values_seq().len() ==> r == Some(&self.values_seq()[k as int]),
            (k as int) >= self.values_seq().len() ==> r is None,
    ;

    /// The code of `a`, if it has been interned; never assigns one.
    fn find_key(&self, a: &Self::Item) -> (r: Option<usize>)
        requires
            self.well_formed(),
        ensures
            r == code_of(self.values_seq(), *a),
    ;

    /// The number of distinct values interned so far.
    fn size(&self) -> (r: usize)
        ensures
            r as int == self.values_seq().len(),
    ;
}

/// Interns each value of `xs` in turn and returns the codes the calls gave,
/// in input order.
pub fn integerise_all<T: Integeriser>(t: &mut T, xs: Vec<T::Item>) -> (rs: Vec<usize>)
    requires
        old(t).well_formed(),
    ensures
        final(t).well_formed(),
        final(t).values_seq() == intern_all(old(t).values_seq(), xs@),
        rs@.len() == xs@.len(),
        forall|j: int|
            0 <= j < xs@.len() ==> code_of(
                intern_all(old(t).values_seq(), #[trigger] xs@.take(j + 1)),
                xs@[j],
            ) == Some(rs@[j]),
{
    let ghost s0 = t.values_seq();
    let ghost items = xs@;
    let n = xs.len();
    let mut rest = xs;
    let mut stack: Vec<T::Item> = Vec::new();
    while rest.len() > 0
        invariant
            n == items.len(),
            rest@.len() + stack@.len() == n,
            rest@ == items.take(rest@.len() as int),
            forall|k: int| 0 <= k < stack@.len() ==> #[trigger] stack@[k] == items[n - 1 - k],
        decreases rest@.len(),
    {
        let ghost m = rest@.len() as int;
        match rest.pop() {
            Some(x) => {
                proof {
                    assert(items.take(m)[m - 1] == items[m - 1]);
                    assert(rest@ =~= items.take(m - 1));
                }
                stack.push(x);
            },
            None => {},
        }
    }
    let mut rs: Vec<usize> = Vec::new();
    let mut i: usize = 0;
    assert(items.take(0) =~= Seq::<T::Item>::empty());
    while i < n
        invariant
            n == items.len(),
            i <= n,
            stack@.len() == n - i,
            forall|k: int| 0 <= k < stack@.len() ==> #[trigger] stack@[k] == items[n - 1 - k],
            t.well_formed(),
            t.values_seq() == intern_all(s0, items.take(i as int)),
            rs@.len() == i,
            forall|j: int|
                0 <= j < i ==> code_of(intern_all(s0, #[trigger] items.take(j + 1)), items[j])
                    == Some(rs@[j]),
        decreases n - i,
    {
        match stack.pop() {
            Some(x) => {
                proof {
                    assert(x == items[i as int]);
                    assert(items.take(i + 1).drop_last() =~= items.take(i as int));
                }
                let r = t.integerise(x);
                rs.push(r);
            },
            None => {},
        }
        i = i + 1;
    }
    assert(items.take(n as int) =~= items);
    rs
}

} // verus!
