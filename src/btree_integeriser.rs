//! An interning table whose reverse index is an ordered map.
use vstd::prelude::*;
use vstd::pervasive::strictly_cloned;
use vstd::std_specs::cmp::{PartialEqSpec, PartialOrdSpec};
use std::cmp::Ordering;
use vstd::laws_cmp::obeys_cmp;
use std::collections::BTreeMap;
use std::hash::{Hash, Hasher};
use crate::interface::Integeriser;
use crate::order::{compare_values, lex_partial_cmp};
use crate::model::{
    clones_exactly, in_sync, intern_all, lemma_in_sync_distinct, lemma_in_sync_lookup,
    lemma_in_sync_push,
};

verus! {

broadcast use vstd::std_specs::btree::group_btree_axioms;

/// What the order-backed table asks of its values: a total order that agrees
/// with equality, and clones that are equal.
pub open spec fn order_laws<A: Ord + Clone>() -> bool {
    &&& obeys_cmp::<A>()
    &&& clones_exactly::<A>()
}

/// Maps every value of type `A` to a `usize` code and back, given that
/// `A: Eq + Ord`.
#[derive(Clone, Debug)]
pub struct BTreeIntegeriser<A: Ord + Eq> {
    map: Vec<A>,
    rmap: BTreeMap<A, usize>,
}

impl<A: Eq + Ord> View for BTreeIntegeriser<A> {
    type V = Seq<A>;

    /// The values interned so far, in first-occurrence order.
    closed spec fn view(&self) -> Seq<A> {
        self.map@
    }
}

impl<A: Eq + Ord> BTreeIntegeriser<A> {
    /// `Vec` holding all the values interned so far, in first-occurrence order.
    pub fn values(&self) -> (r: &Vec<A>)
        ensures
            r@ == self@,
    {
        &self.map
    }
}

impl<A: Eq + Ord + Clone> BTreeIntegeriser<A> {
    /// Rebuilds a table from a value sequence, such as the one `values`
    /// gives, by interning the values in order: position `i` of a sequence
    /// without repeats gets code `i` again.
    pub fn from_values(values: Vec<A>) -> (r: Self)
        requires
            order_laws::<A>(),
        ensures
            r.well_formed(),
            r@ == intern_all(Seq::<A>::empty(), values@),
    {
        let mut t = Self::default();
        let n = values.len();
        let mut i: usize = 0;
        while i < n
            invariant
                n == values@.len(),
                i <= n,
                t.well_formed(),
                t@ == intern_all(Seq::<A>::empty(), values@.take(i as int)),
            decreases n - i,
        {
            let a = values[i].clone();
            proof {
                assert(strictly_cloned(values@[i as int], a));
                assert(values@.take(i as int + 1).drop_last() =~= values@.take(i as int));
            }
            t.integerise(a);
            i = i + 1;
        }
        assert(values@.take(n as int) =~= values@);
        t
    }
}

impl<A: Eq + Ord + Clone> Default for BTreeIntegeriser<A> {
    fn default() -> (r: Self)
        ensures
            r@ == Seq::<A>::empty(),
            order_laws::<A>() ==> r.well_formed(),
    {
        let r = BTreeIntegeriser { map: Vec::new(), rmap: BTreeMap::new() };
        assert(r.map@ =~= Seq::<A>::empty());
        r
    }
}

impl<A: Eq + Ord> PartialEq for BTreeIntegeriser<A> {
    fn eq(&self, other: &Self) -> (r: bool) {
        self.map == other.map
    }
}

impl<A: Eq + Ord> vstd::std_specs::cmp::PartialEqSpecImpl for BTreeIntegeriser<A> {
    open spec fn obeys_eq_spec() -> bool {
        <A as PartialEqSpec>::obeys_eq_spec()
    }

    /// Tables are equal when their value sequences are, position by position;
    /// the reverse index plays no part.
    open spec fn eq_spec(&self, other: &Self) -> bool {
        &&& self@.len() == other@.len()
        &&& forall|i: int| #![auto] 0 <= i < self@.len() ==> self@[i].eq_spec(&other@[i])
    }
}

impl<A: Eq + Ord> PartialOrd for BTreeIntegeriser<A> {
    fn partial_cmp(&self, other: &Self) -> (r: Option<Ordering>) {
        compare_values(&self.map, &other.map)
    }
}

impl<A: Eq + Ord> vstd::std_specs::cmp::PartialOrdSpecImpl for BTreeIntegeriser<A> {
    open spec fn obeys_partial_cmp_spec() -> bool {
        <A as PartialOrdSpec>::obeys_partial_cmp_spec()
    }

    /// Tables compare as their value sequences do, lexicographically.
    open spec fn partial_cmp_spec(&self, other: &Self) -> Option<Ordering> {
        lex_partial_cmp(self@, other@)
    }
}

impl<A: Eq + Ord> Eq for BTreeIntegeriser<A> {
}

impl<A: Eq + Ord + Hash> Hash for BTreeIntegeriser<A> {
    /// Relies on `Vec`'s `Hash`: only the value sequence is hashed.
    #[verifier::external_body]
    fn hash<H: Hasher>(&self, state: &mut H) {
        self.map.hash(state);
    }
}

impl<A: Eq + Ord + Clone> BTreeIntegeriser<A> {
    /// Constructs a new, empty table. Its values must be totally ordered
    /// consistently with `==`, and clone to equal values.
    pub fn new() -> (r: Self)
        requires
            order_laws::<A>(),
        ensures
            r.well_formed(),
            r.values_seq() == Seq::<A>::empty(),
    {
        let r = BTreeIntegeriser { map: Vec::new(), rmap: BTreeMap::new() };
        assert(r.map@ =~= Seq::<A>::empty());
        r
    }
}

impl<A: Eq + Ord + Clone> BTreeIntegeriser<A> {
    /// The values of a well-formed table are totally ordered consistently with `==`, and clone to equal values.
    pub proof fn lemma_well_formed_laws(&self)
        requires
            self.well_formed(),
        ensures
            order_laws::<A>(),
    {
    }
}

impl<A: Eq + Ord + Clone> Integeriser for BTreeIntegeriser<A> {
    type Item = A;

    open spec fn values_seq(&self) -> Seq<A> {
        self@
    }

    closed spec fn well_formed(&self) -> bool {
        order_laws::<A>() && in_sync(self.map@, self.rmap@)
    }

    proof fn lemma_values_distinct(&self) {
        lemma_in_sync_distinct(self.map@, self.rmap@);
    }

    fn integerise(&mut self, a: A) -> (r: usize) {
        proof {
            lemma_in_sync_lookup(self.map@, self.rmap@, a);
        }
        let found = match self.rmap.get(&a) {
            Some(k) => Some(*k),
            None => None,
        };
        match found {
            Some(k) => k,
            None => {
                let n = self.map.len();
                let c = a.clone();
                proof {
                    assert(strictly_cloned(a, c));
                }
                self.map.push(c);
                proof {
                    assert(self.map@.len() == self.map.len());
                    lemma_in_sync_push(old(self).map@, self.rmap@, a);
                }
                self.rmap.insert(a, n);
                n
            },
        }
    }

    fn find_value(&self, k: usize) -> (r: Option<&A>) {
        self.map.get(k)
    }

    fn find_key(&self, a: &A) -> (r: Option<usize>) {
        proof {
            lemma_in_sync_lookup(self.map@, self.rmap@, *a);
        }
        match self.rmap.get(a) {
            Some(k) => Some(*k),
            None => None,
        }
    }

    fn size(&self) -> (r: usize) {
        self.map.len()
    }
}

} // verus!
