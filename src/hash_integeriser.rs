//! An interning table whose reverse index is a hash map.
use vstd::prelude::*;
use vstd::pervasive::strictly_cloned;
use vstd::std_specs::cmp::{PartialEqSpec, PartialOrdSpec};
use std::cmp::Ordering;
use vstd::std_specs::hash::{builds_valid_hashers, obeys_key_model};
use std::collections::hash_map::RandomState;
use std::collections::HashMap;
use std::hash::{BuildHasher, Hash, Hasher};
use crate::interface::Integeriser;
use crate::order::{compare_values, lex_partial_cmp};
use crate::model::{
    clones_exactly, in_sync, intern_all, lemma_in_sync_distinct, lemma_in_sync_lookup,
    lemma_in_sync_push,
};

verus! {

broadcast use vstd::std_specs::hash::group_hash_axioms;

/// What the hash-backed table asks of its values and hasher: hashing is
/// deterministic and consistent with equality, and clones are equal.
pub open spec fn hash_laws<A: Clone, S>() -> bool {
    &&& obeys_key_model::<A>()
    &&& builds_valid_hashers::<S>()
    &&& clones_exactly::<A>()
}

/// Maps every value of type `A` to a `usize` code and back, given that
/// `A: Eq + Hash`.
#[derive(Clone, Debug)]
#[verifier::reject_recursive_types(S)]
pub struct HashIntegeriser<A, S = RandomState> where A: Eq + Hash, S: BuildHasher {
    map: Vec<A>,
    rmap: HashMap<A, usize, S>,
}

/// A hash-backed table whose reverse index hashes with the Fowler–Noll–Vo
/// function of the `fnv` crate.
pub type FnvHashIntegeriser<A> = HashIntegeriser<A, fnv::FnvBuildHasher>;

impl<A: Eq + Hash, S: BuildHasher> View for HashIntegeriser<A, S> {
    type V = Seq<A>;

    /// The values interned so far, in first-occurrence order.
    closed spec fn view(&self) -> Seq<A> {
        self.map@
    }
}

impl<A: Eq + Hash, S: BuildHasher> HashIntegeriser<A, S> {
    /// `Vec` holding all the values interned so far, in first-occurrence order.
    pub fn values(&self) -> (r: &Vec<A>)
        ensures
            r@ == self@,
    {
        &self.map
    }
}

impl<A: Eq + Hash + Clone, S: BuildHasher + Default> HashIntegeriser<A, S> {
    /// Rebuilds a table from a value sequence, such as the one `values`
    /// gives, by interning the values in order: position `i` of a sequence
    /// without repeats gets code `i` again.
    pub fn from_values(values: Vec<A>) -> (r: Self)
        requires
            hash_laws::<A, S>(),
        ensures
            r.well_formed(),
            r@ == intern_all(Seq::<A>::empty(), values@),
    {
        let mut t = Self::default();
        let n = values.len();
        let mut i: usize = 0;
        while i < n
            invariant
                n == values@.len(),
                i <= n,
                t.well_formed(),
                t@ == intern_all(Seq::<A>::empty(), values@.take(i as int)),
            decreases n - i,
        {
            let a = values[i].clone();
            proof {
                assert(strictly_cloned(values@[i as int], a));
                assert(values@.take(i as int + 1).drop_last() =~= values@.take(i as int));
            }
            t.integerise(a);
            i = i + 1;
        }
        assert(values@.take(n as int) =~= values@);
        t
    }
}

impl<A: Eq + Hash + Clone, S: BuildHasher + Default> Default for HashIntegeriser<A, S> {
    fn default() -> (r: Self)
        ensures
            r@ == Seq::<A>::empty(),
            hash_laws::<A, S>() ==> r.well_formed(),
    {
        let r = HashIntegeriser { map: Vec::new(), rmap: HashMap::default() };
        assert(r.map@ =~= Seq::<A>::empty());
        r
    }
}

impl<A: Eq + Hash, S: BuildHasher> PartialEq for HashIntegeriser<A, S> {
    fn eq(&self, other: &Self) -> (r: bool) {
        self.map == other.map
    }
}

impl<A: Eq + Hash, S: BuildHasher> vstd::std_specs::cmp::PartialEqSpecImpl for HashIntegeriser<A, S> {
    open spec fn obeys_eq_spec() -> bool {
        <A as PartialEqSpec>::obeys_eq_spec()
    }

    /// Tables are equal when their value sequences are, position by position;
    /// the reverse index plays no part.
    open spec fn eq_spec(&self, other: &Self) -> bool {
        &&& self@.len() == other@.len()
        &&& forall|i: int| #![auto] 0 <= i < self@.len() ==> self@[i].eq_spec(&other@[i])
    }
}

impl<A: Eq + Hash + PartialOrd, S: BuildHasher> PartialOrd for HashIntegeriser<A, S> {
    fn partial_cmp(&self, other: &Self) -> (r: Option<Ordering>) {
        compare_values(&self.map, &other.map)
    }
}

impl<A: Eq + Hash + PartialOrd, S: BuildHasher> vstd::std_specs::cmp::PartialOrdSpecImpl for HashIntegeriser<A, S> {
    open spec fn obeys_partial_cmp_spec() -> bool {
        <A as PartialOrdSpec>::obeys_partial_cmp_spec()
    }

    /// Tables compare as their value sequences do, lexicographically.
    open spec fn partial_cmp_spec(&self, other: &Self) -> Option<Ordering> {
        lex_partial_cmp(self@, other@)
    }
}

impl<A: Eq + Hash, S: BuildHasher> Eq for HashIntegeriser<A, S> {
}

impl<A: Eq + Hash, S: BuildHasher> Hash for HashIntegeriser<A, S> {
    /// Relies on `Vec`'s `Hash`: only the value sequence is hashed.
    #[verifier::external_body]
    fn hash<H: Hasher>(&self, state: &mut H) {
        self.map.hash(state);
    }
}

impl<A: Eq + Hash + Clone> HashIntegeriser<A, RandomState> {
    /// Constructs a new, empty table. Its values must hash deterministically
    /// and consistently with `==`, and clone to equal values.
    pub fn new() -> (r: Self)
        requires
            obeys_key_model::<A>(),
            clones_exactly::<A>(),
        ensures
            r.well_formed(),
            r@ == Seq::<A>::empty(),
    {
        broadcast use vstd::std_specs::hash::axiom_random_state_builds_valid_hashers;

        let r = HashIntegeriser { map: Vec::new(), rmap: HashMap::new() };
        assert(r.map@ =~= Seq::<A>::empty());
        r
    }
}

impl<A: Eq + Hash + Clone, S: BuildHasher> HashIntegeriser<A, S> {
    /// The values of a well-formed table hash deterministically and consistently with `==`, and clone to equal values.
    pub proof fn lemma_well_formed_laws(&self)
        requires
            self.well_formed(),
        ensures
            hash_laws::<A, S>(),
    {
    }
}

impl<A: Eq + Hash + Clone, S: BuildHasher> Integeriser for HashIntegeriser<A, S> {
    type Item = A;

    open spec fn values_seq(&self) -> Seq<A> {
        self@
    }

    closed spec fn well_formed(&self) -> bool {
        hash_laws::<A, S>() && in_sync(self.map@, self.rmap@)
    }

    proof fn lemma_values_distinct(&self) {
        lemma_in_sync_distinct(self.map@, self.rmap@);
    }

    fn integerise(&mut self, a: A) -> (r: usize) {
        proof {
            lemma_in_sync_lookup(self.map@, self.rmap@, a);
        }
        let found = match self.rmap.get(&a) {
            Some(k) => Some(*k),
            None => None,
        };
        match found {
            Some(k) => k,
            None => {
                let n = self.map.len();
                let c = a.clone();
                proof {
                    assert(strictly_cloned(a, c));
                }
                self.map.push(c);
                proof {
                    assert(self.map@.len() == self.map.len());
                    lemma_in_sync_push(old(self).map@, self.rmap@, a);
                }
                self.rmap.insert(a, n);
                n
            },
        }
    }

    fn find_value(&self, k: usize) -> (r: Option<&A>) {
        self.map.get(k)
    }

    fn find_key(&self, a: &A) -> (r: Option<usize>) {
        proof {
            lemma_in_sync_lookup(self.map@, self.rmap@, *a);
        }
        match self.rmap.get(a) {
            Some(k) => Some(*k),
            None => None,
        }
    }

    fn size(&self) -> (r: usize) {
        self.map.len()
    }
}

} // verus!
