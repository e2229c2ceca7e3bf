//! The lexicographic order on value sequences, by which tables compare.
use vstd::prelude::*;
use vstd::std_specs::cmp::PartialOrdSpec;
use std::cmp::Ordering;

verus! {

/// Compares the lengths of two sequences.
pub open spec fn compare_lengths<A>(a: Seq<A>, b: Seq<A>) -> Ordering {
    if a.len() < b.len() {
        Ordering::Less
    } else if a.len() == b.len() {
        Ordering::Equal
    } else {
        Ordering::Greater
    }
}

/// Lexicographic comparison: the first pair of values at the same position
/// that does not compare equal decides; when one sequence is a prefix of the
/// other, the shorter is smaller.
pub open spec fn lex_partial_cmp<A: PartialOrd>(a: Seq<A>, b: Seq<A>) -> Option<Ordering>
    decreases a.len(),
{
    if a.len() == 0 || b.len() == 0 {
        Some(compare_lengths(a, b))
    } else {
        match a[0].partial_cmp_spec(&b[0]) {
            Some(Ordering::Equal) => lex_partial_cmp(a.drop_first(), b.drop_first()),
            c => c,
        }
    }
}

/// Compares two vectors of values lexicographically.
pub fn compare_values<A: PartialOrd>(a: &Vec<A>, b: &Vec<A>) -> (r: Option<Ordering>)
    ensures
        A::obeys_partial_cmp_spec() ==> r == lex_partial_cmp(a@, b@),
{
    let n = if a.len() < b.len() {
        a.len()
    } else {
        b.len()
    };
    let mut i: usize = 0;
    assert(a@.skip(0) =~= a@);
    assert(b@.skip(0) =~= b@);
    while i < n
        invariant
            n <= a@.len(),
            n <= b@.len(),
            n == a@.len() || n == b@.len(),
            i <= n,
            A::obeys_partial_cmp_spec() ==> lex_partial_cmp(a@, b@) == lex_partial_cmp(
                a@.skip(i as int),
                b@.skip(i as int),
            ),
        decreases n - i,
    {
        let c = a[i].partial_cmp(&b[i]);
        proof {
            let sa = a@.skip(i as int);
            let sb = b@.skip(i as int);
            assert(sa[0] == a@[i as int]);
            assert(sb[0] == b@[i as int]);
            assert(sa.drop_first() =~= a@.skip(i + 1));
            assert(sb.drop_first() =~= b@.skip(i + 1));
        }
        match c {
            Some(Ordering::Equal) => {},
            _ => {
                return c;
            },
        }
        i = i + 1;
    }
    proof {
        let sa = a@.skip(i as int);
        let sb = b@.skip(i as int);
        assert(sa.len() == 0 || sb.len() == 0);
    }
    if a.len() < b.len() {
        Some(Ordering::Less)
    } else if a.len() == b.len() {
        Some(Ordering::Equal)
    } else {
        Some(Ordering::Greater)
    }
}

} // verus!
