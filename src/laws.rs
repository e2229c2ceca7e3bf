//! Properties of interning that relate several operations or calls.
use vstd::prelude::*;
use vstd::laws_eq::obeys_concrete_eq;
use vstd::std_specs::cmp::PartialEqSpec;
use std::hash::{BuildHasher, Hash};
use crate::interface::Integeriser;
use crate::btree_integeriser::BTreeIntegeriser;
use crate::hash_integeriser::HashIntegeriser;
use crate::model::{code_of, intern_all, intern_step, lemma_code_of_index};

verus! {

/// One interning step keeps the values distinct, keeps every earlier value at
/// its position, adds at most one value, and leaves the interned value present.
pub proof fn lemma_intern_step<A>(s: Seq<A>, a: A)
    requires
        s.no_duplicates(),
    ensures
        intern_step(s, a).no_duplicates(),
        s.len() <= intern_step(s, a).len() <= s.len() + 1,
        intern_step(s, a).take(s.len() as int) == s,
        intern_step(s, a).contains(a),
{
    if !s.contains(a) {
        assert(s.push(a)[s.len() as int] == a);
    }
    assert(intern_step(s, a).take(s.len() as int) =~= s);
}

/// Interning a sequence of values keeps the values distinct, keeps every
/// earlier value at its position, and each new position holds one of the
/// interned values, all of which end up present.
pub proof fn lemma_intern_all<A>(s: Seq<A>, xs: Seq<A>)
    requires
        s.no_duplicates(),
    ensures
        intern_all(s, xs).no_duplicates(),
        s.len() <= intern_all(s, xs).len() <= s.len() + xs.len(),
        intern_all(s, xs).take(s.len() as int) == s,
        forall|j: int| 0 <= j < xs.len() ==> intern_all(s, xs).contains(#[trigger] xs[j]),
        forall|c: int|
            s.len() <= c < intern_all(s, xs).len() ==> xs.contains(#[trigger] intern_all(s, xs)[c]),
    decreases xs.len(),
{
    if xs.len() > 0 {
        let p = xs.drop_last();
        lemma_intern_all(s, p);
        let t = intern_all(s, p);
        lemma_intern_step(t, xs.last());
        let u = intern_all(s, xs);
        assert(u.take(t.len() as int) == t);
        assert(u.take(s.len() as int) =~= s) by {
            assert forall|i: int| 0 <= i < s.len() implies u[i] == s[i] by {
                assert(u.take(t.len() as int)[i] == t[i]);
                assert(t.take(s.len() as int)[i] == s[i]);
            }
        }
        assert forall|j: int| 0 <= j < xs.len() implies u.contains(#[trigger] xs[j]) by {
            if j < p.len() {
                assert(p[j] == xs[j]);
                let k = choose|k: int| 0 <= k < t.len() && t[k] == p[j];
                assert(u.take(t.len() as int)[k] == t[k]);
                assert(u[k] == xs[j]);
            }
        }
        assert forall|c: int| s.len() <= c < u.len() implies xs.contains(#[trigger] u[c]) by {
            if c < t.len() {
                assert(u.take(t.len() as int)[c] == t[c]);
                assert(p.contains(t[c]));
                let k = choose|k: int| 0 <= k < p.len() && p[k] == t[c];
                assert(xs[k] == p[k]);
            } else {
                assert(u[c] == xs.last());
                assert(xs[xs.len() - 1] == xs.last());
            }
        }
    }
}

/// A value keeps its code as the table grows.
pub proof fn lemma_code_stable<A>(s: Seq<A>, t: Seq<A>, a: A)
    requires
        t.no_duplicates(),
        t.len() <= usize::MAX,
        s.len() <= t.len(),
        t.take(s.len() as int) == s,
        s.contains(a),
    ensures
        code_of(s, a) == code_of(t, a),
{
    let i = choose|i: int| 0 <= i < s.len() && s[i] == a;
    assert(t.take(s.len() as int)[i] == t[i]);
    assert(s.no_duplicates()) by {
        assert forall|x: int, y: int| 0 <= x < s.len() && 0 <= y < s.len() && x != y implies s[x]
            != s[y] by {
            assert(t.take(s.len() as int)[x] == t[x]);
            assert(t.take(s.len() as int)[y] == t[y]);
        }
    }
    lemma_code_of_index(s, i);
    lemma_code_of_index(t, i);
}

/// Consecutive assignment: after interning `xs` into an empty table, every
/// value of `xs` has a code below the table's size, every code below the size
/// is the code of a value of `xs`, distinct values have distinct codes, and the
/// code each call returned is the value's code in the final table.
pub proof fn lemma_consecutive_codes<A>(xs: Seq<A>)
    requires
        xs.len() <= usize::MAX,
    ensures
        ({
            let s = intern_all(Seq::<A>::empty(), xs);
            &&& s.no_duplicates()
            &&& forall|j: int|
                0 <= j < xs.len() ==> #[trigger] code_of(s, xs[j]) is Some && (code_of(
                    s,
                    xs[j],
                ).unwrap() as int) < s.len()
            &&& forall|c: int|
                0 <= c < s.len() ==> xs.contains(#[trigger] s[c]) && code_of(s, s[c]) == Some(
                    c as usize,
                )
            &&& forall|j: int, k: int|
                0 <= j < xs.len() && 0 <= k < xs.len() && xs[j] != xs[k] ==> #[trigger] code_of(
                    s,
                    xs[j],
                ) != #[trigger] code_of(s, xs[k])
            &&& forall|j: int|
                0 <= j < xs.len() ==> code_of(
                    intern_all(Seq::<A>::empty(), #[trigger] xs.take(j + 1)),
                    xs[j],
                ) == code_of(s, xs[j])
        }),
{
    let e = Seq::<A>::empty();
    let s = intern_all(e, xs);
    lemma_intern_all(e, xs);
    assert forall|j: int| 0 <= j < xs.len() implies #[trigger] code_of(s, xs[j]) is Some && (
    code_of(s, xs[j]).unwrap() as int) < s.len() && s[code_of(s, xs[j]).unwrap() as int]
        == xs[j] by {
        assert(s.contains(xs[j]));
    }
    assert forall|c: int| 0 <= c < s.len() implies xs.contains(#[trigger] s[c]) && code_of(
        s,
        s[c],
    ) == Some(c as usize) by {
        lemma_code_of_index(s, c);
    }
    assert forall|j: int| 0 <= j < xs.len() implies code_of(
        intern_all(e, #[trigger] xs.take(j + 1)),
        xs[j],
    ) == code_of(s, xs[j]) by {
        let p = xs.take(j + 1);
        let q = xs.skip(j + 1);
        assert(p + q =~= xs);
        lemma_intern_all(e, p);
        assert(p[j] == xs[j]);
        let t = intern_all(e, p);
        lemma_intern_all_append(e, p, q);
        lemma_intern_all(t, q);
        lemma_code_stable(t, s, xs[j]);
    }
}

/// Consecutive assignment, for the codes a run of `integerise` calls
/// returned (as `integerise_all` gives them) on an empty table: each code
/// leads back to its value, every code below the final size was returned,
/// and two calls got the same code exactly when their values were equal.
pub proof fn lemma_codes_of_calls<A>(xs: Seq<A>, rs: Seq<usize>)
    requires
        xs.len() <= usize::MAX,
        rs.len() == xs.len(),
        forall|j: int|
            0 <= j < xs.len() ==> code_of(
                intern_all(Seq::<A>::empty(), #[trigger] xs.take(j + 1)),
                xs[j],
            ) == Some(rs[j]),
    ensures
        ({
            let s = intern_all(Seq::<A>::empty(), xs);
            &&& forall|j: int| 0 <= j < xs.len() ==> (#[trigger] rs[j] as int) < s.len() && s[rs[j] as int] == xs[j]
            &&& forall|c: usize| (c as int) < s.len() ==> #[trigger] rs.contains(c)
            &&& forall|j: int, k: int|
                0 <= j < xs.len() && 0 <= k < xs.len() ==> (#[trigger] rs[j] == #[trigger] rs[k] <==> xs[j] == xs[k])
        }),
{
    let s = intern_all(Seq::<A>::empty(), xs);
    lemma_consecutive_codes(xs);
    assert forall|j: int| 0 <= j < xs.len() implies (#[trigger] rs[j] as int) < s.len() && s[rs[j] as int] == xs[j] by {
        assert(code_of(intern_all(Seq::<A>::empty(), xs.take(j + 1)), xs[j]) == code_of(s, xs[j]));
        assert(code_of(s, xs[j]) is Some);
    }
    assert forall|c: usize| (c as int) < s.len() implies #[trigger] rs.contains(c) by {
        assert(xs.contains(s[c as int]));
        let j = choose|j: int| 0 <= j < xs.len() && xs[j] == s[c as int];
        assert(code_of(intern_all(Seq::<A>::empty(), xs.take(j + 1)), xs[j]) == code_of(s, xs[j]));
        assert(rs[j] == c);
    }
}

/// Backings agree on a whole run: two runs of `integerise` calls on the same
/// values, from tables holding the same values, return the same codes,
/// whatever backs each table.
pub proof fn lemma_runs_agree<A>(s: Seq<A>, xs: Seq<A>, rs: Seq<usize>, qs: Seq<usize>)
    requires
        rs.len() == xs.len(),
        qs.len() == xs.len(),
        forall|j: int|
            0 <= j < xs.len() ==> code_of(intern_all(s, #[trigger] xs.take(j + 1)), xs[j]) == Some(
                rs[j],
            ),
        forall|j: int|
            0 <= j < xs.len() ==> code_of(intern_all(s, #[trigger] xs.take(j + 1)), xs[j]) == Some(
                qs[j],
            ),
    ensures
        rs == qs,
{
    assert forall|j: int| 0 <= j < xs.len() implies rs[j] == qs[j] by {
        assert(code_of(intern_all(s, xs.take(j + 1)), xs[j]) == Some(rs[j]));
    }
    assert(rs =~= qs);
}

/// Interning `p` and then `q` is interning `p + q`.
pub proof fn lemma_intern_all_append<A>(s: Seq<A>, p: Seq<A>, q: Seq<A>)
    ensures
        intern_all(intern_all(s, p), q) == intern_all(s, p + q),
    decreases q.len(),
{
    if q.len() == 0 {
        assert(p + q =~= p);
    } else {
        lemma_intern_all_append(s, p, q.drop_last());
        assert((p + q).drop_last() =~= p + q.drop_last());
        assert((p + q).last() == q.last());
    }
}

/// Interning the first `i + 1` items is interning the first `i` and then
/// item `i`: what a loop of `integerise` calls keeps as its invariant.
pub proof fn lemma_intern_all_take<A>(s: Seq<A>, xs: Seq<A>, i: int)
    requires
        0 <= i < xs.len(),
    ensures
        intern_all(s, xs.take(i + 1)) == intern_step(intern_all(s, xs.take(i)), xs[i]),
{
    assert(xs.take(i + 1).drop_last() =~= xs.take(i));
}

/// Idempotence: interning the same value twice in a row changes nothing the
/// second time and gives the same code both times; the pair grows the table
/// by at most one value.
pub proof fn lemma_idempotent<A>(s: Seq<A>, a: A)
    ensures
        intern_step(intern_step(s, a), a) == intern_step(s, a),
        code_of(intern_step(intern_step(s, a), a), a) == code_of(intern_step(s, a), a),
        intern_step(intern_step(s, a), a).len() <= s.len() + 1,
{
    if !s.contains(a) {
        assert(s.push(a)[s.len() as int] == a);
    }
}

/// Bijection: in a well-formed table the code of the value at code `c` is
/// `c`, and the code of an interned value leads back to that value.
pub proof fn lemma_bijection<T: Integeriser>(t: &T)
    requires
        t.well_formed(),
    ensures
        forall|c: int|
            0 <= c < t.values_seq().len() ==> #[trigger] code_of(t.values_seq(), t.values_seq()[c])
                == Some(c as usize),
        forall|v: T::Item| #[trigger]
            t.values_seq().contains(v) ==> code_of(t.values_seq(), v) is Some
                && t.values_seq()[code_of(t.values_seq(), v).unwrap() as int] == v,
{
    t.lemma_values_distinct();
    assert forall|c: int| 0 <= c < t.values_seq().len() implies #[trigger] code_of(
        t.values_seq(),
        t.values_seq()[c],
    ) == Some(c as usize) by {
        lemma_code_of_index(t.values_seq(), c);
    }
}

/// Reloading: interning a table's value sequence, in order, into an empty
/// table reproduces that sequence, and so every code.
pub proof fn lemma_reload<A>(s: Seq<A>)
    requires
        s.no_duplicates(),
    ensures
        intern_all(Seq::<A>::empty(), s) == s,
    decreases s.len(),
{
    if s.len() > 0 {
        let p = s.drop_last();
        assert(p.no_duplicates());
        lemma_reload(p);
        assert(!p.contains(s.last()));
        assert(p.push(s.last()) =~= s);
    }
}

/// Equality of hash-backed tables: where `==` on values is equality, two
/// tables are equal exactly when they hold the same values in the same
/// first-occurrence order.
pub proof fn lemma_hash_eq_iff_same_values<A: Eq + Hash, S: BuildHasher>(
    t: HashIntegeriser<A, S>,
    u: HashIntegeriser<A, S>,
)
    requires
        obeys_concrete_eq::<A>(),
    ensures
        t.eq_spec(&u) <==> t@ == u@,
{
    reveal(obeys_concrete_eq);
    if t.eq_spec(&u) {
        assert(t@ =~= u@);
    }
}

/// Equality of order-backed tables: where `==` on values is equality, two
/// tables are equal exactly when they hold the same values in the same
/// first-occurrence order.
pub proof fn lemma_btree_eq_iff_same_values<A: Eq + Ord>(
    t: BTreeIntegeriser<A>,
    u: BTreeIntegeriser<A>,
)
    requires
        obeys_concrete_eq::<A>(),
    ensures
        t.eq_spec(&u) <==> t@ == u@,
{
    reveal(obeys_concrete_eq);
    if t.eq_spec(&u) {
        assert(t@ =~= u@);
    }
}

} // verus!
