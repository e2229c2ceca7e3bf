//! The mathematical model of an interning table: the sequence of distinct
//! values in first-occurrence order, where position `i` holds the value with
//! code `i`.
use vstd::prelude::*;
use vstd::pervasive::strictly_cloned;

verus! {

/// Cloning a value of `A` gives that same value back.
pub open spec fn clones_exactly<A: Clone>() -> bool {
    forall|x: A, y: A| #[trigger] strictly_cloned(x, y) ==> x == y
}

/// The values of a table holding `s` after interning `a`: unchanged when `a`
/// is already present, else `a` appended at the next free code.
pub open spec fn intern_step<A>(s: Seq<A>, a: A) -> Seq<A> {
    if s.contains(a) {
        s
    } else {
        s.push(a)
    }
}

/// The values of a table holding `s` after interning each item of `xs` in turn.
pub open spec fn intern_all<A>(s: Seq<A>, xs: Seq<A>) -> Seq<A>
    decreases xs.len(),
{
    if xs.len() == 0 {
        s
    } else {
        intern_step(intern_all(s, xs.drop_last()), xs.last())
    }
}

/// The code of `a` in a table holding `s`: its position, when present.
pub open spec fn code_of<A>(s: Seq<A>, a: A) -> Option<usize> {
    if s.contains(a) {
        Some((choose|i: int| 0 <= i < s.len() && s[i] == a) as usize)
    } else {
        None
    }
}

/// In a sequence without repeats, the code of the value at position `c` is `c`.
pub proof fn lemma_code_of_index<A>(s: Seq<A>, c: int)
    requires
        s.no_duplicates(),
        0 <= c < s.len(),
        s.len() <= usize::MAX,
    ensures
        code_of(s, s[c]) == Some(c as usize),
{
    assert(s.contains(s[c]));
    let i = choose|i: int| 0 <= i < s.len() && s[i] == s[c];
    assert(i == c);
}

/// The values `s` and the reverse index `m` are each other's inverse: each
/// value maps to its position, and each key of `m` sits at the position it
/// maps to.
pub open spec fn in_sync<A>(s: Seq<A>, m: Map<A, usize>) -> bool {
    &&& s.len() <= usize::MAX
    &&& forall|i: int| 0 <= i < s.len() ==> #[trigger] m.contains_key(s[i]) && m[s[i]] == i
    &&& forall|k: A| #[trigger] m.contains_key(k) ==> (m[k] as int) < s.len() && s[m[k] as int] == k
}

/// Values in sync with a reverse index are distinct.
pub proof fn lemma_in_sync_distinct<A>(s: Seq<A>, m: Map<A, usize>)
    requires
        in_sync(s, m),
    ensures
        s.no_duplicates(),
{
    assert forall|i: int, j: int| 0 <= i < s.len() && 0 <= j < s.len() && i != j implies s[i]
        != s[j] by {
        assert(m.contains_key(s[i]));
        assert(m.contains_key(s[j]));
    }
}

/// Looking a value up in the reverse index gives its code, or finds that it
/// has none.
pub proof fn lemma_in_sync_lookup<A>(s: Seq<A>, m: Map<A, usize>, a: A)
    requires
        in_sync(s, m),
    ensures
        m.contains_key(a) ==> code_of(s, a) == Some(m[a]),
        !m.contains_key(a) ==> code_of(s, a) is None && !s.contains(a),
{
    lemma_in_sync_distinct(s, m);
    if m.contains_key(a) {
        lemma_code_of_index(s, m[a] as int);
    } else if s.contains(a) {
        let i = choose|i: int| 0 <= i < s.len() && s[i] == a;
        assert(m.contains_key(s[i]));
    }
}

/// Appending a new value at the next code and recording that code in the
/// reverse index keeps the two in sync.
pub proof fn lemma_in_sync_push<A>(s: Seq<A>, m: Map<A, usize>, a: A)
    requires
        in_sync(s, m),
        !m.contains_key(a),
        s.len() < usize::MAX,
    ensures
        in_sync(s.push(a), m.insert(a, s.len() as usize)),
        code_of(s.push(a), a) == Some(s.len() as usize),
{
    let t = s.push(a);
    let n = m.insert(a, s.len() as usize);
    assert forall|k: A| #[trigger] n.contains_key(k) implies (n[k] as int) < t.len() && t[n[k] as int]
        == k by {
        if k != a {
            assert(m.contains_key(k));
        }
    }
    assert forall|i: int| 0 <= i < t.len() implies #[trigger] n.contains_key(t[i]) && n[t[i]] == i by {
        if i < s.len() {
            assert(m.contains_key(s[i]));
        }
    }
    lemma_in_sync_lookup(t, n, a);
}

} // verus!
