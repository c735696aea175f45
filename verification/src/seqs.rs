//! Finding and replacing the first element of a sequence that satisfies a
//! predicate: the lookups of the in-memory stores.

use vstd::prelude::*;

verus! {

/// The position of the first element of `s` satisfying `p`, if any.
pub open spec fn first_index<A>(s: Seq<A>, p: spec_fn(A) -> bool) -> Option<int>
    decreases s.len(),
{
    if s.len() == 0 {
        None
    } else if p(s[0]) {
        Some(0)
    } else {
        match first_index(s.drop_first(), p) {
            Some(i) => Some(i + 1),
            None => None,
        }
    }
}

/// The first element of `s` satisfying `p`, if any.
pub open spec fn first_of<A>(s: Seq<A>, p: spec_fn(A) -> bool) -> Option<A> {
    match first_index(s, p) {
        Some(i) => Some(s[i]),
        None => None,
    }
}

/// `s` with its first element satisfying `p` replaced by `x`, or with `x`
/// appended when there is none.
pub open spec fn replace_or_push<A>(s: Seq<A>, p: spec_fn(A) -> bool, x: A) -> Seq<A> {
    match first_index(s, p) {
        Some(i) => s.update(i, x),
        None => s.push(x),
    }
}

/// `s` with its first element satisfying `p` replaced by `x`, or unchanged
/// when there is none.
pub open spec fn replace_first<A>(s: Seq<A>, p: spec_fn(A) -> bool, x: A) -> Seq<A> {
    match first_index(s, p) {
        Some(i) => s.update(i, x),
        None => s,
    }
}

/// `s` without its first element satisfying `p`.
pub open spec fn remove_first<A>(s: Seq<A>, p: spec_fn(A) -> bool) -> Seq<A> {
    match first_index(s, p) {
        Some(i) => s.remove(i),
        None => s,
    }
}

/// What the first index is, seen from a position before which nothing
/// satisfies `p`.
pub proof fn lemma_first_index_step<A>(s: Seq<A>, p: spec_fn(A) -> bool, i: int)
    requires
        0 <= i < s.len(),
        forall|j: int| 0 <= j < i ==> !p(#[trigger] s[j]),
    ensures
        p(s[i]) ==> first_index(s, p) == Some(i),
    decreases i,
{
    if i > 0 {
        let t = s.drop_first();
        assert forall|j: int| 0 <= j < i - 1 implies !p(#[trigger] t[j]) by {
            assert(t[j] == s[j + 1]);
        }
        assert(!p(s[0]));
        lemma_first_index_step(t, p, i - 1);
        assert(t[i - 1] == s[i]);
    }
}

/// Nothing satisfies `p`: there is no first index.
pub proof fn lemma_first_index_none<A>(s: Seq<A>, p: spec_fn(A) -> bool)
    requires
        forall|j: int| 0 <= j < s.len() ==> !p(#[trigger] s[j]),
    ensures
        first_index(s, p) is None,
    decreases s.len(),
{
    if s.len() > 0 {
        let t = s.drop_first();
        assert forall|j: int| 0 <= j < t.len() implies !p(#[trigger] t[j]) by {
            assert(t[j] == s[j + 1]);
        }
        lemma_first_index_none(t, p);
    }
}

/// The first index satisfies `p`, and nothing before it does.
pub proof fn lemma_first_index_facts<A>(s: Seq<A>, p: spec_fn(A) -> bool)
    ensures
        match first_index(s, p) {
            Some(i) => 0 <= i < s.len() && p(s[i]) && forall|j: int| 0 <= j < i ==> !p(#[trigger] s[j]),
            None => forall|j: int| 0 <= j < s.len() ==> !p(#[trigger] s[j]),
        },
    decreases s.len(),
{
    if s.len() > 0 {
        let t = s.drop_first();
        lemma_first_index_facts(t, p);
        match first_index(t, p) {
            Some(k) => {
                if !p(s[0]) {
                    assert forall|j: int| 0 <= j < k + 1 implies !p(#[trigger] s[j]) by {
                        if j > 0 {
                            assert(s[j] == t[j - 1]);
                        }
                    }
                    assert(s[k + 1] == t[k]);
                }
            },
            None => {
                assert forall|j: int| 0 <= j < s.len() implies !p(#[trigger] s[j]) || p(s[0]) by {
                    if j > 0 {
                        assert(s[j] == t[j - 1]);
                    }
                }
            },
        }
    }
}

/// After `x` replaced or joined the first element satisfying `p`, and `x`
/// satisfies `p`, `x` is the first element satisfying `p`.
pub proof fn lemma_replace_or_push_found<A>(s: Seq<A>, p: spec_fn(A) -> bool, x: A)
    requires
        p(x),
    ensures
        first_of(replace_or_push(s, p, x), p) == Some(x),
{
    lemma_first_index_facts(s, p);
    let r = replace_or_push(s, p, x);
    match first_index(s, p) {
        Some(i) => {
            assert forall|j: int| 0 <= j < i implies !p(#[trigger] r[j]) by {
                assert(r[j] == s[j]);
            }
            lemma_first_index_step(r, p, i);
        },
        None => {
            assert forall|j: int| 0 <= j < s.len() implies !p(#[trigger] r[j]) by {
                assert(r[j] == s[j]);
            }
            lemma_first_index_step(r, p, s.len() as int);
        },
    }
}

/// Replacing or appending an element that `q` rejects, in place of one that
/// `q` rejects too, leaves the first element satisfying `q` as it was.
/// Removing the first element of one kind does not change which element of
/// a disjoint kind comes first.
pub proof fn lemma_first_of_after_remove<A>(s: Seq<A>, p: spec_fn(A) -> bool, q: spec_fn(A) -> bool)
    requires
        forall|y: A| #[trigger] p(y) ==> !q(y),
    ensures
        first_of(remove_first(s, p), q) == first_of(s, q),
{
    lemma_first_index_facts(s, p);
    lemma_first_index_facts(s, q);
    match first_index(s, p) {
        Some(i) => {
            let r = s.remove(i);
            assert forall|j: int| 0 <= j < r.len() implies #[trigger] r[j] == s[if j < i {
                j
            } else {
                j + 1
            }] by {}
            match first_index(s, q) {
                Some(k) => {
                    assert(k != i);
                    let k2 = if k < i { k } else { k - 1 };
                    assert(r[k2] == s[k]);
                    assert forall|j: int| 0 <= j < k2 implies !q(#[trigger] r[j]) by {
                        let j2 = if j < i { j } else { j + 1 };
                        assert(r[j] == s[j2]);
                    }
                    lemma_first_index_step(r, q, k2);
                },
                None => {
                    assert forall|j: int| 0 <= j < r.len() implies !q(#[trigger] r[j]) by {
                        let j2 = if j < i { j } else { j + 1 };
                        assert(r[j] == s[j2]);
                    }
                    lemma_first_index_none(r, q);
                },
            }
        },
        None => {},
    }
}

pub proof fn lemma_first_of_unaffected<A>(s: Seq<A>, p: spec_fn(A) -> bool, q: spec_fn(A) -> bool, x: A)
    requires
        !q(x),
        forall|y: A| #[trigger] p(y) ==> !q(y),
    ensures
        first_of(replace_or_push(s, p, x), q) == first_of(s, q),
{
    lemma_first_index_facts(s, p);
    lemma_first_index_facts(s, q);
    let r = replace_or_push(s, p, x);
    assert forall|j: int| 0 <= j < r.len() implies (q(#[trigger] r[j]) ==> j < s.len() && r[j] == s[j])
        && (j < s.len() ==> (q(r[j]) == q(s[j]))) by {
        match first_index(s, p) {
            Some(i) => {
                if j == i {
                    assert(p(s[i]));
                }
            },
            None => {},
        }
    }
    match first_index(s, q) {
        Some(k) => {
            assert forall|j: int| 0 <= j < k implies !q(#[trigger] r[j]) by {
                assert(!q(s[j]));
            }
            assert(q(r[k]));
            lemma_first_index_step(r, q, k);
        },
        None => {
            assert forall|j: int| 0 <= j < r.len() implies !q(#[trigger] r[j]) by {
                if j < s.len() {
                    assert(!q(s[j]));
                }
            }
            lemma_first_index_none(r, q);
        },
    }
}

/// Two sequences whose elements agree on `p`, place by place, have the
/// same first index satisfying `p`.
pub proof fn lemma_first_index_same<A>(a: Seq<A>, b: Seq<A>, p: spec_fn(A) -> bool)
    requires
        a.len() == b.len(),
        forall|j: int| 0 <= j < a.len() ==> p(#[trigger] a[j]) == p(b[j]),
    ensures
        first_index(a, p) == first_index(b, p),
{
    lemma_first_index_facts(a, p);
    lemma_first_index_facts(b, p);
    match first_index(a, p) {
        Some(i) => {
            assert forall|j: int| 0 <= j < i implies !p(#[trigger] b[j]) by {
                assert(!p(a[j]));
            }
            assert(p(b[i]));
            lemma_first_index_step(b, p, i);
        },
        None => {
            assert forall|j: int| 0 <= j < b.len() implies !p(#[trigger] b[j]) by {
                assert(!p(a[j]));
            }
            lemma_first_index_none(b, p);
        },
    }
}

} // verus!
