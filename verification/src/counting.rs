use vstd::prelude::*;
use vstd::assert_seqs_equal;

verus! {

/// Number of elements of `s` that satisfy `f`.
pub open spec fn count_if<A>(s: Seq<A>, f: spec_fn(A) -> bool) -> int
    decreases s.len(),
{
    if s.len() == 0 {
        0
    } else {
        count_if(s.drop_last(), f) + if f(s.last()) {
            1int
        } else {
            0int
        }
    }
}

/// Pushing an element extends membership by exactly that element.
pub proof fn lemma_push_contains<A>(s: Seq<A>, x: A)
    ensures
        forall|q: A| #[trigger] s.push(x).contains(q) == (s.contains(q) || q == x),
{
    assert forall|q: A| #[trigger] s.push(x).contains(q) == (s.contains(q) || q == x) by {
        if s.push(x).contains(q) {
            let k = choose|k: int| 0 <= k < s.push(x).len() && s.push(x)[k] == q;
            if k < s.len() {
                assert(s[k] == q);
            }
        }
        if s.contains(q) {
            let k = choose|k: int| 0 <= k < s.len() && s[k] == q;
            assert(s.push(x)[k] == q);
        }
        if q == x {
            assert(s.push(x)[s.len() as int] == q);
        }
    }
}

/// The identity predicate on booleans, shared by every count over a bool grid.
pub open spec fn id_bool() -> spec_fn(bool) -> bool {
    |b: bool| b
}

/// The is-some predicate, shared by every count over a grid of options.
pub open spec fn is_some_pred<A>() -> spec_fn(Option<A>) -> bool {
    |o: Option<A>| o is Some
}

/// The conjunction of two predicates, shared so that counts over it unify.
pub open spec fn and_pred<A>(f: spec_fn(A) -> bool, g: spec_fn(A) -> bool) -> spec_fn(A) -> bool {
    |x: A| f(x) && g(x)
}

/// Two pointwise-disjoint boolean grids together mark at most every slot.
pub proof fn lemma_count_disjoint(a: Seq<bool>, b: Seq<bool>)
    requires
        a.len() == b.len(),
        forall|i: int| 0 <= i < a.len() ==> !(a[i] && b[i]),
    ensures
        count_if(a, id_bool()) + count_if(b, id_bool()) <= a.len(),
    decreases a.len(),
{
    if a.len() > 0 {
        assert forall|i: int|
            0 <= i < a.drop_last().len() implies !(a.drop_last()[i] && b.drop_last()[i]) by {
            assert(a.drop_last()[i] == a[i]);
            assert(b.drop_last()[i] == b[i]);
        }
        lemma_count_disjoint(a.drop_last(), b.drop_last());
        assert(a.last() == a[a.len() - 1]);
        assert(b.last() == b[a.len() - 1]);
    }
}

pub proof fn lemma_count_if_bounds<A>(s: Seq<A>, f: spec_fn(A) -> bool)
    ensures
        0 <= count_if(s, f) <= s.len(),
    decreases s.len(),
{
    if s.len() > 0 {
        lemma_count_if_bounds(s.drop_last(), f);
    }
}

/// If every element counts, the count is the length; and conversely.
pub proof fn lemma_count_if_full<A>(s: Seq<A>, f: spec_fn(A) -> bool)
    requires
        count_if(s, f) == s.len(),
    ensures
        forall|i: int| 0 <= i < s.len() ==> f(s[i]),
    decreases s.len(),
{
    if s.len() > 0 {
        lemma_count_if_bounds(s.drop_last(), f);
        lemma_count_if_full(s.drop_last(), f);
        assert forall|i: int| 0 <= i < s.len() implies f(s[i]) by {
            if i < s.len() - 1 {
                assert(s.drop_last()[i] == s[i]);
            } else {
                assert(s[i] == s.last());
            }
        }
    }
}

/// If every element satisfies the predicate, the count is the length.
pub proof fn lemma_count_if_all<A>(s: Seq<A>, f: spec_fn(A) -> bool)
    requires
        forall|i: int| 0 <= i < s.len() ==> f(s[i]),
    ensures
        count_if(s, f) == s.len(),
    decreases s.len(),
{
    if s.len() > 0 {
        assert forall|i: int| 0 <= i < s.drop_last().len() implies f(s.drop_last()[i]) by {
            assert(s.drop_last()[i] == s[i]);
        }
        lemma_count_if_all(s.drop_last(), f);
        assert(f(s.last()));
    }
}

/// If no element satisfies the predicate, the count is zero.
pub proof fn lemma_count_if_zero<A>(s: Seq<A>, f: spec_fn(A) -> bool)
    requires
        forall|i: int| 0 <= i < s.len() ==> !f(s[i]),
    ensures
        count_if(s, f) == 0,
    decreases s.len(),
{
    if s.len() > 0 {
        assert forall|i: int| 0 <= i < s.drop_last().len() implies !f(s.drop_last()[i]) by {
            assert(s.drop_last()[i] == s[i]);
        }
        lemma_count_if_zero(s.drop_last(), f);
        assert(!f(s.last()));
    }
}

/// If no element counts, the count is zero; and conversely.
pub proof fn lemma_count_if_none<A>(s: Seq<A>, f: spec_fn(A) -> bool)
    requires
        count_if(s, f) == 0,
    ensures
        forall|i: int| 0 <= i < s.len() ==> !f(s[i]),
    decreases s.len(),
{
    if s.len() > 0 {
        lemma_count_if_bounds(s.drop_last(), f);
        lemma_count_if_none(s.drop_last(), f);
        assert forall|i: int| 0 <= i < s.len() implies !f(s[i]) by {
            if i < s.len() - 1 {
                assert(s.drop_last()[i] == s[i]);
            } else {
                assert(s[i] == s.last());
            }
        }
    }
}

/// A positive count exhibits a satisfying element.
pub proof fn lemma_count_if_pos<A>(s: Seq<A>, f: spec_fn(A) -> bool)
    requires
        count_if(s, f) > 0,
    ensures
        exists|i: int| 0 <= i < s.len() && f(#[trigger] s[i]),
    decreases s.len(),
{
    if s.len() > 0 {
        if f(s.last()) {
            assert(f(s[s.len() - 1]));
        } else {
            lemma_count_if_pos(s.drop_last(), f);
            let i = choose|i: int| 0 <= i < s.drop_last().len() && f(#[trigger] s.drop_last()[i]);
            assert(f(s[i]));
        }
    }
}

/// Counting is monotone in the predicate.
pub proof fn lemma_count_if_le<A>(s: Seq<A>, f: spec_fn(A) -> bool, g: spec_fn(A) -> bool)
    requires
        forall|i: int| 0 <= i < s.len() ==> (f(s[i]) ==> g(s[i])),
    ensures
        count_if(s, f) <= count_if(s, g),
    decreases s.len(),
{
    if s.len() > 0 {
        assert forall|i: int| 0 <= i < s.drop_last().len() implies (f(s.drop_last()[i])
            ==> g(s.drop_last()[i])) by {
            assert(s.drop_last()[i] == s[i]);
        }
        lemma_count_if_le(s.drop_last(), f, g);
        assert(f(s.last()) ==> g(s.last()));
    }
}

/// If `f` implies `g` pointwise yet counts at least as many elements,
/// the two predicates agree on every element of `s`.
pub proof fn lemma_count_if_pinned<A>(s: Seq<A>, f: spec_fn(A) -> bool, g: spec_fn(A) -> bool)
    requires
        forall|i: int| 0 <= i < s.len() ==> (f(s[i]) ==> g(s[i])),
        count_if(s, f) >= count_if(s, g),
    ensures
        forall|i: int| 0 <= i < s.len() ==> f(s[i]) == g(s[i]),
    decreases s.len(),
{
    if s.len() > 0 {
        assert forall|i: int| 0 <= i < s.drop_last().len() implies (f(s.drop_last()[i])
            ==> g(s.drop_last()[i])) by {
            assert(s.drop_last()[i] == s[i]);
        }
        lemma_count_if_le(s.drop_last(), f, g);
        assert(f(s.last()) ==> g(s.last()));
        lemma_count_if_pinned(s.drop_last(), f, g);
        assert forall|i: int| 0 <= i < s.len() implies f(s[i]) == g(s[i]) by {
            if i < s.len() - 1 {
                assert(s.drop_last()[i] == s[i]);
            } else {
                assert(s[i] == s.last());
            }
        }
    }
}

/// A partition of `f` into two disjoint predicates splits its count.
pub proof fn lemma_count_if_split<A>(
    s: Seq<A>,
    f: spec_fn(A) -> bool,
    g: spec_fn(A) -> bool,
    h: spec_fn(A) -> bool,
)
    requires
        forall|i: int| 0 <= i < s.len() ==> (f(s[i]) <==> (g(s[i]) || h(s[i]))),
        forall|i: int| 0 <= i < s.len() ==> !(g(s[i]) && h(s[i])),
    ensures
        count_if(s, f) == count_if(s, g) + count_if(s, h),
    decreases s.len(),
{
    if s.len() > 0 {
        assert forall|i: int|
            0 <= i < s.drop_last().len() implies ((f(s.drop_last()[i]) <==> (g(s.drop_last()[i])
            || h(s.drop_last()[i]))) && !(g(s.drop_last()[i]) && h(s.drop_last()[i]))) by {
            assert(s.drop_last()[i] == s[i]);
        }
        lemma_count_if_split(s.drop_last(), f, g, h);
        assert(f(s.last()) <==> (g(s.last()) || h(s.last())));
        assert(!(g(s.last()) && h(s.last())));
    }
}

/// Updating one position changes the count by the difference at that position.
pub proof fn lemma_count_if_update<A>(s: Seq<A>, f: spec_fn(A) -> bool, i: int, v: A)
    requires
        0 <= i < s.len(),
    ensures
        count_if(s.update(i, v), f) == count_if(s, f) - (if f(s[i]) {
            1int
        } else {
            0int
        }) + (if f(v) {
            1int
        } else {
            0int
        }),
    decreases s.len(),
{
    let t = s.update(i, v);
    if i == s.len() - 1 {
        assert_seqs_equal!(t.drop_last() == s.drop_last());
        assert(t.last() == v);
    } else {
        assert_seqs_equal!(t.drop_last() == s.drop_last().update(i, v));
        lemma_count_if_update(s.drop_last(), f, i, v);
        assert(s.drop_last()[i] == s[i]);
        assert(t.last() == s.last());
    }
}

/// One step of counting over a growing prefix.
pub proof fn lemma_count_if_take_step<A>(s: Seq<A>, f: spec_fn(A) -> bool, i: int)
    requires
        0 <= i < s.len(),
    ensures
        count_if(s.take(i + 1), f) == count_if(s.take(i), f) + (if f(s[i]) {
            1int
        } else {
            0int
        }),
{
    assert_seqs_equal!(s.take(i + 1).drop_last() == s.take(i));
    assert(s.take(i + 1).last() == s[i]);
}

/// The whole sequence is its own full prefix.
pub proof fn lemma_count_if_take_full<A>(s: Seq<A>, f: spec_fn(A) -> bool)
    ensures
        count_if(s.take(s.len() as int), f) == count_if(s, f),
{
    assert_seqs_equal!(s.take(s.len() as int) == s);
}

/// Where the filled slots of `s` avoid the marked slots of `m`, the two
/// counts cover the length exactly when every slot is filled or marked.
pub proof fn lemma_count_cover<A>(s: Seq<Option<A>>, m: Seq<bool>)
    requires
        s.len() == m.len(),
        forall|i: int| 0 <= i < s.len() ==> (s[i] is Some ==> !m[i]),
    ensures
        count_if(s, is_some_pred::<A>()) + count_if(m, id_bool()) <= s.len(),
        (count_if(s, is_some_pred::<A>()) + count_if(m, id_bool()) == s.len()) <==> (forall|i: int|
            0 <= i < s.len() ==> (s[i] is Some || m[i])),
    decreases s.len(),
{
    if s.len() == 0 {
    } else {
        assert forall|i: int| 0 <= i < s.drop_last().len() implies (s.drop_last()[i] is Some
            ==> !m.drop_last()[i]) by {
            assert(s.drop_last()[i] == s[i]);
            assert(m.drop_last()[i] == m[i]);
        }
        lemma_count_cover(s.drop_last(), m.drop_last());
        let cs = count_if(s, is_some_pred::<A>());
        let cm = count_if(m, id_bool());
        let ps = count_if(s.drop_last(), is_some_pred::<A>());
        let pm = count_if(m.drop_last(), id_bool());
        assert(s.last() == s[s.len() - 1]);
        assert(m.last() == m[s.len() - 1]);
        if cs + cm == s.len() {
            assert(ps + pm == s.drop_last().len() && (s.last() is Some || m.last()));
            assert forall|i: int| 0 <= i < s.len() implies (s[i] is Some || m[i]) by {
                if i < s.len() - 1 {
                    assert(s.drop_last()[i] == s[i]);
                    assert(m.drop_last()[i] == m[i]);
                }
            }
        }
        if forall|i: int| 0 <= i < s.len() ==> (s[i] is Some || m[i]) {
            assert forall|i: int|
                0 <= i < s.drop_last().len() implies (s.drop_last()[i] is Some
                || m.drop_last()[i]) by {
                assert(s.drop_last()[i] == s[i]);
                assert(m.drop_last()[i] == m[i]);
            }
            assert(s.last() is Some || m.last());
            assert(cs + cm == s.len());
        }
    }
}

/// Two sequences whose elements satisfy their predicates in lockstep
/// have the same count.
pub proof fn lemma_count_if_lockstep<A, B>(
    s: Seq<A>,
    t: Seq<B>,
    f: spec_fn(A) -> bool,
    g: spec_fn(B) -> bool,
)
    requires
        s.len() == t.len(),
        forall|i: int| 0 <= i < s.len() ==> f(s[i]) == g(t[i]),
    ensures
        count_if(s, f) == count_if(t, g),
    decreases s.len(),
{
    if s.len() > 0 {
        assert forall|i: int| 0 <= i < s.drop_last().len() implies f(s.drop_last()[i]) == g(
            t.drop_last()[i],
        ) by {
            assert(s.drop_last()[i] == s[i]);
            assert(t.drop_last()[i] == t[i]);
        }
        lemma_count_if_lockstep(s.drop_last(), t.drop_last(), f, g);
        assert(f(s.last()) == g(t.last()));
    }
}

} // verus!
