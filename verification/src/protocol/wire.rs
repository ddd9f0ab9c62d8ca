//! The bytes of a list: each element's bytes in turn.
use vstd::prelude::*;

verus! {

/// The bytes of the elements of `s` one after another, `f` giving each
/// element's bytes.
pub open spec fn concat_map<A>(s: Seq<A>, f: spec_fn(A) -> Seq<u8>) -> Seq<u8>
    decreases s.len(),
{
    if s.len() == 0 {
        Seq::<u8>::empty()
    } else {
        concat_map(s.drop_last(), f) + f(s.last())
    }
}

/// One more element of the list adds its bytes at the end.
pub proof fn lemma_concat_map_push<A>(s: Seq<A>, f: spec_fn(A) -> Seq<u8>, i: int)
    requires
        0 <= i < s.len(),
    ensures
        concat_map(s.take(i + 1), f) == concat_map(s.take(i), f) + f(s[i]),
{
    assert(s.take(i + 1).drop_last() == s.take(i));
}

/// The bytes of a prefix of the list are no longer than those of the list.
pub proof fn lemma_concat_map_take_len<A>(s: Seq<A>, f: spec_fn(A) -> Seq<u8>, i: int)
    requires
        0 <= i <= s.len(),
    ensures
        concat_map(s.take(i), f).len() <= concat_map(s, f).len(),
    decreases s.len() - i,
{
    if i < s.len() {
        lemma_concat_map_take_len(s, f, i + 1);
        lemma_concat_map_push(s, f, i);
    } else {
        assert(s.take(i) == s);
    }
}

/// The bytes of the list are those of its first element followed by those
/// of the rest.
pub proof fn lemma_concat_map_first<A>(s: Seq<A>, f: spec_fn(A) -> Seq<u8>)
    requires
        s.len() > 0,
    ensures
        concat_map(s, f) == f(s[0]) + concat_map(s.drop_first(), f),
    decreases s.len(),
{
    if s.len() == 1 {
        assert(s.drop_last().len() == 0);
        assert(s.drop_first().len() == 0);
        assert(concat_map(s.drop_first(), f) == Seq::<u8>::empty());
        assert(concat_map(s.drop_last(), f) == Seq::<u8>::empty());
        assert(concat_map(s, f) == f(s[0]));
    } else {
        lemma_concat_map_first(s.drop_last(), f);
        assert(s.drop_last().drop_first() == s.drop_first().drop_last());
        assert(s.drop_first().last() == s.last());
    }
}

/// Lists whose elements have the same bytes, one for one, have the same
/// bytes.
pub proof fn lemma_concat_map_pointwise<A, B>(
    a: Seq<A>,
    f: spec_fn(A) -> Seq<u8>,
    b: Seq<B>,
    g: spec_fn(B) -> Seq<u8>,
)
    requires
        a.len() == b.len(),
        forall|i: int| 0 <= i < a.len() ==> f(#[trigger] a[i]) == g(b[i]),
    ensures
        concat_map(a, f) == concat_map(b, g),
    decreases a.len(),
{
    if a.len() > 0 {
        assert forall|i: int| 0 <= i < a.drop_last().len() implies f(
            #[trigger] a.drop_last()[i],
        ) == g(b.drop_last()[i]) by {
            assert(a.drop_last()[i] == a[i]);
            assert(b.drop_last()[i] == b[i]);
        }
        lemma_concat_map_pointwise(a.drop_last(), f, b.drop_last(), g);
        assert(f(a.last()) == g(b.last()));
    }
}

/// Where every element takes at most `bound` bytes, the list takes at most
/// `bound` bytes per element.
pub proof fn lemma_concat_map_len_bound<A>(a: Seq<A>, f: spec_fn(A) -> Seq<u8>, bound: nat)
    requires
        forall|i: int| 0 <= i < a.len() ==> (#[trigger] f(a[i])).len() <= bound,
    ensures
        concat_map(a, f).len() <= a.len() * bound,
    decreases a.len(),
{
    if a.len() > 0 {
        assert forall|i: int| 0 <= i < a.drop_last().len() implies (#[trigger] f(
            a.drop_last()[i],
        )).len() <= bound by {
            assert(a.drop_last()[i] == a[i]);
        }
        lemma_concat_map_len_bound(a.drop_last(), f, bound);
        assert(f(a[a.len() - 1]).len() <= bound);
        let n = a.len();
        assert((n - 1) * bound + bound == n * bound) by (nonlinear_arith);
    }
}

} // verus!
