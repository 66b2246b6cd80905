//! Small facts about sequences that the contracts of this crate rely on.

use vstd::prelude::*;

verus! {

/// The first value that `f` gives on the items of `s`, taken in order.
pub open spec fn first_some<A, B>(s: Seq<A>, f: spec_fn(A) -> Option<B>) -> Option<B>
    decreases s.len(),
{
    if s.len() == 0 {
        None
    } else if f(s[0]) is Some {
        f(s[0])
    } else {
        first_some(s.drop_first(), f)
    }
}

/// `first_some` skips a prefix on which `f` gives nothing.
pub proof fn lemma_first_some_skip<A, B>(s: Seq<A>, f: spec_fn(A) -> Option<B>, i: int)
    requires
        0 <= i <= s.len(),
        forall|j: int| 0 <= j < i ==> f(#[trigger] s[j]) is None,
    ensures
        first_some(s, f) == first_some(s.skip(i), f),
    decreases i,
{
    if i == 0 {
        assert(s.skip(0) =~= s);
    } else {
        assert(f(s[0]) is None);
        let t = s.drop_first();
        assert forall|j: int| 0 <= j < i - 1 implies f(#[trigger] t[j]) is None by {
            assert(t[j] == s[j + 1]);
        }
        lemma_first_some_skip(t, f, i - 1);
        assert(t.skip(i - 1) =~= s.skip(i));
    }
}

/// `first_some` is what `f` gives at the first index where it gives something.
pub proof fn lemma_first_some_at<A, B>(s: Seq<A>, f: spec_fn(A) -> Option<B>, i: int)
    requires
        0 <= i < s.len(),
        f(s[i]) is Some,
        forall|j: int| 0 <= j < i ==> f(#[trigger] s[j]) is None,
    ensures
        first_some(s, f) == f(s[i]),
{
    lemma_first_some_skip(s, f, i);
    assert(s.skip(i)[0] == s[i]);
}

/// `first_some` is `None` when `f` gives nothing on any item.
pub proof fn lemma_first_some_none<A, B>(s: Seq<A>, f: spec_fn(A) -> Option<B>)
    requires
        forall|j: int| 0 <= j < s.len() ==> f(#[trigger] s[j]) is None,
    ensures
        first_some(s, f) is None,
{
    lemma_first_some_skip(s, f, s.len() as int);
}

/// When `first_some` gives a value, some item of `s` gives it, and no item
/// before that one gives anything.
pub proof fn lemma_first_some_witness<A, B>(s: Seq<A>, f: spec_fn(A) -> Option<B>) -> (i: int)
    requires
        first_some(s, f) is Some,
    ensures
        0 <= i < s.len(),
        f(s[i]) == first_some(s, f),
        forall|j: int| 0 <= j < i ==> f(#[trigger] s[j]) is None,
    decreases s.len(),
{
    if f(s[0]) is Some {
        0
    } else {
        let t = s.drop_first();
        let k = lemma_first_some_witness(t, f);
        assert forall|j: int| 0 <= j < k + 1 implies f(#[trigger] s[j]) is None by {
            if j > 0 {
                assert(s[j] == t[j - 1]);
            }
        }
        k + 1
    }
}

/// Filtering with a weaker test keeps at least as many items.
pub proof fn lemma_filter_len_le<A>(s: Seq<A>, p: spec_fn(A) -> bool, q: spec_fn(A) -> bool)
    requires
        forall|i: int| 0 <= i < s.len() && p(#[trigger] s[i]) ==> q(s[i]),
    ensures
        s.filter(p).len() <= s.filter(q).len(),
    decreases s.len(),
{
    reveal(Seq::filter);
    if s.len() > 0 {
        lemma_filter_len_le(s.drop_last(), p, q);
    }
}

/// Filtering with a weaker test keeps strictly more items when some item
/// passes the weaker test only.
pub proof fn lemma_filter_len_lt<A>(
    s: Seq<A>,
    p: spec_fn(A) -> bool,
    q: spec_fn(A) -> bool,
    k: int,
)
    requires
        forall|i: int| 0 <= i < s.len() && p(#[trigger] s[i]) ==> q(s[i]),
        0 <= k < s.len(),
        q(s[k]),
        !p(s[k]),
    ensures
        s.filter(p).len() < s.filter(q).len(),
    decreases s.len(),
{
    reveal(Seq::filter);
    if k == s.len() - 1 {
        lemma_filter_len_le(s.drop_last(), p, q);
    } else {
        lemma_filter_len_lt(s.drop_last(), p, q, k);
    }
}

/// Two tests that agree on every item of `s` keep the same items.
pub proof fn lemma_filter_agree<A>(s: Seq<A>, p: spec_fn(A) -> bool, q: spec_fn(A) -> bool)
    requires
        forall|i: int| 0 <= i < s.len() ==> p(#[trigger] s[i]) == q(s[i]),
    ensures
        s.filter(p) == s.filter(q),
    decreases s.len(),
{
    reveal(Seq::filter);
    if s.len() > 0 {
        lemma_filter_agree(s.drop_last(), p, q);
    }
}

/// What `filter` keeps of a sequence extended by one item.
pub proof fn lemma_filter_push_one<A>(s: Seq<A>, p: spec_fn(A) -> bool, x: A)
    ensures
        s.push(x).filter(p) == if p(x) {
            s.filter(p).push(x)
        } else {
            s.filter(p)
        },
{
    reveal(Seq::filter);
    assert(s.push(x).drop_last() =~= s);
}

/// When `first_some` gives nothing, `f` gives nothing on any item.
pub proof fn lemma_first_some_none_all<A, B>(s: Seq<A>, f: spec_fn(A) -> Option<B>)
    requires
        first_some(s, f) is None,
    ensures
        forall|j: int| 0 <= j < s.len() ==> f(#[trigger] s[j]) is None,
    decreases s.len(),
{
    if s.len() > 0 {
        let t = s.drop_first();
        lemma_first_some_none_all(t, f);
        assert forall|j: int| 0 <= j < s.len() implies f(#[trigger] s[j]) is None by {
            if j > 0 {
                assert(s[j] == t[j - 1]);
            }
        }
    }
}

/// A test that no item passes keeps nothing.
pub proof fn lemma_filter_nothing<A>(s: Seq<A>, p: spec_fn(A) -> bool)
    requires
        forall|i: int| 0 <= i < s.len() ==> !p(#[trigger] s[i]),
    ensures
        s.filter(p).len() == 0,
    decreases s.len(),
{
    reveal(Seq::filter);
    if s.len() > 0 {
        lemma_filter_nothing(s.drop_last(), p);
    }
}

/// A test that every item passes keeps everything.
pub proof fn lemma_filter_everything<A>(s: Seq<A>, p: spec_fn(A) -> bool)
    requires
        forall|i: int| 0 <= i < s.len() ==> p(#[trigger] s[i]),
    ensures
        s.filter(p) == s,
    decreases s.len(),
{
    reveal(Seq::filter);
    if s.len() > 0 {
        lemma_filter_everything(s.drop_last(), p);
        assert(s.drop_last().push(s.last()) =~= s);
    }
}

/// The first item that `filter` keeps is the first item that passes the test.
pub proof fn lemma_filter_first<A>(s: Seq<A>, p: spec_fn(A) -> bool, j: int)
    requires
        0 <= j < s.len(),
        p(s[j]),
        forall|k: int| 0 <= k < j ==> !p(#[trigger] s[k]),
    ensures
        s.filter(p).len() > 0,
        s.filter(p)[0] == s[j],
    decreases s.len(),
{
    reveal(Seq::filter);
    if j == s.len() - 1 {
        lemma_filter_nothing(s.drop_last(), p);
    } else {
        lemma_filter_first(s.drop_last(), p, j);
    }
}

/// Keeping some of the items of a list without duplicates leaves a list
/// without duplicates.
pub proof fn lemma_filter_no_duplicates<A>(s: Seq<A>, p: spec_fn(A) -> bool)
    requires
        s.no_duplicates(),
    ensures
        s.filter(p).no_duplicates(),
    decreases s.len(),
{
    reveal(Seq::filter);
    if s.len() > 0 {
        let front = s.drop_last();
        assert(front.no_duplicates()) by {
            assert forall|i: int, j: int| 0 <= i < front.len() && 0 <= j < front.len() && i
                != j implies front[i] != front[j] by {
                assert(front[i] == s[i] && front[j] == s[j]);
            }
        }
        lemma_filter_no_duplicates(front, p);
        let kept = s.filter(p);
        let kept_front = front.filter(p);
        assert forall|i: int, j: int| 0 <= i < kept.len() && 0 <= j < kept.len() && i
            != j implies kept[i] != kept[j] by {
            if i < kept_front.len() && j < kept_front.len() {
                assert(kept[i] == kept_front[i] && kept[j] == kept_front[j]);
            } else {
                let k = if i < kept_front.len() {
                    i
                } else {
                    j
                };
                assert(kept_front.contains(kept_front[k]));
                front.lemma_filter_contains_rev(p, kept_front[k]);
                let m = choose|m: int| 0 <= m < front.len() && front[m] == kept_front[k];
                assert(s[m] == kept_front[k]);
                assert(s[m] != s[s.len() - 1]);
            }
        }
    }
}

/// Where each item passes one of two tests at most, as many items pass one
/// of them as pass each, added up.
pub proof fn lemma_filter_split<A>(
    s: Seq<A>,
    p: spec_fn(A) -> bool,
    q: spec_fn(A) -> bool,
    either: spec_fn(A) -> bool,
)
    requires
        forall|i: int|
            0 <= i < s.len() ==> either(#[trigger] s[i]) == (p(s[i]) || q(s[i])) && !(p(s[i])
                && q(s[i])),
    ensures
        s.filter(either).len() == s.filter(p).len() + s.filter(q).len(),
    decreases s.len(),
{
    reveal(Seq::filter);
    if s.len() > 0 {
        lemma_filter_split(s.drop_last(), p, q, either);
    }
}

/// Keeping the items that pass one test, then those that pass another,
/// comes to keeping the items that pass both.
pub proof fn lemma_filter_twice<A>(
    s: Seq<A>,
    p: spec_fn(A) -> bool,
    q: spec_fn(A) -> bool,
    both: spec_fn(A) -> bool,
)
    requires
        forall|i: int| 0 <= i < s.len() ==> both(#[trigger] s[i]) == (p(s[i]) && q(s[i])),
    ensures
        s.filter(p).filter(q) == s.filter(both),
    decreases s.len(),
{
    reveal(Seq::filter);
    if s.len() > 0 {
        let front = s.drop_last();
        lemma_filter_twice(front, p, q, both);
        if p(s.last()) {
            lemma_filter_push_one(front.filter(p), q, s.last());
        }
    }
}

/// What a list gives where no item gives anything is empty.
pub proof fn lemma_filter_map_nothing<A, B>(s: Seq<A>, f: spec_fn(A) -> Option<B>)
    requires
        forall|i: int| 0 <= i < s.len() ==> f(#[trigger] s[i]) is None,
    ensures
        s.filter_map(f).len() == 0,
    decreases s.len(),
{
    if s.len() > 0 {
        lemma_filter_map_nothing(s.drop_last(), f);
    }
}

/// What an item gives is among what the list gives.
pub proof fn lemma_filter_map_has<A, B>(s: Seq<A>, f: spec_fn(A) -> Option<B>, i: int)
    requires
        0 <= i < s.len(),
        f(s[i]) is Some,
    ensures
        s.filter_map(f).contains(f(s[i])->0),
    decreases s.len(),
{
    let front = s.drop_last();
    let kept = s.filter_map(f);
    let kept_front = front.filter_map(f);
    if i == s.len() - 1 {
        assert(kept[kept_front.len() as int] == f(s[i])->0);
    } else {
        lemma_filter_map_has(front, f, i);
        let k = choose|k: int| 0 <= k < kept_front.len() && kept_front[k] == f(s[i])->0;
        assert(kept[k] == kept_front[k]);
    }
}

/// Where no item is kept, no item passes the test.
pub proof fn lemma_filter_kept_nothing<A>(s: Seq<A>, p: spec_fn(A) -> bool)
    requires
        s.filter(p).len() == 0,
    ensures
        forall|i: int| 0 <= i < s.len() ==> !p(#[trigger] s[i]),
{
    assert forall|i: int| 0 <= i < s.len() implies !p(#[trigger] s[i]) by {
        if p(s[i]) {
            s.lemma_filter_contains(p, i);
        }
    }
}

/// What is kept of a list, seen from its first item.
pub proof fn lemma_filter_first_item<A>(s: Seq<A>, p: spec_fn(A) -> bool)
    requires
        s.len() > 0,
    ensures
        s.filter(p).len() == s.drop_first().filter(p).len() + if p(s[0]) {
            1int
        } else {
            0int
        },
{
    let head = seq![s[0]];
    assert(s =~= head + s.drop_first());
    Seq::filter_distributes_over_add(head, s.drop_first(), p);
    reveal(Seq::filter);
    assert(head.drop_last() =~= Seq::<A>::empty());
    assert(head.drop_last().filter(p).len() == 0);
}

} // verus!
