//! Facts about sequences used by several modules' loops.
use vstd::prelude::*;

verus! {

/// Filtering one element more of a prefix.
pub proof fn lemma_filter_take_step<T>(s: Seq<T>, i: int, p: spec_fn(T) -> bool)
    requires
        0 <= i < s.len(),
    ensures
        s.take(i + 1).filter(p) == if p(s[i]) {
            s.take(i).filter(p).push(s[i])
        } else {
            s.take(i).filter(p)
        },
{
    reveal(Seq::filter);
    assert(s.take(i + 1).drop_last() == s.take(i));
    assert(s.take(i + 1).last() == s[i]);
}

/// What holds of every element of `s` holds of every element of a filter
/// of it.
pub proof fn lemma_filter_elements<T>(s: Seq<T>, p: spec_fn(T) -> bool, k: int)
    requires
        0 <= k < s.filter(p).len(),
    ensures
        s.contains(s.filter(p)[k]),
        p(s.filter(p)[k]),
{
    broadcast use vstd::seq_lib::group_filter_ensures;

    let x = s.filter(p)[k];
    assert(s.filter(p).contains(x));
    s.lemma_filter_contains_rev(p, x);
}

/// Filtering a sequence that holds nothing twice gives one that holds
/// nothing twice.
pub proof fn lemma_filter_no_duplicates<T>(s: Seq<T>, p: spec_fn(T) -> bool)
    requires
        s.no_duplicates(),
    ensures
        s.filter(p).no_duplicates(),
    decreases s.len(),
{
    broadcast use vstd::seq_lib::group_filter_ensures;

    if s.len() > 0 {
        let init = s.drop_last();
        assert(init.no_duplicates()) by {
            assert forall|i: int, j: int| 0 <= i < init.len() && 0 <= j < init.len() && i != j implies init[i]
                != init[j] by {
                assert(init[i] == s[i] && init[j] == s[j]);
            }
        }
        lemma_filter_no_duplicates(init, p);
        assert(init.push(s.last()) == s);
        init.lemma_filter_push(s.last(), p);
        if p(s.last()) {
            let f = init.filter(p);
            assert forall|i: int| 0 <= i < f.len() implies f[i] != s.last() by {
                lemma_filter_elements(init, p, i);
                let j = choose|j: int| 0 <= j < init.len() && init[j] == f[i];
                assert(s[j] == init[j]);
                assert(j != s.len() - 1);
            }
            assert forall|i: int, j: int| 0 <= i < f.push(s.last()).len() && 0 <= j < f.push(s.last()).len() && i != j
                implies f.push(s.last())[i] != f.push(s.last())[j] by {
                if i < f.len() && j < f.len() {
                } else if i < f.len() {
                    assert(f.push(s.last())[i] == f[i]);
                } else {
                    assert(f.push(s.last())[j] == f[j]);
                }
            }
        }
    }
}

/// A filter keeps every element exactly when every element passes.
pub proof fn lemma_filter_keeps_all_iff<T>(s: Seq<T>, p: spec_fn(T) -> bool)
    ensures
        (s.filter(p).len() == s.len()) == (forall|i: int| 0 <= i < s.len() ==> p(#[trigger] s[i])),
    decreases s.len(),
{
    broadcast use vstd::seq_lib::group_filter_ensures;

    if s.len() > 0 {
        let init = s.drop_last();
        lemma_filter_keeps_all_iff(init, p);
        assert(init.push(s.last()) == s);
        init.lemma_filter_push(s.last(), p);
        assert(init.filter(p).len() <= init.len()) by {
            init.lemma_filter_len(p);
        }
        if forall|i: int| 0 <= i < s.len() ==> p(#[trigger] s[i]) {
            assert forall|i: int| 0 <= i < init.len() implies p(#[trigger] init[i]) by {
                assert(init[i] == s[i]);
            }
            assert(p(s[s.len() - 1]));
        }
        if s.filter(p).len() == s.len() {
            if !p(s.last()) {
                assert(s.filter(p).len() == init.filter(p).len());
            }
            assert forall|i: int| 0 <= i < s.len() implies p(#[trigger] s[i]) by {
                if i < init.len() {
                    assert(init[i] == s[i]);
                }
            }
        }
    }
}

/// A filter keeps nothing exactly when no element passes.
pub proof fn lemma_filter_keeps_none_iff<T>(s: Seq<T>, p: spec_fn(T) -> bool)
    ensures
        (s.filter(p).len() == 0) == (forall|i: int| 0 <= i < s.len() ==> !p(#[trigger] s[i])),
    decreases s.len(),
{
    if s.len() > 0 {
        let init = s.drop_last();
        lemma_filter_keeps_none_iff(init, p);
        assert(init.push(s.last()) == s);
        init.lemma_filter_push(s.last(), p);
        if forall|i: int| 0 <= i < s.len() ==> !p(#[trigger] s[i]) {
            assert forall|i: int| 0 <= i < init.len() implies !p(#[trigger] init[i]) by {
                assert(init[i] == s[i]);
            }
            assert(!p(s[s.len() - 1]));
        }
        if s.filter(p).len() == 0 {
            assert forall|i: int| 0 <= i < s.len() implies !p(#[trigger] s[i]) by {
                if i < init.len() {
                    assert(init[i] == s[i]);
                }
            }
        }
    } else {
        assert(s.filter(p) =~= Seq::<T>::empty()) by {
            reveal(Seq::filter);
        }
    }
}

} // verus!
