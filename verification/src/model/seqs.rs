//! Facts about filtering a sequence that holds no element twice.

use vstd::prelude::*;

verus! {

/// The predicate "is not `x`".
pub open spec fn differs_from<A>(x: A) -> spec_fn(A) -> bool {
    |a: A| a != x
}

/// The predicate "does not occur in `xs`".
pub open spec fn not_among<A>(xs: Seq<A>) -> spec_fn(A) -> bool {
    |a: A| !xs.contains(a)
}

/// A filtered sequence, by its last element: the filtered rest, with the
/// last element added where the predicate keeps it.
pub proof fn lemma_filter_last<A>(s: Seq<A>, keep: spec_fn(A) -> bool)
    requires
        s.len() > 0,
    ensures
        s.filter(keep) == if keep(s.last()) {
            s.drop_last().filter(keep).push(s.last())
        } else {
            s.drop_last().filter(keep)
        },
{
    reveal(Seq::filter);
}

/// What a filtered sequence holds: the elements of the sequence that the
/// predicate keeps.
pub proof fn lemma_filter_members<A>(s: Seq<A>, keep: spec_fn(A) -> bool)
    ensures
        forall|a: A| #[trigger] s.filter(keep).contains(a) <==> s.contains(a) && keep(a),
    decreases s.len(),
{
    if s.len() == 0 {
        reveal(Seq::filter);
    } else {
        let rest = s.drop_last();
        let last = s.last();
        lemma_filter_last(s, keep);
        lemma_filter_members(rest, keep);
        let out = s.filter(keep);
        let sub = rest.filter(keep);
        assert forall|a: A| #[trigger] out.contains(a) <==> s.contains(a) && keep(a) by {
            if out.contains(a) {
                let i = choose|i: int| 0 <= i < out.len() && out[i] == a;
                if keep(last) && i == out.len() - 1 {
                    assert(s[s.len() - 1] == a);
                } else {
                    assert(sub[i] == a);
                    assert(sub.contains(a));
                    let j = choose|j: int| 0 <= j < rest.len() && rest[j] == a;
                    assert(s[j] == a);
                }
            }
            if s.contains(a) && keep(a) {
                let j = choose|j: int| 0 <= j < s.len() && s[j] == a;
                if j == s.len() - 1 {
                    assert(out[out.len() - 1] == a);
                } else {
                    assert(rest[j] == a);
                    assert(rest.contains(a));
                    assert(sub.contains(a));
                    let i = choose|i: int| 0 <= i < sub.len() && sub[i] == a;
                    assert(out[i] == a);
                }
            }
        }
    }
}

/// Filtering a sequence without duplicates leaves one without duplicates.
pub proof fn lemma_filter_no_duplicates<A>(s: Seq<A>, keep: spec_fn(A) -> bool)
    requires
        s.no_duplicates(),
    ensures
        s.filter(keep).no_duplicates(),
    decreases s.len(),
{
    if s.len() == 0 {
        reveal(Seq::filter);
    } else {
        let rest = s.drop_last();
        let last = s.last();
        lemma_filter_last(s, keep);
        lemma_filter_no_duplicates(rest, keep);
        lemma_filter_members(rest, keep);
        let sub = rest.filter(keep);
        if keep(last) {
            assert(!rest.contains(last));
            assert(!sub.contains(last));
            assert(sub.push(last).no_duplicates());
        }
    }
}

/// A filter that keeps every element changes nothing.
pub proof fn lemma_filter_keeps_all<A>(s: Seq<A>, keep: spec_fn(A) -> bool)
    requires
        forall|i: int| 0 <= i < s.len() ==> keep(#[trigger] s[i]),
    ensures
        s.filter(keep) == s,
    decreases s.len(),
{
    if s.len() == 0 {
        reveal(Seq::filter);
    } else {
        lemma_filter_last(s, keep);
        lemma_filter_keeps_all(s.drop_last(), keep);
        assert(s.drop_last().push(s.last()) =~= s);
    }
}

/// In a sequence without duplicates, filtering out the element at `at` is
/// removing position `at`.
pub proof fn lemma_filter_out_is_remove<A>(s: Seq<A>, at: int)
    requires
        s.no_duplicates(),
        0 <= at < s.len(),
    ensures
        s.filter(differs_from(s[at])) == s.remove(at),
    decreases s.len(),
{
    let keep = differs_from(s[at]);
    let rest = s.drop_last();
    lemma_filter_last(s, keep);
    if at == s.len() - 1 {
        lemma_filter_keeps_all(rest, keep);
        assert(s.remove(at) =~= rest);
    } else {
        assert(rest[at] == s[at]);
        lemma_filter_out_is_remove(rest, at);
        assert(rest.remove(at).push(s.last()) =~= s.remove(at));
    }
}

/// Filtering out the members of `gone` and then `x` is filtering out the
/// members of `gone` with `x` added.
pub proof fn lemma_filter_out_one_more<A>(s: Seq<A>, gone: Seq<A>, x: A)
    ensures
        s.filter(not_among(gone)).filter(differs_from(x)) == s.filter(not_among(gone.push(x))),
    decreases s.len(),
{
    let first = not_among(gone);
    let second = differs_from(x);
    let both = not_among(gone.push(x));
    if s.len() == 0 {
        reveal(Seq::filter);
    } else {
        let rest = s.drop_last();
        let last = s.last();
        lemma_filter_last(s, first);
        lemma_filter_last(s, both);
        lemma_filter_out_one_more(rest, gone, x);
        assert(both(last) <==> first(last) && second(last)) by {
            if gone.contains(last) {
                let i = choose|i: int| 0 <= i < gone.len() && gone[i] == last;
                assert(gone.push(x)[i] == last);
            }
            if last == x {
                assert(gone.push(x)[gone.len() as int] == last);
            }
            if gone.push(x).contains(last) {
                let i = choose|i: int| 0 <= i < gone.push(x).len() && gone.push(x)[i] == last;
                if i < gone.len() {
                    assert(gone[i] == last);
                }
            }
        }
        if first(last) {
            let kept = rest.filter(first);
            lemma_filter_last(kept.push(last), second);
            assert(kept.push(last).drop_last() =~= kept);
        }
    }
}

} // verus!
