//! Filtering a list keeps its order.

use vstd::prelude::*;

verus! {

/// `from` are the positions of `all`, from the front to the back, at which `p` holds,
/// and `kept` is what stands there.
pub open spec fn picks(
    from: Seq<int>,
    kept: Seq<Seq<char>>,
    all: Seq<Seq<char>>,
    p: spec_fn(Seq<char>) -> bool,
) -> bool {
    &&& from.len() == kept.len()
    &&& forall|i: int|
        0 <= i < from.len() ==> 0 <= #[trigger] from[i] < all.len() && all[from[i]] == kept[i]
    &&& forall|i: int, j: int| 0 <= i < j < from.len() ==> #[trigger] from[i] < #[trigger] from[j]
    &&& forall|k: int| 0 <= k < all.len() ==> (p(#[trigger] all[k]) <==> from.contains(k))
}

/// `kept` is `all` without the names of which `p` does not hold, in the same order.
pub open spec fn keeps_order(
    kept: Seq<Seq<char>>,
    all: Seq<Seq<char>>,
    p: spec_fn(Seq<char>) -> bool,
) -> bool {
    exists|from: Seq<int>| #[trigger] picks(from, kept, all, p)
}

/// Filtering keeps the order of a list, and every name of which `p` holds.
pub proof fn lemma_filter_keeps_order(all: Seq<Seq<char>>, p: spec_fn(Seq<char>) -> bool)
    ensures
        keeps_order(all.filter(p), all, p),
    decreases all.len(),
{
    reveal(Seq::filter);
    if all.len() == 0 {
        assert(picks(Seq::empty(), all.filter(p), all, p));
    } else {
        let rest = all.drop_last();
        let last = all.len() - 1;
        lemma_filter_keeps_order(rest, p);
        let from = choose|from: Seq<int>| #[trigger] picks(from, rest.filter(p), rest, p);
        let more = if p(all.last()) {
            from.push(last)
        } else {
            from
        };
        assert forall|i: int| 0 <= i < more.len() implies 0 <= #[trigger] more[i] < all.len()
            && all[more[i]] == all.filter(p)[i] by {
            if i < from.len() {
                assert(0 <= from[i] < rest.len());
                assert(rest[from[i]] == rest.filter(p)[i]);
            }
        }
        assert forall|i: int, j: int| 0 <= i < j < more.len() implies #[trigger] more[i]
            < #[trigger] more[j] by {
            assert(0 <= from[i] < rest.len());
            if j < from.len() {
                assert(from[i] < from[j]);
            }
        }
        assert forall|k: int| 0 <= k < all.len() implies (p(#[trigger] all[k]) <==> more.contains(
            k,
        )) by {
            if k < last {
                assert(rest[k] == all[k]);
                if from.contains(k) {
                    let i = choose|i: int| 0 <= i < from.len() && from[i] == k;
                    assert(more[i] == k);
                }
                if more.contains(k) {
                    let i = choose|i: int| 0 <= i < more.len() && more[i] == k;
                    assert(from[i] == k);
                }
            } else {
                if p(all[k]) {
                    assert(more[from.len() as int] == k);
                }
                if more.contains(k) && !p(all[k]) {
                    let i = choose|i: int| 0 <= i < more.len() && more[i] == k;
                    assert(0 <= from[i] < rest.len());
                }
            }
        }
        assert(picks(more, all.filter(p), all, p));
    }
}

} // verus!
