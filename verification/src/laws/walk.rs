//! Laws of the tree that a walk goes over.

use vstd::prelude::*;

use crate::syntax;
use crate::syntax::{SyntaxKind, WalkStep};
use crate::text;

verus! {

/// Each step says what it was made of.
pub proof fn law_steps(steps: Seq<WalkStep>, n: int)
    requires
        0 <= n < steps.len(),
    ensures
        syntax::steps_of(steps).len() == steps.len(),
        match steps[n] {
            WalkStep::Enter(code) => syntax::steps_of(steps)[n] == syntax::Step::Enter(code),
            WalkStep::Token(code, token_text) => syntax::steps_of(steps)[n] == syntax::Step::Token(
                code,
                token_text@,
            ),
            WalkStep::LeaveToken => syntax::steps_of(steps)[n] == syntax::Step::LeaveToken,
            WalkStep::Leave => syntax::steps_of(steps)[n] == syntax::Step::Leave,
        },
{
}

/// `step` meets an element.
pub open spec fn meets_element(step: syntax::Step) -> bool {
    step is Enter || step is Token
}

/// `meets` are the steps that meet an element, from the first to the last.
pub open spec fn lists_meetings(steps: Seq<syntax::Step>, meets: Seq<int>) -> bool {
    &&& forall|k: int|
        0 <= k < meets.len() ==> 0 <= #[trigger] meets[k] < steps.len() && meets_element(
            steps[meets[k]],
        )
    &&& forall|j: int, k: int| 0 <= j < k < meets.len() ==> #[trigger] meets[j] < #[trigger] meets[k]
    &&& forall|n: int|
        0 <= n < steps.len() && meets_element(#[trigger] steps[n]) ==> meets.contains(n)
}

/// `node` is the element that `step` meets.
pub open spec fn is_met(node: syntax::Node, step: syntax::Step, kinds: Seq<SyntaxKind>) -> bool {
    &&& step matches syntax::Step::Enter(code) ==> node.code == code && !node.token
        && node.text.len() == 0
    &&& step matches syntax::Step::Token(code, token_text) ==> node.code == code && node.token
        && node.text == token_text
    &&& node.code < kinds.len() ==> node.kind == kinds[node.code as int]
    &&& node.code >= kinds.len() ==> node.kind == SyntaxKind::OTHER
}

/// The elements of a tree are those that the walk meets, in the order in which it meets
/// them: a node has no text of its own, a token has the text of its step, and each has
/// the kind that the table gives its number.
pub proof fn law_walk_elements(
    steps: Seq<syntax::Step>,
    kinds: Seq<SyntaxKind>,
    meets: Seq<int>,
)
    requires
        lists_meetings(steps, meets),
    ensures
        syntax::walked(steps, kinds).len() == meets.len(),
        forall|k: int|
            0 <= k < meets.len() ==> is_met(
                #[trigger] syntax::walked(steps, kinds)[k],
                steps[meets[k]],
                kinds,
            ),
{
    lemma_elements(steps, kinds, meets, steps.len() as int, meets.len() as int);
}

/// The elements that the first `n` steps meet, `m` of them.
proof fn lemma_elements(
    steps: Seq<syntax::Step>,
    kinds: Seq<SyntaxKind>,
    meets: Seq<int>,
    n: int,
    m: int,
)
    requires
        lists_meetings(steps, meets),
        0 <= n <= steps.len(),
        0 <= m <= meets.len(),
        forall|k: int| 0 <= k < m ==> #[trigger] meets[k] < n,
        forall|k: int| m <= k < meets.len() ==> #[trigger] meets[k] >= n,
    ensures
        syntax::elements_after(steps, kinds, n).len() == m,
        syntax::count_after(steps, n) == m,
        forall|k: int|
            0 <= k < m ==> is_met(
                #[trigger] syntax::elements_after(steps, kinds, n)[k],
                steps[meets[k]],
                kinds,
            ) && syntax::elements_after(steps, kinds, n)[k].parent == syntax::innermost(
                steps,
                meets[k],
            ),
    decreases n,
{
    if n == 0 {
        if m > 0 {
            assert(meets[0] < 0);
        }
    } else if meets_element(steps[n - 1]) {
        assert(meets.contains(n - 1));
        let q = choose|q: int| 0 <= q < meets.len() && meets[q] == n - 1;
        assert(q < m);
        if q < m - 1 {
            assert(meets[q] < meets[m - 1]);
        }
        assert forall|k: int| 0 <= k < m - 1 implies #[trigger] meets[k] < n - 1 by {
            assert(meets[k] < meets[m - 1]);
        }
        lemma_elements(steps, kinds, meets, n - 1, m - 1);
    } else {
        assert forall|k: int| 0 <= k < m implies #[trigger] meets[k] < n - 1 by {
            assert(meets_element(steps[meets[k]]));
        }
        lemma_elements(steps, kinds, meets, n - 1, m);
    }
}

/// How many more nodes the steps from `from` up to `to` enter than they leave.
pub open spec fn depth(steps: Seq<syntax::Step>, from: int, to: int) -> int
    decreases to - from,
{
    if to <= from {
        0
    } else {
        depth(steps, from, to - 1) + if steps[to - 1] is Enter {
            1int
        } else if steps[to - 1] is Leave {
            -1int
        } else {
            0int
        }
    }
}

/// The steps from `from` up to `to` leave every node that they enter, and no other.
pub open spec fn closed_between(steps: Seq<syntax::Step>, from: int, to: int) -> bool {
    &&& forall|n: int| from <= n <= to ==> #[trigger] depth(steps, from, n) >= 0
    &&& depth(steps, from, to) == 0
}

/// The parent of an element is the node that was entered before it and has not been
/// left again; the root has none.
pub proof fn law_walk_parents(
    steps: Seq<syntax::Step>,
    kinds: Seq<SyntaxKind>,
    meets: Seq<int>,
    k: int,
    j: int,
)
    requires
        lists_meetings(steps, meets),
        0 <= k < j < meets.len(),
        steps[meets[k]] is Enter,
        closed_between(steps, meets[k] + 1, meets[j]),
    ensures
        syntax::walked(steps, kinds)[j].parent == Some(k),
        meets[0] == 0 ==> syntax::walked(steps, kinds)[0].parent is None,
{
    let a = meets[k];
    assert(meets[k] < meets[j]);
    lemma_elements(steps, kinds, meets, steps.len() as int, meets.len() as int);
    assert forall|x: int| 0 <= x < k implies #[trigger] meets[x] < a by {
        assert(meets[x] < meets[k]);
    }
    assert forall|x: int| k <= x < meets.len() implies #[trigger] meets[x] >= a by {
        if k < x {
            assert(meets[k] < meets[x]);
        }
    }
    lemma_elements(steps, kinds, meets, a, k);
    lemma_open(steps, a + 1, meets[j]);
    assert(syntax::open_after(steps, a + 1) == syntax::open_after(steps, a).push(k));
    assert(syntax::open_after(steps, meets[j]) =~= syntax::open_after(steps, a + 1));
}

/// The nodes that are open at some step stay open until more are left than entered.
proof fn lemma_open(steps: Seq<syntax::Step>, from: int, n: int)
    requires
        0 <= from <= n <= steps.len(),
        forall|x: int| from <= x <= n ==> #[trigger] depth(steps, from, x) >= 0,
    ensures
        syntax::open_after(steps, n).len() == syntax::open_after(steps, from).len() + depth(
            steps,
            from,
            n,
        ),
        syntax::open_after(steps, n).take(syntax::open_after(steps, from).len() as int)
            == syntax::open_after(steps, from),
    decreases n - from,
{
    let base = syntax::open_after(steps, from);
    if n == from {
        assert(base.take(base.len() as int) =~= base);
    } else {
        lemma_open(steps, from, n - 1);
        let before = syntax::open_after(steps, n - 1);
        let after = syntax::open_after(steps, n);
        assert(depth(steps, from, n - 1) >= 0);
        assert(depth(steps, from, n) >= 0);
        assert(after.take(base.len() as int) =~= before.take(base.len() as int));
    }
}

/// The steps walk over one tree exactly when they enter its root first, leave it with
/// the last step, and never before.
pub proof fn law_one_tree(steps: Seq<syntax::Step>)
    ensures
        syntax::well_nested(steps) <==> steps.len() > 0 && steps[0] is Enter && depth(
            steps,
            0,
            steps.len() as int,
        ) == 0 && forall|n: int| 0 < n < steps.len() ==> #[trigger] depth(steps, 0, n) > 0,
{
    let total = steps.len() as int;
    if syntax::well_nested(steps) {
        assert forall|n: int| 0 < n < total implies #[trigger] depth(steps, 0, n) > 0 by {
            lemma_depth_open(steps, n);
            assert(syntax::open_after(steps, n).len() > 0);
        }
        lemma_depth_open(steps, total);
    }
    if steps.len() > 0 && steps[0] is Enter && depth(steps, 0, total) == 0 && forall|n: int|
        0 < n < total ==> #[trigger] depth(steps, 0, n) > 0 {
        assert(depth(steps, 0, 0) == 0);
        assert forall|n: int| 0 < n < total implies (#[trigger] syntax::open_after(steps, n)).len()
            > 0 by {
            lemma_open(steps, 0, n);
            assert(depth(steps, 0, n) > 0);
        }
        lemma_open(steps, 0, total);
    }
}

/// While a node is open at every step, as many are open as were entered and not left.
proof fn lemma_depth_open(steps: Seq<syntax::Step>, n: int)
    requires
        syntax::well_nested(steps),
        0 <= n <= steps.len(),
    ensures
        depth(steps, 0, n) == syntax::open_after(steps, n).len(),
    decreases n,
{
    if n > 0 {
        lemma_depth_open(steps, n - 1);
        if n > 1 {
            assert(syntax::open_after(steps, n - 1).len() > 0);
        }
    }
}

/// A tree fits when neither its elements nor the bytes of its text are more than 32
/// bits can count.
pub proof fn law_fits(t: Seq<syntax::Node>)
    ensures
        syntax::fits(t) <==> t.len() <= 0xffff_ffff && text::utf8_len(syntax::tree_text(t))
            <= 0xffff_ffff,
{
}

} // verus!
