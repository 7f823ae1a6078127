//! Laws of the syntax tree.

use vstd::prelude::*;

use crate::syntax;
use crate::text;

verus! {

/// The children of a node tile it: the first starts where the node starts, each
/// starts where the one before it ends, and the last ends where the node ends.
pub proof fn law_children_tile(t: Seq<syntax::Node>, p: int, i: int, j: int)
    requires
        syntax::well_formed(t),
        0 <= p < i < t.len(),
        syntax::parent_of(t, i) == p,
        i < j,
        forall|k: int| i < k < j && k < t.len() ==> #[trigger] syntax::parent_of(t, k) != p,
    ensures
        i == p + 1 ==> syntax::start_of(t, i) == syntax::start_of(t, p),
        j < t.len() && syntax::parent_of(t, j) == p ==> syntax::start_of(t, j) == syntax::end_of(
            t,
            i,
        ),
        j == t.len() ==> syntax::end_of(t, i) == syntax::end_of(t, p),
{
    reveal(syntax::in_document_order);
    if i == p + 1 {
        assert(!t[p].token);
        text::lemma_len_concat(syntax::text_upto(t, p), t[p].text);
    }
    if j < t.len() && syntax::parent_of(t, j) == p {
        assert forall|k: int| i < k < j implies #[trigger] syntax::below(t, i, k) by {
            assert(syntax::parent_of(t, k) >= p);
            if syntax::parent_of(t, k) < i {
                assert(syntax::parent_of(t, i) >= syntax::parent_of(t, k));
            }
        }
        syntax::lemma_end_of_run_is(t, i, i + 1, j);
    }
    if j == t.len() {
        syntax::lemma_end_of_run(t, i, i + 1);
        syntax::lemma_end_of_run(t, p, p + 1);
        let end = syntax::subtree_end(t, i);
        syntax::lemma_child_within_parent(t, i);
        assert forall|k: int| p < k < end implies #[trigger] syntax::below(t, p, k) by {
            if k < i {
                assert(syntax::parent_of(t, k) >= p);
            } else if k > i {
                assert(syntax::below(t, i, k));
            }
        }
        if end < t.len() {
            assert(!syntax::below(t, i, end));
            assert(syntax::parent_of(t, end) != p);
            if syntax::parent_of(t, end) > p {
                assert(syntax::parent_of(t, i) >= syntax::parent_of(t, end));
            }
            assert(!syntax::below(t, p, end));
        }
        syntax::lemma_end_of_run_is(t, p, p + 1, end);
    }
}

/// Element `i` is a token with some text, and byte `offset` lies within it or at one of
/// its ends.
pub open spec fn touching(t: Seq<syntax::Node>, i: int, offset: int) -> bool {
    t[i].token && t[i].text.len() > 0 && syntax::start_of(t, i) <= offset && offset
        <= syntax::end_of(t, i)
}

/// A byte offset has a token on its left and one on its right, unless the text is
/// empty; no third token touches it.
pub proof fn law_tokens_at(t: Seq<syntax::Node>, offset: int)
    requires
        syntax::well_formed(t),
        0 <= offset <= text::utf8_len(syntax::tree_text(t)),
    ensures
        syntax::tokens_at(t, offset) is None <==> syntax::tree_text(t).len() == 0,
        syntax::tokens_at(t, offset) matches Some((left, right)) ==> {
            &&& 0 <= left <= right < t.len()
            &&& touching(t, left, offset)
            &&& touching(t, right, offset)
            &&& left < right ==> syntax::end_of(t, left) == offset && syntax::start_of(t, right)
                == offset
            &&& forall|i: int|
                0 <= i < t.len() && #[trigger] touching(t, i, offset) ==> i == left || i == right
        },
{
    let n = t.len() as int;
    syntax::lemma_touching(t, offset, n);
    if syntax::tree_text(t).len() > 0 {
        assert(syntax::tokens_at(t, offset) is Some) by {
            lemma_token_reaches(t, offset, n);
        }
    } else {
        assert forall|i: int| !(#[trigger] syntax::touches(t, i, offset)) by {
            if syntax::touches(t, i, offset) {
                syntax::lemma_text_upto_grows(t, i + 1, n);
            }
        }
    }
    if let Some((left, right)) = syntax::tokens_at(t, offset) {
        lemma_touching_pair(t, offset, left, right);
        assert forall|i: int| #[trigger] syntax::touches(t, i, offset) implies i == left || i
            == right by {
            if i != left && i != right {
                lemma_touching_pair(t, offset, left, i);
                lemma_touching_pair(t, offset, i, right);
                syntax::lemma_token_span(t, i);
                text::lemma_utf16_within_utf8(t[i].text);
            }
        }
        assert forall|i: int| 0 <= i < t.len() && #[trigger] touching(t, i, offset) implies i
            == left || i == right by {
            assert(syntax::touches(t, i, offset));
        }
    }
}

/// No token touches an offset in front of the text or behind it.
pub proof fn law_no_token_outside(t: Seq<syntax::Node>, offset: int)
    requires
        syntax::well_formed(t),
        offset < 0 || offset > text::utf8_len(syntax::tree_text(t)),
    ensures
        syntax::tokens_at(t, offset) is None,
{
    let n = t.len() as int;
    syntax::lemma_touching(t, offset, n);
    assert forall|i: int| !(#[trigger] syntax::touches(t, i, offset)) by {
        if syntax::touches(t, i, offset) {
            syntax::lemma_end_of_run(t, i, i + 1);
            syntax::lemma_text_upto_grows(t, syntax::subtree_end(t, i), n);
        }
    }
}

/// Of two tokens that touch an offset the first ends there and the second starts there.
proof fn lemma_touching_pair(t: Seq<syntax::Node>, offset: int, i: int, j: int)
    requires
        syntax::well_formed(t),
        syntax::touches(t, i, offset),
        syntax::touches(t, j, offset),
    ensures
        i < j ==> syntax::end_of(t, i) == offset && syntax::start_of(t, j) == offset,
{
    if i < j {
        syntax::lemma_token_span(t, i);
        syntax::lemma_text_upto_grows(t, i + 1, j);
    }
}

/// Where the first `n` elements hold text that reaches an offset, one of them touches
/// it.
proof fn lemma_token_reaches(t: Seq<syntax::Node>, offset: int, n: int)
    requires
        syntax::well_formed(t),
        0 <= n <= t.len(),
        0 <= offset <= text::utf8_len(syntax::text_upto(t, n)),
        syntax::text_upto(t, n).len() > 0,
    ensures
        exists|i: int| #[trigger] syntax::touches(t, i, offset),
    decreases n,
{
    let before = syntax::text_upto(t, n - 1);
    text::lemma_len_concat(before, t[n - 1].text);
    if before.len() > 0 && offset <= text::utf8_len(before) {
        lemma_token_reaches(t, offset, n - 1);
    } else {
        reveal(syntax::in_document_order);
        assert(t[n - 1].text.len() > 0);
        assert(t[n - 1].token);
        syntax::lemma_token_span(t, n - 1);
        assert(syntax::touches(t, n - 1, offset));
    }
}

/// An element lies in the subtree of its parent.
pub proof fn lemma_parent_contains(t: Seq<syntax::Node>, i: int)
    requires
        syntax::well_formed(t),
        0 < i < t.len(),
    ensures
        i < syntax::subtree_end(t, syntax::parent_of(t, i)),
{
    reveal(syntax::in_document_order);
    let p = syntax::parent_of(t, i);
    syntax::lemma_end_of_run(t, p, p + 1);
    let end = syntax::subtree_end(t, p);
    if end <= i {
        assert(!syntax::below(t, p, end));
        if end < i {
            assert(syntax::parent_of(t, end) >= syntax::parent_of(t, i));
        }
    }
}

/// What lies in the subtree of an element of a subtree lies in that subtree.
pub proof fn lemma_subtree_nested(t: Seq<syntax::Node>, g: int, p: int, i: int)
    requires
        syntax::well_formed(t),
        0 <= g < p < syntax::subtree_end(t, g),
        p <= i < syntax::subtree_end(t, p),
        i < t.len(),
    ensures
        i < syntax::subtree_end(t, g),
{
    syntax::lemma_end_of_run(t, g, g + 1);
    syntax::lemma_end_of_run(t, p, p + 1);
    let end = syntax::subtree_end(t, g);
    if end <= i {
        assert(syntax::below(t, p, end));
    }
}

/// Positions in the text follow from the texts of the elements: the first element starts
/// at 0, the next one starts behind the text of the one before it, and an element ends
/// where the first one behind its subtree starts.
pub proof fn law_positions(t: Seq<syntax::Node>, i: int)
    requires
        0 <= i < t.len(),
    ensures
        syntax::text_upto(t, 0).len() == 0,
        syntax::text_upto(t, i + 1) == syntax::text_upto(t, i) + t[i].text,
        syntax::tree_text(t) == syntax::text_upto(t, t.len() as int),
        syntax::start_of(t, 0) == 0,
        syntax::start_of(t, i + 1) == syntax::start_of(t, i) + text::utf8_len(t[i].text),
        syntax::end_of(t, i) == syntax::start_of(t, syntax::subtree_end(t, i)),
        syntax::parent_of(t, i) == (match t[i].parent {
            Some(p) => p,
            None => -1,
        }),
{
    text::lemma_len_concat(syntax::text_upto(t, i), t[i].text);
}

/// `path` leads from element `j` up to the root, from parent to parent.
pub open spec fn leads_to_root(t: Seq<syntax::Node>, j: int, path: Seq<int>) -> bool {
    &&& path.len() > 0
    &&& path[0] == j
    &&& path.last() == 0
    &&& forall|k: int| 0 <= k < path.len() ==> 0 <= #[trigger] path[k] < t.len()
    &&& forall|k: int| 0 <= k < path.len() - 1 ==> t[#[trigger] path[k]].parent == Some(path[k + 1])
}

/// The subtree of an element holds exactly its descendants: those elements that have it
/// on their way up to the root.
pub proof fn law_subtree(t: Seq<syntax::Node>, i: int, j: int, path: Seq<int>)
    requires
        syntax::well_formed(t),
        0 <= i < t.len(),
        0 <= j < t.len(),
        leads_to_root(t, j, path),
    ensures
        (i < j < syntax::subtree_end(t, i)) <==> path.drop_first().contains(i),
    decreases path.len(),
{
    reveal(syntax::in_document_order);
    if path.len() == 1 {
        assert(j == 0);
    } else {
        let p = path[1];
        assert(t[path[0]].parent == Some(p));
        if j == 0 {
            assert(t[0].parent is None);
        }
        assert(syntax::parent_of(t, j) == p);
        assert(p < j);
        let rest = path.drop_first();
        assert forall|k: int| 0 <= k < rest.len() implies 0 <= #[trigger] rest[k] < t.len() by {
            assert(0 <= path[k + 1] < t.len());
        }
        assert forall|k: int| 0 <= k < rest.len() - 1 implies t[#[trigger] rest[k]].parent == Some(
            rest[k + 1],
        ) by {
            assert(t[path[k + 1]].parent == Some(path[k + 2]));
        }
        law_subtree(t, i, p, rest);
        syntax::lemma_end_of_run(t, i, i + 1);
        if i < j < syntax::subtree_end(t, i) {
            assert(syntax::below(t, i, j));
            if p == i {
                assert(rest[0] == i);
            } else {
                let k = choose|k: int|
                    0 <= k < rest.drop_first().len() && rest.drop_first()[k] == i;
                assert(rest[k + 1] == i);
            }
        }
        if rest.contains(i) {
            let k = choose|k: int| 0 <= k < rest.len() && rest[k] == i;
            lemma_parent_contains(t, j);
            if k > 0 {
                assert(rest.drop_first()[k - 1] == i);
                lemma_subtree_nested(t, i, p, j);
            }
        }
    }
}

} // verus!
