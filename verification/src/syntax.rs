//! The syntax tree: elements in document order, each with its kind, its parent
//! and, for a token, its text.

use rowan::GreenNode;
use vstd::prelude::*;
use vstd::string::*;

use crate::outside;
use crate::text;
use crate::text::byte_len;

verus! {

/// The kinds of element that the library tells apart.
#[allow(non_camel_case_types)]
#[derive(Debug, Clone, Copy, PartialEq, Eq, Structural)]
pub enum SyntaxKind {
    ROOT,
    COMMAND,
    BEGIN,
    END,
    ENVIRONMENT,
    GROUP,
    NAME_GROUP,
    CONTROL_WORD,
    CONTROL_SYMBOL,
    L_BRACE,
    R_BRACE,
    WHITESPACE,
    NEWLINE,
    COMMENT,
    DOC_MARGIN,
    GUARD,
    /// Any other kind.
    OTHER,
}

/// One step of a walk over a tree, parents before children, in document order.
#[derive(Debug, PartialEq, Eq)]
pub enum WalkStep {
    /// A node of the given kind number starts.
    Enter(u16),
    /// A token of the given kind number, with its text.
    Token(u16, String),
    /// The token just met is left again.
    LeaveToken,
    /// The innermost node that is still open ends.
    Leave,
}

/// What a `WalkStep` says.
pub enum Step {
    Enter(u16),
    Token(u16, Seq<char>),
    LeaveToken,
    Leave,
}

impl View for WalkStep {
    type V = Step;

    open spec fn view(&self) -> Step {
        match self {
            WalkStep::Enter(code) => Step::Enter(*code),
            WalkStep::Token(code, text) => Step::Token(*code, text@),
            WalkStep::LeaveToken => Step::LeaveToken,
            WalkStep::Leave => Step::Leave,
        }
    }
}

/// The kind that number `code` stands for: entry `code` of the table, or `OTHER`.
pub open spec fn kind_of(kinds: Seq<SyntaxKind>, code: u16) -> SyntaxKind {
    if code < kinds.len() {
        kinds[code as int]
    } else {
        SyntaxKind::OTHER
    }
}

/// One element of a tree.
pub struct Node {
    pub kind: SyntaxKind,
    /// The number that the kind was written as.
    pub code: u16,
    /// A token, as against an inner node.
    pub token: bool,
    /// The position of the parent; the root has none.
    pub parent: Option<int>,
    /// The text of a token; that of an inner node is empty.
    pub text: Seq<char>,
}

/// The position of the parent of element `i`, and -1 for the root.
pub open spec fn parent_of(t: Seq<Node>, i: int) -> int {
    match t[i].parent {
        Some(p) => p,
        None => -1,
    }
}

/// Element `j` lies in the subtree of a node at or behind position `i`.
pub open spec fn below(t: Seq<Node>, i: int, j: int) -> bool {
    parent_of(t, j) >= i
}

/// The first position from `j` on that lies outside the subtree of element `i`.
pub open spec fn end_of_run(t: Seq<Node>, i: int, j: int) -> int
    decreases t.len() - j,
{
    if j < t.len() && below(t, i, j) {
        end_of_run(t, i, j + 1)
    } else {
        j
    }
}

/// The position behind the last element of the subtree of element `i`.
pub open spec fn subtree_end(t: Seq<Node>, i: int) -> int {
    end_of_run(t, i, i + 1)
}

/// The text of the first `n` elements.
pub open spec fn text_upto(t: Seq<Node>, n: int) -> Seq<char>
    decreases n,
{
    if n <= 0 {
        Seq::empty()
    } else {
        text_upto(t, n - 1) + t[n - 1].text
    }
}

/// The text of the whole tree.
pub open spec fn tree_text(t: Seq<Node>) -> Seq<char> {
    text_upto(t, t.len() as int)
}

/// The byte offset at which element `i` starts.
pub open spec fn start_of(t: Seq<Node>, i: int) -> nat {
    text::utf8_len(text_upto(t, i))
}

/// The byte offset at which element `i` ends.
pub open spec fn end_of(t: Seq<Node>, i: int) -> nat {
    text::utf8_len(text_upto(t, subtree_end(t, i)))
}

/// Every element but the first has an inner node in front of it for parent, and
/// the elements between a node and one of its children lie in that node's subtree.
#[verifier::opaque]
pub open spec fn in_document_order(t: Seq<Node>) -> bool {
    &&& forall|i: int|
        0 < i < t.len() ==> 0 <= #[trigger] parent_of(t, i) < i && !t[parent_of(t, i)].token
    &&& forall|i: int, j: int|
        0 < i < j < t.len() && #[trigger] parent_of(t, j) < i ==> #[trigger] parent_of(t, i)
            >= parent_of(t, j)
    &&& forall|i: int| 0 <= i < t.len() && !(#[trigger] t[i]).token ==> t[i].text.len() == 0
}

/// `t` is a tree: one root, which is an inner node, and all other elements below
/// it in document order; its positions and offsets fit in 32 bits.
pub open spec fn well_formed(t: Seq<Node>) -> bool {
    &&& 0 < t.len() <= u32::MAX
    &&& !t[0].token
    &&& t[0].parent is None
    &&& in_document_order(t)
    &&& text::utf8_len(tree_text(t)) <= u32::MAX
}

/// The nodes that are open after the first `n` steps, outermost first, each by the
/// position of its element.
pub open spec fn open_after(steps: Seq<Step>, n: int) -> Seq<int>
    decreases n,
{
    if n <= 0 {
        Seq::empty()
    } else {
        let open = open_after(steps, n - 1);
        match steps[n - 1] {
            Step::Enter(_) => open.push(count_after(steps, n - 1)),
            Step::Leave => if open.len() > 0 {
                open.drop_last()
            } else {
                open
            },
            _ => open,
        }
    }
}

/// The number of elements that the first `n` steps meet.
pub open spec fn count_after(steps: Seq<Step>, n: int) -> int
    decreases n,
{
    if n <= 0 {
        0
    } else {
        count_after(steps, n - 1) + match steps[n - 1] {
            Step::Enter(_) => 1int,
            Step::Token(_, _) => 1int,
            _ => 0int,
        }
    }
}

/// The innermost node that is open after the first `n` steps.
pub open spec fn innermost(steps: Seq<Step>, n: int) -> Option<int> {
    let open = open_after(steps, n);
    if open.len() > 0 {
        Some(open.last())
    } else {
        None
    }
}

/// The elements that the first `n` steps meet.
pub open spec fn elements_after(steps: Seq<Step>, kinds: Seq<SyntaxKind>, n: int) -> Seq<Node>
    decreases n,
{
    if n <= 0 {
        Seq::empty()
    } else {
        let earlier = elements_after(steps, kinds, n - 1);
        match steps[n - 1] {
            Step::Enter(code) => earlier.push(
                Node {
                    kind: kind_of(kinds, code),
                    code,
                    token: false,
                    parent: innermost(steps, n - 1),
                    text: Seq::empty(),
                },
            ),
            Step::Token(code, text) => earlier.push(
                Node {
                    kind: kind_of(kinds, code),
                    code,
                    token: true,
                    parent: innermost(steps, n - 1),
                    text,
                },
            ),
            _ => earlier,
        }
    }
}

/// The elements that a whole walk meets.
pub open spec fn walked(steps: Seq<Step>, kinds: Seq<SyntaxKind>) -> Seq<Node> {
    elements_after(steps, kinds, steps.len() as int)
}

/// The steps walk over one tree: they enter its root first and leave it last.
pub open spec fn well_nested(steps: Seq<Step>) -> bool {
    &&& steps.len() > 0
    &&& steps[0] is Enter
    &&& forall|n: int| 0 < n < steps.len() ==> (#[trigger] open_after(steps, n)).len() > 0
    &&& open_after(steps, steps.len() as int).len() == 0
}

/// Positions and offsets of the elements fit in 32 bits.
pub open spec fn fits(t: Seq<Node>) -> bool {
    t.len() <= u32::MAX && text::utf8_len(tree_text(t)) <= u32::MAX
}

/// An element as it is stored.
#[derive(Debug)]
struct Element {
    kind: SyntaxKind,
    code: u16,
    token: bool,
    parent: Option<usize>,
    text: String,
    start: usize,
    end: usize,
}

impl View for Element {
    type V = Node;

    closed spec fn view(&self) -> Node {
        Node {
            kind: self.kind,
            code: self.code,
            token: self.token,
            parent: match self.parent {
                Some(p) => Some(p as int),
                None => None,
            },
            text: self.text@,
        }
    }
}

/// The elements that `elements` store.
closed spec fn stored(elements: Seq<Element>) -> Seq<Node> {
    elements.map_values(|e: Element| e@)
}

/// Text in front of position `n` depends on the first `n` elements alone.
pub proof fn lemma_text_upto_prefix(t: Seq<Node>, u: Seq<Node>, n: int)
    requires
        n <= t.len(),
        n <= u.len(),
        forall|i: int| 0 <= i < n ==> #[trigger] t[i] == u[i],
    ensures
        text_upto(t, n) == text_upto(u, n),
    decreases n,
{
    if n > 0 {
        lemma_text_upto_prefix(t, u, n - 1);
        assert(t[n - 1] == u[n - 1]);
    }
}

/// Text grows with the number of elements.
pub proof fn lemma_text_upto_grows(t: Seq<Node>, m: int, n: int)
    requires
        0 <= m <= n <= t.len(),
    ensures
        text_upto(t, m).is_prefix_of(text_upto(t, n)),
        text::utf8_len(text_upto(t, m)) <= text::utf8_len(text_upto(t, n)),
    decreases n - m,
{
    if m < n {
        lemma_text_upto_grows(t, m, n - 1);
        text::lemma_len_concat(text_upto(t, n - 1), t[n - 1].text);
    }
}

/// What `end_of_run` finds, in terms of the elements that it passes.
pub proof fn lemma_end_of_run(t: Seq<Node>, i: int, j: int)
    requires
        0 <= j <= t.len(),
    ensures
        j <= end_of_run(t, i, j) <= t.len(),
        forall|k: int| j <= k < end_of_run(t, i, j) ==> #[trigger] below(t, i, k),
        end_of_run(t, i, j) < t.len() ==> !below(t, i, end_of_run(t, i, j)),
    decreases t.len() - j,
{
    if j < t.len() && below(t, i, j) {
        lemma_end_of_run(t, i, j + 1);
    }
}

/// The converse of `lemma_end_of_run`.
pub proof fn lemma_end_of_run_is(t: Seq<Node>, i: int, j: int, end: int)
    requires
        0 <= j <= end <= t.len(),
        forall|k: int| j <= k < end ==> #[trigger] below(t, i, k),
        end < t.len() ==> !below(t, i, end),
    ensures
        end_of_run(t, i, j) == end,
    decreases end - j,
{
    if j < end {
        assert(below(t, i, j));
        lemma_end_of_run_is(t, i, j + 1, end);
    }
}

/// What one more element does to a subtree.
proof fn lemma_subtree_end_push(t: Seq<Node>, x: Node, i: int)
    requires
        0 <= i < t.len(),
    ensures
        subtree_end(t.push(x), i) == (if subtree_end(t, i) == t.len() && (x.parent matches Some(p)
            && p >= i) {
            t.len() as int + 1
        } else {
            subtree_end(t, i)
        }),
{
    let u = t.push(x);
    let end = subtree_end(t, i);
    lemma_end_of_run(t, i, i + 1);
    assert forall|k: int| i + 1 <= k < end implies #[trigger] below(u, i, k) by {
        assert(below(t, i, k));
        assert(u[k] == t[k]);
    }
    if end == t.len() {
        assert(u[end] == x);
        if x.parent matches Some(p) && p >= i {
            assert(below(u, i, end));
            lemma_end_of_run_is(u, i, i + 1, end + 1);
        } else {
            lemma_end_of_run_is(u, i, i + 1, end);
        }
    } else {
        assert(u[end] == t[end]);
        lemma_end_of_run_is(u, i, i + 1, end);
    }
}

/// The position `i` is that of an open node.
spec fn is_open(open: Seq<int>, i: int) -> bool {
    open.contains(i)
}

/// While a walk is under way: `open` holds the nodes that have not ended, from the
/// outside in.
#[verifier::opaque]
spec fn open_nodes(t: Seq<Node>, open: Seq<int>) -> bool {
    &&& forall|a: int| 0 <= a < open.len() ==> 0 <= #[trigger] open[a] < t.len()
    &&& forall|a: int, b: int| 0 <= a < b < open.len() ==> #[trigger] open[a] < #[trigger] open[b]
    // They are inner nodes, and everything behind one of them lies below it.
    &&& forall|i: int| #[trigger] is_open(open, i) ==> !t[i].token && subtree_end(t, i) == t.len()
    // None of them lies in the subtree of an element that has ended.
    &&& forall|i: int, o: int|
        #![trigger is_open(open, i), is_open(open, o)]
        0 <= i < t.len() && !is_open(open, i) && is_open(open, o) ==> o < i || o >= subtree_end(
            t,
            i,
        )
}

/// One more element below the innermost open node is in document order.
proof fn lemma_push_ordered(t: Seq<Node>, x: Node, top: int)
    requires
        in_document_order(t),
        0 <= top < t.len(),
        !t[top].token,
        subtree_end(t, top) == t.len(),
        x.parent == Some(top),
        !x.token ==> x.text.len() == 0,
    ensures
        in_document_order(t.push(x)),
{
    reveal(in_document_order);
    let u = t.push(x);
    let here = t.len() as int;
    assert forall|i: int| 0 <= i < here implies parent_of(u, i) == #[trigger] parent_of(t, i) by {
        assert(u[i] == t[i]);
    }
    assert(parent_of(u, here) == top);
    lemma_end_of_run(t, top, top + 1);
    assert forall|i: int| 0 < i < u.len() implies 0 <= #[trigger] parent_of(u, i) < i && !u[parent_of(
        u,
        i,
    )].token by {
        if i < here {
            assert(0 <= parent_of(t, i) < i);
        }
    }
    assert forall|i: int, j: int|
        0 < i < j < u.len() && #[trigger] parent_of(u, j) < i implies #[trigger] parent_of(u, i)
        >= parent_of(u, j) by {
        assert(parent_of(u, i) == parent_of(t, i));
        if j == here {
            assert(below(t, top, i));
        } else {
            assert(parent_of(u, j) == parent_of(t, j));
        }
    }
}

/// One more element below the innermost open node moves no end of an element that
/// has ended, and all open nodes stay open.
proof fn lemma_push_ends(t: Seq<Node>, open: Seq<int>, x: Node)
    requires
        open_nodes(t, open),
        open.len() > 0,
        x.parent == Some(open.last()),
    ensures
        forall|i: int|
            0 <= i < t.len() && !is_open(open, i) ==> #[trigger] subtree_end(t.push(x), i)
                == subtree_end(t, i),
        forall|i: int| #[trigger] is_open(open, i) ==> subtree_end(t.push(x), i) == t.len() + 1,
        subtree_end(t.push(x), t.len() as int) == t.len() + 1,
{
    reveal(open_nodes);
    let u = t.push(x);
    let top = open.last();
    let here = t.len() as int;
    assert(open[open.len() - 1] == top);
    assert(is_open(open, top));
    assert forall|i: int| 0 <= i < t.len() && !is_open(open, i) implies #[trigger] subtree_end(u, i)
        == subtree_end(t, i) by {
        lemma_subtree_end_push(t, x, i);
        lemma_end_of_run(t, i, i + 1);
        assert(top < i || top >= subtree_end(t, i));
    }
    assert forall|i: int| #[trigger] is_open(open, i) implies subtree_end(u, i) == t.len() + 1 by {
        let a = choose|a: int| 0 <= a < open.len() && open[a] == i;
        lemma_subtree_end_push(t, x, i);
        if a < open.len() - 1 {
            assert(open[a] < open[open.len() - 1]);
        }
    }
    lemma_end_of_run_is(u, here, here + 1, here + 1);
}

/// A token below the innermost open node has ended at once.
proof fn lemma_push_token(t: Seq<Node>, open: Seq<int>, x: Node)
    requires
        open_nodes(t, open),
        open.len() > 0,
        x.parent == Some(open.last()),
    ensures
        open_nodes(t.push(x), open),
{
    reveal(open_nodes);
    let u = t.push(x);
    lemma_push_ends(t, open, x);
    assert forall|i: int| #[trigger] is_open(open, i) implies !u[i].token && subtree_end(u, i)
        == u.len() by {
        let a = choose|a: int| 0 <= a < open.len() && open[a] == i;
        assert(0 <= open[a] < t.len());
        assert(u[i] == t[i]);
    }
    assert forall|i: int, o: int|
        #![trigger is_open(open, i), is_open(open, o)]
        0 <= i < u.len() && !is_open(open, i) && is_open(open, o) implies o < i || o >= subtree_end(
        u,
        i,
    ) by {
        let a = choose|a: int| 0 <= a < open.len() && open[a] == o;
        assert(0 <= open[a] < t.len());
        if i < t.len() {
            assert(subtree_end(u, i) == subtree_end(t, i));
        }
    }
}

/// A node below the innermost open one is open itself.
proof fn lemma_push_node(t: Seq<Node>, open: Seq<int>, x: Node)
    requires
        open_nodes(t, open),
        open.len() > 0,
        x.parent == Some(open.last()),
        !x.token,
    ensures
        open_nodes(t.push(x), open.push(t.len() as int)),
        forall|i: int|
            #[trigger] is_open(open.push(t.len() as int), i) <==> is_open(open, i) || i == t.len(),
{
    reveal(open_nodes);
    let u = t.push(x);
    let here = t.len() as int;
    let more = open.push(here);
    lemma_push_ends(t, open, x);
    assert forall|i: int| #[trigger] is_open(more, i) <==> is_open(open, i) || i == here by {
        if is_open(open, i) {
            let a = choose|a: int| 0 <= a < open.len() && open[a] == i;
            assert(more[a] == i);
        }
        if i == here {
            assert(more[open.len() as int] == here);
        }
        if is_open(more, i) {
            let a = choose|a: int| 0 <= a < more.len() && more[a] == i;
            if a < open.len() {
                assert(open[a] == i);
            }
        }
    }
    assert forall|a: int| 0 <= a < more.len() implies 0 <= #[trigger] more[a] < u.len() by {
        if a < open.len() {
            assert(0 <= open[a] < t.len());
        }
    }
    assert forall|a: int, b: int| 0 <= a < b < more.len() implies #[trigger] more[a]
        < #[trigger] more[b] by {
        assert(0 <= open[a] < t.len());
        if b < open.len() {
            assert(open[a] < open[b]);
        }
    }
    assert forall|i: int| #[trigger] is_open(more, i) implies !u[i].token && subtree_end(u, i)
        == u.len() by {
        if i != here {
            assert(is_open(open, i));
            let a = choose|a: int| 0 <= a < open.len() && open[a] == i;
            assert(0 <= open[a] < t.len());
            assert(u[i] == t[i]);
        }
    }
    assert forall|i: int, o: int|
        #![trigger is_open(more, i), is_open(more, o)]
        0 <= i < u.len() && !is_open(more, i) && is_open(more, o) implies o < i || o >= subtree_end(
        u,
        i,
    ) by {
        assert(i < here);
        assert(!is_open(open, i));
        assert(subtree_end(u, i) == subtree_end(t, i));
        lemma_end_of_run(t, i, i + 1);
        if o != here {
            assert(is_open(open, o));
        }
    }
}

/// The innermost open node ends behind the last element so far.
proof fn lemma_close(t: Seq<Node>, open: Seq<int>)
    requires
        open_nodes(t, open),
        open.len() > 0,
    ensures
        open_nodes(t, open.drop_last()),
        subtree_end(t, open.last()) == t.len(),
        forall|i: int|
            #[trigger] is_open(open.drop_last(), i) <==> is_open(open, i) && i != open.last(),
{
    reveal(open_nodes);
    let rest = open.drop_last();
    let top = open.last();
    assert(open[open.len() - 1] == top);
    assert(is_open(open, top));
    assert forall|i: int| #[trigger] is_open(rest, i) <==> is_open(open, i) && i != top by {
        if is_open(open, i) && i != top {
            let b = choose|b: int| 0 <= b < open.len() && open[b] == i;
            assert(rest[b] == i);
        }
        if is_open(rest, i) {
            let b = choose|b: int| 0 <= b < rest.len() && rest[b] == i;
            assert(open[b] == i);
            assert(open[b] < open[open.len() - 1]);
        }
    }
    assert forall|a: int, b: int| 0 <= a < b < rest.len() implies #[trigger] rest[a]
        < #[trigger] rest[b] by {
        assert(open[a] < open[b]);
    }
    assert forall|a: int| 0 <= a < rest.len() implies 0 <= #[trigger] rest[a] < t.len() by {
        assert(0 <= open[a] < t.len());
    }
    assert forall|i: int, o: int|
        #![trigger is_open(rest, i), is_open(rest, o)]
        0 <= i < t.len() && !is_open(rest, i) && is_open(rest, o) implies o < i || o >= subtree_end(
        t,
        i,
    ) by {
        assert(is_open(open, o) && o != top);
        let b = choose|b: int| 0 <= b < open.len() && open[b] == o;
        assert(open[b] < open[open.len() - 1]);
        if i != top {
            assert(!is_open(open, i));
        }
    }
}

/// The elements of a shorter walk come first in a longer one.
proof fn lemma_elements_prefix(steps: Seq<Step>, kinds: Seq<SyntaxKind>, m: int, n: int)
    requires
        0 <= m <= n <= steps.len(),
    ensures
        elements_after(steps, kinds, m).is_prefix_of(elements_after(steps, kinds, n)),
    decreases n - m,
{
    if m < n {
        lemma_elements_prefix(steps, kinds, m, n - 1);
    }
}

/// What does not fit after some steps never fits again.
proof fn lemma_overflow(steps: Seq<Step>, kinds: Seq<SyntaxKind>, n: int)
    requires
        0 <= n <= steps.len(),
        !fits(elements_after(steps, kinds, n)),
    ensures
        !fits(walked(steps, kinds)),
{
    let t = elements_after(steps, kinds, n);
    let u = walked(steps, kinds);
    lemma_elements_prefix(steps, kinds, n, steps.len() as int);
    assert forall|i: int| 0 <= i < t.len() implies #[trigger] t[i] == u[i] by {
        assert(u.subrange(0, t.len() as int)[i] == u[i]);
    }
    lemma_text_upto_prefix(t, u, t.len() as int);
    lemma_text_upto_grows(u, t.len() as int, u.len() as int);
}

/// One more element changes no text in front of it.
proof fn lemma_push_text(t: Seq<Node>, x: Node)
    ensures
        forall|i: int| i <= t.len() ==> #[trigger] text_upto(t.push(x), i) == text_upto(t, i),
        text_upto(t.push(x), t.len() as int + 1) == tree_text(t) + x.text,
        text::utf8_len(text_upto(t.push(x), t.len() as int + 1)) == text::utf8_len(tree_text(t))
            + text::utf8_len(x.text),
{
    let u = t.push(x);
    assert forall|i: int| i <= t.len() implies #[trigger] text_upto(u, i) == text_upto(t, i) by {
        lemma_text_upto_prefix(u, t, i);
    }
    assert(u[t.len() as int] == x);
    assert(text_upto(u, t.len() as int) == tree_text(t));
    text::lemma_len_concat(tree_text(t), x.text);
}

/// A syntax tree.
#[derive(Debug)]
pub struct SyntaxTree {
    elements: Vec<Element>,
}

impl View for SyntaxTree {
    type V = Seq<Node>;

    closed spec fn view(&self) -> Seq<Node> {
        stored(self.elements@)
    }
}

/// The stored offset of each element that has ended is where it ends.
#[verifier::opaque]
closed spec fn ends_stored(elements: Seq<Element>, open: Seq<int>) -> bool {
    forall|i: int|
        0 <= i < elements.len() && !is_open(open, i) ==> (#[trigger] elements[i]).end == end_of(
            stored(elements),
            i,
        )
}

/// The stored offset of each element is where it starts.
#[verifier::opaque]
closed spec fn starts_stored(elements: Seq<Element>) -> bool {
    forall|i: int|
        0 <= i < elements.len() ==> (#[trigger] elements[i]).start == start_of(stored(elements), i)
}

/// The positions as integers.
spec fn ints(open: Seq<usize>) -> Seq<int> {
    open.map_values(|i: usize| i as int)
}

/// The steps as they are meant.
pub open spec fn steps_of(steps: Seq<WalkStep>) -> Seq<Step> {
    steps.map_values(|step: WalkStep| step@)
}

/// The kind that number `code` stands for.
fn look_up_kind(kinds: &[SyntaxKind], code: u16) -> (r: SyntaxKind)
    ensures
        r == kind_of(kinds@, code),
{
    if (code as usize) < kinds.len() {
        kinds[code as usize]
    } else {
        SyntaxKind::OTHER
    }
}

impl SyntaxTree {
    #[verifier::type_invariant]
    spec fn sound(self) -> bool {
        &&& well_formed(stored(self.elements@))
        &&& starts_stored(self.elements@)
        &&& ends_stored(self.elements@, Seq::empty())
    }
}

/// A tree that is being built.
struct Builder {
    elements: Vec<Element>,
    opened: Vec<usize>,
    position: usize,
}

impl Builder {
    /// The elements so far.
    spec fn nodes(&self) -> Seq<Node> {
        stored(self.elements@)
    }

    /// The nodes that have not ended.
    spec fn open(&self) -> Seq<int> {
        ints(self.opened@)
    }

    /// What holds of a tree that is being built.
    spec fn consistent(&self) -> bool {
        &&& in_document_order(self.nodes())
        &&& open_nodes(self.nodes(), self.open())
        &&& self.elements.len() > 0 ==> !self.nodes()[0].token && self.nodes()[0].parent is None
        &&& self.position == text::utf8_len(tree_text(self.nodes()))
        &&& fits(self.nodes())
        &&& starts_stored(self.elements@)
        &&& ends_stored(self.elements@, self.open())
    }

    /// Nothing built yet.
    fn new() -> (r: Builder)
        ensures
            r.consistent(),
            r.nodes() == Seq::<Node>::empty(),
            r.open() == Seq::<int>::empty(),
    {
        let r: Builder = Builder { elements: Vec::new(), opened: Vec::new(), position: 0 };
        assert(r.nodes() =~= Seq::<Node>::empty());
        assert(r.open() =~= Seq::<int>::empty());
        proof {
            reveal(in_document_order);
            reveal(open_nodes);
            reveal(starts_stored);
            reveal(ends_stored);
        }
        r
    }

    /// The innermost open node.
    fn innermost(&self) -> (r: Option<usize>)
        ensures
            match r {
                Some(p) => self.open().len() > 0 && self.open().last() == p,
                None => self.open().len() == 0,
            },
    {
        if self.opened.len() > 0 {
            let top: usize = self.opened[self.opened.len() - 1];
            assert(self.open().last() == top);
            Some(top)
        } else {
            None
        }
    }

    /// Starts a node; false when there is no room for it.
    fn enter(&mut self, kind: SyntaxKind, code: u16) -> (room: bool)
        requires
            old(self).consistent(),
            old(self).nodes().len() > 0 ==> old(self).open().len() > 0,
        ensures
            ({
                let parent = if old(self).open().len() > 0 {
                    Some(old(self).open().last())
                } else {
                    None
                };
                let x = Node { kind, code, token: false, parent, text: Seq::empty() };
                if room {
                    &&& final(self).consistent()
                    &&& final(self).nodes() == old(self).nodes().push(x)
                    &&& final(self).open() == old(self).open().push(old(self).nodes().len() as int)
                } else {
                    !fits(old(self).nodes().push(x))
                }
            }),
    {
        let ghost before = *self;
        let ghost nodes = self.nodes();
        let ghost open = self.open();
        let here: usize = self.elements.len();
        let element: Element = Element {
            kind,
            code,
            token: false,
            parent: self.innermost(),
            text: String::new(),
            start: self.position,
            end: self.position,
        };
        let ghost x = element@;
        proof {
            assert(x.text =~= Seq::<char>::empty());
            lemma_push_text(nodes, x);
        }
        if here >= u32::MAX as usize {
            return false;
        }
        self.elements.push(element);
        self.opened.push(here);
        proof {
            assert(self.nodes() =~= nodes.push(x));
            assert(self.open() =~= open.push(here as int));
            if here > 0 {
                lemma_innermost(nodes, open);
                lemma_push_ordered(nodes, x, open.last());
                lemma_push_node(nodes, open, x);
                assert(nodes.push(x)[0] == nodes[0]);
            } else {
                lemma_nothing_open(nodes, open);
                lemma_first_node(nodes, x);
            }
            lemma_starts_push(before.elements@, element);
            lemma_ends_push_node(before.elements@, open, element);
        }
        true
    }

    /// Adds a token; false when there is no room for it.
    fn token(&mut self, kind: SyntaxKind, code: u16, token_text: &String) -> (room: bool)
        requires
            old(self).consistent(),
            old(self).open().len() > 0,
        ensures
            ({
                let parent = Some(old(self).open().last());
                let x = Node { kind, code, token: true, parent, text: token_text@ };
                if room {
                    &&& final(self).consistent()
                    &&& final(self).nodes() == old(self).nodes().push(x)
                    &&& final(self).open() == old(self).open()
                } else {
                    !fits(old(self).nodes().push(x))
                }
            }),
    {
        let ghost before = *self;
        let ghost nodes = self.nodes();
        let ghost open = self.open();
        let size: usize = byte_len(token_text.as_str());
        let ghost x = Node {
            kind,
            code,
            token: true,
            parent: Some(open.last()),
            text: token_text@,
        };
        proof {
            lemma_push_text(nodes, x);
        }
        if size > u32::MAX as usize - self.position || self.elements.len() >= u32::MAX as usize {
            return false;
        }
        let element: Element = Element {
            kind,
            code,
            token: true,
            parent: self.innermost(),
            text: token_text.clone(),
            start: self.position,
            end: self.position + size,
        };
        assert(element@ == x);
        self.position = self.position + size;
        self.elements.push(element);
        proof {
            assert(self.nodes() =~= nodes.push(x));
            lemma_innermost(nodes, open);
            lemma_push_ordered(nodes, x, open.last());
            lemma_push_token(nodes, open, x);
            assert(nodes.push(x)[0] == nodes[0]);
            lemma_starts_push(before.elements@, element);
            lemma_ends_push_token(before.elements@, open, element);
        }
        true
    }

    /// Ends the innermost open node.
    fn leave(&mut self)
        requires
            old(self).consistent(),
            old(self).open().len() > 0,
        ensures
            final(self).consistent(),
            final(self).nodes() == old(self).nodes(),
            final(self).open() == old(self).open().drop_last(),
    {
        let ghost before = *self;
        let ghost nodes = self.nodes();
        let ghost open = self.open();
        let top: usize = self.opened[self.opened.len() - 1];
        let _ = self.opened.pop();
        proof {
            assert(self.open() =~= open.drop_last());
            assert(open[open.len() - 1] == top);
            lemma_close(nodes, open);
        }
        self.elements[top].end = self.position;
        proof {
            assert(self.nodes() =~= nodes);
            lemma_ends_close(before.elements@, self.elements@, open);
        }
    }
}

/// The innermost open node, as the lemmas on a further element need it.
proof fn lemma_innermost(t: Seq<Node>, open: Seq<int>)
    requires
        open_nodes(t, open),
        open.len() > 0,
    ensures
        0 <= open.last() < t.len(),
        !t[open.last()].token,
        subtree_end(t, open.last()) == t.len(),
{
    reveal(open_nodes);
    assert(open[open.len() - 1] == open.last());
    assert(is_open(open, open.last()));
}

/// Where there is no element, none is open.
proof fn lemma_nothing_open(t: Seq<Node>, open: Seq<int>)
    requires
        open_nodes(t, open),
        t.len() == 0,
    ensures
        open == Seq::<int>::empty(),
{
    reveal(open_nodes);
    if open.len() > 0 {
        assert(0 <= open[0]);
        assert(open[0] < t.len());
    }
    assert(open =~= Seq::<int>::empty());
}

/// A further node changes no end that is stored.
proof fn lemma_ends_push_node(elements: Seq<Element>, open: Seq<int>, x: Element)
    requires
        ends_stored(elements, open),
        open_nodes(stored(elements), open),
        elements.len() > 0 ==> open.len() > 0 && x@.parent == Some(open.last()),
    ensures
        ends_stored(elements.push(x), open.push(elements.len() as int)),
{
    reveal(ends_stored);
    let more = elements.push(x);
    let here = elements.len() as int;
    let opened = open.push(here);
    let nodes = stored(elements);
    assert(stored(more) =~= nodes.push(x@));
    lemma_push_text(nodes, x@);
    if here > 0 {
        lemma_push_ends(nodes, open, x@);
    }
    assert forall|i: int| 0 <= i < more.len() && !is_open(opened, i) implies (#[trigger] more[i]).end
        == end_of(stored(more), i) by {
        if i == here {
            assert(opened[open.len() as int] == here);
            assert(is_open(opened, i));
        }
        if is_open(open, i) {
            let a = choose|a: int| 0 <= a < open.len() && open[a] == i;
            assert(opened[a] == i);
        }
        assert(more[i] == elements[i]);
        lemma_end_of_run(nodes, i, i + 1);
    }
}

/// A further token changes no end that is stored.
proof fn lemma_ends_push_token(elements: Seq<Element>, open: Seq<int>, x: Element)
    requires
        ends_stored(elements, open),
        open_nodes(stored(elements), open),
        open.len() > 0,
        x@.parent == Some(open.last()),
        x.end == text::utf8_len(tree_text(stored(elements))) + text::utf8_len(x@.text),
    ensures
        ends_stored(elements.push(x), open),
{
    reveal(ends_stored);
    let more = elements.push(x);
    let here = elements.len() as int;
    let nodes = stored(elements);
    assert(stored(more) =~= nodes.push(x@));
    lemma_push_text(nodes, x@);
    lemma_push_ends(nodes, open, x@);
    assert forall|i: int| 0 <= i < more.len() && !is_open(open, i) implies (#[trigger] more[i]).end
        == end_of(stored(more), i) by {
        if i < here {
            assert(more[i] == elements[i]);
            lemma_end_of_run(nodes, i, i + 1);
        }
    }
}

/// The end of the innermost open node is stored, and no other end and no start
/// changed.
proof fn lemma_ends_close(earlier: Seq<Element>, elements: Seq<Element>, open: Seq<int>)
    requires
        ends_stored(earlier, open),
        starts_stored(earlier),
        open_nodes(stored(earlier), open),
        open.len() > 0,
        stored(elements) == stored(earlier),
        elements.len() == earlier.len(),
        forall|i: int|
            0 <= i < earlier.len() && i != open.last() ==> #[trigger] elements[i] == earlier[i],
        elements[open.last()].end == text::utf8_len(tree_text(stored(earlier))),
        elements[open.last()].start == earlier[open.last()].start,
    ensures
        ends_stored(elements, open.drop_last()),
        starts_stored(elements),
{
    reveal(ends_stored);
    reveal(starts_stored);
    let rest = open.drop_last();
    lemma_close(stored(earlier), open);
    assert forall|i: int| 0 <= i < elements.len() && !is_open(rest, i) implies (
    #[trigger] elements[i]).end == end_of(stored(elements), i) by {
        if i != open.last() {
            assert(!is_open(open, i));
            assert(elements[i] == earlier[i]);
        }
    }
    assert forall|i: int| 0 <= i < elements.len() implies (#[trigger] elements[i]).start == start_of(
        stored(elements),
        i,
    ) by {
        assert(earlier[i].start == start_of(stored(earlier), i));
    }
}

/// A tree of one node.
proof fn lemma_first_node(t: Seq<Node>, x: Node)
    requires
        t.len() == 0,
        !x.token,
        x.parent is None,
        x.text.len() == 0,
    ensures
        in_document_order(t.push(x)),
        open_nodes(t.push(x), Seq::<int>::empty().push(0)),
        subtree_end(t.push(x), 0) == 1,
{
    reveal(in_document_order);
    reveal(open_nodes);
    let u = t.push(x);
    let open = Seq::<int>::empty().push(0);
    assert(u[0] == x);
    assert forall|i: int| #[trigger] is_open(open, i) implies i == 0 by {
        let a = choose|a: int| 0 <= a < open.len() && open[a] == i;
    }
    assert(open[0] == 0);
    assert(is_open(open, 0));
}

/// One more element changes no start in front of it.
proof fn lemma_starts_push(elements: Seq<Element>, x: Element)
    requires
        starts_stored(elements),
        x.start == text::utf8_len(tree_text(stored(elements))),
    ensures
        starts_stored(elements.push(x)),
{
    reveal(starts_stored);
    let more = elements.push(x);
    assert(stored(more) =~= stored(elements).push(x@));
    lemma_push_text(stored(elements), x@);
    assert forall|i: int| 0 <= i < more.len() implies (#[trigger] more[i]).start == start_of(
        stored(more),
        i,
    ) by {
        if i < elements.len() {
            assert(elements[i].start == start_of(stored(elements), i));
        }
    }
}

impl SyntaxTree {
    /// The tree that `steps` walk over, each kind number read by the table `kinds`;
    /// none when the steps walk over no tree, or over one too large for 32 bits.
    pub fn from_steps(steps: &Vec<WalkStep>, kinds: &[SyntaxKind]) -> (r: Option<SyntaxTree>)
        ensures
            r is Some <==> well_nested(steps_of(steps@)) && fits(
                walked(steps_of(steps@), kinds@),
            ),
            r matches Some(tree) ==> tree@ == walked(steps_of(steps@), kinds@) && well_formed(
                tree@,
            ),
    {
        let ghost all = steps_of(steps@);
        let mut builder: Builder = Builder::new();
        for n in 0..steps.len()
            invariant
                all == steps_of(steps@),
                builder.consistent(),
                builder.nodes() == elements_after(all, kinds@, n as int),
                builder.open() == open_after(all, n as int),
                builder.nodes().len() == count_after(all, n as int),
                n > 0 ==> all[0] is Enter && builder.nodes().len() > 0,
                n == 0 ==> builder.nodes().len() == 0,
                forall|m: int| 0 < m < n ==> (#[trigger] open_after(all, m)).len() > 0,
        {
            assert(all[n as int] == steps@[n as int]@);
            assert(open_after(all, n as int).len() == builder.opened.len());
            if n > 0 && builder.opened.len() == 0 {
                return None;
            }
            match &steps[n] {
                WalkStep::Enter(code) => {
                    if !builder.enter(look_up_kind(kinds, *code), *code) {
                        proof {
                            lemma_overflow(all, kinds@, n + 1);
                        }
                        return None;
                    }
                },
                WalkStep::Token(code, token_text) => {
                    if n == 0 {
                        return None;
                    }
                    if !builder.token(look_up_kind(kinds, *code), *code, token_text) {
                        proof {
                            lemma_overflow(all, kinds@, n + 1);
                        }
                        return None;
                    }
                },
                WalkStep::LeaveToken => {
                    if n == 0 {
                        return None;
                    }
                },
                WalkStep::Leave => {
                    if n == 0 {
                        return None;
                    }
                    builder.leave();
                },
            }
        }
        if steps.len() == 0 || builder.opened.len() > 0 {
            assert(open_after(all, all.len() as int).len() == builder.opened.len());
            return None;
        }
        assert(builder.open() =~= Seq::<int>::empty());
        Some(SyntaxTree { elements: builder.elements })
    }
}

impl SyntaxTree {
    /// The tree that `green` holds, each kind number read by the table `kinds`; none
    /// when it is too large for 32 bits.
    pub fn from_green(green: &GreenNode, kinds: &[SyntaxKind]) -> (r: Option<SyntaxTree>)
        ensures
            r is Some <==> fits(walked(outside::green_walk(*green), kinds@)),
            r matches Some(tree) ==> tree@ == walked(outside::green_walk(*green), kinds@)
                && well_formed(tree@),
    {
        let steps: Vec<WalkStep> = outside::walk_green(green);
        SyntaxTree::from_steps(&steps, kinds)
    }

    /// The text of the whole tree.
    pub fn full_text(&self) -> (r: String)
        ensures
            r@ == tree_text(self@),
    {
        let mut r: String = String::new();
        assert(r@ =~= Seq::<char>::empty());
        let count: usize = self.len();
        for i in 0..count
            invariant
                count == self@.len(),
                r@ == text_upto(self@, i as int),
        {
            r.append(self.text(i));
        }
        r
    }

    /// The number of elements, the root included.
    pub fn len(&self) -> (r: usize)
        ensures
            r == self@.len(),
            well_formed(self@),
    {
        proof {
            use_type_invariant(self);
        }
        self.elements.len()
    }

    /// The kind of element `i`.
    pub fn kind(&self, i: usize) -> (r: SyntaxKind)
        requires
            i < self@.len(),
        ensures
            r == self@[i as int].kind,
    {
        self.elements[i].kind
    }

    /// The number that the kind of element `i` was written as.
    pub fn code(&self, i: usize) -> (r: u16)
        requires
            i < self@.len(),
        ensures
            r == self@[i as int].code,
    {
        self.elements[i].code
    }

    /// Whether element `i` is a token.
    pub fn is_token(&self, i: usize) -> (r: bool)
        requires
            i < self@.len(),
        ensures
            r == self@[i as int].token,
    {
        self.elements[i].token
    }

    /// The parent of element `i`: an inner node in front of it.
    pub fn parent(&self, i: usize) -> (r: Option<usize>)
        requires
            i < self@.len(),
        ensures
            match r {
                Some(p) => self@[i as int].parent == Some(p as int) && p < i
                    && !self@[p as int].token,
                None => self@[i as int].parent is None,
            },
    {
        proof {
            use_type_invariant(self);
            reveal(in_document_order);
            assert(self@[i as int] == self.elements@[i as int]@);
            if i > 0 {
                assert(parent_of(self@, i as int) < i);
            }
        }
        self.elements[i].parent
    }

    /// The position behind the last element of the subtree of element `i`.
    pub fn subtree_end(&self, i: usize) -> (r: usize)
        requires
            i < self@.len(),
        ensures
            r == subtree_end(self@, i as int),
            i < r <= self@.len(),
    {
        let count: usize = self.len();
        let mut at: usize = i + 1;
        while at < count
            invariant
                count == self@.len(),
                i < at <= count,
                subtree_end(self@, i as int) == end_of_run(self@, i as int, at as int),
            decreases count - at,
        {
            match self.parent(at) {
                Some(p) if p >= i => {
                    at = at + 1;
                },
                _ => {
                    return at;
                },
            }
        }
        at
    }

    /// The text of element `i`, empty unless it is a token.
    pub fn text(&self, i: usize) -> (r: &str)
        requires
            i < self@.len(),
        ensures
            r@ == self@[i as int].text,
    {
        self.elements[i].text.as_str()
    }

    /// The byte offset at which element `i` starts.
    pub fn start(&self, i: usize) -> (r: usize)
        requires
            i < self@.len(),
        ensures
            r == start_of(self@, i as int),
            r <= text::utf8_len(tree_text(self@)) <= u32::MAX,
    {
        proof {
            use_type_invariant(self);
            reveal(starts_stored);
            lemma_text_upto_grows(self@, i as int, self@.len() as int);
        }
        self.elements[i].start
    }

    /// The byte offset at which element `i` ends.
    pub fn end(&self, i: usize) -> (r: usize)
        requires
            i < self@.len(),
        ensures
            r == end_of(self@, i as int),
            start_of(self@, i as int) <= r <= text::utf8_len(tree_text(self@)) <= u32::MAX,
    {
        proof {
            use_type_invariant(self);
            reveal(ends_stored);
            lemma_end_of_run(self@, i as int, i + 1);
            lemma_text_upto_grows(self@, i as int, subtree_end(self@, i as int));
            lemma_text_upto_grows(self@, subtree_end(self@, i as int), self@.len() as int);
            assert(!is_open(Seq::empty(), i as int));
        }
        self.elements[i].end
    }

    /// The length of the text of the whole tree, in bytes.
    pub fn text_len(&self) -> (r: usize)
        ensures
            r == text::utf8_len(tree_text(self@)),
            r <= u32::MAX,
    {
        proof {
            use_type_invariant(self);
            lemma_root_spans_all(self@);
        }
        self.end(0)
    }
}

/// The root starts at offset 0 and ends with the text.
pub proof fn lemma_root_spans_all(t: Seq<Node>)
    requires
        well_formed(t),
    ensures
        start_of(t, 0) == 0,
        subtree_end(t, 0) == t.len(),
        end_of(t, 0) == text::utf8_len(tree_text(t)),
{
    reveal(in_document_order);
    assert forall|k: int| 1 <= k < t.len() implies #[trigger] below(t, 0, k) by {
        assert(0 <= parent_of(t, k));
    }
    lemma_end_of_run_is(t, 0, 1, t.len() as int);
}

/// A token spans its own text.
pub proof fn lemma_token_span(t: Seq<Node>, i: int)
    requires
        well_formed(t),
        0 <= i < t.len(),
        t[i].token,
    ensures
        subtree_end(t, i) == i + 1,
        end_of(t, i) == start_of(t, i) + text::utf8_len(t[i].text),
{
    reveal(in_document_order);
    if i + 1 < t.len() {
        assert(0 <= parent_of(t, i + 1) < i + 1);
    }
    lemma_end_of_run_is(t, i, i + 1, i + 1);
    text::lemma_len_concat(text_upto(t, i), t[i].text);
}

/// An element spans no text outside that of its parent.
pub proof fn lemma_child_within_parent(t: Seq<Node>, i: int)
    requires
        well_formed(t),
        0 < i < t.len(),
    ensures
        start_of(t, parent_of(t, i)) <= start_of(t, i),
        end_of(t, i) <= end_of(t, parent_of(t, i)),
{
    reveal(in_document_order);
    let p = parent_of(t, i);
    lemma_end_of_run(t, i, i + 1);
    lemma_end_of_run(t, p, p + 1);
    assert forall|k: int| p < k < subtree_end(t, i) implies #[trigger] below(t, p, k) by {
        if k < i {
            assert(parent_of(t, k) >= p);
        } else if k > i {
            assert(below(t, i, k));
        }
    }
    let end = subtree_end(t, p);
    if end < subtree_end(t, i) {
        assert(below(t, p, end));
    }
    lemma_text_upto_grows(t, p, i);
    lemma_text_upto_grows(t, subtree_end(t, i), end);
}

/// Element `i` is a token that holds text and touches byte `offset`.
pub open spec fn touches(t: Seq<Node>, i: int, offset: int) -> bool {
    &&& 0 <= i < t.len()
    &&& t[i].token
    &&& t[i].text.len() > 0
    &&& start_of(t, i) <= offset <= end_of(t, i)
}

/// The first of the first `n` elements that touches byte `offset`.
pub open spec fn first_touching(t: Seq<Node>, offset: int, n: int) -> Option<int>
    decreases n,
{
    if n <= 0 {
        None
    } else if first_touching(t, offset, n - 1) is Some {
        first_touching(t, offset, n - 1)
    } else if touches(t, n - 1, offset) {
        Some(n - 1)
    } else {
        None
    }
}

/// The last of the first `n` elements that touches byte `offset`.
pub open spec fn last_touching(t: Seq<Node>, offset: int, n: int) -> Option<int>
    decreases n,
{
    if n <= 0 {
        None
    } else if touches(t, n - 1, offset) {
        Some(n - 1)
    } else {
        last_touching(t, offset, n - 1)
    }
}

/// The tokens on the left and on the right of byte `offset`: one token twice when the
/// offset lies inside it, or at the edge of the text.
pub open spec fn tokens_at(t: Seq<Node>, offset: int) -> Option<(int, int)> {
    match (first_touching(t, offset, t.len() as int), last_touching(t, offset, t.len() as int)) {
        (Some(left), Some(right)) => Some((left, right)),
        _ => None,
    }
}

/// What `first_touching` and `last_touching` find.
pub proof fn lemma_touching(t: Seq<Node>, offset: int, n: int)
    requires
        0 <= n <= t.len(),
    ensures
        match first_touching(t, offset, n) {
            Some(i) => i < n && touches(t, i, offset) && forall|j: int|
                j < i ==> !(#[trigger] touches(t, j, offset)),
            None => forall|j: int| j < n ==> !(#[trigger] touches(t, j, offset)),
        },
        match last_touching(t, offset, n) {
            Some(i) => i < n && touches(t, i, offset) && forall|j: int|
                i < j < n ==> !(#[trigger] touches(t, j, offset)),
            None => forall|j: int| j < n ==> !(#[trigger] touches(t, j, offset)),
        },
    decreases n,
{
    if n > 0 {
        lemma_touching(t, offset, n - 1);
    }
}

impl SyntaxTree {
    /// The tokens on the left and on the right of byte `offset`.
    pub fn tokens_at(&self, offset: usize) -> (r: Option<(usize, usize)>)
        ensures
            match r {
                Some((left, right)) => {
                    &&& tokens_at(self@, offset as int) == Some((left as int, right as int))
                    &&& left < self@.len()
                    &&& right < self@.len()
                    &&& self@[left as int].token
                    &&& self@[right as int].token
                },
                None => tokens_at(self@, offset as int) is None,
            },
    {
        let mut left: Option<usize> = None;
        let mut right: Option<usize> = None;
        let count: usize = self.len();
        for i in 0..count
            invariant
                count == self@.len(),
                match left {
                    Some(l) => first_touching(self@, offset as int, i as int) == Some(l as int),
                    None => first_touching(self@, offset as int, i as int) is None,
                },
                match right {
                    Some(r) => last_touching(self@, offset as int, i as int) == Some(r as int),
                    None => last_touching(self@, offset as int, i as int) is None,
                },
        {
            if self.is_token(i) && self.text(i).unicode_len() > 0 && self.start(i) <= offset && offset
                <= self.end(i) {
                assert(touches(self@, i as int, offset as int));
                if left.is_none() {
                    left = Some(i);
                }
                right = Some(i);
            }
        }
        proof {
            lemma_touching(self@, offset as int, self@.len() as int);
        }
        match (left, right) {
            (Some(l), Some(r)) => Some((l, r)),
            _ => None,
        }
    }
}

} // verus!
