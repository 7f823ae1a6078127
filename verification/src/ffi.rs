//! The part of the C interface that is independent of pointers: a flat snapshot of a
//! syntax tree with UTF-16 ranges, and completion on it.

use vstd::prelude::*;

use crate::completion;
use crate::completion::{candidates, classify_context, CompletionCandidate};
use crate::outside;
use crate::semantic::bundle::Bundle;
use crate::semantic::model::{KeyCommands, SemanticModel};
use crate::semantic::signature::SignatureDb;
use crate::syntax;
use crate::syntax::{SyntaxKind, SyntaxTree};
use crate::text;
use crate::text::{byte_len, same_text, utf16_width_of, utf8_width_of};

verus! {

/// Stands for a parent, child or sibling that there is not.
pub const BADNESS_NONE: u32 = 0xffff_ffff;

/// The flag of a token, as against an inner node.
pub const BADNESS_NODE_TOKEN: u16 = 1;

/// The flag of white space and comments.
pub const BADNESS_NODE_TRIVIA: u16 = 2;

/// How a call ended.
#[derive(Debug, Clone, Copy, PartialEq, Eq, Structural)]
pub enum BadnessStatus {
    /// As it should.
    Success,
    /// The caller passed a null pointer where there must be none.
    NullPointer,
    /// The source is not valid UTF-16, or too large.
    InvalidInput,
}

/// One element of a snapshot. The range is in UTF-16 code units, its end excluded; the
/// relations are positions in the table, or `BADNESS_NONE`.
#[derive(Debug, Clone, Copy, PartialEq, Eq, Structural)]
pub struct BadnessCstNode {
    pub kind: u16,
    pub flags: u16,
    pub start_utf16: u32,
    pub end_utf16: u32,
    pub parent: u32,
    pub first_child: u32,
    pub next_sibling: u32,
}

/// The largest number of leading characters of `s` that take no more than `units`
/// UTF-16 code units.
pub open spec fn chars_within(s: Seq<char>, units: int) -> int
    decreases s.len(),
{
    if s.len() == 0 || text::utf16_len(s) <= units {
        s.len() as int
    } else {
        chars_within(s.drop_last(), units)
    }
}

/// The byte offset of the last character boundary that is not behind UTF-16 offset
/// `units`.
pub open spec fn byte_offset_of(s: Seq<char>, units: int) -> nat {
    text::utf8_len(s.take(chars_within(s, units)))
}

/// What `chars_within` finds.
pub proof fn lemma_chars_within(s: Seq<char>, units: int)
    requires
        0 <= units,
    ensures
        0 <= chars_within(s, units) <= s.len(),
        text::utf16_len(s.take(chars_within(s, units))) <= units,
        forall|k: int|
            chars_within(s, units) < k <= s.len() ==> #[trigger] text::utf16_len(s.take(k)) > units,
    decreases s.len(),
{
    assert(s.take(s.len() as int) =~= s);
    if s.len() > 0 && text::utf16_len(s) > units {
        let rest = s.drop_last();
        lemma_chars_within(rest, units);
        let n = chars_within(s, units);
        assert(rest.take(n) =~= s.take(n));
        assert forall|k: int| n < k <= s.len() implies #[trigger] text::utf16_len(s.take(k)) > units by {
            if k < s.len() {
                assert(rest.take(k) =~= s.take(k));
            }
        }
    }
}

/// `chars_within` is the one number with these properties.
pub proof fn lemma_chars_within_is(s: Seq<char>, units: int, k: int)
    requires
        0 <= units,
        0 <= k <= s.len(),
        text::utf16_len(s.take(k)) <= units,
        k < s.len() ==> text::utf16_len(s.take(k + 1)) > units,
    ensures
        chars_within(s, units) == k,
{
    lemma_chars_within(s, units);
    let n = chars_within(s, units);
    if k < n {
        text::lemma_prefix_len(s, k + 1, n);
    }
}

/// The byte offset of the last character boundary that is not behind UTF-16 offset
/// `offset_utf16`: an offset behind the text stands for its end, one inside a
/// surrogate pair for the start of that character.
pub fn utf16_to_byte_offset(source: &str, offset_utf16: u32) -> (r: usize)
    ensures
        r == byte_offset_of(source@, offset_utf16 as int),
        r <= text::utf8_len(source@),
{
    let total: usize = byte_len(source);
    let mut bytes: usize = 0;
    let mut units: u32 = 0;
    proof {
        assert(source@.take(0) =~= Seq::<char>::empty());
        assert(source@.take(source@.len() as int) =~= source@);
    }
    for c in it: source.chars()
        invariant
            it.seq() == source@,
            total == text::utf8_len(source@),
            bytes == text::utf8_len(source@.take(it.index())),
            units == text::utf16_len(source@.take(it.index())),
            units <= offset_utf16,
            bytes <= total,
    {
        proof {
            let k = it.index();
            assert(source@.take(k + 1).drop_last() =~= source@.take(k));
            assert(source@.take(k + 1).last() == c);
            text::lemma_prefix_len(source@, k + 1, source@.len() as int);
            assert(source@.take(source@.len() as int) =~= source@);
        }
        if utf16_width_of(c) > (offset_utf16 - units) as usize {
            proof {
                lemma_chars_within_is(source@, offset_utf16 as int, it.index());
            }
            return bytes;
        }
        units = units + utf16_width_of(c) as u32;
        bytes = bytes + utf8_width_of(c);
    }
    proof {
        lemma_chars_within_is(source@, offset_utf16 as int, source@.len() as int);
    }
    bytes
}

/// The UTF-16 offset of byte `n` of `s` where that is a character boundary, else 0.
pub open spec fn utf16_at(s: Seq<char>, n: int) -> nat {
    if text::is_boundary(s, n) {
        text::utf16_len(s.take(choose|k: int| text::boundary_at(s, k, n)))
    } else {
        0
    }
}

/// The UTF-16 offset of a character boundary.
pub proof fn lemma_utf16_at(s: Seq<char>, k: int, n: int)
    requires
        text::boundary_at(s, k, n),
    ensures
        utf16_at(s, n) == text::utf16_len(s.take(k)),
{
    let j = choose|j: int| text::boundary_at(s, j, n);
    text::lemma_boundary_unique(s, j, k, n);
}

/// Behind a boundary no other lies within the width of the next character.
proof fn lemma_no_boundary(s: Seq<char>, k: int, n: int)
    requires
        0 <= k < s.len(),
        text::utf8_len(s.take(k)) < n < text::utf8_len(s.take(k + 1)),
    ensures
        !text::is_boundary(s, n),
{
    assert forall|j: int| !text::boundary_at(s, j, n) by {
        if 0 <= j <= k {
            text::lemma_prefix_len(s, j, k);
        } else if k < j <= s.len() {
            text::lemma_prefix_len(s, k + 1, j);
        }
    }
}

/// The UTF-16 offset of every character boundary of `source`, by its byte offset; 0 at
/// the bytes between. Fails when the text is too long for 32 bits.
pub fn byte_to_utf16_offsets(source: &str) -> (r: Result<Vec<u32>, BadnessStatus>)
    ensures
        match r {
            Ok(offsets) => {
                &&& text::utf16_len(source@) <= u32::MAX
                &&& offsets@.len() == text::utf8_len(source@) + 1
                &&& forall|n: int|
                    0 <= n < offsets@.len() ==> #[trigger] offsets@[n] == utf16_at(source@, n)
            },
            Err(status) => text::utf16_len(source@) > u32::MAX && status
                == BadnessStatus::InvalidInput,
        },
{
    let mut offsets: Vec<u32> = Vec::new();
    let mut units: u32 = 0;
    proof {
        assert(source@.take(0) =~= Seq::<char>::empty());
        assert(source@.take(source@.len() as int) =~= source@);
    }
    for c in it: source.chars()
        invariant
            it.seq() == source@,
            units == text::utf16_len(source@.take(it.index())),
            offsets@.len() == text::utf8_len(source@.take(it.index())),
            forall|n: int| 0 <= n < offsets@.len() ==> #[trigger] offsets@[n] == utf16_at(source@, n),
    {
        let ghost k = it.index();
        let ghost here = offsets@.len() as int;
        proof {
            assert(source@.take(k + 1).drop_last() =~= source@.take(k));
            assert(source@.take(k + 1).last() == c);
            text::lemma_prefix_len(source@, k + 1, source@.len() as int);
            assert(source@.take(source@.len() as int) =~= source@);
            assert(text::boundary_at(source@, k, here));
            lemma_utf16_at(source@, k, here);
        }
        offsets.push(units);
        let width: usize = utf8_width_of(c);
        for i in 1..width
            invariant
                0 <= k < source@.len(),
                width == text::utf8_width(c),
                here == text::utf8_len(source@.take(k)),
                here + width == text::utf8_len(source@.take(k + 1)),
                offsets@.len() == here + i,
                forall|n: int|
                    0 <= n < offsets@.len() ==> #[trigger] offsets@[n] == utf16_at(source@, n),
        {
            proof {
                lemma_no_boundary(source@, k, here + i);
            }
            offsets.push(0);
        }
        match units.checked_add(utf16_width_of(c) as u32) {
            Some(next) => {
                units = next;
            },
            None => {
                return Err(BadnessStatus::InvalidInput);
            },
        }
    }
    proof {
        let n = source@.len() as int;
        assert(text::boundary_at(source@, n, text::utf8_len(source@) as int));
        lemma_utf16_at(source@, n, text::utf8_len(source@) as int);
    }
    offsets.push(units);
    Ok(offsets)
}

/// White space and comments.
pub open spec fn is_trivia(kind: SyntaxKind) -> bool {
    ||| kind == SyntaxKind::WHITESPACE
    ||| kind == SyntaxKind::NEWLINE
    ||| kind == SyntaxKind::COMMENT
    ||| kind == SyntaxKind::DOC_MARGIN
    ||| kind == SyntaxKind::GUARD
}

/// The flag of white space and comments, or none.
pub fn trivia_flag(kind: SyntaxKind) -> (r: u16)
    ensures
        r == (if is_trivia(kind) {
            BADNESS_NODE_TRIVIA
        } else {
            0
        }),
{
    match kind {
        SyntaxKind::WHITESPACE
        | SyntaxKind::NEWLINE
        | SyntaxKind::COMMENT
        | SyntaxKind::DOC_MARGIN
        | SyntaxKind::GUARD => BADNESS_NODE_TRIVIA,
        _ => 0,
    }
}

/// The flags of an element.
pub open spec fn flags_of(node: syntax::Node) -> u16 {
    if !node.token {
        0
    } else if is_trivia(node.kind) {
        3
    } else {
        1
    }
}

/// The first child of element `p` from position `from` on, among the first `n`
/// elements.
pub open spec fn child_from(t: Seq<syntax::Node>, p: int, from: int, n: int) -> Option<int>
    decreases n - from,
{
    if n <= from {
        None
    } else if child_from(t, p, from, n - 1) is Some {
        child_from(t, p, from, n - 1)
    } else if syntax::parent_of(t, n - 1) == p {
        Some(n - 1)
    } else {
        None
    }
}

/// The last child of element `p` among the first `n` elements.
pub open spec fn last_child(t: Seq<syntax::Node>, p: int, n: int) -> Option<int>
    decreases n,
{
    if n <= 0 {
        None
    } else if syntax::parent_of(t, n - 1) == p {
        Some(n - 1)
    } else {
        last_child(t, p, n - 1)
    }
}

/// A position as it is written in the table.
pub open spec fn link(position: Option<int>) -> u32 {
    match position {
        Some(i) => i as u32,
        None => BADNESS_NONE,
    }
}

/// The entry of element `i` when the first `n` elements have been entered.
pub open spec fn entry_upto(t: Seq<syntax::Node>, i: int, n: int) -> BadnessCstNode {
    BadnessCstNode {
        kind: t[i].code,
        flags: flags_of(t[i]),
        start_utf16: text::utf16_len(syntax::text_upto(t, i)) as u32,
        end_utf16: text::utf16_len(syntax::text_upto(t, syntax::subtree_end(t, i))) as u32,
        parent: link(t[i].parent),
        first_child: link(child_from(t, i, i + 1, n)),
        next_sibling: if i == 0 {
            BADNESS_NONE
        } else {
            link(child_from(t, syntax::parent_of(t, i), i + 1, n))
        },
    }
}

/// The entry of element `i` in the table of a whole tree.
pub open spec fn entry_of(t: Seq<syntax::Node>, i: int) -> BadnessCstNode {
    entry_upto(t, i, t.len() as int)
}

/// The table of a tree: one entry for each element, in document order.
pub open spec fn table_of(t: Seq<syntax::Node>) -> Seq<BadnessCstNode> {
    Seq::new(t.len(), |i: int| entry_of(t, i))
}

/// What `child_from` and `last_child` find.
pub proof fn lemma_children(t: Seq<syntax::Node>, p: int, from: int, n: int)
    requires
        0 <= from,
        0 <= n <= t.len(),
    ensures
        match child_from(t, p, from, n) {
            Some(c) => from <= c < n && syntax::parent_of(t, c) == p && forall|j: int|
                from <= j < c ==> #[trigger] syntax::parent_of(t, j) != p,
            None => forall|j: int| from <= j < n ==> #[trigger] syntax::parent_of(t, j) != p,
        },
        match last_child(t, p, n) {
            Some(c) => 0 <= c < n && syntax::parent_of(t, c) == p && forall|j: int|
                c < j < n ==> #[trigger] syntax::parent_of(t, j) != p,
            None => forall|j: int| 0 <= j < n ==> #[trigger] syntax::parent_of(t, j) != p,
        },
    decreases n,
{
    if n > 0 {
        lemma_children(t, p, from, n - 1);
    }
}

/// How entering element `n` changes the entry of an earlier element `i`: it becomes
/// the first child of its parent, or the next sibling of the child before it.
proof fn lemma_entry_step(t: Seq<syntax::Node>, i: int, n: int)
    requires
        syntax::well_formed(t),
        0 <= i < n < t.len(),
    ensures
        ({
            let p = syntax::parent_of(t, n);
            let last = last_child(t, p, n);
            let old_entry = entry_upto(t, i, n);
            &&& 0 <= p < n
            &&& last matches Some(c) ==> 0 <= c < n
            &&& entry_upto(t, i, n + 1) == (if i == p && last is None {
                BadnessCstNode { first_child: n as u32, ..old_entry }
            } else if last == Some(i) {
                BadnessCstNode { next_sibling: n as u32, ..old_entry }
            } else {
                old_entry
            })
        }),
{
    reveal(syntax::in_document_order);
    let p = syntax::parent_of(t, n);
    assert(0 <= p < n);
    lemma_children(t, p, 0, n);
    lemma_children(t, i, i + 1, n);
    let q = syntax::parent_of(t, i);
    lemma_children(t, q, i + 1, n);
    if i > 0 {
        assert(0 <= q < i);
    }
    if i == p && last_child(t, p, n) is Some {
        let c = last_child(t, p, n)->0;
        assert(0 <= syntax::parent_of(t, c));
        if c > 0 {
            assert(syntax::parent_of(t, c) < c);
        } else {
            assert(t[0].parent is None);
        }
        assert(child_from(t, i, i + 1, n) is Some);
    }
    if last_child(t, p, n) == Some(i) {
        assert(q == p);
        if i == 0 {
            assert(t[0].parent is None);
        }
    }
    if q == p && i > 0 && last_child(t, p, n) != Some(i) {
        let c = last_child(t, p, n)->0;
        assert(last_child(t, p, n) is Some);
        assert(i < c);
        assert(child_from(t, q, i + 1, n) is Some);
    }
}

/// The entry of an element that has just been entered.
proof fn lemma_entry_first(t: Seq<syntax::Node>, n: int)
    requires
        0 <= n < t.len(),
    ensures
        entry_upto(t, n, n + 1).first_child == BADNESS_NONE,
        entry_upto(t, n, n + 1).next_sibling == BADNESS_NONE,
{
}

/// The range of an element lies at character boundaries of the text.
proof fn lemma_range_at_boundaries(t: Seq<syntax::Node>, i: int)
    requires
        syntax::well_formed(t),
        0 <= i < t.len(),
    ensures
        utf16_at(syntax::tree_text(t), syntax::start_of(t, i) as int) == text::utf16_len(
            syntax::text_upto(t, i),
        ),
        utf16_at(syntax::tree_text(t), syntax::end_of(t, i) as int) == text::utf16_len(
            syntax::text_upto(t, syntax::subtree_end(t, i)),
        ),
        syntax::start_of(t, i) <= text::utf8_len(syntax::tree_text(t)),
        syntax::end_of(t, i) <= text::utf8_len(syntax::tree_text(t)),
{
    syntax::lemma_end_of_run(t, i, i + 1);
    lemma_prefix_at_boundary(t, i);
    lemma_prefix_at_boundary(t, syntax::subtree_end(t, i));
}

/// The text of the first `n` elements ends at a character boundary of the whole text.
proof fn lemma_prefix_at_boundary(t: Seq<syntax::Node>, n: int)
    requires
        0 <= n <= t.len(),
    ensures
        utf16_at(
            syntax::tree_text(t),
            text::utf8_len(syntax::text_upto(t, n)) as int,
        ) == text::utf16_len(syntax::text_upto(t, n)),
        text::utf8_len(syntax::text_upto(t, n)) <= text::utf8_len(syntax::tree_text(t)),
{
    let all = syntax::tree_text(t);
    let part = syntax::text_upto(t, n);
    syntax::lemma_text_upto_grows(t, n, t.len() as int);
    let k = part.len() as int;
    assert(all.take(k) =~= part);
    assert(text::boundary_at(all, k, text::utf8_len(part) as int));
    lemma_utf16_at(all, k, text::utf8_len(part) as int);
}

/// The table of `tree`, given the UTF-16 offset of each byte of its text.
fn lower_tree(tree: &SyntaxTree, utf16_offsets: &Vec<u32>) -> (r: Vec<BadnessCstNode>)
    requires
        utf16_offsets@.len() == text::utf8_len(syntax::tree_text(tree@)) + 1,
        forall|n: int|
            0 <= n < utf16_offsets@.len() ==> #[trigger] utf16_offsets@[n] == utf16_at(
                syntax::tree_text(tree@),
                n,
            ),
    ensures
        r@ == table_of(tree@),
        syntax::well_formed(tree@),
{
    let ghost t = tree@;
    let count: usize = tree.len();
    let mut out: Vec<BadnessCstNode> = Vec::new();
    let mut last: Vec<u32> = Vec::new();
    for n in 0..count
        invariant
            t == tree@,
            count == t.len(),
            syntax::well_formed(t),
            utf16_offsets@.len() == text::utf8_len(syntax::tree_text(t)) + 1,
            forall|b: int|
                0 <= b < utf16_offsets@.len() ==> #[trigger] utf16_offsets@[b] == utf16_at(
                    syntax::tree_text(t),
                    b,
                ),
            out@.len() == n,
            last@.len() == n,
            forall|i: int| 0 <= i < n ==> #[trigger] out@[i] == entry_upto(t, i, n as int),
            forall|i: int|
                0 <= i < n ==> #[trigger] last@[i] == link(last_child(t, i, n as int)),
    {
        proof {
            lemma_range_at_boundaries(t, n as int);
            lemma_entry_first(t, n as int);
            assert(1u16 | 2u16 == 3u16) by (bit_vector);
            assert(1u16 | 0u16 == 1u16) by (bit_vector);
            assert(utf16_offsets@[syntax::start_of(t, n as int) as int] == text::utf16_len(
                syntax::text_upto(t, n as int),
            ));
            assert(utf16_offsets@[syntax::end_of(t, n as int) as int] == text::utf16_len(
                syntax::text_upto(t, syntax::subtree_end(t, n as int)),
            ));
        }
        let flags: u16 = if tree.is_token(n) {
            BADNESS_NODE_TOKEN | trivia_flag(tree.kind(n))
        } else {
            0
        };
        let parent: Option<usize> = tree.parent(n);
        let id: u32 = n as u32;
        let ghost out0 = out@;
        let ghost last0 = last@;
        let parent_link: u32 = match parent {
            Some(p) => p as u32,
            None => BADNESS_NONE,
        };
        let entry: BadnessCstNode = BadnessCstNode {
            kind: tree.code(n),
            flags,
            start_utf16: utf16_offsets[tree.start(n)],
            end_utf16: utf16_offsets[tree.end(n)],
            parent: parent_link,
            first_child: BADNESS_NONE,
            next_sibling: BADNESS_NONE,
        };
        assert(entry == entry_upto(t, n as int, n + 1));
        if let Some(p) = parent {
            proof {
                lemma_children(t, p as int, 0, n as int);
            }
            let previous: u32 = last[p];
            if previous == BADNESS_NONE {
                out[p].first_child = id;
            } else {
                out[previous as usize].next_sibling = id;
            }
            last.set(p, id);
        }
        out.push(entry);
        last.push(BADNESS_NONE);
        proof {
            reveal(syntax::in_document_order);
            assert forall|i: int| 0 <= i < n + 1 implies #[trigger] out@[i] == entry_upto(
                t,
                i,
                n + 1,
            ) by {
                if i < n {
                    lemma_entry_step(t, i, n as int);
                    assert(out0[i] == entry_upto(t, i, n as int));
                }
            }
            assert forall|i: int| 0 <= i < n + 1 implies #[trigger] last@[i] == link(
                last_child(t, i, n + 1),
            ) by {
                if i < n {
                    assert(last0[i] == link(last_child(t, i, n as int)));
                } else {
                    lemma_children(t, i, 0, n as int);
                }
            }
        }
    }
    proof {
        assert(out@ =~= table_of(t));
    }
    out
}

/// Something wrong with the source, as the parser found it, in bytes.
#[derive(Debug)]
pub struct ParseError {
    pub start: usize,
    pub end: usize,
    pub message: String,
}

/// What the parser made of a source.
#[derive(Debug)]
pub struct Parsed {
    pub tree: SyntaxTree,
    pub errors: Vec<ParseError>,
}

/// The parse lost nothing of the source: the text of the tree is the source, and every
/// error lies within it.
pub open spec fn lossless(parsed: Parsed, source: Seq<char>) -> bool {
    &&& syntax::tree_text(parsed.tree@) == source
    &&& forall|i: int|
        0 <= i < parsed.errors@.len() ==> (#[trigger] parsed.errors@[i]).start <= text::utf8_len(
            source,
        ) && parsed.errors@[i].end <= text::utf8_len(source)
}

/// Whether the parse lost nothing of the source.
pub fn is_lossless(parsed: &Parsed, source: &str) -> (r: bool)
    ensures
        r == lossless(*parsed, source@),
{
    if !same_text(parsed.tree.full_text().as_str(), source) {
        return false;
    }
    let size: usize = byte_len(source);
    for i in 0..parsed.errors.len()
        invariant
            size == text::utf8_len(source@),
            forall|k: int|
                0 <= k < i ==> (#[trigger] parsed.errors@[k]).start <= size
                    && parsed.errors@[k].end <= size,
    {
        let error = &parsed.errors[i];
        if error.start > size || error.end > size {
            return false;
        }
    }
    true
}

/// Something wrong with the source, in UTF-16 code units.
#[derive(Debug)]
pub struct Diagnostic {
    pub start_utf16: u32,
    pub end_utf16: u32,
    pub message: String,
}

/// `diagnostic` says what `error` says of `source`.
pub open spec fn reports(diagnostic: Diagnostic, error: ParseError, source: Seq<char>) -> bool {
    &&& diagnostic.start_utf16 == utf16_at(source, error.start as int)
    &&& diagnostic.end_utf16 == utf16_at(source, error.end as int)
    &&& diagnostic.message@ == error.message@
}

/// A length as it is written in 32 bits.
pub open spec fn wrapped(length: nat) -> u32 {
    (length % 0x1_0000_0000) as u32
}

/// The length of `s` in bytes, in 32 bits.
fn wrapped_len(s: &str) -> (r: u32)
    ensures
        r == wrapped(text::utf8_len(s@)),
{
    let n: usize = byte_len(s);
    let wide: u64 = n as u64;
    assert(wide as u32 == wide % 0x1_0000_0000) by (bit_vector);
    wide as u32
}

impl Diagnostic {
    /// The length of the message in bytes, in 32 bits.
    pub fn message_len(&self) -> (r: u32)
        ensures
            r == wrapped(text::utf8_len(self.message@)),
    {
        wrapped_len(self.message.as_str())
    }
}

/// The snapshot of a parsed source.
#[derive(Debug)]
pub struct BadnessTree {
    nodes: Vec<BadnessCstNode>,
    tree: SyntaxTree,
    text: String,
    diagnostics: Vec<Diagnostic>,
}

impl BadnessTree {
    #[verifier::type_invariant]
    spec fn consistent(self) -> bool {
        &&& syntax::well_formed(self.tree@)
        &&& syntax::tree_text(self.tree@) == self.text@
        &&& self.nodes@ == table_of(self.tree@)
    }

    /// The elements of the tree.
    pub closed spec fn elements(&self) -> Seq<syntax::Node> {
        self.tree@
    }

    /// The source.
    pub closed spec fn source(&self) -> Seq<char> {
        self.text@
    }

    /// What is wrong with the source.
    pub closed spec fn reported(&self) -> Seq<Diagnostic> {
        self.diagnostics@
    }

    /// The table of the elements, the root first.
    pub fn nodes(&self) -> (r: &[BadnessCstNode])
        ensures
            r@ == table_of(self.elements()),
            syntax::well_formed(self.elements()),
    {
        proof {
            use_type_invariant(self);
        }
        self.nodes.as_slice()
    }

    /// The syntax tree, whose text is the source.
    pub fn tree(&self) -> (r: &SyntaxTree)
        ensures
            r@ == self.elements(),
            syntax::well_formed(r@),
            syntax::tree_text(r@) == self.source(),
    {
        proof {
            use_type_invariant(self);
        }
        &self.tree
    }

    /// What is wrong with the source.
    pub fn diagnostics(&self) -> (r: &[Diagnostic])
        ensures
            r@ == self.reported(),
    {
        self.diagnostics.as_slice()
    }
}

/// The diagnostics of a parse, given the UTF-16 offset of each byte of the source.
fn report(errors: Vec<ParseError>, source: &str, utf16_offsets: &Vec<u32>) -> (r: Vec<Diagnostic>)
    requires
        utf16_offsets@.len() == text::utf8_len(source@) + 1,
        forall|n: int|
            0 <= n < utf16_offsets@.len() ==> #[trigger] utf16_offsets@[n] == utf16_at(source@, n),
        forall|i: int|
            0 <= i < errors@.len() ==> (#[trigger] errors@[i]).start <= text::utf8_len(source@)
                && errors@[i].end <= text::utf8_len(source@),
    ensures
        r@.len() == errors@.len(),
        forall|i: int| 0 <= i < r@.len() ==> reports(#[trigger] r@[i], errors@[i], source@),
{
    let mut r: Vec<Diagnostic> = Vec::new();
    for error in it: errors.into_iter()
        invariant
            it.seq() == errors@,
            utf16_offsets@.len() == text::utf8_len(source@) + 1,
            forall|n: int|
                0 <= n < utf16_offsets@.len() ==> #[trigger] utf16_offsets@[n] == utf16_at(
                    source@,
                    n,
                ),
            forall|i: int|
                0 <= i < errors@.len() ==> (#[trigger] errors@[i]).start <= text::utf8_len(source@)
                    && errors@[i].end <= text::utf8_len(source@),
            r@.len() == it.index(),
            forall|i: int| 0 <= i < r@.len() ==> reports(#[trigger] r@[i], errors@[i], source@),
    {
        assert(error == errors@[it.index()]);
        r.push(
            Diagnostic {
                start_utf16: utf16_offsets[error.start],
                end_utf16: utf16_offsets[error.end],
                message: error.message,
            },
        );
    }
    r
}

/// The text that `units` encode, as far as it can be parsed: valid UTF-16 whose
/// lengths in UTF-16 and in UTF-8 fit in 32 bits.
pub open spec fn source_of(units: Seq<u16>) -> Option<Seq<char>> {
    match outside::utf16_decoded(units) {
        Some(source) => if units.len() <= u32::MAX && text::utf8_len(source) <= u32::MAX {
            Some(source)
        } else {
            None
        },
        None => None,
    }
}

/// The text that `units` encode.
pub fn decode_source(units: &[u16]) -> (r: Result<String, BadnessStatus>)
    ensures
        match source_of(units@) {
            Some(source) => r matches Ok(decoded) && decoded@ == source,
            None => r == Err::<String, BadnessStatus>(BadnessStatus::InvalidInput),
        },
{
    if units.len() > u32::MAX as usize {
        return Err(BadnessStatus::InvalidInput);
    }
    match String::from_utf16(units) {
        Ok(source) => {
            if byte_len(source.as_str()) > u32::MAX as usize {
                Err(BadnessStatus::InvalidInput)
            } else {
                Ok(source)
            }
        },
        Err(_) => Err(BadnessStatus::InvalidInput),
    }
}

/// Decoded text takes as many UTF-16 code units as it was decoded from.
pub proof fn lemma_decoded_len(units: Seq<u16>)
    ensures
        outside::utf16_decoded(units) matches Some(source) ==> text::utf16_len(source)
            == units.len(),
    decreases units.len(),
{
    if let Some(source) = outside::utf16_decoded(units) {
        if units.len() > 0 {
            if !outside::leads_pair(units[0]) {
                lemma_decoded_len(units.skip(1));
                let rest = outside::utf16_decoded(units.skip(1))->0;
                let c = units[0] as char;
                text::lemma_single_len(c);
                assert(text::utf16_width(c) == 1);
                text::lemma_len_concat(seq![c], rest);
            } else {
                lemma_decoded_len(units.skip(2));
                let rest = outside::utf16_decoded(units.skip(2))->0;
                let c = outside::pair_value(units[0], units[1]) as char;
                text::lemma_single_len(c);
                assert(text::utf16_width(c) == 2);
                text::lemma_len_concat(seq![c], rest);
            }
        }
    }
}

/// The snapshot of `source` that `parsed` makes up. Fails when the source is too long
/// for 32 bits in UTF-16.
pub fn snapshot(source: String, parsed: Parsed) -> (r: Result<BadnessTree, BadnessStatus>)
    requires
        lossless(parsed, source@),
    ensures
        match r {
            Ok(tree) => {
                &&& text::utf16_len(source@) <= u32::MAX
                &&& tree.source() == source@
                &&& tree.elements() == parsed.tree@
                &&& tree.reported().len() == parsed.errors@.len()
                &&& forall|i: int|
                    0 <= i < parsed.errors@.len() ==> reports(
                        #[trigger] tree.reported()[i],
                        parsed.errors@[i],
                        source@,
                    )
            },
            Err(status) => text::utf16_len(source@) > u32::MAX && status
                == BadnessStatus::InvalidInput,
        },
{
    let Parsed { tree, errors } = parsed;
    match byte_to_utf16_offsets(source.as_str()) {
        Ok(utf16_offsets) => {
            let nodes: Vec<BadnessCstNode> = lower_tree(&tree, &utf16_offsets);
            let diagnostics: Vec<Diagnostic> = report(errors, source.as_str(), &utf16_offsets);
            Ok(BadnessTree { nodes, tree, text: source, diagnostics })
        },
        Err(status) => Err(status),
    }
}

/// Decodes `units`, parses the text, and takes the snapshot of what comes out. Fails
/// exactly when the units do not encode a text that can be parsed.
pub fn parse_utf16_snapshot<F: Fn(&str) -> Parsed>(units: &[u16], parse: F) -> (r: Result<
    BadnessTree,
    BadnessStatus,
>)
    requires
        forall|source: &str|
            text::utf8_len(source@) <= u32::MAX ==> call_requires(parse, (source,)),
        forall|source: &str, parsed: Parsed|
            text::utf8_len(source@) <= u32::MAX && call_ensures(parse, (source,), parsed)
                ==> lossless(parsed, source@),
    ensures
        match source_of(units@) {
            Some(source) => {
                &&& r matches Ok(tree)
                &&& tree.source() == source
                &&& exists|given: &str, parsed: Parsed|
                    {
                        &&& given@ == source
                        &&& #[trigger] call_ensures(parse, (given,), parsed)
                        &&& tree.elements() == parsed.tree@
                        &&& tree.reported().len() == parsed.errors@.len()
                        &&& forall|i: int|
                            0 <= i < parsed.errors@.len() ==> reports(
                                #[trigger] tree.reported()[i],
                                parsed.errors@[i],
                                source,
                            )
                    }
            },
            None => r matches Err(status) && status == BadnessStatus::InvalidInput,
        },
{
    match decode_source(units) {
        Ok(source) => {
            proof {
                lemma_decoded_len(units@);
            }
            let parsed: Parsed = parse(source.as_str());
            snapshot(source, parsed)
        },
        Err(status) => Err(status),
    }
}

/// What is wrong with the pointers of a request to parse: nowhere to put the tree, or
/// no source where there should be one.
pub fn parse_request_status(source_is_null: bool, source_len: usize, out_is_null: bool) -> (r:
    BadnessStatus)
    ensures
        r == (if out_is_null || (source_is_null && source_len != 0) {
            BadnessStatus::NullPointer
        } else {
            BadnessStatus::Success
        }),
{
    if out_is_null || (source_is_null && source_len != 0) {
        BadnessStatus::NullPointer
    } else {
        BadnessStatus::Success
    }
}

/// What is wrong with the pointers of a request to complete: no tree, or nowhere to
/// put the result.
pub fn complete_request_status(tree_is_null: bool, out_is_null: bool) -> (r: BadnessStatus)
    ensures
        r == (if out_is_null || tree_is_null {
            BadnessStatus::NullPointer
        } else {
            BadnessStatus::Success
        }),
{
    if out_is_null || tree_is_null {
        BadnessStatus::NullPointer
    } else {
        BadnessStatus::Success
    }
}

/// What a C caller reads of a candidate besides its strings.
#[derive(Debug, Clone, Copy, PartialEq, Eq, Structural)]
pub struct CandidateRecord {
    pub label_len: u32,
    pub kind: u16,
    pub has_insert_text: bool,
    pub insert_text_len: u32,
    pub snippet: bool,
}

/// The record of an offer.
pub open spec fn record_of(offer: completion::Offer) -> CandidateRecord {
    CandidateRecord {
        label_len: wrapped(text::utf8_len(offer.label)),
        kind: completion::kind_code(offer.kind),
        has_insert_text: offer.insert_text is Some,
        insert_text_len: match offer.insert_text {
            Some(inserted) => wrapped(text::utf8_len(inserted)),
            None => 0,
        },
        snippet: offer.snippet,
    }
}

/// The records of offers, in their order.
pub open spec fn records_of(offers: Seq<completion::Offer>) -> Seq<CandidateRecord> {
    offers.map_values(|offer: completion::Offer| record_of(offer))
}

/// The result of a completion.
#[derive(Debug)]
pub struct BadnessCompletion {
    candidates: Vec<CompletionCandidate>,
    records: Vec<CandidateRecord>,
}

impl BadnessCompletion {
    #[verifier::type_invariant]
    spec fn recorded(self) -> bool {
        self.records@ == records_of(completion::candidates::offers(self.candidates@))
    }

    /// What is offered.
    pub closed spec fn offers(&self) -> Seq<completion::Offer> {
        completion::candidates::offers(self.candidates@)
    }

    /// The candidates.
    pub fn candidates(&self) -> (r: &[CompletionCandidate])
        ensures
            completion::candidates::offers(r@) == self.offers(),
    {
        self.candidates.as_slice()
    }

    /// The records of the candidates, in their order.
    pub fn records(&self) -> (r: &[CandidateRecord])
        ensures
            r@ == records_of(self.offers()),
    {
        proof {
            use_type_invariant(self);
        }
        self.records.as_slice()
    }
}

/// The completion that offers `found`.
pub fn completion_snapshot(found: Vec<CompletionCandidate>) -> (r: BadnessCompletion)
    ensures
        r.offers() == completion::candidates::offers(found@),
{
    let mut records: Vec<CandidateRecord> = Vec::new();
    for i in 0..found.len()
        invariant
            records@.len() == i,
            forall|k: int| 0 <= k < i ==> #[trigger] records@[k] == record_of(found@[k]@),
    {
        let candidate = &found[i];
        let (has_insert_text, insert_text_len): (bool, u32) = match &candidate.insert_text {
            Some(inserted) => (true, wrapped_len(inserted.as_str())),
            None => (false, 0),
        };
        records.push(
            CandidateRecord {
                label_len: wrapped_len(candidate.label.as_str()),
                kind: candidate.kind.code(),
                has_insert_text,
                insert_text_len,
                snippet: candidate.snippet,
            },
        );
    }
    assert(records@ =~= records_of(completion::candidates::offers(found@)));
    BadnessCompletion { candidates: found, records }
}

impl BadnessTree {
    /// Completes at UTF-16 offset `offset_utf16`, with the signatures and the names
    /// that the document defines.
    pub fn complete(
        &self,
        offset_utf16: u32,
        user_sigs: &SignatureDb,
        model: &SemanticModel,
        keys: &KeyCommands,
        bundle: &Bundle,
    ) -> (r: BadnessCompletion)
        ensures
            completion::candidates::answers(
                r.offers(),
                completion::context::asked_at(
                    self.elements(),
                    byte_offset_of(self.source(), offset_utf16 as int) as int,
                    keys@,
                    bundle.arg_enums@,
                ),
                user_sigs@,
                *model,
                *bundle,
            ),
    {
        proof {
            use_type_invariant(self);
        }
        let offset: usize = utf16_to_byte_offset(self.text.as_str(), offset_utf16);
        let context = classify_context(&self.tree, offset, keys, bundle);
        completion_snapshot(candidates(&context, user_sigs, model, bundle))
    }
}

} // verus!
