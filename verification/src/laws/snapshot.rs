//! Laws of the flat snapshot, and of offsets in UTF-8 and UTF-16.

use vstd::prelude::*;

use crate::completion;
use crate::completion::CandidateKind;
use crate::ffi;
use crate::ffi::{BadnessCstNode, BADNESS_NONE};
use crate::outside;
use crate::syntax;
use crate::syntax::SyntaxKind;
use crate::text;

verus! {

/// A UTF-16 offset always turns into a character boundary of the text.
pub proof fn law_offset_is_boundary(s: Seq<char>, units: int)
    requires
        0 <= units,
    ensures
        text::is_boundary(s, ffi::byte_offset_of(s, units) as int),
        ffi::byte_offset_of(s, units) <= text::utf8_len(s),
{
    ffi::lemma_chars_within(s, units);
    let k = ffi::chars_within(s, units);
    assert(text::boundary_at(s, k, ffi::byte_offset_of(s, units) as int));
    text::lemma_prefix_len(s, k, s.len() as int);
    assert(s.take(s.len() as int) =~= s);
}

/// Turning the UTF-16 offset of a character boundary into a byte offset gives the
/// boundary back.
pub proof fn law_offset_round_trip(s: Seq<char>, n: int)
    requires
        text::is_boundary(s, n),
    ensures
        ffi::byte_offset_of(s, ffi::utf16_at(s, n) as int) == n,
{
    let k = choose|k: int| text::boundary_at(s, k, n);
    ffi::lemma_utf16_at(s, k, n);
    if k < s.len() {
        text::lemma_prefix_len(s, k, k + 1);
    }
    ffi::lemma_chars_within_is(s, ffi::utf16_at(s, n) as int, k);
}

/// An offset inside a surrogate pair stands for the start of its character.
pub proof fn law_offset_inside_pair(s: Seq<char>, k: int)
    requires
        0 <= k < s.len(),
        text::utf16_width(s[k]) == 2,
    ensures
        ffi::byte_offset_of(s, text::utf16_len(s.take(k)) as int + 1) == text::utf8_len(s.take(k)),
{
    assert(s.take(k + 1).drop_last() =~= s.take(k));
    assert(s.take(k + 1).last() == s[k]);
    ffi::lemma_chars_within_is(s, text::utf16_len(s.take(k)) as int + 1, k);
}

/// An offset behind the text stands for its end.
pub proof fn law_offset_clamps(s: Seq<char>, units: int)
    requires
        text::utf16_len(s) <= units,
    ensures
        ffi::byte_offset_of(s, units) == text::utf8_len(s),
{
    assert(s.take(s.len() as int) =~= s);
}

/// A larger UTF-16 offset never turns into a smaller byte offset.
pub proof fn law_offset_monotone(s: Seq<char>, a: int, b: int)
    requires
        0 <= a <= b,
    ensures
        ffi::byte_offset_of(s, a) <= ffi::byte_offset_of(s, b),
{
    ffi::lemma_chars_within(s, a);
    ffi::lemma_chars_within(s, b);
    let i = ffi::chars_within(s, a);
    let j = ffi::chars_within(s, b);
    if j < i {
        assert(text::utf16_len(s.take(i)) > b);
    }
    text::lemma_prefix_len(s, i, j);
}

/// Text that was decoded from UTF-16 takes as many code units as it was decoded from,
/// so the offsets of the whole source fit wherever its length did.
pub proof fn law_decoded_length(units: Seq<u16>)
    ensures
        ffi::source_of(units) matches Some(source) ==> text::utf16_len(source) == units.len()
            && units.len() <= u32::MAX,
{
    ffi::lemma_decoded_len(units);
}

/// No offset in the table is cut off: the range of an entry is the range of its element
/// in the text, counted in UTF-16 code units.
pub proof fn law_ranges_exact(t: Seq<syntax::Node>, i: int)
    requires
        syntax::well_formed(t),
        0 <= i < t.len(),
    ensures
        ffi::table_of(t)[i].start_utf16 == text::utf16_len(syntax::text_upto(t, i)),
        ffi::table_of(t)[i].end_utf16 == text::utf16_len(
            syntax::text_upto(t, syntax::subtree_end(t, i)),
        ),
{
    syntax::lemma_end_of_run(t, i, i + 1);
    lemma_utf16_fits(t, i);
    lemma_utf16_fits(t, syntax::subtree_end(t, i));
}

/// The text of the first elements fits in 32 bits.
proof fn lemma_utf16_fits(t: Seq<syntax::Node>, n: int)
    requires
        syntax::well_formed(t),
        0 <= n <= t.len(),
    ensures
        text::utf16_len(syntax::text_upto(t, n)) <= u32::MAX,
{
    syntax::lemma_text_upto_grows(t, n, t.len() as int);
    text::lemma_utf16_within_utf8(syntax::text_upto(t, n));
}

/// UTF-16 lengths grow with the number of elements.
proof fn lemma_utf16_grows(t: Seq<syntax::Node>, m: int, n: int)
    requires
        0 <= m <= n <= t.len(),
    ensures
        text::utf16_len(syntax::text_upto(t, m)) <= text::utf16_len(syntax::text_upto(t, n)),
{
    syntax::lemma_text_upto_grows(t, m, n);
    let a = syntax::text_upto(t, m);
    let b = syntax::text_upto(t, n);
    assert(b.take(a.len() as int) =~= a);
    assert(b.take(b.len() as int) =~= b);
    text::lemma_prefix_len(b, a.len() as int, b.len() as int);
}

/// The root has no parent and no sibling, and spans the whole source.
pub proof fn law_root_spans_source(t: Seq<syntax::Node>)
    requires
        syntax::well_formed(t),
    ensures
        ffi::table_of(t)[0].parent == BADNESS_NONE,
        ffi::table_of(t)[0].next_sibling == BADNESS_NONE,
        ffi::table_of(t)[0].start_utf16 == 0,
        ffi::table_of(t)[0].end_utf16 == text::utf16_len(syntax::tree_text(t)),
{
    law_ranges_exact(t, 0);
    syntax::lemma_root_spans_all(t);
}

/// The range of a token holds exactly its text.
pub proof fn law_token_range(t: Seq<syntax::Node>, i: int)
    requires
        syntax::well_formed(t),
        0 <= i < t.len(),
        t[i].token,
    ensures
        ffi::table_of(t)[i].end_utf16 - ffi::table_of(t)[i].start_utf16 == text::utf16_len(
            t[i].text,
        ),
{
    law_ranges_exact(t, i);
    syntax::lemma_token_span(t, i);
    text::lemma_len_concat(syntax::text_upto(t, i), t[i].text);
}

/// The range of an entry lies within that of its parent, and the parent stands in
/// front of it.
pub proof fn law_ranges_nest(t: Seq<syntax::Node>, i: int)
    requires
        syntax::well_formed(t),
        0 < i < t.len(),
    ensures
        ({
            let entry = ffi::table_of(t)[i];
            let parent = ffi::table_of(t)[entry.parent as int];
            &&& entry.parent < i
            &&& parent.start_utf16 <= entry.start_utf16 <= entry.end_utf16 <= parent.end_utf16
        }),
{
    reveal(syntax::in_document_order);
    let p = syntax::parent_of(t, i);
    assert(0 <= p < i);
    law_ranges_exact(t, i);
    law_ranges_exact(t, p);
    syntax::lemma_end_of_run(t, i, i + 1);
    syntax::lemma_end_of_run(t, p, p + 1);
    let end = syntax::subtree_end(t, i);
    lemma_subtree_inside(t, i);
    lemma_utf16_grows(t, p, i);
    lemma_utf16_grows(t, i, end);
    lemma_utf16_grows(t, end, syntax::subtree_end(t, p));
}

/// The subtree of an element ends no later than that of its parent.
proof fn lemma_subtree_inside(t: Seq<syntax::Node>, i: int)
    requires
        syntax::well_formed(t),
        0 < i < t.len(),
    ensures
        syntax::subtree_end(t, i) <= syntax::subtree_end(t, syntax::parent_of(t, i)),
{
    reveal(syntax::in_document_order);
    let p = syntax::parent_of(t, i);
    syntax::lemma_end_of_run(t, i, i + 1);
    syntax::lemma_end_of_run(t, p, p + 1);
    let end = syntax::subtree_end(t, p);
    if end < syntax::subtree_end(t, i) {
        if end < i {
            assert(syntax::parent_of(t, end) >= p);
        } else if end > i {
            assert(syntax::below(t, i, end));
        }
        assert(syntax::below(t, p, end));
    }
}

/// The children of element `p` from position `from` on, in document order.
pub open spec fn children_from(t: Seq<syntax::Node>, p: int, from: int) -> Seq<int>
    decreases t.len() - from,
{
    if from >= t.len() {
        Seq::empty()
    } else if syntax::parent_of(t, from) == p {
        seq![from] + children_from(t, p, from + 1)
    } else {
        children_from(t, p, from + 1)
    }
}

/// The entries that a caller meets who starts at entry `at` and goes from sibling to
/// sibling.
pub open spec fn siblings(table: Seq<BadnessCstNode>, at: u32) -> Seq<int>
    decreases u32::MAX - at,
{
    if at >= table.len() {
        Seq::empty()
    } else {
        let next = table[at as int].next_sibling;
        if next > at {
            seq![at as int] + siblings(table, next)
        } else {
            seq![at as int]
        }
    }
}

/// A caller who starts at the first child of an entry and goes from sibling to sibling
/// meets exactly its children, in document order.
pub proof fn law_children_linked(t: Seq<syntax::Node>, p: int)
    requires
        syntax::well_formed(t),
        0 <= p < t.len(),
    ensures
        siblings(ffi::table_of(t), ffi::table_of(t)[p].first_child) == children_from(t, p, p + 1),
{
    lemma_siblings(t, p, p + 1);
}

/// Going from sibling to sibling, from the first child behind `from`.
proof fn lemma_siblings(t: Seq<syntax::Node>, p: int, from: int)
    requires
        syntax::well_formed(t),
        0 <= p < from <= t.len(),
    ensures
        siblings(
            ffi::table_of(t),
            ffi::link(ffi::child_from(t, p, from, t.len() as int)),
        ) == children_from(t, p, from),
    decreases t.len() - from,
{
    let n = t.len() as int;
    let table = ffi::table_of(t);
    ffi::lemma_children(t, p, from, n);
    match ffi::child_from(t, p, from, n) {
        None => {
            lemma_no_children(t, p, from);
        },
        Some(c) => {
            lemma_skip_to_child(t, p, from, c);
            lemma_siblings(t, p, c + 1);
            ffi::lemma_children(t, p, c + 1, n);
            assert(table[c].next_sibling == ffi::link(ffi::child_from(t, p, c + 1, n)));
            if ffi::child_from(t, p, c + 1, n) is None {
                assert(siblings(table, BADNESS_NONE) =~= Seq::<int>::empty());
            }
            assert(children_from(t, p, c) == seq![c] + children_from(t, p, c + 1));
        },
    }
}

/// Where no element is a child, the list of children is empty.
proof fn lemma_no_children(t: Seq<syntax::Node>, p: int, from: int)
    requires
        0 <= from,
        forall|j: int| from <= j < t.len() ==> #[trigger] syntax::parent_of(t, j) != p,
    ensures
        children_from(t, p, from) == Seq::<int>::empty(),
    decreases t.len() - from,
{
    if from < t.len() {
        lemma_no_children(t, p, from + 1);
    }
}

/// The list of children starts with the first child.
proof fn lemma_skip_to_child(t: Seq<syntax::Node>, p: int, from: int, c: int)
    requires
        0 <= from <= c < t.len(),
        forall|j: int| from <= j < c ==> #[trigger] syntax::parent_of(t, j) != p,
    ensures
        children_from(t, p, from) == children_from(t, p, c),
    decreases c - from,
{
    if from < c {
        lemma_skip_to_child(t, p, from + 1, c);
    }
}

/// Every entry that a caller meets below an entry names that entry as its parent.
pub proof fn law_child_names_parent(t: Seq<syntax::Node>, p: int, k: int)
    requires
        syntax::well_formed(t),
        0 <= p < t.len(),
        0 <= k < siblings(ffi::table_of(t), ffi::table_of(t)[p].first_child).len(),
    ensures
        ({
            let child = siblings(ffi::table_of(t), ffi::table_of(t)[p].first_child)[k];
            0 <= child < t.len() && ffi::table_of(t)[child].parent == p
        }),
{
    law_children_linked(t, p);
    lemma_child_parent(t, p, p + 1, k);
}

/// A listed child has the parent that it is listed for.
proof fn lemma_child_parent(t: Seq<syntax::Node>, p: int, from: int, k: int)
    requires
        0 <= p < from,
        0 <= k < children_from(t, p, from).len(),
    ensures
        from <= children_from(t, p, from)[k] < t.len(),
        t[children_from(t, p, from)[k]].parent == Some(p),
    decreases t.len() - from,
{
    if syntax::parent_of(t, from) == p {
        if k > 0 {
            lemma_child_parent(t, p, from + 1, k - 1);
        }
    } else {
        lemma_child_parent(t, p, from + 1, k);
    }
}

/// Two tokens with no token between them touch: the second starts where the first ends.
pub proof fn law_tokens_tile(t: Seq<syntax::Node>, i: int, j: int)
    requires
        syntax::well_formed(t),
        0 <= i < j < t.len(),
        t[i].token,
        t[j].token,
        forall|k: int| i < k < j ==> !(#[trigger] t[k]).token,
    ensures
        ffi::table_of(t)[i].end_utf16 == ffi::table_of(t)[j].start_utf16,
{
    law_ranges_exact(t, i);
    law_ranges_exact(t, j);
    syntax::lemma_token_span(t, i);
    lemma_no_text_between(t, i + 1, j);
}

/// Inner nodes add no text.
proof fn lemma_no_text_between(t: Seq<syntax::Node>, m: int, n: int)
    requires
        syntax::well_formed(t),
        0 <= m <= n <= t.len(),
        forall|k: int| m <= k < n ==> !(#[trigger] t[k]).token,
    ensures
        syntax::text_upto(t, n) == syntax::text_upto(t, m),
    decreases n - m,
{
    if m < n {
        lemma_no_text_between(t, m, n - 1);
        reveal(syntax::in_document_order);
        assert(!t[n - 1].token);
        assert(syntax::text_upto(t, n - 1) + t[n - 1].text =~= syntax::text_upto(t, n - 1));
    }
}

/// What decoding makes of the first character: it takes one code unit, or two.
proof fn lemma_first_char(units: Seq<u16>, s: Seq<char>) -> (width: int)
    requires
        outside::utf16_decoded(units) == Some(s),
        s.len() > 0,
    ensures
        1 <= width <= units.len(),
        width == text::utf16_width(s[0]),
        outside::utf16_decoded(units.skip(width)) == Some(s.drop_first()),
        width == (if outside::leads_pair(units[0]) {
            2int
        } else {
            1int
        }),
{
    if !outside::leads_pair(units[0]) {
        let rest = outside::utf16_decoded(units.skip(1))->0;
        assert(s == seq![units[0] as char] + rest);
        assert(s.drop_first() =~= rest);
        1
    } else {
        let rest = outside::utf16_decoded(units.skip(2))->0;
        assert(s == seq![outside::pair_value(units[0], units[1]) as char] + rest);
        assert(s.drop_first() =~= rest);
        2
    }
}

/// The length of a text is the width of its first character and the length of the rest.
proof fn lemma_first_len(s: Seq<char>, k: int)
    requires
        0 < k <= s.len(),
    ensures
        text::utf16_len(s.take(k)) == text::utf16_width(s[0]) + text::utf16_len(
            s.drop_first().take(k - 1),
        ),
        s.take(k) == seq![s[0]] + s.drop_first().take(k - 1),
{
    assert(s.take(k) =~= seq![s[0]] + s.drop_first().take(k - 1));
    text::lemma_len_concat(seq![s[0]], s.drop_first().take(k - 1));
    text::lemma_single_len(s[0]);
}

/// Without the code units of its first `k` characters, a text decodes without them.
proof fn lemma_decoded_skip(units: Seq<u16>, s: Seq<char>, k: int)
    requires
        outside::utf16_decoded(units) == Some(s),
        0 <= k <= s.len(),
    ensures
        text::utf16_len(s.take(k)) <= units.len(),
        outside::utf16_decoded(units.skip(text::utf16_len(s.take(k)) as int)) == Some(s.skip(k)),
    decreases k,
{
    if k == 0 {
        assert(s.take(0) =~= Seq::<char>::empty());
        assert(units.skip(0) =~= units);
        assert(s.skip(0) =~= s);
    } else {
        let width = lemma_first_char(units, s);
        let rest = s.drop_first();
        lemma_decoded_skip(units.skip(width), rest, k - 1);
        lemma_first_len(s, k);
        let more = text::utf16_len(rest.take(k - 1)) as int;
        assert(units.skip(width).skip(more) =~= units.skip(width + more));
        assert(rest.skip(k - 1) =~= s.skip(k));
    }
}

/// The code units of the first `k` characters of a text decode to them.
proof fn lemma_decoded_take(units: Seq<u16>, s: Seq<char>, k: int)
    requires
        outside::utf16_decoded(units) == Some(s),
        0 <= k <= s.len(),
    ensures
        text::utf16_len(s.take(k)) <= units.len(),
        outside::utf16_decoded(units.take(text::utf16_len(s.take(k)) as int)) == Some(s.take(k)),
    decreases k,
{
    if k == 0 {
        assert(s.take(0) =~= Seq::<char>::empty());
        assert(units.take(0) =~= Seq::<u16>::empty());
    } else {
        let width = lemma_first_char(units, s);
        let rest = s.drop_first();
        lemma_decoded_take(units.skip(width), rest, k - 1);
        lemma_first_len(s, k);
        let more = text::utf16_len(rest.take(k - 1)) as int;
        let part = units.take(width + more);
        assert(part.skip(width) =~= units.skip(width).take(more));
        assert(part[0] == units[0]);
        if width == 2 {
            assert(part[1] == units[1]);
        }
    }
}

/// The text of element `i`.
pub open spec fn element_text(t: Seq<syntax::Node>, i: int) -> Seq<char> {
    syntax::tree_text(t).subrange(
        syntax::text_upto(t, i).len() as int,
        syntax::text_upto(t, syntax::subtree_end(t, i)).len() as int,
    )
}

/// The range of an entry cuts its text out of the UTF-16 source: the code units in the
/// range decode to the text of the element.
pub proof fn law_range_cuts_text(units: Seq<u16>, t: Seq<syntax::Node>, i: int)
    requires
        syntax::well_formed(t),
        outside::utf16_decoded(units) == Some(syntax::tree_text(t)),
        0 <= i < t.len(),
    ensures
        ({
            let entry = ffi::table_of(t)[i];
            &&& entry.start_utf16 <= entry.end_utf16 <= units.len()
            &&& outside::utf16_decoded(
                units.subrange(entry.start_utf16 as int, entry.end_utf16 as int),
            ) == Some(element_text(t, i))
        }),
{
    let all = syntax::tree_text(t);
    let end = syntax::subtree_end(t, i);
    law_ranges_exact(t, i);
    syntax::lemma_end_of_run(t, i, i + 1);
    syntax::lemma_text_upto_grows(t, i, end);
    syntax::lemma_text_upto_grows(t, i, t.len() as int);
    syntax::lemma_text_upto_grows(t, end, t.len() as int);
    let k = syntax::text_upto(t, i).len() as int;
    let l = syntax::text_upto(t, end).len() as int;
    assert(all.take(k) =~= syntax::text_upto(t, i));
    assert(all.take(l) =~= syntax::text_upto(t, end));
    let from = text::utf16_len(all.take(k)) as int;
    let to = text::utf16_len(all.take(l)) as int;
    lemma_utf16_grows(t, i, end);
    lemma_decoded_take(units, all, l);
    let part = units.take(to);
    lemma_decoded_skip(part, all.take(l), k);
    assert(all.take(l).take(k) =~= all.take(k));
    assert(part.skip(from) =~= units.subrange(from, to));
    assert(all.take(l).skip(k) =~= all.subrange(k, l));
}

/// The text of a token, as an element, is its own.
pub proof fn law_token_text(t: Seq<syntax::Node>, i: int)
    requires
        syntax::well_formed(t),
        0 <= i < t.len(),
        t[i].token,
    ensures
        element_text(t, i) == t[i].text,
{
    syntax::lemma_token_span(t, i);
    syntax::lemma_text_upto_grows(t, i + 1, t.len() as int);
    let all = syntax::tree_text(t);
    let part = syntax::text_upto(t, i);
    let longer = syntax::text_upto(t, i + 1);
    assert(longer == part + t[i].text);
    assert(all.take(longer.len() as int) =~= longer);
    assert forall|k: int| 0 <= k < t[i].text.len() implies element_text(t, i)[k] == t[i].text[k] by {
        assert(all[part.len() + k] == all.take(longer.len() as int)[part.len() + k]);
    }
    assert(element_text(t, i) =~= t[i].text);
}

/// The numbers that a C caller goes by.
pub proof fn law_constants()
    ensures
        BADNESS_NONE == u32::MAX,
        ffi::BADNESS_NODE_TOKEN == 1,
        ffi::BADNESS_NODE_TRIVIA == 2,
{
}

/// The table has one entry for each element, in the same place and of the same kind
/// number. Its token bit is set exactly for tokens, its trivia bit exactly for tokens
/// that are white space, newlines, comments, doc margins or guards, and it has no other
/// bit.
pub proof fn law_entry_kind_and_flags(t: Seq<syntax::Node>, i: int)
    requires
        0 <= i < t.len(),
    ensures
        ffi::table_of(t).len() == t.len(),
        ffi::table_of(t)[i].kind == t[i].code,
        ffi::table_of(t)[i].flags & 1u16 != 0 <==> t[i].token,
        ffi::table_of(t)[i].flags & 2u16 != 0 <==> t[i].token && (t[i].kind
            == SyntaxKind::WHITESPACE || t[i].kind == SyntaxKind::NEWLINE || t[i].kind
            == SyntaxKind::COMMENT || t[i].kind == SyntaxKind::DOC_MARGIN || t[i].kind
            == SyntaxKind::GUARD),
        ffi::table_of(t)[i].flags < 4,
{
    assert(0u16 & 1u16 == 0) by (bit_vector);
    assert(0u16 & 2u16 == 0) by (bit_vector);
    assert(1u16 & 1u16 != 0) by (bit_vector);
    assert(1u16 & 2u16 == 0) by (bit_vector);
    assert(3u16 & 1u16 != 0) by (bit_vector);
    assert(3u16 & 2u16 != 0) by (bit_vector);
}

/// An entry names its parent, if it has one, its first child, if it has one, and the
/// next child of its parent, if there is one.
pub proof fn law_entry_links(t: Seq<syntax::Node>, i: int)
    requires
        syntax::well_formed(t),
        0 <= i < t.len(),
    ensures
        ({
            let entry = ffi::table_of(t)[i];
            &&& match t[i].parent {
                Some(p) => entry.parent == p,
                None => entry.parent == u32::MAX,
            }
            &&& if entry.first_child == u32::MAX {
                forall|c: int| 0 <= c < t.len() ==> (#[trigger] t[c]).parent != Some(i)
            } else {
                &&& entry.first_child < t.len()
                &&& t[entry.first_child as int].parent == Some(i)
                &&& forall|c: int|
                    0 <= c < entry.first_child ==> (#[trigger] t[c]).parent != Some(i)
            }
            &&& if entry.next_sibling == u32::MAX {
                forall|c: int|
                    i < c < t.len() && t[i].parent is Some ==> (#[trigger] t[c]).parent
                        != t[i].parent
            } else {
                &&& i < entry.next_sibling < t.len()
                &&& t[i].parent is Some
                &&& t[entry.next_sibling as int].parent == t[i].parent
                &&& forall|c: int|
                    i < c < entry.next_sibling ==> (#[trigger] t[c]).parent != t[i].parent
            }
        }),
{
    reveal(syntax::in_document_order);
    let n = t.len() as int;
    ffi::lemma_children(t, i, i + 1, n);
    let q = syntax::parent_of(t, i);
    ffi::lemma_children(t, q, i + 1, n);
    if i > 0 {
        assert(0 <= q < i);
    }
    assert forall|c: int| 0 <= c <= i implies (#[trigger] t[c]).parent != Some(i) by {
        if c > 0 {
            assert(syntax::parent_of(t, c) < c);
        }
    }
    assert forall|c: int| 0 <= c < n implies ((#[trigger] t[c]).parent == Some(i)
        <==> syntax::parent_of(t, c) == i) by {
    }
    assert forall|c: int| i < c < n && t[i].parent is Some implies ((#[trigger] t[c]).parent
        == t[i].parent <==> syntax::parent_of(t, c) == q) by {
        assert(0 <= syntax::parent_of(t, c));
    }
}

/// The byte offset of every character boundary turns into its UTF-16 offset and back,
/// and the bytes between two boundaries, and those behind the text, have the UTF-16
/// offset 0.
pub proof fn law_offsets_by_character(s: Seq<char>, k: int)
    requires
        0 <= k <= s.len(),
    ensures
        ffi::utf16_at(s, text::utf8_len(s.take(k)) as int) == text::utf16_len(s.take(k)),
        ffi::byte_offset_of(s, text::utf16_len(s.take(k)) as int) == text::utf8_len(s.take(k)),
        forall|n: int|
            k < s.len() && text::utf8_len(s.take(k)) < n < text::utf8_len(s.take(k + 1))
                ==> #[trigger] ffi::utf16_at(s, n) == 0,
        forall|n: int| n > text::utf8_len(s) ==> #[trigger] ffi::utf16_at(s, n) == 0,
{
    let n = text::utf8_len(s.take(k)) as int;
    assert(text::boundary_at(s, k, n));
    ffi::lemma_utf16_at(s, k, n);
    law_offset_round_trip(s, n);
    assert forall|m: int|
        k < s.len() && text::utf8_len(s.take(k)) < m < text::utf8_len(
            s.take(k + 1),
        ) implies #[trigger] ffi::utf16_at(s, m) == 0 by {
        assert forall|j: int| !text::boundary_at(s, j, m) by {
            if 0 <= j <= k {
                text::lemma_prefix_len(s, j, k);
            } else if k < j <= s.len() {
                text::lemma_prefix_len(s, k + 1, j);
            }
        }
    }
    assert forall|m: int| m > text::utf8_len(s) implies #[trigger] ffi::utf16_at(s, m) == 0 by {
        assert(s.take(s.len() as int) =~= s);
        assert forall|j: int| !text::boundary_at(s, j, m) by {
            if 0 <= j <= s.len() {
                text::lemma_prefix_len(s, j, s.len() as int);
            }
        }
    }
}

/// A diagnostic has the message of its error, and its range is that of the error,
/// counted in UTF-16: an error from character `a` to character `b` starts as many code
/// units into the source as the first `a` characters take. An end of the range that is
/// no character boundary counts as 0.
pub proof fn law_diagnostic(
    diagnostic: ffi::Diagnostic,
    error: ffi::ParseError,
    source: Seq<char>,
    a: int,
    b: int,
)
    requires
        ffi::reports(diagnostic, error, source),
    ensures
        diagnostic.message@ == error.message@,
        0 <= a <= source.len() && error.start == text::utf8_len(source.take(a))
            ==> diagnostic.start_utf16 == text::utf16_len(source.take(a)),
        0 <= b <= source.len() && error.end == text::utf8_len(source.take(b))
            ==> diagnostic.end_utf16 == text::utf16_len(source.take(b)),
        (forall|k: int|
            0 <= k <= source.len() ==> text::utf8_len(#[trigger] source.take(k)) != error.start)
            ==> diagnostic.start_utf16 == 0,
        (forall|k: int|
            0 <= k <= source.len() ==> text::utf8_len(#[trigger] source.take(k)) != error.end)
            ==> diagnostic.end_utf16 == 0,
{
    if 0 <= a <= source.len() {
        law_offsets_by_character(source, a);
    }
    if 0 <= b <= source.len() {
        law_offsets_by_character(source, b);
    }
}

/// A source is accepted exactly when it is valid UTF-16 and neither its code units nor
/// its bytes in UTF-8 are more than 32 bits can count; what is parsed is what it
/// decodes to.
pub proof fn law_source_accepted(units: Seq<u16>, source: Seq<char>)
    ensures
        ffi::source_of(units) == Some(source) <==> outside::utf16_decoded(units) == Some(source)
            && units.len() <= 0xffff_ffff && text::utf8_len(source) <= 0xffff_ffff,
        ffi::source_of(units) is None <==> (outside::utf16_decoded(units) matches Some(decoded)
            ==> units.len() > 0xffff_ffff || text::utf8_len(decoded) > 0xffff_ffff),
{
}

/// A parse is lossless exactly when the texts of the tree make up the source and no
/// error reaches behind it.
pub proof fn law_lossless(parsed: ffi::Parsed, source: Seq<char>)
    ensures
        ffi::lossless(parsed, source) <==> syntax::text_upto(
            parsed.tree@,
            parsed.tree@.len() as int,
        ) == source && forall|i: int|
            0 <= i < parsed.errors@.len() ==> (#[trigger] parsed.errors@[i]).start
                <= text::utf8_len(source) && parsed.errors@[i].end <= text::utf8_len(source),
{
}

/// A length is written as it is, as long as it fits in 32 bits; of a longer one the
/// remainder is written.
pub proof fn law_written_length(length: nat)
    ensures
        length < 0x1_0000_0000 ==> ffi::wrapped(length) == length,
        ffi::wrapped(length) == length % 0x1_0000_0000,
{
}

/// There is one record for each candidate, in the same order. It has the lengths of the
/// label and of the inserted text in bytes of UTF-8, the number of the candidate's kind,
/// and says whether there is a text to insert and whether it is a snippet.
pub proof fn law_records(offers: Seq<completion::Offer>, i: int)
    requires
        0 <= i < offers.len(),
    ensures
        ({
            let record = ffi::records_of(offers)[i];
            let offer = offers[i];
            &&& ffi::records_of(offers).len() == offers.len()
            &&& text::utf8_len(offer.label) < 0x1_0000_0000 ==> record.label_len
                == text::utf8_len(offer.label)
            &&& record.label_len == text::utf8_len(offer.label) % 0x1_0000_0000
            &&& record.has_insert_text == (offer.insert_text is Some)
            &&& offer.insert_text matches Some(inserted) ==> (text::utf8_len(inserted)
                < 0x1_0000_0000 ==> record.insert_text_len == text::utf8_len(inserted))
                && record.insert_text_len == text::utf8_len(inserted) % 0x1_0000_0000
            &&& offer.insert_text is None ==> record.insert_text_len == 0
            &&& record.snippet == offer.snippet
            &&& offer.kind == CandidateKind::Command <==> record.kind == 0
            &&& offer.kind == CandidateKind::Environment <==> record.kind == 1
            &&& offer.kind == CandidateKind::Label <==> record.kind == 2
            &&& offer.kind == CandidateKind::Package <==> record.kind == 3
            &&& offer.kind == CandidateKind::Color <==> record.kind == 4
            &&& offer.kind == CandidateKind::ColorModel <==> record.kind == 5
            &&& offer.kind == CandidateKind::TikzLibrary <==> record.kind == 6
            &&& offer.kind == CandidateKind::ArgumentEnum <==> record.kind == 7
        }),
{
}

} // verus!
