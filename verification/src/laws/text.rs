//! Laws of strings: their lengths, the cut at a byte, the scans over typed text, and
//! the order of names.

use vstd::prelude::*;

use crate::names;
use crate::text;

verus! {

/// Both lengths are zero for the empty text and add up over concatenation. In UTF-8 a
/// text is as long as its encoding; in UTF-16 a character of the basic plane takes one
/// code unit, and any other two.
pub proof fn law_lengths(a: Seq<char>, b: Seq<char>, c: char)
    ensures
        text::utf8_len(Seq::empty()) == 0,
        text::utf16_len(Seq::empty()) == 0,
        text::utf8_len(a + b) == text::utf8_len(a) + text::utf8_len(b),
        text::utf16_len(a + b) == text::utf16_len(a) + text::utf16_len(b),
        text::utf8_len(a) == vstd::utf8::encode_utf8(a).len(),
        c as u32 <= 0xffff ==> text::utf16_len(seq![c]) == 1,
        c as u32 > 0xffff ==> text::utf16_len(seq![c]) == 2,
{
    text::lemma_len_concat(a, b);
    text::lemma_utf8_len_encoded(a);
    text::lemma_single_len(c);
}

/// Cutting a text where one of its characters starts, or at its end, gives the
/// characters in front; cutting it anywhere else leaves it whole.
pub proof fn law_cut(s: Seq<char>, n: int)
    ensures
        forall|k: int|
            0 <= k <= s.len() && text::utf8_len(#[trigger] s.take(k)) == n ==> text::cut_at_byte(
                s,
                n,
            ) == s.take(k),
        (forall|k: int| 0 <= k <= s.len() ==> text::utf8_len(#[trigger] s.take(k)) != n)
            ==> text::cut_at_byte(s, n) == s,
{
    assert forall|k: int|
        0 <= k <= s.len() && text::utf8_len(#[trigger] s.take(k)) == n implies text::cut_at_byte(
        s,
        n,
    ) == s.take(k) by {
        assert(text::boundary_at(s, k, n));
        let j = choose|j: int| text::boundary_at(s, j, n);
        text::lemma_boundary_unique(s, j, k, n);
    }
}

/// Without its leading white space, a text starts right behind that.
pub proof fn law_trim(space: Seq<char>, rest: Seq<char>)
    requires
        forall|i: int| 0 <= i < space.len() ==> text::white_space(#[trigger] space[i]),
        rest.len() > 0 ==> !text::white_space(rest[0]),
    ensures
        text::trimmed_start(space + rest) == rest,
{
    let s = space + rest;
    assert forall|i: int| 0 <= i < space.len() implies text::white_space(#[trigger] s[i]) by {
        assert(s[i] == space[i]);
    }
    text::lemma_drop_leading(s, |c: char| text::white_space(c), space.len() as int);
    assert(s.skip(space.len() as int) =~= rest);
}

/// Without its leading backslashes, a text starts right behind those.
pub proof fn law_backslashes(count: nat, rest: Seq<char>)
    requires
        rest.len() > 0 ==> rest[0] != '\\',
    ensures
        text::without_backslashes(Seq::new(count, |i: int| '\\') + rest) == rest,
{
    let s = Seq::new(count, |i: int| '\\') + rest;
    text::lemma_drop_leading(s, |c: char| c == '\\', count as int);
    assert(s.skip(count as int) =~= rest);
}

/// The last item of a list is what follows its last comma, or all of it.
pub proof fn law_last_item(head: Seq<char>, item: Seq<char>)
    requires
        head.len() > 0 ==> head.last() == ',',
        !item.contains(','),
    ensures
        text::after_last_comma(head + item) == item,
    decreases item.len(),
{
    let s = head + item;
    if item.len() == 0 {
        assert(s =~= head);
        assert(item =~= Seq::<char>::empty());
    } else {
        let rest = item.drop_last();
        assert(s.drop_last() =~= head + rest);
        assert(s.last() == item.last());
        assert(item.contains(item[item.len() - 1]));
        assert forall|c: char| rest.contains(c) implies item.contains(c) by {
            let k = choose|k: int| 0 <= k < rest.len() && rest[k] == c;
            assert(item[k] == c);
        }
        law_last_item(head, rest);
        assert(rest.push(item.last()) =~= item);
    }
}

/// Names are ordered as words in a dictionary: by their first difference, and a name
/// comes before every longer one that starts with it.
pub proof fn law_name_order(
    common: Seq<char>,
    x: char,
    a: Seq<char>,
    y: char,
    b: Seq<char>,
)
    ensures
        x < y ==> names::name_lt(common + seq![x] + a, common + seq![y] + b),
        x < y ==> !names::name_lt(common + seq![y] + b, common + seq![x] + a),
        names::name_lt(common, common + seq![y] + b),
        !names::name_lt(common + seq![y] + b, common),
        !names::name_lt(common, common),
    decreases common.len(),
{
    let left = common + seq![x] + a;
    let right = common + seq![y] + b;
    if common.len() > 0 {
        let rest = common.drop_first();
        law_name_order(rest, x, a, y, b);
        assert(left.drop_first() =~= rest + seq![x] + a);
        assert(right.drop_first() =~= rest + seq![y] + b);
        assert(left[0] == common[0]);
        assert(right[0] == common[0]);
    } else {
        assert(left[0] == x);
        assert(right[0] == y);
    }
}

/// In a sorted listing a name is never followed by one that it continues, and where two
/// names first differ the earlier one has the smaller character. The listing holds
/// exactly the names that it is of.
pub proof fn law_sorted_listing(r: Seq<Seq<char>>, p: spec_fn(Seq<char>) -> bool)
    requires
        names::lists_sorted(r, p),
    ensures
        forall|n: Seq<char>| #[trigger] r.contains(n) <==> p(n),
        forall|i: int, j: int|
            0 <= i < j < r.len() ==> !(#[trigger] r[j]).is_prefix_of(#[trigger] r[i]),
        forall|i: int, j: int, k: int|
            #![trigger r[i][k], r[j][k]]
            0 <= i < j < r.len() && 0 <= k < r[i].len() && k < r[j].len() && r[i].take(k)
                == r[j].take(k) && r[i][k] != r[j][k] ==> r[i][k] < r[j][k],
{
    assert forall|i: int, j: int| 0 <= i < j < r.len() implies !(#[trigger] r[j]).is_prefix_of(
        #[trigger] r[i],
    ) by {
        let a = r[i];
        let b = r[j];
        assert(names::name_lt(a, b));
        if b.is_prefix_of(a) {
            if a.len() == b.len() {
                assert(a =~= b);
                names::lemma_name_lt_irreflexive(a);
            } else {
                let y = a[b.len() as int];
                let rest = a.skip(b.len() as int + 1);
                assert(a =~= b + seq![y] + rest);
                law_name_order(b, y, rest, y, rest);
            }
        }
    }
    assert forall|i: int, j: int, k: int|
        #![trigger r[i][k], r[j][k]]
        0 <= i < j < r.len() && 0 <= k < r[i].len() && k < r[j].len() && r[i].take(k) == r[j].take(
            k,
        ) && r[i][k] != r[j][k] implies r[i][k] < r[j][k] by {
        let a = r[i];
        let b = r[j];
        assert(names::name_lt(a, b));
        let c = a.take(k);
        assert(a =~= c + seq![a[k]] + a.skip(k + 1));
        assert(b =~= c + seq![b[k]] + b.skip(k + 1));
        if b[k] < a[k] {
            law_name_order(c, b[k], b.skip(k + 1), a[k], a.skip(k + 1));
        }
    }
}

} // verus!
