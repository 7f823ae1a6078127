//! Strings as sequences of characters: their length in UTF-8 and UTF-16, the cut
//! at a byte offset, and the small scans that completion makes over typed text.

use vstd::prelude::*;
use vstd::string::*;
use vstd::utf8::*;

verus! {

/// The number of bytes that UTF-8 takes for `c`.
pub open spec fn utf8_width(c: char) -> nat {
    if (c as u32) < 0x80 {
        1
    } else if (c as u32) < 0x800 {
        2
    } else if (c as u32) < 0x10000 {
        3
    } else {
        4
    }
}

/// The number of code units that UTF-16 takes for `c`.
pub open spec fn utf16_width(c: char) -> nat {
    if (c as u32) < 0x10000 {
        1
    } else {
        2
    }
}

/// The length of `s` in UTF-8 bytes.
pub open spec fn utf8_len(s: Seq<char>) -> nat
    decreases s.len(),
{
    if s.len() == 0 {
        0
    } else {
        utf8_len(s.drop_last()) + utf8_width(s.last())
    }
}

/// The length of `s` in UTF-16 code units.
pub open spec fn utf16_len(s: Seq<char>) -> nat
    decreases s.len(),
{
    if s.len() == 0 {
        0
    } else {
        utf16_len(s.drop_last()) + utf16_width(s.last())
    }
}

/// Both lengths are additive over concatenation.
pub proof fn lemma_len_concat(a: Seq<char>, b: Seq<char>)
    ensures
        utf8_len(a + b) == utf8_len(a) + utf8_len(b),
        utf16_len(a + b) == utf16_len(a) + utf16_len(b),
    decreases b.len(),
{
    if b.len() == 0 {
        assert(a + b =~= a);
    } else {
        lemma_len_concat(a, b.drop_last());
        assert((a + b).drop_last() =~= a + b.drop_last());
    }
}

/// The lengths of a single character.
pub proof fn lemma_single_len(c: char)
    ensures
        utf8_len(seq![c]) == utf8_width(c),
        utf16_len(seq![c]) == utf16_width(c),
{
    assert(seq![c].drop_last() =~= Seq::<char>::empty());
    assert(utf8_len(Seq::<char>::empty()) == 0);
    assert(utf16_len(Seq::<char>::empty()) == 0);
    assert(seq![c].last() == c);
}

/// A longer prefix is longer in UTF-8 and in UTF-16, by at least one unit per
/// character.
pub proof fn lemma_prefix_len(s: Seq<char>, j: int, k: int)
    requires
        0 <= j <= k <= s.len(),
    ensures
        utf8_len(s.take(j)) + (k - j) <= utf8_len(s.take(k)),
        utf16_len(s.take(j)) + (k - j) <= utf16_len(s.take(k)),
    decreases k - j,
{
    if j < k {
        lemma_prefix_len(s, j, k - 1);
        assert(s.take(k).drop_last() =~= s.take(k - 1));
    }
}

/// A text has no more characters than UTF-16 code units, and no more of those than
/// bytes.
pub proof fn lemma_utf16_within_utf8(s: Seq<char>)
    ensures
        s.len() <= utf16_len(s) <= utf8_len(s),
    decreases s.len(),
{
    if s.len() > 0 {
        lemma_utf16_within_utf8(s.drop_last());
    }
}

/// `utf8_len` is the length of the encoding.
pub proof fn lemma_utf8_len_encoded(s: Seq<char>)
    ensures
        encode_utf8(s).len() == utf8_len(s),
    decreases s.len(),
{
    if s.len() > 0 {
        let rest = s.drop_first();
        lemma_utf8_len_encoded(rest);
        assert(s =~= seq![s[0]] + rest);
        lemma_len_concat(seq![s[0]], rest);
        lemma_single_len(s[0]);
        char_is_scalar(s[0]);
        assert(encode_scalar(s[0] as u32).len() == utf8_width(s[0]));
    }
}

/// The length of `s` in bytes.
pub fn byte_len(s: &str) -> (n: usize)
    ensures
        n == utf8_len(s@),
{
    proof {
        lemma_utf8_len_encoded(s@);
    }
    s.as_bytes().len()
}

/// The UTF-8 width of one character.
pub fn utf8_width_of(c: char) -> (n: usize)
    ensures
        n == utf8_width(c),
{
    let code: u32 = c as u32;
    if code < 0x80 {
        1
    } else if code < 0x800 {
        2
    } else if code < 0x10000 {
        3
    } else {
        4
    }
}

/// The UTF-16 width of one character.
pub fn utf16_width_of(c: char) -> (n: usize)
    ensures
        n == utf16_width(c),
{
    let code: u32 = c as u32;
    if code < 0x10000 {
        1
    } else {
        2
    }
}

/// Byte `n` of `s` is a character boundary, the one in front of character `k`.
pub open spec fn boundary_at(s: Seq<char>, k: int, n: int) -> bool {
    0 <= k <= s.len() && utf8_len(s.take(k)) == n
}

/// Byte `n` of `s` is a character boundary.
pub open spec fn is_boundary(s: Seq<char>, n: int) -> bool {
    exists|k: int| boundary_at(s, k, n)
}

/// What of `s` lies in front of byte `n`, or all of `s` when byte `n` is no
/// character boundary.
pub open spec fn cut_at_byte(s: Seq<char>, n: int) -> Seq<char> {
    if is_boundary(s, n) {
        s.take(choose|k: int| boundary_at(s, k, n))
    } else {
        s
    }
}

/// A byte offset is the boundary in front of at most one character.
pub proof fn lemma_boundary_unique(s: Seq<char>, j: int, k: int, n: int)
    requires
        boundary_at(s, j, n),
        boundary_at(s, k, n),
    ensures
        j == k,
{
    if j < k {
        lemma_prefix_len(s, j, k);
    } else if k < j {
        lemma_prefix_len(s, k, j);
    }
}

/// The part of `s` in front of byte `n`, or all of it when `n` is no boundary.
pub fn take_bytes(s: &str, n: usize) -> (r: &str)
    ensures
        r@ == cut_at_byte(s@, n as int),
{
    let mut chars: usize = 0;
    let mut bytes: usize = 0;
    let total: usize = byte_len(s);
    proof {
        assert(s@.take(0) =~= Seq::<char>::empty());
    }
    if n > total {
        proof {
            assert forall|k: int| !boundary_at(s@, k, n as int) by {
                if 0 <= k <= s@.len() {
                    lemma_prefix_len(s@, k, s@.len() as int);
                    assert(s@.take(s@.len() as int) =~= s@);
                }
            }
        }
        return s;
    }
    for c in it: s.chars()
        invariant
            it.seq() == s@,
            chars == it.index(),
            bytes == utf8_len(s@.take(it.index())),
            chars <= bytes <= n <= total,
            total == utf8_len(s@),
            forall|k: int| 0 <= k < it.index() ==> #[trigger] utf8_len(s@.take(k)) < n,
    {
        proof {
            let k = it.index();
            assert(s@.take(k + 1).drop_last() =~= s@.take(k));
            assert(s@.take(k + 1).last() == c);
            lemma_prefix_len(s@, k + 1, s@.len() as int);
            assert(s@.take(s@.len() as int) =~= s@);
            lemma_prefix_len(s@, k, k + 1);
        }
        if bytes == n {
            proof {
                assert(boundary_at(s@, chars as int, n as int));
                let k = choose|k: int| boundary_at(s@, k, n as int);
                lemma_boundary_unique(s@, k, chars as int, n as int);
            }
            return s.substring_char(0, chars);
        }
        let next: usize = bytes + utf8_width_of(c);
        if next > n {
            proof {
                let here = it.index();
                assert forall|k: int| !boundary_at(s@, k, n as int) by {
                    if here + 1 <= k <= s@.len() {
                        lemma_prefix_len(s@, here + 1, k);
                    }
                }
            }
            return s;
        }
        bytes = next;
        chars = chars + 1;
    }
    proof {
        assert(s@.take(s@.len() as int) =~= s@);
        assert(bytes == n);
        assert(boundary_at(s@, s@.len() as int, n as int));
        let k = choose|k: int| boundary_at(s@, k, n as int);
        lemma_boundary_unique(s@, k, s@.len() as int, n as int);
    }
    s
}

/// The two strings hold the same characters.
pub fn same_text(a: &str, b: &str) -> (r: bool)
    ensures
        r == (a@ == b@),
{
    let mut left = a.chars();
    let mut right = b.chars();
    let ghost mut k: int = 0;
    proof {
        assert(a@.skip(0) =~= a@);
        assert(b@.skip(0) =~= b@);
    }
    loop
        invariant
            0 <= k <= a@.len(),
            k <= b@.len(),
            vstd::std_specs::iter::IteratorSpec::remaining(&left) == a@.skip(k),
            vstd::std_specs::iter::IteratorSpec::remaining(&right) == b@.skip(k),
            a@.take(k) =~= b@.take(k),
        decreases a@.len() - k,
    {
        match (left.next(), right.next()) {
            (None, None) => {
                proof {
                    assert(a@.take(k) =~= a@);
                    assert(b@.take(k) =~= b@);
                }
                return true;
            },
            (Some(c), Some(d)) => {
                if c != d {
                    proof {
                        assert(a@[k] != b@[k]);
                    }
                    return false;
                }
                proof {
                    assert(a@.skip(k).drop_first() =~= a@.skip(k + 1));
                    assert(b@.skip(k).drop_first() =~= b@.skip(k + 1));
                    k = k + 1;
                }
            },
            _ => {
                return false;
            },
        }
    }
}

/// `s` starts with `prefix`.
pub fn has_prefix(s: &str, prefix: &str) -> (r: bool)
    ensures
        r == prefix@.is_prefix_of(s@),
{
    let mut left = s.chars();
    let mut right = prefix.chars();
    let ghost mut k: int = 0;
    proof {
        assert(s@.skip(0) =~= s@);
        assert(prefix@.skip(0) =~= prefix@);
    }
    loop
        invariant
            0 <= k <= prefix@.len(),
            k <= s@.len(),
            vstd::std_specs::iter::IteratorSpec::remaining(&left) == s@.skip(k),
            vstd::std_specs::iter::IteratorSpec::remaining(&right) == prefix@.skip(k),
            s@.take(k) =~= prefix@.take(k),
        decreases prefix@.len() - k,
    {
        match right.next() {
            None => {
                proof {
                    assert(prefix@.take(k) =~= prefix@);
                    assert(s@.subrange(0, k) =~= s@.take(k));
                }
                return true;
            },
            Some(d) => {
                match left.next() {
                    None => {
                        return false;
                    },
                    Some(c) => {
                        if c != d {
                            proof {
                                assert(prefix@[k] == d);
                                if prefix@.is_prefix_of(s@) {
                                    assert(s@.subrange(0, prefix@.len() as int)[k] == c);
                                }
                            }
                            return false;
                        }
                        proof {
                            assert(s@.skip(k).drop_first() =~= s@.skip(k + 1));
                            assert(prefix@.skip(k).drop_first() =~= prefix@.skip(k + 1));
                            k = k + 1;
                        }
                    },
                }
            },
        }
    }
}

/// `s` without the longest run of leading characters of which `p` holds.
pub open spec fn drop_leading(s: Seq<char>, p: spec_fn(char) -> bool) -> Seq<char>
    decreases s.len(),
{
    if s.len() > 0 && p(s[0]) {
        drop_leading(s.drop_first(), p)
    } else {
        s
    }
}

/// `drop_leading` stops right behind the first `k` characters when `p` holds of
/// each of them and of no character that follows them directly.
pub proof fn lemma_drop_leading(s: Seq<char>, p: spec_fn(char) -> bool, k: int)
    requires
        0 <= k <= s.len(),
        forall|i: int| 0 <= i < k ==> p(#[trigger] s[i]),
        k < s.len() ==> !p(s[k]),
    ensures
        drop_leading(s, p) == s.skip(k),
    decreases s.len(),
{
    if k > 0 {
        assert(p(s[0]));
        let rest = s.drop_first();
        assert forall|i: int| 0 <= i < k - 1 implies p(#[trigger] rest[i]) by {
            assert(rest[i] == s[i + 1]);
        }
        lemma_drop_leading(rest, p, k - 1);
        assert(rest.skip(k - 1) =~= s.skip(k));
    } else {
        assert(s.skip(0) =~= s);
    }
}

/// The characters with the Unicode property `White_Space`.
pub open spec fn white_space(c: char) -> bool {
    let code = c as u32;
    ||| 0x9 <= code <= 0xd
    ||| code == 0x20
    ||| code == 0x85
    ||| code == 0xa0
    ||| code == 0x1680
    ||| 0x2000 <= code <= 0x200a
    ||| code == 0x2028
    ||| code == 0x2029
    ||| code == 0x202f
    ||| code == 0x205f
    ||| code == 0x3000
}

/// Whether `c` has the Unicode property `White_Space`.
pub fn is_white_space(c: char) -> (r: bool)
    ensures
        r == white_space(c),
{
    let code: u32 = c as u32;
    (0x9 <= code && code <= 0xd) || code == 0x20 || code == 0x85 || code == 0xa0 || code == 0x1680
        || (0x2000 <= code && code <= 0x200a) || code == 0x2028 || code == 0x2029 || code == 0x202f
        || code == 0x205f || code == 0x3000
}

/// `s` without leading white space.
pub open spec fn trimmed_start(s: Seq<char>) -> Seq<char> {
    drop_leading(s, |c: char| white_space(c))
}

/// `s` without leading white space.
pub fn trim_start(s: &str) -> (r: &str)
    ensures
        r@ == trimmed_start(s@),
{
    let total: usize = s.unicode_len();
    let mut k: usize = 0;
    for c in it: s.chars()
        invariant
            it.seq() == s@,
            total == s@.len(),
            k == it.index(),
            forall|i: int| 0 <= i < k ==> white_space(#[trigger] s@[i]),
    {
        if !is_white_space(c) {
            proof {
                lemma_drop_leading(s@, |c: char| white_space(c), k as int);
            }
            return s.substring_char(k, total);
        }
        k = k + 1;
    }
    proof {
        lemma_drop_leading(s@, |c: char| white_space(c), k as int);
    }
    s.substring_char(total, total)
}

/// `s` without leading backslashes.
pub open spec fn without_backslashes(s: Seq<char>) -> Seq<char> {
    drop_leading(s, |c: char| c == '\\')
}

/// `s` without leading backslashes.
pub fn trim_backslashes(s: &str) -> (r: &str)
    ensures
        r@ == without_backslashes(s@),
{
    let total: usize = s.unicode_len();
    let mut k: usize = 0;
    for c in it: s.chars()
        invariant
            it.seq() == s@,
            total == s@.len(),
            k == it.index(),
            forall|i: int| 0 <= i < k ==> #[trigger] s@[i] == '\\',
    {
        if c != '\\' {
            proof {
                lemma_drop_leading(s@, |c: char| c == '\\', k as int);
            }
            return s.substring_char(k, total);
        }
        k = k + 1;
    }
    proof {
        lemma_drop_leading(s@, |c: char| c == '\\', k as int);
    }
    s.substring_char(total, total)
}

/// What follows the last comma of `s`, or all of `s` when it holds none.
pub open spec fn after_last_comma(s: Seq<char>) -> Seq<char>
    decreases s.len(),
{
    if s.len() == 0 || s.last() == ',' {
        Seq::empty()
    } else {
        after_last_comma(s.drop_last()).push(s.last())
    }
}

/// What follows the last comma of `s`, or all of `s` when it holds none.
pub fn last_list_item(s: &str) -> (r: &str)
    ensures
        r@ == after_last_comma(s@),
{
    let total: usize = s.unicode_len();
    let mut start: usize = 0;
    let mut k: usize = 0;
    proof {
        assert(s@.subrange(0, 0) =~= Seq::<char>::empty());
        assert(s@.take(0) =~= Seq::<char>::empty());
    }
    for c in it: s.chars()
        invariant
            it.seq() == s@,
            total == s@.len(),
            k == it.index(),
            0 <= start <= k,
            s@.subrange(start as int, k as int) == after_last_comma(s@.take(k as int)),
    {
        proof {
            assert(s@.take(k + 1).drop_last() =~= s@.take(k as int));
            assert(s@.take(k + 1).last() == c);
            assert(s@.subrange(start as int, k + 1) =~= s@.subrange(start as int, k as int).push(c));
            assert(s@.subrange(k + 1, k + 1) =~= Seq::<char>::empty());
        }
        k = k + 1;
        if c == ',' {
            start = k;
        }
    }
    proof {
        assert(s@.take(s@.len() as int) =~= s@);
    }
    s.substring_char(start, total)
}

} // verus!
