//! Laws of the questions that a cursor position asks.

use vstd::prelude::*;

use crate::completion::context;
use crate::completion::Asked;
use crate::semantic::model;
use crate::syntax;
use crate::syntax::SyntaxKind;
use crate::text;

verus! {

/// Element `i` is a brace group whose parent is element `p`.
pub open spec fn group_below(t: Seq<syntax::Node>, p: int, i: int) -> bool {
    &&& t[i].parent == Some(p)
    &&& t[i].kind == SyntaxKind::GROUP
    &&& !t[i].token
}

/// `groups` are the brace groups whose parent is element `p`, from the first to the last.
pub open spec fn lists_groups(t: Seq<syntax::Node>, p: int, groups: Seq<int>) -> bool {
    &&& forall|k: int|
        0 <= k < groups.len() ==> 0 <= #[trigger] groups[k] < t.len() && group_below(
            t,
            p,
            groups[k],
        )
    &&& forall|j: int, k: int|
        0 <= j < k < groups.len() ==> #[trigger] groups[j] < #[trigger] groups[k]
    &&& forall|i: int|
        0 <= i < t.len() && #[trigger] group_below(t, p, i) ==> groups.contains(i)
}

/// Where no group of a command lies between two positions, as many groups lie in front
/// of the one as of the other.
proof fn lemma_no_group_between(t: Seq<syntax::Node>, p: int, m: int, n: int)
    requires
        0 <= m <= n,
        forall|i: int| m <= i < n ==> !#[trigger] group_below(t, p, i),
    ensures
        context::groups_before(t, p, n) == context::groups_before(t, p, m),
    decreases n - m,
{
    if m < n {
        assert(!group_below(t, p, n - 1));
        lemma_no_group_between(t, p, m, n - 1);
    }
}

/// The further back, the more groups lie in front.
proof fn lemma_groups_grow(t: Seq<syntax::Node>, p: int, m: int, n: int)
    requires
        0 <= m <= n,
    ensures
        context::groups_before(t, p, m) <= context::groups_before(t, p, n),
    decreases n - m,
{
    if m < n {
        lemma_groups_grow(t, p, m, n - 1);
    }
}

/// The first group of a command has index 0, each next group has the index behind that
/// of the one before it, and so no two groups of a command share an index.
pub proof fn law_group_indices(t: Seq<syntax::Node>, p: int, g: int, h: int)
    requires
        0 <= g < h < t.len(),
        group_below(t, p, g),
        group_below(t, p, h),
    ensures
        (forall|i: int| 0 <= i < g ==> !#[trigger] group_below(t, p, i)) ==> context::groups_before(
            t,
            p,
            g,
        ) == 0,
        (forall|i: int| g < i < h ==> !#[trigger] group_below(t, p, i)) ==> context::groups_before(
            t,
            p,
            h,
        ) == context::groups_before(t, p, g) + 1,
        context::groups_before(t, p, g) < context::groups_before(t, p, h),
{
    if forall|i: int| 0 <= i < g ==> !#[trigger] group_below(t, p, i) {
        lemma_no_group_between(t, p, 0, g);
    }
    if forall|i: int| g < i < h ==> !#[trigger] group_below(t, p, i) {
        lemma_no_group_between(t, p, g + 1, h);
    }
    assert(context::groups_before(t, p, g + 1) == context::groups_before(t, p, g) + 1);
    lemma_groups_grow(t, p, g + 1, h);
}

/// The index of a group is its place in the list of the groups of its command.
pub proof fn law_group_place(t: Seq<syntax::Node>, p: int, groups: Seq<int>, k: int)
    requires
        lists_groups(t, p, groups),
        0 <= k < groups.len(),
    ensures
        context::groups_before(t, p, groups[k]) == k,
    decreases k,
{
    let from = if k == 0 {
        0
    } else {
        law_group_place(t, p, groups, k - 1);
        assert(groups[k - 1] < groups[k]);
        groups[k - 1] + 1
    };
    assert forall|i: int| from <= i < groups[k] implies !#[trigger] group_below(t, p, i) by {
        if group_below(t, p, i) {
            let j = choose|j: int| 0 <= j < groups.len() && groups[j] == i;
            if j < k - 1 {
                assert(groups[j] < groups[k - 1]);
            }
            if k < j {
                assert(groups[k] < groups[j]);
            }
        }
    }
    lemma_no_group_between(t, p, from, groups[k]);
    if k > 0 {
        assert(group_below(t, p, groups[k - 1]));
        assert(context::groups_before(t, p, from) == context::groups_before(t, p, groups[k - 1])
            + 1);
    }
}

/// `path` leads from element `i` upwards, from parent to parent.
pub open spec fn leads_up(t: Seq<syntax::Node>, i: int, path: Seq<int>) -> bool {
    &&& path.len() > 0
    &&& path[0] == i
    &&& forall|k: int| 0 <= k < path.len() ==> 0 <= #[trigger] path[k] < t.len()
    &&& forall|k: int|
        0 <= k < path.len() - 1 ==> t[#[trigger] path[k]].parent == Some(path[k + 1]) && path[k + 1]
            < path[k]
}

/// Element `i` is a group, or a group around a name.
pub open spec fn any_group(t: Seq<syntax::Node>, i: int) -> bool {
    t[i].kind == SyntaxKind::GROUP || t[i].kind == SyntaxKind::NAME_GROUP
}

/// Element `i` is a node beyond which no group is looked for.
pub open spec fn barrier(t: Seq<syntax::Node>, i: int) -> bool {
    ||| t[i].kind == SyntaxKind::COMMAND
    ||| t[i].kind == SyntaxKind::BEGIN
    ||| t[i].kind == SyntaxKind::END
    ||| t[i].kind == SyntaxKind::ENVIRONMENT
    ||| t[i].kind == SyntaxKind::ROOT
}

/// The group around an element is the first group on the way up from it. There is none
/// when a command, an environment or the root comes first, or when the way ends.
pub proof fn law_group_found(t: Seq<syntax::Node>, i: int, path: Seq<int>)
    requires
        leads_up(t, i, path),
        forall|k: int|
            0 < k < path.len() - 1 ==> !any_group(t, #[trigger] path[k]) && !barrier(t, path[k]),
    ensures
        path.len() > 1 && any_group(t, path.last()) ==> context::group_around(t, i) == Some(
            path.last(),
        ),
        path.len() > 1 && barrier(t, path.last()) ==> context::group_around(t, i) is None,
        t[path.last()].parent is None && (path.len() == 1 || !any_group(t, path.last()))
            ==> context::group_around(t, i) is None,
    decreases path.len(),
{
    if path.len() > 1 {
        let rest = path.drop_first();
        assert(t[path[0]].parent == Some(path[1]));
        assert forall|k: int| 0 <= k < rest.len() implies 0 <= #[trigger] rest[k] < t.len() by {
            assert(0 <= path[k + 1] < t.len());
        }
        assert forall|k: int| 0 <= k < rest.len() - 1 implies t[#[trigger] rest[k]].parent == Some(
            rest[k + 1],
        ) && rest[k + 1] < rest[k] by {
            assert(t[path[k + 1]].parent == Some(path[k + 2]));
        }
        assert forall|k: int| 0 < k < rest.len() - 1 implies !any_group(t, #[trigger] rest[k])
            && !barrier(t, rest[k]) by {
            assert(!any_group(t, path[k + 1]));
        }
        assert(0 <= path[1] < t.len());
        law_group_found(t, path[1], rest);
        assert(rest.last() == path.last());
    } else {
        assert(syntax::parent_of(t, i) == -1 || t[i].parent is Some);
    }
}

/// A row of backslashes.
pub open spec fn backslashes(count: nat) -> Seq<char> {
    Seq::new(count, |i: int| '\\')
}

/// `text` is `name` behind backslashes, of which `name` itself starts with none.
pub open spec fn names_command(text: Seq<char>, count: nat, name: Seq<char>) -> bool {
    &&& text == backslashes(count) + name
    &&& name.len() > 0 ==> name[0] != '\\'
}

/// What is left of such a text without backslashes.
proof fn lemma_names_command(text: Seq<char>, count: nat, name: Seq<char>)
    requires
        names_command(text, count, name),
    ensures
        text::without_backslashes(text) == name,
{
    text::lemma_drop_leading(text, |c: char| c == '\\', count as int);
    assert(text.skip(count as int) =~= name);
}

/// Element `i` is a control word whose parent is element `p`.
pub open spec fn control_word_below(t: Seq<syntax::Node>, p: int, i: int) -> bool {
    &&& t[i].parent == Some(p)
    &&& t[i].kind == SyntaxKind::CONTROL_WORD
    &&& t[i].token
}

/// A command without a control word among the first elements has no name among them.
proof fn lemma_no_name(t: Seq<syntax::Node>, p: int, n: int)
    requires
        forall|i: int| 0 <= i < n ==> !#[trigger] control_word_below(t, p, i),
    ensures
        context::name_upto(t, p, n) is None,
    decreases n,
{
    if n > 0 {
        lemma_no_name(t, p, n - 1);
        assert(!control_word_below(t, p, n - 1));
    }
}

/// Once found, a name stays found.
proof fn lemma_name_stays(t: Seq<syntax::Node>, p: int, m: int, n: int)
    requires
        0 <= m <= n,
        context::name_upto(t, p, m) is Some,
    ensures
        context::name_upto(t, p, n) == context::name_upto(t, p, m),
    decreases n - m,
{
    if m < n {
        lemma_name_stays(t, p, m, n - 1);
    }
}

/// A command is named by its first control word, without the backslashes in front; one
/// without a control word has no name.
pub proof fn law_command_name(t: Seq<syntax::Node>, p: int, w: int, count: nat, name: Seq<char>)
    ensures
        0 <= w < t.len() && control_word_below(t, p, w) && (forall|i: int|
            0 <= i < w ==> !#[trigger] control_word_below(t, p, i)) && names_command(
            t[w].text,
            count,
            name,
        ) ==> context::name_of(t, p) == Some(name),
        (forall|i: int| 0 <= i < t.len() ==> !#[trigger] control_word_below(t, p, i))
            ==> context::name_of(t, p) is None,
{
    if 0 <= w < t.len() && control_word_below(t, p, w) && (forall|i: int|
        0 <= i < w ==> !#[trigger] control_word_below(t, p, i)) && names_command(
        t[w].text,
        count,
        name,
    ) {
        lemma_no_name(t, p, w);
        lemma_names_command(t[w].text, count, name);
        assert(context::name_upto(t, p, w + 1) == Some(name));
        lemma_name_stays(t, p, w + 1, t.len() as int);
    }
    if forall|i: int| 0 <= i < t.len() ==> !#[trigger] control_word_below(t, p, i) {
        lemma_no_name(t, p, t.len() as int);
    }
}

/// `part` is what lies in front of byte `n` of `text`; where `n` is inside a character,
/// it is all of the text.
pub open spec fn lies_in_front(part: Seq<char>, text: Seq<char>, n: int) -> bool {
    ||| part.is_prefix_of(text) && text::utf8_len(part) == n
    ||| part == text && forall|k: int|
        0 <= k <= text.len() ==> text::utf8_len(#[trigger] text.take(k)) != n
}

/// What lies in front of a byte is what the cut there leaves.
proof fn lemma_lies_in_front(part: Seq<char>, text: Seq<char>, n: int)
    requires
        lies_in_front(part, text, n),
    ensures
        text::cut_at_byte(text, n) == part,
{
    if part.is_prefix_of(text) && text::utf8_len(part) == n {
        let k = part.len() as int;
        assert(text.take(k) =~= part);
        assert(text::boundary_at(text, k, n));
        let j = choose|j: int| text::boundary_at(text, j, n);
        text::lemma_boundary_unique(text, j, k, n);
    } else if exists|k: int| text::boundary_at(text, k, n) {
        let k = choose|k: int| text::boundary_at(text, k, n);
        assert(text::utf8_len(text.take(k)) == n);
    }
}

/// A cursor in a control word, behind its first character, asks for the command whose
/// name starts with what stands between the backslashes and the cursor.
pub proof fn law_command_question(
    t: Seq<syntax::Node>,
    i: int,
    offset: int,
    part: Seq<char>,
    count: nat,
    prefix: Seq<char>,
)
    requires
        t[i].kind == SyntaxKind::CONTROL_WORD,
        syntax::start_of(t, i) < offset <= syntax::end_of(t, i),
        lies_in_front(part, t[i].text, offset - syntax::start_of(t, i)),
        names_command(part, count, prefix),
    ensures
        context::command_name_asked(t, i, offset) == Some(Asked::CommandName { prefix }),
{
    lemma_lies_in_front(part, t[i].text, offset - syntax::start_of(t, i));
    lemma_names_command(part, count, prefix);
}

/// A cursor right behind a backslash that stands alone asks for any command. In no other
/// symbol, in no token that is no control word, and nowhere outside a control word does
/// it ask for a command.
pub proof fn law_command_question_alone(t: Seq<syntax::Node>, i: int, offset: int)
    ensures
        t[i].kind == SyntaxKind::CONTROL_SYMBOL && t[i].text == seq!['\\'] && offset
            == syntax::end_of(t, i) ==> context::command_name_asked(t, i, offset) == Some(
            Asked::CommandName { prefix: Seq::empty() },
        ),
        t[i].kind == SyntaxKind::CONTROL_SYMBOL && (t[i].text != seq!['\\'] || offset
            != syntax::end_of(t, i)) ==> context::command_name_asked(t, i, offset) is None,
        t[i].kind == SyntaxKind::CONTROL_WORD && !(syntax::start_of(t, i) < offset
            <= syntax::end_of(t, i)) ==> context::command_name_asked(t, i, offset) is None,
        t[i].kind != SyntaxKind::CONTROL_SYMBOL && t[i].kind != SyntaxKind::CONTROL_WORD
            ==> context::command_name_asked(t, i, offset) is None,
{
    reveal_strlit("\\");
    assert("\\"@ =~= seq!['\\']);
}

/// Element `i` is a token in group `g`, and no brace of the group itself.
pub open spec fn inner_token(t: Seq<syntax::Node>, g: int, i: int) -> bool {
    &&& g < i < syntax::subtree_end(t, g)
    &&& t[i].token
    &&& !(t[i].parent == Some(g) && (t[i].kind == SyntaxKind::L_BRACE || t[i].kind
        == SyntaxKind::R_BRACE))
}

/// `inner` are the tokens of group `g` among the first `n` elements, from the first to
/// the last.
pub open spec fn lists_inner(t: Seq<syntax::Node>, g: int, n: int, inner: Seq<int>) -> bool {
    &&& forall|k: int|
        0 <= k < inner.len() ==> 0 <= #[trigger] inner[k] < n && inner_token(t, g, inner[k])
    &&& forall|j: int, k: int|
        0 <= j < k < inner.len() ==> #[trigger] inner[j] < #[trigger] inner[k]
    &&& forall|i: int| 0 <= i < n && #[trigger] inner_token(t, g, i) ==> inner.contains(i)
}

/// `part` is what stands of token `i` in front of byte `offset`.
pub open spec fn stands_in_front(t: Seq<syntax::Node>, i: int, offset: int, part: Seq<char>) -> bool {
    let start = syntax::start_of(t, i);
    &&& syntax::end_of(t, i) <= offset ==> part == t[i].text
    &&& start < offset < syntax::end_of(t, i) ==> lies_in_front(part, t[i].text, offset - start)
    &&& offset <= start && offset < syntax::end_of(t, i) ==> part.len() == 0
}

/// The texts, one behind the other.
pub open spec fn joined(parts: Seq<Seq<char>>) -> Seq<char>
    decreases parts.len(),
{
    if parts.len() == 0 {
        Seq::empty()
    } else {
        joined(parts.drop_last()) + parts.last()
    }
}

/// What has been typed in a group is what stands of its tokens in front of the cursor,
/// one behind the other; its own braces do not count.
pub proof fn law_typed_parts(
    t: Seq<syntax::Node>,
    g: int,
    offset: int,
    inner: Seq<int>,
    parts: Seq<Seq<char>>,
)
    requires
        lists_inner(t, g, t.len() as int, inner),
        parts.len() == inner.len(),
        forall|k: int|
            0 <= k < inner.len() ==> stands_in_front(t, #[trigger] inner[k], offset, parts[k]),
    ensures
        context::typed_in(t, g, offset) == joined(parts),
{
    lemma_typed_parts(t, g, offset, t.len() as int, inner, parts);
}

/// What has been typed among the first `n` elements.
proof fn lemma_typed_parts(
    t: Seq<syntax::Node>,
    g: int,
    offset: int,
    n: int,
    inner: Seq<int>,
    parts: Seq<Seq<char>>,
)
    requires
        n >= 0,
        lists_inner(t, g, n, inner),
        parts.len() == inner.len(),
        forall|k: int|
            0 <= k < inner.len() ==> stands_in_front(t, #[trigger] inner[k], offset, parts[k]),
    ensures
        context::typed_upto(t, g, offset, n) == joined(parts),
    decreases n,
{
    if n == 0 {
        if inner.len() > 0 {
            assert(0 <= inner[0] < n);
        }
    } else if inner_token(t, g, n - 1) {
        let last = inner.len() - 1;
        let k = choose|k: int| 0 <= k < inner.len() && inner[k] == n - 1;
        if k < last {
            assert(inner[k] < inner[last]);
        }
        let fewer = inner.drop_last();
        let less = parts.drop_last();
        assert forall|i: int| 0 <= i < n - 1 && #[trigger] inner_token(t, g, i) implies fewer.contains(
            i,
        ) by {
            let j = choose|j: int| 0 <= j < inner.len() && inner[j] == i;
            assert(fewer[j] == i);
        }
        assert forall|j: int| 0 <= j < fewer.len() implies 0 <= #[trigger] fewer[j] < n - 1
            && inner_token(t, g, fewer[j]) by {
            assert(inner[j] < inner[last]);
        }
        assert forall|i: int, j: int| 0 <= i < j < fewer.len() implies #[trigger] fewer[i]
            < #[trigger] fewer[j] by {
            assert(inner[i] < inner[j]);
        }
        assert forall|j: int| 0 <= j < fewer.len() implies stands_in_front(
            t,
            #[trigger] fewer[j],
            offset,
            less[j],
        ) by {
            assert(stands_in_front(t, inner[j], offset, parts[j]));
        }
        lemma_typed_parts(t, g, offset, n - 1, fewer, less);
        assert(stands_in_front(t, inner[last], offset, parts[last]));
        let start = syntax::start_of(t, n - 1) as int;
        if start < offset < syntax::end_of(t, n - 1) {
            lemma_lies_in_front(parts[last], t[n - 1].text, offset - start);
        }
        assert(context::typed_part(t, g, offset, n - 1) =~= parts.last());
    } else {
        assert forall|k: int| 0 <= k < inner.len() implies 0 <= #[trigger] inner[k] < n - 1
            && inner_token(t, g, inner[k]) by {
            assert(inner_token(t, g, inner[k]));
        }
        lemma_typed_parts(t, g, offset, n - 1, inner, parts);
        let typed = context::typed_upto(t, g, offset, n - 1);
        assert(context::typed_part(t, g, offset, n - 1) =~= Seq::<char>::empty());
        assert(typed + Seq::<char>::empty() =~= typed);
    }
}

/// A group below `\begin` asks for an environment to open, one below `\end` for one to
/// close, and what has been typed in it is what has been typed of the name.
pub proof fn law_environment_question(
    t: Seq<syntax::Node>,
    i: int,
    g: int,
    p: int,
    offset: int,
    keys: model::KeyNames,
    enums: Seq<(Seq<char>, Seq<(usize, Seq<Seq<char>>)>)>,
)
    requires
        context::group_around(t, i) == Some(g),
        t[g].parent == Some(p),
        t[g].kind == SyntaxKind::NAME_GROUP,
    ensures
        ({
            let prefix = context::typed_in(t, g, offset);
            let asked = context::group_asked(t, i, offset, keys, enums);
            &&& t[p].kind == SyntaxKind::BEGIN ==> asked == Some(
                Asked::EnvironmentName { prefix, closing: false },
            )
            &&& t[p].kind == SyntaxKind::END ==> asked == Some(
                Asked::EnvironmentName { prefix, closing: true },
            )
            &&& t[p].kind != SyntaxKind::BEGIN && t[p].kind != SyntaxKind::END ==> asked is None
        }),
{
}

/// The group at place `k` of a command asks for what the command takes there.
pub proof fn law_argument_question(
    t: Seq<syntax::Node>,
    i: int,
    p: int,
    groups: Seq<int>,
    k: int,
    offset: int,
    keys: model::KeyNames,
    enums: Seq<(Seq<char>, Seq<(usize, Seq<Seq<char>>)>)>,
)
    requires
        lists_groups(t, p, groups),
        0 <= k < groups.len(),
        k <= usize::MAX,
        context::group_around(t, i) == Some(groups[k]),
        t[p].kind == SyntaxKind::COMMAND,
    ensures
        context::group_asked(t, i, offset, keys, enums) == (match context::name_of(t, p) {
            Some(name) => context::argument_asked(
                name,
                k as usize,
                context::typed_in(t, groups[k], offset),
                keys,
                enums,
            ),
            None => None,
        }),
{
    assert(group_below(t, p, groups[k]));
    law_group_place(t, p, groups, k);
}

/// Nothing is asked for where no group is around, in a group without a parent, and in
/// one that is no argument of a command and no name of an environment.
pub proof fn law_no_question(
    t: Seq<syntax::Node>,
    i: int,
    offset: int,
    keys: model::KeyNames,
    enums: Seq<(Seq<char>, Seq<(usize, Seq<Seq<char>>)>)>,
)
    ensures
        context::group_around(t, i) is None ==> context::group_asked(
            t,
            i,
            offset,
            keys,
            enums,
        ) is None,
        context::group_around(t, i) matches Some(g) ==> {
            &&& t[g].parent is None ==> context::group_asked(t, i, offset, keys, enums) is None
            &&& t[g].parent matches Some(p) ==> t[g].kind == SyntaxKind::GROUP && t[p].kind
                != SyntaxKind::COMMAND ==> context::group_asked(
                t,
                i,
                offset,
                keys,
                enums,
            ) is None
        },
{
}

/// A command name that is being typed on the left of the cursor comes first, the group
/// around the token on the left next, and the group around the token on the right last.
/// Without tokens nothing is asked for.
pub proof fn law_question_order(
    t: Seq<syntax::Node>,
    offset: int,
    keys: model::KeyNames,
    enums: Seq<(Seq<char>, Seq<(usize, Seq<Seq<char>>)>)>,
)
    ensures
        ({
            let asked = context::asked_at(t, offset, keys, enums);
            &&& syntax::tokens_at(t, offset) is None ==> asked == Asked::Nothing
            &&& syntax::tokens_at(t, offset) matches Some((left, right)) ==> {
                let command = context::command_name_asked(t, left, offset);
                let before = context::group_asked(t, left, offset, keys, enums);
                let behind = context::group_asked(t, right, offset, keys, enums);
                &&& command is Some ==> Some(asked) == command
                &&& command is None && before is Some ==> Some(asked) == before
                &&& command is None && before is None && behind is Some ==> Some(asked) == behind
                &&& command is None && before is None && behind is None ==> asked == Asked::Nothing
            }
        }),
{
}

/// An offset that fits in 32 bits stands for itself, and a larger one for the largest
/// that does.
pub proof fn law_offsets_in_32_bits(offset: usize)
    ensures
        offset <= 0xffff_ffff ==> context::clamped(offset) == offset,
        offset > 0xffff_ffff ==> context::clamped(offset) == 0xffff_ffff,
{
}

} // verus!
