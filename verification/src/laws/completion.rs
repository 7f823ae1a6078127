//! Laws of completion.

use vstd::prelude::*;

use crate::completion;
use crate::completion::candidates;
use crate::completion::context;
use crate::completion::{Asked, CandidateKind, FileArgKind, Offer};
use crate::laws::order;
use crate::laws::tree;
use crate::names;
use crate::semantic::bundle;
use crate::semantic::bundle::{Bundle, Signatures};
use crate::semantic::model;
use crate::semantic::model::SemanticModel;
use crate::semantic::signature;
use crate::syntax;
use crate::syntax::SyntaxKind;
use crate::text;

verus! {

/// What has been typed of what is asked for.
pub open spec fn typed_of(asked: Asked) -> Seq<char> {
    match asked {
        Asked::CommandName { prefix } => prefix,
        Asked::EnvironmentName { prefix, .. } => prefix,
        Asked::LabelRef { prefix } => prefix,
        Asked::CitationKey { prefix } => prefix,
        Asked::GlossaryKey { prefix } => prefix,
        Asked::FilePath { prefix, .. } => prefix,
        Asked::PackageName { prefix, .. } => prefix,
        Asked::ColorName { prefix } => prefix,
        Asked::ColorModel { prefix } => prefix,
        Asked::TikzLibrary { prefix, .. } => prefix,
        Asked::ArgumentEnum { prefix, .. } => prefix,
        Asked::Nothing => Seq::empty(),
    }
}

/// Every candidate starts with what has been typed.
pub proof fn law_candidates_continue_prefix(
    offers: Seq<Offer>,
    asked: Asked,
    user: signature::Knowledge,
    model: SemanticModel,
    bundle: Bundle,
    i: int,
)
    requires
        candidates::answers(offers, asked, user, model, bundle),
        0 <= i < offers.len(),
    ensures
        typed_of(asked).is_prefix_of(offers[i].label),
{
    let labels = candidates::offered(offers);
    assert(labels[i] == offers[i].label);
    assert(labels.contains(offers[i].label));
    match asked {
        Asked::PackageName { prefix, kind } => lemma_matching_continues(
            candidates::ranked_names(kind, bundle),
            prefix,
            i,
        ),
        Asked::ColorModel { prefix } => lemma_matching_continues(
            bundle::strings(bundle.colors.models@),
            prefix,
            i,
        ),
        Asked::TikzLibrary { prefix, pgf } => lemma_matching_continues(
            candidates::libraries(pgf, bundle),
            prefix,
            i,
        ),
        Asked::ArgumentEnum { prefix, values } => lemma_matching_continues(values, prefix, i),
        _ => {},
    }
}

/// What matches a prefix starts with it.
proof fn lemma_matching_continues(list: Seq<Seq<char>>, prefix: Seq<char>, i: int)
    requires
        0 <= i < candidates::matching(list, prefix).len(),
    ensures
        prefix.is_prefix_of(candidates::matching(list, prefix)[i]),
{
    list.lemma_filter_pred(|name: Seq<char>| prefix.is_prefix_of(name), i);
}

/// Each question has one answer: any two lists of offers that answer it are the same.
pub proof fn law_one_answer(
    a: Seq<Offer>,
    b: Seq<Offer>,
    asked: Asked,
    user: signature::Knowledge,
    model: SemanticModel,
    bundle: Bundle,
)
    requires
        candidates::answers(a, asked, user, model, bundle),
        candidates::answers(b, asked, user, model, bundle),
    ensures
        a == b,
{
    let x = candidates::offered(a);
    let y = candidates::offered(b);
    match asked {
        Asked::CommandName { .. }
        | Asked::EnvironmentName { .. }
        | Asked::LabelRef { .. }
        | Asked::ColorName { .. } => {
            assert forall|n: Seq<char>| x.contains(n) <==> y.contains(n) by {
            }
            names::lemma_sorted_listing_unique(x, y);
            assert(a.len() == x.len() && b.len() == y.len());
            assert forall|i: int| 0 <= i < a.len() implies a[i] == b[i] by {
                assert(x[i] == a[i].label);
                assert(y[i] == b[i].label);
            }
            assert(a =~= b);
        },
        _ => {},
    }
}

/// The candidates for commands, environments, labels and colors are sorted, and none
/// is offered twice.
pub proof fn law_sorted_without_repetition(
    offers: Seq<Offer>,
    asked: Asked,
    user: signature::Knowledge,
    model: SemanticModel,
    bundle: Bundle,
)
    requires
        candidates::answers(offers, asked, user, model, bundle),
        asked is CommandName || asked is EnvironmentName || asked is LabelRef || asked is ColorName,
    ensures
        names::strictly_sorted(candidates::offered(offers)),
        candidates::offered(offers).no_duplicates(),
{
    names::lemma_sorted_once(candidates::offered(offers));
}

/// The candidates for packages and classes keep the rank order of their list.
pub proof fn law_rank_order_kept(
    offers: Seq<Offer>,
    prefix: Seq<char>,
    kind: FileArgKind,
    user: signature::Knowledge,
    model: SemanticModel,
    bundle: Bundle,
)
    requires
        candidates::answers(offers, Asked::PackageName { prefix, kind }, user, model, bundle),
    ensures
        order::keeps_order(
            candidates::offered(offers),
            candidates::ranked_names(kind, bundle),
            |name: Seq<char>| prefix.is_prefix_of(name),
        ),
{
    let list = candidates::ranked_names(kind, bundle);
    order::lemma_filter_keeps_order(list, |name: Seq<char>| prefix.is_prefix_of(name));
    assert(candidates::offered(offers) =~= candidates::matching(list, prefix));
}

/// A command is offered exactly when it resolves through the tiers and continues what
/// has been typed.
pub proof fn law_offered_commands_resolve(
    offers: Seq<Offer>,
    prefix: Seq<char>,
    signatures: Signatures,
    model: SemanticModel,
    name: Seq<char>,
)
    requires
        candidates::answers(
            offers,
            Asked::CommandName { prefix },
            signatures.user@,
            model,
            *signatures.bundle,
        ),
    ensures
        candidates::offered(offers).contains(name) <==> signatures.command_shape(name) is Some
            && prefix.is_prefix_of(name),
{
}

/// An environment is offered exactly when it resolves through the tiers and continues
/// what has been typed.
pub proof fn law_offered_environments_resolve(
    offers: Seq<Offer>,
    prefix: Seq<char>,
    closing: bool,
    signatures: Signatures,
    model: SemanticModel,
    name: Seq<char>,
)
    requires
        candidates::answers(
            offers,
            Asked::EnvironmentName { prefix, closing },
            signatures.user@,
            model,
            *signatures.bundle,
        ),
    ensures
        candidates::offered(offers).contains(name) <==> signatures.environment_shape(name) is Some
            && prefix.is_prefix_of(name),
{
}

/// Only the name of an environment that is being opened is inserted as a snippet. What is
/// inserted is the name and its brace, a line for the body with the cursor on it, and a
/// line with the `\end` of the same name; nothing else is ever inserted in place of a
/// name.
pub proof fn law_snippets(
    offers: Seq<Offer>,
    asked: Asked,
    user: signature::Knowledge,
    model: SemanticModel,
    bundle: Bundle,
    i: int,
)
    requires
        candidates::answers(offers, asked, user, model, bundle),
        0 <= i < offers.len(),
    ensures
        ({
            let label = offers[i].label;
            let opens = seq!['}', '\n', '\t', '$', '0', '\n'];
            let closes = seq!['\\', 'e', 'n', 'd', '{'];
            &&& offers[i].snippet <==> (asked matches Asked::EnvironmentName { closing, .. }
                && !closing)
            &&& offers[i].insert_text is Some <==> offers[i].snippet
            &&& offers[i].snippet ==> offers[i].insert_text == Some(
                candidates::environment_snippet(label),
            )
            &&& offers[i].insert_text matches Some(text) ==> {
                &&& text == label + opens + closes + label + seq!['}']
                &&& text.len() == 2 * label.len() + 12
                &&& text.take(label.len() as int) == label
                &&& text.subrange(label.len() as int + 11, text.len() - 1) == label
            }
        }),
{
    let label = offers[i].label;
    reveal_strlit("}\n\t$0\n\\end{");
    reveal_strlit("}");
    let opens = seq!['}', '\n', '\t', '$', '0', '\n'];
    let closes = seq!['\\', 'e', 'n', 'd', '{'];
    if let Some(text) = offers[i].insert_text {
        assert("}\n\t$0\n\\end{"@ =~= opens + closes);
        assert("}"@ =~= seq!['}']);
        assert(text =~= label + opens + closes + label + seq!['}']);
        assert(text.take(label.len() as int) =~= label);
        assert(text.subrange(label.len() as int + 11, text.len() - 1) =~= label);
    }
}

/// What is asked for as a package name is a package or a class, never another file.
pub proof fn law_package_or_class(
    t: Seq<syntax::Node>,
    offset: int,
    keys: model::KeyNames,
    enums: Seq<(Seq<char>, Seq<(usize, Seq<Seq<char>>)>)>,
)
    ensures
        context::asked_at(t, offset, keys, enums) matches Asked::PackageName { kind, .. } ==> kind
            == FileArgKind::Package || kind == FileArgKind::Class,
{
}

/// The table of fixed values comes last: what a command asks for without it, it asks
/// for with any table.
pub proof fn law_specific_arguments_win(
    name: Seq<char>,
    index: usize,
    typed: Seq<char>,
    keys: model::KeyNames,
    enums: Seq<(Seq<char>, Seq<(usize, Seq<Seq<char>>)>)>,
)
    ensures
        context::argument_asked(name, index, typed, keys, Seq::empty()) matches Some(asked)
            ==> context::argument_asked(name, index, typed, keys, enums) == Some(asked),
{
}

/// The item of a list that is being typed holds no comma and starts with no white
/// space.
pub proof fn law_list_item(typed: Seq<char>)
    ensures
        !context::item_typed(typed).contains(','),
        context::item_typed(typed).len() > 0 ==> !text::white_space(context::item_typed(typed)[0]),
{
    lemma_no_comma(typed);
    lemma_drop_leading_tail(text::after_last_comma(typed), |c: char| text::white_space(c));
}

/// Behind the last comma there is none.
proof fn lemma_no_comma(s: Seq<char>)
    ensures
        !text::after_last_comma(s).contains(','),
    decreases s.len(),
{
    if s.len() > 0 && s.last() != ',' {
        lemma_no_comma(s.drop_last());
        let rest = text::after_last_comma(s.drop_last());
        let all = rest.push(s.last());
        if all.contains(',') {
            let k = choose|k: int| 0 <= k < all.len() && all[k] == ',';
            assert(rest[k] == ',');
        }
    }
}

/// What is left of a text without some leading characters is its end, and starts with
/// none of them.
proof fn lemma_drop_leading_tail(s: Seq<char>, p: spec_fn(char) -> bool)
    ensures
        text::drop_leading(s, p).len() > 0 ==> !p(text::drop_leading(s, p)[0]),
        text::drop_leading(s, p).len() <= s.len(),
        text::drop_leading(s, p) == s.skip(s.len() - text::drop_leading(s, p).len()),
    decreases s.len(),
{
    if s.len() > 0 && p(s[0]) {
        let rest = s.drop_first();
        lemma_drop_leading_tail(rest, p);
        let n = text::drop_leading(rest, p).len();
        assert(rest.skip(rest.len() - n) =~= s.skip(s.len() - n));
    } else {
        assert(s.skip(0) =~= s);
    }
}

/// The name of a command that is being typed starts with no backslash.
pub proof fn law_command_prefix_bare(t: Seq<syntax::Node>, i: int, offset: int)
    ensures
        context::command_name_asked(t, i, offset) matches Some(Asked::CommandName { prefix })
            ==> prefix.len() > 0 ==> prefix[0] != '\\',
{
    let start = syntax::start_of(t, i) as int;
    lemma_drop_leading_tail(
        text::cut_at_byte(t[i].text, offset - start),
        |c: char| c == '\\',
    );
}

/// At the end of a control word, the whole word has been typed.
pub proof fn law_whole_word_typed(t: Seq<syntax::Node>, i: int)
    requires
        syntax::well_formed(t),
        0 <= i < t.len(),
        t[i].token,
        t[i].kind == SyntaxKind::CONTROL_WORD,
        t[i].text.len() > 0,
    ensures
        context::command_name_asked(t, i, syntax::end_of(t, i) as int) == Some(
            Asked::CommandName { prefix: text::without_backslashes(t[i].text) },
        ),
{
    syntax::lemma_token_span(t, i);
    text::lemma_utf16_within_utf8(t[i].text);
    let word = t[i].text;
    let n = word.len() as int;
    let size = text::utf8_len(word) as int;
    assert(word.take(n) =~= word);
    assert(text::boundary_at(word, n, size));
    let k = choose|k: int| text::boundary_at(word, k, size);
    text::lemma_boundary_unique(word, k, n, size);
}

/// A key of a glossary command is taken whole: a comma is part of it.
pub proof fn law_glossary_key_whole(
    name: Seq<char>,
    typed: Seq<char>,
    keys: model::KeyNames,
    enums: Seq<(Seq<char>, Seq<(usize, Seq<Seq<char>>)>)>,
)
    requires
        keys.glossary.contains(name),
        !keys.refs.contains(name),
        !keys.cites.contains(name),
    ensures
        context::argument_asked(name, 0, typed, keys, enums) == Some(
            Asked::GlossaryKey { prefix: text::trimmed_start(typed) },
        ),
{
}

/// The group around an element is a group, stands in front of it, and is an ancestor
/// of it with no command, environment or root between.
pub proof fn law_group_around(t: Seq<syntax::Node>, i: int)
    requires
        syntax::well_formed(t),
        0 <= i < t.len(),
    ensures
        context::group_around(t, i) matches Some(g) ==> {
            &&& 0 <= g < i
            &&& t[g].kind == SyntaxKind::GROUP || t[g].kind == SyntaxKind::NAME_GROUP
            &&& i < syntax::subtree_end(t, g)
        },
    decreases i,
{
    reveal(syntax::in_document_order);
    if i > 0 {
        let p = syntax::parent_of(t, i);
        assert(0 <= p < i);
        tree::lemma_parent_contains(t, i);
        law_group_around(t, p);
        if let Some(g) = context::group_around(t, i) {
            if g != p {
                tree::lemma_subtree_nested(t, g, p, i);
            }
        }
    }
}

/// Group `g` starts with its opening brace, and byte `offset` is not behind any other
/// brace around it.
pub open spec fn within_braces(t: Seq<syntax::Node>, g: int, offset: int) -> bool {
    &&& 0 <= g < t.len()
    &&& g + 1 < syntax::subtree_end(t, g)
    &&& t[g + 1].token
    &&& t[g + 1].kind == SyntaxKind::L_BRACE
    &&& forall|i: int|
        g + 1 < i < syntax::subtree_end(t, g) && #[trigger] context::is_brace_of(t, g, i) ==> offset
            <= syntax::start_of(t, i)
}

/// What has been typed in a group is the source from behind its opening brace up to
/// the cursor, whatever the group holds.
pub proof fn law_typed_is_source(t: Seq<syntax::Node>, g: int, offset: int)
    requires
        syntax::well_formed(t),
        within_braces(t, g, offset),
        syntax::end_of(t, g + 1) <= offset <= syntax::end_of(t, g),
        text::is_boundary(syntax::tree_text(t), offset),
    ensures
        syntax::text_upto(t, g + 2) + context::typed_in(t, g, offset) == text::cut_at_byte(
            syntax::tree_text(t),
            offset,
        ),
{
    let end = syntax::subtree_end(t, g);
    syntax::lemma_end_of_run(t, g, g + 1);
    syntax::lemma_token_span(t, g + 1);
    syntax::lemma_text_upto_grows(t, end, t.len() as int);
    lemma_typed_upto(t, g, offset, t.len() as int);
    if syntax::start_of(t, t.len() as int) <= offset {
        lemma_cut_is(t, offset, t.len() as int);
    }
}

/// In front of a group and in its opening brace nothing has been typed in it.
proof fn lemma_nothing_typed(t: Seq<syntax::Node>, g: int, offset: int, n: int)
    requires
        syntax::well_formed(t),
        within_braces(t, g, offset),
        0 <= n <= g + 2,
    ensures
        context::typed_upto(t, g, offset, n) == Seq::<char>::empty(),
    decreases n,
{
    if n > 0 {
        lemma_nothing_typed(t, g, offset, n - 1);
        reveal(syntax::in_document_order);
        syntax::lemma_end_of_run(t, g, g + 1);
        if n - 1 == g + 1 {
            assert(syntax::below(t, g, g + 1));
            assert(syntax::parent_of(t, g + 1) < g + 1);
        }
        assert(context::typed_part(t, g, offset, n - 1) =~= Seq::<char>::empty());
    }
}

/// Where the text of the first `n` elements ends at a byte offset, it is the text cut
/// at that offset.
proof fn lemma_cut_is(t: Seq<syntax::Node>, offset: int, n: int)
    requires
        0 <= n <= t.len(),
        syntax::start_of(t, n) == offset,
    ensures
        text::cut_at_byte(syntax::tree_text(t), offset) == syntax::text_upto(t, n),
{
    let all = syntax::tree_text(t);
    let part = syntax::text_upto(t, n);
    syntax::lemma_text_upto_grows(t, n, t.len() as int);
    let k = part.len() as int;
    assert(all.take(k) =~= part);
    assert(text::boundary_at(all, k, offset));
    let j = choose|j: int| text::boundary_at(all, j, offset);
    text::lemma_boundary_unique(all, j, k, offset);
}

/// Where the cursor lies inside element `n`, the text up to it ends with the part of
/// that element in front of the cursor.
proof fn lemma_cut_inside(t: Seq<syntax::Node>, offset: int, n: int)
    requires
        0 <= n < t.len(),
        syntax::start_of(t, n) < offset < syntax::start_of(t, n + 1),
        text::is_boundary(syntax::tree_text(t), offset),
    ensures
        text::cut_at_byte(syntax::tree_text(t), offset) == syntax::text_upto(t, n)
            + text::cut_at_byte(t[n].text, offset - syntax::start_of(t, n)),
{
    let all = syntax::tree_text(t);
    let part = syntax::text_upto(t, n);
    let piece = t[n].text;
    let start = syntax::start_of(t, n) as int;
    syntax::lemma_text_upto_grows(t, n + 1, t.len() as int);
    assert(syntax::text_upto(t, n + 1) == part + piece);
    let size = part.len() as int;
    let whole = size + piece.len();
    assert(all.take(whole) =~= part + piece);
    assert(all.take(size) =~= part);
    let k = choose|k: int| text::boundary_at(all, k, offset);
    if k < size {
        text::lemma_prefix_len(all, k, size);
    }
    if k > whole {
        text::lemma_prefix_len(all, whole, k);
    }
    let m = k - size;
    assert(all.take(k) =~= part + piece.take(m));
    text::lemma_len_concat(part, piece.take(m));
    let rel = offset - start;
    assert(text::boundary_at(piece, m, rel));
    let j = choose|j: int| text::boundary_at(piece, j, rel);
    text::lemma_boundary_unique(piece, j, m, rel);
}

/// What the first `n` elements add to the text behind the opening brace: all of it up
/// to element `n`, but nothing behind the cursor.
proof fn lemma_typed_upto(t: Seq<syntax::Node>, g: int, offset: int, n: int)
    requires
        syntax::well_formed(t),
        within_braces(t, g, offset),
        g + 2 <= n <= t.len(),
        syntax::end_of(t, g + 1) <= offset <= syntax::end_of(t, g),
        text::is_boundary(syntax::tree_text(t), offset),
    ensures
        syntax::text_upto(t, g + 2) + context::typed_upto(t, g, offset, n) == (
        if syntax::start_of(t, n) <= offset {
            syntax::text_upto(t, n)
        } else {
            text::cut_at_byte(syntax::tree_text(t), offset)
        }),
    decreases n,
{
    let head = syntax::text_upto(t, g + 2);
    let end = syntax::subtree_end(t, g);
    syntax::lemma_end_of_run(t, g, g + 1);
    syntax::lemma_token_span(t, g + 1);
    if n == g + 2 {
        lemma_nothing_typed(t, g, offset, n);
        assert(head + Seq::<char>::empty() =~= head);
    } else {
        let i = n - 1;
        lemma_typed_upto(t, g, offset, i);
        let typed = context::typed_upto(t, g, offset, i);
        let part = context::typed_part(t, g, offset, i);
        assert(head + (typed + part) =~= (head + typed) + part);
        syntax::lemma_text_upto_grows(t, i, n);
        if syntax::start_of(t, i) < offset {
            if end <= i {
                syntax::lemma_text_upto_grows(t, end, i);
            }
            if t[i].token {
                syntax::lemma_token_span(t, i);
                if syntax::start_of(t, n) > offset {
                    lemma_cut_inside(t, offset, i);
                }
            } else {
                reveal(syntax::in_document_order);
                assert(t[i].text =~= Seq::<char>::empty());
                assert(syntax::text_upto(t, i) + t[i].text =~= syntax::text_upto(t, i));
            }
        } else {
            lemma_behind_cursor(t, g, offset, i);
        }
    }
}

/// An element behind the cursor adds nothing, and ends the text up to the cursor where
/// it starts there.
proof fn lemma_behind_cursor(t: Seq<syntax::Node>, g: int, offset: int, i: int)
    requires
        syntax::well_formed(t),
        0 <= i < t.len(),
        offset <= syntax::start_of(t, i),
        text::is_boundary(syntax::tree_text(t), offset),
    ensures
        context::typed_part(t, g, offset, i) == Seq::<char>::empty(),
        syntax::start_of(t, i) == offset ==> text::cut_at_byte(syntax::tree_text(t), offset)
            == syntax::text_upto(t, i),
        syntax::start_of(t, i + 1) == offset ==> syntax::text_upto(t, i + 1) == syntax::text_upto(
            t,
            i,
        ),
{
    text::lemma_len_concat(syntax::text_upto(t, i), t[i].text);
    text::lemma_utf16_within_utf8(t[i].text);
    if t[i].token {
        syntax::lemma_token_span(t, i);
    }
    if syntax::start_of(t, i) == offset {
        lemma_cut_is(t, offset, i);
    }
    if syntax::start_of(t, i + 1) == offset {
        assert(t[i].text =~= Seq::<char>::empty());
        assert(syntax::text_upto(t, i) + t[i].text =~= syntax::text_upto(t, i));
    }
    assert(context::typed_part(t, g, offset, i) =~= Seq::<char>::empty());
}

} // verus!
