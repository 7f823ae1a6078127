//! Laws of the candidates: which names are offered, in which order, and what is inserted.

use vstd::prelude::*;

use crate::completion::candidates;
use crate::completion::{
    Asked, CandidateKind, CompletionCandidate, CompletionContext, FileArgKind, Offer,
};
use crate::laws::order;
use crate::laws::text;
use crate::names;
use crate::semantic::bundle;
use crate::semantic::bundle::Bundle;
use crate::semantic::model::SemanticModel;
use crate::semantic::signature;

verus! {

/// `name` is one of `list`.
pub open spec fn among(list: Seq<String>, name: Seq<char>) -> bool {
    exists|k: int| 0 <= k < list.len() && (#[trigger] list[k])@ == name
}

/// One of the offers is `name`.
pub open spec fn offers_name(offers: Seq<Offer>, name: Seq<char>) -> bool {
    exists|k: int| 0 <= k < offers.len() && (#[trigger] offers[k]).label == name
}

/// What the offers show, in their order.
pub open spec fn shown(offers: Seq<Offer>) -> Seq<Seq<char>> {
    Seq::new(offers.len(), |k: int| offers[k].label)
}

/// The names of a list of strings.
proof fn lemma_among(list: Seq<String>, name: Seq<char>)
    ensures
        bundle::strings(list).contains(name) <==> among(list, name),
{
    let all = bundle::strings(list);
    if all.contains(name) {
        let k = choose|k: int| 0 <= k < all.len() && all[k] == name;
        assert(list[k]@ == name);
    }
    if among(list, name) {
        let k = choose|k: int| 0 <= k < list.len() && (#[trigger] list[k])@ == name;
        assert(all[k] == name);
    }
}

/// The labels of offers.
proof fn lemma_shown(offers: Seq<Offer>, name: Seq<char>)
    ensures
        candidates::offered(offers) == shown(offers),
        shown(offers).contains(name) <==> offers_name(offers, name),
{
    assert(candidates::offered(offers) =~= shown(offers));
    if shown(offers).contains(name) {
        let k = choose|k: int| 0 <= k < shown(offers).len() && shown(offers)[k] == name;
        assert(offers[k].label == name);
    }
    if offers_name(offers, name) {
        let k = choose|k: int| 0 <= k < offers.len() && (#[trigger] offers[k]).label == name;
        assert(shown(offers)[k] == name);
    }
}

/// A command is offered exactly when it continues what has been typed and the document,
/// the curated tier or the bulk tier knows it.
pub proof fn law_offered_commands(
    offers: Seq<Offer>,
    prefix: Seq<char>,
    user: signature::Knowledge,
    model: SemanticModel,
    bundle: Bundle,
    name: Seq<char>,
)
    requires
        candidates::answers(offers, Asked::CommandName { prefix }, user, model, bundle),
    ensures
        offers_name(offers, name) <==> prefix.is_prefix_of(name) && (user.commands.contains_key(
            name,
        ) || bundle.builtin@.commands.contains_key(name) || bundle.cwl@.commands.contains_key(
            name,
        )),
{
    lemma_shown(offers, name);
}

/// An environment is offered exactly when it continues what has been typed and the
/// document, the curated tier or the bulk tier knows it, whether it is being opened or
/// closed.
pub proof fn law_offered_environments(
    offers: Seq<Offer>,
    prefix: Seq<char>,
    closing: bool,
    user: signature::Knowledge,
    model: SemanticModel,
    bundle: Bundle,
    name: Seq<char>,
)
    requires
        candidates::answers(
            offers,
            Asked::EnvironmentName { prefix, closing },
            user,
            model,
            bundle,
        ),
    ensures
        offers_name(offers, name) <==> prefix.is_prefix_of(name)
            && (user.environments.contains_key(name) || bundle.builtin@.environments.contains_key(
            name,
        ) || bundle.cwl@.environments.contains_key(name)),
{
    lemma_shown(offers, name);
}

/// A label is offered exactly when it continues what has been typed and the document
/// has it.
pub proof fn law_offered_labels(
    offers: Seq<Offer>,
    prefix: Seq<char>,
    user: signature::Knowledge,
    model: SemanticModel,
    bundle: Bundle,
    name: Seq<char>,
)
    requires
        candidates::answers(offers, Asked::LabelRef { prefix }, user, model, bundle),
    ensures
        offers_name(offers, name) <==> prefix.is_prefix_of(name) && among(model.labels@, name),
{
    lemma_shown(offers, name);
    lemma_among(model.labels@, name);
}

/// A color is offered exactly when it continues what has been typed and is among the
/// known colors or among those that the document defines.
pub proof fn law_offered_colors(
    offers: Seq<Offer>,
    prefix: Seq<char>,
    user: signature::Knowledge,
    model: SemanticModel,
    bundle: Bundle,
    name: Seq<char>,
)
    requires
        candidates::answers(offers, Asked::ColorName { prefix }, user, model, bundle),
    ensures
        offers_name(offers, name) <==> prefix.is_prefix_of(name) && (among(
            bundle.colors.names@,
            name,
        ) || among(model.color_defs@, name)),
{
    lemma_shown(offers, name);
    lemma_among(bundle.colors.names@, name);
    lemma_among(model.color_defs@, name);
}

/// Commands, environments, labels and colors come in the order of a dictionary: no offer
/// starts with, or equals, a later one, and where two offers first differ the earlier one
/// has the smaller character.
pub proof fn law_offers_in_order(
    offers: Seq<Offer>,
    asked: Asked,
    user: signature::Knowledge,
    model: SemanticModel,
    bundle: Bundle,
    i: int,
    j: int,
)
    requires
        candidates::answers(offers, asked, user, model, bundle),
        asked is CommandName || asked is EnvironmentName || asked is LabelRef || asked is ColorName,
        0 <= i < j < offers.len(),
    ensures
        !offers[j].label.is_prefix_of(offers[i].label),
        forall|k: int|
            0 <= k < offers[i].label.len() && k < offers[j].label.len() && offers[i].label.take(k)
                == offers[j].label.take(k) && #[trigger] offers[i].label[k] != offers[j].label[k]
                ==> offers[i].label[k] < offers[j].label[k],
{
    let all = candidates::offered(offers);
    let p = match asked {
        Asked::CommandName { prefix } => candidates::commands_with(prefix, user, bundle),
        Asked::EnvironmentName { prefix, .. } => candidates::environments_with(
            prefix,
            user,
            bundle,
        ),
        Asked::LabelRef { prefix } => candidates::labels_with(prefix, model),
        Asked::ColorName { prefix } => candidates::colors_with(prefix, model, bundle),
        _ => |n: Seq<char>| false,
    };
    assert(names::lists_sorted(all, p));
    text::law_sorted_listing(all, p);
    assert(all[i] == offers[i].label);
    assert(all[j] == offers[j].label);
    assert forall|k: int|
        0 <= k < offers[i].label.len() && k < offers[j].label.len() && offers[i].label.take(k)
            == offers[j].label.take(k) && #[trigger] offers[i].label[k]
            != offers[j].label[k] implies offers[i].label[k] < offers[j].label[k] by {
        assert(all[i][k] != all[j][k]);
    }
}

/// Packages, classes, color models, libraries and fixed values are those of their list
/// that continue what has been typed, in the order of that list: classes where a class is
/// asked for and packages otherwise, and PGF libraries where those are asked for and TikZ
/// libraries otherwise.
pub proof fn law_listed_order(
    offers: Seq<Offer>,
    asked: Asked,
    user: signature::Knowledge,
    model: SemanticModel,
    bundle: Bundle,
)
    requires
        candidates::answers(offers, asked, user, model, bundle),
    ensures
        asked matches Asked::PackageName { prefix, kind } ==> {
            &&& kind == FileArgKind::Class ==> continues_list(
                offers,
                bundle::strings(bundle.class_names@),
                prefix,
            )
            &&& kind != FileArgKind::Class ==> continues_list(
                offers,
                bundle::strings(bundle.package_names@),
                prefix,
            )
        },
        asked matches Asked::ColorModel { prefix } ==> continues_list(
            offers,
            bundle::strings(bundle.colors.models@),
            prefix,
        ),
        asked matches Asked::TikzLibrary { prefix, pgf } ==> {
            &&& pgf ==> continues_list(offers, bundle::strings(bundle.tikz_libraries.pgf@), prefix)
            &&& !pgf ==> continues_list(
                offers,
                bundle::strings(bundle.tikz_libraries.tikz@),
                prefix,
            )
        },
        asked matches Asked::ArgumentEnum { prefix, values } ==> continues_list(
            offers,
            values,
            prefix,
        ),
{
    match asked {
        Asked::PackageName { prefix, kind } => {
            if kind == FileArgKind::Class {
                lemma_continues_list(offers, bundle::strings(bundle.class_names@), prefix);
            } else {
                lemma_continues_list(offers, bundle::strings(bundle.package_names@), prefix);
            }
        },
        Asked::ColorModel { prefix } => lemma_continues_list(
            offers,
            bundle::strings(bundle.colors.models@),
            prefix,
        ),
        Asked::TikzLibrary { prefix, pgf } => {
            if pgf {
                lemma_continues_list(offers, bundle::strings(bundle.tikz_libraries.pgf@), prefix);
            } else {
                lemma_continues_list(offers, bundle::strings(bundle.tikz_libraries.tikz@), prefix);
            }
        },
        Asked::ArgumentEnum { prefix, values } => lemma_continues_list(offers, values, prefix),
        _ => {},
    }
}

/// The offers show those of `list` that start with `prefix`, in the order of the list.
pub open spec fn continues_list(
    offers: Seq<Offer>,
    list: Seq<Seq<char>>,
    prefix: Seq<char>,
) -> bool {
    order::keeps_order(shown(offers), list, |name: Seq<char>| prefix.is_prefix_of(name))
}

/// Offers for those of a list that start with a prefix.
proof fn lemma_continues_list(offers: Seq<Offer>, list: Seq<Seq<char>>, prefix: Seq<char>)
    requires
        exists|kind: CandidateKind|
            offers == #[trigger] candidates::plain_offers(
                candidates::matching(list, prefix),
                kind,
            ),
    ensures
        continues_list(offers, list, prefix),
{
    order::lemma_filter_keeps_order(list, |name: Seq<char>| prefix.is_prefix_of(name));
    assert(shown(offers) =~= candidates::matching(list, prefix));
}

/// Each offer is of the kind that is asked for.
pub proof fn law_offer_kinds(
    offers: Seq<Offer>,
    asked: Asked,
    user: signature::Knowledge,
    model: SemanticModel,
    bundle: Bundle,
    i: int,
)
    requires
        candidates::answers(offers, asked, user, model, bundle),
        0 <= i < offers.len(),
    ensures
        offers[i].kind == CandidateKind::Command <==> asked is CommandName,
        offers[i].kind == CandidateKind::Environment <==> asked is EnvironmentName,
        offers[i].kind == CandidateKind::Label <==> asked is LabelRef,
        offers[i].kind == CandidateKind::Package <==> asked is PackageName,
        offers[i].kind == CandidateKind::Color <==> asked is ColorName,
        offers[i].kind == CandidateKind::ColorModel <==> asked is ColorModel,
        offers[i].kind == CandidateKind::TikzLibrary <==> asked is TikzLibrary,
        offers[i].kind == CandidateKind::ArgumentEnum <==> asked is ArgumentEnum,
{
}

/// Nothing is offered where nothing is asked for, nor for a path, a citation key or a
/// glossary key.
pub proof fn law_nothing_offered(
    offers: Seq<Offer>,
    asked: Asked,
    user: signature::Knowledge,
    model: SemanticModel,
    bundle: Bundle,
)
    requires
        candidates::answers(offers, asked, user, model, bundle),
        asked is FilePath || asked is CitationKey || asked is GlossaryKey || asked is Nothing,
    ensures
        offers.len() == 0,
{
}

/// The offers of a list of candidates are those of its candidates, one by one, and each
/// says what the fields of its candidate say.
pub proof fn law_offers(list: Seq<CompletionCandidate>, i: int)
    ensures
        candidates::offers(list).len() == list.len(),
        0 <= i < list.len() ==> {
            let offer = candidates::offers(list)[i];
            &&& offer.label == list[i].label@
            &&& offer.kind == list[i].kind
            &&& offer.snippet == list[i].snippet
            &&& offer.insert_text is Some <==> list[i].insert_text is Some
            &&& list[i].insert_text matches Some(text) ==> offer.insert_text == Some(text@)
        },
{
}

/// What a context asks for is what its variant names, with what its fields say.
pub proof fn law_context_asks(context: CompletionContext)
    ensures
        match context {
            CompletionContext::CommandName { prefix } => context@ == (Asked::CommandName {
                prefix: prefix@,
            }),
            CompletionContext::EnvironmentName { prefix, closing } => context@ == (
            Asked::EnvironmentName { prefix: prefix@, closing }),
            CompletionContext::LabelRef { prefix } => context@ == (Asked::LabelRef {
                prefix: prefix@,
            }),
            CompletionContext::CitationKey { prefix } => context@ == (Asked::CitationKey {
                prefix: prefix@,
            }),
            CompletionContext::GlossaryKey { prefix } => context@ == (Asked::GlossaryKey {
                prefix: prefix@,
            }),
            CompletionContext::FilePath { prefix, kind } => context@ == (Asked::FilePath {
                prefix: prefix@,
                kind,
            }),
            CompletionContext::PackageName { prefix, kind } => context@ == (Asked::PackageName {
                prefix: prefix@,
                kind,
            }),
            CompletionContext::ColorName { prefix } => context@ == (Asked::ColorName {
                prefix: prefix@,
            }),
            CompletionContext::ColorModel { prefix } => context@ == (Asked::ColorModel {
                prefix: prefix@,
            }),
            CompletionContext::TikzLibrary { prefix, pgf } => context@ == (Asked::TikzLibrary {
                prefix: prefix@,
                pgf,
            }),
            CompletionContext::ArgumentEnum { prefix, values } => context@ matches
                Asked::ArgumentEnum { prefix: typed, values: all } && typed == prefix@ && all.len()
                == values@.len() && forall|i: int|
                0 <= i < all.len() ==> #[trigger] all[i] == values@[i]@,
            CompletionContext::Nothing => context@ == Asked::Nothing,
        },
{
}

} // verus!
