//! The candidates that answer what a cursor position asks for.

use vstd::prelude::*;
use vstd::string::*;

use crate::completion::{
    Asked, CandidateKind, CompletionCandidate, CompletionContext, FileArgKind, Offer,
};
use crate::names;
use crate::names::{add_name, Named};
use crate::semantic::bundle;
use crate::semantic::bundle::{
    builtin, class_names, color_models, color_names, cwl, package_names, pgf_libraries,
    tikz_libraries, Bundle,
};
use crate::semantic::model::SemanticModel;
use crate::semantic::signature;
use crate::semantic::signature::SignatureDb;
use crate::text::has_prefix;

verus! {

/// What the candidates offer.
pub open spec fn offers(candidates: Seq<CompletionCandidate>) -> Seq<Offer> {
    candidates.map_values(|candidate: CompletionCandidate| candidate@)
}

/// The labels of the offers.
pub open spec fn offered(offers: Seq<Offer>) -> Seq<Seq<char>> {
    offers.map_values(|offer: Offer| offer.label)
}

/// An offer that inserts its label.
pub open spec fn plain_offer(label: Seq<char>, kind: CandidateKind) -> Offer {
    Offer { label, kind, insert_text: None, snippet: false }
}

/// What is inserted behind `\begin{`: the name, a body to be filled in, and the
/// matching `\end`.
pub open spec fn environment_snippet(name: Seq<char>) -> Seq<char> {
    name + "}\n\t$0\n\\end{"@ + name + "}"@
}

/// The offer of an environment name: plain behind `\end{`, a snippet behind `\begin{`.
pub open spec fn environment_offer(name: Seq<char>, closing: bool) -> Offer {
    if closing {
        plain_offer(name, CandidateKind::Environment)
    } else {
        Offer {
            label: name,
            kind: CandidateKind::Environment,
            insert_text: Some(environment_snippet(name)),
            snippet: true,
        }
    }
}

/// Those of `names` that start with `prefix`, in their order.
pub open spec fn matching(names: Seq<Seq<char>>, prefix: Seq<char>) -> Seq<Seq<char>> {
    names.filter(|name: Seq<char>| prefix.is_prefix_of(name))
}

/// A plain offer of each name, in their order.
pub open spec fn plain_offers(names: Seq<Seq<char>>, kind: CandidateKind) -> Seq<Offer> {
    names.map_values(|name: Seq<char>| plain_offer(name, kind))
}

/// The offers are plain ones of the given kind, for exactly the names of which `p`
/// holds, each once, in order.
pub open spec fn sorted_offers(
    offers: Seq<Offer>,
    p: spec_fn(Seq<char>) -> bool,
    kind: CandidateKind,
) -> bool {
    &&& names::lists_sorted(offered(offers), p)
    &&& forall|i: int|
        0 <= i < offers.len() ==> #[trigger] offers[i] == plain_offer(offers[i].label, kind)
}

/// `name` is the name of a command that some tier knows.
pub open spec fn known_command(
    name: Seq<char>,
    user: signature::Knowledge,
    bundle: Bundle,
) -> bool {
    ||| bundle.builtin@.commands.contains_key(name)
    ||| user.commands.contains_key(name)
    ||| bundle.cwl@.commands.contains_key(name)
}

/// `name` is the name of an environment that some tier knows.
pub open spec fn known_environment(
    name: Seq<char>,
    user: signature::Knowledge,
    bundle: Bundle,
) -> bool {
    ||| bundle.builtin@.environments.contains_key(name)
    ||| user.environments.contains_key(name)
    ||| bundle.cwl@.environments.contains_key(name)
}

/// The commands that start with `prefix`, out of all tiers.
pub open spec fn commands_with(
    prefix: Seq<char>,
    user: signature::Knowledge,
    bundle: Bundle,
) -> spec_fn(Seq<char>) -> bool {
    |name: Seq<char>| prefix.is_prefix_of(name) && known_command(name, user, bundle)
}

/// The environments that start with `prefix`, out of all tiers.
pub open spec fn environments_with(
    prefix: Seq<char>,
    user: signature::Knowledge,
    bundle: Bundle,
) -> spec_fn(Seq<char>) -> bool {
    |name: Seq<char>| prefix.is_prefix_of(name) && known_environment(name, user, bundle)
}

/// The labels of the document that start with `prefix`.
pub open spec fn labels_with(prefix: Seq<char>, model: SemanticModel) -> spec_fn(Seq<char>) -> bool {
    |name: Seq<char>| prefix.is_prefix_of(name) && bundle::strings(model.labels@).contains(name)
}

/// The colors that start with `prefix`: the known ones, and those of the document.
pub open spec fn colors_with(
    prefix: Seq<char>,
    model: SemanticModel,
    bundle: Bundle,
) -> spec_fn(Seq<char>) -> bool {
    |name: Seq<char>|
        prefix.is_prefix_of(name) && (bundle::strings(bundle.colors.names@).contains(name)
            || bundle::strings(model.color_defs@).contains(name))
}

/// The offers are those of environments, for exactly the names of which `p` holds,
/// each once, in order.
pub open spec fn environment_offers(
    offers: Seq<Offer>,
    p: spec_fn(Seq<char>) -> bool,
    closing: bool,
) -> bool {
    &&& names::lists_sorted(offered(offers), p)
    &&& forall|i: int|
        0 <= i < offers.len() ==> #[trigger] offers[i] == environment_offer(
            offers[i].label,
            closing,
        )
}

/// The names that `\usepackage` takes, or those that `\documentclass` takes, in rank
/// order.
pub open spec fn ranked_names(kind: FileArgKind, bundle: Bundle) -> Seq<Seq<char>> {
    if kind == FileArgKind::Class {
        bundle::strings(bundle.class_names@)
    } else {
        bundle::strings(bundle.package_names@)
    }
}

/// The PGF libraries, or the TikZ libraries, in the order of their list.
pub open spec fn libraries(pgf: bool, bundle: Bundle) -> Seq<Seq<char>> {
    if pgf {
        bundle::strings(bundle.tikz_libraries.pgf@)
    } else {
        bundle::strings(bundle.tikz_libraries.tikz@)
    }
}

/// The offers answer what is asked.
pub open spec fn answers(
    offers: Seq<Offer>,
    asked: Asked,
    user: signature::Knowledge,
    model: SemanticModel,
    bundle: Bundle,
) -> bool {
    match asked {
        Asked::CommandName { prefix } => sorted_offers(
            offers,
            commands_with(prefix, user, bundle),
            CandidateKind::Command,
        ),
        Asked::EnvironmentName { prefix, closing } => environment_offers(
            offers,
            environments_with(prefix, user, bundle),
            closing,
        ),
        Asked::LabelRef { prefix } => sorted_offers(
            offers,
            labels_with(prefix, model),
            CandidateKind::Label,
        ),
        Asked::PackageName { prefix, kind } => offers == plain_offers(
            matching(ranked_names(kind, bundle), prefix),
            CandidateKind::Package,
        ),
        Asked::ColorName { prefix } => sorted_offers(
            offers,
            colors_with(prefix, model, bundle),
            CandidateKind::Color,
        ),
        Asked::ColorModel { prefix } => offers == plain_offers(
            matching(bundle::strings(bundle.colors.models@), prefix),
            CandidateKind::ColorModel,
        ),
        Asked::TikzLibrary { prefix, pgf } => offers == plain_offers(
            matching(libraries(pgf, bundle), prefix),
            CandidateKind::TikzLibrary,
        ),
        Asked::ArgumentEnum { prefix, values } => offers == plain_offers(
            matching(values, prefix),
            CandidateKind::ArgumentEnum,
        ),
        Asked::FilePath { .. }
        | Asked::CitationKey { .. }
        | Asked::GlossaryKey { .. }
        | Asked::Nothing => offers == Seq::<Offer>::empty(),
    }
}

/// The candidate that inserts its label.
fn plain_candidate(label: &str, kind: CandidateKind) -> (r: CompletionCandidate)
    ensures
        r@ == plain_offer(label@, kind),
{
    CompletionCandidate { label: label.to_string(), kind, insert_text: None, snippet: false }
}

/// What filtering one more name adds.
proof fn lemma_matching_push(names: Seq<Seq<char>>, prefix: Seq<char>, i: int)
    requires
        0 <= i < names.len(),
    ensures
        matching(names.take(i + 1), prefix) == (if prefix.is_prefix_of(names[i]) {
            matching(names.take(i), prefix).push(names[i])
        } else {
            matching(names.take(i), prefix)
        }),
{
    reveal(Seq::filter);
    assert(names.take(i + 1).drop_last() =~= names.take(i));
    assert(names.take(i + 1).last() == names[i]);
}

/// A plain candidate for each of `list` that starts with `prefix`, in the order of
/// the list.
pub fn static_candidates(list: &[String], prefix: &str, kind: CandidateKind) -> (r: Vec<
    CompletionCandidate,
>)
    ensures
        offers(r@) == plain_offers(matching(bundle::strings(list@), prefix@), kind),
{
    let ghost all = bundle::strings(list@);
    let mut r: Vec<CompletionCandidate> = Vec::new();
    proof {
        reveal(Seq::filter);
        assert(all.take(0) =~= Seq::<Seq<char>>::empty());
        assert(offers(r@) =~= plain_offers(matching(all.take(0), prefix@), kind));
    }
    for i in 0..list.len()
        invariant
            all == bundle::strings(list@),
            offers(r@) == plain_offers(matching(all.take(i as int), prefix@), kind),
    {
        let ghost before = offers(r@);
        proof {
            lemma_matching_push(all, prefix@, i as int);
            assert(all[i as int] == list@[i as int]@);
        }
        if has_prefix(list[i].as_str(), prefix) {
            r.push(plain_candidate(list[i].as_str(), kind));
            assert(offers(r@) =~= before.push(plain_offer(list@[i as int]@, kind)));
            assert(offers(r@) =~= plain_offers(matching(all.take(i + 1), prefix@), kind));
        }
    }
    assert(all.take(all.len() as int) =~= all);
    r
}

/// Candidates for package names, or for class names, in rank order.
pub fn package_candidates(kind: FileArgKind, prefix: &str, bundle: &Bundle) -> (r: Vec<
    CompletionCandidate,
>)
    ensures
        offers(r@) == plain_offers(
            matching(ranked_names(kind, *bundle), prefix@),
            CandidateKind::Package,
        ),
{
    if kind == FileArgKind::Class {
        static_candidates(class_names(bundle), prefix, CandidateKind::Package)
    } else {
        static_candidates(package_names(bundle), prefix, CandidateKind::Package)
    }
}

/// Adds those of `more` that start with `prefix` to the sorted list `found`.
pub fn union_names<N: Named>(found: &mut Vec<String>, more: &[N], prefix: &str)
    requires
        names::strictly_sorted(names::labels(old(found)@)),
    ensures
        names::strictly_sorted(names::labels(final(found)@)),
        forall|n: Seq<char>|
            #[trigger] names::labels(final(found)@).contains(n) <==> names::labels(
                old(found)@,
            ).contains(n) || (prefix@.is_prefix_of(n) && names::labels(more@).contains(n)),
{
    let ghost before = names::labels(found@);
    let ghost all = names::labels(more@);
    for i in 0..more.len()
        invariant
            all == names::labels(more@),
            names::strictly_sorted(names::labels(found@)),
            forall|n: Seq<char>|
                #[trigger] names::labels(found@).contains(n) <==> before.contains(n) || (
                prefix@.is_prefix_of(n) && all.take(i as int).contains(n)),
    {
        proof {
            names::lemma_take_contains(all, i as int);
            assert(all[i as int] == more@[i as int].label());
        }
        let name: &str = more[i].label_str();
        if has_prefix(name, prefix) {
            add_name(found, name);
        }
    }
    assert(all.take(all.len() as int) =~= all);
}

/// A plain candidate for each of `found`.
fn plain_candidates(found: &Vec<String>, kind: CandidateKind) -> (r: Vec<CompletionCandidate>)
    ensures
        offers(r@) == plain_offers(names::labels(found@), kind),
        offered(offers(r@)) == names::labels(found@),
{
    let mut r: Vec<CompletionCandidate> = Vec::new();
    for i in 0..found.len()
        invariant
            r.len() == i,
            forall|k: int| 0 <= k < i ==> (#[trigger] r@[k])@ == plain_offer(found@[k]@, kind),
    {
        r.push(plain_candidate(found[i].as_str(), kind));
    }
    assert(offers(r@) =~= plain_offers(names::labels(found@), kind));
    assert(offered(offers(r@)) =~= names::labels(found@));
    r
}

/// Candidates for color names: the known ones, and those of the document.
pub fn color_name_candidates(model: &SemanticModel, prefix: &str, bundle: &Bundle) -> (r: Vec<
    CompletionCandidate,
>)
    ensures
        sorted_offers(offers(r@), colors_with(prefix@, *model, *bundle), CandidateKind::Color),
{
    let mut found: Vec<String> = Vec::new();
    let known: &[String] = color_names(bundle);
    union_names(&mut found, known, prefix);
    union_names(&mut found, model.color_defs.as_slice(), prefix);
    proof {
        assert(names::labels(known@) =~= bundle::strings(known@));
        assert(names::labels(model.color_defs@) =~= bundle::strings(model.color_defs@));
    }
    plain_candidates(&found, CandidateKind::Color)
}

/// Candidates for the labels of the document.
pub fn label_candidates(model: &SemanticModel, prefix: &str) -> (r: Vec<CompletionCandidate>)
    ensures
        sorted_offers(offers(r@), labels_with(prefix@, *model), CandidateKind::Label),
{
    let mut found: Vec<String> = Vec::new();
    union_names(&mut found, model.labels.as_slice(), prefix);
    assert(names::labels(model.labels@) =~= bundle::strings(model.labels@));
    plain_candidates(&found, CandidateKind::Label)
}

/// Candidates for command names, out of all tiers.
pub fn command_candidates(user_sigs: &SignatureDb, prefix: &str, bundle: &Bundle) -> (r: Vec<
    CompletionCandidate,
>)
    ensures
        sorted_offers(
            offers(r@),
            commands_with(prefix@, user_sigs@, *bundle),
            CandidateKind::Command,
        ),
{
    let mut found: Vec<String> = Vec::new();
    let curated: Vec<&str> = builtin(bundle).command_names();
    let own: Vec<&str> = user_sigs.command_names();
    let bulk: Vec<&str> = cwl(bundle).command_names();
    union_names(&mut found, curated.as_slice(), prefix);
    union_names(&mut found, own.as_slice(), prefix);
    union_names(&mut found, bulk.as_slice(), prefix);
    proof {
        assert(names::labels(curated@) =~= curated@.map_values(|n: &str| n@));
        assert(names::labels(own@) =~= own@.map_values(|n: &str| n@));
        assert(names::labels(bulk@) =~= bulk@.map_values(|n: &str| n@));
    }
    plain_candidates(&found, CandidateKind::Command)
}

/// The candidate for environment `name`.
fn environment_candidate(name: &str, closing: bool) -> (r: CompletionCandidate)
    ensures
        r@ == environment_offer(name@, closing),
{
    if closing {
        plain_candidate(name, CandidateKind::Environment)
    } else {
        let mut snippet: String = name.to_string();
        snippet.append("}\n\t$0\n\\end{");
        snippet.append(name);
        snippet.append("}");
        CompletionCandidate {
            label: name.to_string(),
            kind: CandidateKind::Environment,
            insert_text: Some(snippet),
            snippet: true,
        }
    }
}

/// Candidates for environment names, out of all tiers.
pub fn environment_candidates(
    user_sigs: &SignatureDb,
    prefix: &str,
    closing: bool,
    bundle: &Bundle,
) -> (r: Vec<CompletionCandidate>)
    ensures
        environment_offers(
            offers(r@),
            environments_with(prefix@, user_sigs@, *bundle),
            closing,
        ),
{
    let mut found: Vec<String> = Vec::new();
    let curated: Vec<&str> = builtin(bundle).environment_names();
    let own: Vec<&str> = user_sigs.environment_names();
    let bulk: Vec<&str> = cwl(bundle).environment_names();
    union_names(&mut found, curated.as_slice(), prefix);
    union_names(&mut found, own.as_slice(), prefix);
    union_names(&mut found, bulk.as_slice(), prefix);
    proof {
        assert(names::labels(curated@) =~= curated@.map_values(|n: &str| n@));
        assert(names::labels(own@) =~= own@.map_values(|n: &str| n@));
        assert(names::labels(bulk@) =~= bulk@.map_values(|n: &str| n@));
    }
    let mut r: Vec<CompletionCandidate> = Vec::new();
    for i in 0..found.len()
        invariant
            r.len() == i,
            forall|k: int| 0 <= k < i ==> (#[trigger] r@[k])@ == environment_offer(found@[k]@, closing),
    {
        r.push(environment_candidate(found[i].as_str(), closing));
    }
    assert(offered(offers(r@)) =~= names::labels(found@));
    r
}

/// The candidates that answer `context`. Paths, citation keys and glossary keys are
/// found in other files, so nothing is offered for them here.
pub fn candidates(
    context: &CompletionContext,
    user_sigs: &SignatureDb,
    model: &SemanticModel,
    bundle: &Bundle,
) -> (r: Vec<CompletionCandidate>)
    ensures
        answers(offers(r@), context@, user_sigs@, *model, *bundle),
{
    match context {
        CompletionContext::CommandName { prefix } => command_candidates(
            user_sigs,
            prefix.as_str(),
            bundle,
        ),
        CompletionContext::EnvironmentName { prefix, closing } => environment_candidates(
            user_sigs,
            prefix.as_str(),
            *closing,
            bundle,
        ),
        CompletionContext::LabelRef { prefix } => label_candidates(model, prefix.as_str()),
        CompletionContext::PackageName { prefix, kind } => package_candidates(
            *kind,
            prefix.as_str(),
            bundle,
        ),
        CompletionContext::ColorName { prefix } => color_name_candidates(
            model,
            prefix.as_str(),
            bundle,
        ),
        CompletionContext::ColorModel { prefix } => static_candidates(
            color_models(bundle),
            prefix.as_str(),
            CandidateKind::ColorModel,
        ),
        CompletionContext::TikzLibrary { prefix, pgf } => {
            if *pgf {
                static_candidates(
                    pgf_libraries(bundle),
                    prefix.as_str(),
                    CandidateKind::TikzLibrary,
                )
            } else {
                static_candidates(
                    tikz_libraries(bundle),
                    prefix.as_str(),
                    CandidateKind::TikzLibrary,
                )
            }
        },
        CompletionContext::ArgumentEnum { prefix, values } => static_candidates(
            values.as_slice(),
            prefix.as_str(),
            CandidateKind::ArgumentEnum,
        ),
        CompletionContext::FilePath { .. }
        | CompletionContext::CitationKey { .. }
        | CompletionContext::GlossaryKey { .. }
        | CompletionContext::Nothing => {
            let r: Vec<CompletionCandidate> = Vec::new();
            assert(offers(r@) =~= Seq::<Offer>::empty());
            r
        },
    }
}

} // verus!
