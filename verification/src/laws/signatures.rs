//! Laws of the signature tables.

use std::borrow::Cow;

use vstd::prelude::*;

use crate::laws::order;
use crate::names;
use crate::semantic::bundle;
use crate::semantic::bundle::Signatures;
use crate::semantic::raw;
use crate::semantic::signature;
use crate::semantic::signature::{ArgKind, ContentKind, OutlineKind};

verus! {

/// The last definition wins: after a merge, a name that the merged tier defines means
/// what it means there, and every other name means what it meant before.
pub proof fn law_last_definition_wins(
    db: signature::Knowledge,
    other: signature::Knowledge,
    name: Seq<char>,
)
    ensures
        ({
            let r = signature::merged(db, other);
            &&& other.commands.contains_key(name) ==> r.commands.contains_key(name)
                && r.commands[name] == other.commands[name]
            &&& !other.commands.contains_key(name) ==> r.commands.contains_key(name)
                == db.commands.contains_key(name) && (db.commands.contains_key(name) ==> r.commands[name]
                == db.commands[name])
            &&& other.environments.contains_key(name) ==> r.environments.contains_key(name)
                && r.environments[name] == other.environments[name]
            &&& !other.environments.contains_key(name) ==> r.environments.contains_key(name)
                == db.environments.contains_key(name) && (db.environments.contains_key(name)
                ==> r.environments[name] == db.environments[name])
        }),
{
}

/// Signatures that come with no origin strip the origin of every name that they
/// shadow, and leave that of every other name.
pub proof fn law_overlay_strips_origins(
    db: signature::Knowledge,
    overlay: signature::Knowledge,
    name: Seq<char>,
)
    requires
        overlay.command_origins == Map::<Seq<char>, Seq<char>>::empty(),
        overlay.environment_origins == Map::<Seq<char>, Seq<char>>::empty(),
    ensures
        ({
            let r = signature::merged(db, overlay);
            &&& overlay.commands.contains_key(name) ==> !r.command_origins.contains_key(name)
            &&& !overlay.commands.contains_key(name) ==> r.command_origins.contains_key(name)
                == db.command_origins.contains_key(name) && (db.command_origins.contains_key(name)
                ==> r.command_origins[name] == db.command_origins[name])
            &&& overlay.environments.contains_key(name)
                ==> !r.environment_origins.contains_key(name)
            &&& !overlay.environments.contains_key(name) ==> r.environment_origins.contains_key(
                name,
            ) == db.environment_origins.contains_key(name) && (
            db.environment_origins.contains_key(name) ==> r.environment_origins[name]
                == db.environment_origins[name])
        }),
{
}

/// A merge hands on the origins that the merged tier has itself.
pub proof fn law_merge_hands_on_origins(
    db: signature::Knowledge,
    other: signature::Knowledge,
    name: Seq<char>,
)
    requires
        signature::origins_known(other.command_origins, other.commands),
        signature::origins_known(other.environment_origins, other.environments),
    ensures
        ({
            let r = signature::merged(db, other);
            &&& other.command_origins.contains_key(name) ==> r.command_origins.contains_key(name)
                && r.command_origins[name] == other.command_origins[name]
            &&& other.environment_origins.contains_key(name)
                ==> r.environment_origins.contains_key(name) && r.environment_origins[name]
                == other.environment_origins[name]
        }),
{
}

/// After the merge of a package every name that it defines has the package for
/// origin, whatever its origin was before, and means what it means in the package.
pub proof fn law_package_is_origin(
    db: signature::Knowledge,
    package: signature::Knowledge,
    origin: Seq<char>,
    name: Seq<char>,
)
    ensures
        ({
            let r = signature::merged_package(db, package, origin);
            &&& package.commands.contains_key(name) ==> r.command_origins.contains_key(name)
                && r.command_origins[name] == origin && r.commands[name] == package.commands[name]
            &&& package.environments.contains_key(name) ==> r.environment_origins.contains_key(name)
                && r.environment_origins[name] == origin && r.environments[name]
                == package.environments[name]
        }),
{
}

/// Of two packages that define one name the one that is merged last has it.
pub proof fn law_later_package_wins(
    db: signature::Knowledge,
    first: signature::Knowledge,
    first_origin: Seq<char>,
    second: signature::Knowledge,
    second_origin: Seq<char>,
    name: Seq<char>,
)
    ensures
        ({
            let r = signature::merged_package(
                signature::merged_package(db, first, first_origin),
                second,
                second_origin,
            );
            &&& first.commands.contains_key(name) && second.commands.contains_key(name)
                ==> r.command_origins[name] == second_origin && r.commands[name]
                == second.commands[name]
            &&& first.environments.contains_key(name) && second.environments.contains_key(name)
                ==> r.environment_origins[name] == second_origin && r.environments[name]
                == second.environments[name]
        }),
{
}

/// Merging a package that has been merged into an empty scope is merging the package.
pub proof fn law_package_through_scope(
    db: signature::Knowledge,
    package: signature::Knowledge,
    origin: Seq<char>,
)
    ensures
        signature::merged(db, signature::merged_package(signature::no_knowledge(), package, origin))
            == signature::merged_package(db, package, origin),
{
    let scope = signature::merged_package(signature::no_knowledge(), package, origin);
    let a = signature::merged(db, scope);
    let b = signature::merged_package(db, package, origin);
    assert(scope.commands =~= package.commands);
    assert(scope.environments =~= package.environments);
    assert(a.command_origins =~= b.command_origins);
    assert(a.environment_origins =~= b.environment_origins);
}

/// The order in which merges are grouped does not matter.
pub proof fn law_merge_associative(
    a: signature::Knowledge,
    b: signature::Knowledge,
    c: signature::Knowledge,
)
    ensures
        signature::merged(signature::merged(a, b), c) == signature::merged(
            a,
            signature::merged(b, c),
        ),
{
    let x = signature::merged(signature::merged(a, b), c);
    let y = signature::merged(a, signature::merged(b, c));
    assert(x.commands =~= y.commands);
    assert(x.environments =~= y.environments);
    assert(x.command_origins =~= y.command_origins);
    assert(x.environment_origins =~= y.environment_origins);
}

/// A merge of nothing, and a merge for the second time, change nothing.
pub proof fn law_merge_idle(db: signature::Knowledge, other: signature::Knowledge)
    ensures
        signature::merged(db, signature::no_knowledge()) == db,
        signature::merged(signature::merged(db, other), other) == signature::merged(db, other),
{
    let idle = signature::merged(db, signature::no_knowledge());
    assert(idle.commands =~= db.commands);
    assert(idle.environments =~= db.environments);
    assert(idle.command_origins =~= db.command_origins);
    assert(idle.environment_origins =~= db.environment_origins);
    let once = signature::merged(db, other);
    let twice = signature::merged(once, other);
    assert(twice.commands =~= once.commands);
    assert(twice.environments =~= once.environments);
    assert(twice.command_origins =~= once.command_origins);
    assert(twice.environment_origins =~= once.environment_origins);
}

/// Every origin of a table belongs to a name that has a signature.
pub open spec fn all_origins_known(db: signature::Knowledge) -> bool {
    &&& signature::origins_known(db.command_origins, db.commands)
    &&& signature::origins_known(db.environment_origins, db.environments)
}

/// Origins always describe names that have a signature: merging keeps that.
pub proof fn law_origins_stay_known(
    db: signature::Knowledge,
    other: signature::Knowledge,
    origin: Seq<char>,
)
    requires
        all_origins_known(db),
        all_origins_known(other),
    ensures
        all_origins_known(signature::merged(db, other)),
        all_origins_known(signature::merged_package(db, other, origin)),
{
}

/// A definition of the document shadows the curated one, and the curated one shadows
/// the bulk tier; a name that only the bulk tier knows still resolves.
pub proof fn law_tier_order<T>(
    user: Map<Seq<char>, T>,
    builtin: Map<Seq<char>, T>,
    cwl: Map<Seq<char>, T>,
    name: Seq<char>,
)
    ensures
        user.contains_key(name) ==> bundle::resolved(user, builtin, cwl, name) == Some(user[name]),
        !user.contains_key(name) && builtin.contains_key(name) ==> bundle::resolved(
            user,
            builtin,
            cwl,
            name,
        ) == Some(builtin[name]),
        !user.contains_key(name) && !builtin.contains_key(name) && cwl.contains_key(name)
            ==> bundle::resolved(user, builtin, cwl, name) == Some(cwl[name]),
        bundle::resolved(user, builtin, cwl, name) is None <==> !user.contains_key(name)
            && !builtin.contains_key(name) && !cwl.contains_key(name),
{
}

/// A name that only the bulk tier knows resolves to its argument shape and nothing more,
/// as long as the tier knows nothing more: no flag of it reaches a decision.
pub proof fn law_bulk_only_names_are_plain(signatures: Signatures, name: Seq<char>)
    requires
        bundle::arity_only(signatures.bundle.cwl@),
    ensures
        !signatures.user@.commands.contains_key(name)
            && !signatures.bundle.builtin@.commands.contains_key(name) ==> (
        signatures.command_shape(name) matches Some(shape) ==> signature::arity_only_command(shape)),
        !signatures.user@.environments.contains_key(name)
            && !signatures.bundle.builtin@.environments.contains_key(name) ==> (
        signatures.environment_shape(name) matches Some(shape)
            ==> signature::arity_only_environment(shape)),
{
}

/// A listing of the bulk tier's names that lists each known name once, and no other,
/// is as long as the tier is large: every name of it is known, every known name is in
/// it, and at one place only.
pub proof fn law_bulk_names_listed_once(tier: bundle::Tier, listed: Seq<Seq<char>>)
    requires
        names::lists_once(listed, |n: Seq<char>| tier.commands.contains_key(n)),
    ensures
        tier.commands.dom().finite(),
        listed.len() == tier.commands.dom().len(),
        forall|n: Seq<char>| #[trigger] listed.contains(n) <==> tier.commands.contains_key(n),
        forall|i: int, j: int|
            0 <= i < j < listed.len() ==> #[trigger] listed[i] != #[trigger] listed[j],
{
    names::lemma_listing_len(listed, tier.commands);
}

/// `reflow` and `block` are derived in one way, however a signature came about: two
/// environments that agree in all that is written down agree in both.
pub proof fn law_one_derivation(
    a: signature::EnvironmentShape,
    b: signature::EnvironmentShape,
    block_explicit: bool,
)
    requires
        signature::derived(a, block_explicit),
        signature::derived(b, block_explicit),
        a.verbatim_body == b.verbatim_body,
        a.math == b.math,
        a.code == b.code,
        a.list == b.list,
        a.no_indent == b.no_indent,
    ensures
        a.reflow == b.reflow,
        a.block == b.block,
{
}

/// A table that was read from its written form knows of every environment what one of
/// its entries says, `reflow` and `block` derived from it.
pub proof fn law_read_table(entries: Seq<(String, raw::RawEnvironment)>, name: Seq<char>)
    requires
        raw::entries_map(entries).contains_key(name),
    ensures
        exists|i: int|
            0 <= i < entries.len() && (#[trigger] entries[i]).0@ == name && raw::entries_map(
                entries,
            )[name] == entries[i].1@ && signature::derived(entries[i].1@, entries[i].1.block),
    decreases entries.len(),
{
    let last = entries.len() - 1;
    if entries.last().0@ == name {
        assert(entries[last].0@ == name);
    } else {
        law_read_table(entries.drop_last(), name);
        let rest = entries.drop_last();
        let i = choose|i: int|
            0 <= i < rest.len() && (#[trigger] rest[i]).0@ == name && raw::entries_map(rest)[name]
                == rest[i].1@ && signature::derived(rest[i].1@, rest[i].1.block);
        assert(entries[i] == rest[i]);
    }
}

/// The names of a name list are its lines without the empty ones, the comments and
/// the rule, in the order of the lines.
pub proof fn law_name_list(source: Seq<char>)
    ensures
        order::keeps_order(
            bundle::listed_names(source),
            bundle::lines(source),
            |line: Seq<char>| bundle::holds_name(line),
        ),
{
    order::lemma_filter_keeps_order(
        bundle::lines(source),
        |line: Seq<char>| bundle::holds_name(line),
    );
}

/// After a merge the origin of a name is that of the tier that defined it last: the
/// merged tier's, or none where that has none, for each name that the merged tier
/// defines, and the earlier one for every other name.
pub proof fn law_origin_follows_definition(
    db: signature::Knowledge,
    other: signature::Knowledge,
    name: Seq<char>,
)
    ensures
        ({
            let r = signature::merged(db, other);
            let command = if other.commands.contains_key(name) {
                other.command_origins
            } else {
                db.command_origins
            };
            let environment = if other.environments.contains_key(name) {
                other.environment_origins
            } else {
                db.environment_origins
            };
            &&& r.command_origins.contains_key(name) == command.contains_key(name)
            &&& command.contains_key(name) ==> r.command_origins[name] == command[name]
            &&& r.environment_origins.contains_key(name) == environment.contains_key(name)
            &&& environment.contains_key(name) ==> r.environment_origins[name] == environment[name]
        }),
{
}

/// The merge of a package changes nothing of a name that the package does not define,
/// and makes every name that it defines known.
pub proof fn law_package_leaves_other_names(
    db: signature::Knowledge,
    package: signature::Knowledge,
    origin: Seq<char>,
    name: Seq<char>,
)
    ensures
        ({
            let r = signature::merged_package(db, package, origin);
            &&& package.commands.contains_key(name) ==> r.commands.contains_key(name)
            &&& !package.commands.contains_key(name) ==> {
                &&& r.commands.contains_key(name) == db.commands.contains_key(name)
                &&& db.commands.contains_key(name) ==> r.commands[name] == db.commands[name]
                &&& r.command_origins.contains_key(name) == db.command_origins.contains_key(name)
                &&& db.command_origins.contains_key(name) ==> r.command_origins[name]
                    == db.command_origins[name]
            }
            &&& package.environments.contains_key(name) ==> r.environments.contains_key(name)
            &&& !package.environments.contains_key(name) ==> {
                &&& r.environments.contains_key(name) == db.environments.contains_key(name)
                &&& db.environments.contains_key(name) ==> r.environments[name]
                    == db.environments[name]
                &&& r.environment_origins.contains_key(name)
                    == db.environment_origins.contains_key(name)
                &&& db.environment_origins.contains_key(name) ==> r.environment_origins[name]
                    == db.environment_origins[name]
            }
        }),
{
}

/// An empty table knows no name and no origin.
pub proof fn law_empty_table(name: Seq<char>)
    ensures
        !signature::no_knowledge().commands.contains_key(name),
        !signature::no_knowledge().environments.contains_key(name),
        !signature::no_knowledge().command_origins.contains_key(name),
        !signature::no_knowledge().environment_origins.contains_key(name),
{
}

/// A command resolves by the document's commands, the curated ones and the bulk ones,
/// in this order; an environment by the environments of the three.
pub proof fn law_signatures_by_tier(signatures: Signatures, name: Seq<char>)
    ensures
        ({
            let user = signatures.user@.commands;
            let builtin = signatures.bundle.builtin@.commands;
            let cwl = signatures.bundle.cwl@.commands;
            let r = signatures.command_shape(name);
            &&& user.contains_key(name) ==> r == Some(user[name])
            &&& !user.contains_key(name) && builtin.contains_key(name) ==> r == Some(builtin[name])
            &&& !user.contains_key(name) && !builtin.contains_key(name) && cwl.contains_key(name)
                ==> r == Some(cwl[name])
            &&& !user.contains_key(name) && !builtin.contains_key(name) && !cwl.contains_key(name)
                ==> r is None
        }),
        ({
            let user = signatures.user@.environments;
            let builtin = signatures.bundle.builtin@.environments;
            let cwl = signatures.bundle.cwl@.environments;
            let r = signatures.environment_shape(name);
            &&& user.contains_key(name) ==> r == Some(user[name])
            &&& !user.contains_key(name) && builtin.contains_key(name) ==> r == Some(builtin[name])
            &&& !user.contains_key(name) && !builtin.contains_key(name) && cwl.contains_key(name)
                ==> r == Some(cwl[name])
            &&& !user.contains_key(name) && !builtin.contains_key(name) && !cwl.contains_key(name)
                ==> r is None
        }),
{
}

/// The shape of a command's signature holds every field of it, and the slots in their
/// order.
pub proof fn law_command_shape(sig: signature::CommandSig)
    ensures
        sig@.sectioning == sig.sectioning,
        sig@.verbatim == sig.verbatim,
        sig@.verbatim_delimited == sig.verbatim_delimited,
        sig@.rule == sig.rule,
        sig@.inline == sig.inline,
        sig.args matches Cow::Borrowed(borrowed) ==> sig@.args == borrowed@,
        sig.args matches Cow::Owned(owned) ==> sig@.args == owned@,
{
}

/// The shape of an environment's signature holds every field of it, and the slots in
/// their order.
pub proof fn law_environment_shape(sig: signature::EnvironmentSig)
    ensures
        sig@.verbatim_body == sig.verbatim_body,
        sig@.verbatim_arg == sig.verbatim_arg,
        sig@.math == sig.math,
        sig@.code == sig.code,
        sig@.align == sig.align,
        sig@.reflow == sig.reflow,
        sig@.no_indent == sig.no_indent,
        sig@.list == sig.list,
        sig@.block == sig.block,
        sig@.outline == sig.outline,
        sig.args matches Cow::Borrowed(borrowed) ==> sig@.args == borrowed@,
        sig.args matches Cow::Owned(owned) ==> sig@.args == owned@,
{
}

/// A command or an environment of which nothing is known has no argument and no flag,
/// but that its body may be reflowed.
pub proof fn law_plain_shapes()
    ensures
        ({
            let command = signature::plain_command();
            &&& command.args.len() == 0
            &&& command.sectioning is None
            &&& !command.verbatim
            &&& !command.verbatim_delimited
            &&& !command.rule
            &&& !command.inline
        }),
        ({
            let environment = signature::plain_environment();
            &&& environment.args.len() == 0
            &&& !environment.verbatim_body
            &&& !environment.verbatim_arg
            &&& !environment.math
            &&& !environment.code
            &&& !environment.align
            &&& environment.reflow
            &&& !environment.no_indent
            &&& !environment.list
            &&& !environment.block
            &&& environment.outline is None
        }),
{
}

/// Derived flags: a body that is verbatim, math or code is never reflowed and any other
/// one always is; math, lists and unindented bodies are blocks, and so is what was
/// written as one.
pub proof fn law_derived_flags(shape: signature::EnvironmentShape, block: bool)
    requires
        signature::derived(shape, block),
    ensures
        shape.verbatim_body || shape.math || shape.code ==> !shape.reflow,
        !shape.verbatim_body && !shape.math && !shape.code ==> shape.reflow,
        shape.math || shape.list || shape.no_indent || block ==> shape.block,
        !shape.math && !shape.list && !shape.no_indent && !block ==> !shape.block,
{
}

/// A written slot is mandatory and braced, or optional and bracketed, and its content is
/// opaque where none is written.
pub proof fn law_written_slot(kind: raw::RawArgKind, content: raw::RawContentKind)
    ensures
        ({
            let short = raw::slot(raw::RawArg::Short(kind));
            let full = raw::slot(raw::RawArg::Full { kind, content });
            &&& short.required <==> kind == raw::RawArgKind::Req
            &&& short.kind == ArgKind::Brace <==> kind == raw::RawArgKind::Req
            &&& short.content == ContentKind::Opaque
            &&& full.required == short.required
            &&& full.kind == short.kind
            &&& full.content == ContentKind::Prose <==> content == raw::RawContentKind::Prose
            &&& full.content == ContentKind::TokenList <==> content
                == raw::RawContentKind::TokenList
        }),
{
}

/// A written command keeps its flags, and has one slot for each that is written.
pub proof fn law_written_command(command: raw::RawCommand, i: int)
    ensures
        command@.sectioning == command.sectioning,
        command@.verbatim == command.verbatim,
        command@.verbatim_delimited == command.verbatim_delimited,
        command@.rule == command.rule,
        command@.inline == command.inline,
        command@.args.len() == command.args@.len(),
        0 <= i < command.args@.len() ==> command@.args[i] == raw::slot(command.args@[i]),
{
}

/// A written environment keeps its flags. Its body may be reflowed unless it is
/// verbatim, math or code; it is a block where that is written, or where it is math, a
/// list or unindented.
pub proof fn law_written_environment(environment: raw::RawEnvironment, i: int)
    ensures
        environment@.verbatim_body == environment.verbatim_body,
        environment@.verbatim_arg == environment.verbatim_arg,
        environment@.math == environment.math,
        environment@.code == environment.code,
        environment@.align == environment.align,
        environment@.no_indent == environment.no_indent,
        environment@.list == environment.list,
        environment@.reflow <==> !environment.verbatim_body && !environment.math
            && !environment.code,
        environment@.block <==> environment.block || environment.math || environment.list
            || environment.no_indent,
        environment@.outline == Some(OutlineKind::Float) <==> environment.outline == Some(
            raw::RawOutlineKind::Float,
        ),
        environment@.outline == Some(OutlineKind::Theorem) <==> environment.outline == Some(
            raw::RawOutlineKind::Theorem,
        ),
        environment@.args.len() == environment.args@.len(),
        0 <= i < environment.args@.len() ==> environment@.args[i] == raw::slot(
            environment.args@[i],
        ),
{
}

/// Of the entries of a written table with one name the last counts; a name that no entry
/// has is not known.
pub proof fn law_last_entry_counts<T: View>(entries: Seq<(String, T)>, i: int, name: Seq<char>)
    ensures
        0 <= i < entries.len() && (forall|j: int|
            i < j < entries.len() ==> (#[trigger] entries[j]).0@ != entries[i].0@)
            ==> raw::entries_map(entries).contains_key(entries[i].0@) && raw::entries_map(
            entries,
        )[entries[i].0@] == entries[i].1@,
        (forall|j: int| 0 <= j < entries.len() ==> (#[trigger] entries[j]).0@ != name)
            ==> !raw::entries_map(entries).contains_key(name),
    decreases entries.len(),
{
    if entries.len() > 0 {
        let rest = entries.drop_last();
        let last = entries.len() - 1;
        law_last_entry_counts(rest, i, name);
        assert(entries[last] == entries.last());
        if 0 <= i < last {
            assert(rest[i] == entries[i]);
            if forall|j: int| i < j < entries.len() ==> (#[trigger] entries[j]).0@ != entries[i].0@ {
                assert(entries[last].0@ != entries[i].0@);
                assert forall|j: int| i < j < rest.len() implies (#[trigger] rest[j]).0@
                    != rest[i].0@ by {
                    assert(entries[j].0@ != entries[i].0@);
                }
            }
        }
        if forall|j: int| 0 <= j < entries.len() ==> (#[trigger] entries[j]).0@ != name {
            assert(entries[last].0@ != name);
            assert forall|j: int| 0 <= j < rest.len() implies (#[trigger] rest[j]).0@ != name by {
                assert(entries[j].0@ != name);
            }
        }
    }
}

/// A written table names no origin, and knows of commands and environments what its
/// entries say.
pub proof fn law_written_table(db: raw::RawDb, name: Seq<char>)
    ensures
        !db@.command_origins.contains_key(name),
        !db@.environment_origins.contains_key(name),
        db@.commands == raw::entries_map(db.commands@),
        db@.environments == raw::entries_map(db.environments@),
{
}

} // verus!
