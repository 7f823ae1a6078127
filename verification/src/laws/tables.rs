//! Laws of the tables that ship with the program.

use vstd::prelude::*;

use crate::names;
use crate::outside;
use crate::outside::EnumEntries;
use crate::semantic::bundle;
use crate::semantic::model::KeyCommands;
use crate::semantic::signature;
use crate::semantic::signature::ContentKind;

verus! {

/// A list of strings stands for their characters, one by one.
pub proof fn law_strings(list: Seq<String>, i: int)
    ensures
        bundle::strings(list).len() == list.len(),
        0 <= i < list.len() ==> bundle::strings(list)[i] == list[i]@,
{
}

/// The labels of strings are their characters, one by one, whether they are owned or
/// borrowed.
pub proof fn law_labels(owned: Seq<String>, borrowed: Seq<&str>, i: int)
    ensures
        names::labels(owned).len() == owned.len(),
        0 <= i < owned.len() ==> names::labels(owned)[i] == owned[i]@,
        names::labels(borrowed).len() == borrowed.len(),
        0 <= i < borrowed.len() ==> names::labels(borrowed)[i] == borrowed[i]@,
{
}

/// The commands with a key are those of the three lists.
pub proof fn law_key_commands(keys: KeyCommands)
    ensures
        keys@.refs == bundle::strings(keys.refs@),
        keys@.cites == bundle::strings(keys.cites@),
        keys@.glossary == bundle::strings(keys.glossary@),
{
}

/// A line of a name list that holds no name: an empty one, a comment, or the rule.
pub open spec fn skipped(line: Seq<char>) -> bool {
    line.len() == 0 || line[0] == '#' || line == "---"@
}

/// What a name list gives, line by line: the first line, which may end in a carriage
/// return before its line feed, gives its name unless it is empty, a comment or the
/// rule, and the lines behind it give theirs. The last line needs no line feed, and an
/// empty text gives nothing.
pub proof fn law_name_list_by_lines(line: Seq<char>, rest: Seq<char>)
    requires
        !line.contains('\n'),
    ensures
        (line.len() == 0 || line.last() != '\r') ==> bundle::listed_names(
            line + seq!['\n'] + rest,
        ) == (if skipped(line) {
            Seq::empty()
        } else {
            seq![line]
        }) + bundle::listed_names(rest),
        bundle::listed_names(line + seq!['\r', '\n'] + rest) == (if skipped(line) {
            Seq::empty()
        } else {
            seq![line]
        }) + bundle::listed_names(rest),
        bundle::listed_names(line) == (if skipped(line) {
            Seq::<Seq<char>>::empty()
        } else {
            seq![line]
        }),
{
    lemma_unended(line);
    lemma_lines(line, rest);
    lemma_filter_two(line, bundle::lines(rest));
    let returned = line.push('\r');
    if returned.contains('\n') {
        let k = choose|k: int| 0 <= k < returned.len() && returned[k] == '\n';
        assert(line[k] == '\n');
    }
    lemma_lines(returned, rest);
    assert(returned.drop_last() =~= line);
    assert(line + seq!['\r', '\n'] + rest =~= returned + seq!['\n'] + rest);
    lemma_filter_one(line);
    if line.len() == 0 {
        assert(bundle::lines(line) =~= Seq::<Seq<char>>::empty());
        reveal(Seq::filter);
    } else {
        assert(bundle::lines(line) =~= seq![line]);
    }
}

/// A text without a line feed is one line that has not ended.
proof fn lemma_unended(line: Seq<char>)
    requires
        !line.contains('\n'),
    ensures
        bundle::split_lines(line).0.len() == 0,
        bundle::split_lines(line).1 == line,
    decreases line.len(),
{
    if line.len() > 0 {
        let rest = line.drop_last();
        if rest.contains('\n') {
            let k = choose|k: int| 0 <= k < rest.len() && rest[k] == '\n';
            assert(line[k] == '\n');
        }
        lemma_unended(rest);
        assert(line.contains(line[line.len() - 1]));
        assert(rest.push(line.last()) =~= line);
    }
}

/// The lines of a text are its first line and the lines of what follows it.
proof fn lemma_lines(line: Seq<char>, rest: Seq<char>)
    requires
        !line.contains('\n'),
    ensures
        bundle::split_lines(line + seq!['\n'] + rest).0 == seq![bundle::without_return(line)]
            + bundle::split_lines(rest).0,
        bundle::split_lines(line + seq!['\n'] + rest).1 == bundle::split_lines(rest).1,
        bundle::lines(line + seq!['\n'] + rest) == seq![bundle::without_return(line)]
            + bundle::lines(rest),
    decreases rest.len(),
{
    let s = line + seq!['\n'] + rest;
    let first = seq![bundle::without_return(line)];
    if rest.len() == 0 {
        lemma_unended(line);
        assert(s.drop_last() =~= line);
        assert(s.last() == '\n');
        assert(bundle::split_lines(s).0 =~= first + bundle::split_lines(rest).0);
        assert(bundle::lines(s) =~= first + bundle::lines(rest));
    } else {
        let shorter = rest.drop_last();
        lemma_lines(line, shorter);
        assert(s.drop_last() =~= line + seq!['\n'] + shorter);
        assert(s.last() == rest.last());
        assert(bundle::split_lines(s).0 =~= first + bundle::split_lines(rest).0);
        assert(bundle::lines(s) =~= first + bundle::lines(rest));
    }
}

/// Filtering one line.
proof fn lemma_filter_one(line: Seq<char>)
    ensures
        seq![line].filter(|l: Seq<char>| bundle::holds_name(l)) == (if skipped(line) {
            Seq::empty()
        } else {
            seq![line]
        }),
{
    reveal(Seq::filter);
    let one = seq![line];
    let none = Seq::<Seq<char>>::empty();
    assert(one.drop_last() =~= none);
    assert(none.filter(|l: Seq<char>| bundle::holds_name(l)) =~= none);
    assert(none.push(line) =~= one);
}

/// Filtering a line and those behind it.
proof fn lemma_filter_two(line: Seq<char>, more: Seq<Seq<char>>)
    ensures
        (seq![line] + more).filter(|l: Seq<char>| bundle::holds_name(l)) == (if skipped(line) {
            Seq::empty()
        } else {
            seq![line]
        }) + more.filter(|l: Seq<char>| bundle::holds_name(l)),
{
    lemma_filter_one(line);
    Seq::filter_distributes_over_add(seq![line], more, |l: Seq<char>| bundle::holds_name(l));
}

/// The table of argument values holds its entries as they were given.
pub proof fn law_enum_entries(entries: EnumEntries, i: int, j: int, k: int)
    ensures
        ({
            let table = outside::enum_entries(entries@);
            &&& table.len() == entries@.len()
            &&& 0 <= i < entries@.len() ==> {
                &&& table[i].0 == entries@[i].0@
                &&& table[i].1.len() == entries@[i].1@.len()
                &&& 0 <= j < entries@[i].1@.len() ==> {
                    &&& table[i].1[j].0 == entries@[i].1@[j].0
                    &&& table[i].1[j].1.len() == entries@[i].1@[j].1@.len()
                    &&& 0 <= k < entries@[i].1@[j].1@.len() ==> table[i].1[j].1[k]
                        == entries@[i].1@[j].1@[k]@
                }
            }
        }),
{
}

/// The values of an argument are those that the last entry of its command gives its
/// position, the last time that it gives it any; there are none when that entry gives
/// none, or when the command has no entry.
pub proof fn law_enum_values(
    entries: Seq<(Seq<char>, Seq<(usize, Seq<Seq<char>>)>)>,
    name: Seq<char>,
    index: usize,
    e: int,
    s: int,
)
    ensures
        (forall|i: int| 0 <= i < entries.len() ==> (#[trigger] entries[i]).0 != name)
            ==> bundle::enum_values(entries, name, index) is None,
        is_last_entry(entries, name, e) ==> {
            let slots = entries[e].1;
            &&& (forall|i: int| 0 <= i < slots.len() ==> (#[trigger] slots[i]).0 != index)
                ==> bundle::enum_values(entries, name, index) is None
            &&& 0 <= s < slots.len() && slots[s].0 == index && (forall|i: int|
                s < i < slots.len() ==> (#[trigger] slots[i]).0 != index) ==> bundle::enum_values(
                entries,
                name,
                index,
            ) == Some(slots[s].1)
        },
    decreases entries.len(),
{
    if entries.len() > 0 {
        let last = entries.len() - 1;
        let rest = entries.drop_last();
        assert(entries[last] == entries.last());
        law_enum_values(rest, name, index, e, s);
        lemma_slot_values(entries.last().1, index, s);
        if forall|i: int| 0 <= i < entries.len() ==> (#[trigger] entries[i]).0 != name {
            assert(entries[last].0 != name);
            assert forall|i: int| 0 <= i < rest.len() implies (#[trigger] rest[i]).0 != name by {
                assert(entries[i].0 != name);
            }
        }
        if is_last_entry(entries, name, e) && e < last {
            assert(entries[last].0 != name);
            assert(rest[e] == entries[e]);
            assert forall|i: int| e < i < rest.len() implies (#[trigger] rest[i]).0 != name by {
                assert(entries[i].0 != name);
            }
        }
    }
}

/// Entry `e` is the last one of command `name`.
pub open spec fn is_last_entry(
    entries: Seq<(Seq<char>, Seq<(usize, Seq<Seq<char>>)>)>,
    name: Seq<char>,
    e: int,
) -> bool {
    &&& 0 <= e < entries.len()
    &&& entries[e].0 == name
    &&& forall|i: int| e < i < entries.len() ==> (#[trigger] entries[i]).0 != name
}

/// What the slots of one entry give.
proof fn lemma_slot_values(slots: Seq<(usize, Seq<Seq<char>>)>, index: usize, s: int)
    ensures
        (forall|i: int| 0 <= i < slots.len() ==> (#[trigger] slots[i]).0 != index)
            ==> bundle::slot_values(slots, index) is None,
        0 <= s < slots.len() && slots[s].0 == index && (forall|i: int|
            s < i < slots.len() ==> (#[trigger] slots[i]).0 != index) ==> bundle::slot_values(
            slots,
            index,
        ) == Some(slots[s].1),
    decreases slots.len(),
{
    if slots.len() > 0 {
        let last = slots.len() - 1;
        let rest = slots.drop_last();
        assert(slots[last] == slots.last());
        lemma_slot_values(rest, index, s);
        if forall|i: int| 0 <= i < slots.len() ==> (#[trigger] slots[i]).0 != index {
            assert(slots[last].0 != index);
            assert forall|i: int| 0 <= i < rest.len() implies (#[trigger] rest[i]).0 != index by {
                assert(slots[i].0 != index);
            }
        }
        if 0 <= s < last && slots[s].0 == index && forall|i: int|
            s < i < slots.len() ==> (#[trigger] slots[i]).0 != index {
            assert(slots[last].0 != index);
            assert(rest[s] == slots[s]);
            assert forall|i: int| s < i < rest.len() implies (#[trigger] rest[i]).0 != index by {
                assert(slots[i].0 != index);
            }
        }
    }
}

/// A map that is part of the program gives each key of its entries the value beside it,
/// and no other name any.
pub proof fn law_baked_map<T: View>(entries: Seq<(Seq<char>, T)>, i: int, name: Seq<char>)
    ensures
        0 <= i < entries.len() && (forall|j: int|
            0 <= j < entries.len() && (#[trigger] entries[j]).0 == entries[i].0 ==> j == i)
            ==> bundle::baked_map(entries).contains_key(entries[i].0) && bundle::baked_map(
            entries,
        )[entries[i].0] == entries[i].1@,
        (forall|j: int| 0 <= j < entries.len() ==> (#[trigger] entries[j]).0 != name)
            ==> !bundle::baked_map(entries).contains_key(name),
{
    if 0 <= i < entries.len() && forall|j: int|
        0 <= j < entries.len() && (#[trigger] entries[j]).0 == entries[i].0 ==> j == i {
        let n = entries[i].0;
        assert(entries[i].0 == n);
        let k = choose|k: int| 0 <= k < entries.len() && (#[trigger] entries[k]).0 == n;
        assert(k == i);
    }
}

/// Listed values are those of the map: as many as it has names, and the value of each
/// name among them.
pub proof fn law_values_listed<T>(values: Seq<T>, map: Map<Seq<char>, T>)
    requires
        bundle::lists_values(values, map),
    ensures
        values.len() == map.dom().len(),
        forall|n: Seq<char>| #[trigger] map.contains_key(n) ==> values.contains(map[n]),
        exists|listed: Seq<Seq<char>>|
            {
                &&& #[trigger] listed.len() == values.len()
                &&& listed.no_duplicates()
                &&& forall|i: int|
                    0 <= i < listed.len() ==> map.contains_key(#[trigger] listed[i])
                        && map[listed[i]] == values[i]
            },
{
    let listed = choose|listed: Seq<Seq<char>>| bundle::lists_values_of(values, map, listed);
    names::lemma_listing_len(listed, map);
    assert forall|n: Seq<char>| #[trigger] map.contains_key(n) implies values.contains(map[n]) by {
        assert(listed.contains(n));
        let i = choose|i: int| 0 <= i < listed.len() && listed[i] == n;
        assert(values[i] == map[n]);
    }
    assert forall|i: int| 0 <= i < listed.len() implies map.contains_key(#[trigger] listed[i])
        && map[listed[i]] == values[i] by {
        assert(listed.contains(listed[i]));
    }
    assert(listed.len() == values.len());
}

/// A tier carries arity only when no signature of it says more than which arguments
/// there are: no section level, no verbatim, no rule, no content, no kind of body, no
/// outline.
pub proof fn law_arity_only(tier: bundle::Tier)
    ensures
        bundle::arity_only(tier) <==> {
            &&& forall|n: Seq<char>| #[trigger]
                tier.commands.contains_key(n) ==> {
                    let sig = tier.commands[n];
                    &&& sig.sectioning is None
                    &&& !sig.verbatim && !sig.verbatim_delimited && !sig.rule && !sig.inline
                    &&& no_content(sig.args)
                }
            &&& forall|n: Seq<char>| #[trigger]
                tier.environments.contains_key(n) ==> {
                    let sig = tier.environments[n];
                    &&& !sig.verbatim_body && !sig.verbatim_arg && !sig.math && !sig.code
                    &&& !sig.align && !sig.no_indent && !sig.list && !sig.block && sig.reflow
                    &&& sig.outline is None
                    &&& no_content(sig.args)
                }
        },
{
    assert forall|n: Seq<char>| #[trigger]
        tier.commands.contains_key(n) implies (signature::arity_only_command(tier.commands[n]) <==> {
        let sig = tier.commands[n];
        &&& sig.sectioning is None
        &&& !sig.verbatim && !sig.verbatim_delimited && !sig.rule && !sig.inline
        &&& no_content(sig.args)
    }) by {
    }
    assert forall|n: Seq<char>| #[trigger]
        tier.environments.contains_key(n) implies (signature::arity_only_environment(
        tier.environments[n],
    ) <==> {
        let sig = tier.environments[n];
        &&& !sig.verbatim_body && !sig.verbatim_arg && !sig.math && !sig.code
        &&& !sig.align && !sig.no_indent && !sig.list && !sig.block && sig.reflow
        &&& sig.outline is None
        &&& no_content(sig.args)
    }) by {
    }
}

/// No slot says how its content is treated.
pub open spec fn no_content(args: Seq<signature::ArgSpec>) -> bool {
    forall|i: int| 0 <= i < args.len() ==> (#[trigger] args[i]).content == ContentKind::Opaque
}

} // verus!
