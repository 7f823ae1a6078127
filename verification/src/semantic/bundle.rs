//! The tables that ship with the program, and the lookup through their tiers: what
//! a document defines, what the curated table knows, and what the bulk table knows.

use vstd::prelude::*;
use vstd::string::*;
use vstd::utf8::*;

use crate::names;
use crate::outside;
use crate::outside::EnumEntries;
use crate::semantic::raw::RawDb;
use crate::semantic::signature;
use crate::semantic::signature::{CommandSig, EnvironmentSig, SignatureDb};
use crate::text::same_text;

verus! {

/// Why a table could not be read.
#[derive(Debug, Clone, Copy, PartialEq, Eq, Structural)]
pub enum DataError {
    /// The compressed form is damaged.
    Deflate,
    /// The text is not UTF-8.
    Utf8,
    /// The JSON does not have the expected form.
    Json,
}

/// The text that `bytes` encode.
pub fn decode_table(bytes: Vec<u8>) -> (r: Result<String, DataError>)
    ensures
        match r {
            Ok(text) => valid_utf8(bytes@) && text@ == decode_utf8(bytes@),
            Err(e) => !valid_utf8(bytes@) && e == DataError::Utf8,
        },
{
    match String::from_utf8(bytes) {
        Ok(text) => Ok(text),
        Err(_) => Err(DataError::Utf8),
    }
}

/// The text of a table that is kept compressed.
pub fn inflate_table(stream: &[u8]) -> (r: Result<String, DataError>)
    ensures
        match outside::inflated(stream@) {
            Some(bytes) => if valid_utf8(bytes) {
                r matches Ok(text) && text@ == decode_utf8(bytes)
            } else {
                r == Err::<String, DataError>(DataError::Utf8)
            },
            None => r == Err::<String, DataError>(DataError::Deflate),
        },
{
    match outside::decompress(stream) {
        Ok(bytes) => decode_table(bytes),
        Err(_) => Err(DataError::Deflate),
    }
}

/// What a tier of signatures knows.
pub struct Tier {
    pub commands: Map<Seq<char>, signature::CommandShape>,
    pub environments: Map<Seq<char>, signature::EnvironmentShape>,
}

/// The tier knows names and argument shapes alone: every other fact of its signatures
/// is the default.
pub open spec fn arity_only(tier: Tier) -> bool {
    &&& forall|n: Seq<char>| #[trigger]
        tier.commands.contains_key(n) ==> signature::arity_only_command(tier.commands[n])
    &&& forall|n: Seq<char>| #[trigger]
        tier.environments.contains_key(n) ==> signature::arity_only_environment(
            tier.environments[n],
        )
}

/// The map that the entries of a perfect-hash map make up.
pub open spec fn baked_map<T: View>(entries: Seq<(Seq<char>, T)>) -> Map<Seq<char>, T::V> {
    Map::new(
        |n: Seq<char>| exists|i: int| 0 <= i < entries.len() && (#[trigger] entries[i]).0 == n,
        |n: Seq<char>|
            entries[choose|i: int| 0 <= i < entries.len() && (#[trigger] entries[i]).0 == n].1@,
    )
}

/// `values` are those of `map` for the names `listed`, which are all its names, each
/// once.
pub open spec fn lists_values_of<T>(
    values: Seq<T>,
    map: Map<Seq<char>, T>,
    listed: Seq<Seq<char>>,
) -> bool {
    &&& names::lists_once(listed, |n: Seq<char>| map.contains_key(n))
    &&& values == listed.map_values(|n: Seq<char>| map[n])
}

/// `values` are the values of `map`, one for each name, in some order.
pub open spec fn lists_values<T>(values: Seq<T>, map: Map<Seq<char>, T>) -> bool {
    exists|listed: Seq<Seq<char>>| lists_values_of(values, map, listed)
}

/// `p` holds of all values of a map when it holds of all that are listed.
proof fn lemma_all_values<T>(values: Seq<T>, map: Map<Seq<char>, T>, p: spec_fn(T) -> bool)
    requires
        lists_values(values, map),
    ensures
        (forall|i: int| 0 <= i < values.len() ==> p(#[trigger] values[i])) <==> (forall|
            n: Seq<char>,
        | #[trigger]
            map.contains_key(n) ==> p(map[n])),
{
    let listed = choose|listed: Seq<Seq<char>>| lists_values_of(values, map, listed);
    if forall|i: int| 0 <= i < values.len() ==> p(#[trigger] values[i]) {
        assert forall|n: Seq<char>| #[trigger] map.contains_key(n) implies p(map[n]) by {
            assert(listed.contains(n));
            let i = choose|i: int| 0 <= i < listed.len() && listed[i] == n;
            assert(p(values[i]));
        }
    }
    if forall|n: Seq<char>| #[trigger] map.contains_key(n) ==> p(map[n]) {
        assert forall|i: int| 0 <= i < values.len() implies p(#[trigger] values[i]) by {
            assert(listed.contains(listed[i]));
            assert(map.contains_key(listed[i]));
        }
    }
}

/// What a lookup finds among the entries is what their map holds.
proof fn lemma_found<T: View>(entries: Seq<(Seq<char>, T)>, name: Seq<char>, found: Option<T>)
    requires
        outside::found_in(entries, name, found),
    ensures
        match found {
            Some(value) => baked_map(entries).contains_key(name) && value@ == baked_map(
                entries,
            )[name],
            None => !baked_map(entries).contains_key(name),
        },
{
    if found is Some {
        let value = found->0;
        let i = choose|i: int| 0 <= i < entries.len() && #[trigger] entries[i] == (name, value);
        assert(entries[i].0 == name);
    }
}

/// The keys of the entries list the names of their map, and the values are theirs.
proof fn lemma_baked_keys<T: View>(entries: Seq<(Seq<char>, T)>)
    requires
        forall|i: int, j: int|
            0 <= i < j < entries.len() ==> (#[trigger] entries[i]).0 != (#[trigger] entries[j]).0,
    ensures
        names::lists_once(
            entries.map_values(|entry: (Seq<char>, T)| entry.0),
            |n: Seq<char>| baked_map(entries).contains_key(n),
        ),
        forall|i: int|
            0 <= i < entries.len() ==> baked_map(entries)[(#[trigger] entries[i]).0]
                == entries[i].1@,
{
    let keys = entries.map_values(|entry: (Seq<char>, T)| entry.0);
    assert forall|n: Seq<char>| #[trigger] keys.contains(n) <==> baked_map(entries).contains_key(
        n,
    ) by {
        if keys.contains(n) {
            let i = choose|i: int| 0 <= i < keys.len() && keys[i] == n;
            assert(entries[i].0 == n);
        }
        if baked_map(entries).contains_key(n) {
            let i = choose|i: int| 0 <= i < entries.len() && (#[trigger] entries[i]).0 == n;
            assert(keys[i] == n);
        }
    }
    assert forall|i: int, j: int| 0 <= i < keys.len() && 0 <= j < keys.len() && i != j implies keys[i]
        != keys[j] by {
        if i < j {
            assert(entries[i].0 != entries[j].0);
        } else {
            assert(entries[j].0 != entries[i].0);
        }
    }
    assert forall|i: int| 0 <= i < entries.len() implies baked_map(entries)[(#[trigger] entries[i]).0]
        == entries[i].1@ by {
        let n = entries[i].0;
        let k = choose|k: int| 0 <= k < entries.len() && (#[trigger] entries[k]).0 == n;
        if k < i {
            assert(entries[k].0 != entries[i].0);
        } else if i < k {
            assert(entries[i].0 != entries[k].0);
        }
    }
}

/// How the bulk tier is held.
#[derive(Debug)]
enum CwlTier {
    /// As maps that are part of the program.
    Baked {
        commands: &'static phf::Map<&'static str, CommandSig>,
        environments: &'static phf::Map<&'static str, EnvironmentSig>,
    },
    /// As a table that was inflated and read at run time.
    Compact { db: SignatureDb },
}

/// The bulk tier: a broad set of names with their argument shapes, harvested from
/// the CWL corpus. It is consulted below the curated table.
#[derive(Debug)]
pub struct CwlDb {
    tier: CwlTier,
}

impl View for CwlDb {
    type V = Tier;

    closed spec fn view(&self) -> Tier {
        match self.tier {
            CwlTier::Baked { commands, environments } => Tier {
                commands: baked_map(outside::baked_commands(*commands)),
                environments: baked_map(outside::baked_environments(*environments)),
            },
            CwlTier::Compact { db } => Tier {
                commands: db@.commands,
                environments: db@.environments,
            },
        }
    }
}

impl CwlDb {
    /// The tier that is held in maps that are part of the program.
    pub fn baked(
        commands: &'static phf::Map<&'static str, CommandSig>,
        environments: &'static phf::Map<&'static str, EnvironmentSig>,
    ) -> (r: CwlDb)
        ensures
            r@ == (Tier {
                commands: baked_map(outside::baked_commands(*commands)),
                environments: baked_map(outside::baked_environments(*environments)),
            }),
    {
        CwlDb { tier: CwlTier::Baked { commands, environments } }
    }

    /// The tier that is held in a table.
    pub fn compact(db: SignatureDb) -> (r: CwlDb)
        ensures
            r@ == (Tier { commands: db@.commands, environments: db@.environments }),
    {
        CwlDb { tier: CwlTier::Compact { db } }
    }

    /// The signature of command `name`.
    pub fn command(&self, name: &str) -> (r: Option<&CommandSig>)
        ensures
            match r {
                Some(sig) => self@.commands.contains_key(name@) && sig@ == self@.commands[name@],
                None => !self@.commands.contains_key(name@),
            },
    {
        match &self.tier {
            CwlTier::Baked { commands, .. } => {
                let r: Option<&'static CommandSig> = outside::baked_command(*commands, name);
                proof {
                    let found = match r {
                        Some(sig) => Some(*sig),
                        None => None,
                    };
                    lemma_found(outside::baked_commands(**commands), name@, found);
                }
                r
            },
            CwlTier::Compact { db } => db.command(name),
        }
    }

    /// The signature of environment `name`.
    pub fn environment(&self, name: &str) -> (r: Option<&EnvironmentSig>)
        ensures
            match r {
                Some(sig) => self@.environments.contains_key(name@) && sig@
                    == self@.environments[name@],
                None => !self@.environments.contains_key(name@),
            },
    {
        match &self.tier {
            CwlTier::Baked { environments, .. } => {
                let r: Option<&'static EnvironmentSig> = outside::baked_environment(
                    *environments,
                    name,
                );
                proof {
                    let found = match r {
                        Some(sig) => Some(*sig),
                        None => None,
                    };
                    lemma_found(outside::baked_environments(**environments), name@, found);
                }
                r
            },
            CwlTier::Compact { db } => db.environment(name),
        }
    }

    /// The names of all commands of the tier, each once, in no particular order.
    pub fn command_names(&self) -> (r: Vec<&str>)
        ensures
            names::lists_once(
                r@.map_values(|n: &str| n@),
                |n: Seq<char>| self@.commands.contains_key(n),
            ),
            self@.commands.dom().finite(),
            r@.len() == self@.commands.dom().len(),
    {
        match &self.tier {
            CwlTier::Baked { commands, .. } => {
                let r: Vec<&'static str> = outside::baked_command_names(*commands);
                proof {
                    let entries = outside::baked_commands(**commands);
                    lemma_baked_keys(entries);
                    assert(r@.map_values(|n: &str| n@) =~= entries.map_values(
                        |entry: (Seq<char>, CommandSig)| entry.0,
                    ));
                    names::lemma_listing_len(r@.map_values(|n: &str| n@), self@.commands);
                }
                r
            },
            CwlTier::Compact { db } => {
                let r: Vec<&str> = db.command_names();
                proof {
                    names::lemma_sorted_once(r@.map_values(|n: &str| n@));
                    names::lemma_listing_len(r@.map_values(|n: &str| n@), self@.commands);
                }
                r
            },
        }
    }

    /// The names of all environments of the tier, each once, in no particular order.
    pub fn environment_names(&self) -> (r: Vec<&str>)
        ensures
            names::lists_once(
                r@.map_values(|n: &str| n@),
                |n: Seq<char>| self@.environments.contains_key(n),
            ),
            self@.environments.dom().finite(),
            r@.len() == self@.environments.dom().len(),
    {
        match &self.tier {
            CwlTier::Baked { environments, .. } => {
                let r: Vec<&'static str> = outside::baked_environment_names(*environments);
                proof {
                    let entries = outside::baked_environments(**environments);
                    lemma_baked_keys(entries);
                    assert(r@.map_values(|n: &str| n@) =~= entries.map_values(
                        |entry: (Seq<char>, EnvironmentSig)| entry.0,
                    ));
                    names::lemma_listing_len(r@.map_values(|n: &str| n@), self@.environments);
                }
                r
            },
            CwlTier::Compact { db } => {
                let r: Vec<&str> = db.environment_names();
                proof {
                    names::lemma_sorted_once(r@.map_values(|n: &str| n@));
                    names::lemma_listing_len(r@.map_values(|n: &str| n@), self@.environments);
                }
                r
            },
        }
    }

    /// The signatures of all commands of the tier, one for each name, in no
    /// particular order.
    pub fn command_sigs(&self) -> (r: Vec<&CommandSig>)
        ensures
            lists_values(r@.map_values(|sig: &CommandSig| sig@), self@.commands),
    {
        match &self.tier {
            CwlTier::Baked { commands, .. } => {
                let r: Vec<&'static CommandSig> = outside::baked_command_sigs(*commands);
                proof {
                    let entries = outside::baked_commands(**commands);
                    lemma_baked_keys(entries);
                    let listed = entries.map_values(|entry: (Seq<char>, CommandSig)| entry.0);
                    assert(r@.map_values(|sig: &CommandSig| sig@) =~= listed.map_values(
                        |n: Seq<char>| self@.commands[n],
                    ));
                    assert(lists_values_of(
                        r@.map_values(|sig: &CommandSig| sig@),
                        self@.commands,
                        listed,
                    ));
                }
                r
            },
            CwlTier::Compact { db } => db.command_sigs(),
        }
    }

    /// The signatures of all environments of the tier, one for each name, in no
    /// particular order.
    pub fn environment_sigs(&self) -> (r: Vec<&EnvironmentSig>)
        ensures
            lists_values(r@.map_values(|sig: &EnvironmentSig| sig@), self@.environments),
    {
        match &self.tier {
            CwlTier::Baked { environments, .. } => {
                let r: Vec<&'static EnvironmentSig> = outside::baked_environment_sigs(
                    *environments,
                );
                proof {
                    let entries = outside::baked_environments(**environments);
                    lemma_baked_keys(entries);
                    let listed = entries.map_values(|entry: (Seq<char>, EnvironmentSig)| entry.0);
                    assert(r@.map_values(|sig: &EnvironmentSig| sig@) =~= listed.map_values(
                        |n: Seq<char>| self@.environments[n],
                    ));
                    assert(lists_values_of(
                        r@.map_values(|sig: &EnvironmentSig| sig@),
                        self@.environments,
                        listed,
                    ));
                }
                r
            },
            CwlTier::Compact { db } => db.environment_sigs(),
        }
    }

    /// Whether the tier knows names and argument shapes alone.
    pub fn is_arity_only(&self) -> (r: bool)
        ensures
            r == arity_only(self@),
    {
        let commands: Vec<&CommandSig> = self.command_sigs();
        let environments: Vec<&EnvironmentSig> = self.environment_sigs();
        let ghost command_shapes = commands@.map_values(|sig: &CommandSig| sig@);
        let ghost environment_shapes = environments@.map_values(|sig: &EnvironmentSig| sig@);
        proof {
            lemma_all_values(
                command_shapes,
                self@.commands,
                |shape: signature::CommandShape| signature::arity_only_command(shape),
            );
            lemma_all_values(
                environment_shapes,
                self@.environments,
                |shape: signature::EnvironmentShape| signature::arity_only_environment(shape),
            );
        }
        for i in 0..commands.len()
            invariant
                command_shapes == commands@.map_values(|sig: &CommandSig| sig@),
                arity_only(self@) ==> forall|k: int|
                    0 <= k < command_shapes.len() ==> signature::arity_only_command(
                        #[trigger] command_shapes[k],
                    ),
                forall|k: int|
                    0 <= k < i ==> signature::arity_only_command(#[trigger] command_shapes[k]),
        {
            assert(command_shapes[i as int] == commands@[i as int]@);
            if !commands[i].is_arity_only() {
                return false;
            }
        }
        for i in 0..environments.len()
            invariant
                environment_shapes == environments@.map_values(|sig: &EnvironmentSig| sig@),
                arity_only(self@) ==> forall|k: int|
                    0 <= k < environment_shapes.len() ==> signature::arity_only_environment(
                        #[trigger] environment_shapes[k],
                    ),
                forall|k: int|
                    0 <= k < i ==> signature::arity_only_environment(
                        #[trigger] environment_shapes[k],
                    ),
        {
            assert(environment_shapes[i as int] == environments@[i as int]@);
            if !environments[i].is_arity_only() {
                return false;
            }
        }
        true
    }
}

/// The lines of a text: those that a line feed ends, without it and without a
/// carriage return right in front of it, and then what is left behind the last one.
pub open spec fn split_lines(s: Seq<char>) -> (Seq<Seq<char>>, Seq<char>)
    decreases s.len(),
{
    if s.len() == 0 {
        (Seq::empty(), Seq::empty())
    } else {
        let (ended, rest) = split_lines(s.drop_last());
        if s.last() == '\n' {
            (ended.push(without_return(rest)), Seq::empty())
        } else {
            (ended, rest.push(s.last()))
        }
    }
}

/// `line` without a carriage return at its end.
pub open spec fn without_return(line: Seq<char>) -> Seq<char> {
    if line.len() > 0 && line.last() == '\r' {
        line.drop_last()
    } else {
        line
    }
}

/// All lines of a text; a line feed at its very end starts no further line.
pub open spec fn lines(s: Seq<char>) -> Seq<Seq<char>> {
    let (ended, rest) = split_lines(s);
    if rest.len() > 0 {
        ended.push(rest)
    } else {
        ended
    }
}

/// A line of a name list that holds a name: not an empty one, not a comment, not the
/// rule between the two parts of the list.
pub open spec fn holds_name(line: Seq<char>) -> bool {
    line.len() > 0 && line[0] != '#' && line != "---"@
}

/// The names of a name list, in its order.
pub open spec fn listed_names(text: Seq<char>) -> Seq<Seq<char>> {
    lines(text).filter(|line: Seq<char>| holds_name(line))
}

/// The characters of each string.
pub open spec fn strings(names: Seq<String>) -> Seq<Seq<char>> {
    names.map_values(|name: String| name@)
}

/// Adds the name that `line` holds, if it holds one.
fn add_line(names: &mut Vec<String>, line: &str)
    ensures
        strings(final(names)@) == (if holds_name(line@) {
            strings(old(names)@).push(line@)
        } else {
            strings(old(names)@)
        }),
{
    let ghost before = strings(names@);
    if line.unicode_len() > 0 && line.get_char(0) != '#' && !same_text(line, "---") {
        names.push(line.to_string());
        assert(strings(names@) =~= before.push(line@));
    }
}

/// What filtering one more line adds.
proof fn lemma_filter_push(ended: Seq<Seq<char>>, line: Seq<char>)
    ensures
        ended.push(line).filter(|l: Seq<char>| holds_name(l)) == (if holds_name(line) {
            ended.filter(|l: Seq<char>| holds_name(l)).push(line)
        } else {
            ended.filter(|l: Seq<char>| holds_name(l))
        }),
{
    reveal(Seq::filter);
    assert(ended.push(line).drop_last() =~= ended);
}

/// The names of a name list in rank order, without comments and the rule between its
/// parts.
pub fn parse_name_list(text: &str) -> (r: Vec<String>)
    ensures
        strings(r@) == listed_names(text@),
{
    let mut r: Vec<String> = Vec::new();
    let mut line: String = String::new();
    proof {
        reveal(Seq::filter);
        assert(text@.take(0) =~= Seq::<char>::empty());
        assert(strings(r@) =~= Seq::<Seq<char>>::empty());
    }
    for c in it: text.chars()
        invariant
            it.seq() == text@,
            line@ == split_lines(text@.take(it.index())).1,
            strings(r@) == split_lines(text@.take(it.index())).0.filter(
                |l: Seq<char>| holds_name(l),
            ),
    {
        proof {
            let k = it.index();
            assert(text@.take(k + 1).drop_last() =~= text@.take(k));
            assert(text@.take(k + 1).last() == c);
            lemma_filter_push(split_lines(text@.take(k)).0, without_return(line@));
        }
        if c == '\n' {
            let size: usize = line.as_str().unicode_len();
            if size > 0 && line.as_str().get_char(size - 1) == '\r' {
                let kept: &str = line.as_str().substring_char(0, size - 1);
                assert(kept@ =~= line@.drop_last());
                add_line(&mut r, kept);
            } else {
                add_line(&mut r, line.as_str());
            }
            line = String::new();
        } else {
            line.push(c);
        }
    }
    proof {
        assert(text@.take(text@.len() as int) =~= text@);
        lemma_filter_push(split_lines(text@).0, line@);
    }
    add_line(&mut r, line.as_str());
    r
}

/// The values of slot `index`, the later of two such slots counting.
pub open spec fn slot_values(
    slots: Seq<(usize, Seq<Seq<char>>)>,
    index: usize,
) -> Option<Seq<Seq<char>>>
    decreases slots.len(),
{
    if slots.len() == 0 {
        None
    } else if slots.last().0 == index {
        Some(slots.last().1)
    } else {
        slot_values(slots.drop_last(), index)
    }
}

/// The values of slot `index` of command `name`, the later of two entries for one
/// command counting.
pub open spec fn enum_values(
    entries: Seq<(Seq<char>, Seq<(usize, Seq<Seq<char>>)>)>,
    name: Seq<char>,
    index: usize,
) -> Option<Seq<Seq<char>>>
    decreases entries.len(),
{
    if entries.len() == 0 {
        None
    } else if entries.last().0 == name {
        slot_values(entries.last().1, index)
    } else {
        enum_values(entries.drop_last(), name, index)
    }
}

/// The fixed values that some brace arguments take, by command and by the position of
/// the argument among the command's brace groups.
#[derive(Debug)]
pub struct ArgEnums {
    entries: EnumEntries,
}

impl View for ArgEnums {
    type V = Seq<(Seq<char>, Seq<(usize, Seq<Seq<char>>)>)>;

    closed spec fn view(&self) -> Seq<(Seq<char>, Seq<(usize, Seq<Seq<char>>)>)> {
        outside::enum_entries(self.entries@)
    }
}

impl ArgEnums {
    /// The table with the given entries.
    pub fn new(entries: EnumEntries) -> (r: ArgEnums)
        ensures
            r@ == outside::enum_entries(entries@),
    {
        ArgEnums { entries }
    }

    /// The table that the JSON text holds.
    pub fn parse(json: &str) -> (r: Result<ArgEnums, DataError>)
        ensures
            match outside::json_enum_entries(json@) {
                Some(entries) => r matches Ok(table) && table@ == entries,
                None => r == Err::<ArgEnums, DataError>(DataError::Json),
            },
    {
        match outside::read_enum_entries(json) {
            Ok(entries) => Ok(ArgEnums::new(entries)),
            Err(_) => Err(DataError::Json),
        }
    }

    /// The values of slot `index` of command `name`.
    pub fn values(&self, name: &str, index: usize) -> (r: Option<&[String]>)
        ensures
            match enum_values(self@, name@, index) {
                Some(values) => r matches Some(slice) && strings(slice@) == values,
                None => r is None,
            },
    {
        let mut i: usize = self.entries.len();
        proof {
            assert(self@.take(i as int) =~= self@);
        }
        while i > 0
            invariant
                i <= self.entries.len(),
                self@.len() == self.entries.len(),
                enum_values(self@, name@, index) == enum_values(self@.take(i as int), name@, index),
            decreases i,
        {
            i = i - 1;
            let entry = &self.entries[i];
            assert(self@.take(i + 1).last() == self@[i as int]);
            assert(self@.take(i + 1).drop_last() =~= self@.take(i as int));
            if same_text(entry.0.as_str(), name) {
                let ghost slots = self@[i as int].1;
                let mut j: usize = entry.1.len();
                proof {
                    assert(slots.take(j as int) =~= slots);
                }
                while j > 0
                    invariant
                        j <= entry.1.len(),
                        slots == entry.1@.map_values(
                            |slot: (usize, Vec<String>)|
                                (slot.0, slot.1@.map_values(|value: String| value@)),
                        ),
                        slot_values(slots, index) == slot_values(slots.take(j as int), index),
                        enum_values(self@, name@, index) == slot_values(slots, index),
                    decreases j,
                {
                    j = j - 1;
                    assert(slots.take(j + 1).last() == slots[j as int]);
                    assert(slots.take(j + 1).drop_last() =~= slots.take(j as int));
                    if entry.1[j].0 == index {
                        assert(slots[j as int].1 =~= strings(entry.1@[j as int].1@));
                        return Some(entry.1[j].1.as_slice());
                    }
                }
                return None;
            }
        }
        None
    }
}

/// The known colors.
#[derive(Debug)]
pub struct ColorsData {
    pub names: Vec<String>,
    pub models: Vec<String>,
}

/// The known TikZ and PGF libraries.
#[derive(Debug)]
pub struct TikzLibrariesData {
    pub tikz: Vec<String>,
    pub pgf: Vec<String>,
}

/// What is known of a package or class.
#[derive(Debug, Clone, Copy)]
pub struct PackageMeta {
    /// A one-line description.
    pub desc: Option<&'static str>,
    /// The id in the CTAN catalogue.
    pub ctan: Option<&'static str>,
}

/// The facts of one package.
pub fn meta(desc: Option<&'static str>, ctan: Option<&'static str>) -> (r: PackageMeta)
    ensures
        r == (PackageMeta { desc, ctan }),
{
    PackageMeta { desc, ctan }
}

impl PackageMeta {
    /// The package's page on CTAN, when its id is known.
    pub fn ctan_url(&self) -> (r: Option<String>)
        ensures
            match self.ctan {
                Some(id) => r matches Some(url) && url@ == "https://ctan.org/pkg/"@ + id@,
                None => r is None,
            },
    {
        match self.ctan {
            Some(id) => {
                let mut url: String = "https://ctan.org/pkg/".to_string();
                url.append(id);
                Some(url)
            },
            None => None,
        }
    }
}

/// The tables that ship with the program.
#[derive(Debug)]
pub struct Bundle {
    pub builtin: SignatureDb,
    pub cwl: CwlDb,
    pub package_names: Vec<String>,
    pub class_names: Vec<String>,
    pub colors: ColorsData,
    pub tikz_libraries: TikzLibrariesData,
    pub arg_enums: ArgEnums,
    pub package_metadata: &'static phf::Map<&'static str, PackageMeta>,
}

impl Bundle {
    /// The bundle of the given tables: the curated signatures, the bulk tier, the name
    /// lists of packages and classes as text, the colors, the libraries, the argument
    /// values as JSON, and the package facts.
    pub fn load(
        signatures: RawDb,
        cwl: CwlDb,
        package_names: &str,
        class_names: &str,
        colors: ColorsData,
        tikz_libraries: TikzLibrariesData,
        arg_enums: &str,
        package_metadata: &'static phf::Map<&'static str, PackageMeta>,
    ) -> (r: Result<Bundle, DataError>)
        ensures
            match outside::json_enum_entries(arg_enums@) {
                Some(entries) => {
                    &&& r matches Ok(bundle)
                    &&& bundle.builtin@ == signatures@
                    &&& bundle.cwl == cwl
                    &&& strings(bundle.package_names@) == listed_names(package_names@)
                    &&& strings(bundle.class_names@) == listed_names(class_names@)
                    &&& bundle.colors == colors
                    &&& bundle.tikz_libraries == tikz_libraries
                    &&& bundle.arg_enums@ == entries
                    &&& bundle.package_metadata == package_metadata
                },
                None => r == Err::<Bundle, DataError>(DataError::Json),
            },
    {
        match ArgEnums::parse(arg_enums) {
            Ok(arg_enums) => Ok(
                Bundle {
                    builtin: SignatureDb::from(signatures),
                    cwl,
                    package_names: parse_name_list(package_names),
                    class_names: parse_name_list(class_names),
                    colors,
                    tikz_libraries,
                    arg_enums,
                    package_metadata,
                },
            ),
            Err(e) => Err(e),
        }
    }
}

/// The curated signatures.
pub fn builtin(bundle: &Bundle) -> (r: &SignatureDb)
    ensures
        *r == bundle.builtin,
{
    &bundle.builtin
}

/// The bulk tier of signatures.
pub fn cwl(bundle: &Bundle) -> (r: &CwlDb)
    ensures
        *r == bundle.cwl,
{
    &bundle.cwl
}

/// The known packages, in rank order.
pub fn package_names(bundle: &Bundle) -> (r: &[String])
    ensures
        r@ == bundle.package_names@,
{
    bundle.package_names.as_slice()
}

/// The known classes, in rank order.
pub fn class_names(bundle: &Bundle) -> (r: &[String])
    ensures
        r@ == bundle.class_names@,
{
    bundle.class_names.as_slice()
}

/// The known color names.
pub fn color_names(bundle: &Bundle) -> (r: &[String])
    ensures
        r@ == bundle.colors.names@,
{
    bundle.colors.names.as_slice()
}

/// The known color models.
pub fn color_models(bundle: &Bundle) -> (r: &[String])
    ensures
        r@ == bundle.colors.models@,
{
    bundle.colors.models.as_slice()
}

/// The known TikZ libraries.
pub fn tikz_libraries(bundle: &Bundle) -> (r: &[String])
    ensures
        r@ == bundle.tikz_libraries.tikz@,
{
    bundle.tikz_libraries.tikz.as_slice()
}

/// The known PGF libraries.
pub fn pgf_libraries(bundle: &Bundle) -> (r: &[String])
    ensures
        r@ == bundle.tikz_libraries.pgf@,
{
    bundle.tikz_libraries.pgf.as_slice()
}

/// The values that the brace argument at position `index` of command `name` takes, if
/// they are fixed.
pub fn arg_enum_values<'a>(bundle: &'a Bundle, name: &str, index: usize) -> (r: Option<
    &'a [String],
>)
    ensures
        match enum_values(bundle.arg_enums@, name@, index) {
            Some(values) => r matches Some(slice) && strings(slice@) == values,
            None => r is None,
        },
{
    bundle.arg_enums.values(name, index)
}

/// What is known of the package or class `name`.
pub fn package_metadata(bundle: &Bundle, name: &str) -> (r: Option<&'static PackageMeta>)
    ensures
        outside::found_in(
            outside::baked_packages(*bundle.package_metadata),
            name@,
            match r {
                Some(meta) => Some(*meta),
                None => None,
            },
        ),
{
    outside::baked_package(bundle.package_metadata, name)
}

/// A lookup in three tiers: what the document defines, what the curated table knows,
/// what the bulk tier knows.
#[derive(Debug, Clone, Copy)]
pub struct Signatures<'a> {
    pub user: &'a SignatureDb,
    pub bundle: &'a Bundle,
}

/// The first of three maps that has `name` decides.
pub open spec fn resolved<T>(
    user: Map<Seq<char>, T>,
    builtin: Map<Seq<char>, T>,
    cwl: Map<Seq<char>, T>,
    name: Seq<char>,
) -> Option<T> {
    if user.contains_key(name) {
        Some(user[name])
    } else if builtin.contains_key(name) {
        Some(builtin[name])
    } else if cwl.contains_key(name) {
        Some(cwl[name])
    } else {
        None
    }
}

impl<'a> Signatures<'a> {
    /// The signature that `name` resolves to as a command.
    pub open spec fn command_shape(&self, name: Seq<char>) -> Option<signature::CommandShape> {
        resolved(
            self.user@.commands,
            self.bundle.builtin@.commands,
            self.bundle.cwl@.commands,
            name,
        )
    }

    /// The signature that `name` resolves to as an environment.
    pub open spec fn environment_shape(
        &self,
        name: Seq<char>,
    ) -> Option<signature::EnvironmentShape> {
        resolved(
            self.user@.environments,
            self.bundle.builtin@.environments,
            self.bundle.cwl@.environments,
            name,
        )
    }

    /// The lookup through `user` and the tables of `bundle`.
    pub fn new(user: &'a SignatureDb, bundle: &'a Bundle) -> (r: Self)
        ensures
            r == (Signatures { user, bundle }),
    {
        Signatures { user, bundle }
    }

    /// The signature of command `name`, by the first tier that knows it.
    pub fn command(&self, name: &str) -> (r: Option<&'a CommandSig>)
        ensures
            match r {
                Some(sig) => self.command_shape(name@) == Some(sig@),
                None => self.command_shape(name@) is None,
            },
    {
        match self.user.command(name) {
            Some(sig) => Some(sig),
            None => match builtin(self.bundle).command(name) {
                Some(sig) => Some(sig),
                None => cwl(self.bundle).command(name),
            },
        }
    }

    /// The signature of environment `name`, by the first tier that knows it.
    pub fn environment(&self, name: &str) -> (r: Option<&'a EnvironmentSig>)
        ensures
            match r {
                Some(sig) => self.environment_shape(name@) == Some(sig@),
                None => self.environment_shape(name@) is None,
            },
    {
        match self.user.environment(name) {
            Some(sig) => Some(sig),
            None => match builtin(self.bundle).environment(name) {
                Some(sig) => Some(sig),
                None => cwl(self.bundle).environment(name),
            },
        }
    }
}

} // verus!
