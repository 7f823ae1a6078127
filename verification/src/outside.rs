//! The calls into other crates, and into the parts of std that carry no
//! specification: each with the contract that the rest of the library relies on.

use std::collections::BTreeMap;
use std::string::FromUtf16Error;
use std::string::FromUtf8Error;

use miniz_oxide::inflate::DecompressError;
use rowan::GreenNode;
use rowan::NodeOrToken;
use rowan::WalkEvent;
use smol_str::SmolStr;
use vstd::prelude::*;
use vstd::utf8::*;

use crate::semantic::bundle::PackageMeta;
use crate::semantic::signature::CommandSig;
use crate::semantic::signature::EnvironmentSig;
use crate::syntax;
use crate::syntax::WalkStep;

verus! {

/// `smol_str::SmolStr`: an immutable string.
#[verifier::external_type_specification]
#[verifier::external_body]
pub struct ExSmolStr(SmolStr);

/// The characters that a `SmolStr` holds.
pub uninterp spec fn smol_text(s: SmolStr) -> Seq<char>;

/// `SmolStr::new`: the new string holds the characters of `text`.
#[verifier::external_body]
pub(crate) fn smol_new(text: &str) -> (r: SmolStr)
    ensures
        smol_text(r) == text@,
{
    SmolStr::new(text)
}

/// `SmolStr::as_str`: the slice shows the characters that the string holds.
pub assume_specification[ SmolStr::as_str ](s: &SmolStr) -> (r: &str)
    ensures
        r@ == smol_text(*s),
;

/// `<SmolStr as Clone>::clone`: the copy holds the same characters.
pub assume_specification[ <SmolStr as Clone>::clone ](s: &SmolStr) -> (r: SmolStr)
    ensures
        smol_text(r) == smol_text(*s),
;

/// `String::push`: appends one character.
pub assume_specification[ String::push ](s: &mut String, c: char)
    ensures
        final(s)@ == old(s)@.push(c),
;

/// The error of `String::from_utf8`.
#[verifier::external_type_specification]
#[verifier::external_body]
pub struct ExFromUtf8Error(FromUtf8Error);

/// `String::from_utf8`: succeeds on valid UTF-8, with the characters that the bytes
/// encode.
pub assume_specification[ String::from_utf8 ](vec: Vec<u8>) -> (r: Result<String, FromUtf8Error>)
    ensures
        match r {
            Ok(s) => valid_utf8(vec@) && s@ == decode_utf8(vec@),
            Err(_) => !valid_utf8(vec@),
        },
;

/// `unit` is the first half of a surrogate pair.
pub open spec fn leads_pair(unit: u16) -> bool {
    0xd800 <= unit <= 0xdbff
}

/// `unit` is the second half of a surrogate pair.
pub open spec fn ends_pair(unit: u16) -> bool {
    0xdc00 <= unit <= 0xdfff
}

/// The code point that a surrogate pair stands for.
pub open spec fn pair_value(first: u16, second: u16) -> u32 {
    (0x10000 + (first - 0xd800) * 0x400 + (second - 0xdc00)) as u32
}

/// The characters that the UTF-16 code units encode; none when a surrogate stands
/// outside a pair.
pub open spec fn utf16_decoded(units: Seq<u16>) -> Option<Seq<char>>
    decreases units.len(),
{
    if units.len() == 0 {
        Some(Seq::empty())
    } else if !leads_pair(units[0]) && !ends_pair(units[0]) {
        match utf16_decoded(units.skip(1)) {
            Some(rest) => Some(seq![units[0] as char] + rest),
            None => None,
        }
    } else if leads_pair(units[0]) && units.len() > 1 && ends_pair(units[1]) {
        match utf16_decoded(units.skip(2)) {
            Some(rest) => Some(seq![pair_value(units[0], units[1]) as char] + rest),
            None => None,
        }
    } else {
        None
    }
}

/// The error of `String::from_utf16`.
#[verifier::external_type_specification]
#[verifier::external_body]
pub struct ExFromUtf16Error(FromUtf16Error);

/// `String::from_utf16`: decodes UTF-16; fails on a surrogate outside a pair.
pub assume_specification[ String::from_utf16 ](v: &[u16]) -> (r: Result<String, FromUtf16Error>)
    ensures
        match r {
            Ok(s) => utf16_decoded(v@) == Some(s@),
            Err(_) => utf16_decoded(v@) is None,
        },
;

/// The error of `miniz_oxide::inflate::decompress_to_vec`.
#[verifier::external_type_specification]
#[verifier::external_body]
pub struct ExDecompressError(DecompressError);

/// The bytes that a deflate stream stands for; none when it is no such stream.
pub uninterp spec fn inflated(stream: Seq<u8>) -> Option<Seq<u8>>;

/// `miniz_oxide::inflate::decompress_to_vec`: the decompressed bytes, or an error;
/// which of them, and the bytes, depend on the stream alone.
#[verifier::external_body]
pub(crate) fn decompress(stream: &[u8]) -> (r: Result<Vec<u8>, DecompressError>)
    ensures
        match r {
            Ok(bytes) => inflated(stream@) == Some(bytes@),
            Err(_) => inflated(stream@) is None,
        },
{
    miniz_oxide::inflate::decompress_to_vec(stream)
}

/// The error of `serde_json::from_str`.
#[verifier::external_type_specification]
#[verifier::external_body]
pub struct ExJsonError(serde_json::Error);

/// Command names, each with argument positions, each with values.
pub type EnumEntries = Vec<(String, Vec<(usize, Vec<String>)>)>;

/// The same as sequences.
pub open spec fn enum_entries(
    entries: Seq<(String, Vec<(usize, Vec<String>)>)>,
) -> Seq<(Seq<char>, Seq<(usize, Seq<Seq<char>>)>)> {
    entries.map_values(
        |entry: (String, Vec<(usize, Vec<String>)>)|
            (
                entry.0@,
                entry.1@.map_values(
                    |slot: (usize, Vec<String>)|
                        (slot.0, slot.1@.map_values(|value: String| value@)),
                ),
            ),
    )
}

/// What JSON text holds when it is an object of objects of string lists, the inner
/// keys being numbers: the entries in the order of their keys; none when the text
/// is no such object.
pub uninterp spec fn json_enum_entries(json: Seq<char>) -> Option<
    Seq<(Seq<char>, Seq<(usize, Seq<Seq<char>>)>)>,
>;

/// `serde_json::from_str`, for an object of objects of string lists, the inner keys
/// being numbers: the entries or an error; which of them, and the entries, depend on
/// the text alone.
#[verifier::external_body]
pub(crate) fn read_enum_entries(json: &str) -> (r: Result<EnumEntries, serde_json::Error>)
    ensures
        match r {
            Ok(entries) => json_enum_entries(json@) == Some(enum_entries(entries@)),
            Err(_) => json_enum_entries(json@) is None,
        },
{
    let parsed: BTreeMap<String, BTreeMap<usize, Vec<String>>> = serde_json::from_str(json)?;
    Ok(parsed.into_iter().map(|(name, slots)| (name, slots.into_iter().collect())).collect())
}

/// `phf::Map`: an immutable map that was laid out when the program was built.
#[verifier::external_type_specification]
#[verifier::external_body]
#[verifier::reject_recursive_types(K)]
#[verifier::reject_recursive_types(V)]
pub struct ExPhfMap<K: 'static, V: 'static>(phf::Map<K, V>);

/// The entries of a map of command signatures, in the map's own fixed order.
pub uninterp spec fn baked_commands(map: phf::Map<&'static str, CommandSig>) -> Seq<
    (Seq<char>, CommandSig),
>;

/// The entries of a map of environment signatures, in the map's own fixed order.
pub uninterp spec fn baked_environments(map: phf::Map<&'static str, EnvironmentSig>) -> Seq<
    (Seq<char>, EnvironmentSig),
>;

/// The entries of a map of package facts, in the map's own fixed order.
pub uninterp spec fn baked_packages(map: phf::Map<&'static str, PackageMeta>) -> Seq<
    (Seq<char>, PackageMeta),
>;

/// `found` is the value that `entries` give `name`, if they give it one.
pub open spec fn found_in<T>(
    entries: Seq<(Seq<char>, T)>,
    name: Seq<char>,
    found: Option<T>,
) -> bool {
    &&& forall|i: int|
        0 <= i < entries.len() && (#[trigger] entries[i]).0 == name ==> found == Some(entries[i].1)
    &&& found matches Some(value) ==> exists|i: int|
        0 <= i < entries.len() && #[trigger] entries[i] == (name, value)
}

/// `keys` are the keys of `entries`, in their order, and none occurs twice.
pub open spec fn keys_of<T>(entries: Seq<(Seq<char>, T)>, keys: Seq<&'static str>) -> bool {
    &&& keys.len() == entries.len()
    &&& forall|i: int| 0 <= i < keys.len() ==> (#[trigger] keys[i])@ == entries[i].0
    &&& forall|i: int, j: int|
        0 <= i < j < entries.len() ==> (#[trigger] entries[i]).0 != (#[trigger] entries[j]).0
}

/// `values` are the values of `entries`, in their order, and no key occurs twice.
pub open spec fn values_of<T>(entries: Seq<(Seq<char>, T)>, values: Seq<&'static T>) -> bool {
    &&& values.len() == entries.len()
    &&& forall|i: int| 0 <= i < values.len() ==> *(#[trigger] values[i]) == entries[i].1
    &&& forall|i: int, j: int|
        0 <= i < j < entries.len() ==> (#[trigger] entries[i]).0 != (#[trigger] entries[j]).0
}

/// `phf::Map::get`, on a map that phf's own generator laid out: the value that the
/// map gives `name`.
#[verifier::external_body]
pub(crate) fn baked_command(
    map: &'static phf::Map<&'static str, CommandSig>,
    name: &str,
) -> (r: Option<&'static CommandSig>)
    ensures
        found_in(
            baked_commands(*map),
            name@,
            match r {
                Some(sig) => Some(*sig),
                None => None,
            },
        ),
{
    map.get(name)
}

/// `phf::Map::get`, as for commands.
#[verifier::external_body]
pub(crate) fn baked_environment(
    map: &'static phf::Map<&'static str, EnvironmentSig>,
    name: &str,
) -> (r: Option<&'static EnvironmentSig>)
    ensures
        found_in(
            baked_environments(*map),
            name@,
            match r {
                Some(sig) => Some(*sig),
                None => None,
            },
        ),
{
    map.get(name)
}

/// `phf::Map::get`, as for commands.
#[verifier::external_body]
pub(crate) fn baked_package(
    map: &'static phf::Map<&'static str, PackageMeta>,
    name: &str,
) -> (r: Option<&'static PackageMeta>)
    ensures
        found_in(
            baked_packages(*map),
            name@,
            match r {
                Some(meta) => Some(*meta),
                None => None,
            },
        ),
{
    map.get(name)
}

/// `phf::Map::keys`, on a map that phf's own generator laid out: the keys in the
/// map's own order, none of them twice.
#[verifier::external_body]
pub(crate) fn baked_command_names(
    map: &'static phf::Map<&'static str, CommandSig>,
) -> (r: Vec<&'static str>)
    ensures
        keys_of(baked_commands(*map), r@),
{
    map.keys().copied().collect()
}

/// `phf::Map::keys`, as for commands.
#[verifier::external_body]
pub(crate) fn baked_environment_names(
    map: &'static phf::Map<&'static str, EnvironmentSig>,
) -> (r: Vec<&'static str>)
    ensures
        keys_of(baked_environments(*map), r@),
{
    map.keys().copied().collect()
}

/// `phf::Map::values`, on a map that phf's own generator laid out: the values in the
/// map's own order, one for each key.
#[verifier::external_body]
pub(crate) fn baked_command_sigs(
    map: &'static phf::Map<&'static str, CommandSig>,
) -> (r: Vec<&'static CommandSig>)
    ensures
        values_of(baked_commands(*map), r@),
{
    map.values().collect()
}

/// `phf::Map::values`, as for commands.
#[verifier::external_body]
pub(crate) fn baked_environment_sigs(
    map: &'static phf::Map<&'static str, EnvironmentSig>,
) -> (r: Vec<&'static EnvironmentSig>)
    ensures
        values_of(baked_environments(*map), r@),
{
    map.values().collect()
}

/// `rowan::GreenNode`: an immutable tree.
#[verifier::external_type_specification]
#[verifier::external_body]
pub struct ExGreenNode(GreenNode);

/// The steps of a walk over the tree, parents before children.
pub uninterp spec fn green_walk(green: GreenNode) -> Seq<syntax::Step>;

/// `rowan::cursor::SyntaxNode::preorder_with_tokens`, from the root of the tree: each
/// event as a step. A walk enters the root first, leaves it last, and leaves every
/// node that it enters.
#[verifier::external_body]
pub(crate) fn walk_green(green: &GreenNode) -> (r: Vec<WalkStep>)
    ensures
        syntax::steps_of(r@) == green_walk(*green),
        syntax::well_nested(syntax::steps_of(r@)),
{
    let root = rowan::cursor::SyntaxNode::new_root(green.clone());
    let step = |event: WalkEvent<rowan::cursor::SyntaxElement>| match event {
        WalkEvent::Enter(NodeOrToken::Node(node)) => WalkStep::Enter(node.kind().0),
        WalkEvent::Enter(NodeOrToken::Token(t)) => WalkStep::Token(t.kind().0, t.text().to_string()),
        WalkEvent::Leave(NodeOrToken::Token(_)) => WalkStep::LeaveToken,
        WalkEvent::Leave(NodeOrToken::Node(_)) => WalkStep::Leave,
    };
    root.preorder_with_tokens().map(step).collect()
}

} // verus!
