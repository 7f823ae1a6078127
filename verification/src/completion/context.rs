//! What a cursor position asks for, read off the syntax tree around it.

use vstd::prelude::*;
use vstd::string::*;

use crate::completion::{Asked, CompletionContext, FileArgKind};
use crate::semantic::bundle;
use crate::semantic::bundle::{arg_enum_values, Bundle};
use crate::semantic::model;
use crate::semantic::model::KeyCommands;
use crate::syntax;
use crate::syntax::{SyntaxKind, SyntaxTree};
use crate::text;
use crate::text::{last_list_item, same_text, take_bytes, trim_backslashes, trim_start};

verus! {

/// The command name that is being typed when the cursor sits in token `i` behind its
/// backslash, or right behind a lone backslash.
pub open spec fn command_name_asked(t: Seq<syntax::Node>, i: int, offset: int) -> Option<Asked> {
    let start = syntax::start_of(t, i) as int;
    let end = syntax::end_of(t, i) as int;
    if t[i].kind == SyntaxKind::CONTROL_WORD {
        if start < offset <= end {
            Some(
                Asked::CommandName {
                    prefix: text::without_backslashes(text::cut_at_byte(t[i].text, offset - start)),
                },
            )
        } else {
            None
        }
    } else if t[i].kind == SyntaxKind::CONTROL_SYMBOL && t[i].text == "\\"@ && offset == end {
        Some(Asked::CommandName { prefix: Seq::empty() })
    } else {
        None
    }
}

/// What the token `i` on the left of the cursor says of a command name.
pub fn command_name_context(tree: &SyntaxTree, i: usize, offset: usize) -> (r: Option<
    CompletionContext,
>)
    requires
        i < tree@.len(),
    ensures
        match r {
            Some(context) => command_name_asked(tree@, i as int, offset as int) == Some(context@),
            None => command_name_asked(tree@, i as int, offset as int) is None,
        },
{
    let start: usize = tree.start(i);
    let end: usize = tree.end(i);
    match tree.kind(i) {
        SyntaxKind::CONTROL_WORD => {
            if offset <= start || offset > end {
                return None;
            }
            let typed: &str = take_bytes(tree.text(i), offset - start);
            Some(CompletionContext::CommandName { prefix: trim_backslashes(typed).to_string() })
        },
        SyntaxKind::CONTROL_SYMBOL => {
            if same_text(tree.text(i), "\\") && offset == end {
                let prefix: String = String::new();
                assert(prefix@ =~= Seq::<char>::empty());
                Some(CompletionContext::CommandName { prefix })
            } else {
                None
            }
        },
        _ => None,
    }
}

/// The nearest group around element `i`, as far as no command, environment or root
/// lies between them.
pub open spec fn group_around(t: Seq<syntax::Node>, i: int) -> Option<int>
    decreases i,
{
    let p = syntax::parent_of(t, i);
    if !(0 <= p < i) {
        None
    } else {
        match t[p].kind {
            SyntaxKind::GROUP | SyntaxKind::NAME_GROUP => Some(p),
            SyntaxKind::COMMAND
            | SyntaxKind::BEGIN
            | SyntaxKind::END
            | SyntaxKind::ENVIRONMENT
            | SyntaxKind::ROOT => None,
            _ => group_around(t, p),
        }
    }
}

/// The nearest group around element `i`.
pub fn enclosing_group(tree: &SyntaxTree, i: usize) -> (r: Option<usize>)
    requires
        i < tree@.len(),
    ensures
        match r {
            Some(g) => group_around(tree@, i as int) == Some(g as int) && g < i
                && !tree@[g as int].token,
            None => group_around(tree@, i as int) is None,
        },
{
    let mut at: usize = i;
    loop
        invariant
            at <= i < tree@.len(),
            group_around(tree@, i as int) == group_around(tree@, at as int),
        decreases at,
    {
        match tree.parent(at) {
            Some(p) => {
                match tree.kind(p) {
                    SyntaxKind::GROUP | SyntaxKind::NAME_GROUP => {
                        return Some(p);
                    },
                    SyntaxKind::COMMAND
                    | SyntaxKind::BEGIN
                    | SyntaxKind::END
                    | SyntaxKind::ENVIRONMENT
                    | SyntaxKind::ROOT => {
                        return None;
                    },
                    _ => {
                        at = p;
                    },
                }
            },
            None => {
                return None;
            },
        }
    }
}

/// Element `i` is an inner node of kind `GROUP` right below element `p`.
pub open spec fn is_group_of(t: Seq<syntax::Node>, p: int, i: int) -> bool {
    t[i].parent == Some(p) && !t[i].token && t[i].kind == SyntaxKind::GROUP
}

/// The number of groups of element `p` among the first `n` elements.
pub open spec fn groups_before(t: Seq<syntax::Node>, p: int, n: int) -> nat
    decreases n,
{
    if n <= 0 {
        0
    } else {
        groups_before(t, p, n - 1) + if is_group_of(t, p, n - 1) {
            1nat
        } else {
            0nat
        }
    }
}

/// The place of `group` among the groups of `command`, which it is one of.
pub fn group_index(tree: &SyntaxTree, command: usize, group: usize) -> (r: usize)
    requires
        group < tree@.len(),
        is_group_of(tree@, command as int, group as int),
    ensures
        r == groups_before(tree@, command as int, group as int),
{
    let mut count: usize = 0;
    for i in 0..group
        invariant
            group < tree@.len(),
            count <= i,
            count == groups_before(tree@, command as int, i as int),
    {
        if !tree.is_token(i) && tree.kind(i) == SyntaxKind::GROUP {
            if let Some(p) = tree.parent(i) {
                if p == command {
                    count = count + 1;
                }
            }
        }
    }
    count
}

/// Element `i` is one of the braces around group `g`.
pub open spec fn is_brace_of(t: Seq<syntax::Node>, g: int, i: int) -> bool {
    t[i].parent == Some(g) && (t[i].kind == SyntaxKind::L_BRACE || t[i].kind
        == SyntaxKind::R_BRACE)
}

/// What element `i` adds to the text that has been typed in group `g`: its text in
/// front of the cursor when it is a token anywhere in the group, but not one of the
/// braces around it.
pub open spec fn typed_part(t: Seq<syntax::Node>, g: int, offset: int, i: int) -> Seq<char> {
    let start = syntax::start_of(t, i) as int;
    let end = syntax::end_of(t, i) as int;
    if !(g < i < syntax::subtree_end(t, g)) || !t[i].token || is_brace_of(t, g, i) {
        Seq::empty()
    } else if end <= offset {
        t[i].text
    } else if start < offset {
        text::cut_at_byte(t[i].text, offset - start)
    } else {
        Seq::empty()
    }
}

/// The text that the first `n` elements add.
pub open spec fn typed_upto(t: Seq<syntax::Node>, g: int, offset: int, n: int) -> Seq<char>
    decreases n,
{
    if n <= 0 {
        Seq::empty()
    } else {
        typed_upto(t, g, offset, n - 1) + typed_part(t, g, offset, n - 1)
    }
}

/// The text that has been typed in group `g`, from its start up to the cursor, without
/// the braces around it.
pub open spec fn typed_in(t: Seq<syntax::Node>, g: int, offset: int) -> Seq<char> {
    typed_upto(t, g, offset, t.len() as int)
}

/// The text that has been typed in `group`, from its start up to the cursor, without
/// the braces around it.
pub fn group_prefix(tree: &SyntaxTree, group: usize, offset: usize) -> (r: String)
    requires
        group < tree@.len(),
    ensures
        r@ == typed_in(tree@, group as int, offset as int),
{
    let mut typed: String = String::new();
    assert(typed@ =~= Seq::<char>::empty());
    let count: usize = tree.len();
    let end: usize = tree.subtree_end(group);
    for i in 0..count
        invariant
            count == tree@.len(),
            end == syntax::subtree_end(tree@, group as int),
            typed@ == typed_upto(tree@, group as int, offset as int, i as int),
    {
        let ghost before = typed@;
        let mut brace: bool = tree.kind(i) == SyntaxKind::L_BRACE || tree.kind(i)
            == SyntaxKind::R_BRACE;
        match tree.parent(i) {
            Some(p) => {
                brace = brace && p == group;
            },
            None => {
                brace = false;
            },
        }
        if group < i && i < end && tree.is_token(i) && !brace {
            let start: usize = tree.start(i);
            if tree.end(i) <= offset {
                typed.append(tree.text(i));
            } else if start < offset {
                typed.append(take_bytes(tree.text(i), offset - start));
            }
        }
        assert(typed@ =~= before + typed_part(tree@, group as int, offset as int, i as int));
    }
    typed
}

/// Element `i` is a control word right below element `p`.
pub open spec fn is_control_word_of(t: Seq<syntax::Node>, p: int, i: int) -> bool {
    t[i].parent == Some(p) && t[i].token && t[i].kind == SyntaxKind::CONTROL_WORD
}

/// The name of command `p`, among the first `n` elements: its first control word,
/// without the backslash.
pub open spec fn name_upto(t: Seq<syntax::Node>, p: int, n: int) -> Option<Seq<char>>
    decreases n,
{
    if n <= 0 {
        None
    } else if name_upto(t, p, n - 1) is Some {
        name_upto(t, p, n - 1)
    } else if is_control_word_of(t, p, n - 1) {
        Some(text::without_backslashes(t[n - 1].text))
    } else {
        None
    }
}

/// The name of command `p`.
pub open spec fn name_of(t: Seq<syntax::Node>, p: int) -> Option<Seq<char>> {
    name_upto(t, p, t.len() as int)
}

/// Once found, a name stays found.
proof fn lemma_name_found(t: Seq<syntax::Node>, p: int, m: int, n: int)
    requires
        0 <= m <= n,
        name_upto(t, p, m) is Some,
    ensures
        name_upto(t, p, n) == name_upto(t, p, m),
    decreases n - m,
{
    if m < n {
        lemma_name_found(t, p, m, n - 1);
    }
}

/// The name of `command`, without the backslash.
pub fn command_name(tree: &SyntaxTree, command: usize) -> (r: Option<String>)
    ensures
        match r {
            Some(name) => name_of(tree@, command as int) == Some(name@),
            None => name_of(tree@, command as int) is None,
        },
{
    let count: usize = tree.len();
    for i in 0..count
        invariant
            count == tree@.len(),
            name_upto(tree@, command as int, i as int) is None,
    {
        if tree.is_token(i) && tree.kind(i) == SyntaxKind::CONTROL_WORD {
            if let Some(p) = tree.parent(i) {
                if p == command {
                    proof {
                        lemma_name_found(tree@, command as int, i + 1, tree@.len() as int);
                    }
                    return Some(trim_backslashes(tree.text(i)).to_string());
                }
            }
        }
    }
    None
}

/// Brace group `index` of command `name` takes the name of an existing color.
pub open spec fn takes_color(name: Seq<char>, index: int) -> bool {
    if name == "color"@ || name == "textcolor"@ || name == "colorbox"@ || name == "pagecolor"@ {
        index == 0
    } else if name == "fcolorbox"@ {
        index < 2
    } else if name == "colorlet"@ {
        index == 1
    } else {
        false
    }
}

/// Whether brace group `index` of command `name` takes the name of an existing color.
pub fn color_name_arg(name: &str, index: usize) -> (r: bool)
    ensures
        r == takes_color(name@, index as int),
{
    if same_text(name, "color") || same_text(name, "textcolor") || same_text(name, "colorbox")
        || same_text(name, "pagecolor") {
        index == 0
    } else if same_text(name, "fcolorbox") {
        index < 2
    } else if same_text(name, "colorlet") {
        index == 1
    } else {
        false
    }
}

/// Brace group `index` of command `name` takes a color model.
pub open spec fn takes_model(name: Seq<char>, index: int) -> bool {
    (name == "definecolor"@ || name == "providecolor"@) && index == 1
}

/// Whether brace group `index` of command `name` takes a color model.
pub fn color_model_arg(name: &str, index: usize) -> (r: bool)
    ensures
        r == takes_model(name@, index as int),
{
    (same_text(name, "definecolor") || same_text(name, "providecolor")) && index == 1
}

/// Whether command `name` loads PGF libraries; none when it loads no library.
pub open spec fn loads_pgf(name: Seq<char>) -> Option<bool> {
    if name == "usetikzlibrary"@ {
        Some(false)
    } else if name == "usepgflibrary"@ {
        Some(true)
    } else {
        None
    }
}

/// Whether command `name` loads PGF libraries; none when it loads no library.
pub fn tikz_library_command(name: &str) -> (r: Option<bool>)
    ensures
        r == loads_pgf(name@),
{
    if same_text(name, "usetikzlibrary") {
        Some(false)
    } else if same_text(name, "usepgflibrary") {
        Some(true)
    } else {
        None
    }
}

/// Whether the first brace group of command `name` takes packages or a class.
pub open spec fn loads_package(name: Seq<char>) -> Option<FileArgKind> {
    if name == "usepackage"@ || name == "RequirePackage"@ {
        Some(FileArgKind::Package)
    } else if name == "documentclass"@ || name == "LoadClass"@ || name == "LoadClassWithOptions"@ {
        Some(FileArgKind::Class)
    } else {
        None
    }
}

/// Whether the first brace group of command `name` takes packages or a class.
pub fn package_arg(name: &str) -> (r: Option<FileArgKind>)
    ensures
        r == loads_package(name@),
{
    if same_text(name, "usepackage") || same_text(name, "RequirePackage") {
        Some(FileArgKind::Package)
    } else if same_text(name, "documentclass") || same_text(name, "LoadClass") || same_text(
        name,
        "LoadClassWithOptions",
    ) {
        Some(FileArgKind::Class)
    } else {
        None
    }
}

/// The kind of file that command `name` takes, and the brace group of its path.
pub open spec fn takes_file(name: Seq<char>) -> Option<(FileArgKind, int)> {
    if name == "includegraphics"@ {
        Some((FileArgKind::Graphics, 0))
    } else if name == "input"@ || name == "include"@ || name == "subfile"@ {
        Some((FileArgKind::TexSource, 0))
    } else if name == "import"@ || name == "subimport"@ {
        Some((FileArgKind::TexSource, 1))
    } else if name == "bibliography"@ || name == "addbibresource"@ {
        Some((FileArgKind::Bib, 0))
    } else {
        None
    }
}

/// The kind of file that command `name` takes, and the brace group of its path.
pub fn file_arg(name: &str) -> (r: Option<(FileArgKind, usize)>)
    ensures
        match r {
            Some((kind, index)) => takes_file(name@) == Some((kind, index as int)),
            None => takes_file(name@) is None,
        },
{
    if same_text(name, "includegraphics") {
        Some((FileArgKind::Graphics, 0))
    } else if same_text(name, "input") || same_text(name, "include") || same_text(name, "subfile") {
        Some((FileArgKind::TexSource, 0))
    } else if same_text(name, "import") || same_text(name, "subimport") {
        Some((FileArgKind::TexSource, 1))
    } else if same_text(name, "bibliography") || same_text(name, "addbibresource") {
        Some((FileArgKind::Bib, 0))
    } else {
        None
    }
}

/// The item of a comma-separated list that is being typed.
pub open spec fn item_typed(typed: Seq<char>) -> Seq<char> {
    text::trimmed_start(text::after_last_comma(typed))
}

/// The item of a comma-separated list that is being typed.
fn list_item(typed: &str) -> (r: String)
    ensures
        r@ == item_typed(typed@),
{
    trim_start(last_list_item(typed)).to_string()
}

/// What brace group `index` of command `name` asks for when `typed` stands in it.
pub open spec fn argument_asked(
    name: Seq<char>,
    index: usize,
    typed: Seq<char>,
    keys: model::KeyNames,
    enums: Seq<(Seq<char>, Seq<(usize, Seq<Seq<char>>)>)>,
) -> Option<Asked> {
    if index == 0 && keys.refs.contains(name) {
        Some(Asked::LabelRef { prefix: item_typed(typed) })
    } else if index == 0 && keys.cites.contains(name) {
        Some(Asked::CitationKey { prefix: item_typed(typed) })
    } else if index == 0 && keys.glossary.contains(name) {
        Some(Asked::GlossaryKey { prefix: text::trimmed_start(typed) })
    } else if index == 0 && loads_package(name) is Some {
        Some(Asked::PackageName { prefix: item_typed(typed), kind: loads_package(name)->0 })
    } else if takes_file(name) is Some && (takes_file(name)->0).1 == index {
        Some(Asked::FilePath { prefix: typed, kind: (takes_file(name)->0).0 })
    } else if takes_color(name, index as int) {
        Some(Asked::ColorName { prefix: text::trimmed_start(typed) })
    } else if takes_model(name, index as int) {
        Some(Asked::ColorModel { prefix: text::trimmed_start(typed) })
    } else if index == 0 && loads_pgf(name) is Some {
        Some(Asked::TikzLibrary { prefix: item_typed(typed), pgf: loads_pgf(name)->0 })
    } else {
        match bundle::enum_values(enums, name, index) {
            Some(values) => Some(
                Asked::ArgumentEnum { prefix: text::trimmed_start(typed), values },
            ),
            None => None,
        }
    }
}

/// A copy of `names`.
fn copy_names(names: &[String]) -> (r: Vec<String>)
    ensures
        bundle::strings(r@) == bundle::strings(names@),
{
    let mut r: Vec<String> = Vec::new();
    for i in 0..names.len()
        invariant
            r.len() == i,
            forall|k: int| 0 <= k < i ==> (#[trigger] r@[k])@ == names@[k]@,
    {
        r.push(names[i].clone());
    }
    assert(bundle::strings(r@) =~= bundle::strings(names@));
    r
}

/// What brace group `index` of command `name` asks for when `typed` stands in it. The
/// table of fixed values comes last, so that everything more specific wins.
pub fn command_arg_context(
    name: &str,
    index: usize,
    typed: String,
    keys: &KeyCommands,
    bundle: &Bundle,
) -> (r: Option<CompletionContext>)
    ensures
        match r {
            Some(context) => argument_asked(name@, index, typed@, keys@, bundle.arg_enums@) == Some(
                context@,
            ),
            None => argument_asked(name@, index, typed@, keys@, bundle.arg_enums@) is None,
        },
{
    if index == 0 && keys.is_ref_command(name) {
        return Some(CompletionContext::LabelRef { prefix: list_item(typed.as_str()) });
    }
    if index == 0 && keys.is_cite_command(name) {
        return Some(CompletionContext::CitationKey { prefix: list_item(typed.as_str()) });
    }
    if index == 0 && keys.is_glossary_ref_command(name) {
        return Some(
            CompletionContext::GlossaryKey { prefix: trim_start(typed.as_str()).to_string() },
        );
    }
    if index == 0 {
        if let Some(kind) = package_arg(name) {
            return Some(CompletionContext::PackageName { prefix: list_item(typed.as_str()), kind });
        }
    }
    if let Some((kind, path_index)) = file_arg(name) {
        if index == path_index {
            return Some(CompletionContext::FilePath { prefix: typed, kind });
        }
    }
    if color_name_arg(name, index) {
        return Some(
            CompletionContext::ColorName { prefix: trim_start(typed.as_str()).to_string() },
        );
    }
    if color_model_arg(name, index) {
        return Some(
            CompletionContext::ColorModel { prefix: trim_start(typed.as_str()).to_string() },
        );
    }
    if index == 0 {
        if let Some(pgf) = tikz_library_command(name) {
            return Some(CompletionContext::TikzLibrary { prefix: list_item(typed.as_str()), pgf });
        }
    }
    match arg_enum_values(bundle, name, index) {
        Some(values) => Some(
            CompletionContext::ArgumentEnum {
                prefix: trim_start(typed.as_str()).to_string(),
                values: copy_names(values),
            },
        ),
        None => None,
    }
}

/// What the group around element `i` asks for: an environment name in the group of a
/// `\begin` or an `\end`, an argument in the group of a command.
pub open spec fn group_asked(
    t: Seq<syntax::Node>,
    i: int,
    offset: int,
    keys: model::KeyNames,
    enums: Seq<(Seq<char>, Seq<(usize, Seq<Seq<char>>)>)>,
) -> Option<Asked> {
    match group_around(t, i) {
        None => None,
        Some(g) => match t[g].parent {
            None => None,
            Some(p) => {
                let typed = typed_in(t, g, offset);
                if t[g].kind == SyntaxKind::NAME_GROUP && (t[p].kind == SyntaxKind::BEGIN
                    || t[p].kind == SyntaxKind::END) {
                    Some(
                        Asked::EnvironmentName {
                            prefix: typed,
                            closing: t[p].kind == SyntaxKind::END,
                        },
                    )
                } else if t[g].kind == SyntaxKind::GROUP && t[p].kind == SyntaxKind::COMMAND {
                    match name_of(t, p) {
                        Some(name) => argument_asked(
                            name,
                            groups_before(t, p, g) as usize,
                            typed,
                            keys,
                            enums,
                        ),
                        None => None,
                    }
                } else {
                    None
                }
            },
        },
    }
}

/// What the group around token `i` asks for.
pub fn group_context(
    tree: &SyntaxTree,
    i: usize,
    offset: usize,
    keys: &KeyCommands,
    bundle: &Bundle,
) -> (r: Option<CompletionContext>)
    requires
        i < tree@.len(),
    ensures
        match r {
            Some(context) => group_asked(
                tree@,
                i as int,
                offset as int,
                keys@,
                bundle.arg_enums@,
            ) == Some(context@),
            None => group_asked(tree@, i as int, offset as int, keys@, bundle.arg_enums@) is None,
        },
{
    let group: usize = match enclosing_group(tree, i) {
        Some(g) => g,
        None => {
            return None;
        },
    };
    let parent: usize = match tree.parent(group) {
        Some(p) => p,
        None => {
            return None;
        },
    };
    match (tree.kind(group), tree.kind(parent)) {
        (SyntaxKind::NAME_GROUP, SyntaxKind::BEGIN) => Some(
            CompletionContext::EnvironmentName {
                prefix: group_prefix(tree, group, offset),
                closing: false,
            },
        ),
        (SyntaxKind::NAME_GROUP, SyntaxKind::END) => Some(
            CompletionContext::EnvironmentName {
                prefix: group_prefix(tree, group, offset),
                closing: true,
            },
        ),
        (SyntaxKind::GROUP, SyntaxKind::COMMAND) => {
            match command_name(tree, parent) {
                Some(name) => {
                    let index: usize = group_index(tree, parent, group);
                    let typed: String = group_prefix(tree, group, offset);
                    command_arg_context(name.as_str(), index, typed, keys, bundle)
                },
                None => None,
            }
        },
        _ => None,
    }
}

/// Offsets are 32 bits wide: a larger one stands for the largest.
pub open spec fn clamped(offset: usize) -> int {
    if offset > u32::MAX {
        u32::MAX as int
    } else {
        offset as int
    }
}

/// What the cursor at byte `offset` asks for: a command name that is being typed on
/// its left, or what the group around the token on its left asks for, or else what the
/// group around the token on its right asks for.
pub open spec fn asked_at(
    t: Seq<syntax::Node>,
    offset: int,
    keys: model::KeyNames,
    enums: Seq<(Seq<char>, Seq<(usize, Seq<Seq<char>>)>)>,
) -> Asked {
    match syntax::tokens_at(t, offset) {
        None => Asked::Nothing,
        Some((left, right)) => match command_name_asked(t, left, offset) {
            Some(asked) => asked,
            None => match group_asked(t, left, offset, keys, enums) {
                Some(asked) => asked,
                None => match group_asked(t, right, offset, keys, enums) {
                    Some(asked) => asked,
                    None => Asked::Nothing,
                },
            },
        },
    }
}

/// What the cursor at byte `offset` is positioned to complete.
pub fn classify_context(
    tree: &SyntaxTree,
    offset: usize,
    keys: &KeyCommands,
    bundle: &Bundle,
) -> (r: CompletionContext)
    requires
        clamped(offset) <= text::utf8_len(syntax::tree_text(tree@)),
    ensures
        r@ == asked_at(tree@, clamped(offset), keys@, bundle.arg_enums@),
{
    let offset: usize = if offset > u32::MAX as usize {
        u32::MAX as usize
    } else {
        offset
    };
    let (left, right) = match tree.tokens_at(offset) {
        Some(pair) => pair,
        None => {
            return CompletionContext::Nothing;
        },
    };
    if let Some(context) = command_name_context(tree, left, offset) {
        return context;
    }
    if let Some(context) = group_context(tree, left, offset, keys, bundle) {
        return context;
    }
    if let Some(context) = group_context(tree, right, offset, keys, bundle) {
        return context;
    }
    CompletionContext::Nothing
}

} // verus!
