//! Laws of the arguments of commands: what each of them asks for.

use vstd::prelude::*;

use crate::completion;
use crate::completion::context;
use crate::completion::{Asked, FileArgKind};
use crate::laws::text as scans;
use crate::semantic::bundle;
use crate::semantic::model;
use crate::text;

verus! {

/// All of `space` is white space.
pub open spec fn blank(space: Seq<char>) -> bool {
    forall|i: int| 0 <= i < space.len() ==> text::white_space(#[trigger] space[i])
}

/// `word` does not start with white space.
pub open spec fn starts_dark(word: Seq<char>) -> bool {
    word.len() > 0 ==> !text::white_space(word[0])
}

/// `typed` is `word` behind white space.
pub open spec fn is_word(typed: Seq<char>, space: Seq<char>, word: Seq<char>) -> bool {
    &&& typed == space + word
    &&& blank(space)
    &&& starts_dark(word)
}

/// `typed` is a list with `item` last: nothing or earlier items with the comma behind
/// them, white space, and `item`, which holds no comma.
pub open spec fn is_list(
    typed: Seq<char>,
    head: Seq<char>,
    space: Seq<char>,
    item: Seq<char>,
) -> bool {
    &&& typed == head + space + item
    &&& head.len() > 0 ==> head.last() == ','
    &&& !item.contains(',')
    &&& blank(space)
    &&& starts_dark(item)
}

/// What is typed of a word.
proof fn lemma_word(typed: Seq<char>, space: Seq<char>, word: Seq<char>)
    requires
        is_word(typed, space, word),
    ensures
        text::trimmed_start(typed) == word,
{
    scans::law_trim(space, word);
}

/// What is typed of the last item.
proof fn lemma_item(typed: Seq<char>, head: Seq<char>, space: Seq<char>, item: Seq<char>)
    requires
        is_list(typed, head, space, item),
    ensures
        context::item_typed(typed) == item,
{
    let tail = space + item;
    if tail.contains(',') {
        let k = choose|k: int| 0 <= k < tail.len() && tail[k] == ',';
        if k < space.len() {
            assert(text::white_space(space[k]));
        } else {
            assert(item[k - space.len()] == ',');
        }
    }
    scans::law_last_item(head, tail);
    assert(typed =~= head + tail);
    scans::law_trim(space, item);
}

/// Which files a path may name: images have one of the extensions of images, sources and
/// databases have one extension each, and a package or a class is a file of its own or a
/// documented source.
pub proof fn law_extensions(kind: FileArgKind, extension: Seq<char>)
    ensures
        ({
            let taken = exists|k: int|
                0 <= k < completion::extensions_of(kind).len()
                    && #[trigger] completion::extensions_of(kind)[k] == extension;
            match kind {
                FileArgKind::Graphics => taken <==> (extension == "pdf"@ || extension == "png"@
                    || extension == "jpg"@ || extension == "jpeg"@ || extension == "eps"@
                    || extension == "ps"@ || extension == "gif"@ || extension == "svg"@
                    || extension == "tif"@ || extension == "tiff"@ || extension == "bmp"@),
                FileArgKind::TexSource => taken <==> extension == "tex"@,
                FileArgKind::Bib => taken <==> extension == "bib"@,
                FileArgKind::Package => taken <==> (extension == "sty"@ || extension == "dtx"@),
                FileArgKind::Class => taken <==> (extension == "cls"@ || extension == "dtx"@),
            }
        }),
        completion::extensions_of(kind).len() == (match kind {
            FileArgKind::Graphics => 11nat,
            FileArgKind::TexSource => 1,
            FileArgKind::Bib => 1,
            FileArgKind::Package => 2,
            FileArgKind::Class => 2,
        }),
{
    let all = completion::extensions_of(kind);
    match kind {
        FileArgKind::Graphics => {
            assert(all[0] == "pdf"@ && all[1] == "png"@ && all[2] == "jpg"@ && all[3] == "jpeg"@
                && all[4] == "eps"@ && all[5] == "ps"@ && all[6] == "gif"@ && all[7] == "svg"@
                && all[8] == "tif"@ && all[9] == "tiff"@ && all[10] == "bmp"@);
        },
        FileArgKind::TexSource => {
            assert(all[0] == "tex"@);
        },
        FileArgKind::Bib => {
            assert(all[0] == "bib"@);
        },
        FileArgKind::Package => {
            assert(all[0] == "sty"@ && all[1] == "dtx"@);
        },
        FileArgKind::Class => {
            assert(all[0] == "cls"@ && all[1] == "dtx"@);
        },
    }
}

/// In the first group of a command that takes a key, the key is asked for: of a label or
/// a citation the last item of a list, of a glossary entry all that is typed. The kind of
/// key goes by the first list that has the command.
pub proof fn law_key_arguments(
    name: Seq<char>,
    typed: Seq<char>,
    head: Seq<char>,
    space: Seq<char>,
    item: Seq<char>,
    lead: Seq<char>,
    word: Seq<char>,
    keys: model::KeyNames,
    enums: Seq<(Seq<char>, Seq<(usize, Seq<Seq<char>>)>)>,
)
    requires
        is_list(typed, head, space, item),
        is_word(typed, lead, word),
    ensures
        ({
            let asked = context::argument_asked(name, 0, typed, keys, enums);
            &&& keys.refs.contains(name) ==> asked == Some(Asked::LabelRef { prefix: item })
            &&& !keys.refs.contains(name) && keys.cites.contains(name) ==> asked == Some(
                Asked::CitationKey { prefix: item },
            )
            &&& !keys.refs.contains(name) && !keys.cites.contains(name) && keys.glossary.contains(
                name,
            ) ==> asked == Some(Asked::GlossaryKey { prefix: word })
        }),
{
    lemma_item(typed, head, space, item);
    lemma_word(typed, lead, word);
}

/// The group is no key: it is not the first one, or the command takes no key.
pub open spec fn takes_no_key(name: Seq<char>, index: usize, keys: model::KeyNames) -> bool {
    index > 0 || !(keys.refs.contains(name) || keys.cites.contains(name) || keys.glossary.contains(
        name,
    ))
}

/// Commands whose first group lists packages.
pub open spec fn for_packages(name: Seq<char>, index: usize) -> bool {
    index == 0 && (name == "usepackage"@ || name == "RequirePackage"@)
}

/// Commands whose first group names a class.
pub open spec fn for_class(name: Seq<char>, index: usize) -> bool {
    index == 0 && (name == "documentclass"@ || name == "LoadClass"@ || name
        == "LoadClassWithOptions"@)
}

/// Commands whose first group is the path of an image.
pub open spec fn for_graphics(name: Seq<char>, index: usize) -> bool {
    index == 0 && name == "includegraphics"@
}

/// Commands that read another source: those with the path first, and those with a
/// directory in front of it.
pub open spec fn for_source(name: Seq<char>, index: usize) -> bool {
    ||| index == 0 && (name == "input"@ || name == "include"@ || name == "subfile"@)
    ||| index == 1 && (name == "import"@ || name == "subimport"@)
}

/// Commands whose first group is the path of a bibliography.
pub open spec fn for_bibliography(name: Seq<char>, index: usize) -> bool {
    index == 0 && (name == "bibliography"@ || name == "addbibresource"@)
}

/// Groups that take the name of a color: the color of text or a page, the two colors of
/// a framed box, and the color that another one is made from.
pub open spec fn for_color(name: Seq<char>, index: usize) -> bool {
    ||| index == 0 && (name == "color"@ || name == "textcolor"@ || name == "colorbox"@ || name
        == "pagecolor"@ || name == "fcolorbox"@)
    ||| index == 1 && (name == "fcolorbox"@ || name == "colorlet"@)
}

/// Groups that take the model of a color that is being defined.
pub open spec fn for_model(name: Seq<char>, index: usize) -> bool {
    index == 1 && (name == "definecolor"@ || name == "providecolor"@)
}

/// Commands whose first group lists TikZ libraries.
pub open spec fn for_tikz(name: Seq<char>, index: usize) -> bool {
    index == 0 && name == "usetikzlibrary"@
}

/// Commands whose first group lists PGF libraries.
pub open spec fn for_pgf(name: Seq<char>, index: usize) -> bool {
    index == 0 && name == "usepgflibrary"@
}

/// The lengths and first letters of the names that have an argument of their own: no two
/// of them are the same, but for two that differ further on.
proof fn lemma_names_differ()
    ensures
        "usepackage"@.len() == 10 && "usepackage"@[0] == 'u',
        "RequirePackage"@.len() == 14 && "RequirePackage"@[0] == 'R',
        "documentclass"@.len() == 13 && "documentclass"@[0] == 'd',
        "LoadClass"@.len() == 9 && "LoadClass"@[0] == 'L',
        "LoadClassWithOptions"@.len() == 20 && "LoadClassWithOptions"@[0] == 'L',
        "includegraphics"@.len() == 15 && "includegraphics"@[0] == 'i',
        "input"@.len() == 5 && "input"@[0] == 'i',
        "include"@.len() == 7 && "include"@[0] == 'i',
        "subfile"@.len() == 7 && "subfile"@[0] == 's',
        "import"@.len() == 6 && "import"@[0] == 'i',
        "subimport"@.len() == 9 && "subimport"@[0] == 's',
        "bibliography"@.len() == 12 && "bibliography"@[0] == 'b',
        "addbibresource"@.len() == 14 && "addbibresource"@[0] == 'a',
        "color"@.len() == 5 && "color"@[0] == 'c',
        "textcolor"@.len() == 9 && "textcolor"@[0] == 't',
        "colorbox"@.len() == 8 && "colorbox"@[0] == 'c',
        "pagecolor"@.len() == 9 && "pagecolor"@[0] == 'p',
        "fcolorbox"@.len() == 9 && "fcolorbox"@[0] == 'f',
        "colorlet"@.len() == 8 && "colorlet"@[0] == 'c',
        "definecolor"@.len() == 11 && "definecolor"@[0] == 'd',
        "providecolor"@.len() == 12 && "providecolor"@[0] == 'p',
        "usetikzlibrary"@.len() == 14 && "usetikzlibrary"@[0] == 'u',
        "usepgflibrary"@.len() == 13 && "usepgflibrary"@[0] == 'u',
        "colorbox"@[5] == 'b' && "colorlet"@[5] == 'l',
{
    reveal_strlit("usepackage");
    reveal_strlit("RequirePackage");
    reveal_strlit("documentclass");
    reveal_strlit("LoadClass");
    reveal_strlit("LoadClassWithOptions");
    reveal_strlit("includegraphics");
    reveal_strlit("input");
    reveal_strlit("include");
    reveal_strlit("subfile");
    reveal_strlit("import");
    reveal_strlit("subimport");
    reveal_strlit("bibliography");
    reveal_strlit("addbibresource");
    reveal_strlit("color");
    reveal_strlit("textcolor");
    reveal_strlit("colorbox");
    reveal_strlit("pagecolor");
    reveal_strlit("fcolorbox");
    reveal_strlit("colorlet");
    reveal_strlit("definecolor");
    reveal_strlit("providecolor");
    reveal_strlit("usetikzlibrary");
    reveal_strlit("usepgflibrary");
}

/// What the group of a command asks for that takes a package, a class, a path, a color,
/// a color model or a library: of a list the last item, of a path all of it, of anything
/// else the word without the white space in front of it.
pub proof fn law_argument_table(
    name: Seq<char>,
    index: usize,
    typed: Seq<char>,
    head: Seq<char>,
    space: Seq<char>,
    item: Seq<char>,
    lead: Seq<char>,
    word: Seq<char>,
    keys: model::KeyNames,
    enums: Seq<(Seq<char>, Seq<(usize, Seq<Seq<char>>)>)>,
)
    requires
        takes_no_key(name, index, keys),
        is_list(typed, head, space, item),
        is_word(typed, lead, word),
    ensures
        ({
            let asked = context::argument_asked(name, index, typed, keys, enums);
            &&& for_packages(name, index) ==> asked == Some(
                Asked::PackageName { prefix: item, kind: FileArgKind::Package },
            )
            &&& for_class(name, index) ==> asked == Some(
                Asked::PackageName { prefix: item, kind: FileArgKind::Class },
            )
            &&& for_graphics(name, index) ==> asked == Some(
                Asked::FilePath { prefix: typed, kind: FileArgKind::Graphics },
            )
            &&& for_source(name, index) ==> asked == Some(
                Asked::FilePath { prefix: typed, kind: FileArgKind::TexSource },
            )
            &&& for_bibliography(name, index) ==> asked == Some(
                Asked::FilePath { prefix: typed, kind: FileArgKind::Bib },
            )
            &&& for_color(name, index) ==> asked == Some(Asked::ColorName { prefix: word })
            &&& for_model(name, index) ==> asked == Some(Asked::ColorModel { prefix: word })
            &&& for_tikz(name, index) ==> asked == Some(
                Asked::TikzLibrary { prefix: item, pgf: false },
            )
            &&& for_pgf(name, index) ==> asked == Some(
                Asked::TikzLibrary { prefix: item, pgf: true },
            )
        }),
{
    lemma_item(typed, head, space, item);
    lemma_word(typed, lead, word);
    lemma_names_differ();
    law_tables(name, index);
}

/// Any other group asks for one of the fixed values that its table gives it, and for
/// nothing when there are none.
pub proof fn law_fixed_values(
    name: Seq<char>,
    index: usize,
    typed: Seq<char>,
    lead: Seq<char>,
    word: Seq<char>,
    keys: model::KeyNames,
    enums: Seq<(Seq<char>, Seq<(usize, Seq<Seq<char>>)>)>,
)
    requires
        takes_no_key(name, index, keys),
        !for_packages(name, index),
        !for_class(name, index),
        !for_graphics(name, index),
        !for_source(name, index),
        !for_bibliography(name, index),
        !for_color(name, index),
        !for_model(name, index),
        !for_tikz(name, index),
        !for_pgf(name, index),
        is_word(typed, lead, word),
    ensures
        bundle::enum_values(enums, name, index) matches Some(values) ==> context::argument_asked(
            name,
            index,
            typed,
            keys,
            enums,
        ) == Some(Asked::ArgumentEnum { prefix: word, values }),
        bundle::enum_values(enums, name, index) is None ==> context::argument_asked(
            name,
            index,
            typed,
            keys,
            enums,
        ) is None,
{
    lemma_word(typed, lead, word);
    law_tables(name, index);
}

/// Each table by itself: which groups take a color, a model, a library, a package, a
/// class or a path, and no others.
pub proof fn law_tables(name: Seq<char>, index: usize)
    ensures
        context::takes_color(name, index as int) <==> for_color(name, index),
        context::takes_model(name, index as int) <==> for_model(name, index),
        context::loads_pgf(name) == Some(true) <==> for_pgf(name, 0),
        context::loads_pgf(name) == Some(false) <==> for_tikz(name, 0),
        context::loads_package(name) == Some(FileArgKind::Package) <==> for_packages(name, 0),
        context::loads_package(name) == Some(FileArgKind::Class) <==> for_class(name, 0),
        context::loads_package(name) is Some <==> for_packages(name, 0) || for_class(name, 0),
        context::takes_file(name) == Some((FileArgKind::Graphics, index as int)) <==> for_graphics(
            name,
            index,
        ),
        context::takes_file(name) == Some((FileArgKind::TexSource, index as int)) <==> for_source(
            name,
            index,
        ),
        context::takes_file(name) == Some((FileArgKind::Bib, index as int)) <==> for_bibliography(
            name,
            index,
        ),
        context::takes_file(name) matches Some((_, at)) ==> at == 0 || at == 1,
        context::takes_file(name) is Some <==> for_graphics(name, 0) || for_source(name, 0)
            || for_source(name, 1) || for_bibliography(name, 0),
{
    lemma_names_differ();
}

} // verus!
