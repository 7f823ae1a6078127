//! Code completion: what a cursor position asks for, and the candidates that answer.

use vstd::prelude::*;

use crate::semantic::bundle;

pub mod candidates;
pub mod context;

pub use candidates::candidates;
pub use context::classify_context;

verus! {

/// What the cursor is positioned to complete. `prefix` is what has been typed of it.
#[derive(Debug, Clone, PartialEq, Eq)]
pub enum CompletionContext {
    /// A command name, without the leading backslash.
    CommandName { prefix: String },
    /// The name in `\begin{...}`, or in `\end{...}` when `closing`.
    EnvironmentName { prefix: String, closing: bool },
    /// The key of a command that refers to a label.
    LabelRef { prefix: String },
    /// The key of a command that cites.
    CitationKey { prefix: String },
    /// The key of a command that refers to a glossary entry.
    GlossaryKey { prefix: String },
    /// A path.
    FilePath { prefix: String, kind: FileArgKind },
    /// A package name or a class name.
    PackageName { prefix: String, kind: FileArgKind },
    /// The name of an existing color.
    ColorName { prefix: String },
    /// A color model.
    ColorModel { prefix: String },
    /// A TikZ library, or a PGF library.
    TikzLibrary { prefix: String, pgf: bool },
    /// An argument with a fixed set of values.
    ArgumentEnum { prefix: String, values: Vec<String> },
    /// Nothing.
    Nothing,
}

/// What a `CompletionContext` says.
pub enum Asked {
    CommandName { prefix: Seq<char> },
    EnvironmentName { prefix: Seq<char>, closing: bool },
    LabelRef { prefix: Seq<char> },
    CitationKey { prefix: Seq<char> },
    GlossaryKey { prefix: Seq<char> },
    FilePath { prefix: Seq<char>, kind: FileArgKind },
    PackageName { prefix: Seq<char>, kind: FileArgKind },
    ColorName { prefix: Seq<char> },
    ColorModel { prefix: Seq<char> },
    TikzLibrary { prefix: Seq<char>, pgf: bool },
    ArgumentEnum { prefix: Seq<char>, values: Seq<Seq<char>> },
    Nothing,
}

impl View for CompletionContext {
    type V = Asked;

    open spec fn view(&self) -> Asked {
        match self {
            CompletionContext::CommandName { prefix } => Asked::CommandName { prefix: prefix@ },
            CompletionContext::EnvironmentName { prefix, closing } => Asked::EnvironmentName {
                prefix: prefix@,
                closing: *closing,
            },
            CompletionContext::LabelRef { prefix } => Asked::LabelRef { prefix: prefix@ },
            CompletionContext::CitationKey { prefix } => Asked::CitationKey { prefix: prefix@ },
            CompletionContext::GlossaryKey { prefix } => Asked::GlossaryKey { prefix: prefix@ },
            CompletionContext::FilePath { prefix, kind } => Asked::FilePath {
                prefix: prefix@,
                kind: *kind,
            },
            CompletionContext::PackageName { prefix, kind } => Asked::PackageName {
                prefix: prefix@,
                kind: *kind,
            },
            CompletionContext::ColorName { prefix } => Asked::ColorName { prefix: prefix@ },
            CompletionContext::ColorModel { prefix } => Asked::ColorModel { prefix: prefix@ },
            CompletionContext::TikzLibrary { prefix, pgf } => Asked::TikzLibrary {
                prefix: prefix@,
                pgf: *pgf,
            },
            CompletionContext::ArgumentEnum { prefix, values } => Asked::ArgumentEnum {
                prefix: prefix@,
                values: bundle::strings(values@),
            },
            CompletionContext::Nothing => Asked::Nothing,
        }
    }
}

/// What kind of file a path argument names.
#[derive(Debug, Clone, Copy, PartialEq, Eq, Structural)]
pub enum FileArgKind {
    /// An image.
    Graphics,
    /// A `.tex` source.
    TexSource,
    /// A `.bib` database.
    Bib,
    /// A `.sty` package, or its `.dtx` source.
    Package,
    /// A `.cls` class, or its `.dtx` source.
    Class,
}

/// The extensions of each kind of file, without the dot.
pub open spec fn extensions_of(kind: FileArgKind) -> Seq<Seq<char>> {
    match kind {
        FileArgKind::Graphics => seq![
            "pdf"@,
            "png"@,
            "jpg"@,
            "jpeg"@,
            "eps"@,
            "ps"@,
            "gif"@,
            "svg"@,
            "tif"@,
            "tiff"@,
            "bmp"@,
        ],
        FileArgKind::TexSource => seq!["tex"@],
        FileArgKind::Bib => seq!["bib"@],
        FileArgKind::Package => seq!["sty"@, "dtx"@],
        FileArgKind::Class => seq!["cls"@, "dtx"@],
    }
}

impl FileArgKind {
    /// The extensions of such files, without the dot.
    pub fn extensions(self) -> (r: &'static [&'static str])
        ensures
            r@.map_values(|e: &'static str| e@) == extensions_of(self),
    {
        match self {
            FileArgKind::Graphics => &[
                "pdf",
                "png",
                "jpg",
                "jpeg",
                "eps",
                "ps",
                "gif",
                "svg",
                "tif",
                "tiff",
                "bmp",
            ],
            FileArgKind::TexSource => &["tex"],
            FileArgKind::Bib => &["bib"],
            FileArgKind::Package => &["sty", "dtx"],
            FileArgKind::Class => &["cls", "dtx"],
        }
    }
}

/// What a candidate names.
#[derive(Debug, Clone, Copy, PartialEq, Eq, Structural)]
pub enum CandidateKind {
    Command,
    Environment,
    Label,
    /// A package or a class.
    Package,
    Color,
    ColorModel,
    TikzLibrary,
    ArgumentEnum,
}

/// The number of a kind: its place in the order of declaration.
pub open spec fn kind_code(kind: CandidateKind) -> u16 {
    match kind {
        CandidateKind::Command => 0,
        CandidateKind::Environment => 1,
        CandidateKind::Label => 2,
        CandidateKind::Package => 3,
        CandidateKind::Color => 4,
        CandidateKind::ColorModel => 5,
        CandidateKind::TikzLibrary => 6,
        CandidateKind::ArgumentEnum => 7,
    }
}

impl CandidateKind {
    /// The number of the kind.
    pub fn code(self) -> (r: u16)
        ensures
            r == kind_code(self),
    {
        match self {
            CandidateKind::Command => 0,
            CandidateKind::Environment => 1,
            CandidateKind::Label => 2,
            CandidateKind::Package => 3,
            CandidateKind::Color => 4,
            CandidateKind::ColorModel => 5,
            CandidateKind::TikzLibrary => 6,
            CandidateKind::ArgumentEnum => 7,
        }
    }
}

/// Something that the user may pick.
#[derive(Debug, Clone, PartialEq, Eq)]
pub struct CompletionCandidate {
    /// What is shown, and inserted unless there is an `insert_text`.
    pub label: String,
    pub kind: CandidateKind,
    /// What is inserted in place of the label.
    pub insert_text: Option<String>,
    /// Whether `insert_text` is a snippet, with `$0` where the cursor goes.
    pub snippet: bool,
}

/// What a `CompletionCandidate` says.
pub struct Offer {
    pub label: Seq<char>,
    pub kind: CandidateKind,
    pub insert_text: Option<Seq<char>>,
    pub snippet: bool,
}

impl View for CompletionCandidate {
    type V = Offer;

    open spec fn view(&self) -> Offer {
        Offer {
            label: self.label@,
            kind: self.kind,
            insert_text: match self.insert_text {
                Some(text) => Some(text@),
                None => None,
            },
            snippet: self.snippet,
        }
    }
}

} // verus!
